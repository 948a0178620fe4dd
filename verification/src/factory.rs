//! The factory: the registry of the campaigns it has deployed.

use crate::contract::generic_error;
use crate::error::{overflow, overflow_error, ContractError, ContractErrorView, StdError};
use crate::msg::{
    text_view, Env, InstantiateMsg as CampaignInstantiateMsg, InstantiateMsgView, MessageInfo,
};
use crate::state::{
    AssetTokenInfo, CampaignInfoResult, CampaignInfoResultView, LockupTerm, TokenInfo,
    TokenInfoView,
};
use vstd::prelude::*;

verus! {

/// The settings of the factory.
#[derive(Clone, Debug, PartialEq, Eq)]
pub struct Config {
    pub owner: String,
    /// Code from which campaigns are deployed.
    pub campaign_code_id: u64,
    /// Whether anybody may create a campaign, or the owner alone.
    pub allow_create_for_all: bool,
}

/// Mathematical value of a [`Config`].
pub struct ConfigView {
    pub owner: Seq<char>,
    pub campaign_code_id: u64,
    pub allow_create_for_all: bool,
}

impl View for Config {
    type V = ConfigView;

    open spec fn view(&self) -> ConfigView {
        ConfigView {
            owner: self.owner@,
            campaign_code_id: self.campaign_code_id,
            allow_create_for_all: self.allow_create_for_all,
        }
    }
}

/// The answer to a question about the settings of the factory.
#[derive(Clone, Debug, PartialEq, Eq)]
pub struct ConfigResponse {
    pub owner: String,
    pub campaign_code_id: u64,
}

/// A campaign that the factory has deployed.
#[derive(Clone, Debug, PartialEq, Eq)]
pub struct FactoryCampaign {
    pub owner: String,
    pub campaign_addr: String,
    pub reward_token: TokenInfo,
    pub allowed_collection: String,
}

/// Mathematical value of a [`FactoryCampaign`].
pub struct FactoryCampaignView {
    pub owner: Seq<char>,
    pub campaign_addr: Seq<char>,
    pub reward_token: TokenInfoView,
    pub allowed_collection: Seq<char>,
}

impl View for FactoryCampaign {
    type V = FactoryCampaignView;

    open spec fn view(&self) -> FactoryCampaignView {
        FactoryCampaignView {
            owner: self.owner@,
            campaign_addr: self.campaign_addr@,
            reward_token: self.reward_token@,
            allowed_collection: self.allowed_collection@,
        }
    }
}

impl FactoryCampaign {
    /// A copy with the same value.
    pub fn duplicate(&self) -> (r: FactoryCampaign)
        ensures
            r@ == self@,
    {
        FactoryCampaign {
            owner: self.owner.clone(),
            campaign_addr: self.campaign_addr.clone(),
            reward_token: self.reward_token.duplicate(),
            allowed_collection: self.allowed_collection.clone(),
        }
    }
}

/// Values of a list of deployed campaigns.
pub open spec fn campaigns_view(campaigns: Seq<FactoryCampaign>) -> Seq<FactoryCampaignView> {
    campaigns.map_values(|c: FactoryCampaign| c@)
}

/// Values of a list of texts.
pub open spec fn texts_view(texts: Seq<String>) -> Seq<Seq<char>> {
    texts.map_values(|t: String| t@)
}

/// Everything the factory keeps: its settings, the campaigns it has
/// deployed (the campaign with key `k` stands at index `k - 1`), and their
/// addresses.
#[derive(Clone, Debug, PartialEq, Eq)]
pub struct Factory {
    pub config: Config,
    pub campaigns: Vec<FactoryCampaign>,
    pub addr_campaigns: Vec<String>,
}

/// Mathematical value of a [`Factory`].
pub struct FactoryView {
    pub config: ConfigView,
    pub campaigns: Seq<FactoryCampaignView>,
    pub addr_campaigns: Seq<Seq<char>>,
}

impl View for Factory {
    type V = FactoryView;

    open spec fn view(&self) -> FactoryView {
        FactoryView {
            config: self.config@,
            campaigns: campaigns_view(self.campaigns@),
            addr_campaigns: texts_view(self.addr_campaigns@),
        }
    }
}

/// The settings with which a factory is created.
#[derive(Clone, Debug, PartialEq, Eq)]
pub struct InstantiateMsg {
    pub campaign_code_id: u64,
    pub allow_create_for_all: bool,
}

/// The configuration of a campaign that the factory is asked to deploy.
#[derive(Clone, Debug, PartialEq, Eq)]
pub struct CreateCampaign {
    pub owner: String,
    pub campaign_name: String,
    pub campaign_image: String,
    pub campaign_description: String,
    pub start_time: u64,
    pub end_time: u64,
    pub limit_per_staker: u64,
    pub reward_token_info: AssetTokenInfo,
    pub allowed_collection: String,
    pub lockup_term: Vec<LockupTerm>,
}

impl View for CreateCampaign {
    type V = InstantiateMsgView;

    /// The configuration that the deployed campaign is created with.
    open spec fn view(&self) -> InstantiateMsgView {
        InstantiateMsgView {
            owner: self.owner@,
            campaign_name: self.campaign_name@,
            campaign_image: self.campaign_image@,
            campaign_description: self.campaign_description@,
            limit_per_staker: self.limit_per_staker,
            reward_token_info: self.reward_token_info@,
            allowed_collection: self.allowed_collection@,
            lockup_term: self.lockup_term@,
            start_time: self.start_time,
            end_time: self.end_time,
        }
    }
}

/// An order to deploy a campaign: the code, the address that administers
/// the new contract, its label, and the configuration it is created with.
#[derive(Clone, Debug, PartialEq, Eq)]
pub struct Deployment {
    pub code_id: u64,
    pub admin: String,
    pub label: String,
    pub msg: CampaignInstantiateMsg,
}

/// Label of a deployed campaign.
pub open spec fn deployment_label() -> Seq<char> {
    "pair"@
}

/// The report on a deployment that the factory had ordered: the data that
/// the creation of the new contract left, or the text of the error.
#[derive(Debug)]
pub struct Reply {
    pub id: u64,
    pub result: Result<Option<Vec<u8>>, String>,
}

impl ConfigView {
    /// Whether `sender` may create a campaign.
    pub open spec fn may_create(self, sender: Seq<char>) -> bool {
        self.allow_create_for_all || self.owner == sender
    }

    /// The settings with the values of a change that are present in place
    /// of the stored ones.
    pub open spec fn patched(
        self,
        owner: Option<Seq<char>>,
        campaign_code_id: Option<u64>,
        allow_create_for_all: Option<bool>,
    ) -> ConfigView {
        ConfigView {
            owner: owner.unwrap_or(self.owner),
            campaign_code_id: campaign_code_id.unwrap_or(self.campaign_code_id),
            allow_create_for_all: allow_create_for_all.unwrap_or(self.allow_create_for_all),
        }
    }
}

impl FactoryView {
    /// The factory after a campaign deployed at `address` has been
    /// recorded under the next key.
    pub open spec fn recorded(
        self,
        address: Seq<char>,
        campaign: CampaignInfoResultView,
    ) -> FactoryView {
        FactoryView {
            campaigns: self.campaigns.push(
                FactoryCampaignView {
                    owner: campaign.owner,
                    campaign_addr: address,
                    reward_token: campaign.reward_token_info.info,
                    allowed_collection: campaign.allowed_collection,
                },
            ),
            addr_campaigns: self.addr_campaigns.push(address),
            ..self
        }
    }

    /// The page of the deployed campaigns that starts after key
    /// `start_after` and holds at most `limit` campaigns.
    pub open spec fn page(self, start_after: int, limit: int) -> Seq<FactoryCampaignView> {
        if 0 <= start_after < self.campaigns.len() && limit >= 0 {
            if start_after + limit < self.campaigns.len() {
                self.campaigns.subrange(start_after, start_after + limit)
            } else {
                self.campaigns.subrange(start_after, self.campaigns.len() as int)
            }
        } else {
            Seq::empty()
        }
    }
}

/// Number of campaigns on a page for which no limit is given.
pub const DEFAULT_LIMIT: u32 = 30;

/// Creates a factory that the sender owns.
pub fn instantiate(info: &MessageInfo, msg: InstantiateMsg) -> (factory: Factory)
    ensures
        factory@ == (FactoryView {
            config: ConfigView {
                owner: info.sender@,
                campaign_code_id: msg.campaign_code_id,
                allow_create_for_all: msg.allow_create_for_all,
            },
            campaigns: Seq::empty(),
            addr_campaigns: Seq::empty(),
        }),
{
    let factory = Factory {
        config: Config {
            owner: info.sender.clone(),
            campaign_code_id: msg.campaign_code_id,
            allow_create_for_all: msg.allow_create_for_all,
        },
        campaigns: Vec::new(),
        addr_campaigns: Vec::new(),
    };
    proof {
        assert(factory@.campaigns =~= Seq::<FactoryCampaignView>::empty());
        assert(factory@.addr_campaigns =~= Seq::<Seq<char>>::empty());
    }
    factory
}

/// Changes the settings of the factory; only its owner may.
pub fn execute_update_config(
    deps: &mut Factory,
    info: &MessageInfo,
    owner: Option<String>,
    campaign_code_id: Option<u64>,
    allow_create_for_all: Option<bool>,
) -> (r: Result<(), ContractError>)
    ensures
        match r {
            Ok(()) => info.sender@ == old(deps)@.config.owner && final(deps)@ == (FactoryView {
                config: old(deps)@.config.patched(
                    text_view(owner),
                    campaign_code_id,
                    allow_create_for_all,
                ),
                ..old(deps)@
            }),
            Err(e) => info.sender@ != old(deps)@.config.owner && e@
                == ContractErrorView::Unauthorized && final(deps)@ == old(deps)@,
        },
{
    if !(info.sender == deps.config.owner) {
        return Err(ContractError::Unauthorized {  });
    }
    match owner {
        Some(new_owner) => {
            deps.config.owner = new_owner;
        },
        None => {},
    }
    match campaign_code_id {
        Some(code_id) => {
            deps.config.campaign_code_id = code_id;
        },
        None => {},
    }
    match allow_create_for_all {
        Some(allow) => {
            deps.config.allow_create_for_all = allow;
        },
        None => {},
    }
    Ok(())
}

/// Orders the deployment of a campaign. Where not everybody may create
/// campaigns, only the owner of the factory may.
pub fn execute_create_campaign(
    deps: &Factory,
    env: &Env,
    info: &MessageInfo,
    create_campaign: CreateCampaign,
) -> (r: Result<Deployment, ContractError>)
    ensures
        match r {
            Ok(order) => {
                &&& deps@.config.may_create(info.sender@)
                &&& order.code_id == deps@.config.campaign_code_id
                &&& order.admin@ == env.contract_address@
                &&& order.label@ == deployment_label()
                &&& order.msg@ == create_campaign@
            },
            Err(e) => !deps@.config.may_create(info.sender@) && e@
                == ContractErrorView::Unauthorized,
        },
{
    if !deps.config.allow_create_for_all && !(deps.config.owner == info.sender) {
        return Err(ContractError::Unauthorized {  });
    }
    Ok(
        Deployment {
            code_id: deps.config.campaign_code_id,
            admin: env.contract_address.clone(),
            label: "pair".to_owned(),
            msg: CampaignInstantiateMsg {
                owner: create_campaign.owner,
                campaign_name: create_campaign.campaign_name,
                campaign_image: create_campaign.campaign_image,
                campaign_description: create_campaign.campaign_description,
                limit_per_staker: create_campaign.limit_per_staker,
                reward_token_info: create_campaign.reward_token_info,
                allowed_collection: create_campaign.allowed_collection,
                lockup_term: create_campaign.lockup_term,
                start_time: create_campaign.start_time,
                end_time: create_campaign.end_time,
            },
        },
    )
}

/// The address that the decoder of `cw_utils` reads from the data of a
/// successful report, where it reads one. The decoder narrows a length of
/// 64 bits to a machine word, so the largest word, `word_max`, is part of
/// what decides.
pub uninterp spec fn instantiate_address(data: Seq<u8>, word_max: nat) -> Option<Seq<char>>;

/// The address of the contract that a deployment created, read from the
/// report on it.
///
/// Calls `cw_utils::parse_reply_instantiate_data`. A failed deployment and
/// a report without data give no address; for a report with data the
/// decoder decides, from the data alone on a given machine, and the
/// contract gives its answer a name.
#[verifier::external_body]
fn parse_reply(reply: &Reply) -> (address: Option<String>)
    ensures
        text_view(address) == match reply.result {
            Ok(Some(data)) => instantiate_address(data@, usize::MAX as nat),
            _ => None,
        },
{
    let result = match &reply.result {
        Ok(data) => cosmwasm_std::SubMsgResult::Ok(
            cosmwasm_std::SubMsgResponse {
                events: Vec::new(),
                data: data.clone().map(cosmwasm_std::Binary),
            },
        ),
        Err(text) => cosmwasm_std::SubMsgResult::Err(text.clone()),
    };
    match cw_utils::parse_reply_instantiate_data(cosmwasm_std::Reply { id: reply.id, result }) {
        Ok(parsed) => Some(parsed.contract_address),
        Err(_) => None,
    }
}

/// Records a campaign deployed at `address` under the next key, which is
/// returned.
pub fn record_campaign(deps: &mut Factory, address: String, campaign: &CampaignInfoResult) -> (r:
    Result<u64, ContractError>)
    ensures
        match r {
            Ok(key) => key == old(deps)@.campaigns.len() + 1 && final(deps)@ == old(
                deps,
            )@.recorded(address@, campaign@),
            Err(e) => old(deps)@.campaigns.len() + 1 > u64::MAX && e@ == overflow_error()
                && final(deps)@ == old(deps)@,
        },
{
    if deps.campaigns.len() as u64 >= u64::MAX {
        return Err(overflow());
    }
    let key: u64 = deps.campaigns.len() as u64 + 1;
    deps.campaigns.push(
        FactoryCampaign {
            owner: campaign.owner.clone(),
            campaign_addr: address.clone(),
            reward_token: campaign.reward_token_info.info.duplicate(),
            allowed_collection: campaign.allowed_collection.clone(),
        },
    );
    deps.addr_campaigns.push(address);
    proof {
        let goal = old(deps)@.recorded(address@, campaign@);
        assert(deps@.campaigns =~= goal.campaigns);
        assert(deps@.addr_campaigns =~= goal.addr_campaigns);
    }
    Ok(key)
}

/// Message of the error for a report from which no address can be read.
pub open spec fn no_address_text() -> Seq<char> {
    "no contract address in the reply"@
}

/// The address that a report on a deployment carries: that which the
/// decoder reads from the data of a successful report, none for a failed
/// deployment and for a report without data.
pub open spec fn reply_address(result: Result<Option<Vec<u8>>, String>) -> Option<Seq<char>> {
    match result {
        Ok(Some(data)) => instantiate_address(data@, usize::MAX as nat),
        _ => None,
    }
}

/// Takes the report on a deployment and reads the address of the new
/// campaign from it, under which the campaign is then recorded. A report
/// that carries no address is refused.
pub fn reply(msg: &Reply) -> (r: Result<String, ContractError>)
    ensures
        match r {
            Ok(address) => reply_address(msg.result) == Some(address@),
            Err(e) => reply_address(msg.result).is_none() && e@ == generic_error(
                no_address_text(),
            ),
        },
{
    match parse_reply(msg) {
        Some(address) => Ok(address),
        None => Err(
            ContractError::Std(
                StdError::GenericErr { msg: "no contract address in the reply".to_owned() },
            ),
        ),
    }
}

/// The settings of the factory.
pub fn query_config(deps: &Factory) -> (r: ConfigResponse)
    ensures
        r.owner@ == deps@.config.owner,
        r.campaign_code_id == deps@.config.campaign_code_id,
{
    ConfigResponse {
        owner: deps.config.owner.clone(),
        campaign_code_id: deps.config.campaign_code_id,
    }
}

/// Kind of the record of a deployed campaign.
pub open spec fn campaign_kind() -> Seq<char> {
    "FactoryCampaign"@
}

/// The campaign recorded under `campaign_id`.
pub fn query_campaign_info(deps: &Factory, campaign_id: u64) -> (r: Result<
    FactoryCampaign,
    ContractError,
>)
    ensures
        match r {
            Ok(campaign) => 1 <= campaign_id <= deps@.campaigns.len() && campaign@
                == deps@.campaigns[campaign_id - 1],
            Err(e) => !(1 <= campaign_id <= deps@.campaigns.len()) && e@
                == crate::staking::not_found(campaign_kind()),
        },
{
    if campaign_id < 1 || campaign_id > deps.campaigns.len() as u64 {
        return Err(ContractError::Std(StdError::NotFound { kind: "FactoryCampaign".to_owned() }));
    }
    Ok(deps.campaigns[(campaign_id - 1) as usize].duplicate())
}

/// The campaigns recorded under the keys after `start_after`, at most
/// `limit` of them, and at most [`DEFAULT_LIMIT`] where no limit is given.
pub fn query_campaigns(deps: &Factory, start_after: Option<u64>, limit: Option<u32>) -> (r: Vec<
    FactoryCampaign,
>)
    ensures
        campaigns_view(r@) == deps@.page(
            match start_after {
                Some(k) => k as int,
                None => 0,
            },
            match limit {
                Some(l) => l as int,
                None => DEFAULT_LIMIT as int,
            },
        ),
{
    let count: usize = deps.campaigns.len();
    let first: u64 = match start_after {
        Some(k) => k,
        None => 0,
    };
    let most: u32 = match limit {
        Some(l) => l,
        None => DEFAULT_LIMIT,
    };
    let mut out: Vec<FactoryCampaign> = Vec::new();
    proof {
        assert(campaigns_view(out@) =~= Seq::<FactoryCampaignView>::empty());
    }
    if first >= count as u64 {
        return out;
    }
    let from: usize = first as usize;
    let to: usize = if (most as usize) < count - from {
        from + most as usize
    } else {
        count
    };
    let ghost all = deps@.campaigns;
    let mut i: usize = from;
    while i < to
        invariant
            from <= i <= to <= count,
            count == deps.campaigns.len(),
            all == campaigns_view(deps.campaigns@),
            campaigns_view(out@) == all.subrange(from as int, i as int),
        decreases to - i,
    {
        let ghost listed = campaigns_view(out@);
        out.push(deps.campaigns[i].duplicate());
        proof {
            assert(campaigns_view(out@) =~= listed.push(deps.campaigns@[i as int]@));
            assert(all.subrange(from as int, i + 1) =~= all.subrange(from as int, i as int).push(
                all[i as int],
            ));
        }
        i += 1;
    }
    out
}

/// The addresses of the deployed campaigns, in the order of their
/// deployment.
pub fn query_addr_campaigns(deps: &Factory) -> (r: Vec<String>)
    ensures
        texts_view(r@) == deps@.addr_campaigns,
{
    let mut out: Vec<String> = Vec::new();
    let mut i: usize = 0;
    while i < deps.addr_campaigns.len()
        invariant
            i <= deps.addr_campaigns.len(),
            out@.len() == i,
            forall|k: int| 0 <= k < i ==> (#[trigger] out@[k])@ == deps.addr_campaigns@[k]@,
        decreases deps.addr_campaigns.len() - i,
    {
        out.push(deps.addr_campaigns[i].clone());
        i += 1;
    }
    proof {
        assert(texts_view(out@) =~= deps@.addr_campaigns);
    }
    out
}

} // verus!
