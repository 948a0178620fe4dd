//! Creating a campaign, adding to its reward, and changing its
//! configuration.

use crate::error::{
    overflow, overflow_error, ContractError, ContractErrorView, StdError, StdErrorView,
};
use crate::msg::{
    action_attr, amount_attr, covers, has_coins, number_attr, tell_action, tell_amount, tell_number,
    tell_text, text_attr, AttrValue, AttrValueView, Attribute, AttributeView, CampaignInfoUpdate,
    CampaignInfoUpdateView, Env, EnvView, InstantiateMsg, InstantiateMsgView, Message, MessageInfo,
    MessageInfoView, MessageView, Response,
};
use crate::state::{
    copy_terms, AssetTokenInfo, AssetTokenInfoView, Campaign, CampaignInfo, CampaignInfoView,
    CampaignView, NftInfoView, StakerView, TokenInfo, TokenInfoView,
};
use vstd::prelude::*;
use vstd::utf8::encode_utf8;

verus! {

/// The longest time a campaign may run, in seconds: three years.
pub const MAX_TIME_VALID: u64 = 94608000;

/// The longest campaign name, in bytes.
pub const MAX_LENGTH_NAME: usize = 100;

/// The longest campaign description, in bytes.
pub const MAX_LENGTH_DESCRIPTION: usize = 500;

/// What a call on a campaign comes to: the campaign after it with the
/// transfers to carry out, or the reason for which it was refused.
pub type Outcome = Result<(CampaignView, Seq<MessageView>), ContractErrorView>;

/// Length of a text in bytes.
pub open spec fn text_len(text: Seq<char>) -> nat {
    encode_utf8(text).len()
}

/// Message of the error for a campaign that would not start before it ends.
pub open spec fn start_after_end_text() -> Seq<char> {
    "## Start time is greater than end time ##"@
}

/// Message of the error for a campaign that would start in the past.
pub open spec fn start_in_past_text() -> Seq<char> {
    "## Current time is greater than start time ##"@
}

/// The error with the message `msg`.
pub open spec fn generic_error(msg: Seq<char>) -> ContractErrorView {
    ContractErrorView::Std(StdErrorView::GenericErr { msg })
}

/// Why a campaign with these texts and times cannot be, if it cannot: it
/// would run longer than [`MAX_TIME_VALID`], its name or its description is
/// too long, or it would not start before it ends.
pub open spec fn shape_error(
    name: Seq<char>,
    description: Seq<char>,
    start_time: u64,
    end_time: u64,
) -> Option<ContractErrorView> {
    if start_time < end_time && end_time - start_time > MAX_TIME_VALID {
        Some(ContractErrorView::LimitStartDate)
    } else if text_len(name) > MAX_LENGTH_NAME {
        Some(ContractErrorView::LimitCharacter)
    } else if text_len(description) > MAX_LENGTH_DESCRIPTION {
        Some(ContractErrorView::LimitCharacter)
    } else if start_time >= end_time {
        Some(generic_error(start_after_end_text()))
    } else {
        None
    }
}

/// Checks the texts and times of a campaign.
fn validate_shape(
    name: &String,
    description: &String,
    start_time: u64,
    end_time: u64,
) -> (r: Result<(), ContractError>)
    ensures
        match r {
            Ok(()) => shape_error(name@, description@, start_time, end_time).is_none(),
            Err(e) => shape_error(name@, description@, start_time, end_time) == Some(e@),
        },
{
    if start_time < end_time && end_time - start_time > MAX_TIME_VALID {
        return Err(ContractError::LimitStartDate {  });
    }
    if name.as_str().as_bytes().len() > MAX_LENGTH_NAME {
        return Err(ContractError::LimitCharacter {  });
    }
    if description.as_str().as_bytes().len() > MAX_LENGTH_DESCRIPTION {
        return Err(ContractError::LimitCharacter {  });
    }
    if start_time >= end_time {
        return Err(
            ContractError::Std(
                StdError::GenericErr {
                    msg: "## Start time is greater than end time ##".to_owned(),
                },
            ),
        );
    }
    Ok(())
}

/// The campaign that `msg` describes, or why there is none: a fresh
/// campaign holds no reward, no position and no staker.
pub open spec fn instantiated(msg: InstantiateMsgView) -> Result<CampaignView, ContractErrorView> {
    match shape_error(msg.campaign_name, msg.campaign_description, msg.start_time, msg.end_time) {
        Some(e) => Err(e),
        None => Ok(
            CampaignView {
                info: CampaignInfoView {
                    owner: msg.owner,
                    campaign_name: msg.campaign_name,
                    campaign_image: msg.campaign_image,
                    campaign_description: msg.campaign_description,
                    total_reward_claimed: 0,
                    total_reward: 0,
                    limit_per_staker: msg.limit_per_staker,
                    reward_token_info: AssetTokenInfoView {
                        info: msg.reward_token_info.info,
                        amount: 0,
                    },
                    allowed_collection: msg.allowed_collection,
                    lockup_term: msg.lockup_term,
                    reward_per_second: 0,
                    end_calc_nft: Set::empty(),
                    time_calc_nft: 0,
                    start_time: msg.start_time,
                    end_time: msg.end_time,
                },
                nfts: Seq::empty(),
                stakers: Seq::empty(),
            },
        ),
    }
}

/// What the creation of a campaign tells: its configuration.
pub open spec fn instantiate_told(msg: InstantiateMsgView) -> Seq<AttributeView> {
    seq![
        action_attr("instantiate"@),
        text_attr("owner"@, msg.owner),
        text_attr("campaign_name"@, msg.campaign_name),
        text_attr("campaign_image"@, msg.campaign_image),
        text_attr("campaign_description"@, msg.campaign_description),
        number_attr("limit_per_staker"@, msg.limit_per_staker),
        text_attr("reward_token_info"@, msg.reward_token_info.info.text()),
        text_attr("allowed_collection"@, msg.allowed_collection),
        AttributeView { key: "lockup_term"@, value: AttrValueView::Terms(msg.lockup_term) },
        number_attr("start_time"@, msg.start_time),
        number_attr("end_time"@, msg.end_time),
    ]
}

/// Creates a campaign from its configuration.
pub fn instantiate(msg: InstantiateMsg) -> (r: Result<(Campaign, Response), ContractError>)
    ensures
        match r {
            Ok((campaign, response)) => {
                &&& instantiated(msg@) == Ok::<CampaignView, ContractErrorView>(campaign@)
                &&& campaign@.wf()
                &&& response@.messages == Seq::<MessageView>::empty()
                &&& response@.attributes == instantiate_told(msg@)
            },
            Err(e) => instantiated(msg@) == Err::<CampaignView, ContractErrorView>(e@),
        },
{
    match validate_shape(
        &msg.campaign_name,
        &msg.campaign_description,
        msg.start_time,
        msg.end_time,
    ) {
        Err(e) => {
            return Err(e);
        },
        Ok(()) => {},
    }
    let mut attributes: Vec<Attribute> = Vec::new();
    attributes.push(tell_action("instantiate"));
    attributes.push(tell_text("owner", &msg.owner));
    attributes.push(tell_text("campaign_name", &msg.campaign_name));
    attributes.push(tell_text("campaign_image", &msg.campaign_image));
    attributes.push(tell_text("campaign_description", &msg.campaign_description));
    attributes.push(tell_number("limit_per_staker", msg.limit_per_staker));
    attributes.push(tell_text("reward_token_info", &msg.reward_token_info.info.text()));
    attributes.push(tell_text("allowed_collection", &msg.allowed_collection));
    attributes.push(
        Attribute {
            key: "lockup_term".to_owned(),
            value: AttrValue::Terms(copy_terms(&msg.lockup_term)),
        },
    );
    attributes.push(tell_number("start_time", msg.start_time));
    attributes.push(tell_number("end_time", msg.end_time));
    let response = Response { messages: Vec::new(), attributes };
    proof {
        assert(response@.messages =~= Seq::<MessageView>::empty());
        assert(response@.attributes =~= instantiate_told(msg@));
    }
    let campaign = Campaign {
        info: CampaignInfo {
            owner: msg.owner,
            campaign_name: msg.campaign_name,
            campaign_image: msg.campaign_image,
            campaign_description: msg.campaign_description,
            total_reward_claimed: 0,
            total_reward: 0,
            limit_per_staker: msg.limit_per_staker,
            reward_token_info: AssetTokenInfo { info: msg.reward_token_info.info, amount: 0 },
            allowed_collection: msg.allowed_collection,
            lockup_term: msg.lockup_term,
            reward_per_second: 0,
            end_calc_nft: Vec::new(),
            time_calc_nft: 0,
            start_time: msg.start_time,
            end_time: msg.end_time,
        },
        nfts: Vec::new(),
        stakers: Vec::new(),
    };
    proof {
        assert(campaign@.info.end_calc_nft =~= Set::<u64>::empty());
        assert(campaign@.nfts =~= Seq::<NftInfoView>::empty());
        assert(campaign@.stakers =~= Seq::<StakerView>::empty());
    }
    Ok((campaign, response))
}

/// The error of a payment in `token` that is not covered: a token of a
/// contract lacks balance, a native token lacks funds.
pub open spec fn not_covered(token: TokenInfoView) -> ContractErrorView {
    match token {
        TokenInfoView::Token { .. } => ContractErrorView::InsufficientBalance,
        TokenInfoView::NativeToken { .. } => ContractErrorView::InvalidFunds,
    }
}

/// The error of a payment in `token` that is not covered.
pub(crate) fn not_covered_error(token: &TokenInfo) -> (e: ContractError)
    ensures
        e@ == not_covered(token@),
{
    match token {
        TokenInfo::Token { .. } => ContractError::InsufficientBalance {  },
        TokenInfo::NativeToken { .. } => ContractError::InvalidFunds {  },
    }
}

/// The transfer that pays `amount` of `token` out of the campaign to
/// `recipient`.
pub open spec fn payout(token: TokenInfoView, recipient: Seq<char>, amount: u128) -> MessageView {
    match token {
        TokenInfoView::Token { contract_addr } => MessageView::TokenTransfer {
            contract_addr,
            recipient,
            amount,
        },
        TokenInfoView::NativeToken { denom } => MessageView::BankSend { denom, recipient, amount },
    }
}

/// The transfer that pays `amount` of `token` out of the campaign to
/// `recipient`.
pub(crate) fn payout_message(token: &TokenInfo, recipient: &String, amount: u128) -> (m: Message)
    ensures
        m@ == payout(token@, recipient@, amount),
{
    match token {
        TokenInfo::Token { contract_addr } => Message::TokenTransfer {
            contract_addr: contract_addr.clone(),
            recipient: recipient.clone(),
            amount,
        },
        TokenInfo::NativeToken { denom } => Message::BankSend {
            denom: denom.clone(),
            recipient: recipient.clone(),
            amount,
        },
    }
}

impl CampaignView {
    /// Whether a payment of `amount` into the campaign is covered: for a
    /// token of a contract by the payer's `balance`, where that is known;
    /// for a native token by the coins sent with the call.
    pub open spec fn funding_covered(
        self,
        info: MessageInfoView,
        amount: u128,
        balance: Option<u128>,
    ) -> bool {
        match self.info.reward_token_info.info {
            TokenInfoView::Token { .. } => balance matches Some(b) && b >= amount,
            TokenInfoView::NativeToken { denom } => covers(info.funds, denom, amount),
        }
    }

    /// The transfers that bring a payment of `amount` into the campaign: a
    /// token of a contract is pulled from the sender, a native token has
    /// come with the call.
    pub open spec fn funding_messages(
        self,
        env: EnvView,
        info: MessageInfoView,
        amount: u128,
    ) -> Seq<MessageView> {
        match self.info.reward_token_info.info {
            TokenInfoView::Token { contract_addr } => seq![
                MessageView::TokenTransferFrom {
                    contract_addr,
                    owner: info.sender,
                    recipient: env.contract_address,
                    amount,
                },
            ],
            TokenInfoView::NativeToken { .. } => Seq::empty(),
        }
    }

    /// What adding `amount` to the reward comes to. Only the owner may add,
    /// and once a reward rate is set only before the campaign starts; the
    /// payment must be covered. The amount joins the reward held and the
    /// total, and the rate becomes the reward held divided by the length of
    /// the campaign.
    pub open spec fn reward_added(
        self,
        env: EnvView,
        info: MessageInfoView,
        amount: u128,
        balance: Option<u128>,
    ) -> Outcome {
        if self.info.owner != info.sender {
            Err(ContractErrorView::Unauthorized)
        } else if self.info.reward_per_second != 0 && self.info.start_time <= env.time {
            Err(ContractErrorView::InvalidTimeToAddReward)
        } else if !self.funding_covered(info, amount, balance) {
            Err(not_covered(self.info.reward_token_info.info))
        } else if self.info.reward_token_info.amount + amount > u128::MAX || self.info.total_reward
            + amount > u128::MAX {
            Err(overflow_error())
        } else {
            let held = (self.info.reward_token_info.amount + amount) as u128;
            Ok(
                (
                    CampaignView {
                        info: CampaignInfoView {
                            reward_token_info: AssetTokenInfoView {
                                amount: held,
                                ..self.info.reward_token_info
                            },
                            reward_per_second: (held as int / (self.info.end_time
                                - self.info.start_time)) as u128,
                            total_reward: (self.info.total_reward + amount) as u128,
                            ..self.info
                        },
                        ..self
                    },
                    self.funding_messages(env, info, amount),
                ),
            )
        }
    }

    /// What adding `amount` to the reward tells.
    pub open spec fn reward_added_told(self, amount: u128) -> Seq<AttributeView> {
        seq![
            action_attr("add_reward_token"@),
            text_attr("owner"@, self.info.owner),
            text_attr("reward_token_info"@, self.info.reward_token_info.info.text()),
            amount_attr("reward_token_amount"@, amount),
        ]
    }

    /// What a change of the configuration tells: the configuration after
    /// it, which is this one.
    pub open spec fn updated_told(self) -> Seq<AttributeView> {
        seq![
            action_attr("update_campaign"@),
            text_attr("owner"@, self.info.owner),
            text_attr("campaign_name"@, self.info.campaign_name),
            text_attr("campaign_image"@, self.info.campaign_image),
            text_attr("campaign_description"@, self.info.campaign_description),
            number_attr("limit_per_staker"@, self.info.limit_per_staker),
            AttributeView {
                key: "reward_token_info"@,
                value: AttrValueView::Asset(self.info.reward_token_info),
            },
            text_attr("allowed_collection"@, self.info.allowed_collection),
            AttributeView {
                key: "lockup_term"@,
                value: AttrValueView::Terms(self.info.lockup_term),
            },
            number_attr("start_time"@, self.info.start_time),
            number_attr("end_time"@, self.info.end_time),
        ]
    }

    /// The configuration with the fields of `update` that are present in
    /// place of the stored ones.
    pub open spec fn patched(self, update: CampaignInfoUpdateView) -> CampaignInfoView {
        CampaignInfoView {
            campaign_name: update.campaign_name.unwrap_or(self.info.campaign_name),
            campaign_image: update.campaign_image.unwrap_or(self.info.campaign_image),
            campaign_description: update.campaign_description.unwrap_or(
                self.info.campaign_description,
            ),
            start_time: update.start_time.unwrap_or(self.info.start_time),
            end_time: update.end_time.unwrap_or(self.info.end_time),
            limit_per_staker: update.limit_per_staker.unwrap_or(self.info.limit_per_staker),
            lockup_term: update.lockup_term.unwrap_or(self.info.lockup_term),
            ..self.info
        }
    }

    /// What a change of the configuration comes to. Only the owner may
    /// change it, and only while no reward was ever added; the changed
    /// campaign must have a valid shape and must not start in the past.
    pub open spec fn updated(
        self,
        env: EnvView,
        info: MessageInfoView,
        update: CampaignInfoUpdateView,
    ) -> Outcome {
        let next = self.patched(update);
        if info.sender != self.info.owner {
            Err(ContractErrorView::Unauthorized)
        } else if self.info.total_reward != 0 {
            Err(ContractErrorView::InvalidTimeToUpdate)
        } else if let Some(e) = shape_error(
            next.campaign_name,
            next.campaign_description,
            next.start_time,
            next.end_time,
        ) {
            Err(e)
        } else if env.time > next.start_time {
            Err(generic_error(start_in_past_text()))
        } else {
            Ok((CampaignView { info: next, ..self }, Seq::empty()))
        }
    }
}

/// Adds `amount` to the reward of the campaign. `balance` is what the
/// reward token's contract reports as the sender's balance, `None` where
/// it could not be asked.
pub fn execute_add_reward_token(
    deps: &mut Campaign,
    env: &Env,
    info: &MessageInfo,
    amount: u128,
    balance: Option<u128>,
) -> (r: Result<Response, ContractError>)
    requires
        old(deps)@.wf(),
    ensures
        final(deps)@.wf(),
        match r {
            Ok(response) => old(deps)@.reward_added(env@, info@, amount, balance) == Ok::<
                (CampaignView, Seq<MessageView>),
                ContractErrorView,
            >((final(deps)@, response@.messages))
                && response@.attributes == old(deps)@.reward_added_told(amount),
            Err(e) => old(deps)@.reward_added(env@, info@, amount, balance) == Err::<
                (CampaignView, Seq<MessageView>),
                ContractErrorView,
            >(e@) && final(deps)@ == old(deps)@,
        },
{
    if !(deps.info.owner == info.sender) {
        return Err(ContractError::Unauthorized {  });
    }
    if deps.info.reward_per_second != 0 && deps.info.start_time <= env.time {
        return Err(ContractError::InvalidTimeToAddReward {  });
    }
    let mut messages: Vec<Message> = Vec::new();
    match &deps.info.reward_token_info.info {
        TokenInfo::Token { contract_addr } => {
            let covered = match balance {
                Some(b) => b >= amount,
                None => false,
            };
            if !covered {
                return Err(ContractError::InsufficientBalance {  });
            }
            messages.push(
                Message::TokenTransferFrom {
                    contract_addr: contract_addr.clone(),
                    owner: info.sender.clone(),
                    recipient: env.contract_address.clone(),
                    amount,
                },
            );
        },
        TokenInfo::NativeToken { denom } => {
            if !has_coins(&info.funds, denom, amount) {
                return Err(ContractError::InvalidFunds {  });
            }
        },
    }
    let held: u128 = match deps.info.reward_token_info.amount.checked_add(amount) {
        Some(held) => held,
        None => {
            return Err(overflow());
        },
    };
    let total: u128 = match deps.info.total_reward.checked_add(amount) {
        Some(total) => total,
        None => {
            return Err(overflow());
        },
    };
    let seconds: u64 = deps.info.end_time - deps.info.start_time;
    deps.info.reward_token_info.amount = held;
    deps.info.reward_per_second = held / (seconds as u128);
    deps.info.total_reward = total;
    let mut attributes: Vec<Attribute> = Vec::new();
    attributes.push(tell_action("add_reward_token"));
    attributes.push(tell_text("owner", &deps.info.owner));
    attributes.push(tell_text("reward_token_info", &deps.info.reward_token_info.info.text()));
    attributes.push(tell_amount("reward_token_amount", amount));
    let response = Response { messages, attributes };
    proof {
        assert(response@.messages =~= old(deps)@.funding_messages(env@, info@, amount));
        assert(response@.attributes =~= old(deps)@.reward_added_told(amount));
    }
    Ok(response)
}

/// Changes the configuration of the campaign.
pub fn execute_update_campaign(
    deps: &mut Campaign,
    env: &Env,
    info: &MessageInfo,
    update: CampaignInfoUpdate,
) -> (r: Result<Response, ContractError>)
    requires
        old(deps)@.wf(),
    ensures
        final(deps)@.wf(),
        match r {
            Ok(response) => old(deps)@.updated(env@, info@, update@) == Ok::<
                (CampaignView, Seq<MessageView>),
                ContractErrorView,
            >((final(deps)@, response@.messages))
                && response@.attributes == final(deps)@.updated_told(),
            Err(e) => old(deps)@.updated(env@, info@, update@) == Err::<
                (CampaignView, Seq<MessageView>),
                ContractErrorView,
            >(e@) && final(deps)@ == old(deps)@,
        },
{
    if !(info.sender == deps.info.owner) {
        return Err(ContractError::Unauthorized {  });
    }
    if deps.info.total_reward != 0 {
        return Err(ContractError::InvalidTimeToUpdate {  });
    }
    let start_time: u64 = match update.start_time {
        Some(t) => t,
        None => deps.info.start_time,
    };
    let end_time: u64 = match update.end_time {
        Some(t) => t,
        None => deps.info.end_time,
    };
    let name: String = match update.campaign_name {
        Some(text) => text,
        None => deps.info.campaign_name.clone(),
    };
    let description: String = match update.campaign_description {
        Some(text) => text,
        None => deps.info.campaign_description.clone(),
    };
    match validate_shape(&name, &description, start_time, end_time) {
        Err(e) => {
            return Err(e);
        },
        Ok(()) => {},
    }
    if env.time > start_time {
        return Err(
            ContractError::Std(
                StdError::GenericErr {
                    msg: "## Current time is greater than start time ##".to_owned(),
                },
            ),
        );
    }
    deps.info.campaign_name = name;
    deps.info.campaign_description = description;
    deps.info.start_time = start_time;
    deps.info.end_time = end_time;
    match update.campaign_image {
        Some(text) => {
            deps.info.campaign_image = text;
        },
        None => {},
    }
    match update.limit_per_staker {
        Some(limit) => {
            deps.info.limit_per_staker = limit;
        },
        None => {},
    }
    match update.lockup_term {
        Some(terms) => {
            deps.info.lockup_term = terms;
        },
        None => {},
    }
    let mut attributes: Vec<Attribute> = Vec::new();
    attributes.push(tell_action("update_campaign"));
    attributes.push(tell_text("owner", &deps.info.owner));
    attributes.push(tell_text("campaign_name", &deps.info.campaign_name));
    attributes.push(tell_text("campaign_image", &deps.info.campaign_image));
    attributes.push(tell_text("campaign_description", &deps.info.campaign_description));
    attributes.push(tell_number("limit_per_staker", deps.info.limit_per_staker));
    attributes.push(
        Attribute {
            key: "reward_token_info".to_owned(),
            value: AttrValue::Asset(deps.info.reward_token_info.duplicate()),
        },
    );
    attributes.push(tell_text("allowed_collection", &deps.info.allowed_collection));
    attributes.push(
        Attribute {
            key: "lockup_term".to_owned(),
            value: AttrValue::Terms(copy_terms(&deps.info.lockup_term)),
        },
    );
    attributes.push(tell_number("start_time", deps.info.start_time));
    attributes.push(tell_number("end_time", deps.info.end_time));
    let response = Response { messages: Vec::new(), attributes };
    proof {
        assert(response@.messages =~= Seq::<MessageView>::empty());
        assert(response@.attributes =~= deps@.updated_told());
    }
    Ok(response)
}

} // verus!
