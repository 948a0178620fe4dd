//! What comes with a call and what a call hands back: the block and the
//! sender, the coins sent, the configuration of a new campaign, and the
//! transfers to carry out.

use crate::state::{
    stakes_view, unstakes_view, AssetTokenInfo, AssetTokenInfoView, LockupTerm, NftStake,
    NftStakeView, UnStakeNft, UnStakeNftView,
};
use vstd::prelude::*;

verus! {

/// An amount of a native token.
#[derive(Clone, Debug, PartialEq, Eq)]
pub struct Coin {
    pub denom: String,
    pub amount: u128,
}

/// Mathematical value of a [`Coin`].
pub struct CoinView {
    pub denom: Seq<char>,
    pub amount: u128,
}

impl View for Coin {
    type V = CoinView;

    open spec fn view(&self) -> CoinView {
        CoinView { denom: self.denom@, amount: self.amount }
    }
}

/// Values of a list of coins.
pub open spec fn coins_view(coins: Seq<Coin>) -> Seq<CoinView> {
    coins.map_values(|c: Coin| c@)
}

/// Whether the first coin of denomination `denom` in `coins` holds at least
/// `amount`; false where no coin has that denomination.
pub open spec fn covers(coins: Seq<CoinView>, denom: Seq<char>, amount: u128) -> bool
    decreases coins.len(),
{
    if coins.len() == 0 {
        false
    } else if coins.first().denom == denom {
        coins.first().amount >= amount
    } else {
        covers(coins.drop_first(), denom, amount)
    }
}

/// Whether `coins` hold at least `amount` of `denom`.
///
/// Calls `cosmwasm_std::has_coins`, which looks for the first coin of the
/// required denomination and compares its amount with the required one; the
/// contract states that search.
#[verifier::external_body]
pub(crate) fn has_coins(coins: &Vec<Coin>, denom: &String, amount: u128) -> (r: bool)
    ensures
        r == covers(coins_view(coins@), denom@, amount),
{
    let held: Vec<cosmwasm_std::Coin> = coins.iter().map(
        |c| cosmwasm_std::Coin::new(c.amount, c.denom.clone()),
    ).collect();
    cosmwasm_std::has_coins(&held, &cosmwasm_std::Coin::new(amount, denom.clone()))
}

/// The block and the contract in which a call runs.
#[derive(Clone, Debug, PartialEq, Eq)]
pub struct Env {
    /// Time of the block, in seconds.
    pub time: u64,
    /// Address of the campaign contract itself.
    pub contract_address: String,
}

/// Mathematical value of an [`Env`].
pub struct EnvView {
    pub time: u64,
    pub contract_address: Seq<char>,
}

impl View for Env {
    type V = EnvView;

    open spec fn view(&self) -> EnvView {
        EnvView { time: self.time, contract_address: self.contract_address@ }
    }
}

/// Who makes a call, and the coins sent with it.
#[derive(Clone, Debug, PartialEq, Eq)]
pub struct MessageInfo {
    pub sender: String,
    pub funds: Vec<Coin>,
}

/// Mathematical value of a [`MessageInfo`].
pub struct MessageInfoView {
    pub sender: Seq<char>,
    pub funds: Seq<CoinView>,
}

impl View for MessageInfo {
    type V = MessageInfoView;

    open spec fn view(&self) -> MessageInfoView {
        MessageInfoView { sender: self.sender@, funds: coins_view(self.funds@) }
    }
}

/// A transfer that a call asks the chain to carry out.
#[derive(Clone, Debug, PartialEq, Eq)]
pub enum Message {
    /// Move `amount` of the token at `contract_addr` from `owner` to
    /// `recipient`, on the owner's allowance.
    TokenTransferFrom { contract_addr: String, owner: String, recipient: String, amount: u128 },
    /// Move `amount` of the token at `contract_addr` from the campaign to
    /// `recipient`.
    TokenTransfer { contract_addr: String, recipient: String, amount: u128 },
    /// Send `amount` of the native token `denom` from the campaign to
    /// `recipient`.
    BankSend { denom: String, recipient: String, amount: u128 },
    /// Move the NFT `token_id` of `collection` to `recipient`.
    NftTransfer { collection: String, recipient: String, token_id: String },
}

/// Mathematical value of a [`Message`].
pub enum MessageView {
    TokenTransferFrom {
        contract_addr: Seq<char>,
        owner: Seq<char>,
        recipient: Seq<char>,
        amount: u128,
    },
    TokenTransfer { contract_addr: Seq<char>, recipient: Seq<char>, amount: u128 },
    BankSend { denom: Seq<char>, recipient: Seq<char>, amount: u128 },
    NftTransfer { collection: Seq<char>, recipient: Seq<char>, token_id: Seq<char> },
}

impl View for Message {
    type V = MessageView;

    open spec fn view(&self) -> MessageView {
        match *self {
            Message::TokenTransferFrom { contract_addr, owner, recipient, amount } =>
                MessageView::TokenTransferFrom {
                    contract_addr: contract_addr@,
                    owner: owner@,
                    recipient: recipient@,
                    amount,
                },
            Message::TokenTransfer { contract_addr, recipient, amount } =>
                MessageView::TokenTransfer {
                    contract_addr: contract_addr@,
                    recipient: recipient@,
                    amount,
                },
            Message::BankSend { denom, recipient, amount } => MessageView::BankSend {
                denom: denom@,
                recipient: recipient@,
                amount,
            },
            Message::NftTransfer { collection, recipient, token_id } => MessageView::NftTransfer {
                collection: collection@,
                recipient: recipient@,
                token_id: token_id@,
            },
        }
    }
}

/// Values of a list of messages.
pub open spec fn messages_view(messages: Seq<Message>) -> Seq<MessageView> {
    messages.map_values(|m: Message| m@)
}

/// What an attribute of a response tells.
#[derive(Clone, Debug, PartialEq, Eq)]
pub enum AttrValue {
    Text(String),
    Number(u64),
    Amount(u128),
    Asset(AssetTokenInfo),
    Terms(Vec<LockupTerm>),
    Stakes(Vec<NftStake>),
    Unstakes(Vec<UnStakeNft>),
}

/// Mathematical value of an [`AttrValue`].
pub enum AttrValueView {
    Text(Seq<char>),
    Number(u64),
    Amount(u128),
    Asset(AssetTokenInfoView),
    Terms(Seq<LockupTerm>),
    Stakes(Seq<NftStakeView>),
    Unstakes(Seq<UnStakeNftView>),
}

impl View for AttrValue {
    type V = AttrValueView;

    open spec fn view(&self) -> AttrValueView {
        match *self {
            AttrValue::Text(text) => AttrValueView::Text(text@),
            AttrValue::Number(n) => AttrValueView::Number(n),
            AttrValue::Amount(n) => AttrValueView::Amount(n),
            AttrValue::Asset(asset) => AttrValueView::Asset(asset@),
            AttrValue::Terms(terms) => AttrValueView::Terms(terms@),
            AttrValue::Stakes(nfts) => AttrValueView::Stakes(stakes_view(nfts@)),
            AttrValue::Unstakes(nfts) => AttrValueView::Unstakes(unstakes_view(nfts@)),
        }
    }
}

/// One line of what a response tells about the call: a key and what
/// belongs to it.
#[derive(Clone, Debug, PartialEq, Eq)]
pub struct Attribute {
    pub key: String,
    pub value: AttrValue,
}

/// Mathematical value of an [`Attribute`].
pub struct AttributeView {
    pub key: Seq<char>,
    pub value: AttrValueView,
}

impl View for Attribute {
    type V = AttributeView;

    open spec fn view(&self) -> AttributeView {
        AttributeView { key: self.key@, value: self.value@ }
    }
}

/// Values of a list of attributes.
pub open spec fn attributes_view(attributes: Seq<Attribute>) -> Seq<AttributeView> {
    attributes.map_values(|a: Attribute| a@)
}

/// The attribute that tells a text.
pub open spec fn text_attr(key: Seq<char>, text: Seq<char>) -> AttributeView {
    AttributeView { key, value: AttrValueView::Text(text) }
}

/// The attribute that tells a number.
pub open spec fn number_attr(key: Seq<char>, n: u64) -> AttributeView {
    AttributeView { key, value: AttrValueView::Number(n) }
}

/// The attribute that tells an amount.
pub open spec fn amount_attr(key: Seq<char>, n: u128) -> AttributeView {
    AttributeView { key, value: AttrValueView::Amount(n) }
}

/// The attribute that names what a call did.
pub open spec fn action_attr(name: Seq<char>) -> AttributeView {
    text_attr("action"@, name)
}

/// The attribute that tells a text.
pub fn tell_text(key: &str, value: &String) -> (a: Attribute)
    ensures
        a@ == text_attr(key@, value@),
{
    Attribute { key: key.to_owned(), value: AttrValue::Text(value.clone()) }
}

/// The attribute that names what a call did.
pub fn tell_action(name: &str) -> (a: Attribute)
    ensures
        a@ == action_attr(name@),
{
    Attribute { key: "action".to_owned(), value: AttrValue::Text(name.to_owned()) }
}

/// The attribute that tells a number.
pub fn tell_number(key: &str, n: u64) -> (a: Attribute)
    ensures
        a@ == number_attr(key@, n),
{
    Attribute { key: key.to_owned(), value: AttrValue::Number(n) }
}

/// The attribute that tells an amount.
pub fn tell_amount(key: &str, n: u128) -> (a: Attribute)
    ensures
        a@ == amount_attr(key@, n),
{
    Attribute { key: key.to_owned(), value: AttrValue::Amount(n) }
}

/// What a successful call hands back: the transfers to carry out, and what
/// it tells about the call.
#[derive(Clone, Debug, PartialEq, Eq)]
pub struct Response {
    pub messages: Vec<Message>,
    pub attributes: Vec<Attribute>,
}

/// Mathematical value of a [`Response`].
pub struct ResponseView {
    pub messages: Seq<MessageView>,
    pub attributes: Seq<AttributeView>,
}

impl View for Response {
    type V = ResponseView;

    open spec fn view(&self) -> ResponseView {
        ResponseView {
            messages: messages_view(self.messages@),
            attributes: attributes_view(self.attributes@),
        }
    }
}

/// The configuration with which a campaign is created.
#[derive(Clone, Debug, PartialEq, Eq)]
pub struct InstantiateMsg {
    pub owner: String,
    pub campaign_name: String,
    pub campaign_image: String,
    pub campaign_description: String,
    pub limit_per_staker: u64,
    pub reward_token_info: AssetTokenInfo,
    pub allowed_collection: String,
    pub lockup_term: Vec<LockupTerm>,
    pub start_time: u64,
    pub end_time: u64,
}

/// Mathematical value of an [`InstantiateMsg`].
pub struct InstantiateMsgView {
    pub owner: Seq<char>,
    pub campaign_name: Seq<char>,
    pub campaign_image: Seq<char>,
    pub campaign_description: Seq<char>,
    pub limit_per_staker: u64,
    pub reward_token_info: AssetTokenInfoView,
    pub allowed_collection: Seq<char>,
    pub lockup_term: Seq<LockupTerm>,
    pub start_time: u64,
    pub end_time: u64,
}

impl View for InstantiateMsg {
    type V = InstantiateMsgView;

    open spec fn view(&self) -> InstantiateMsgView {
        InstantiateMsgView {
            owner: self.owner@,
            campaign_name: self.campaign_name@,
            campaign_image: self.campaign_image@,
            campaign_description: self.campaign_description@,
            limit_per_staker: self.limit_per_staker,
            reward_token_info: self.reward_token_info@,
            allowed_collection: self.allowed_collection@,
            lockup_term: self.lockup_term@,
            start_time: self.start_time,
            end_time: self.end_time,
        }
    }
}

/// A change of a campaign's configuration: each field that is present
/// replaces the stored one, each that is absent leaves it.
#[derive(Clone, Debug, PartialEq, Eq)]
pub struct CampaignInfoUpdate {
    pub campaign_name: Option<String>,
    pub campaign_image: Option<String>,
    pub campaign_description: Option<String>,
    pub start_time: Option<u64>,
    pub end_time: Option<u64>,
    pub limit_per_staker: Option<u64>,
    pub lockup_term: Option<Vec<LockupTerm>>,
}

/// Mathematical value of a [`CampaignInfoUpdate`].
pub struct CampaignInfoUpdateView {
    pub campaign_name: Option<Seq<char>>,
    pub campaign_image: Option<Seq<char>>,
    pub campaign_description: Option<Seq<char>>,
    pub start_time: Option<u64>,
    pub end_time: Option<u64>,
    pub limit_per_staker: Option<u64>,
    pub lockup_term: Option<Seq<LockupTerm>>,
}

/// Value of a text that may be absent.
pub open spec fn text_view(text: Option<String>) -> Option<Seq<char>> {
    match text {
        Some(t) => Some(t@),
        None => None,
    }
}

impl View for CampaignInfoUpdate {
    type V = CampaignInfoUpdateView;

    open spec fn view(&self) -> CampaignInfoUpdateView {
        CampaignInfoUpdateView {
            campaign_name: text_view(self.campaign_name),
            campaign_image: text_view(self.campaign_image),
            campaign_description: text_view(self.campaign_description),
            start_time: self.start_time,
            end_time: self.end_time,
            limit_per_staker: self.limit_per_staker,
            lockup_term: match self.lockup_term {
                Some(terms) => Some(terms@),
                None => None,
            },
        }
    }
}

} // verus!
