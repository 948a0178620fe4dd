//! The reasons for which a call is refused.

use vstd::prelude::*;

verus! {

/// A failure of the machinery below the campaign's own rules.
#[derive(Clone, Debug, PartialEq, Eq)]
pub enum StdError {
    /// A failure described by its message.
    GenericErr { msg: String },
    /// A record that was asked for does not exist.
    NotFound { kind: String },
    /// A sum, a difference or a product cannot be held in its integer type.
    Overflow {},
}

/// Mathematical value of a [`StdError`].
pub enum StdErrorView {
    GenericErr { msg: Seq<char> },
    NotFound { kind: Seq<char> },
    Overflow,
}

impl View for StdError {
    type V = StdErrorView;

    open spec fn view(&self) -> StdErrorView {
        match *self {
            StdError::GenericErr { msg } => StdErrorView::GenericErr { msg: msg@ },
            StdError::NotFound { kind } => StdErrorView::NotFound { kind: kind@ },
            StdError::Overflow {  } => StdErrorView::Overflow,
        }
    }
}

/// Why a call on a campaign was refused.
#[derive(Clone, Debug, PartialEq, Eq)]
pub enum ContractError {
    Std(StdError),
    Unauthorized {},
    NotOwner { token_id: String },
    InvalidFunds {},
    LimitStartDate {},
    LimitCharacter {},
    InvalidLockupTerm {},
    InsufficientBalance {},
    InvalidTimeToUpdate {},
    InvalidTimeToStakeNft {},
    InvalidTimeToUnStake {},
    InvalidTimeToAddReward {},
    InvalidTimeToWithdrawReward {},
    LimitPerStake {},
    InvalidClaim {},
}

/// Mathematical value of a [`ContractError`].
pub enum ContractErrorView {
    Std(StdErrorView),
    Unauthorized,
    NotOwner { token_id: Seq<char> },
    InvalidFunds,
    LimitStartDate,
    LimitCharacter,
    InvalidLockupTerm,
    InsufficientBalance,
    InvalidTimeToUpdate,
    InvalidTimeToStakeNft,
    InvalidTimeToUnStake,
    InvalidTimeToAddReward,
    InvalidTimeToWithdrawReward,
    LimitPerStake,
    InvalidClaim,
}

impl View for ContractError {
    type V = ContractErrorView;

    open spec fn view(&self) -> ContractErrorView {
        match *self {
            ContractError::Std(e) => ContractErrorView::Std(e@),
            ContractError::Unauthorized {  } => ContractErrorView::Unauthorized,
            ContractError::NotOwner { token_id } => ContractErrorView::NotOwner {
                token_id: token_id@,
            },
            ContractError::InvalidFunds {  } => ContractErrorView::InvalidFunds,
            ContractError::LimitStartDate {  } => ContractErrorView::LimitStartDate,
            ContractError::LimitCharacter {  } => ContractErrorView::LimitCharacter,
            ContractError::InvalidLockupTerm {  } => ContractErrorView::InvalidLockupTerm,
            ContractError::InsufficientBalance {  } => ContractErrorView::InsufficientBalance,
            ContractError::InvalidTimeToUpdate {  } => ContractErrorView::InvalidTimeToUpdate,
            ContractError::InvalidTimeToStakeNft {  } => ContractErrorView::InvalidTimeToStakeNft,
            ContractError::InvalidTimeToUnStake {  } => ContractErrorView::InvalidTimeToUnStake,
            ContractError::InvalidTimeToAddReward {  } => ContractErrorView::InvalidTimeToAddReward,
            ContractError::InvalidTimeToWithdrawReward {  } =>
                ContractErrorView::InvalidTimeToWithdrawReward,
            ContractError::LimitPerStake {  } => ContractErrorView::LimitPerStake,
            ContractError::InvalidClaim {  } => ContractErrorView::InvalidClaim,
        }
    }
}

/// The error of arithmetic that does not fit.
pub open spec fn overflow_error() -> ContractErrorView {
    ContractErrorView::Std(StdErrorView::Overflow)
}

/// The error of arithmetic that does not fit.
pub fn overflow() -> (e: ContractError)
    ensures
        e@ == overflow_error(),
{
    ContractError::Std(StdError::Overflow {  })
}

} // verus!
