//! NFT staking campaigns: lockup tiers, a ledger of staked positions, and the
//! sweep that shares a per-second reward among the positions of each tier.

pub mod accrual;
pub mod conservation;
pub mod contract;
pub mod error;
pub mod factory;
pub mod laws;
pub mod ledger;
pub mod msg;
pub mod query;
pub mod rewards;
pub mod staking;
pub mod state;
pub mod utils;
