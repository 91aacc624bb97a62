//! Collateral staking and reward distribution ledger.
//!
//! Collections of items are registered through priced proposals, stakers
//! lock items to accrue time-proportional rewards, and proposal payments
//! accumulate in a fee ledger that is split among recipients by weight.

pub mod assets;
pub mod auth;
pub mod converters;
pub mod error;
pub mod laws;
pub mod math;
pub mod minter;
pub mod msg;
pub mod platform;
pub mod proposals;
pub mod query;
pub mod staking;
pub mod types;
pub mod utils;
