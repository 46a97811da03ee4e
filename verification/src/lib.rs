//! A multi-pool, time-weighted staking-reward ledger.

use vstd::prelude::*;

pub mod accrual;
pub mod bignat;
pub mod error;
pub mod fund;
pub mod identity;
pub mod laws;
pub mod masterchef;
pub mod model;
pub mod pool_info;
pub mod transfer;
pub mod user_info;

verus! {

/// Scaling factor of the reward-per-share accumulator.
pub const ACC_REWARD_PRECISION: u64 = 1_000_000_000_000;

} // verus!
