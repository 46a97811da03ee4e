//! The ways in which an operation of the ledger is refused.

use vstd::prelude::*;

verus! {

/// Why an operation was refused. A refused operation changes nothing.
#[derive(Debug, Clone, Copy, PartialEq, Eq, Structural)]
pub enum ChefError {
    /// A pool for this stake asset exists already.
    DuplicatePool,
    /// No pool has this id.
    PoolNotFound,
    /// The asset handed in is not the one staked in the pool.
    WrongAsset,
    /// The stake is smaller than the amount to withdraw.
    InsufficientStake,
    /// There is no stake to withdraw.
    NothingToWithdraw,
    /// The caller is not allowed to do this.
    Unauthorized,
    /// The ledger cannot be set up this way.
    InvalidConfiguration,
    /// The position's debt is ahead of its accumulated reward, so that no
    /// reward can be paid out of it.
    RewardDebtExceedsAccrued,
}

} // verus!
