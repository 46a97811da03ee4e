//! Fixed-point arithmetic of the reward-per-share accumulator.
//!
//! Rewards per unit of stake are kept as integers scaled by
//! `ACC_REWARD_PRECISION`. Products are formed before quotients, on numbers
//! of unbounded size, so nothing overflows and each division rounds down
//! once.

use vstd::prelude::*;
use crate::bignat::BigNat;
use crate::ACC_REWARD_PRECISION;

verus! {

/// The scaling factor, as a number of the model.
pub open spec fn precision() -> nat {
    ACC_REWARD_PRECISION as nat
}

/// The reward that a pool of weight `weight` is given for `elapsed` seconds
/// at `rate` per second, out of a total weight `total_weight`.
pub open spec fn pool_reward_spec(elapsed: nat, rate: nat, weight: nat, total_weight: nat) -> nat {
    (elapsed * rate * weight) / total_weight
}

/// The growth of a pool's accumulator over `elapsed` seconds: the pool's
/// reward, scaled, per unit of `staked`. Nothing accrues while the total
/// weight or the stake is zero.
pub open spec fn accrue_spec(
    elapsed: nat,
    rate: nat,
    weight: nat,
    total_weight: nat,
    staked: nat,
) -> nat {
    if total_weight == 0 || staked == 0 {
        0
    } else {
        (pool_reward_spec(elapsed, rate, weight, total_weight) * precision()) / staked
    }
}

/// The reward that `amount` of stake has earned since the pool's inception
/// under accumulator `acc`.
pub open spec fn accumulated_spec(amount: nat, acc: nat) -> nat {
    (amount * acc) / precision()
}

/// Computes `accrue_spec`.
pub fn accrue(
    elapsed: u64,
    rate: &BigNat,
    weight: &BigNat,
    total_weight: &BigNat,
    staked: &BigNat,
) -> (r: BigNat)
    ensures
        r@ == accrue_spec(elapsed as nat, rate@, weight@, total_weight@, staked@),
{
    if total_weight.is_zero() || staked.is_zero() {
        return BigNat::zero();
    }
    let time = BigNat::from_u64(elapsed);
    let reward = time.mul(rate).mul(weight).div(total_weight);
    let scale = BigNat::from_u64(ACC_REWARD_PRECISION);
    reward.mul(&scale).div(staked)
}

/// Computes `accumulated_spec`.
pub fn accumulated(amount: &BigNat, acc: &BigNat) -> (r: BigNat)
    ensures
        r@ == accumulated_spec(amount@, acc@),
{
    let scale = BigNat::from_u64(ACC_REWARD_PRECISION);
    amount.mul(acc).div(&scale)
}

} // verus!
