//! One staking pool and the accrual of its reward.

use vstd::prelude::*;
use crate::accrual::{accrue, accrue_spec};
use crate::bignat::BigNat;
use crate::identity::TokenId;

verus! {

/// A pool: the asset staked in it, its share of the emission, and the
/// reward accrued per unit of stake up to `last_reward_time`.
#[derive(Debug)]
pub struct PoolInfo {
    pub lp_token: TokenId,
    pub acc_reward_per_share: BigNat,
    pub last_reward_time: u64,
    pub alloc_point: BigNat,
}

/// A pool as the model sees it.
pub struct PoolView {
    pub lp_token: Seq<u8>,
    pub acc_reward_per_share: nat,
    pub last_reward_time: u64,
    pub alloc_point: nat,
}

impl View for PoolInfo {
    type V = PoolView;

    open spec fn view(&self) -> PoolView {
        PoolView {
            lp_token: self.lp_token@,
            acc_reward_per_share: self.acc_reward_per_share@,
            last_reward_time: self.last_reward_time,
            alloc_point: self.alloc_point@,
        }
    }
}

impl Clone for PoolInfo {
    fn clone(&self) -> (r: Self)
        ensures
            r@ == self@,
    {
        PoolInfo {
            lp_token: self.lp_token.clone(),
            acc_reward_per_share: self.acc_reward_per_share.clone(),
            last_reward_time: self.last_reward_time,
            alloc_point: self.alloc_point.clone(),
        }
    }
}

/// The pool brought up to date at time `now`, with `supply` staked in it, at
/// an emission of `rate` per second shared by `total_weight`. A pool that is
/// already at `now` or beyond stays as it is. Otherwise its accumulator
/// grows by what accrued since `last_reward_time`, and that time becomes
/// `now`, also when nothing accrued.
pub open spec fn settle_spec(
    pool: PoolView,
    now: u64,
    supply: nat,
    rate: nat,
    total_weight: nat,
) -> PoolView {
    if now <= pool.last_reward_time {
        pool
    } else {
        PoolView {
            acc_reward_per_share: pool.acc_reward_per_share + accrue_spec(
                (now - pool.last_reward_time) as nat,
                rate,
                pool.alloc_point,
                total_weight,
                supply,
            ),
            last_reward_time: now,
            ..pool
        }
    }
}

impl PoolInfo {
    /// A new pool for `lp_token` with weight `alloc_point`, created at `now`.
    pub fn new(lp_token: TokenId, alloc_point: BigNat, now: u64) -> (r: PoolInfo)
        ensures
            r@ == (PoolView {
                lp_token: lp_token@,
                acc_reward_per_share: 0,
                last_reward_time: now,
                alloc_point: alloc_point@,
            }),
    {
        PoolInfo {
            lp_token,
            acc_reward_per_share: BigNat::zero(),
            last_reward_time: now,
            alloc_point,
        }
    }

    /// Brings the pool up to date at time `now`.
    pub fn settle(
        &mut self,
        now: u64,
        lp_supply: &BigNat,
        reward_per_second: &BigNat,
        total_alloc_point: &BigNat,
    )
        ensures
            final(self)@ == settle_spec(
                old(self)@,
                now,
                lp_supply@,
                reward_per_second@,
                total_alloc_point@,
            ),
    {
        if now > self.last_reward_time {
            let elapsed: u64 = now - self.last_reward_time;
            let delta = accrue(
                elapsed,
                reward_per_second,
                &self.alloc_point,
                total_alloc_point,
                lp_supply,
            );
            self.acc_reward_per_share = self.acc_reward_per_share.add(&delta);
            self.last_reward_time = now;
        }
    }
}

} // verus!
