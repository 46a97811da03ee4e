//! What holds of the ledger whatever is done with it.

use vstd::prelude::*;
use vstd::arithmetic::div_mod::lemma_fundamental_div_mod;
use crate::accrual::{accrue_spec, accumulated_spec, pool_reward_spec, precision};
use crate::model::{
    add_spec, deposit_spec, emergency_withdraw_spec, harvest_spec, init_spec,
    lemma_alloc_sum_push, lemma_alloc_sum_update, pending_reward_spec, set_fund_spec,
    set_reward_per_second_spec, set_spec, stored_pending_reward_spec, withdraw_spec, ChefView,
};
use crate::pool_info::{settle_spec, PoolView};
use crate::user_info::{empty_position, pending_spec, settled_position, UserView};

verus! {

/// A new ledger is consistent.
pub proof fn law_init_consistent(reward: Seq<u8>)
    ensures
        init_spec(reward) matches Ok(s) ==> s.consistent(),
{
}

/// Settling a pool of a consistent ledger leaves the ledger consistent.
pub proof fn law_settled_pool_consistent(s: ChefView, pool_id: u64, now: u64, supply: nat)
    requires
        s.consistent(),
        s.pool_exists(pool_id),
    ensures
        s.with_pool(pool_id, s.settled_pool(pool_id, now, supply)).consistent(),
{
    lemma_alloc_sum_update(s.pools, pool_id - 1, s.settled_pool(pool_id, now, supply));
}

/// Adding a pool keeps the ledger consistent: the total weight stays the sum
/// of the pools' weights, and no asset gets a second pool.
pub proof fn law_add_consistent(s: ChefView, owner: bool, weight: nat, token: Seq<u8>, now: u64)
    requires
        s.consistent(),
    ensures
        add_spec(s, owner, weight, token, now) matches Ok(t) ==> t.consistent(),
{
    if let Ok(t) = add_spec(s, owner, weight, token, now) {
        lemma_alloc_sum_push(s.pools, t.pools.last());
    }
}

/// Changing a pool's weight keeps the ledger consistent.
pub proof fn law_set_consistent(s: ChefView, owner: bool, pool_id: u64, weight: nat)
    requires
        s.consistent(),
    ensures
        set_spec(s, owner, pool_id, weight) matches Ok(t) ==> t.consistent(),
{
    if let Ok(t) = set_spec(s, owner, pool_id, weight) {
        lemma_alloc_sum_update(s.pools, pool_id - 1, t.pools[pool_id - 1]);
    }
}

/// Deposits, withdrawals, harvests and changes of the emission or of the
/// reservoir keep the ledger consistent.
pub proof fn law_staking_consistent(
    s: ChefView,
    owner: bool,
    pool_id: u64,
    who: Seq<u8>,
    token: Seq<u8>,
    amount: nat,
    now: u64,
    supply: nat,
)
    requires
        s.consistent(),
    ensures
        deposit_spec(s, pool_id, who, token, amount, now, supply) matches Ok(t) ==> t.consistent(),
        withdraw_spec(s, pool_id, who, amount, now, supply) matches Ok(t) ==> t.0.consistent(),
        harvest_spec(s, pool_id, who, now, supply) matches Ok(t) ==> t.0.consistent(),
        emergency_withdraw_spec(s, pool_id, who) matches Ok(t) ==> t.0.consistent(),
        set_reward_per_second_spec(s, owner, amount) matches Ok(t) ==> t.consistent(),
        set_fund_spec(s, owner, who) matches Ok(t) ==> t.consistent(),
{
    if s.pool_exists(pool_id) {
        law_settled_pool_consistent(s, pool_id, now, supply);
    }
}

/// Settling never lowers a pool's accumulator and never moves its time back:
/// over successive settlements, at whatever times, the accumulator does not
/// decrease.
pub proof fn law_accumulator_monotone(
    pool: PoolView,
    now: u64,
    supply: nat,
    rate: nat,
    total_weight: nat,
)
    ensures
        settle_spec(pool, now, supply, rate, total_weight).acc_reward_per_share
            >= pool.acc_reward_per_share,
        settle_spec(pool, now, supply, rate, total_weight).last_reward_time
            >= pool.last_reward_time,
        settle_spec(pool, now, supply, rate, total_weight).last_reward_time >= now,
{
}

/// Settling a pool a second time at the same time changes nothing, whatever
/// the stake, the emission and the total weight are by then.
pub proof fn law_settle_idempotent(
    pool: PoolView,
    now: u64,
    supply: nat,
    rate: nat,
    total_weight: nat,
    supply_again: nat,
    rate_again: nat,
    total_weight_again: nat,
)
    ensures
        settle_spec(
            settle_spec(pool, now, supply, rate, total_weight),
            now,
            supply_again,
            rate_again,
            total_weight_again,
        ) == settle_spec(pool, now, supply, rate, total_weight),
{
}

/// With `q = x / d` rounded down, `q * d` is at most `x` and more than
/// `x - d`.
proof fn lemma_floor_bounds(x: int, d: int)
    requires
        0 <= x,
        0 < d,
    ensures
        (x / d) * d <= x,
        x < (x / d) * d + d,
        0 <= x / d,
{
    lemma_fundamental_div_mod(x, d);
    assert(0 <= x % d < d) by (nonlinear_arith)
        requires
            0 < d,
    ;
    assert(d * (x / d) == (x / d) * d) by (nonlinear_arith);
    assert(0 <= x / d) by (nonlinear_arith)
        requires
            0 <= x,
            0 < d,
    ;
}

/// A sole staker's harvest pays the pool's reward for the time elapsed, up
/// to rounding. Let the position be settled at the pool's stored
/// accumulator, let its stake be all that is staked in the pool, and let
/// time have passed. Then the harvest pays no more than the pool's reward
/// for that time, `elapsed * rate * weight / total_weight`, and falls short
/// of it by less than `1 + stake / precision`.
pub proof fn law_sole_staker_conservation(
    s: ChefView,
    pool_id: u64,
    who: Seq<u8>,
    now: u64,
)
    requires
        s.pool_exists(pool_id),
        s.total_alloc_point > 0,
        s.position(pool_id, who).amount > 0,
        s.position(pool_id, who).reward_debt == accumulated_spec(
            s.position(pool_id, who).amount,
            s.pool(pool_id).acc_reward_per_share,
        ),
        now > s.pool(pool_id).last_reward_time,
    ensures
        ({
            let stake = s.position(pool_id, who).amount;
            let reward = pool_reward_spec(
                (now - s.pool(pool_id).last_reward_time) as nat,
                s.reward_per_second,
                s.pool(pool_id).alloc_point,
                s.total_alloc_point,
            );
            &&& harvest_spec(s, pool_id, who, now, stake) matches Ok(t)
            &&& t.1 <= reward
            &&& reward * precision() < t.1 * precision() + precision() + stake
        }),
{
    let pool = s.pool(pool_id);
    let user = s.position(pool_id, who);
    let a = user.amount as int;
    let p = precision() as int;
    let elapsed = (now - pool.last_reward_time) as nat;
    let reward = pool_reward_spec(
        elapsed,
        s.reward_per_second,
        pool.alloc_point,
        s.total_alloc_point,
    ) as int;
    let delta = accrue_spec(
        elapsed,
        s.reward_per_second,
        pool.alloc_point,
        s.total_alloc_point,
        user.amount,
    ) as int;
    let acc0 = pool.acc_reward_per_share as int;
    let acc1 = acc0 + delta;
    let settled = s.settled_pool(pool_id, now, user.amount);
    assert(settled.acc_reward_per_share == acc1);
    assert(0 <= reward) by {
        lemma_floor_bounds(
            (elapsed * s.reward_per_second * pool.alloc_point) as int,
            s.total_alloc_point as int,
        );
    }
    assert(0 <= reward * p) by (nonlinear_arith)
        requires
            0 <= reward,
            0 < p,
    ;
    lemma_floor_bounds(reward * p, a);
    assert(delta == (reward * p) / a);
    let x = a * acc0;
    let y = a * acc1;
    assert(y == x + a * delta) by (nonlinear_arith)
        requires
            y == a * acc1,
            x == a * acc0,
            acc1 == acc0 + delta,
    ;
    assert(a * delta == delta * a) by (nonlinear_arith);
    assert(0 <= x) by (nonlinear_arith)
        requires
            x == a * acc0,
            0 <= a,
            0 <= acc0,
    ;
    assert(0 <= y) by (nonlinear_arith)
        requires
            y == a * acc1,
            0 <= a,
            0 <= acc1,
    ;
    lemma_floor_bounds(x, p);
    lemma_floor_bounds(y, p);
    let q0 = x / p;
    let q1 = y / p;
    assert(accumulated_spec(user.amount, pool.acc_reward_per_share) == q0);
    assert(accumulated_spec(user.amount, settled.acc_reward_per_share) == q1);
    let owed = q1 - q0;
    assert(pending_spec(user, settled.acc_reward_per_share) == owed);
    // p * owed lies within p of a * delta, and a * delta within a of reward * p
    assert((q1 - q0) * p == q1 * p - q0 * p) by (nonlinear_arith);
    assert(owed * p > a * delta - p);
    assert(owed * p < a * delta + p);
    assert(owed >= 0) by (nonlinear_arith)
        requires
            owed * p > a * delta - p,
            0 <= a * delta,
            0 < p,
    ;
    assert(owed <= reward) by (nonlinear_arith)
        requires
            owed * p < a * delta + p,
            a * delta <= reward * p,
            0 < p,
    ;
    assert(reward * p < owed * p + p + a);
}

/// A position that was just settled has nothing pending: settling it again
/// under the same accumulator pays exactly nothing and leaves it as it is.
pub proof fn law_settle_user_twice(user: UserView, acc: nat)
    ensures
        pending_spec(settled_position(user, acc), acc) == 0,
        settled_position(settled_position(user, acc), acc) == settled_position(user, acc),
{
}

/// Nobody is paid twice. After a harvest, a second harvest by the same user
/// from the same pool at the same time, with no change of stake in between,
/// pays exactly nothing and leaves the ledger as it is.
pub proof fn law_no_double_payment(
    s: ChefView,
    pool_id: u64,
    who: Seq<u8>,
    now: u64,
    supply: nat,
    supply_again: nat,
)
    ensures
        harvest_spec(s, pool_id, who, now, supply) matches Ok(first) ==> harvest_spec(
            first.0,
            pool_id,
            who,
            now,
            supply_again,
        ) == Ok::<(ChefView, nat), crate::error::ChefError>((first.0, 0nat)),
{
    if let Ok(first) = harvest_spec(s, pool_id, who, now, supply) {
        let t = first.0;
        let pool = s.settled_pool(pool_id, now, supply);
        law_accumulator_monotone(
            s.pool(pool_id),
            now,
            supply,
            s.reward_per_second,
            s.total_alloc_point,
        );
        assert(t.pool(pool_id) == pool);
        assert(t.settled_pool(pool_id, now, supply_again) == pool);
        let again = t.with_pool(pool_id, pool).with_position(pool_id, who, t.position(pool_id, who));
        assert(again.pools =~= t.pools);
        assert(again.users =~= t.users);
        assert(again == t);
    }
}

/// An emergency withdrawal returns the stake and nothing else, and gives up
/// the reward: afterwards the position is empty, and nothing is pending for
/// it at any time.
pub proof fn law_emergency_forfeits(
    s: ChefView,
    pool_id: u64,
    who: Seq<u8>,
    now: u64,
    supply: nat,
)
    ensures
        emergency_withdraw_spec(s, pool_id, who) matches Ok(t) ==> {
            &&& t.1 == s.position(pool_id, who).amount
            &&& t.0.position(pool_id, who) == empty_position()
            &&& t.0.pools == s.pools
            &&& pending_reward_spec(t.0, pool_id, who, now, supply) == Ok::<
                nat,
                crate::error::ChefError,
            >(0nat)
            &&& stored_pending_reward_spec(t.0, pool_id, who) == Ok::<
                nat,
                crate::error::ChefError,
            >(0nat)
        },
{
    if let Ok(t) = emergency_withdraw_spec(s, pool_id, who) {
        let acc = t.0.settled_pool(pool_id, now, supply).acc_reward_per_share;
        let stored = t.0.pool(pool_id).acc_reward_per_share;
        assert(0 * acc == 0) by (nonlinear_arith);
        assert(0 * stored == 0) by (nonlinear_arith);
        assert(accumulated_spec(0, acc) == 0);
        assert(accumulated_spec(0, stored) == 0);
    }
}

} // verus!
