//! The ledger as a mathematical state, and each operation as a function from
//! state to state.

use vstd::prelude::*;
use crate::accrual::accumulated_spec;
use crate::error::ChefError;
use crate::identity::valid_esdt_identifier;
use crate::pool_info::{settle_spec, PoolView};
use crate::user_info::{empty_position, pending_spec, settled_position, UserView};

verus! {

/// The state of the ledger. Pool `id` is `pools[id - 1]`: ids start at 1 and
/// are given out in order. A user without an entry in `users` has the empty
/// position.
pub struct ChefView {
    pub reward: Seq<u8>,
    pub fund: Option<Seq<u8>>,
    pub pools: Seq<PoolView>,
    pub users: Map<(u64, Seq<u8>), UserView>,
    pub total_alloc_point: nat,
    pub reward_per_second: nat,
}

/// The sum of the pools' weights.
pub open spec fn alloc_sum(pools: Seq<PoolView>) -> nat
    decreases pools.len(),
{
    if pools.len() == 0 {
        0
    } else {
        alloc_sum(pools.drop_last()) + pools.last().alloc_point
    }
}

/// No two pools stake the same asset.
pub open spec fn assets_distinct(pools: Seq<PoolView>) -> bool {
    forall|i: int, j: int|
        0 <= i < j < pools.len() ==> (#[trigger] pools[i]).lp_token != (#[trigger] pools[j]).lp_token
}

impl ChefView {
    /// What holds of every state that the operations can reach: the total
    /// weight is the sum of the pools' weights, and no asset has two pools.
    pub open spec fn consistent(self) -> bool {
        &&& self.total_alloc_point == alloc_sum(self.pools)
        &&& assets_distinct(self.pools)
    }

    pub open spec fn pool_exists(self, pool_id: u64) -> bool {
        1 <= pool_id <= self.pools.len()
    }

    pub open spec fn pool(self, pool_id: u64) -> PoolView {
        self.pools[pool_id - 1]
    }

    pub open spec fn has_asset(self, token: Seq<u8>) -> bool {
        exists|i: int| 0 <= i < self.pools.len() && (#[trigger] self.pools[i]).lp_token == token
    }

    pub open spec fn position(self, pool_id: u64, who: Seq<u8>) -> UserView {
        if self.users.contains_key((pool_id, who)) {
            self.users[(pool_id, who)]
        } else {
            empty_position()
        }
    }

    /// Pool `pool_id` brought up to date at `now` with `supply` staked.
    pub open spec fn settled_pool(self, pool_id: u64, now: u64, supply: nat) -> PoolView {
        settle_spec(
            self.pool(pool_id),
            now,
            supply,
            self.reward_per_second,
            self.total_alloc_point,
        )
    }

    pub open spec fn with_pool(self, pool_id: u64, pool: PoolView) -> ChefView {
        ChefView { pools: self.pools.update(pool_id - 1, pool), ..self }
    }

    pub open spec fn with_position(self, pool_id: u64, who: Seq<u8>, user: UserView) -> ChefView {
        ChefView { users: self.users.insert((pool_id, who), user), ..self }
    }
}

/// A new ledger that pays its reward in `reward`: no pools, no stake, no
/// emission. The asset must be the native token or have the shape of an
/// issued token's name.
pub open spec fn init_spec(reward: Seq<u8>) -> Result<ChefView, ChefError> {
    if reward.len() == 0 || valid_esdt_identifier(reward) {
        Ok(
            ChefView {
                reward,
                fund: None,
                pools: Seq::empty(),
                users: Map::empty(),
                total_alloc_point: 0,
                reward_per_second: 0,
            },
        )
    } else {
        Err(ChefError::InvalidConfiguration)
    }
}

/// A pool of weight `weight` for `token` is added at `now`.
pub open spec fn add_spec(
    s: ChefView,
    owner: bool,
    weight: nat,
    token: Seq<u8>,
    now: u64,
) -> Result<ChefView, ChefError> {
    if !owner {
        Err(ChefError::Unauthorized)
    } else if s.has_asset(token) {
        Err(ChefError::DuplicatePool)
    } else {
        Ok(
            ChefView {
                pools: s.pools.push(
                    PoolView {
                        lp_token: token,
                        acc_reward_per_share: 0,
                        last_reward_time: now,
                        alloc_point: weight,
                    },
                ),
                total_alloc_point: s.total_alloc_point + weight,
                ..s
            },
        )
    }
}

/// The weight of pool `pool_id` becomes `weight`.
pub open spec fn set_spec(s: ChefView, owner: bool, pool_id: u64, weight: nat) -> Result<
    ChefView,
    ChefError,
> {
    if !owner {
        Err(ChefError::Unauthorized)
    } else if !s.pool_exists(pool_id) {
        Err(ChefError::PoolNotFound)
    } else {
        Ok(
            ChefView {
                pools: s.pools.update(
                    pool_id - 1,
                    PoolView { alloc_point: weight, ..s.pool(pool_id) },
                ),
                total_alloc_point: (s.total_alloc_point - s.pool(pool_id).alloc_point + weight) as nat,
                ..s
            },
        )
    }
}

/// The emission becomes `rate` per second.
pub open spec fn set_reward_per_second_spec(s: ChefView, owner: bool, rate: nat) -> Result<
    ChefView,
    ChefError,
> {
    if !owner {
        Err(ChefError::Unauthorized)
    } else {
        Ok(ChefView { reward_per_second: rate, ..s })
    }
}

/// The reservoir that pays the rewards becomes `fund`.
pub open spec fn set_fund_spec(s: ChefView, owner: bool, fund: Seq<u8>) -> Result<
    ChefView,
    ChefError,
> {
    if !owner {
        Err(ChefError::Unauthorized)
    } else {
        Ok(ChefView { fund: Some(fund), ..s })
    }
}

/// `amount` of `token` is staked in pool `pool_id` for `to`. The pool is
/// settled first; then the stake grows and the debt is set to what the new
/// stake accumulates. Nothing is paid out.
pub open spec fn deposit_spec(
    s: ChefView,
    pool_id: u64,
    to: Seq<u8>,
    token: Seq<u8>,
    amount: nat,
    now: u64,
    supply: nat,
) -> Result<ChefView, ChefError> {
    if !s.pool_exists(pool_id) {
        Err(ChefError::PoolNotFound)
    } else if token != s.pool(pool_id).lp_token {
        Err(ChefError::WrongAsset)
    } else {
        let pool = s.settled_pool(pool_id, now, supply);
        let staked = s.position(pool_id, to).amount + amount;
        Ok(
            s.with_pool(pool_id, pool).with_position(
                pool_id,
                to,
                UserView {
                    amount: staked,
                    reward_debt: accumulated_spec(staked, pool.acc_reward_per_share),
                },
            ),
        )
    }
}

/// `sender` takes `amount` of stake out of pool `pool_id`. The pool is
/// settled first; the reward owed on the stake as it was is paid, and the
/// debt is set to what that stake had accumulated. The result is the new
/// state and the reward.
pub open spec fn withdraw_spec(
    s: ChefView,
    pool_id: u64,
    sender: Seq<u8>,
    amount: nat,
    now: u64,
    supply: nat,
) -> Result<(ChefView, nat), ChefError> {
    if !s.pool_exists(pool_id) {
        Err(ChefError::PoolNotFound)
    } else if s.position(pool_id, sender).amount < amount {
        Err(ChefError::InsufficientStake)
    } else {
        let pool = s.settled_pool(pool_id, now, supply);
        let user = s.position(pool_id, sender);
        let owed = pending_spec(user, pool.acc_reward_per_share);
        if owed < 0 {
            Err(ChefError::RewardDebtExceedsAccrued)
        } else {
            Ok(
                (
                    s.with_pool(pool_id, pool).with_position(
                        pool_id,
                        sender,
                        UserView {
                            amount: (user.amount - amount) as nat,
                            reward_debt: accumulated_spec(user.amount, pool.acc_reward_per_share),
                        },
                    ),
                    owed as nat,
                ),
            )
        }
    }
}

/// `sender` takes the whole stake out of pool `pool_id` and gives up the
/// reward. The pool is not settled. The result is the new state and the
/// stake.
pub open spec fn emergency_withdraw_spec(s: ChefView, pool_id: u64, sender: Seq<u8>) -> Result<
    (ChefView, nat),
    ChefError,
> {
    if !s.pool_exists(pool_id) {
        Err(ChefError::PoolNotFound)
    } else if s.position(pool_id, sender).amount == 0 {
        Err(ChefError::NothingToWithdraw)
    } else {
        Ok(
            (
                s.with_position(pool_id, sender, empty_position()),
                s.position(pool_id, sender).amount,
            ),
        )
    }
}

/// `sender` collects the reward owed in pool `pool_id`. The pool is settled
/// first; the stake stays. The result is the new state and the reward.
pub open spec fn harvest_spec(
    s: ChefView,
    pool_id: u64,
    sender: Seq<u8>,
    now: u64,
    supply: nat,
) -> Result<(ChefView, nat), ChefError> {
    if !s.pool_exists(pool_id) {
        Err(ChefError::PoolNotFound)
    } else {
        let pool = s.settled_pool(pool_id, now, supply);
        let user = s.position(pool_id, sender);
        let owed = pending_spec(user, pool.acc_reward_per_share);
        if owed < 0 {
            Err(ChefError::RewardDebtExceedsAccrued)
        } else {
            Ok(
                (
                    s.with_pool(pool_id, pool).with_position(
                        pool_id,
                        sender,
                        settled_position(user, pool.acc_reward_per_share),
                    ),
                    owed as nat,
                ),
            )
        }
    }
}

/// The reward that `user` would collect from pool `pool_id` at `now`, had
/// the pool been settled then with `supply` staked.
pub open spec fn pending_reward_spec(
    s: ChefView,
    pool_id: u64,
    user: Seq<u8>,
    now: u64,
    supply: nat,
) -> Result<nat, ChefError> {
    if !s.pool_exists(pool_id) {
        Err(ChefError::PoolNotFound)
    } else {
        let owed = pending_spec(
            s.position(pool_id, user),
            s.settled_pool(pool_id, now, supply).acc_reward_per_share,
        );
        if owed < 0 {
            Err(ChefError::RewardDebtExceedsAccrued)
        } else {
            Ok(owed as nat)
        }
    }
}

/// The reward that `user` is owed in pool `pool_id` under the accumulator as
/// it is stored, without regard to the time since the pool was last settled.
pub open spec fn stored_pending_reward_spec(s: ChefView, pool_id: u64, user: Seq<u8>) -> Result<
    nat,
    ChefError,
> {
    if !s.pool_exists(pool_id) {
        Err(ChefError::PoolNotFound)
    } else {
        let owed = pending_spec(s.position(pool_id, user), s.pool(pool_id).acc_reward_per_share);
        if owed < 0 {
            Err(ChefError::RewardDebtExceedsAccrued)
        } else {
            Ok(owed as nat)
        }
    }
}

/// Appending a pool adds its weight to the sum.
pub proof fn lemma_alloc_sum_push(pools: Seq<PoolView>, pool: PoolView)
    ensures
        alloc_sum(pools.push(pool)) == alloc_sum(pools) + pool.alloc_point,
{
    assert(pools.push(pool).drop_last() =~= pools);
}

/// Replacing a pool changes the sum by the difference of the weights.
pub proof fn lemma_alloc_sum_update(pools: Seq<PoolView>, i: int, pool: PoolView)
    requires
        0 <= i < pools.len(),
    ensures
        alloc_sum(pools.update(i, pool)) + pools[i].alloc_point == alloc_sum(pools)
            + pool.alloc_point,
        pools[i].alloc_point <= alloc_sum(pools),
    decreases pools.len(),
{
    let updated = pools.update(i, pool);
    if i == pools.len() - 1 {
        assert(updated.drop_last() =~= pools.drop_last());
    } else {
        lemma_alloc_sum_update(pools.drop_last(), i, pool);
        assert(updated.drop_last() =~= pools.drop_last().update(i, pool));
    }
}

} // verus!
