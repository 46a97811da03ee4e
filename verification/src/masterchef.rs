//! The ledger: pools, positions, and the operations on them.
//!
//! Every operation takes what it needs from outside as plain arguments: the
//! time, the stake held for the pool's asset, and whether the caller is the
//! owner. It either commits its whole effect and returns the payments that
//! are due, or is refused and changes nothing.

use vstd::prelude::*;
use crate::accrual::accumulated;
use crate::bignat::BigNat;
use crate::error::ChefError;
use crate::identity::{Address, TokenId};
use crate::model::{
    add_spec, alloc_sum, assets_distinct, deposit_spec, emergency_withdraw_spec, harvest_spec,
    init_spec, lemma_alloc_sum_push, lemma_alloc_sum_update, pending_reward_spec, set_fund_spec,
    set_reward_per_second_spec, set_spec, stored_pending_reward_spec, withdraw_spec, ChefView,
};
use crate::pool_info::{settle_spec, PoolInfo, PoolView};
use crate::transfer::{Transfer, TransferView, Withdrawal};
use crate::user_info::{UserInfo, UserView};

verus! {

/// The position of one user in one pool, as it is stored.
#[derive(Debug)]
pub struct UserEntry {
    pub pool_id: u64,
    pub user: Address,
    pub info: UserInfo,
}

impl Clone for UserEntry {
    fn clone(&self) -> (r: Self)
        ensures
            r.pool_id == self.pool_id,
            r.user@ == self.user@,
            r.info@ == self.info@,
    {
        UserEntry { pool_id: self.pool_id, user: self.user.clone(), info: self.info.clone() }
    }
}

/// What an entry is found by.
pub open spec fn entry_key(entry: UserEntry) -> (u64, Seq<u8>) {
    (entry.pool_id, entry.user@)
}

/// No two entries are for the same user in the same pool.
pub open spec fn keys_unique(entries: Seq<UserEntry>) -> bool {
    forall|i: int, j: int|
        0 <= i < j < entries.len() ==> entry_key(#[trigger] entries[i]) != entry_key(
            #[trigger] entries[j],
        )
}

/// The positions that a list of entries holds.
pub open spec fn users_map(entries: Seq<UserEntry>) -> Map<(u64, Seq<u8>), UserView>
    decreases entries.len(),
{
    if entries.len() == 0 {
        Map::empty()
    } else {
        users_map(entries.drop_last()).insert(entry_key(entries.last()), entries.last().info@)
    }
}

/// The pools as the model sees them.
pub open spec fn pools_view(pools: Seq<PoolInfo>) -> Seq<PoolView> {
    pools.map_values(|p: PoolInfo| p@)
}

/// The reservoir as the model sees it.
pub open spec fn fund_view(fund: Option<Address>) -> Option<Seq<u8>> {
    match fund {
        Some(a) => Some(a@),
        None => None,
    }
}

/// An entry of the list is a position of the map.
pub proof fn lemma_users_map_index(entries: Seq<UserEntry>, i: int)
    requires
        keys_unique(entries),
        0 <= i < entries.len(),
    ensures
        users_map(entries).contains_key(entry_key(entries[i])),
        users_map(entries)[entry_key(entries[i])] == entries[i].info@,
    decreases entries.len(),
{
    if i < entries.len() - 1 {
        let rest = entries.drop_last();
        assert(rest[i] == entries[i]);
        assert(keys_unique(rest)) by {
            assert forall|a: int, b: int| 0 <= a < b < rest.len() implies entry_key(
                #[trigger] rest[a],
            ) != entry_key(#[trigger] rest[b]) by {
                assert(rest[a] == entries[a] && rest[b] == entries[b]);
            }
        }
        lemma_users_map_index(rest, i);
        assert(entry_key(entries[i]) != entry_key(entries[entries.len() - 1]));
    }
}

/// A key that no entry has is not in the map.
pub proof fn lemma_users_map_absent(entries: Seq<UserEntry>, key: (u64, Seq<u8>))
    requires
        forall|j: int| 0 <= j < entries.len() ==> entry_key(#[trigger] entries[j]) != key,
    ensures
        !users_map(entries).contains_key(key),
    decreases entries.len(),
{
    if entries.len() > 0 {
        let rest = entries.drop_last();
        assert forall|j: int| 0 <= j < rest.len() implies entry_key(#[trigger] rest[j])
            != key by {
            assert(rest[j] == entries[j]);
        }
        lemma_users_map_absent(rest, key);
        assert(entry_key(entries[entries.len() - 1]) != key);
    }
}

/// Appending an entry inserts its position.
pub proof fn lemma_users_map_push(entries: Seq<UserEntry>, entry: UserEntry)
    ensures
        users_map(entries.push(entry)) == users_map(entries).insert(entry_key(entry), entry.info@),
{
    assert(entries.push(entry).drop_last() =~= entries);
}

/// Replacing an entry by one with the same key inserts its position.
pub proof fn lemma_users_map_update(entries: Seq<UserEntry>, i: int, entry: UserEntry)
    requires
        keys_unique(entries),
        0 <= i < entries.len(),
        entry_key(entry) == entry_key(entries[i]),
    ensures
        users_map(entries.update(i, entry)) == users_map(entries).insert(
            entry_key(entry),
            entry.info@,
        ),
        keys_unique(entries.update(i, entry)),
    decreases entries.len(),
{
    let updated = entries.update(i, entry);
    let rest = entries.drop_last();
    assert(keys_unique(updated)) by {
        assert forall|a: int, b: int| 0 <= a < b < updated.len() implies entry_key(
            #[trigger] updated[a],
        ) != entry_key(#[trigger] updated[b]) by {
            assert(entry_key(updated[a]) == entry_key(entries[a]));
            assert(entry_key(updated[b]) == entry_key(entries[b]));
        }
    }
    if i == entries.len() - 1 {
        assert(updated.drop_last() =~= rest);
        assert(users_map(updated) =~= users_map(entries).insert(entry_key(entry), entry.info@));
    } else {
        assert(keys_unique(rest)) by {
            assert forall|a: int, b: int| 0 <= a < b < rest.len() implies entry_key(
                #[trigger] rest[a],
            ) != entry_key(#[trigger] rest[b]) by {
                assert(rest[a] == entries[a] && rest[b] == entries[b]);
            }
        }
        assert(rest[i] == entries[i]);
        lemma_users_map_update(rest, i, entry);
        assert(updated.drop_last() =~= rest.update(i, entry));
        assert(updated.last() == entries.last());
        assert(entry_key(entries[i]) != entry_key(entries[entries.len() - 1]));
        assert(users_map(updated) =~= users_map(entries).insert(entry_key(entry), entry.info@));
    }
}

/// Lists with the same keys and positions, entry by entry, hold the same
/// positions, and the keys of one are unique where those of the other are.
pub proof fn lemma_users_map_agree(a: Seq<UserEntry>, b: Seq<UserEntry>)
    requires
        a.len() == b.len(),
        forall|j: int|
            0 <= j < a.len() ==> entry_key(#[trigger] a[j]) == entry_key(b[j]) && a[j].info@
                == b[j].info@,
    ensures
        users_map(a) == users_map(b),
        keys_unique(a) == keys_unique(b),
    decreases a.len(),
{
    if a.len() > 0 {
        assert forall|j: int| 0 <= j < a.drop_last().len() implies entry_key(
            #[trigger] a.drop_last()[j],
        ) == entry_key(b.drop_last()[j]) && a.drop_last()[j].info@ == b.drop_last()[j].info@ by {
            assert(a.drop_last()[j] == a[j] && b.drop_last()[j] == b[j]);
        }
        lemma_users_map_agree(a.drop_last(), b.drop_last());
        assert(entry_key(a[a.len() - 1]) == entry_key(b[a.len() - 1]));
    }
    if keys_unique(a) {
        assert forall|i: int, j: int| 0 <= i < j < b.len() implies entry_key(#[trigger] b[i])
            != entry_key(#[trigger] b[j]) by {
            assert(entry_key(a[i]) != entry_key(a[j]));
        }
    }
    if keys_unique(b) {
        assert forall|i: int, j: int| 0 <= i < j < a.len() implies entry_key(#[trigger] a[i])
            != entry_key(#[trigger] a[j]) by {
            assert(entry_key(b[i]) != entry_key(b[j]));
        }
    }
}

/// The sum of the weights of a list of pools.
pub fn sum_alloc_points(pools: &Vec<PoolInfo>) -> (r: BigNat)
    ensures
        r@ == alloc_sum(pools_view(pools@)),
{
    let mut total = BigNat::zero();
    let mut i: usize = 0;
    let ghost all = pools_view(pools@);
    while i < pools.len()
        invariant
            i <= pools@.len(),
            all == pools_view(pools@),
            total@ == alloc_sum(all.take(i as int)),
        decreases pools.len() - i,
    {
        proof {
            assert(all.take((i + 1) as int).drop_last() =~= all.take(i as int));
            assert(all.take((i + 1) as int).last() == pools@[i as int]@);
        }
        total = total.add(&pools[i].alloc_point);
        i += 1;
    }
    proof {
        assert(all.take(pools@.len() as int) =~= all);
    }
    total
}

/// Whether no two pools of a list stake the same asset.
pub fn pools_distinct(pools: &Vec<PoolInfo>) -> (r: bool)
    ensures
        r == assets_distinct(pools_view(pools@)),
{
    let ghost all = pools_view(pools@);
    let mut j: usize = 0;
    while j < pools.len()
        invariant
            j <= pools@.len(),
            all == pools_view(pools@),
            forall|a: int, b: int|
                0 <= a < b < j ==> (#[trigger] all[a]).lp_token != (#[trigger] all[b]).lp_token,
        decreases pools.len() - j,
    {
        let mut i: usize = 0;
        while i < j
            invariant
                i <= j < pools@.len(),
                all == pools_view(pools@),
                forall|a: int| 0 <= a < i ==> (#[trigger] all[a]).lp_token != all[j as int].lp_token,
            decreases j - i,
        {
            if pools[i].lp_token.equals(&pools[j].lp_token) {
                assert(all[i as int].lp_token == all[j as int].lp_token);
                return false;
            }
            i += 1;
        }
        j += 1;
    }
    true
}

/// Whether no two entries of a list are for the same user in the same pool.
pub fn entries_distinct(entries: &Vec<UserEntry>) -> (r: bool)
    ensures
        r == keys_unique(entries@),
{
    let mut j: usize = 0;
    while j < entries.len()
        invariant
            j <= entries@.len(),
            forall|a: int, b: int|
                0 <= a < b < j ==> entry_key(#[trigger] entries@[a]) != entry_key(
                    #[trigger] entries@[b],
                ),
        decreases entries.len() - j,
    {
        let mut i: usize = 0;
        while i < j
            invariant
                i <= j < entries@.len(),
                forall|a: int|
                    0 <= a < i ==> entry_key(#[trigger] entries@[a]) != entry_key(
                        entries@[j as int],
                    ),
            decreases j - i,
        {
            if entries[i].pool_id == entries[j].pool_id && entries[i].user.equals(
                &entries[j].user,
            ) {
                assert(entry_key(entries@[i as int]) == entry_key(entries@[j as int]));
                return false;
            }
            i += 1;
        }
        j += 1;
    }
    true
}

/// A copy of a list of pools.
fn clone_pools(pools: &Vec<PoolInfo>) -> (r: Vec<PoolInfo>)
    ensures
        pools_view(r@) == pools_view(pools@),
{
    let mut out: Vec<PoolInfo> = Vec::new();
    let mut i: usize = 0;
    while i < pools.len()
        invariant
            i <= pools@.len(),
            out@.len() == i,
            forall|j: int| 0 <= j < i ==> (#[trigger] out@[j])@ == pools@[j]@,
        decreases pools.len() - i,
    {
        out.push(pools[i].clone());
        i += 1;
    }
    assert(pools_view(out@) =~= pools_view(pools@));
    out
}

/// A copy of a list of entries.
fn clone_entries(entries: &Vec<UserEntry>) -> (r: Vec<UserEntry>)
    ensures
        users_map(r@) == users_map(entries@),
        keys_unique(r@) == keys_unique(entries@),
{
    let mut out: Vec<UserEntry> = Vec::new();
    let mut i: usize = 0;
    while i < entries.len()
        invariant
            i <= entries@.len(),
            out@.len() == i,
            forall|j: int|
                0 <= j < i ==> entry_key(#[trigger] out@[j]) == entry_key(entries@[j])
                    && out@[j].info@ == entries@[j].info@,
        decreases entries.len() - i,
    {
        out.push(entries[i].clone());
        i += 1;
    }
    proof {
        lemma_users_map_agree(out@, entries@);
    }
    out
}

/// The ledger.
#[derive(Debug)]
pub struct MasterChef {
    reward: TokenId,
    fund: Option<Address>,
    pools: Vec<PoolInfo>,
    users: Vec<UserEntry>,
    total_alloc_point: BigNat,
    reward_per_second: BigNat,
}

impl View for MasterChef {
    type V = ChefView;

    closed spec fn view(&self) -> ChefView {
        ChefView {
            reward: self.reward@,
            fund: fund_view(self.fund),
            pools: pools_view(self.pools@),
            users: users_map(self.users@),
            total_alloc_point: self.total_alloc_point@,
            reward_per_second: self.reward_per_second@,
        }
    }
}

impl Clone for MasterChef {
    /// A copy of the ledger, to go back to when a payment that an operation
    /// asked for cannot be made.
    fn clone(&self) -> (r: Self)
        ensures
            r@ == self@,
            r.wf() == self.wf(),
    {
        MasterChef {
            reward: self.reward.clone(),
            fund: match &self.fund {
                Some(a) => Some(a.clone()),
                None => None,
            },
            pools: clone_pools(&self.pools),
            users: clone_entries(&self.users),
            total_alloc_point: self.total_alloc_point.clone(),
            reward_per_second: self.reward_per_second.clone(),
        }
    }
}

impl MasterChef {
    /// The ledger is sound: its state is consistent, and it stores each
    /// position once.
    pub closed spec fn wf(&self) -> bool {
        &&& self@.consistent()
        &&& keys_unique(self.users@)
    }

    /// A sound ledger is in a consistent state: the total weight is the sum of
    /// the pools' weights, and no asset has two pools.
    pub proof fn lemma_wf_consistent(&self)
        requires
            self.wf(),
        ensures
            self@.consistent(),
    {
    }

    /// A new ledger that pays its reward in `reward`.
    pub fn init(reward: TokenId) -> (r: Result<MasterChef, ChefError>)
        ensures
            match init_spec(reward@) {
                Ok(s) => r matches Ok(chef) && chef@ == s && chef.wf(),
                Err(e) => r matches Err(e2) && e2 == e,
            },
    {
        if !(reward.is_egld() || reward.is_valid_esdt_identifier()) {
            return Err(ChefError::InvalidConfiguration);
        }
        let chef = MasterChef {
            reward,
            fund: None,
            pools: Vec::new(),
            users: Vec::new(),
            total_alloc_point: BigNat::zero(),
            reward_per_second: BigNat::zero(),
        };
        proof {
            assert(chef@.pools =~= Seq::<PoolView>::empty());
            assert(chef@.users =~= Map::<(u64, Seq<u8>), UserView>::empty());
        }
        Ok(chef)
    }

    /// The ledger that was stored as these tables and numbers. Tables that no
    /// sound ledger has are refused: a total weight that is not the sum of the
    /// pools' weights, two pools for one asset, or two entries for one user in
    /// one pool.
    pub fn restore(
        reward: TokenId,
        fund: Option<Address>,
        pools: Vec<PoolInfo>,
        users: Vec<UserEntry>,
        total_alloc_point: BigNat,
        reward_per_second: BigNat,
    ) -> (r: Result<MasterChef, ChefError>)
        ensures
            r.is_ok() == (total_alloc_point@ == alloc_sum(pools_view(pools@)) && assets_distinct(
                pools_view(pools@),
            ) && keys_unique(users@)),
            r matches Ok(chef) ==> chef.wf() && chef@ == (ChefView {
                reward: reward@,
                fund: fund_view(fund),
                pools: pools_view(pools@),
                users: users_map(users@),
                total_alloc_point: total_alloc_point@,
                reward_per_second: reward_per_second@,
            }),
            r matches Err(e) ==> e == ChefError::InvalidConfiguration,
    {
        if !sum_alloc_points(&pools).equals(&total_alloc_point) {
            return Err(ChefError::InvalidConfiguration);
        }
        if !pools_distinct(&pools) {
            return Err(ChefError::InvalidConfiguration);
        }
        if !entries_distinct(&users) {
            return Err(ChefError::InvalidConfiguration);
        }
        Ok(MasterChef { reward, fund, pools, users, total_alloc_point, reward_per_second })
    }

    /// The stored positions, one entry for each user and pool.
    pub fn user_entries(&self) -> (r: Vec<UserEntry>)
        requires
            self.wf(),
        ensures
            users_map(r@) == self@.users,
            keys_unique(r@),
    {
        clone_entries(&self.users)
    }

    /// The position of pool `pool_id` in the list of pools.
    fn pool_index(&self, pool_id: u64) -> (r: Option<usize>)
        ensures
            r.is_some() == self@.pool_exists(pool_id),
            r matches Some(i) ==> i == pool_id - 1 && i < self.pools@.len(),
    {
        if pool_id >= 1 && pool_id - 1 < self.pools.len() as u64 {
            Some((pool_id - 1) as usize)
        } else {
            None
        }
    }

    /// Whether some pool stakes `token`.
    fn has_pool_for(&self, token: &TokenId) -> (r: bool)
        ensures
            r == self@.has_asset(token@),
    {
        let mut i: usize = 0;
        while i < self.pools.len()
            invariant
                i <= self.pools@.len(),
                forall|j: int| 0 <= j < i ==> (#[trigger] self@.pools[j]).lp_token != token@,
            decreases self.pools.len() - i,
        {
            if self.pools[i].lp_token.equals(token) {
                assert(self@.pools[i as int].lp_token == token@);
                return true;
            }
            i += 1;
        }
        false
    }

    /// Where the position of `user` in pool `pool_id` is stored, if it is.
    fn find_user(&self, pool_id: u64, user: &Address) -> (r: Option<usize>)
        ensures
            r matches Some(i) ==> i < self.users@.len() && entry_key(self.users@[i as int]) == (
                pool_id,
                user@,
            ),
            r.is_none() ==> forall|j: int|
                0 <= j < self.users@.len() ==> entry_key(#[trigger] self.users@[j]) != (
                    pool_id,
                    user@,
                ),
    {
        let mut i: usize = 0;
        while i < self.users.len()
            invariant
                i <= self.users@.len(),
                forall|j: int|
                    0 <= j < i ==> entry_key(#[trigger] self.users@[j]) != (pool_id, user@),
            decreases self.users.len() - i,
        {
            if self.users[i].pool_id == pool_id && self.users[i].user.equals(user) {
                return Some(i);
            }
            i += 1;
        }
        None
    }

    /// The position of `user` in pool `pool_id`.
    fn read_position(&self, pool_id: u64, user: &Address) -> (r: UserInfo)
        requires
            self.wf(),
        ensures
            r@ == self@.position(pool_id, user@),
    {
        match self.find_user(pool_id, user) {
            Some(i) => {
                proof {
                    lemma_users_map_index(self.users@, i as int);
                }
                self.users[i].info.clone()
            },
            None => {
                proof {
                    lemma_users_map_absent(self.users@, (pool_id, user@));
                }
                UserInfo::new()
            },
        }
    }

    /// Stores `info` as the position of `user` in pool `pool_id`.
    fn write_position(&mut self, pool_id: u64, user: Address, info: UserInfo)
        requires
            old(self).wf(),
        ensures
            final(self).wf(),
            final(self)@ == old(self)@.with_position(pool_id, user@, info@),
    {
        let found = self.find_user(pool_id, &user);
        let entry = UserEntry { pool_id, user, info };
        match found {
            Some(i) => {
                proof {
                    lemma_users_map_update(self.users@, i as int, entry);
                }
                self.users.set(i, entry);
            },
            None => {
                proof {
                    lemma_users_map_push(self.users@, entry);
                    assert(keys_unique(self.users@.push(entry)));
                }
                self.users.push(entry);
            },
        }
    }

    /// Stores `pool` as pool `pool_id`. Its asset and its weight are those of
    /// the pool it replaces.
    fn write_pool(&mut self, index: usize, pool: PoolInfo)
        requires
            old(self).wf(),
            index < old(self)@.pools.len(),
            pool@.lp_token == old(self)@.pools[index as int].lp_token,
            pool@.alloc_point == old(self)@.pools[index as int].alloc_point,
        ensures
            final(self).wf(),
            final(self)@ == (ChefView {
                pools: old(self)@.pools.update(index as int, pool@),
                ..old(self)@
            }),
    {
        proof {
            lemma_alloc_sum_update(self@.pools, index as int, pool@);
            assert(pools_view(self.pools@.update(index as int, pool)) =~= pools_view(
                self.pools@,
            ).update(index as int, pool@));
        }
        self.pools.set(index, pool);
    }

    /// Brings `pool_info` up to date at `block_timestamp`, with `lp_supply`
    /// staked in it, at this ledger's emission and total weight.
    pub fn update_pool(&self, pool_info: &mut PoolInfo, block_timestamp: u64, lp_supply: &BigNat)
        ensures
            final(pool_info)@ == settle_spec(
                old(pool_info)@,
                block_timestamp,
                lp_supply@,
                self@.reward_per_second,
                self@.total_alloc_point,
            ),
    {
        pool_info.settle(
            block_timestamp,
            lp_supply,
            &self.reward_per_second,
            &self.total_alloc_point,
        );
    }

    /// Stakes `amount` of `token` in pool `pool_id` for `to`. The caller has
    /// taken the asset into custody.
    pub fn deposit(
        &mut self,
        pool_id: u64,
        to: Address,
        token: TokenId,
        amount: BigNat,
        block_timestamp: u64,
        lp_supply: BigNat,
    ) -> (r: Result<(), ChefError>)
        requires
            old(self).wf(),
        ensures
            final(self).wf(),
            match deposit_spec(
                old(self)@,
                pool_id,
                to@,
                token@,
                amount@,
                block_timestamp,
                lp_supply@,
            ) {
                Ok(s) => r.is_ok() && final(self)@ == s,
                Err(e) => r matches Err(e2) && e2 == e && final(self)@ == old(self)@,
            },
    {
        let index = match self.pool_index(pool_id) {
            Some(i) => i,
            None => {
                return Err(ChefError::PoolNotFound);
            },
        };
        if !token.equals(&self.pools[index].lp_token) {
            return Err(ChefError::WrongAsset);
        }
        let mut pool = self.pools[index].clone();
        self.update_pool(&mut pool, block_timestamp, &lp_supply);
        let mut user_info = self.read_position(pool_id, &to);
        user_info.amount = user_info.amount.add(&amount);
        user_info.reward_debt = accumulated(&user_info.amount, &pool.acc_reward_per_share);
        self.write_pool(index, pool);
        self.write_position(pool_id, to, user_info);
        Ok(())
    }

    /// Takes `amount` of the stake of `sender` out of pool `pool_id` and
    /// settles the reward. Both are to be paid to `to`.
    pub fn withdraw(
        &mut self,
        pool_id: u64,
        sender: Address,
        amount: BigNat,
        to: Address,
        block_timestamp: u64,
        lp_supply: BigNat,
    ) -> (r: Result<Withdrawal, ChefError>)
        requires
            old(self).wf(),
        ensures
            final(self).wf(),
            match withdraw_spec(
                old(self)@,
                pool_id,
                sender@,
                amount@,
                block_timestamp,
                lp_supply@,
            ) {
                Ok((s, owed)) => r matches Ok(paid) && final(self)@ == s && paid.reward@ == (
                TransferView { token: old(self)@.reward, to: to@, amount: owed }) && paid.principal@
                    == (TransferView {
                    token: old(self)@.pool(pool_id).lp_token,
                    to: to@,
                    amount: amount@,
                }),
                Err(e) => r matches Err(e2) && e2 == e && final(self)@ == old(self)@,
            },
    {
        let index = match self.pool_index(pool_id) {
            Some(i) => i,
            None => {
                return Err(ChefError::PoolNotFound);
            },
        };
        let mut user_info = self.read_position(pool_id, &sender);
        let rest = match user_info.amount.checked_sub(&amount) {
            Some(rest) => rest,
            None => {
                return Err(ChefError::InsufficientStake);
            },
        };
        let mut pool = self.pools[index].clone();
        self.update_pool(&mut pool, block_timestamp, &lp_supply);
        let pending_reward = match user_info.settle_user(&pool.acc_reward_per_share) {
            Some(owed) => owed,
            None => {
                return Err(ChefError::RewardDebtExceedsAccrued);
            },
        };
        user_info.amount = rest;
        let paid = Withdrawal {
            reward: Transfer { token: self.reward.clone(), to: to.clone(), amount: pending_reward },
            principal: Transfer { token: pool.lp_token.clone(), to, amount },
        };
        self.write_pool(index, pool);
        self.write_position(pool_id, sender, user_info);
        Ok(paid)
    }

    /// Takes the whole stake of `sender` out of pool `pool_id`, giving up the
    /// reward. The stake is to be paid to `to`.
    pub fn emergency_withdraw(&mut self, pool_id: u64, sender: Address, to: Address) -> (r: Result<
        Transfer,
        ChefError,
    >)
        requires
            old(self).wf(),
        ensures
            final(self).wf(),
            match emergency_withdraw_spec(old(self)@, pool_id, sender@) {
                Ok((s, stake)) => r matches Ok(paid) && final(self)@ == s && paid@ == (
                TransferView {
                    token: old(self)@.pool(pool_id).lp_token,
                    to: to@,
                    amount: stake,
                }),
                Err(e) => r matches Err(e2) && e2 == e && final(self)@ == old(self)@,
            },
    {
        let index = match self.pool_index(pool_id) {
            Some(i) => i,
            None => {
                return Err(ChefError::PoolNotFound);
            },
        };
        let user_info = self.read_position(pool_id, &sender);
        if user_info.amount.is_zero() {
            return Err(ChefError::NothingToWithdraw);
        }
        let paid = Transfer {
            token: self.pools[index].lp_token.clone(),
            to,
            amount: user_info.amount,
        };
        self.write_position(pool_id, sender, UserInfo::new());
        Ok(paid)
    }

    /// Settles the reward of `sender` in pool `pool_id`. It is to be paid to
    /// `to`.
    pub fn harvest(
        &mut self,
        pool_id: u64,
        sender: Address,
        to: Address,
        block_timestamp: u64,
        lp_supply: BigNat,
    ) -> (r: Result<Transfer, ChefError>)
        requires
            old(self).wf(),
        ensures
            final(self).wf(),
            match harvest_spec(old(self)@, pool_id, sender@, block_timestamp, lp_supply@) {
                Ok((s, owed)) => r matches Ok(paid) && final(self)@ == s && paid@ == (
                TransferView { token: old(self)@.reward, to: to@, amount: owed }),
                Err(e) => r matches Err(e2) && e2 == e && final(self)@ == old(self)@,
            },
    {
        let index = match self.pool_index(pool_id) {
            Some(i) => i,
            None => {
                return Err(ChefError::PoolNotFound);
            },
        };
        let mut pool = self.pools[index].clone();
        self.update_pool(&mut pool, block_timestamp, &lp_supply);
        let mut user_info = self.read_position(pool_id, &sender);
        let pending_reward = match user_info.settle_user(&pool.acc_reward_per_share) {
            Some(owed) => owed,
            None => {
                return Err(ChefError::RewardDebtExceedsAccrued);
            },
        };
        let paid = Transfer { token: self.reward.clone(), to, amount: pending_reward };
        self.write_pool(index, pool);
        self.write_position(pool_id, sender, user_info);
        Ok(paid)
    }

    /// Adds a pool of weight `alloc_point` for `lp_token` and returns its id.
    pub fn add(
        &mut self,
        caller_is_owner: bool,
        alloc_point: BigNat,
        lp_token: TokenId,
        block_timestamp: u64,
    ) -> (r: Result<u64, ChefError>)
        requires
            old(self).wf(),
        ensures
            final(self).wf(),
            match add_spec(old(self)@, caller_is_owner, alloc_point@, lp_token@, block_timestamp) {
                Ok(s) => r matches Ok(id) && id == old(self)@.pools.len() + 1 && final(self)@ == s,
                Err(e) => r matches Err(e2) && e2 == e && final(self)@ == old(self)@,
            },
    {
        if !caller_is_owner {
            return Err(ChefError::Unauthorized);
        }
        if self.has_pool_for(&lp_token) {
            return Err(ChefError::DuplicatePool);
        }
        let total = self.total_alloc_point.add(&alloc_point);
        let new_pool = PoolInfo::new(lp_token, alloc_point, block_timestamp);
        proof {
            lemma_alloc_sum_push(self@.pools, new_pool@);
            assert(pools_view(self.pools@.push(new_pool)) =~= pools_view(self.pools@).push(
                new_pool@,
            ));
        }
        self.total_alloc_point = total;
        self.pools.push(new_pool);
        Ok(self.pools.len() as u64)
    }

    /// Sets the weight of pool `pool_id` to `alloc_point`.
    pub fn set(&mut self, caller_is_owner: bool, pool_id: u64, alloc_point: BigNat) -> (r: Result<
        (),
        ChefError,
    >)
        requires
            old(self).wf(),
        ensures
            final(self).wf(),
            match set_spec(old(self)@, caller_is_owner, pool_id, alloc_point@) {
                Ok(s) => r.is_ok() && final(self)@ == s,
                Err(e) => r matches Err(e2) && e2 == e && final(self)@ == old(self)@,
            },
    {
        if !caller_is_owner {
            return Err(ChefError::Unauthorized);
        }
        let index = match self.pool_index(pool_id) {
            Some(i) => i,
            None => {
                return Err(ChefError::PoolNotFound);
            },
        };
        let mut pool = self.pools[index].clone();
        proof {
            lemma_alloc_sum_update(
                self@.pools,
                index as int,
                PoolView { alloc_point: alloc_point@, ..pool@ },
            );
        }
        let (without, _borrow) = self.total_alloc_point.sub_with_borrow(&pool.alloc_point);
        let total = without.add(&alloc_point);
        pool.alloc_point = alloc_point;
        proof {
            assert(pools_view(self.pools@.update(index as int, pool)) =~= pools_view(
                self.pools@,
            ).update(index as int, pool@));
        }
        self.total_alloc_point = total;
        self.pools.set(index, pool);
        Ok(())
    }

    /// Sets the emission to `reward_per_second`.
    pub fn set_reward_per_second(&mut self, caller_is_owner: bool, reward_per_second: BigNat) -> (r:
        Result<(), ChefError>)
        requires
            old(self).wf(),
        ensures
            final(self).wf(),
            match set_reward_per_second_spec(old(self)@, caller_is_owner, reward_per_second@) {
                Ok(s) => r.is_ok() && final(self)@ == s,
                Err(e) => r matches Err(e2) && e2 == e && final(self)@ == old(self)@,
            },
    {
        if !caller_is_owner {
            return Err(ChefError::Unauthorized);
        }
        self.reward_per_second = reward_per_second;
        Ok(())
    }

    /// Sets the reservoir that pays the rewards to `fund`.
    pub fn set_fund(&mut self, caller_is_owner: bool, fund: Address) -> (r: Result<(), ChefError>)
        requires
            old(self).wf(),
        ensures
            final(self).wf(),
            match set_fund_spec(old(self)@, caller_is_owner, fund@) {
                Ok(s) => r.is_ok() && final(self)@ == s,
                Err(e) => r matches Err(e2) && e2 == e && final(self)@ == old(self)@,
            },
    {
        if !caller_is_owner {
            return Err(ChefError::Unauthorized);
        }
        self.fund = Some(fund);
        Ok(())
    }

    /// The reward that `user` would collect from pool `pool_id` now. The pool
    /// is settled on a copy: the ledger stays as it is.
    pub fn pending_reward(
        &self,
        pool_id: u64,
        user: &Address,
        block_timestamp: u64,
        lp_supply: &BigNat,
    ) -> (r: Result<BigNat, ChefError>)
        requires
            self.wf(),
        ensures
            match pending_reward_spec(self@, pool_id, user@, block_timestamp, lp_supply@) {
                Ok(owed) => r matches Ok(p) && p@ == owed,
                Err(e) => r matches Err(e2) && e2 == e,
            },
    {
        let index = match self.pool_index(pool_id) {
            Some(i) => i,
            None => {
                return Err(ChefError::PoolNotFound);
            },
        };
        let mut pool = self.pools[index].clone();
        self.update_pool(&mut pool, block_timestamp, lp_supply);
        let user_info = self.read_position(pool_id, user);
        match user_info.pending(&pool.acc_reward_per_share) {
            Some(owed) => Ok(owed),
            None => Err(ChefError::RewardDebtExceedsAccrued),
        }
    }

    /// The reward that `user` is owed in pool `pool_id` under the accumulator
    /// as it is stored: an estimate that leaves out the time since the pool
    /// was last settled.
    pub fn stored_pending_reward(&self, pool_id: u64, user: &Address) -> (r: Result<
        BigNat,
        ChefError,
    >)
        requires
            self.wf(),
        ensures
            match stored_pending_reward_spec(self@, pool_id, user@) {
                Ok(owed) => r matches Ok(p) && p@ == owed,
                Err(e) => r matches Err(e2) && e2 == e,
            },
    {
        let index = match self.pool_index(pool_id) {
            Some(i) => i,
            None => {
                return Err(ChefError::PoolNotFound);
            },
        };
        let user_info = self.read_position(pool_id, user);
        match user_info.pending(&self.pools[index].acc_reward_per_share) {
            Some(owed) => Ok(owed),
            None => Err(ChefError::RewardDebtExceedsAccrued),
        }
    }

    /// The reservoir that pays the rewards, once it was set.
    pub fn get_fund(&self) -> (r: Option<Address>)
        ensures
            fund_view(r) == self@.fund,
    {
        match &self.fund {
            Some(a) => Some(a.clone()),
            None => None,
        }
    }

    /// The asset in which rewards are paid.
    pub fn get_reward(&self) -> (r: TokenId)
        ensures
            r@ == self@.reward,
    {
        self.reward.clone()
    }

    /// The sum of the pools' weights.
    pub fn get_total_alloc_point(&self) -> (r: BigNat)
        ensures
            r@ == self@.total_alloc_point,
    {
        self.total_alloc_point.clone()
    }

    /// The emission per second.
    pub fn get_reward_per_second(&self) -> (r: BigNat)
        ensures
            r@ == self@.reward_per_second,
    {
        self.reward_per_second.clone()
    }

    /// Whether a pool has the id `pool_id`.
    pub fn pool_exists(&self, pool_id: u64) -> (r: bool)
        ensures
            r == self@.pool_exists(pool_id),
    {
        self.pool_index(pool_id).is_some()
    }

    /// The number of pools, which is also the highest id in use.
    pub fn get_pool_length(&self) -> (r: u64)
        ensures
            r == self@.pools.len(),
    {
        self.pools.len() as u64
    }

    /// Pool `pool_id`.
    pub fn get_pool_info(&self, pool_id: u64) -> (r: Result<PoolInfo, ChefError>)
        ensures
            r.is_ok() == self@.pool_exists(pool_id),
            r matches Ok(pool) ==> pool@ == self@.pool(pool_id),
            r matches Err(e) ==> e == ChefError::PoolNotFound,
    {
        match self.pool_index(pool_id) {
            Some(i) => Ok(self.pools[i].clone()),
            None => Err(ChefError::PoolNotFound),
        }
    }

    /// The position of `user` in pool `pool_id`; the empty position for
    /// someone who never staked there.
    pub fn get_user_info(&self, pool_id: u64, user: &Address) -> (r: UserInfo)
        requires
            self.wf(),
        ensures
            r@ == self@.position(pool_id, user@),
    {
        self.read_position(pool_id, user)
    }
}

} // verus!
