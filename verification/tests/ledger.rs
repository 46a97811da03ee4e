use masterchef::bignat::BigNat;
use masterchef::error::ChefError;
use masterchef::identity::{Address, TokenId};
use masterchef::masterchef::{
    entries_distinct, pools_distinct, sum_alloc_points, MasterChef, UserEntry,
};
use masterchef::pool_info::PoolInfo;
use masterchef::user_info::UserInfo;

fn n(x: u128) -> BigNat {
    BigNat::from_u128(x)
}

fn is(x: &BigNat, expected: u128) -> bool {
    x.equals(&n(expected))
}

fn addr(b: u8) -> Address {
    Address::new(vec![b; 32])
}

fn token(name: &str) -> TokenId {
    TokenId::new(name.as_bytes().to_vec())
}

fn reward() -> TokenId {
    token("REWARD-abcdef")
}

fn lp_a() -> TokenId {
    token("LPA-aaaaaa")
}

fn lp_b() -> TokenId {
    token("LPB-bbbbbb")
}

/// One pool of weight 10 created at time 0, emission 100 per second.
fn one_pool() -> MasterChef {
    let mut chef = MasterChef::init(reward()).unwrap();
    assert_eq!(chef.add(true, n(10), lp_a(), 0), Ok(1));
    assert_eq!(chef.set_reward_per_second(true, n(100)), Ok(()));
    chef
}

/// Pools of weight 10 and 30 created at time 0, emission 100 per second.
fn two_pools() -> MasterChef {
    let mut chef = one_pool();
    assert_eq!(chef.add(true, n(30), lp_b(), 0), Ok(2));
    chef
}

/// `one_pool` with 1000 staked by user 1 at time 0.
fn one_staker() -> MasterChef {
    let mut chef = one_pool();
    assert_eq!(chef.deposit(1, addr(1), lp_a(), n(1000), 0, n(1000)), Ok(()));
    chef
}

#[test]
fn init_accepts_the_native_token_and_issued_tokens() {
    let chef = MasterChef::init(TokenId::egld()).unwrap();
    assert!(chef.get_reward().is_egld());
    let chef = MasterChef::init(reward()).unwrap();
    assert!(chef.get_reward().equals(&reward()));
    assert_eq!(chef.get_pool_length(), 0);
    assert!(chef.get_total_alloc_point().is_zero());
    assert!(chef.get_reward_per_second().is_zero());
    assert!(chef.get_fund().is_none());
}

#[test]
fn init_refuses_a_malformed_reward_token() {
    assert_eq!(
        MasterChef::init(token("reward")).unwrap_err(),
        ChefError::InvalidConfiguration
    );
    assert_eq!(
        MasterChef::init(token("EGLD")).unwrap_err(),
        ChefError::InvalidConfiguration
    );
}

#[test]
fn pool_ids_start_at_one_and_follow_in_order() {
    let mut chef = MasterChef::init(reward()).unwrap();
    assert_eq!(chef.add(true, n(10), lp_a(), 7), Ok(1));
    assert_eq!(chef.add(true, n(30), lp_b(), 9), Ok(2));
    assert_eq!(chef.add(true, n(0), token("LPC-cccccc"), 11), Ok(3));
    assert_eq!(chef.get_pool_length(), 3);
    let p = chef.get_pool_info(2).unwrap();
    assert!(p.lp_token.equals(&lp_b()));
    assert!(is(&p.alloc_point, 30));
    assert!(p.acc_reward_per_share.is_zero());
    assert_eq!(p.last_reward_time, 9);
    assert_eq!(chef.get_pool_info(0).unwrap_err(), ChefError::PoolNotFound);
    assert_eq!(chef.get_pool_info(4).unwrap_err(), ChefError::PoolNotFound);
    assert!(chef.pool_exists(1) && chef.pool_exists(3));
    assert!(!chef.pool_exists(0) && !chef.pool_exists(4) && !chef.pool_exists(u64::MAX));
}

#[test]
fn total_alloc_point_is_the_sum_of_the_weights() {
    let mut chef = two_pools();
    assert!(is(&chef.get_total_alloc_point(), 40));
    assert_eq!(chef.set(true, 1, n(25)), Ok(()));
    assert!(is(&chef.get_total_alloc_point(), 55));
    assert!(is(&chef.get_pool_info(1).unwrap().alloc_point, 25));
    assert_eq!(chef.set(true, 2, n(5)), Ok(()));
    assert!(is(&chef.get_total_alloc_point(), 30));
    assert_eq!(chef.set(true, 1, n(0)), Ok(()));
    assert!(is(&chef.get_total_alloc_point(), 5));
    assert_eq!(chef.add(true, n(1u128 << 100), token("LPC-cccccc"), 0), Ok(3));
    assert!(is(&chef.get_total_alloc_point(), (1u128 << 100) + 5));
    let pools: Vec<PoolInfo> = (1..=3).map(|id| chef.get_pool_info(id).unwrap()).collect();
    assert!(sum_alloc_points(&pools).equals(&chef.get_total_alloc_point()));
}

#[test]
fn add_twice_with_the_same_asset_fails_and_keeps_the_total() {
    let mut chef = MasterChef::init(reward()).unwrap();
    assert_eq!(chef.add(true, n(10), lp_a(), 0), Ok(1));
    assert!(is(&chef.get_total_alloc_point(), 10));
    assert_eq!(chef.add(true, n(30), lp_a(), 5), Err(ChefError::DuplicatePool));
    assert!(is(&chef.get_total_alloc_point(), 10));
    assert_eq!(chef.get_pool_length(), 1);
    assert!(is(&chef.get_pool_info(1).unwrap().alloc_point, 10));
}

#[test]
fn only_the_owner_administers() {
    let mut chef = one_pool();
    assert_eq!(chef.add(false, n(30), lp_b(), 0), Err(ChefError::Unauthorized));
    assert_eq!(chef.add(false, n(30), lp_a(), 0), Err(ChefError::Unauthorized));
    assert_eq!(chef.set(false, 1, n(30)), Err(ChefError::Unauthorized));
    assert_eq!(chef.set(false, 9, n(30)), Err(ChefError::Unauthorized));
    assert_eq!(chef.set_reward_per_second(false, n(1)), Err(ChefError::Unauthorized));
    assert_eq!(chef.set_fund(false, addr(9)), Err(ChefError::Unauthorized));
    assert_eq!(chef.get_pool_length(), 1);
    assert!(is(&chef.get_total_alloc_point(), 10));
    assert!(is(&chef.get_reward_per_second(), 100));
    assert!(chef.get_fund().is_none());
}

#[test]
fn set_refuses_an_unknown_pool() {
    let mut chef = one_pool();
    assert_eq!(chef.set(true, 2, n(30)), Err(ChefError::PoolNotFound));
    assert_eq!(chef.set(true, 0, n(30)), Err(ChefError::PoolNotFound));
    assert!(is(&chef.get_total_alloc_point(), 10));
}

#[test]
fn set_fund_stores_the_reservoir() {
    let mut chef = one_pool();
    assert_eq!(chef.set_fund(true, addr(9)), Ok(()));
    assert!(chef.get_fund().unwrap().equals(&addr(9)));
}

#[test]
fn sole_staker_has_the_whole_emission_pending() {
    let chef = one_staker();
    let pending = chef.pending_reward(1, &addr(1), 50, &n(1000)).unwrap();
    assert!(is(&pending, 5000));
}

#[test]
fn two_pools_share_the_emission_by_weight() {
    let mut chef = two_pools();
    assert_eq!(chef.deposit(1, addr(1), lp_a(), n(1000), 0, n(1000)), Ok(()));
    assert_eq!(chef.deposit(2, addr(2), lp_b(), n(1000), 0, n(1000)), Ok(()));
    assert!(is(&chef.pending_reward(1, &addr(1), 10, &n(1000)).unwrap(), 250));
    assert!(is(&chef.pending_reward(2, &addr(2), 10, &n(1000)).unwrap(), 750));
    let a = chef.harvest(1, addr(1), addr(1), 10, n(1000)).unwrap();
    let b = chef.harvest(2, addr(2), addr(2), 10, n(1000)).unwrap();
    assert!(is(&a.amount, 250));
    assert!(is(&b.amount, 750));
}

#[test]
fn pending_reward_leaves_the_ledger_as_it_is() {
    let chef = one_staker();
    assert!(is(&chef.pending_reward(1, &addr(1), 50, &n(1000)).unwrap(), 5000));
    let p = chef.get_pool_info(1).unwrap();
    assert!(p.acc_reward_per_share.is_zero());
    assert_eq!(p.last_reward_time, 0);
    assert!(chef.get_user_info(1, &addr(1)).reward_debt.is_zero());
    assert!(is(&chef.pending_reward(1, &addr(1), 50, &n(1000)).unwrap(), 5000));
}

#[test]
fn stored_pending_reward_ignores_the_time_since_the_last_settlement() {
    let mut chef = one_staker();
    assert!(chef.stored_pending_reward(1, &addr(1)).unwrap().is_zero());
    // someone else's deposit settles the pool at time 50
    assert_eq!(chef.deposit(1, addr(2), lp_a(), n(0), 50, n(1000)), Ok(()));
    assert!(is(&chef.stored_pending_reward(1, &addr(1)).unwrap(), 5000));
    assert!(is(&chef.pending_reward(1, &addr(1), 60, &n(1000)).unwrap(), 6000));
    assert_eq!(chef.stored_pending_reward(2, &addr(1)).unwrap_err(), ChefError::PoolNotFound);
}

#[test]
fn pending_reward_of_a_stranger_is_zero() {
    let chef = one_staker();
    assert!(chef.pending_reward(1, &addr(7), 50, &n(1000)).unwrap().is_zero());
    assert_eq!(
        chef.pending_reward(2, &addr(1), 50, &n(1000)).unwrap_err(),
        ChefError::PoolNotFound
    );
}

#[test]
fn update_pool_uses_the_ledgers_rate_and_total_weight() {
    let chef = two_pools();
    let mut p = chef.get_pool_info(2).unwrap();
    chef.update_pool(&mut p, 10, &n(1000));
    assert!(is(&p.acc_reward_per_share, 750_000_000_000));
    assert_eq!(p.last_reward_time, 10);
    // the ledger's own copy is untouched
    assert!(chef.get_pool_info(2).unwrap().acc_reward_per_share.is_zero());
}

#[test]
fn deposit_settles_the_pool_and_sets_the_debt() {
    let mut chef = one_staker();
    let u = chef.get_user_info(1, &addr(1));
    assert!(is(&u.amount, 1000));
    assert!(u.reward_debt.is_zero());
    // 10 * 100 = 1000 accrued over a stake of 1500: 666666666666 per share
    assert_eq!(chef.deposit(1, addr(1), lp_a(), n(500), 10, n(1500)), Ok(()));
    let p = chef.get_pool_info(1).unwrap();
    assert!(is(&p.acc_reward_per_share, 666_666_666_666));
    assert_eq!(p.last_reward_time, 10);
    let u = chef.get_user_info(1, &addr(1));
    assert!(is(&u.amount, 1500));
    assert!(is(&u.reward_debt, 999));
    // nothing was paid, and nothing is pending any more
    assert!(chef.stored_pending_reward(1, &addr(1)).unwrap().is_zero());
}

#[test]
fn deposit_credits_the_beneficiary() {
    let mut chef = one_pool();
    assert_eq!(chef.deposit(1, addr(2), lp_a(), n(40), 0, n(40)), Ok(()));
    assert!(is(&chef.get_user_info(1, &addr(2)).amount, 40));
    assert!(chef.get_user_info(1, &addr(1)).amount.is_zero());
}

#[test]
fn deposit_refuses_an_unknown_pool_and_a_wrong_asset() {
    let mut chef = one_pool();
    assert_eq!(
        chef.deposit(2, addr(1), lp_a(), n(1000), 5, n(1000)),
        Err(ChefError::PoolNotFound)
    );
    assert_eq!(
        chef.deposit(0, addr(1), lp_a(), n(1000), 5, n(1000)),
        Err(ChefError::PoolNotFound)
    );
    assert_eq!(
        chef.deposit(1, addr(1), lp_b(), n(1000), 5, n(1000)),
        Err(ChefError::WrongAsset)
    );
    assert!(chef.get_user_info(1, &addr(1)).amount.is_zero());
    assert_eq!(chef.get_pool_info(1).unwrap().last_reward_time, 0);
    assert!(chef.user_entries().is_empty());
}

#[test]
fn positions_are_kept_by_pool_and_user() {
    let mut chef = two_pools();
    assert_eq!(chef.deposit(1, addr(1), lp_a(), n(10), 0, n(10)), Ok(()));
    assert_eq!(chef.deposit(2, addr(1), lp_b(), n(20), 0, n(20)), Ok(()));
    assert_eq!(chef.deposit(1, addr(2), lp_a(), n(30), 0, n(40)), Ok(()));
    assert_eq!(chef.deposit(1, addr(1), lp_a(), n(5), 0, n(45)), Ok(()));
    assert!(is(&chef.get_user_info(1, &addr(1)).amount, 15));
    assert!(is(&chef.get_user_info(2, &addr(1)).amount, 20));
    assert!(is(&chef.get_user_info(1, &addr(2)).amount, 30));
    assert!(chef.get_user_info(2, &addr(2)).amount.is_zero());
    let entries = chef.user_entries();
    assert_eq!(entries.len(), 3);
    assert!(entries_distinct(&entries));
}

#[test]
fn harvest_pays_the_reward_and_keeps_the_stake() {
    let mut chef = one_staker();
    let paid = chef.harvest(1, addr(1), addr(3), 50, n(1000)).unwrap();
    assert!(is(&paid.amount, 5000));
    assert!(paid.token.equals(&reward()));
    assert!(paid.to.equals(&addr(3)));
    let u = chef.get_user_info(1, &addr(1));
    assert!(is(&u.amount, 1000));
    assert!(is(&u.reward_debt, 5000));
    let p = chef.get_pool_info(1).unwrap();
    assert!(is(&p.acc_reward_per_share, 5_000_000_000_000));
    assert_eq!(p.last_reward_time, 50);
}

#[test]
fn second_harvest_pays_nothing() {
    let mut chef = one_staker();
    let first = chef.harvest(1, addr(1), addr(1), 50, n(1000)).unwrap();
    assert!(is(&first.amount, 5000));
    let second = chef.harvest(1, addr(1), addr(1), 50, n(1000)).unwrap();
    assert!(second.amount.is_zero());
    let third = chef.harvest(1, addr(1), addr(1), 50, n(7)).unwrap();
    assert!(third.amount.is_zero());
    assert!(is(&chef.get_user_info(1, &addr(1)).reward_debt, 5000));
    assert!(is(&chef.get_pool_info(1).unwrap().acc_reward_per_share, 5_000_000_000_000));
}

#[test]
fn harvest_later_pays_what_accrued_since() {
    let mut chef = one_staker();
    assert!(is(&chef.harvest(1, addr(1), addr(1), 50, n(1000)).unwrap().amount, 5000));
    assert!(is(&chef.harvest(1, addr(1), addr(1), 60, n(1000)).unwrap().amount, 1000));
}

#[test]
fn sole_staker_is_paid_the_pool_reward_up_to_rounding() {
    // weight 1 of 3, 100 per second, 10 seconds: 1000 / 3 = 333
    let mut chef = MasterChef::init(reward()).unwrap();
    assert_eq!(chef.add(true, n(1), lp_a(), 0), Ok(1));
    assert_eq!(chef.add(true, n(2), lp_b(), 0), Ok(2));
    assert_eq!(chef.set_reward_per_second(true, n(100)), Ok(()));
    assert_eq!(chef.deposit(1, addr(1), lp_a(), n(1000), 0, n(1000)), Ok(()));
    assert!(is(&chef.harvest(1, addr(1), addr(1), 10, n(1000)).unwrap().amount, 333));
    // a stake of 3 and a reward of 1: 10^12 / 3 per share, and 3 shares earn 0
    let mut chef = MasterChef::init(reward()).unwrap();
    assert_eq!(chef.add(true, n(1), lp_a(), 0), Ok(1));
    assert_eq!(chef.set_reward_per_second(true, n(1)), Ok(()));
    assert_eq!(chef.deposit(1, addr(1), lp_a(), n(3), 0, n(3)), Ok(()));
    assert!(chef.harvest(1, addr(1), addr(1), 1, n(3)).unwrap().amount.is_zero());
    // over 3 seconds the same stake earns the whole reward of 3
    assert!(is(&chef.harvest(1, addr(1), addr(1), 4, n(3)).unwrap().amount, 3));
}

#[test]
fn harvest_refuses_an_unknown_pool() {
    let mut chef = one_staker();
    assert_eq!(
        chef.harvest(2, addr(1), addr(1), 50, n(1000)).unwrap_err(),
        ChefError::PoolNotFound
    );
    assert_eq!(chef.get_pool_info(1).unwrap().last_reward_time, 0);
}

#[test]
fn withdraw_pays_reward_and_principal() {
    let mut chef = one_staker();
    let paid = chef.withdraw(1, addr(1), n(400), addr(3), 50, n(1000)).unwrap();
    assert!(is(&paid.reward.amount, 5000));
    assert!(paid.reward.token.equals(&reward()));
    assert!(paid.reward.to.equals(&addr(3)));
    assert!(is(&paid.principal.amount, 400));
    assert!(paid.principal.token.equals(&lp_a()));
    assert!(paid.principal.to.equals(&addr(3)));
    let u = chef.get_user_info(1, &addr(1));
    assert!(is(&u.amount, 600));
    // the debt is what the stake of 1000 had accumulated
    assert!(is(&u.reward_debt, 5000));
    assert_eq!(chef.get_pool_info(1).unwrap().last_reward_time, 50);
}

#[test]
fn withdraw_of_everything_leaves_a_record() {
    let mut chef = one_staker();
    let paid = chef.withdraw(1, addr(1), n(1000), addr(1), 0, n(1000)).unwrap();
    assert!(paid.reward.amount.is_zero());
    assert!(is(&paid.principal.amount, 1000));
    let u = chef.get_user_info(1, &addr(1));
    assert!(u.amount.is_zero());
    assert!(u.reward_debt.is_zero());
    assert_eq!(chef.user_entries().len(), 1);
}

#[test]
fn withdraw_refuses_more_than_the_stake() {
    let mut chef = one_staker();
    assert_eq!(
        chef.withdraw(1, addr(1), n(1001), addr(1), 50, n(1000)).unwrap_err(),
        ChefError::InsufficientStake
    );
    assert_eq!(
        chef.withdraw(1, addr(2), n(1), addr(2), 50, n(1000)).unwrap_err(),
        ChefError::InsufficientStake
    );
    assert_eq!(
        chef.withdraw(3, addr(1), n(1), addr(1), 50, n(1000)).unwrap_err(),
        ChefError::PoolNotFound
    );
    assert!(is(&chef.get_user_info(1, &addr(1)).amount, 1000));
    assert_eq!(chef.get_pool_info(1).unwrap().last_reward_time, 0);
}

#[test]
fn a_debt_ahead_of_the_accumulated_reward_blocks_payment() {
    let mut chef = one_staker();
    let paid = chef.withdraw(1, addr(1), n(900), addr(1), 50, n(1000)).unwrap();
    assert!(is(&paid.reward.amount, 5000));
    // stake 100, debt 5000; one second later 100 shares have accumulated 600
    assert_eq!(
        chef.harvest(1, addr(1), addr(1), 51, n(100)).unwrap_err(),
        ChefError::RewardDebtExceedsAccrued
    );
    assert_eq!(
        chef.withdraw(1, addr(1), n(10), addr(1), 51, n(100)).unwrap_err(),
        ChefError::RewardDebtExceedsAccrued
    );
    assert_eq!(
        chef.pending_reward(1, &addr(1), 51, &n(100)).unwrap_err(),
        ChefError::RewardDebtExceedsAccrued
    );
    assert_eq!(
        chef.stored_pending_reward(1, &addr(1)).unwrap_err(),
        ChefError::RewardDebtExceedsAccrued
    );
    // nothing changed
    let p = chef.get_pool_info(1).unwrap();
    assert_eq!(p.last_reward_time, 50);
    assert!(is(&p.acc_reward_per_share, 5_000_000_000_000));
    let u = chef.get_user_info(1, &addr(1));
    assert!(is(&u.amount, 100));
    assert!(is(&u.reward_debt, 5000));
    // 45 seconds later the accumulated reward has caught up, and then passes
    assert!(chef.pending_reward(1, &addr(1), 95, &n(100)).unwrap().is_zero());
    assert!(is(&chef.harvest(1, addr(1), addr(1), 96, n(100)).unwrap().amount, 100));
}

#[test]
fn emergency_withdraw_returns_the_stake_and_forfeits_the_reward() {
    let mut chef = one_staker();
    // settle the pool at 50 through a deposit of nothing by someone else
    assert_eq!(chef.deposit(1, addr(2), lp_a(), n(0), 50, n(1000)), Ok(()));
    assert!(is(&chef.stored_pending_reward(1, &addr(1)).unwrap(), 5000));
    let paid = chef.emergency_withdraw(1, addr(1), addr(3)).unwrap();
    assert!(is(&paid.amount, 1000));
    assert!(paid.token.equals(&lp_a()));
    assert!(paid.to.equals(&addr(3)));
    let u = chef.get_user_info(1, &addr(1));
    assert!(u.amount.is_zero());
    assert!(u.reward_debt.is_zero());
    assert!(chef.stored_pending_reward(1, &addr(1)).unwrap().is_zero());
    assert!(chef.pending_reward(1, &addr(1), 50, &n(0)).unwrap().is_zero());
    assert!(chef.pending_reward(1, &addr(1), 500, &n(1000)).unwrap().is_zero());
}

#[test]
fn emergency_withdraw_does_not_settle_the_pool() {
    let mut chef = one_staker();
    assert!(chef.emergency_withdraw(1, addr(1), addr(1)).is_ok());
    let p = chef.get_pool_info(1).unwrap();
    assert_eq!(p.last_reward_time, 0);
    assert!(p.acc_reward_per_share.is_zero());
}

#[test]
fn emergency_withdraw_needs_a_stake() {
    let mut chef = one_staker();
    assert_eq!(
        chef.emergency_withdraw(1, addr(2), addr(2)).unwrap_err(),
        ChefError::NothingToWithdraw
    );
    assert_eq!(
        chef.emergency_withdraw(2, addr(1), addr(1)).unwrap_err(),
        ChefError::PoolNotFound
    );
    assert!(chef.emergency_withdraw(1, addr(1), addr(1)).is_ok());
    assert_eq!(
        chef.emergency_withdraw(1, addr(1), addr(1)).unwrap_err(),
        ChefError::NothingToWithdraw
    );
}

#[test]
fn restore_rebuilds_a_ledger_from_its_tables() {
    let mut chef = two_pools();
    assert_eq!(chef.set_fund(true, addr(9)), Ok(()));
    assert_eq!(chef.deposit(1, addr(1), lp_a(), n(1000), 0, n(1000)), Ok(()));
    assert_eq!(chef.deposit(2, addr(2), lp_b(), n(500), 5, n(500)), Ok(()));
    let pools: Vec<PoolInfo> = (1..=2).map(|id| chef.get_pool_info(id).unwrap()).collect();
    let mut copy = MasterChef::restore(
        chef.get_reward(),
        chef.get_fund(),
        pools,
        chef.user_entries(),
        chef.get_total_alloc_point(),
        chef.get_reward_per_second(),
    )
    .unwrap();
    assert_eq!(copy.get_pool_length(), 2);
    assert!(is(&copy.get_total_alloc_point(), 40));
    assert!(is(&copy.get_reward_per_second(), 100));
    assert!(copy.get_fund().unwrap().equals(&addr(9)));
    assert!(is(&copy.get_user_info(2, &addr(2)).amount, 500));
    let a = chef.harvest(1, addr(1), addr(1), 10, n(1000)).unwrap();
    let b = copy.harvest(1, addr(1), addr(1), 10, n(1000)).unwrap();
    assert!(is(&a.amount, 250));
    assert!(a.amount.equals(&b.amount));
}

#[test]
fn restore_refuses_inconsistent_tables() {
    let pool_a = PoolInfo::new(lp_a(), n(10), 0);
    let pool_b = PoolInfo::new(lp_b(), n(30), 0);
    let again = PoolInfo::new(lp_a(), n(30), 0);
    let entry = |pool_id: u64, who: u8| UserEntry { pool_id, user: addr(who), info: UserInfo::new() };
    assert!(MasterChef::restore(
        reward(),
        None,
        vec![pool_a.clone(), pool_b.clone()],
        vec![entry(1, 1), entry(2, 1), entry(1, 2)],
        n(40),
        n(0)
    )
    .is_ok());
    assert_eq!(
        MasterChef::restore(reward(), None, vec![pool_a.clone(), pool_b.clone()], vec![], n(41), n(0))
            .unwrap_err(),
        ChefError::InvalidConfiguration
    );
    assert_eq!(
        MasterChef::restore(reward(), None, vec![pool_a.clone(), again.clone()], vec![], n(40), n(0))
            .unwrap_err(),
        ChefError::InvalidConfiguration
    );
    assert_eq!(
        MasterChef::restore(
            reward(),
            None,
            vec![pool_a.clone(), pool_b.clone()],
            vec![entry(1, 1), entry(2, 1), entry(1, 1)],
            n(40),
            n(0)
        )
        .unwrap_err(),
        ChefError::InvalidConfiguration
    );
}

#[test]
fn table_checks_tell_duplicates() {
    let pool_a = PoolInfo::new(lp_a(), n(10), 0);
    let pool_b = PoolInfo::new(lp_b(), n(30), 0);
    assert!(pools_distinct(&vec![]));
    assert!(pools_distinct(&vec![pool_a.clone(), pool_b.clone()]));
    assert!(!pools_distinct(&vec![pool_a.clone(), pool_b.clone(), pool_a.clone()]));
    assert!(is(&sum_alloc_points(&vec![pool_a.clone(), pool_b.clone(), pool_a.clone()]), 50));
    assert!(sum_alloc_points(&vec![]).is_zero());
    let entry = |pool_id: u64, who: u8| UserEntry { pool_id, user: addr(who), info: UserInfo::new() };
    assert!(entries_distinct(&vec![entry(1, 1), entry(1, 2), entry(2, 1)]));
    assert!(!entries_distinct(&vec![entry(1, 1), entry(1, 2), entry(1, 1)]));
}

#[test]
fn a_copy_brings_the_ledger_back_after_a_failed_payment() {
    let mut chef = one_staker();
    let before = chef.clone();
    let paid = chef.harvest(1, addr(1), addr(3), 50, n(1000)).unwrap();
    assert!(is(&paid.amount, 5000));
    // the payment could not be made: go back
    chef = before;
    assert!(chef.get_user_info(1, &addr(1)).reward_debt.is_zero());
    assert_eq!(chef.get_pool_info(1).unwrap().last_reward_time, 0);
    let again = chef.harvest(1, addr(1), addr(3), 50, n(1000)).unwrap();
    assert!(is(&again.amount, 5000));
}
