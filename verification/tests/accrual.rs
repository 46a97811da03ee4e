use masterchef::accrual::{accrue, accumulated};
use masterchef::bignat::BigNat;
use masterchef::identity::TokenId;
use masterchef::pool_info::PoolInfo;
use masterchef::user_info::UserInfo;
use masterchef::ACC_REWARD_PRECISION;

fn n(x: u128) -> BigNat {
    BigNat::from_u128(x)
}

fn is(x: &BigNat, expected: u128) -> bool {
    x.equals(&n(expected))
}

fn pool(weight: u128, created: u64) -> PoolInfo {
    PoolInfo::new(TokenId::new(b"LPA-aaaaaa".to_vec()), n(weight), created)
}

#[test]
fn precision_is_ten_to_the_twelfth() {
    assert_eq!(ACC_REWARD_PRECISION, 1_000_000_000_000);
}

#[test]
fn accrue_scales_the_pool_reward_per_unit_of_stake() {
    // 50 * 100 * 10 / 10 = 5000; 5000 * 10^12 / 1000 = 5 * 10^12
    assert!(is(&accrue(50, &n(100), &n(10), &n(10), &n(1000)), 5_000_000_000_000));
    // 10 * 100 * 10 / 40 = 250; 250 * 10^12 / 1000
    assert!(is(&accrue(10, &n(100), &n(10), &n(40), &n(1000)), 250_000_000_000));
    // 10 * 100 * 30 / 40 = 750
    assert!(is(&accrue(10, &n(100), &n(30), &n(40), &n(1000)), 750_000_000_000));
}

#[test]
fn accrue_rounds_down_twice() {
    // 10 * 100 * 1 / 3 = 333 (not 333.3); 333 * 10^12 / 1000
    assert!(is(&accrue(10, &n(100), &n(1), &n(3), &n(1000)), 333_000_000_000));
    // 1 * 10^12 / 3 = 333333333333 (not ...333.3)
    assert!(is(&accrue(1, &n(1), &n(1), &n(1), &n(3)), 333_333_333_333));
    // 1 * 1 * 1 / 2 = 0
    assert!(accrue(1, &n(1), &n(1), &n(2), &n(1)).is_zero());
}

#[test]
fn accrue_is_zero_without_weight_or_stake() {
    assert!(accrue(50, &n(100), &n(10), &n(0), &n(1000)).is_zero());
    assert!(accrue(50, &n(100), &n(10), &n(10), &n(0)).is_zero());
    assert!(accrue(50, &n(100), &n(0), &n(0), &n(0)).is_zero());
    assert!(accrue(0, &n(100), &n(10), &n(10), &n(1000)).is_zero());
}

#[test]
fn accrue_does_not_overflow_on_wide_numbers() {
    let rate = BigNat { limbs: vec![0x40000000, 0x4674edea, 0x9f2c9cd0, 0xc] }; // 10^30
    let got = accrue(u64::MAX, &rate, &n(7), &n(9), &n(3));
    let expected = BigNat {
        limbs: vec![0xd0bee000, 0x5a42c4af, 0x22def592, 0x31ef811, 0x30e10ef, 0xe4fd13a3, 0x2f9],
    };
    assert!(got.equals(&expected));
    let amount = BigNat { limbs: vec![0x0, 0xb9f56100, 0x5ca4bfab, 0x6329f1c3, 0x1d] }; // 10^40
    let expected = BigNat {
        limbs: vec![
            0x0, 0xf31ece00, 0x3ec7b860, 0x81ba513a, 0xa8b63d87, 0x8c969f0d, 0x3898c2fd,
            0x1e048dc4, 0x2a237b4c, 0x60,
        ],
    };
    assert!(accumulated(&amount, &got).equals(&expected));
}

#[test]
fn accumulated_divides_by_the_precision() {
    assert!(is(&accumulated(&n(1000), &n(5_000_000_000_000)), 5000));
    assert!(is(&accumulated(&n(1500), &n(666_666_666_666)), 999));
    assert!(accumulated(&n(1), &n(999_999_999_999)).is_zero());
    assert!(accumulated(&n(3), &n(333_333_333_333)).is_zero());
    assert!(accumulated(&n(0), &n(5_000_000_000_000)).is_zero());
}

#[test]
fn new_pool_starts_with_a_zero_accumulator() {
    let p = pool(10, 77);
    assert!(p.acc_reward_per_share.is_zero());
    assert_eq!(p.last_reward_time, 77);
    assert!(is(&p.alloc_point, 10));
    assert_eq!(p.lp_token.name, b"LPA-aaaaaa".to_vec());
}

#[test]
fn settle_adds_what_accrued_and_moves_the_time() {
    let mut p = pool(10, 5);
    p.settle(15, &n(1000), &n(100), &n(40));
    assert!(is(&p.acc_reward_per_share, 250_000_000_000));
    assert_eq!(p.last_reward_time, 15);
    p.settle(25, &n(500), &n(100), &n(40));
    // 250 * 10^12 / 500 = 5 * 10^11 on top
    assert!(is(&p.acc_reward_per_share, 750_000_000_000));
    assert_eq!(p.last_reward_time, 25);
    assert!(is(&p.alloc_point, 10));
}

#[test]
fn settle_at_or_before_the_last_time_changes_nothing() {
    let mut p = pool(10, 5);
    p.settle(5, &n(1000), &n(100), &n(40));
    assert!(p.acc_reward_per_share.is_zero());
    assert_eq!(p.last_reward_time, 5);
    p.settle(3, &n(1000), &n(100), &n(40));
    assert!(p.acc_reward_per_share.is_zero());
    assert_eq!(p.last_reward_time, 5);
}

#[test]
fn settle_twice_at_the_same_time_changes_state_only_once() {
    let mut p = pool(10, 0);
    p.settle(10, &n(1000), &n(100), &n(10));
    assert!(is(&p.acc_reward_per_share, 1_000_000_000_000));
    p.settle(10, &n(1), &n(1_000_000), &n(10));
    assert!(is(&p.acc_reward_per_share, 1_000_000_000_000));
    assert_eq!(p.last_reward_time, 10);
}

#[test]
fn settle_without_stake_or_weight_still_moves_the_time() {
    let mut p = pool(10, 0);
    p.settle(10, &n(0), &n(100), &n(10));
    assert!(p.acc_reward_per_share.is_zero());
    assert_eq!(p.last_reward_time, 10);
    p.settle(20, &n(1000), &n(100), &n(0));
    assert!(p.acc_reward_per_share.is_zero());
    assert_eq!(p.last_reward_time, 20);
}

#[test]
fn accumulator_never_decreases_over_settlements() {
    let mut p = pool(3, 0);
    let mut before = p.acc_reward_per_share.clone();
    let mut now: u64 = 0;
    for step in [0u64, 7, 0, 1, 100, 3] {
        now += step;
        p.settle(now, &n(17), &n(5), &n(11));
        assert!(before.le(&p.acc_reward_per_share));
        assert_eq!(p.last_reward_time, now);
        before = p.acc_reward_per_share.clone();
    }
    // 111 seconds in steps of 7, 1, 100, 3: each step rounds down on its own
    let expected: u128 = [7u128, 1, 100, 3]
        .iter()
        .map(|t| (t * 5 * 3 / 11) * 1_000_000_000_000 / 17)
        .sum();
    assert!(is(&p.acc_reward_per_share, expected));
}

#[test]
fn empty_position_has_nothing_pending() {
    let u = UserInfo::new();
    assert!(u.amount.is_zero() && u.reward_debt.is_zero());
    assert!(u.pending(&n(5_000_000_000_000)).unwrap().is_zero());
}

#[test]
fn pending_is_accumulated_less_debt() {
    let u = UserInfo { amount: n(1000), reward_debt: n(1200) };
    assert!(is(&u.pending(&n(5_000_000_000_000)).unwrap(), 3800));
    assert!(u.pending(&n(1_200_000_000_000)).unwrap().is_zero());
    assert!(u.pending(&n(1_199_999_999_999)).is_none());
}

#[test]
fn settle_user_pays_once() {
    let mut u = UserInfo { amount: n(1000), reward_debt: n(1200) };
    let acc = n(5_000_000_000_000);
    assert!(is(&u.settle_user(&acc).unwrap(), 3800));
    assert!(is(&u.reward_debt, 5000));
    assert!(is(&u.amount, 1000));
    assert!(u.settle_user(&acc).unwrap().is_zero());
    assert!(is(&u.reward_debt, 5000));
}

#[test]
fn settle_user_leaves_a_position_in_debt_alone() {
    let mut u = UserInfo { amount: n(100), reward_debt: n(5000) };
    assert!(u.settle_user(&n(6_000_000_000_000)).is_none());
    assert!(is(&u.reward_debt, 5000));
    assert!(is(&u.amount, 100));
}
