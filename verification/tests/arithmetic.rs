use ico::arith::{mul_div, percent_of, pow10_saturating, pow2_u32};
use ico::reward::{caculate_user_reward, classify_user_amount, total_reward_of, CHANGE_REWARD};
use ico::types::{Countries, CurrencyIds, IcoMultiple, Percent};

#[test]
fn percent_rounds_to_nearest() {
    assert_eq!(percent_of(34, 10), 3);
    assert_eq!(percent_of(36, 10), 4);
    assert_eq!(percent_of(35, 10), 3);
    assert_eq!(percent_of(50, 3), 1);
    assert_eq!(percent_of(100, 12345), 12345);
    assert_eq!(percent_of(0, 12345), 0);
}

#[test]
fn percent_of_large_amount() {
    assert_eq!(percent_of(50, u128::MAX), u128::MAX / 2);
}

#[test]
fn mul_div_uses_wide_product() {
    assert_eq!(mul_div(u128::MAX, 2, 4), u128::MAX / 2);
    assert_eq!(mul_div(7, 3, 2), 10);
    assert_eq!(mul_div(1_000_000_000_000_000_000, 250, 1_000_000_000_000_000_000), 250);
}

#[test]
fn pow10_saturates() {
    assert_eq!(pow10_saturating(0), 1);
    assert_eq!(pow10_saturating(18), 1_000_000_000_000_000_000);
    assert_eq!(pow10_saturating(38), 100_000_000_000_000_000_000_000_000_000_000_000_000);
    assert_eq!(pow10_saturating(39), u128::MAX);
    assert_eq!(pow10_saturating(255), u128::MAX);
}

#[test]
fn pow2_small_exponents() {
    assert_eq!(pow2_u32(0), 1);
    assert_eq!(pow2_u32(5), 32);
    assert_eq!(pow2_u32(31), 0x8000_0000);
}

#[test]
fn classify_cuts_contributions_into_tenths() {
    let tags = vec![(15u128, 15u128), (10u128, 25u128)];
    let pieces = classify_user_amount(100, &tags);
    assert_eq!(pieces, vec![(1u32, 10u128), (2, 5), (2, 5), (3, 5)]);
    let sum: u128 = pieces.iter().map(|p| p.1).sum();
    assert_eq!(sum, 25);
}

#[test]
fn classify_contribution_larger_than_running_total() {
    // a contribution larger than its running total only counts up to that total
    let tags = vec![(30u128, 20u128)];
    let pieces = classify_user_amount(100, &tags);
    assert_eq!(pieces, vec![(1u32, 10u128), (2, 10)]);
}

#[test]
fn reward_weights_early_tenths() {
    let pieces = vec![(1u32, 10u128), (2, 5)];
    // weights: 10 + 50% of 10 = 15, 5 + 40% of 5 = 7; (15 + 7) * 999 / 100 = 219
    assert_eq!(caculate_user_reward(&pieces, 100, 999), 219);
    let late = vec![(6u32, 100u128), (11, 100)];
    // 100 - 10% = 90, the eleventh tenth weighs nothing; 90 * 50 / 10 = 450
    assert_eq!(caculate_user_reward(&late, 10, 50), 450);
    assert_eq!(caculate_user_reward(&late, 10, 0), 0);
}

#[test]
fn total_reward_first_period() {
    let (history, reward) = total_reward_of(0, 1_000, 1_000_000);
    assert_eq!(history, 1_000);
    assert_eq!(reward, 0);
    let big = CHANGE_REWARD / 2;
    let (history, reward) = total_reward_of(0, big, 4);
    assert_eq!(history, big);
    // power = big, first total = 2, reward = big * 2 / CHANGE_REWARD = 1
    assert_eq!(reward, 1);
}

#[test]
fn total_reward_crossing_a_period() {
    // history 1.5 periods, adding one period: total 2.5 periods, num = 2;
    // power1 = 0.5 period / 4, power2 = 0.5 period / 2
    let p = CHANGE_REWARD;
    let (history, reward) = total_reward_of(p + p / 2, p, 8);
    assert_eq!(history, 2 * p + p / 2);
    let power = (p / 2) / 4 + (p / 2) / 2;
    assert_eq!(reward, power * 4 / p);
}

#[test]
fn defaults_and_numbers() {
    assert_eq!(Countries::default(), Countries::China);
    assert_eq!(CurrencyIds::default(), CurrencyIds::LT);
    let m = IcoMultiple::default();
    assert_eq!((m.numerator, m.denominator), (20, 10));
    let n: u32 = CurrencyIds::USDT.into();
    assert_eq!(n, 3);
    let n: u32 = CurrencyIds::Id(77).into();
    assert_eq!(n, 77);
    let n: u32 = CurrencyIds::LT.into();
    assert_eq!(n, 0);
    assert_eq!(Percent::from_percent(150).deconstruct(), 100);
    assert_eq!(Percent::from_percent(7).deconstruct(), 7);
}
