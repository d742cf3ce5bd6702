use liquid_staking_token::math::{checked_mul_div_floor, div_256_by_128_floor, mul_div_floor, widening_mul_u128};

#[test]
fn math_basic() {
    assert_eq!(mul_div_floor(10, 10, 5), 20);
    assert_eq!(mul_div_floor(0, 123, 7), 0);
    assert_eq!(mul_div_floor(7, 0, 3), 0);
}

#[test]
fn no_overflow_path() {
    let a = 10u128.pow(24);
    let b = 5u128;
    let c = 2u128;
    assert_eq!(mul_div_floor(a, b, c), a * 5 / 2);
}

#[test]
fn overflow_path_exchange_rate() {
    let near_in: u128 = 10u128.pow(33);
    let total_supply: u128 = 10u128.pow(33);
    let total_staked: u128 = 10u128.pow(33);
    assert_eq!(mul_div_floor(near_in, total_supply, total_staked), near_in);
}

#[test]
fn overflow_path_rounds_down() {
    assert_eq!(mul_div_floor(u128::MAX, u128::MAX, u128::MAX), u128::MAX);
}

#[test]
fn math_reward_bearing_growth() {
    let mint = mul_div_floor(10, 100, 110);
    assert_eq!(mint, 9);
}

#[test]
fn mod_basic() {
    assert_eq!(mul_div_floor(5, 5, 4), 6);
    assert_eq!(mul_div_floor(9, 3, 4), 6);
    assert_eq!(mul_div_floor(0, 123, 7), 0);
    assert_eq!(mul_div_floor(7, 0, 3), 0);
}

#[test]
fn basic_with_u256() {
    assert_eq!(mul_div_floor(u128::MAX, u128::MAX, u128::MAX), u128::MAX);
}

#[test]
fn mod_reward_bearing_growth() {
    let mint = mul_div_floor(10, 100, 110);
    assert_eq!(mint, 9);
}

#[test]
fn widening_mul_gives_high_and_low_words() {
    assert_eq!(widening_mul_u128(3, 5), (0, 15));
    assert_eq!(widening_mul_u128(u128::MAX, u128::MAX), (u128::MAX - 1, 1));
    assert_eq!(widening_mul_u128(1u128 << 64, 1u128 << 64), (1, 0));
}

#[test]
fn long_division_of_a_wide_value() {
    // (2^128 + 6) / 3
    let q = div_256_by_128_floor(1, 6, 3);
    assert_eq!(q, (u128::MAX / 3) + 2);
    // (hi, lo) = u128::MAX^2, divided by u128::MAX
    assert_eq!(div_256_by_128_floor(u128::MAX - 1, 1, u128::MAX), u128::MAX);
}

#[test]
fn wide_product_rounds_down() {
    // 10^33 * 3 / 7 needs the wide path only for the product 10^33 * 10^33.
    let a: u128 = 10u128.pow(33);
    assert_eq!(mul_div_floor(a, a, 3 * a), a / 3);
    assert_eq!(mul_div_floor(u128::MAX, 2, 3), (u128::MAX / 3) * 2);
}

#[test]
fn checked_mul_div_reports_zero_divisor_and_overflow() {
    assert_eq!(checked_mul_div_floor(1, 1, 0), None);
    assert_eq!(checked_mul_div_floor(u128::MAX, u128::MAX, 1), None);
    assert_eq!(checked_mul_div_floor(u128::MAX, u128::MAX, u128::MAX), Some(u128::MAX));
    assert_eq!(checked_mul_div_floor(10, 100, 110), Some(9));
}
