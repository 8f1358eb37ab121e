use smartolana::errors::CustomError;
use smartolana::fixed::{mul_div, pow2_u128, shift_div, Q64};
use smartolana::swap::fee_of;
use smartolana::tick::{sqrt_price_at_tick, tick_at_sqrt_price, MAX_TICK, MIN_TICK, TICK_STEP};

#[test]
fn mul_div_exact() {
    assert_eq!(mul_div(7, 11, 3), Ok(25));
    assert_eq!(mul_div(0, u128::MAX, 5), Ok(0));
    assert_eq!(mul_div(u128::MAX, 1, 1), Ok(u128::MAX));
}

#[test]
fn mul_div_overflow_and_zero_denominator() {
    assert_eq!(mul_div(u128::MAX, 2, 10), Err(CustomError::Overflow));
    assert_eq!(mul_div(7, 11, 0), Err(CustomError::Overflow));
}

#[test]
fn shift_div_groups_shift_before_division() {
    // (5 << 64) / 1000, never 5 << (64 / 1000).
    assert_eq!(shift_div(5, 64, 1000), Ok(92233720368547758));
    assert_eq!(shift_div(1, 64, 1), Ok(Q64));
    assert_eq!(shift_div(1, 200, 1), Err(CustomError::Overflow));
    assert_eq!(shift_div(1, 64, 0), Err(CustomError::Overflow));
}

#[test]
fn pow2_values() {
    assert_eq!(pow2_u128(0), 1);
    assert_eq!(pow2_u128(44), TICK_STEP);
    assert_eq!(pow2_u128(64), Q64);
    assert_eq!(pow2_u128(127), 1u128 << 127);
}

#[test]
fn tick_price_map_round_trip() {
    assert_eq!(sqrt_price_at_tick(0), Q64);
    assert_eq!(sqrt_price_at_tick(7), 18446867219011862528);
    assert_eq!(sqrt_price_at_tick(-1), Q64 - TICK_STEP);
    assert_eq!(tick_at_sqrt_price(Q64), 0);
    assert_eq!(tick_at_sqrt_price(Q64 + TICK_STEP - 1), 0);
    assert_eq!(tick_at_sqrt_price(Q64 + TICK_STEP), 1);
    assert_eq!(tick_at_sqrt_price(Q64 - 1), -1);
    assert_eq!(tick_at_sqrt_price(sqrt_price_at_tick(MIN_TICK)), MIN_TICK);
    assert_eq!(
        tick_at_sqrt_price(sqrt_price_at_tick(MAX_TICK + 1) - 1),
        MAX_TICK
    );
}

#[test]
fn fee_of_floors() {
    // 500 * 30 / 10_000 is 1.5, floored to 1.
    assert_eq!(fee_of(500, 30), 1);
    assert_eq!(fee_of(10_000, 30), 30);
    assert_eq!(fee_of(0, 9_999), 0);
}
