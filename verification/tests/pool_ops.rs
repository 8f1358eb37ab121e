use smartolana::errors::CustomError;
use smartolana::fixed::Q64;
use smartolana::pool::{open_pool, PoolClmm};
use smartolana::swap::SwapDirection;

const OWNER: u64 = 7;

fn pool_at_tick_zero(tick_spacing: u16, fee_rate: u16) -> PoolClmm {
    open_pool(1, 2, 101, 102, Q64, tick_spacing, fee_rate).unwrap()
}

#[test]
fn open_pool_rejects_zero_spacing() {
    assert_eq!(
        open_pool(1, 2, 101, 102, Q64, 0, 30).unwrap_err(),
        CustomError::InvalidSpacing
    );
}

#[test]
fn open_pool_rejects_out_of_range_price() {
    assert_eq!(
        open_pool(1, 2, 101, 102, 1, 10, 30).unwrap_err(),
        CustomError::Overflow
    );
}

#[test]
fn add_liquidity_sets_active_liquidity() {
    // A pool at the price of tick 0 with spacing 10: adding 1000 units of
    // liquidity over [-100, 100) makes exactly that liquidity active.
    let mut pool = pool_at_tick_zero(10, 30);
    let r = pool
        .add_liquidity(OWNER, -100, 100, 1000, u64::MAX, u64::MAX)
        .unwrap();
    assert_eq!(pool.liquidity, 1000);
    assert_eq!(pool.current_tick, 0);
    // The range is tiny relative to Q64.64 liquidity units, so the token
    // amounts round down to zero here.
    assert_eq!(r, (0, 0));
    assert_eq!(pool.ticks.len(), 2);
    assert_eq!(pool.ticks[0].tick_index, -100);
    assert_eq!(pool.ticks[0].liquidity_net, 1000);
    assert_eq!(pool.ticks[0].liquidity_gross, 1000);
    assert_eq!(pool.ticks[1].tick_index, 100);
    assert_eq!(pool.ticks[1].liquidity_net, -1000);
    assert_eq!(pool.ticks[1].liquidity_gross, 1000);
}

#[test]
fn add_liquidity_rejects_bad_ranges() {
    let mut pool = pool_at_tick_zero(10, 30);
    assert_eq!(
        pool.add_liquidity(OWNER, 100, -100, 1000, u64::MAX, u64::MAX)
            .unwrap_err(),
        CustomError::InvalidTickRange
    );
    assert_eq!(
        pool.add_liquidity(OWNER, -105, 100, 1000, u64::MAX, u64::MAX)
            .unwrap_err(),
        CustomError::InvalidTickRange
    );
    assert_eq!(
        pool.add_liquidity(OWNER, -100, 100, 0, u64::MAX, u64::MAX)
            .unwrap_err(),
        CustomError::ZeroLiquidity
    );
    assert_eq!(pool.ticks.len(), 0);
    assert_eq!(pool.positions.len(), 0);
}

#[test]
fn add_liquidity_respects_slippage_bounds() {
    let mut pool = pool_at_tick_zero(10, 30);
    let delta: u128 = 1000 << 40;
    // The true amounts are 104847600953 of A and 104857600000 of B.
    assert_eq!(
        pool.add_liquidity(OWNER, -100, 100, delta, 10, u64::MAX)
            .unwrap_err(),
        CustomError::SlippageExceeded
    );
    assert_eq!(pool.liquidity, 0);
    let r = pool
        .add_liquidity(OWNER, -100, 100, delta, u64::MAX, u64::MAX)
        .unwrap();
    assert_eq!(r, (104847600953, 104857600000));
}

#[test]
fn swap_takes_fee_before_price_impact() {
    // Liquidity scaled so the 500-unit swap stays inside one bucket: the
    // 30 bps fee takes floor(500 * 30 / 10000) = 1 unit up front, and the
    // global fee-growth accumulator rises by exactly (fee << 64) / L.
    let mut pool = pool_at_tick_zero(10, 30);
    let delta: u128 = 1000 << 40;
    pool.add_liquidity(OWNER, -100, 100, delta, u64::MAX, u64::MAX)
        .unwrap();
    let outcome = pool.swap(SwapDirection::AToB, 500, 0).unwrap();
    assert_eq!(outcome.amount_in_spent, 500);
    assert!(outcome.amount_out < 500);
    assert_eq!(outcome.amount_out, 499);
    assert_eq!(pool.fee_growth_global_a, (1u128 << 64) / delta);
    assert_eq!(pool.fee_growth_global_a, 16777);
    assert_eq!(pool.fee_growth_global_b, 0);
    assert_eq!(pool.sqrt_price_x64, 18446744073701179785);
    assert_eq!(pool.current_tick, -1);
    assert_eq!(pool.liquidity, delta);
}

#[test]
fn swap_rejects_slippage() {
    let mut pool = pool_at_tick_zero(10, 30);
    let delta: u128 = 1000 << 40;
    pool.add_liquidity(OWNER, -100, 100, delta, u64::MAX, u64::MAX)
        .unwrap();
    let before_price = pool.sqrt_price_x64;
    assert_eq!(
        pool.swap(SwapDirection::AToB, 500, 500).unwrap_err(),
        CustomError::SlippageExceeded
    );
    assert_eq!(pool.sqrt_price_x64, before_price);
    assert_eq!(pool.fee_growth_global_a, 0);
}

#[test]
fn remove_more_than_held_fails_and_mutates_nothing() {
    let mut pool = pool_at_tick_zero(10, 30);
    pool.add_liquidity(OWNER, -100, 100, 1000, u64::MAX, u64::MAX)
        .unwrap();
    let ticks_before = pool.ticks.clone();
    let r = pool.remove_liquidity(OWNER, -100, 100, 1001).unwrap_err();
    assert_eq!(r, CustomError::InvalidLiquidityAmount);
    assert_eq!(pool.liquidity, 1000);
    assert_eq!(pool.ticks, ticks_before);
    assert_eq!(pool.positions[0].liquidity, 1000);
    // A key that names no position fails the same way.
    assert_eq!(
        pool.remove_liquidity(99, -100, 100, 1).unwrap_err(),
        CustomError::InvalidLiquidityAmount
    );
}

#[test]
fn add_then_remove_round_trips() {
    let mut pool = pool_at_tick_zero(10, 30);
    let delta: u128 = 1000 << 40;
    let charged = pool
        .add_liquidity(OWNER, -100, 100, delta, u64::MAX, u64::MAX)
        .unwrap();
    let returned = pool.remove_liquidity(OWNER, -100, 100, delta).unwrap();
    assert_eq!(charged, returned);
    assert_eq!(pool.liquidity, 0);
    assert_eq!(pool.sqrt_price_x64, Q64);
    assert_eq!(pool.current_tick, 0);
    // Both boundary ticks were created by the add and pruned by the remove.
    assert_eq!(pool.ticks.len(), 0);
    // The emptied position can now be closed.
    assert_eq!(pool.positions[0].liquidity, 0);
    pool.close_position(OWNER, -100, 100).unwrap();
    assert_eq!(pool.positions.len(), 0);
}

#[test]
fn close_position_demands_collected_fees() {
    // A swap accrues fees to the position; closing fails until they are
    // collected, then succeeds.
    let mut pool = pool_at_tick_zero(10, 1000);
    let delta: u128 = 1000 << 40;
    pool.add_liquidity(OWNER, -100, 100, delta, u64::MAX, u64::MAX)
        .unwrap();
    pool.swap(SwapDirection::AToB, 10_000, 0).unwrap();
    assert_eq!(pool.fee_growth_global_a, (1000u128 << 64) / delta);
    pool.remove_liquidity(OWNER, -100, 100, delta).unwrap();
    let pos = pool.positions[0];
    assert_eq!(pos.liquidity, 0);
    assert_eq!(pos.tokens_owed_a, 1000);
    assert_eq!(pos.tokens_owed_b, 0);
    assert_eq!(
        pool.close_position(OWNER, -100, 100).unwrap_err(),
        CustomError::PositionStillHasLiquidity
    );
    let collected = pool.collect_fees(OWNER, -100, 100);
    assert_eq!(collected, (1000, 0));
    assert_eq!(pool.positions[0].tokens_owed_a, 0);
    pool.close_position(OWNER, -100, 100).unwrap();
    assert_eq!(pool.positions.len(), 0);
}

#[test]
fn collect_fees_on_unknown_key_pays_nothing() {
    let mut pool = pool_at_tick_zero(10, 30);
    assert_eq!(pool.collect_fees(OWNER, -100, 100), (0, 0));
    assert_eq!(pool.positions.len(), 0);
}

#[test]
fn second_add_settles_and_grows_the_position() {
    let mut pool = pool_at_tick_zero(10, 1000);
    let delta: u128 = 1000 << 40;
    pool.add_liquidity(OWNER, -100, 100, delta, u64::MAX, u64::MAX)
        .unwrap();
    pool.swap(SwapDirection::AToB, 10_000, 0).unwrap();
    // The second add settles the accrued fees into the owed amounts and
    // doubles the position's liquidity.
    pool.add_liquidity(OWNER, -100, 100, delta, u64::MAX, u64::MAX)
        .unwrap();
    assert_eq!(pool.positions.len(), 1);
    let pos = pool.positions[0];
    assert_eq!(pos.liquidity, 2 * delta);
    assert_eq!(pos.tokens_owed_a, 1000);
    assert_eq!(pos.fee_growth_checkpoint_a, pool.fee_growth_global_a);
    assert_eq!(pool.liquidity, 2 * delta);
}

#[test]
fn positions_are_keyed_by_owner_and_range() {
    let mut pool = pool_at_tick_zero(10, 30);
    pool.add_liquidity(1, -100, 100, 500, u64::MAX, u64::MAX).unwrap();
    pool.add_liquidity(2, -100, 100, 700, u64::MAX, u64::MAX).unwrap();
    pool.add_liquidity(1, -200, 100, 900, u64::MAX, u64::MAX).unwrap();
    assert_eq!(pool.positions.len(), 3);
    assert_eq!(pool.liquidity, 500 + 700 + 900);
    // The shared boundary ticks aggregate all positions referencing them.
    assert_eq!(pool.ticks.len(), 3);
    assert_eq!(pool.ticks[0].tick_index, -200);
    assert_eq!(pool.ticks[0].liquidity_gross, 900);
    assert_eq!(pool.ticks[1].tick_index, -100);
    assert_eq!(pool.ticks[1].liquidity_gross, 1200);
    assert_eq!(pool.ticks[2].tick_index, 100);
    assert_eq!(pool.ticks[2].liquidity_gross, 2100);
    // Removing one owner's liquidity leaves the others untouched.
    pool.remove_liquidity(2, -100, 100, 700).unwrap();
    assert_eq!(pool.liquidity, 500 + 900);
    assert_eq!(pool.ticks[1].liquidity_gross, 500);
}

#[test]
fn close_is_idempotent_on_missing_keys() {
    let mut pool = pool_at_tick_zero(10, 30);
    pool.close_position(OWNER, -100, 100).unwrap();
    pool.add_liquidity(OWNER, -100, 100, 1000, u64::MAX, u64::MAX)
        .unwrap();
    pool.remove_liquidity(OWNER, -100, 100, 1000).unwrap();
    pool.close_position(OWNER, -100, 100).unwrap();
    pool.close_position(OWNER, -100, 100).unwrap();
}

#[test]
fn oversized_liquidity_delta_overflows() {
    let mut pool = pool_at_tick_zero(10, 30);
    assert_eq!(
        pool.add_liquidity(OWNER, -100, 100, u128::MAX, u64::MAX, u64::MAX)
            .unwrap_err(),
        CustomError::Overflow
    );
    assert_eq!(pool.ticks.len(), 0);
}

#[test]
fn missing_boundary_tick_is_fatal() {
    // A position whose boundary ticks are gone from the registry marks a
    // corrupted store: the removal reports it and touches nothing.
    let mut pool = pool_at_tick_zero(10, 30);
    pool.positions.push(smartolana::position::Position {
        owner: OWNER,
        tick_lower: -100,
        tick_upper: 100,
        liquidity: 5,
        fee_growth_checkpoint_a: 0,
        fee_growth_checkpoint_b: 0,
        tokens_owed_a: 0,
        tokens_owed_b: 0,
    });
    assert_eq!(
        pool.remove_liquidity(OWNER, -100, 100, 5).unwrap_err(),
        CustomError::TickNotFound
    );
    assert_eq!(pool.positions[0].liquidity, 5);
}
