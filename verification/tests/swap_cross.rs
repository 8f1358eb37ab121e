use smartolana::fixed::Q64;
use smartolana::ledger::Ledger;
use smartolana::pool::open_pool;
use smartolana::settle::{apply_settlement, settlement_for_add, settlement_for_swap};
use smartolana::swap::SwapDirection;
use smartolana::tick::TICK_STEP;

const OWNER: u64 = 7;
const TRADER_A: u64 = 21;
const TRADER_B: u64 = 22;

#[test]
fn upward_swap_crosses_into_a_range() {
    // Liquidity sits entirely above the current price, over [10, 20).
    // Selling B first jumps the price to the range's lower boundary,
    // crossing it with no input consumed, then trades inside the range.
    let mut pool = open_pool(1, 2, 101, 102, Q64, 10, 30).unwrap();
    let delta: u128 = 1000 << 40;
    let charged = pool
        .add_liquidity(OWNER, 10, 20, delta, u64::MAX, u64::MAX)
        .unwrap();
    assert_eq!(charged, (10485460005, 0));
    assert_eq!(pool.liquidity, 0);
    let outcome = pool.swap(SwapDirection::BToA, 1000, 0).unwrap();
    assert_eq!(outcome.amount_in_spent, 1000);
    assert_eq!(outcome.amount_out, 995);
    assert_eq!(pool.liquidity, delta);
    assert_eq!(pool.current_tick, 10);
    assert_eq!(pool.sqrt_price_x64, Q64 + 10 * TICK_STEP + (997 * Q64) / delta);
    assert_eq!(pool.sqrt_price_x64, 18446919995586722660);
    // The fee of floor(1000 * 30 / 10000) = 3 accrued to the input side.
    assert_eq!(pool.fee_growth_global_b, (3u128 << 64) / delta);
    assert_eq!(pool.fee_growth_global_a, 0);
    // Crossing flipped the boundary's snapshot against the accumulators at
    // the moment of crossing, which were still zero.
    assert_eq!(pool.ticks[0].tick_index, 10);
    assert_eq!(pool.ticks[0].fee_growth_outside_a, 0);
    assert_eq!(pool.ticks[0].fee_growth_outside_b, 0);
    assert_eq!(pool.ticks[0].liquidity_net, delta as i128);
}

#[test]
fn downward_swap_exhausts_ticks_and_stops() {
    // With no initialized tick below the price, a downward swap finds no
    // boundary, consumes nothing, and produces nothing.
    let mut pool = open_pool(1, 2, 101, 102, Q64, 10, 30).unwrap();
    let outcome = pool.swap(SwapDirection::AToB, 500, 0).unwrap();
    assert_eq!(outcome.amount_in_spent, 0);
    assert_eq!(outcome.amount_out, 0);
    assert_eq!(pool.sqrt_price_x64, Q64);
}

#[test]
fn settlements_conserve_the_ledger_total() {
    let mut pool = open_pool(1, 2, 101, 102, Q64, 10, 30).unwrap();
    let delta: u128 = 1000 << 40;
    let mut ledger = Ledger::new();
    ledger.mint(101, 0).unwrap();
    ledger.mint(102, 0).unwrap();
    ledger.mint(TRADER_A, 1_000_000_000_000).unwrap();
    ledger.mint(TRADER_B, 1_000_000_000_000).unwrap();
    let grand_total = 2_000_000_000_000u64;

    let (amount_a, amount_b) = pool
        .add_liquidity(OWNER, -100, 100, delta, u64::MAX, u64::MAX)
        .unwrap();
    let intents = settlement_for_add(&pool, TRADER_A, TRADER_B, amount_a, amount_b);
    apply_settlement(&mut ledger, &intents).unwrap();
    assert_eq!(ledger.balance(101), amount_a);
    assert_eq!(ledger.balance(102), amount_b);
    assert_eq!(
        ledger.balance(101) + ledger.balance(102) + ledger.balance(TRADER_A)
            + ledger.balance(TRADER_B),
        grand_total
    );

    let outcome = pool.swap(SwapDirection::AToB, 500, 0).unwrap();
    let intents = settlement_for_swap(&pool, SwapDirection::AToB, TRADER_A, TRADER_B, outcome);
    apply_settlement(&mut ledger, &intents).unwrap();
    // Swaps only move value between trader and vaults.
    assert_eq!(
        ledger.balance(101) + ledger.balance(102) + ledger.balance(TRADER_A)
            + ledger.balance(TRADER_B),
        grand_total
    );
    assert_eq!(ledger.balance(101), amount_a + outcome.amount_in_spent);
    assert_eq!(ledger.balance(102), amount_b - outcome.amount_out);
}
