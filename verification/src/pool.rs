use vstd::prelude::*;

use crate::errors::CustomError;
use crate::fixed::{mul_div, Q64};
use crate::position::{positions_unique, Position};
use crate::tick::{
    net_sum_upto, spec_sqrt_price_at_tick, tick_at_sqrt_price, ticks_sorted, Tick, MAX_TICK,
    MIN_TICK,
};

verus! {

/// One pool: the current price, the liquidity active there, the global fee
/// accumulators, and the tick and position records the pool owns.  The
/// store is explicit: every operation takes it and leaves it consistent,
/// or fails and leaves it untouched.
#[derive(Debug)]
pub struct PoolClmm {
    /// Asset identifiers of the pair.
    pub token_a_mint: u64,
    pub token_b_mint: u64,
    /// Ledger balance identifiers of the pool's two vaults.
    pub vault_a: u64,
    pub vault_b: u64,
    /// Square root of the current price, Q64.64.
    pub sqrt_price_x64: u128,
    /// The tick bucket holding `sqrt_price_x64`.
    pub current_tick: i32,
    /// Only multiples of this spacing may hold liquidity.
    pub tick_spacing: u16,
    /// Liquidity active at the current tick.
    pub liquidity: u128,
    /// Fee in basis points, taken from every swap's input.
    pub fee_rate: u16,
    /// Total fees ever collected per unit of active liquidity, Q64.64;
    /// never decreases.
    pub fee_growth_global_a: u128,
    pub fee_growth_global_b: u128,
    /// The tick registry, sorted by index.
    pub ticks: Vec<Tick>,
    /// The position records of this pool.
    pub positions: Vec<Position>,
}

/// Whether tick `t` is a multiple of the pool's spacing.
pub open spec fn spec_aligned(spacing: u16, t: int) -> bool {
    t % (spacing as int) == 0
}

/// A position range the pool accepts: nonempty, aligned, representable.
pub open spec fn spec_valid_range(spacing: u16, lower: int, upper: int) -> bool {
    &&& MIN_TICK <= lower
    &&& lower < upper
    &&& upper <= MAX_TICK
    &&& spec_aligned(spacing, lower)
    &&& spec_aligned(spacing, upper)
}

impl PoolClmm {
    /// Consistency of the whole store.  Every operation of the engine
    /// preserves it; in particular the liquidity active at the current tick
    /// always equals the sum of `liquidity_net` over the ticks at or below
    /// it, and no tick's outside fee snapshot ever exceeds the global
    /// accumulator.
    pub open spec fn wf(self) -> bool {
        &&& self.tick_spacing > 0
        &&& MIN_TICK - 1 <= self.current_tick <= MAX_TICK
        &&& spec_sqrt_price_at_tick(self.current_tick as int) <= self.sqrt_price_x64
        &&& self.sqrt_price_x64 <= spec_sqrt_price_at_tick(self.current_tick as int + 1)
        &&& ticks_sorted(self.ticks@)
        &&& forall|k: int|
            0 <= k < self.ticks@.len() ==> (#[trigger] self.ticks@[k]).tick_index >= MIN_TICK
                && self.ticks@[k].tick_index <= MAX_TICK && spec_aligned(
                self.tick_spacing,
                self.ticks@[k].tick_index as int,
            ) && self.ticks@[k].fee_growth_outside_a <= self.fee_growth_global_a
                && self.ticks@[k].fee_growth_outside_b <= self.fee_growth_global_b
        &&& self.liquidity == net_sum_upto(self.ticks@, self.current_tick as int)
        &&& positions_unique(self.positions@)
        &&& forall|k: int|
            0 <= k < self.positions@.len() ==> spec_valid_range(
                self.tick_spacing,
                (#[trigger] self.positions@[k]).tick_lower as int,
                self.positions@[k].tick_upper as int,
            )
    }
}

/// A multiple of `s` stays one under negation.
proof fn lemma_neg_mod_zero(x: int, s: int)
    requires
        s > 0,
    ensures
        (x % s == 0) <==> ((-x) % s == 0),
{
    vstd::arithmetic::div_mod::lemma_fundamental_div_mod(x, s);
    vstd::arithmetic::div_mod::lemma_fundamental_div_mod(-x, s);
    if x % s == 0 {
        assert(-x == (-(x / s)) * s) by (nonlinear_arith)
            requires
                x == s * (x / s),
        ;
        vstd::arithmetic::div_mod::lemma_mod_multiples_basic(-(x / s), s);
    } else if (-x) % s == 0 {
        assert(x == (-((-x) / s)) * s) by (nonlinear_arith)
            requires
                -x == s * ((-x) / s),
        ;
        vstd::arithmetic::div_mod::lemma_mod_multiples_basic(-((-x) / s), s);
    }
}

/// Whether tick `t` is a multiple of the pool's spacing.
pub fn tick_aligned(spacing: u16, t: i32) -> (r: bool)
    requires
        spacing > 0,
        t > i32::MIN,
    ensures
        r == spec_aligned(spacing, t as int),
{
    if t >= 0 {
        (t as u32) % (spacing as u32) == 0
    } else {
        proof {
            lemma_neg_mod_zero(-(t as int), spacing as int);
        }
        ((-t) as u32) % (spacing as u32) == 0
    }
}

/// Whether `lower` and `upper` form a range the pool accepts.
pub fn check_range(spacing: u16, lower: i32, upper: i32) -> (r: bool)
    requires
        spacing > 0,
    ensures
        r == spec_valid_range(spacing, lower as int, upper as int),
{
    if !(MIN_TICK <= lower && lower < upper && upper <= MAX_TICK) {
        return false;
    }
    tick_aligned(spacing, lower) && tick_aligned(spacing, upper)
}

/// Token A covering liquidity `l` between square-root prices `sqrt_a` and
/// `sqrt_b`, floor-rounded:
/// `l * (sqrt_b - sqrt_a) / sqrt_b * 2^64 / sqrt_a`.
pub open spec fn spec_amount_a(l: u128, sqrt_a: int, sqrt_b: int) -> int {
    ((l * (sqrt_b - sqrt_a)) / sqrt_b) * Q64 / sqrt_a
}

/// Whether `spec_amount_a` stays within the accumulator width.
pub open spec fn spec_amount_a_ok(l: u128, sqrt_a: int, sqrt_b: int) -> bool {
    l * (sqrt_b - sqrt_a) <= u128::MAX && ((l * (sqrt_b - sqrt_a)) / sqrt_b) * Q64 <= u128::MAX
}

/// Token B covering liquidity `l` between square-root prices `sqrt_a` and
/// `sqrt_b`, floor-rounded: `l * (sqrt_b - sqrt_a) / 2^64`.
pub open spec fn spec_amount_b(l: u128, sqrt_a: int, sqrt_b: int) -> int {
    l * (sqrt_b - sqrt_a) / (Q64 as int)
}

/// Whether `spec_amount_b` stays within the accumulator width.
pub open spec fn spec_amount_b_ok(l: u128, sqrt_a: int, sqrt_b: int) -> bool {
    l * (sqrt_b - sqrt_a) <= u128::MAX
}

/// The amount of token A that covers liquidity `l` over the square-root
/// price interval `[sqrt_a, sqrt_b]`: `l * (1/sqrt_a - 1/sqrt_b)` in
/// Q64.64, evaluated as `spec_amount_a` says.
pub fn amount_a_delta(l: u128, sqrt_a: u128, sqrt_b: u128) -> (r: Result<u128, CustomError>)
    requires
        0 < sqrt_a <= sqrt_b,
    ensures
        r is Ok <==> spec_amount_a_ok(l, sqrt_a as int, sqrt_b as int),
        r is Ok ==> r->Ok_0 == spec_amount_a(l, sqrt_a as int, sqrt_b as int),
        r is Err ==> r->Err_0 == CustomError::Overflow,
{
    match mul_div(l, sqrt_b - sqrt_a, sqrt_b) {
        Ok(num) => mul_div(num, Q64, sqrt_a),
        Err(e) => Err(e),
    }
}

/// The amount of token B that covers liquidity `l` over the square-root
/// price interval `[sqrt_a, sqrt_b]`: `l * (sqrt_b - sqrt_a)` in Q64.64,
/// evaluated as `spec_amount_b` says.
pub fn amount_b_delta(l: u128, sqrt_a: u128, sqrt_b: u128) -> (r: Result<u128, CustomError>)
    requires
        sqrt_a <= sqrt_b,
    ensures
        r is Ok <==> spec_amount_b_ok(l, sqrt_a as int, sqrt_b as int),
        r is Ok ==> r->Ok_0 == spec_amount_b(l, sqrt_a as int, sqrt_b as int),
        r is Err ==> r->Err_0 == CustomError::Overflow,
{
    mul_div(l, sqrt_b - sqrt_a, Q64)
}

/// Token A charged or returned for a liquidity change over `[lower, upper)`
/// at the given price: below the range the change is entirely in asset A,
/// above it entirely in asset B, inside it a split at the current price.
pub open spec fn spec_amount_a_for(cur: int, sqrtp: u128, lower: int, upper: int, delta: u128) -> int {
    if cur < lower {
        spec_amount_a(delta, spec_sqrt_price_at_tick(lower), spec_sqrt_price_at_tick(upper))
    } else if cur >= upper {
        0
    } else {
        spec_amount_a(delta, sqrtp as int, spec_sqrt_price_at_tick(upper))
    }
}

/// Token B charged or returned for a liquidity change over `[lower, upper)`
/// at the given price.
pub open spec fn spec_amount_b_for(cur: int, sqrtp: u128, lower: int, upper: int, delta: u128) -> int {
    if cur < lower {
        0
    } else if cur >= upper {
        spec_amount_b(delta, spec_sqrt_price_at_tick(lower), spec_sqrt_price_at_tick(upper))
    } else {
        spec_amount_b(delta, spec_sqrt_price_at_tick(lower), sqrtp as int)
    }
}

/// Whether both range amounts stay within the accumulator width.
pub open spec fn spec_amounts_for_ok(
    cur: int,
    sqrtp: u128,
    lower: int,
    upper: int,
    delta: u128,
) -> bool {
    if cur < lower {
        spec_amount_a_ok(delta, spec_sqrt_price_at_tick(lower), spec_sqrt_price_at_tick(upper))
    } else if cur >= upper {
        spec_amount_b_ok(delta, spec_sqrt_price_at_tick(lower), spec_sqrt_price_at_tick(upper))
    } else {
        spec_amount_a_ok(delta, sqrtp as int, spec_sqrt_price_at_tick(upper)) && spec_amount_b_ok(
            delta,
            spec_sqrt_price_at_tick(lower),
            sqrtp as int,
        )
    }
}

/// The token amounts that cover a liquidity change of `delta` over
/// `[lower, upper)` with the price at `sqrtp` in the bucket of `cur`.
pub fn amounts_for_liquidity(cur: i32, sqrtp: u128, lower: i32, upper: i32, delta: u128) -> (r:
    Result<(u128, u128), CustomError>)
    requires
        MIN_TICK <= lower < upper,
        upper <= MAX_TICK,
        MIN_TICK - 1 <= cur <= MAX_TICK,
        spec_sqrt_price_at_tick(cur as int) <= sqrtp,
        sqrtp <= spec_sqrt_price_at_tick(cur as int + 1),
    ensures
        r is Ok <==> spec_amounts_for_ok(cur as int, sqrtp, lower as int, upper as int, delta),
        r is Ok ==> r->Ok_0.0 == spec_amount_a_for(
            cur as int,
            sqrtp,
            lower as int,
            upper as int,
            delta,
        ) && r->Ok_0.1 == spec_amount_b_for(cur as int, sqrtp, lower as int, upper as int, delta),
        r is Err ==> r->Err_0 == CustomError::Overflow,
{
    let sl = crate::tick::sqrt_price_at_tick(lower);
    let su = crate::tick::sqrt_price_at_tick(upper);
    proof {
        crate::tick::lemma_sqrt_price_monotone(lower as int, upper as int);
    }
    if cur < lower {
        match amount_a_delta(delta, sl, su) {
            Ok(a) => Ok((a, 0)),
            Err(e) => Err(e),
        }
    } else if cur >= upper {
        match amount_b_delta(delta, sl, su) {
            Ok(b) => Ok((0, b)),
            Err(e) => Err(e),
        }
    } else {
        proof {
            crate::tick::lemma_sqrt_price_monotone(lower as int, cur as int);
            crate::tick::lemma_sqrt_price_monotone(cur as int + 1, upper as int);
            crate::tick::lemma_sqrt_price_monotone(MIN_TICK as int, cur as int);
        }
        match amount_a_delta(delta, sqrtp, su) {
            Ok(a) => match amount_b_delta(delta, sl, sqrtp) {
                Ok(b) => Ok((a, b)),
                Err(e) => Err(e),
            },
            Err(e) => Err(e),
        }
    }
}

/// The fee entitlement a position accrued since its last checkpoint:
/// `(inside_now - checkpoint) * liquidity`, in Q64.64.
pub open spec fn spec_owed_delta(cp: u128, inside: u128, liq: u128) -> int {
    (inside - cp) * liq / (Q64 as int)
}

/// Whether settling a position's pending fees fits the owed accumulators.
pub open spec fn spec_settle_ok(pos: Position, ia: u128, ib: u128) -> bool {
    &&& pos.fee_growth_checkpoint_a <= ia
    &&& pos.fee_growth_checkpoint_b <= ib
    &&& (ia - pos.fee_growth_checkpoint_a) * pos.liquidity <= u128::MAX
    &&& (ib - pos.fee_growth_checkpoint_b) * pos.liquidity <= u128::MAX
    &&& pos.tokens_owed_a + spec_owed_delta(pos.fee_growth_checkpoint_a, ia, pos.liquidity)
        <= u64::MAX
    &&& pos.tokens_owed_b + spec_owed_delta(pos.fee_growth_checkpoint_b, ib, pos.liquidity)
        <= u64::MAX
}

/// Settles the fees a position accrued since its checkpoints into its owed
/// amounts: the new owed totals for both assets.
pub fn settle_owed(pos: &Position, ia: u128, ib: u128) -> (r: Result<(u64, u64), CustomError>)
    ensures
        r is Ok <==> spec_settle_ok(*pos, ia, ib),
        r is Ok ==> r->Ok_0.0 == pos.tokens_owed_a + spec_owed_delta(
            pos.fee_growth_checkpoint_a,
            ia,
            pos.liquidity,
        ) && r->Ok_0.1 == pos.tokens_owed_b + spec_owed_delta(
            pos.fee_growth_checkpoint_b,
            ib,
            pos.liquidity,
        ),
        r is Err ==> r->Err_0 == CustomError::Overflow,
{
    let diff_a = match ia.checked_sub(pos.fee_growth_checkpoint_a) {
        Some(v) => v,
        None => {
            return Err(CustomError::Overflow);
        },
    };
    let diff_b = match ib.checked_sub(pos.fee_growth_checkpoint_b) {
        Some(v) => v,
        None => {
            return Err(CustomError::Overflow);
        },
    };
    let da = match mul_div(diff_a, pos.liquidity, Q64) {
        Ok(v) => v,
        Err(e) => {
            return Err(e);
        },
    };
    let db = match mul_div(diff_b, pos.liquidity, Q64) {
        Ok(v) => v,
        Err(e) => {
            return Err(e);
        },
    };
    if da > (u64::MAX - pos.tokens_owed_a) as u128 {
        return Err(CustomError::Overflow);
    }
    if db > (u64::MAX - pos.tokens_owed_b) as u128 {
        return Err(CustomError::Overflow);
    }
    Ok((pos.tokens_owed_a + (da as u64), pos.tokens_owed_b + (db as u64)))
}

/// Whether two pool states agree on everything a liquidity or swap
/// operation never touches.
pub open spec fn spec_same_config(p0: PoolClmm, p1: PoolClmm) -> bool {
    &&& p1.token_a_mint == p0.token_a_mint
    &&& p1.token_b_mint == p0.token_b_mint
    &&& p1.vault_a == p0.vault_a
    &&& p1.vault_b == p0.vault_b
    &&& p1.tick_spacing == p0.tick_spacing
    &&& p1.fee_rate == p0.fee_rate
}

/// Fee growth below a boundary tick, seen from `cur`.
pub open spec fn spec_fee_below(outside: u128, global: u128, tick_idx: int, cur: int) -> int {
    if cur >= tick_idx {
        outside as int
    } else {
        global - outside
    }
}

/// Fee growth above a boundary tick, seen from `cur`.
pub open spec fn spec_fee_above(outside: u128, global: u128, tick_idx: int, cur: int) -> int {
    if cur < tick_idx {
        outside as int
    } else {
        global - outside
    }
}

/// Fee growth inside a range: the global accumulator less what accrued
/// below the lower tick and above the upper tick.
pub open spec fn spec_fee_inside(
    global: u128,
    lower_outside: u128,
    upper_outside: u128,
    lower_idx: int,
    upper_idx: int,
    cur: int,
) -> int {
    global - spec_fee_below(lower_outside, global, lower_idx, cur) - spec_fee_above(
        upper_outside,
        global,
        upper_idx,
        cur,
    )
}

/// Fee growth inside `[lower, upper)` for both assets, per unit of
/// liquidity, Q64.64.  Fails with `Overflow` when a crossing history has
/// pushed the outside snapshots past the global accumulator for this
/// range, which no checkpoint could represent.
pub fn fee_growth_inside(
    global_a: u128,
    global_b: u128,
    lower: &Tick,
    upper: &Tick,
    cur: i32,
) -> (r: Result<(u128, u128), CustomError>)
    requires
        lower.fee_growth_outside_a <= global_a,
        lower.fee_growth_outside_b <= global_b,
        upper.fee_growth_outside_a <= global_a,
        upper.fee_growth_outside_b <= global_b,
    ensures
        ({
            let ia = spec_fee_inside(
                global_a,
                lower.fee_growth_outside_a,
                upper.fee_growth_outside_a,
                lower.tick_index as int,
                upper.tick_index as int,
                cur as int,
            );
            let ib = spec_fee_inside(
                global_b,
                lower.fee_growth_outside_b,
                upper.fee_growth_outside_b,
                lower.tick_index as int,
                upper.tick_index as int,
                cur as int,
            );
            &&& (r is Ok <==> ia >= 0 && ib >= 0)
            &&& (r is Ok ==> r->Ok_0.0 == ia && r->Ok_0.1 == ib)
            &&& (r is Err ==> r->Err_0 == CustomError::Overflow)
        }),
{
    let below_a: u128 = if cur >= lower.tick_index {
        lower.fee_growth_outside_a
    } else {
        global_a - lower.fee_growth_outside_a
    };
    let below_b: u128 = if cur >= lower.tick_index {
        lower.fee_growth_outside_b
    } else {
        global_b - lower.fee_growth_outside_b
    };
    let above_a: u128 = if cur < upper.tick_index {
        upper.fee_growth_outside_a
    } else {
        global_a - upper.fee_growth_outside_a
    };
    let above_b: u128 = if cur < upper.tick_index {
        upper.fee_growth_outside_b
    } else {
        global_b - upper.fee_growth_outside_b
    };
    let ia = match (global_a - below_a).checked_sub(above_a) {
        Some(v) => v,
        None => {
            return Err(CustomError::Overflow);
        },
    };
    let ib = match (global_b - below_b).checked_sub(above_b) {
        Some(v) => v,
        None => {
            return Err(CustomError::Overflow);
        },
    };
    Ok((ia, ib))
}

/// Whether a range is active at the current tick.
pub open spec fn spec_in_range(cur: int, lower: int, upper: int) -> bool {
    lower <= cur < upper
}

/// Fee growth inside `[lower, upper)` for asset A, read off a pool state.
pub open spec fn spec_inside_a(p: PoolClmm, lower: i32, upper: i32) -> int {
    spec_fee_inside(
        p.fee_growth_global_a,
        crate::tick::tick_value(p.ticks@, lower as int).fee_growth_outside_a,
        crate::tick::tick_value(p.ticks@, upper as int).fee_growth_outside_a,
        lower as int,
        upper as int,
        p.current_tick as int,
    )
}

/// Fee growth inside `[lower, upper)` for asset B, read off a pool state.
pub open spec fn spec_inside_b(p: PoolClmm, lower: i32, upper: i32) -> int {
    spec_fee_inside(
        p.fee_growth_global_b,
        crate::tick::tick_value(p.ticks@, lower as int).fee_growth_outside_b,
        crate::tick::tick_value(p.ticks@, upper as int).fee_growth_outside_b,
        lower as int,
        upper as int,
        p.current_tick as int,
    )
}

/// The conditions under which `add_liquidity` succeeds, read off the state
/// before the call: the range is acceptable, the liquidity change nonzero,
/// every amount and accumulator stays representable, the caller's slippage
/// bounds hold, and the position's pending fees can be settled.
pub open spec fn spec_add_ok(
    p: PoolClmm,
    owner: u64,
    lower: i32,
    upper: i32,
    delta: u128,
    a_max: u64,
    b_max: u64,
) -> bool {
    let lt = crate::tick::tick_value(p.ticks@, lower as int);
    let ut = crate::tick::tick_value(p.ticks@, upper as int);
    let ia = spec_inside_a(p, lower, upper);
    let ib = spec_inside_b(p, lower, upper);
    let pos0 = crate::position::position_value(p.positions@, owner, lower, upper);
    &&& spec_valid_range(p.tick_spacing, lower as int, upper as int)
    &&& delta != 0
    &&& spec_amounts_for_ok(p.current_tick as int, p.sqrt_price_x64, lower as int, upper as int, delta)
    &&& spec_amount_a_for(p.current_tick as int, p.sqrt_price_x64, lower as int, upper as int, delta) <= a_max
    &&& spec_amount_b_for(p.current_tick as int, p.sqrt_price_x64, lower as int, upper as int, delta) <= b_max
    &&& ia >= 0 && ib >= 0
    &&& spec_settle_ok(pos0, ia as u128, ib as u128)
    &&& pos0.liquidity + delta <= u128::MAX
    &&& delta <= i128::MAX
    &&& lt.liquidity_net + delta <= i128::MAX
    &&& ut.liquidity_net - delta >= i128::MIN
    &&& lt.liquidity_gross + delta <= u128::MAX
    &&& ut.liquidity_gross + delta <= u128::MAX
    &&& (spec_in_range(p.current_tick as int, lower as int, upper as int) ==> p.liquidity + delta
        <= u128::MAX)
}

/// The error `add_liquidity` reports, by the first check that fails.
pub open spec fn spec_add_err(
    p: PoolClmm,
    lower: i32,
    upper: i32,
    delta: u128,
    a_max: u64,
    b_max: u64,
) -> CustomError {
    if !spec_valid_range(p.tick_spacing, lower as int, upper as int) {
        CustomError::InvalidTickRange
    } else if delta == 0 {
        CustomError::ZeroLiquidity
    } else if !spec_amounts_for_ok(
        p.current_tick as int,
        p.sqrt_price_x64,
        lower as int,
        upper as int,
        delta,
    ) {
        CustomError::Overflow
    } else if spec_amount_a_for(p.current_tick as int, p.sqrt_price_x64, lower as int, upper as int, delta) > a_max
        || spec_amount_b_for(p.current_tick as int, p.sqrt_price_x64, lower as int, upper as int, delta) > b_max {
        CustomError::SlippageExceeded
    } else {
        CustomError::Overflow
    }
}

/// The lower boundary record after a liquidity add of `delta`.
pub open spec fn spec_add_lower_tick(p0: PoolClmm, lower: i32, delta: u128) -> Tick {
    let lt = crate::tick::tick_value(p0.ticks@, lower as int);
    Tick {
        tick_index: lower,
        liquidity_net: (lt.liquidity_net + delta) as i128,
        liquidity_gross: (lt.liquidity_gross + delta) as u128,
        fee_growth_outside_a: lt.fee_growth_outside_a,
        fee_growth_outside_b: lt.fee_growth_outside_b,
    }
}

/// The upper boundary record after a liquidity add of `delta`.
pub open spec fn spec_add_upper_tick(p0: PoolClmm, upper: i32, delta: u128) -> Tick {
    let ut = crate::tick::tick_value(p0.ticks@, upper as int);
    Tick {
        tick_index: upper,
        liquidity_net: (ut.liquidity_net - delta) as i128,
        liquidity_gross: (ut.liquidity_gross + delta) as u128,
        fee_growth_outside_a: ut.fee_growth_outside_a,
        fee_growth_outside_b: ut.fee_growth_outside_b,
    }
}

/// The position record after a liquidity add of `delta`: pending fees
/// settled into the owed amounts, the checkpoints refreshed to the fee
/// growth now inside the range, and the liquidity raised.
pub open spec fn spec_add_position(
    p0: PoolClmm,
    owner: u64,
    lower: i32,
    upper: i32,
    delta: u128,
) -> Position {
    let ia = spec_inside_a(p0, lower, upper);
    let ib = spec_inside_b(p0, lower, upper);
    let pos0 = crate::position::position_value(p0.positions@, owner, lower, upper);
    Position {
        owner,
        tick_lower: lower,
        tick_upper: upper,
        liquidity: (pos0.liquidity + delta) as u128,
        fee_growth_checkpoint_a: ia as u128,
        fee_growth_checkpoint_b: ib as u128,
        tokens_owed_a: (pos0.tokens_owed_a + spec_owed_delta(
            pos0.fee_growth_checkpoint_a,
            ia as u128,
            pos0.liquidity,
        )) as u64,
        tokens_owed_b: (pos0.tokens_owed_b + spec_owed_delta(
            pos0.fee_growth_checkpoint_b,
            ib as u128,
            pos0.liquidity,
        )) as u64,
    }
}

/// The lower boundary record after a liquidity removal of `delta`.
pub open spec fn spec_remove_lower_tick(p0: PoolClmm, lower: i32, delta: u128) -> Tick {
    let lt = crate::tick::tick_value(p0.ticks@, lower as int);
    Tick {
        tick_index: lower,
        liquidity_net: (lt.liquidity_net - delta) as i128,
        liquidity_gross: (lt.liquidity_gross - delta) as u128,
        fee_growth_outside_a: lt.fee_growth_outside_a,
        fee_growth_outside_b: lt.fee_growth_outside_b,
    }
}

/// The upper boundary record after a liquidity removal of `delta`.
pub open spec fn spec_remove_upper_tick(p0: PoolClmm, upper: i32, delta: u128) -> Tick {
    let ut = crate::tick::tick_value(p0.ticks@, upper as int);
    Tick {
        tick_index: upper,
        liquidity_net: (ut.liquidity_net + delta) as i128,
        liquidity_gross: (ut.liquidity_gross - delta) as u128,
        fee_growth_outside_a: ut.fee_growth_outside_a,
        fee_growth_outside_b: ut.fee_growth_outside_b,
    }
}

/// The position record after a liquidity removal of `delta`: pending fees
/// settled into the owed amounts, the checkpoints refreshed, the liquidity
/// lowered.  The record itself stays until `close_position` deletes it.
pub open spec fn spec_remove_position(
    p0: PoolClmm,
    owner: u64,
    lower: i32,
    upper: i32,
    delta: u128,
) -> Position {
    let ia = spec_inside_a(p0, lower, upper);
    let ib = spec_inside_b(p0, lower, upper);
    let pos0 = crate::position::position_value(p0.positions@, owner, lower, upper);
    Position {
        owner,
        tick_lower: lower,
        tick_upper: upper,
        liquidity: (pos0.liquidity - delta) as u128,
        fee_growth_checkpoint_a: ia as u128,
        fee_growth_checkpoint_b: ib as u128,
        tokens_owed_a: (pos0.tokens_owed_a + spec_owed_delta(
            pos0.fee_growth_checkpoint_a,
            ia as u128,
            pos0.liquidity,
        )) as u64,
        tokens_owed_b: (pos0.tokens_owed_b + spec_owed_delta(
            pos0.fee_growth_checkpoint_b,
            ib as u128,
            pos0.liquidity,
        )) as u64,
    }
}

/// Whether a boundary record is deleted after a removal: no position
/// references it any more.
pub open spec fn spec_pruned(t: Tick) -> bool {
    t.liquidity_gross == 0 && t.liquidity_net == 0
}

/// The conditions under which `remove_liquidity` succeeds, read off the
/// state before the call.
pub open spec fn spec_remove_ok(
    p: PoolClmm,
    owner: u64,
    lower: i32,
    upper: i32,
    delta: u128,
) -> bool {
    let lt = crate::tick::tick_value(p.ticks@, lower as int);
    let ut = crate::tick::tick_value(p.ticks@, upper as int);
    let ia = spec_inside_a(p, lower, upper);
    let ib = spec_inside_b(p, lower, upper);
    let pos0 = crate::position::position_value(p.positions@, owner, lower, upper);
    &&& delta != 0
    &&& crate::position::has_position(p.positions@, owner, lower, upper)
    &&& delta <= pos0.liquidity
    &&& spec_amounts_for_ok(p.current_tick as int, p.sqrt_price_x64, lower as int, upper as int, delta)
    &&& spec_amount_a_for(p.current_tick as int, p.sqrt_price_x64, lower as int, upper as int, delta) <= u64::MAX
    &&& spec_amount_b_for(p.current_tick as int, p.sqrt_price_x64, lower as int, upper as int, delta) <= u64::MAX
    &&& crate::tick::has_tick(p.ticks@, lower as int)
    &&& crate::tick::has_tick(p.ticks@, upper as int)
    &&& ia >= 0 && ib >= 0
    &&& spec_settle_ok(pos0, ia as u128, ib as u128)
    &&& delta <= i128::MAX
    &&& lt.liquidity_net - delta >= i128::MIN
    &&& ut.liquidity_net + delta <= i128::MAX
    &&& lt.liquidity_gross >= delta
    &&& ut.liquidity_gross >= delta
    &&& (spec_in_range(p.current_tick as int, lower as int, upper as int) ==> p.liquidity >= delta)
}

/// The error `remove_liquidity` reports, by the first check that fails.
pub open spec fn spec_remove_err(
    p: PoolClmm,
    owner: u64,
    lower: i32,
    upper: i32,
    delta: u128,
) -> CustomError {
    let pos0 = crate::position::position_value(p.positions@, owner, lower, upper);
    if delta == 0 {
        CustomError::ZeroLiquidity
    } else if !crate::position::has_position(p.positions@, owner, lower, upper) || delta
        > pos0.liquidity {
        CustomError::InvalidLiquidityAmount
    } else if !spec_amounts_for_ok(
        p.current_tick as int,
        p.sqrt_price_x64,
        lower as int,
        upper as int,
        delta,
    ) || spec_amount_a_for(p.current_tick as int, p.sqrt_price_x64, lower as int, upper as int, delta) > u64::MAX
        || spec_amount_b_for(p.current_tick as int, p.sqrt_price_x64, lower as int, upper as int, delta) > u64::MAX {
        CustomError::Overflow
    } else if !crate::tick::has_tick(p.ticks@, lower as int) || !crate::tick::has_tick(
        p.ticks@,
        upper as int,
    ) {
        CustomError::TickNotFound
    } else {
        CustomError::Overflow
    }
}

/// Everything a validated liquidity change will write, computed up front
/// so that the commit cannot fail.
struct ChangePlan {
    amount_a: u64,
    amount_b: u64,
    nlt: Tick,
    nut: Tick,
    npos: Position,
    pos_idx: Option<usize>,
    new_active: u128,
}

impl PoolClmm {
    /// Opens the position keyed `(owner, tick_lower, tick_upper)` on first
    /// use and adds `liquidity_delta` to it.  Returns the token amounts the
    /// owner must pay in, computed at the current price; fails with
    /// `SlippageExceeded` when they exceed the caller's maxima.  Pending
    /// fees of an existing position are settled into its owed amounts
    /// before the liquidity changes, and the checkpoint is refreshed to the
    /// fee growth now inside the range.  On any failure the store is
    /// untouched.
    #[verifier::rlimit(100)]
    #[verifier::spinoff_prover]
    pub fn add_liquidity(
        &mut self,
        owner: u64,
        tick_lower: i32,
        tick_upper: i32,
        liquidity_delta: u128,
        amount_a_max: u64,
        amount_b_max: u64,
    ) -> (r: Result<(u64, u64), CustomError>)
        requires
            old(self).wf(),
        ensures
            final(self).wf(),
            spec_same_config(*old(self), *final(self)),
            r is Ok <==> spec_add_ok(
                *old(self),
                owner,
                tick_lower,
                tick_upper,
                liquidity_delta,
                amount_a_max,
                amount_b_max,
            ),
            r is Err ==> *final(self) == *old(self) && r->Err_0 == spec_add_err(
                *old(self),
                tick_lower,
                tick_upper,
                liquidity_delta,
                amount_a_max,
                amount_b_max,
            ),
            r is Ok ==> r->Ok_0.0 == spec_amount_a_for(
                old(self).current_tick as int,
                old(self).sqrt_price_x64,
                tick_lower as int,
                tick_upper as int,
                liquidity_delta,
            ) && r->Ok_0.1 == spec_amount_b_for(
                old(self).current_tick as int,
                old(self).sqrt_price_x64,
                tick_lower as int,
                tick_upper as int,
                liquidity_delta,
            ),
            r is Ok ==> final(self).sqrt_price_x64 == old(self).sqrt_price_x64
                && final(self).current_tick == old(self).current_tick
                && final(self).fee_growth_global_a == old(self).fee_growth_global_a
                && final(self).fee_growth_global_b == old(self).fee_growth_global_b,
            r is Ok ==> final(self).liquidity == old(self).liquidity + (if spec_in_range(
                old(self).current_tick as int,
                tick_lower as int,
                tick_upper as int,
            ) {
                liquidity_delta as int
            } else {
                0
            }),
            r is Ok ==> forall|i: int|
                #[trigger] crate::tick::has_tick(final(self).ticks@, i) <==> crate::tick::has_tick(
                    old(self).ticks@,
                    i,
                ) || i == tick_lower || i == tick_upper,
            r is Ok ==> crate::tick::tick_value(final(self).ticks@, tick_lower as int)
                == spec_add_lower_tick(*old(self), tick_lower, liquidity_delta),
            r is Ok ==> crate::tick::tick_value(final(self).ticks@, tick_upper as int)
                == spec_add_upper_tick(*old(self), tick_upper, liquidity_delta),
            r is Ok ==> forall|i: int|
                i != tick_lower && i != tick_upper ==> #[trigger] crate::tick::tick_value(
                    final(self).ticks@,
                    i,
                ) == crate::tick::tick_value(old(self).ticks@, i),
            r is Ok ==> crate::position::has_position(
                final(self).positions@,
                owner,
                tick_lower,
                tick_upper,
            ) && crate::position::position_value(
                final(self).positions@,
                owner,
                tick_lower,
                tick_upper,
            ) == spec_add_position(*old(self), owner, tick_lower, tick_upper, liquidity_delta),
            r is Ok ==> forall|o: u64, l: i32, u: i32|
                !(o == owner && l == tick_lower && u == tick_upper)
                    ==> #[trigger] crate::position::position_value(final(self).positions@, o, l, u)
                    == crate::position::position_value(old(self).positions@, o, l, u) && (
                crate::position::has_position(final(self).positions@, o, l, u)
                    <==> crate::position::has_position(old(self).positions@, o, l, u)),
    {
        let plan = match self.add_prepare(
            owner,
            tick_lower,
            tick_upper,
            liquidity_delta,
            amount_a_max,
            amount_b_max,
        ) {
            Ok(v) => v,
            Err(e) => {
                return Err(e);
            },
        };
        let ghost p0 = *self;
        self.apply_change(
            owner,
            tick_lower,
            tick_upper,
            plan.nlt,
            plan.nut,
            plan.npos,
            plan.pos_idx,
            plan.new_active,
        );
        proof {
            let cur = p0.current_tick as int;
            let lt = crate::tick::tick_value(p0.ticks@, tick_lower as int);
            let ut = crate::tick::tick_value(p0.ticks@, tick_upper as int);
            assert(crate::tick::net_contrib(plan.nlt, cur) - crate::tick::net_contrib(lt, cur)
                == if tick_lower <= cur {
                liquidity_delta as int
            } else {
                0
            });
            assert(crate::tick::net_contrib(plan.nut, cur) - crate::tick::net_contrib(ut, cur)
                == if tick_upper <= cur {
                -(liquidity_delta as int)
            } else {
                0
            });
            assert(self.liquidity == net_sum_upto(self.ticks@, cur));
            lemma_change_commit_wf(p0, *self, tick_lower, tick_upper, plan.nlt, plan.nut);
        }
        Ok((plan.amount_a, plan.amount_b))
    }

    /// Validates a liquidity add and computes everything the commit will
    /// write, touching nothing: the amounts charged, the two boundary tick
    /// records, the settled position record, and the new active liquidity.
    #[verifier::rlimit(100)]
    #[verifier::spinoff_prover]
    fn add_prepare(
        &self,
        owner: u64,
        tick_lower: i32,
        tick_upper: i32,
        liquidity_delta: u128,
        amount_a_max: u64,
        amount_b_max: u64,
    ) -> (r: Result<ChangePlan, CustomError>)
        requires
            self.wf(),
        ensures
            r is Ok <==> spec_add_ok(
                *self,
                owner,
                tick_lower,
                tick_upper,
                liquidity_delta,
                amount_a_max,
                amount_b_max,
            ),
            r is Err ==> r->Err_0 == spec_add_err(
                *self,
                tick_lower,
                tick_upper,
                liquidity_delta,
                amount_a_max,
                amount_b_max,
            ),
            r is Ok ==> ({
                let plan = r->Ok_0;
                &&& plan.amount_a == spec_amount_a_for(
                    self.current_tick as int,
                    self.sqrt_price_x64,
                    tick_lower as int,
                    tick_upper as int,
                    liquidity_delta,
                )
                &&& plan.amount_b == spec_amount_b_for(
                    self.current_tick as int,
                    self.sqrt_price_x64,
                    tick_lower as int,
                    tick_upper as int,
                    liquidity_delta,
                )
                &&& plan.nlt == spec_add_lower_tick(*self, tick_lower, liquidity_delta)
                &&& plan.nut == spec_add_upper_tick(*self, tick_upper, liquidity_delta)
                &&& plan.npos == spec_add_position(
                    *self,
                    owner,
                    tick_lower,
                    tick_upper,
                    liquidity_delta,
                )
                &&& plan.new_active == self.liquidity + (if spec_in_range(
                    self.current_tick as int,
                    tick_lower as int,
                    tick_upper as int,
                ) {
                    liquidity_delta as int
                } else {
                    0
                })
                &&& match plan.pos_idx {
                    Some(k) => k < self.positions@.len() && crate::position::position_keyed(
                        self.positions@[k as int],
                        owner,
                        tick_lower,
                        tick_upper,
                    ),
                    None => !crate::position::has_position(
                        self.positions@,
                        owner,
                        tick_lower,
                        tick_upper,
                    ),
                }
            }),
    {
        if !check_range(self.tick_spacing, tick_lower, tick_upper) {
            return Err(CustomError::InvalidTickRange);
        }
        if liquidity_delta == 0 {
            return Err(CustomError::ZeroLiquidity);
        }
        let (amount_a_u, amount_b_u) = match amounts_for_liquidity(
            self.current_tick,
            self.sqrt_price_x64,
            tick_lower,
            tick_upper,
            liquidity_delta,
        ) {
            Ok(v) => v,
            Err(e) => {
                return Err(e);
            },
        };
        if amount_a_u > amount_a_max as u128 || amount_b_u > amount_b_max as u128 {
            return Err(CustomError::SlippageExceeded);
        }
        let amount_a = amount_a_u as u64;
        let amount_b = amount_b_u as u64;
        let lt: Tick = match crate::tick::find_tick(&self.ticks, tick_lower) {
            Some(k) => {
                proof {
                    crate::tick::lemma_tick_value_at(self.ticks@, k as int);
                }
                self.ticks[k]
            },
            None => Tick {
                tick_index: tick_lower,
                liquidity_net: 0,
                liquidity_gross: 0,
                fee_growth_outside_a: 0,
                fee_growth_outside_b: 0,
            },
        };
        let ut: Tick = match crate::tick::find_tick(&self.ticks, tick_upper) {
            Some(k) => {
                proof {
                    crate::tick::lemma_tick_value_at(self.ticks@, k as int);
                }
                self.ticks[k]
            },
            None => Tick {
                tick_index: tick_upper,
                liquidity_net: 0,
                liquidity_gross: 0,
                fee_growth_outside_a: 0,
                fee_growth_outside_b: 0,
            },
        };
        proof {
            assert(lt == crate::tick::tick_value(self.ticks@, tick_lower as int));
            assert(ut == crate::tick::tick_value(self.ticks@, tick_upper as int));
            assert(lt.fee_growth_outside_a <= self.fee_growth_global_a && lt.fee_growth_outside_b
                <= self.fee_growth_global_b) by {
                if crate::tick::has_tick(self.ticks@, tick_lower as int) {
                    let i0 = choose|i: int|
                        0 <= i < self.ticks@.len() && self.ticks@[i].tick_index == tick_lower;
                    assert(crate::tick::tick_value(self.ticks@, tick_lower as int)
                        == self.ticks@[i0]);
                }
            }
            assert(ut.fee_growth_outside_a <= self.fee_growth_global_a && ut.fee_growth_outside_b
                <= self.fee_growth_global_b) by {
                if crate::tick::has_tick(self.ticks@, tick_upper as int) {
                    let i0 = choose|i: int|
                        0 <= i < self.ticks@.len() && self.ticks@[i].tick_index == tick_upper;
                    assert(crate::tick::tick_value(self.ticks@, tick_upper as int)
                        == self.ticks@[i0]);
                }
            }
        }
        let (ia, ib) = match fee_growth_inside(
            self.fee_growth_global_a,
            self.fee_growth_global_b,
            &lt,
            &ut,
            self.current_tick,
        ) {
            Ok(v) => v,
            Err(e) => {
                return Err(e);
            },
        };
        let pos_idx = crate::position::find_position(&self.positions, owner, tick_lower, tick_upper);
        let pos0: Position = match pos_idx {
            Some(k) => {
                proof {
                    crate::position::lemma_position_value_at(self.positions@, k as int);
                }
                self.positions[k]
            },
            None => Position {
                owner,
                tick_lower,
                tick_upper,
                liquidity: 0,
                fee_growth_checkpoint_a: 0,
                fee_growth_checkpoint_b: 0,
                tokens_owed_a: 0,
                tokens_owed_b: 0,
            },
        };
        let (new_owed_a, new_owed_b) = match settle_owed(&pos0, ia, ib) {
            Ok(v) => v,
            Err(e) => {
                return Err(e);
            },
        };
        let new_pos_liq = match pos0.liquidity.checked_add(liquidity_delta) {
            Some(v) => v,
            None => {
                return Err(CustomError::Overflow);
            },
        };
        if liquidity_delta > (i128::MAX as u128) {
            return Err(CustomError::Overflow);
        }
        let delta_i = liquidity_delta as i128;
        let new_lnet = match lt.liquidity_net.checked_add(delta_i) {
            Some(v) => v,
            None => {
                return Err(CustomError::Overflow);
            },
        };
        let new_lgross = match lt.liquidity_gross.checked_add(liquidity_delta) {
            Some(v) => v,
            None => {
                return Err(CustomError::Overflow);
            },
        };
        let new_unet = match ut.liquidity_net.checked_sub(delta_i) {
            Some(v) => v,
            None => {
                return Err(CustomError::Overflow);
            },
        };
        let new_ugross = match ut.liquidity_gross.checked_add(liquidity_delta) {
            Some(v) => v,
            None => {
                return Err(CustomError::Overflow);
            },
        };
        let in_range = tick_lower <= self.current_tick && self.current_tick < tick_upper;
        let new_active = if in_range {
            match self.liquidity.checked_add(liquidity_delta) {
                Some(v) => v,
                None => {
                    return Err(CustomError::Overflow);
                },
            }
        } else {
            self.liquidity
        };
        let nlt = Tick {
            tick_index: tick_lower,
            liquidity_net: new_lnet,
            liquidity_gross: new_lgross,
            fee_growth_outside_a: lt.fee_growth_outside_a,
            fee_growth_outside_b: lt.fee_growth_outside_b,
        };
        let nut = Tick {
            tick_index: tick_upper,
            liquidity_net: new_unet,
            liquidity_gross: new_ugross,
            fee_growth_outside_a: ut.fee_growth_outside_a,
            fee_growth_outside_b: ut.fee_growth_outside_b,
        };
        let npos = Position {
            owner,
            tick_lower,
            tick_upper,
            liquidity: new_pos_liq,
            fee_growth_checkpoint_a: ia,
            fee_growth_checkpoint_b: ib,
            tokens_owed_a: new_owed_a,
            tokens_owed_b: new_owed_b,
        };
        proof {
            assert(ia == spec_inside_a(*self, tick_lower, tick_upper));
            assert(ib == spec_inside_b(*self, tick_lower, tick_upper));
        }
        Ok(
            ChangePlan {
                amount_a,
                amount_b,
                nlt,
                nut,
                npos,
                pos_idx,
                new_active,
            },
        )
    }

    /// Takes `liquidity_delta` out of the position keyed
    /// `(owner, tick_lower, tick_upper)` and returns the token amounts owed
    /// back to the owner, computed at the current price by the same
    /// formulas that charged them.  Fails with `InvalidLiquidityAmount`
    /// when the position holds less than `liquidity_delta`.  Pending fees
    /// are settled into the owed amounts before the liquidity changes; a
    /// boundary tick that no position references afterwards is pruned.  On
    /// any failure the store is untouched.
    pub fn remove_liquidity(
        &mut self,
        owner: u64,
        tick_lower: i32,
        tick_upper: i32,
        liquidity_delta: u128,
    ) -> (r: Result<(u64, u64), CustomError>)
        requires
            old(self).wf(),
        ensures
            final(self).wf(),
            spec_same_config(*old(self), *final(self)),
            r is Ok <==> spec_remove_ok(*old(self), owner, tick_lower, tick_upper, liquidity_delta),
            r is Err ==> *final(self) == *old(self) && r->Err_0 == spec_remove_err(
                *old(self),
                owner,
                tick_lower,
                tick_upper,
                liquidity_delta,
            ),
            r is Ok ==> r->Ok_0.0 == spec_amount_a_for(
                old(self).current_tick as int,
                old(self).sqrt_price_x64,
                tick_lower as int,
                tick_upper as int,
                liquidity_delta,
            ) && r->Ok_0.1 == spec_amount_b_for(
                old(self).current_tick as int,
                old(self).sqrt_price_x64,
                tick_lower as int,
                tick_upper as int,
                liquidity_delta,
            ),
            r is Ok ==> final(self).sqrt_price_x64 == old(self).sqrt_price_x64
                && final(self).current_tick == old(self).current_tick
                && final(self).fee_growth_global_a == old(self).fee_growth_global_a
                && final(self).fee_growth_global_b == old(self).fee_growth_global_b,
            r is Ok ==> final(self).liquidity == old(self).liquidity - (if spec_in_range(
                old(self).current_tick as int,
                tick_lower as int,
                tick_upper as int,
            ) {
                liquidity_delta as int
            } else {
                0
            }),
            r is Ok ==> (crate::tick::has_tick(final(self).ticks@, tick_lower as int)
                <==> !spec_pruned(spec_remove_lower_tick(*old(self), tick_lower, liquidity_delta))),
            r is Ok ==> (crate::tick::has_tick(final(self).ticks@, tick_upper as int)
                <==> !spec_pruned(spec_remove_upper_tick(*old(self), tick_upper, liquidity_delta))),
            r is Ok ==> !spec_pruned(spec_remove_lower_tick(*old(self), tick_lower, liquidity_delta))
                ==> crate::tick::tick_value(final(self).ticks@, tick_lower as int)
                == spec_remove_lower_tick(*old(self), tick_lower, liquidity_delta),
            r is Ok ==> !spec_pruned(spec_remove_upper_tick(*old(self), tick_upper, liquidity_delta))
                ==> crate::tick::tick_value(final(self).ticks@, tick_upper as int)
                == spec_remove_upper_tick(*old(self), tick_upper, liquidity_delta),
            r is Ok ==> forall|i: int|
                i != tick_lower && i != tick_upper ==> #[trigger] crate::tick::tick_value(
                    final(self).ticks@,
                    i,
                ) == crate::tick::tick_value(old(self).ticks@, i),
            r is Ok ==> forall|i: int|
                i != tick_lower && i != tick_upper ==> (#[trigger] crate::tick::has_tick(
                    final(self).ticks@,
                    i,
                ) <==> crate::tick::has_tick(old(self).ticks@, i)),
            r is Ok ==> crate::position::has_position(
                final(self).positions@,
                owner,
                tick_lower,
                tick_upper,
            ) && crate::position::position_value(
                final(self).positions@,
                owner,
                tick_lower,
                tick_upper,
            ) == spec_remove_position(*old(self), owner, tick_lower, tick_upper, liquidity_delta),
            r is Ok ==> forall|o: u64, l: i32, u: i32|
                !(o == owner && l == tick_lower && u == tick_upper)
                    ==> #[trigger] crate::position::position_value(final(self).positions@, o, l, u)
                    == crate::position::position_value(old(self).positions@, o, l, u) && (
                crate::position::has_position(final(self).positions@, o, l, u)
                    <==> crate::position::has_position(old(self).positions@, o, l, u)),
    {
        let plan = match self.remove_prepare(owner, tick_lower, tick_upper, liquidity_delta) {
            Ok(v) => v,
            Err(e) => {
                return Err(e);
            },
        };
        let ghost p0 = *self;
        self.remove_apply(
            owner,
            tick_lower,
            tick_upper,
            plan.nlt,
            plan.nut,
            plan.npos,
            plan.pos_idx,
            plan.new_active,
        );
        proof {
            let cur = p0.current_tick as int;
            let lt = crate::tick::tick_value(p0.ticks@, tick_lower as int);
            let ut = crate::tick::tick_value(p0.ticks@, tick_upper as int);
            assert(crate::tick::net_contrib(plan.nlt, cur) - crate::tick::net_contrib(lt, cur)
                == if tick_lower <= cur {
                -(liquidity_delta as int)
            } else {
                0
            });
            assert(crate::tick::net_contrib(plan.nut, cur) - crate::tick::net_contrib(ut, cur)
                == if tick_upper <= cur {
                liquidity_delta as int
            } else {
                0
            });
            assert(self.liquidity == net_sum_upto(self.ticks@, cur));
            lemma_change_commit_wf(p0, *self, tick_lower, tick_upper, plan.nlt, plan.nut);
        }
        Ok((plan.amount_a, plan.amount_b))
    }

    /// Validates a liquidity removal and computes everything the commit
    /// will write, touching nothing.
    #[verifier::rlimit(100)]
    #[verifier::spinoff_prover]
    fn remove_prepare(
        &self,
        owner: u64,
        tick_lower: i32,
        tick_upper: i32,
        liquidity_delta: u128,
    ) -> (r: Result<ChangePlan, CustomError>)
        requires
            self.wf(),
        ensures
            r is Ok <==> spec_remove_ok(*self, owner, tick_lower, tick_upper, liquidity_delta),
            r is Err ==> r->Err_0 == spec_remove_err(
                *self,
                owner,
                tick_lower,
                tick_upper,
                liquidity_delta,
            ),
            r is Ok ==> ({
                let plan = r->Ok_0;
                &&& plan.amount_a == spec_amount_a_for(
                    self.current_tick as int,
                    self.sqrt_price_x64,
                    tick_lower as int,
                    tick_upper as int,
                    liquidity_delta,
                )
                &&& plan.amount_b == spec_amount_b_for(
                    self.current_tick as int,
                    self.sqrt_price_x64,
                    tick_lower as int,
                    tick_upper as int,
                    liquidity_delta,
                )
                &&& plan.nlt == spec_remove_lower_tick(*self, tick_lower, liquidity_delta)
                &&& plan.nut == spec_remove_upper_tick(*self, tick_upper, liquidity_delta)
                &&& plan.npos == spec_remove_position(
                    *self,
                    owner,
                    tick_lower,
                    tick_upper,
                    liquidity_delta,
                )
                &&& plan.new_active == self.liquidity - (if spec_in_range(
                    self.current_tick as int,
                    tick_lower as int,
                    tick_upper as int,
                ) {
                    liquidity_delta as int
                } else {
                    0
                })
                &&& spec_valid_range(self.tick_spacing, tick_lower as int, tick_upper as int)
                &&& match plan.pos_idx {
                    Some(k) => k < self.positions@.len() && crate::position::position_keyed(
                        self.positions@[k as int],
                        owner,
                        tick_lower,
                        tick_upper,
                    ),
                    None => false,
                }
            }),
    {
        if liquidity_delta == 0 {
            return Err(CustomError::ZeroLiquidity);
        }
        let pos_idx = crate::position::find_position(&self.positions, owner, tick_lower, tick_upper);
        let pos0: Position = match pos_idx {
            Some(k) => {
                proof {
                    crate::position::lemma_position_value_at(self.positions@, k as int);
                }
                self.positions[k]
            },
            None => {
                return Err(CustomError::InvalidLiquidityAmount);
            },
        };
        if liquidity_delta > pos0.liquidity {
            return Err(CustomError::InvalidLiquidityAmount);
        }
        let (amount_a_u, amount_b_u) = match amounts_for_liquidity(
            self.current_tick,
            self.sqrt_price_x64,
            tick_lower,
            tick_upper,
            liquidity_delta,
        ) {
            Ok(v) => v,
            Err(e) => {
                return Err(e);
            },
        };
        if amount_a_u > u64::MAX as u128 || amount_b_u > u64::MAX as u128 {
            return Err(CustomError::Overflow);
        }
        let amount_a = amount_a_u as u64;
        let amount_b = amount_b_u as u64;
        let lt: Tick = match crate::tick::find_tick(&self.ticks, tick_lower) {
            Some(k) => {
                proof {
                    crate::tick::lemma_tick_value_at(self.ticks@, k as int);
                }
                self.ticks[k]
            },
            None => {
                return Err(CustomError::TickNotFound);
            },
        };
        let ut: Tick = match crate::tick::find_tick(&self.ticks, tick_upper) {
            Some(k) => {
                proof {
                    crate::tick::lemma_tick_value_at(self.ticks@, k as int);
                }
                self.ticks[k]
            },
            None => {
                return Err(CustomError::TickNotFound);
            },
        };
        proof {
            assert(lt == crate::tick::tick_value(self.ticks@, tick_lower as int));
            assert(ut == crate::tick::tick_value(self.ticks@, tick_upper as int));
        }
        let (ia, ib) = match fee_growth_inside(
            self.fee_growth_global_a,
            self.fee_growth_global_b,
            &lt,
            &ut,
            self.current_tick,
        ) {
            Ok(v) => v,
            Err(e) => {
                return Err(e);
            },
        };
        let (new_owed_a, new_owed_b) = match settle_owed(&pos0, ia, ib) {
            Ok(v) => v,
            Err(e) => {
                return Err(e);
            },
        };
        if liquidity_delta > (i128::MAX as u128) {
            return Err(CustomError::Overflow);
        }
        let delta_i = liquidity_delta as i128;
        let new_lnet = match lt.liquidity_net.checked_sub(delta_i) {
            Some(v) => v,
            None => {
                return Err(CustomError::Overflow);
            },
        };
        let new_unet = match ut.liquidity_net.checked_add(delta_i) {
            Some(v) => v,
            None => {
                return Err(CustomError::Overflow);
            },
        };
        let new_lgross = match lt.liquidity_gross.checked_sub(liquidity_delta) {
            Some(v) => v,
            None => {
                return Err(CustomError::Overflow);
            },
        };
        let new_ugross = match ut.liquidity_gross.checked_sub(liquidity_delta) {
            Some(v) => v,
            None => {
                return Err(CustomError::Overflow);
            },
        };
        let in_range = tick_lower <= self.current_tick && self.current_tick < tick_upper;
        let new_active = if in_range {
            match self.liquidity.checked_sub(liquidity_delta) {
                Some(v) => v,
                None => {
                    return Err(CustomError::Overflow);
                },
            }
        } else {
            self.liquidity
        };
        let nlt = Tick {
            tick_index: tick_lower,
            liquidity_net: new_lnet,
            liquidity_gross: new_lgross,
            fee_growth_outside_a: lt.fee_growth_outside_a,
            fee_growth_outside_b: lt.fee_growth_outside_b,
        };
        let nut = Tick {
            tick_index: tick_upper,
            liquidity_net: new_unet,
            liquidity_gross: new_ugross,
            fee_growth_outside_a: ut.fee_growth_outside_a,
            fee_growth_outside_b: ut.fee_growth_outside_b,
        };
        let npos = Position {
            owner,
            tick_lower,
            tick_upper,
            liquidity: pos0.liquidity - liquidity_delta,
            fee_growth_checkpoint_a: ia,
            fee_growth_checkpoint_b: ib,
            tokens_owed_a: new_owed_a,
            tokens_owed_b: new_owed_b,
        };
        proof {
            assert(ia == spec_inside_a(*self, tick_lower, tick_upper));
            assert(ib == spec_inside_b(*self, tick_lower, tick_upper));
        }
        Ok(
            ChangePlan {
                amount_a,
                amount_b,
                nlt,
                nut,
                npos,
                pos_idx,
                new_active,
            },
        )
    }

    /// Pays out the fees a position has accrued: returns the owed amounts
    /// and zeroes them.  Never touches liquidity, ticks, or the price; a
    /// key that names no position yields `(0, 0)` and changes nothing.
    pub fn collect_fees(&mut self, owner: u64, tick_lower: i32, tick_upper: i32) -> (r: (u64, u64))
        requires
            old(self).wf(),
        ensures
            final(self).wf(),
            spec_same_config(*old(self), *final(self)),
            r.0 == crate::position::position_value(
                old(self).positions@,
                owner,
                tick_lower,
                tick_upper,
            ).tokens_owed_a,
            r.1 == crate::position::position_value(
                old(self).positions@,
                owner,
                tick_lower,
                tick_upper,
            ).tokens_owed_b,
            final(self).ticks@ == old(self).ticks@,
            final(self).sqrt_price_x64 == old(self).sqrt_price_x64,
            final(self).current_tick == old(self).current_tick,
            final(self).liquidity == old(self).liquidity,
            final(self).fee_growth_global_a == old(self).fee_growth_global_a,
            final(self).fee_growth_global_b == old(self).fee_growth_global_b,
            crate::position::position_value(final(self).positions@, owner, tick_lower, tick_upper)
                == (Position {
                tokens_owed_a: 0,
                tokens_owed_b: 0,
                ..crate::position::position_value(
                    old(self).positions@,
                    owner,
                    tick_lower,
                    tick_upper,
                )
            }),
            forall|o: u64, l: i32, u: i32|
                !(o == owner && l == tick_lower && u == tick_upper)
                    ==> #[trigger] crate::position::position_value(final(self).positions@, o, l, u)
                    == crate::position::position_value(old(self).positions@, o, l, u),
            forall|o: u64, l: i32, u: i32|
                #[trigger] crate::position::has_position(final(self).positions@, o, l, u)
                    <==> crate::position::has_position(old(self).positions@, o, l, u),
    {
        let pos_idx = crate::position::find_position(&self.positions, owner, tick_lower, tick_upper);
        match pos_idx {
            Some(k) => {
                proof {
                    crate::position::lemma_position_value_at(self.positions@, k as int);
                }
                let pos0 = self.positions[k];
                let npos = Position {
                    tokens_owed_a: 0,
                    tokens_owed_b: 0,
                    ..pos0
                };
                let ghost ps0 = self.positions@;
                self.positions[k] = npos;
                proof {
                    crate::position::lemma_position_value_update(ps0, k as int, npos);
                    assert forall|k2: int| 0 <= k2 < self.positions@.len() implies spec_valid_range(
                        self.tick_spacing,
                        (#[trigger] self.positions@[k2]).tick_lower as int,
                        self.positions@[k2].tick_upper as int,
                    ) by {
                        if k2 != k {
                            assert(self.positions@[k2] == ps0[k2]);
                        }
                    }
                    assert forall|o: u64, l: i32, u: i32| #[trigger] crate::position::has_position(
                        self.positions@,
                        o,
                        l,
                        u,
                    ) <==> crate::position::has_position(ps0, o, l, u) by {
                        if !(o == owner && l == tick_lower && u == tick_upper) {
                            assert(crate::position::position_value(self.positions@, o, l, u)
                                == crate::position::position_value(ps0, o, l, u));
                        }
                    }
                }
                (pos0.tokens_owed_a, pos0.tokens_owed_b)
            },
            None => (0, 0),
        }
    }

    /// Deletes the position keyed `(owner, tick_lower, tick_upper)`.  Fails
    /// with `PositionStillHasLiquidity` while the position holds liquidity
    /// or uncollected fees; a key that names no position is already closed.
    pub fn close_position(&mut self, owner: u64, tick_lower: i32, tick_upper: i32) -> (r: Result<
        (),
        CustomError,
    >)
        requires
            old(self).wf(),
        ensures
            final(self).wf(),
            spec_same_config(*old(self), *final(self)),
            r is Ok <==> ({
                let pos0 = crate::position::position_value(
                    old(self).positions@,
                    owner,
                    tick_lower,
                    tick_upper,
                );
                pos0.liquidity == 0 && pos0.tokens_owed_a == 0 && pos0.tokens_owed_b == 0
            }),
            r is Err ==> *final(self) == *old(self) && r->Err_0
                == CustomError::PositionStillHasLiquidity,
            final(self).ticks@ == old(self).ticks@,
            final(self).sqrt_price_x64 == old(self).sqrt_price_x64,
            final(self).current_tick == old(self).current_tick,
            final(self).liquidity == old(self).liquidity,
            final(self).fee_growth_global_a == old(self).fee_growth_global_a,
            final(self).fee_growth_global_b == old(self).fee_growth_global_b,
            r is Ok ==> !crate::position::has_position(
                final(self).positions@,
                owner,
                tick_lower,
                tick_upper,
            ),
            r is Ok ==> forall|o: u64, l: i32, u: i32|
                !(o == owner && l == tick_lower && u == tick_upper)
                    ==> #[trigger] crate::position::position_value(final(self).positions@, o, l, u)
                    == crate::position::position_value(old(self).positions@, o, l, u) && (
                crate::position::has_position(final(self).positions@, o, l, u)
                    <==> crate::position::has_position(old(self).positions@, o, l, u)),
    {
        let pos_idx = crate::position::find_position(&self.positions, owner, tick_lower, tick_upper);
        match pos_idx {
            Some(k) => {
                proof {
                    crate::position::lemma_position_value_at(self.positions@, k as int);
                }
                let pos0 = self.positions[k];
                if !(pos0.liquidity == 0 && pos0.tokens_owed_a == 0 && pos0.tokens_owed_b == 0) {
                    return Err(CustomError::PositionStillHasLiquidity);
                }
                let ghost ps0 = self.positions@;
                self.positions.remove(k);
                proof {
                    crate::position::lemma_position_value_remove(ps0, k as int);
                    assert forall|k2: int| 0 <= k2 < self.positions@.len() implies spec_valid_range(
                        self.tick_spacing,
                        (#[trigger] self.positions@[k2]).tick_lower as int,
                        self.positions@[k2].tick_upper as int,
                    ) by {
                        if k2 < k {
                            assert(self.positions@[k2] == ps0[k2]);
                        } else {
                            assert(self.positions@[k2] == ps0[k2 + 1]);
                        }
                    }
                }
                Ok(())
            },
            None => Ok(()),
        }
    }

    /// Commits one already-validated liquidity change: writes the two
    /// boundary tick records, the position record, and the new active
    /// liquidity.  Infallible; all feasibility checks happen before.
    fn apply_change(
        &mut self,
        owner: u64,
        tick_lower: i32,
        tick_upper: i32,
        nlt: Tick,
        nut: Tick,
        npos: Position,
        pos_idx: Option<usize>,
        new_active: u128,
    )
        requires
            ticks_sorted(old(self).ticks@),
            positions_unique(old(self).positions@),
            tick_lower < tick_upper,
            nlt.tick_index == tick_lower,
            nut.tick_index == tick_upper,
            npos.owner == owner && npos.tick_lower == tick_lower && npos.tick_upper == tick_upper,
            match pos_idx {
                Some(k) => k < old(self).positions@.len() && crate::position::position_keyed(
                    old(self).positions@[k as int],
                    owner,
                    tick_lower,
                    tick_upper,
                ),
                None => !crate::position::has_position(
                    old(self).positions@,
                    owner,
                    tick_lower,
                    tick_upper,
                ),
            },
        ensures
            ticks_sorted(final(self).ticks@),
            crate::tick::tick_value(final(self).ticks@, tick_lower as int) == nlt,
            crate::tick::tick_value(final(self).ticks@, tick_upper as int) == nut,
            forall|i: int|
                i != tick_lower && i != tick_upper ==> #[trigger] crate::tick::tick_value(
                    final(self).ticks@,
                    i,
                ) == crate::tick::tick_value(old(self).ticks@, i),
            forall|i: int|
                #[trigger] crate::tick::has_tick(final(self).ticks@, i) <==> crate::tick::has_tick(
                    old(self).ticks@,
                    i,
                ) || i == tick_lower || i == tick_upper,
            forall|t: int|
                #[trigger] net_sum_upto(final(self).ticks@, t) == net_sum_upto(old(self).ticks@, t)
                    + crate::tick::net_contrib(nlt, t) - crate::tick::net_contrib(
                    crate::tick::tick_value(old(self).ticks@, tick_lower as int),
                    t,
                ) + crate::tick::net_contrib(nut, t) - crate::tick::net_contrib(
                    crate::tick::tick_value(old(self).ticks@, tick_upper as int),
                    t,
                ),
            positions_unique(final(self).positions@),
            crate::position::has_position(final(self).positions@, owner, tick_lower, tick_upper),
            crate::position::position_value(final(self).positions@, owner, tick_lower, tick_upper)
                == npos,
            forall|o: u64, l: i32, u: i32|
                !(o == owner && l == tick_lower && u == tick_upper)
                    ==> #[trigger] crate::position::position_value(final(self).positions@, o, l, u)
                    == crate::position::position_value(old(self).positions@, o, l, u) && (
                crate::position::has_position(final(self).positions@, o, l, u)
                    <==> crate::position::has_position(old(self).positions@, o, l, u)),
            forall|k: int|
                0 <= k < final(self).positions@.len() ==> final(self).positions@[k] == npos || (
                exists|j: int|
                    0 <= j < old(self).positions@.len() && final(self).positions@[k] == old(
                        self,
                    ).positions@[j]),
            final(self).liquidity == new_active,
            final(self).sqrt_price_x64 == old(self).sqrt_price_x64,
            final(self).current_tick == old(self).current_tick,
            final(self).fee_growth_global_a == old(self).fee_growth_global_a,
            final(self).fee_growth_global_b == old(self).fee_growth_global_b,
            spec_same_config(*old(self), *final(self)),
    {
        crate::tick::apply_tick_deltas(&mut self.ticks, tick_lower, tick_upper, nlt, nut);
        let ghost ps0 = self.positions@;
        match pos_idx {
            Some(k) => {
                self.positions[k] = npos;
                proof {
                    crate::position::lemma_position_value_update(ps0, k as int, npos);
                    assert forall|k2: int| 0 <= k2 < self.positions@.len() implies
                        self.positions@[k2] == npos || (exists|j: int|
                        0 <= j < ps0.len() && self.positions@[k2] == ps0[j]) by {
                        if k2 != k {
                            assert(self.positions@[k2] == ps0[k2]);
                        }
                    }
                }
            },
            None => {
                self.positions.push(npos);
                proof {
                    crate::position::lemma_position_value_push(ps0, npos);
                    assert forall|k2: int| 0 <= k2 < self.positions@.len() implies
                        self.positions@[k2] == npos || (exists|j: int|
                        0 <= j < ps0.len() && self.positions@[k2] == ps0[j]) by {
                        if k2 < ps0.len() {
                            assert(self.positions@[k2] == ps0[k2]);
                        }
                    }
                }
            },
        }
        self.liquidity = new_active;
    }

    /// Commits one already-validated liquidity removal: writes the records
    /// as `apply_change` does, then prunes either boundary tick that no
    /// position references any more.
    fn remove_apply(
        &mut self,
        owner: u64,
        tick_lower: i32,
        tick_upper: i32,
        nlt: Tick,
        nut: Tick,
        npos: Position,
        pos_idx: Option<usize>,
        new_active: u128,
    )
        requires
            ticks_sorted(old(self).ticks@),
            positions_unique(old(self).positions@),
            tick_lower < tick_upper,
            nlt.tick_index == tick_lower,
            nut.tick_index == tick_upper,
            npos.owner == owner && npos.tick_lower == tick_lower && npos.tick_upper == tick_upper,
            match pos_idx {
                Some(k) => k < old(self).positions@.len() && crate::position::position_keyed(
                    old(self).positions@[k as int],
                    owner,
                    tick_lower,
                    tick_upper,
                ),
                None => !crate::position::has_position(
                    old(self).positions@,
                    owner,
                    tick_lower,
                    tick_upper,
                ),
            },
        ensures
            ticks_sorted(final(self).ticks@),
            crate::tick::has_tick(final(self).ticks@, tick_lower as int) <==> !spec_pruned(nlt),
            crate::tick::has_tick(final(self).ticks@, tick_upper as int) <==> !spec_pruned(nut),
            !spec_pruned(nlt) ==> crate::tick::tick_value(final(self).ticks@, tick_lower as int)
                == nlt,
            !spec_pruned(nut) ==> crate::tick::tick_value(final(self).ticks@, tick_upper as int)
                == nut,
            forall|i: int|
                i != tick_lower && i != tick_upper ==> #[trigger] crate::tick::tick_value(
                    final(self).ticks@,
                    i,
                ) == crate::tick::tick_value(old(self).ticks@, i),
            forall|i: int|
                i != tick_lower && i != tick_upper ==> (#[trigger] crate::tick::has_tick(
                    final(self).ticks@,
                    i,
                ) <==> crate::tick::has_tick(old(self).ticks@, i)),
            forall|t: int|
                #[trigger] net_sum_upto(final(self).ticks@, t) == net_sum_upto(old(self).ticks@, t)
                    + crate::tick::net_contrib(nlt, t) - crate::tick::net_contrib(
                    crate::tick::tick_value(old(self).ticks@, tick_lower as int),
                    t,
                ) + crate::tick::net_contrib(nut, t) - crate::tick::net_contrib(
                    crate::tick::tick_value(old(self).ticks@, tick_upper as int),
                    t,
                ),
            positions_unique(final(self).positions@),
            crate::position::has_position(final(self).positions@, owner, tick_lower, tick_upper),
            crate::position::position_value(final(self).positions@, owner, tick_lower, tick_upper)
                == npos,
            forall|o: u64, l: i32, u: i32|
                !(o == owner && l == tick_lower && u == tick_upper)
                    ==> #[trigger] crate::position::position_value(final(self).positions@, o, l, u)
                    == crate::position::position_value(old(self).positions@, o, l, u) && (
                crate::position::has_position(final(self).positions@, o, l, u)
                    <==> crate::position::has_position(old(self).positions@, o, l, u)),
            forall|k: int|
                0 <= k < final(self).positions@.len() ==> final(self).positions@[k] == npos || (
                exists|j: int|
                    0 <= j < old(self).positions@.len() && final(self).positions@[k] == old(
                        self,
                    ).positions@[j]),
            final(self).liquidity == new_active,
            final(self).sqrt_price_x64 == old(self).sqrt_price_x64,
            final(self).current_tick == old(self).current_tick,
            final(self).fee_growth_global_a == old(self).fee_growth_global_a,
            final(self).fee_growth_global_b == old(self).fee_growth_global_b,
            spec_same_config(*old(self), *final(self)),
    {
        let ghost p0 = *self;
        self.apply_change(owner, tick_lower, tick_upper, nlt, nut, npos, pos_idx, new_active);
        if nlt.liquidity_gross == 0 && nlt.liquidity_net == 0 {
            let ghost sa = self.ticks@;
            match crate::tick::find_tick(&self.ticks, tick_lower) {
                Some(k) => {
                    proof {
                        crate::tick::lemma_tick_value_at(sa, k as int);
                    }
                    crate::tick::prune_tick(&mut self.ticks, k);
                    proof {
                        crate::tick::lemma_tick_value_remove(sa, k as int);
                        assert forall|t: int| #[trigger] net_sum_upto(self.ticks@, t)
                            == net_sum_upto(sa, t) by {
                            crate::tick::lemma_net_sum_upto_remove(sa, k as int, t);
                        }
                    }
                },
                None => {
                    proof {
                        assert(false);
                    }
                },
            }
        }
        if nut.liquidity_gross == 0 && nut.liquidity_net == 0 {
            let ghost sb = self.ticks@;
            match crate::tick::find_tick(&self.ticks, tick_upper) {
                Some(k) => {
                    proof {
                        crate::tick::lemma_tick_value_at(sb, k as int);
                    }
                    crate::tick::prune_tick(&mut self.ticks, k);
                    proof {
                        crate::tick::lemma_tick_value_remove(sb, k as int);
                        assert forall|t: int| #[trigger] net_sum_upto(self.ticks@, t)
                            == net_sum_upto(sb, t) by {
                            crate::tick::lemma_net_sum_upto_remove(sb, k as int, t);
                        }
                    }
                },
                None => {
                    proof {
                        assert(false);
                    }
                },
            }
        }
    }
}

/// After the commit phase of a liquidity change, the store is consistent
/// again: the registry stayed sorted and aligned, no outside snapshot
/// moved, and the active liquidity matches the new net sums.
proof fn lemma_change_commit_wf(
    p0: PoolClmm,
    p1: PoolClmm,
    tick_lower: i32,
    tick_upper: i32,
    nlt: Tick,
    nut: Tick,
)
    requires
        p0.wf(),
        spec_valid_range(p0.tick_spacing, tick_lower as int, tick_upper as int),
        nlt.tick_index == tick_lower,
        nut.tick_index == tick_upper,
        nlt.fee_growth_outside_a == crate::tick::tick_value(
            p0.ticks@,
            tick_lower as int,
        ).fee_growth_outside_a,
        nlt.fee_growth_outside_b == crate::tick::tick_value(
            p0.ticks@,
            tick_lower as int,
        ).fee_growth_outside_b,
        nut.fee_growth_outside_a == crate::tick::tick_value(
            p0.ticks@,
            tick_upper as int,
        ).fee_growth_outside_a,
        nut.fee_growth_outside_b == crate::tick::tick_value(
            p0.ticks@,
            tick_upper as int,
        ).fee_growth_outside_b,
        ticks_sorted(p1.ticks@),
        crate::tick::has_tick(p1.ticks@, tick_lower as int) ==> crate::tick::tick_value(
            p1.ticks@,
            tick_lower as int,
        ) == nlt,
        crate::tick::has_tick(p1.ticks@, tick_upper as int) ==> crate::tick::tick_value(
            p1.ticks@,
            tick_upper as int,
        ) == nut,
        forall|i: int|
            i != tick_lower && i != tick_upper ==> #[trigger] crate::tick::tick_value(p1.ticks@, i)
                == crate::tick::tick_value(p0.ticks@, i),
        forall|i: int|
            #[trigger] crate::tick::has_tick(p1.ticks@, i) ==> crate::tick::has_tick(p0.ticks@, i)
                || i == tick_lower || i == tick_upper,
        p1.liquidity == net_sum_upto(p1.ticks@, p0.current_tick as int),
        p1.current_tick == p0.current_tick,
        p1.sqrt_price_x64 == p0.sqrt_price_x64,
        p1.tick_spacing == p0.tick_spacing,
        p1.fee_growth_global_a == p0.fee_growth_global_a,
        p1.fee_growth_global_b == p0.fee_growth_global_b,
        positions_unique(p1.positions@),
        forall|k: int|
            0 <= k < p1.positions@.len() ==> spec_valid_range(
                p1.tick_spacing,
                (#[trigger] p1.positions@[k]).tick_lower as int,
                p1.positions@[k].tick_upper as int,
            ),
    ensures
        p1.wf(),
{
    assert forall|k: int| 0 <= k < p1.ticks@.len() implies (#[trigger] p1.ticks@[k]).tick_index
        >= MIN_TICK && p1.ticks@[k].tick_index <= MAX_TICK && spec_aligned(
        p1.tick_spacing,
        p1.ticks@[k].tick_index as int,
    ) && p1.ticks@[k].fee_growth_outside_a <= p1.fee_growth_global_a
        && p1.ticks@[k].fee_growth_outside_b <= p1.fee_growth_global_b by {
        crate::tick::lemma_tick_value_at(p1.ticks@, k);
        let idx = p1.ticks@[k].tick_index as int;
        if idx == tick_lower || idx == tick_upper {
            assert(p1.ticks@[k] == if idx == tick_lower {
                nlt
            } else {
                nut
            });
            let b = if idx == tick_lower {
                tick_lower
            } else {
                tick_upper
            };
            if crate::tick::has_tick(p0.ticks@, b as int) {
                let i0 = choose|i: int|
                    0 <= i < p0.ticks@.len() && p0.ticks@[i].tick_index == b;
                assert(crate::tick::tick_value(p0.ticks@, b as int) == p0.ticks@[i0]);
            }
        } else {
            assert(crate::tick::has_tick(p0.ticks@, idx));
            let i0 = choose|i: int| 0 <= i < p0.ticks@.len() && p0.ticks@[i].tick_index == idx;
            assert(crate::tick::tick_value(p0.ticks@, idx) == p0.ticks@[i0]);
            assert(p1.ticks@[k] == p0.ticks@[i0]);
        }
    }
}

/// Opens a pool for an ordered pair of assets at the given initial price.
/// Fails with `InvalidSpacing` when `tick_spacing` is zero, and with
/// `Overflow` when the initial square-root price lies outside the
/// representable tick range.
pub fn open_pool(
    token_a_mint: u64,
    token_b_mint: u64,
    vault_a: u64,
    vault_b: u64,
    sqrt_price_x64: u128,
    tick_spacing: u16,
    fee_rate: u16,
) -> (r: Result<PoolClmm, CustomError>)
    ensures
        r is Ok <==> tick_spacing != 0 && spec_sqrt_price_at_tick(MIN_TICK as int)
            <= sqrt_price_x64 && sqrt_price_x64 < spec_sqrt_price_at_tick(MAX_TICK as int + 1),
        tick_spacing == 0 ==> r is Err && r->Err_0 == CustomError::InvalidSpacing,
        r is Err && tick_spacing != 0 ==> r->Err_0 == CustomError::Overflow,
        r is Ok ==> ({
            let p = r->Ok_0;
            &&& p.wf()
            &&& p.token_a_mint == token_a_mint
            &&& p.token_b_mint == token_b_mint
            &&& p.vault_a == vault_a
            &&& p.vault_b == vault_b
            &&& p.sqrt_price_x64 == sqrt_price_x64
            &&& p.tick_spacing == tick_spacing
            &&& p.fee_rate == fee_rate
            &&& p.liquidity == 0
            &&& p.fee_growth_global_a == 0
            &&& p.fee_growth_global_b == 0
            &&& p.ticks@.len() == 0
            &&& p.positions@.len() == 0
        }),
{
    if tick_spacing == 0 {
        return Err(CustomError::InvalidSpacing);
    }
    if sqrt_price_x64 < crate::tick::sqrt_price_at_tick(MIN_TICK) || sqrt_price_x64
        >= crate::tick::sqrt_price_at_tick(MAX_TICK + 1) {
        return Err(CustomError::Overflow);
    }
    let current_tick = tick_at_sqrt_price(sqrt_price_x64);
    Ok(
        PoolClmm {
            token_a_mint,
            token_b_mint,
            vault_a,
            vault_b,
            sqrt_price_x64,
            current_tick,
            tick_spacing,
            liquidity: 0,
            fee_rate,
            fee_growth_global_a: 0,
            fee_growth_global_b: 0,
            ticks: Vec::new(),
            positions: Vec::new(),
        },
    )
}

/// Round trip: adding liquidity to a range and immediately removing the
/// same amount, with nothing in between, is owed success, returns exactly
/// the token amounts that were charged, and puts every tick record, the
/// registry's membership, and the active liquidity back where they were;
/// the position keeps its prior liquidity.  The one state left out is a
/// stored boundary record that no liquidity references (zero net and
/// gross): the removal prunes it, as the registry's lifecycle demands.
pub proof fn lemma_add_remove_round_trip(
    p0: PoolClmm,
    p1: PoolClmm,
    p2: PoolClmm,
    owner: u64,
    lower: i32,
    upper: i32,
    delta: u128,
    a_max: u64,
    b_max: u64,
)
    requires
        p0.wf(),
        spec_add_ok(p0, owner, lower, upper, delta, a_max, b_max),
        crate::tick::has_tick(p0.ticks@, lower as int) ==> !spec_pruned(
            crate::tick::tick_value(p0.ticks@, lower as int),
        ),
        crate::tick::has_tick(p0.ticks@, upper as int) ==> !spec_pruned(
            crate::tick::tick_value(p0.ticks@, upper as int),
        ),
        // `p1` is the state `add_liquidity`'s contract describes.
        p1.sqrt_price_x64 == p0.sqrt_price_x64,
        p1.current_tick == p0.current_tick,
        p1.fee_growth_global_a == p0.fee_growth_global_a,
        p1.fee_growth_global_b == p0.fee_growth_global_b,
        p1.tick_spacing == p0.tick_spacing,
        p1.liquidity == p0.liquidity + (if spec_in_range(
            p0.current_tick as int,
            lower as int,
            upper as int,
        ) {
            delta as int
        } else {
            0
        }),
        forall|i: int|
            #[trigger] crate::tick::has_tick(p1.ticks@, i) <==> crate::tick::has_tick(p0.ticks@, i)
                || i == lower || i == upper,
        crate::tick::tick_value(p1.ticks@, lower as int) == spec_add_lower_tick(p0, lower, delta),
        crate::tick::tick_value(p1.ticks@, upper as int) == spec_add_upper_tick(p0, upper, delta),
        forall|i: int|
            i != lower && i != upper ==> #[trigger] crate::tick::tick_value(p1.ticks@, i)
                == crate::tick::tick_value(p0.ticks@, i),
        crate::position::has_position(p1.positions@, owner, lower, upper),
        crate::position::position_value(p1.positions@, owner, lower, upper) == spec_add_position(
            p0,
            owner,
            lower,
            upper,
            delta,
        ),
        // `p2` is the state `remove_liquidity`'s contract describes from `p1`.
        p2.sqrt_price_x64 == p1.sqrt_price_x64,
        p2.current_tick == p1.current_tick,
        p2.fee_growth_global_a == p1.fee_growth_global_a,
        p2.fee_growth_global_b == p1.fee_growth_global_b,
        p2.liquidity == p1.liquidity - (if spec_in_range(
            p1.current_tick as int,
            lower as int,
            upper as int,
        ) {
            delta as int
        } else {
            0
        }),
        crate::tick::has_tick(p2.ticks@, lower as int) <==> !spec_pruned(
            spec_remove_lower_tick(p1, lower, delta),
        ),
        crate::tick::has_tick(p2.ticks@, upper as int) <==> !spec_pruned(
            spec_remove_upper_tick(p1, upper, delta),
        ),
        !spec_pruned(spec_remove_lower_tick(p1, lower, delta)) ==> crate::tick::tick_value(
            p2.ticks@,
            lower as int,
        ) == spec_remove_lower_tick(p1, lower, delta),
        !spec_pruned(spec_remove_upper_tick(p1, upper, delta)) ==> crate::tick::tick_value(
            p2.ticks@,
            upper as int,
        ) == spec_remove_upper_tick(p1, upper, delta),
        forall|i: int|
            i != lower && i != upper ==> #[trigger] crate::tick::tick_value(p2.ticks@, i)
                == crate::tick::tick_value(p1.ticks@, i),
        forall|i: int|
            i != lower && i != upper ==> (#[trigger] crate::tick::has_tick(p2.ticks@, i)
                <==> crate::tick::has_tick(p1.ticks@, i)),
        crate::position::has_position(p2.positions@, owner, lower, upper),
        crate::position::position_value(p2.positions@, owner, lower, upper)
            == spec_remove_position(p1, owner, lower, upper, delta),
    ensures
        // the removal is owed success,
        spec_remove_ok(p1, owner, lower, upper, delta),
        // it returns exactly the amounts the add charged,
        spec_amount_a_for(p1.current_tick as int, p1.sqrt_price_x64, lower as int, upper as int, delta)
            == spec_amount_a_for(p0.current_tick as int, p0.sqrt_price_x64, lower as int, upper as int, delta),
        spec_amount_b_for(p1.current_tick as int, p1.sqrt_price_x64, lower as int, upper as int, delta)
            == spec_amount_b_for(p0.current_tick as int, p0.sqrt_price_x64, lower as int, upper as int, delta),
        // and the tick and active-liquidity state is back where it was,
        p2.liquidity == p0.liquidity,
        p2.sqrt_price_x64 == p0.sqrt_price_x64,
        p2.current_tick == p0.current_tick,
        p2.fee_growth_global_a == p0.fee_growth_global_a,
        p2.fee_growth_global_b == p0.fee_growth_global_b,
        forall|i: int|
            #[trigger] crate::tick::has_tick(p2.ticks@, i) <==> crate::tick::has_tick(
                p0.ticks@,
                i,
            ),
        forall|i: int|
            #[trigger] crate::tick::tick_value(p2.ticks@, i) == crate::tick::tick_value(
                p0.ticks@,
                i,
            ),
        // with the position's liquidity restored.
        crate::position::position_value(p2.positions@, owner, lower, upper).liquidity
            == crate::position::position_value(p0.positions@, owner, lower, upper).liquidity,
{
    let lt0 = crate::tick::tick_value(p0.ticks@, lower as int);
    let ut0 = crate::tick::tick_value(p0.ticks@, upper as int);
    let lt1 = crate::tick::tick_value(p1.ticks@, lower as int);
    let ut1 = crate::tick::tick_value(p1.ticks@, upper as int);
    let pos0 = crate::position::position_value(p0.positions@, owner, lower, upper);
    let pos1 = crate::position::position_value(p1.positions@, owner, lower, upper);
    assert(lt0.tick_index == lower && ut0.tick_index == upper);
    assert(spec_inside_a(p1, lower, upper) == spec_inside_a(p0, lower, upper));
    assert(spec_inside_b(p1, lower, upper) == spec_inside_b(p0, lower, upper));
    assert(spec_remove_ok(p1, owner, lower, upper, delta)) by {
        let ia = spec_inside_a(p1, lower, upper);
        let ib = spec_inside_b(p1, lower, upper);
        assert(pos1.fee_growth_checkpoint_a == ia && pos1.fee_growth_checkpoint_b == ib);
        assert(spec_owed_delta(pos1.fee_growth_checkpoint_a, ia as u128, pos1.liquidity) == 0)
            by {
            assert((ia as u128 - pos1.fee_growth_checkpoint_a) * pos1.liquidity == 0)
                by (nonlinear_arith)
                requires
                    ia as u128 == pos1.fee_growth_checkpoint_a,
            ;
        }
        assert(spec_owed_delta(pos1.fee_growth_checkpoint_b, ib as u128, pos1.liquidity) == 0)
            by {
            assert((ib as u128 - pos1.fee_growth_checkpoint_b) * pos1.liquidity == 0)
                by (nonlinear_arith)
                requires
                    ib as u128 == pos1.fee_growth_checkpoint_b,
            ;
        }
        assert(spec_settle_ok(pos1, ia as u128, ib as u128));
    }
    assert(spec_remove_lower_tick(p1, lower, delta) == lt0);
    assert(spec_remove_upper_tick(p1, upper, delta) == ut0);
    assert forall|i: int| #[trigger] crate::tick::has_tick(p2.ticks@, i)
        <==> crate::tick::has_tick(p0.ticks@, i) by {
        if i == lower {
            assert(crate::tick::has_tick(p2.ticks@, i) <==> !spec_pruned(lt0));
            if !crate::tick::has_tick(p0.ticks@, lower as int) {
                assert(lt0 == crate::tick::spec_zero_tick(lower));
            }
        } else if i == upper {
            if !crate::tick::has_tick(p0.ticks@, upper as int) {
                assert(ut0 == crate::tick::spec_zero_tick(upper));
            }
        } else {
            assert(crate::tick::has_tick(p2.ticks@, i) <==> crate::tick::has_tick(p1.ticks@, i));
        }
    }
    assert forall|i: int| #[trigger] crate::tick::tick_value(p2.ticks@, i)
        == crate::tick::tick_value(p0.ticks@, i) by {
        if i == lower {
            if spec_pruned(lt0) {
                assert(!crate::tick::has_tick(p2.ticks@, i));
                assert(!crate::tick::has_tick(p0.ticks@, i));
            }
        } else if i == upper {
            if spec_pruned(ut0) {
                assert(!crate::tick::has_tick(p2.ticks@, i));
                assert(!crate::tick::has_tick(p0.ticks@, i));
            }
        } else {
            assert(crate::tick::tick_value(p2.ticks@, i) == crate::tick::tick_value(p1.ticks@, i));
        }
    }
}

} // verus!
