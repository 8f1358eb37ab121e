use vstd::prelude::*;

use crate::errors::CustomError;
use crate::fixed::{mul_div, shift_div, Q64};
use crate::tick::{
    has_tick, net_sum_upto, tick_value, ticks_sorted, Tick,
};

verus! {

/// Which asset a swap pays in.  Selling A moves the price down; selling B
/// moves it up.
#[derive(Clone, Copy, Debug, PartialEq, Eq, Structural)]
pub enum SwapDirection {
    AToB,
    BToA,
}

/// What a swap settles: the input actually consumed (at most the amount
/// offered; less when the pool runs out of initialized ticks) and the
/// output produced.
#[derive(Clone, Copy, Debug, PartialEq, Eq, Structural)]
pub struct SwapOutcome {
    pub amount_in_spent: u64,
    pub amount_out: u64,
}

/// One boundary crossing recorded while a swap is simulated: which tick
/// was crossed and the global fee accumulators at that moment.  The
/// commit flips the tick's outside snapshots against exactly these values.
#[derive(Clone, Copy, Debug, PartialEq, Eq, Structural)]
pub struct Crossing {
    pub tick_index: i32,
    pub global_a: u128,
    pub global_b: u128,
}

/// The active liquidity after crossing a tick: entering from above takes
/// the tick's net out, entering from below puts it in.
pub fn cross_liquidity(liq: u128, net: i128, downward: bool) -> (r: Result<u128, CustomError>)
    ensures
        downward ==> (r is Ok <==> 0 <= liq - net <= u128::MAX),
        downward ==> r is Ok ==> r->Ok_0 == liq - net,
        !downward ==> (r is Ok <==> 0 <= liq + net <= u128::MAX),
        !downward ==> r is Ok ==> r->Ok_0 == liq + net,
        r is Err ==> r->Err_0 == CustomError::Overflow,
{
    let negative_magnitude: u128 = if net == i128::MIN {
        0x8000_0000_0000_0000_0000_0000_0000_0000u128
    } else if net < 0 {
        (-net) as u128
    } else {
        0
    };
    let result = if downward {
        if net >= 0 {
            liq.checked_sub(net as u128)
        } else {
            liq.checked_add(negative_magnitude)
        }
    } else {
        if net >= 0 {
            liq.checked_add(net as u128)
        } else {
            liq.checked_sub(negative_magnitude)
        }
    };
    match result {
        Some(v) => Ok(v),
        None => Err(CustomError::Overflow),
    }
}

/// The square-root price after selling `net_in` of asset A against
/// liquidity `liq` at price `sqrtp`, floor-rounded:
/// `liq * sqrtp / (liq + net_in * sqrtp / 2^64)`.
pub open spec fn spec_price_after_a(liq: u128, sqrtp: u128, net_in: u128) -> int {
    liq * sqrtp / (liq + net_in * sqrtp / (Q64 as int))
}

/// Whether `spec_price_after_a` stays within the accumulator width.
pub open spec fn spec_price_after_a_ok(liq: u128, sqrtp: u128, net_in: u128) -> bool {
    &&& net_in * sqrtp <= u128::MAX
    &&& liq + net_in * sqrtp / (Q64 as int) <= u128::MAX
    &&& liq * sqrtp <= u128::MAX
}

/// The price an A-for-B step ends at when `net_in` of asset A, fee already
/// taken, is applied to liquidity `liq`.
pub fn price_after_a(liq: u128, sqrtp: u128, net_in: u128) -> (r: Result<u128, CustomError>)
    requires
        liq > 0,
    ensures
        r is Ok <==> spec_price_after_a_ok(liq, sqrtp, net_in),
        r is Ok ==> r->Ok_0 == spec_price_after_a(liq, sqrtp, net_in),
        r is Ok ==> r->Ok_0 <= sqrtp,
        r is Err ==> r->Err_0 == CustomError::Overflow,
{
    let part = match mul_div(net_in, sqrtp, Q64) {
        Ok(v) => v,
        Err(e) => {
            return Err(e);
        },
    };
    let denom = match liq.checked_add(part) {
        Some(v) => v,
        None => {
            return Err(CustomError::Overflow);
        },
    };
    let r = match mul_div(liq, sqrtp, denom) {
        Ok(v) => v,
        Err(e) => {
            return Err(e);
        },
    };
    proof {
        assert(liq * sqrtp / (denom as int) <= liq * sqrtp / (liq as int)) by (nonlinear_arith)
            requires
                0 < liq <= denom,
        ;
        assert(liq * sqrtp / (liq as int) == sqrtp) by (nonlinear_arith)
            requires
                liq > 0,
        ;
    }
    Ok(r)
}

/// The square-root price after selling `net_in` of asset B against
/// liquidity `liq` at price `sqrtp`, floor-rounded:
/// `sqrtp + net_in * 2^64 / liq`.
pub open spec fn spec_price_after_b(liq: u128, sqrtp: u128, net_in: u128) -> int {
    sqrtp + net_in * (Q64 as int) / (liq as int)
}

/// Whether `spec_price_after_b` stays within the accumulator width.
pub open spec fn spec_price_after_b_ok(liq: u128, sqrtp: u128, net_in: u128) -> bool {
    net_in * Q64 <= u128::MAX && sqrtp + net_in * (Q64 as int) / (liq as int) <= u128::MAX
}

/// The price a B-for-A step ends at when `net_in` of asset B, fee already
/// taken, is applied to liquidity `liq`.
pub fn price_after_b(liq: u128, sqrtp: u128, net_in: u128) -> (r: Result<u128, CustomError>)
    requires
        liq > 0,
    ensures
        r is Ok <==> spec_price_after_b_ok(liq, sqrtp, net_in),
        r is Ok ==> r->Ok_0 == spec_price_after_b(liq, sqrtp, net_in),
        r is Ok ==> r->Ok_0 >= sqrtp,
        r is Err ==> r->Err_0 == CustomError::Overflow,
{
    proof {
        vstd::arithmetic::power2::lemma2_to64();
    }
    let part = match shift_div(net_in, 64, liq) {
        Ok(v) => v,
        Err(e) => {
            return Err(e);
        },
    };
    match sqrtp.checked_add(part) {
        Some(v) => Ok(v),
        None => Err(CustomError::Overflow),
    }
}

/// A boundary record after a crossing: the outside snapshots flip to
/// `global - outside`, reflecting that the far side of the tick changed;
/// liquidity bookkeeping is untouched.
pub open spec fn spec_flip_tick(v: Tick, ga: u128, gb: u128) -> Tick {
    Tick {
        fee_growth_outside_a: (ga - v.fee_growth_outside_a) as u128,
        fee_growth_outside_b: (gb - v.fee_growth_outside_b) as u128,
        ..v
    }
}

/// Whether some recorded crossing names tick `i`.
pub open spec fn spec_crossed(cs: Seq<Crossing>, i: int) -> bool {
    exists|j: int| 0 <= j < cs.len() && cs[j].tick_index == i
}

/// Flips the outside snapshots of every tick a swap crossed, each against
/// the global accumulators recorded at its crossing.  Nothing else in the
/// registry moves: no record appears or disappears, and no net or gross
/// liquidity changes, so every active-liquidity sum is preserved.
fn apply_crossings(ticks: &mut Vec<Tick>, crossings: &Vec<Crossing>)
    requires
        ticks_sorted(old(ticks)@),
        forall|j: int|
            0 <= j < crossings@.len() ==> has_tick(
                old(ticks)@,
                (#[trigger] crossings@[j]).tick_index as int,
            ),
        forall|i: int, j: int|
            0 <= i < j < crossings@.len() ==> crossings@[i].tick_index
                != crossings@[j].tick_index,
        forall|j: int|
            0 <= j < crossings@.len() ==> tick_value(
                old(ticks)@,
                (#[trigger] crossings@[j]).tick_index as int,
            ).fee_growth_outside_a <= crossings@[j].global_a && tick_value(
                old(ticks)@,
                crossings@[j].tick_index as int,
            ).fee_growth_outside_b <= crossings@[j].global_b,
    ensures
        ticks_sorted(final(ticks)@),
        forall|i: int| #[trigger] has_tick(final(ticks)@, i) <==> has_tick(old(ticks)@, i),
        forall|j: int|
            0 <= j < crossings@.len() ==> tick_value(
                final(ticks)@,
                (#[trigger] crossings@[j]).tick_index as int,
            ) == spec_flip_tick(
                tick_value(old(ticks)@, crossings@[j].tick_index as int),
                crossings@[j].global_a,
                crossings@[j].global_b,
            ),
        forall|i: int|
            !spec_crossed(crossings@, i) ==> #[trigger] tick_value(final(ticks)@, i) == tick_value(
                old(ticks)@,
                i,
            ),
        forall|i: int|
            (#[trigger] tick_value(final(ticks)@, i)).liquidity_net == tick_value(
                old(ticks)@,
                i,
            ).liquidity_net && tick_value(final(ticks)@, i).liquidity_gross == tick_value(
                old(ticks)@,
                i,
            ).liquidity_gross,
        forall|t: int| #[trigger] net_sum_upto(final(ticks)@, t) == net_sum_upto(old(ticks)@, t),
{
    let ghost s0 = ticks@;
    let n = crossings.len();
    let mut j: usize = 0;
    while j < n
        invariant
            n == crossings@.len(),
            j <= n,
            ticks_sorted(ticks@),
            forall|j2: int|
                0 <= j2 < n ==> has_tick(s0, (#[trigger] crossings@[j2]).tick_index as int),
            forall|i2: int, j2: int|
                0 <= i2 < j2 < n ==> crossings@[i2].tick_index != crossings@[j2].tick_index,
            forall|j2: int|
                0 <= j2 < n ==> tick_value(
                    s0,
                    (#[trigger] crossings@[j2]).tick_index as int,
                ).fee_growth_outside_a <= crossings@[j2].global_a && tick_value(
                    s0,
                    crossings@[j2].tick_index as int,
                ).fee_growth_outside_b <= crossings@[j2].global_b,
            forall|i: int| #[trigger] has_tick(ticks@, i) <==> has_tick(s0, i),
            forall|j2: int|
                0 <= j2 < j ==> tick_value(ticks@, (#[trigger] crossings@[j2]).tick_index as int)
                    == spec_flip_tick(
                    tick_value(s0, crossings@[j2].tick_index as int),
                    crossings@[j2].global_a,
                    crossings@[j2].global_b,
                ),
            forall|i: int|
                !spec_crossed(crossings@.take(j as int), i) ==> #[trigger] tick_value(ticks@, i)
                    == tick_value(s0, i),
            forall|t: int| #[trigger] net_sum_upto(ticks@, t) == net_sum_upto(s0, t),
        decreases n - j,
    {
        let c = crossings[j];
        proof {
            assert(!spec_crossed(crossings@.take(j as int), c.tick_index as int)) by {
                if spec_crossed(crossings@.take(j as int), c.tick_index as int) {
                    let j2 = choose|j2: int|
                        0 <= j2 < j && crossings@.take(j as int)[j2].tick_index == c.tick_index;
                    assert(crossings@[j2].tick_index == crossings@[j as int].tick_index);
                }
            }
            assert(tick_value(ticks@, c.tick_index as int) == tick_value(s0, c.tick_index as int));
        }
        match crate::tick::find_tick(ticks, c.tick_index) {
            Some(k) => {
                proof {
                    crate::tick::lemma_tick_value_at(ticks@, k as int);
                }
                let v = ticks[k];
                let nv = Tick {
                    fee_growth_outside_a: c.global_a - v.fee_growth_outside_a,
                    fee_growth_outside_b: c.global_b - v.fee_growth_outside_b,
                    ..v
                };
                let ghost sj = ticks@;
                ticks[k] = nv;
                proof {
                    crate::tick::lemma_tick_value_update(sj, k as int, nv);
                    assert forall|t: int| #[trigger] net_sum_upto(ticks@, t) == net_sum_upto(
                        sj,
                        t,
                    ) by {
                        crate::tick::lemma_net_sum_upto_update(sj, k as int, nv, t);
                    }
                    assert forall|i: int|
                        !spec_crossed(crossings@.take(j as int + 1), i) implies #[trigger]
                    tick_value(ticks@, i) == tick_value(s0, i) by {
                        assert(!spec_crossed(crossings@.take(j as int), i)) by {
                            if spec_crossed(crossings@.take(j as int), i) {
                                let j2 = choose|j2: int|
                                    0 <= j2 < j && crossings@.take(j as int)[j2].tick_index == i;
                                assert(crossings@.take(j as int + 1)[j2].tick_index == i);
                            }
                        }
                        assert(i != c.tick_index) by {
                            if i == c.tick_index {
                                assert(crossings@.take(j as int + 1)[j as int].tick_index == i);
                            }
                        }
                    }
                }
            },
            None => {
                proof {
                    assert(false);
                }
            },
        }
        j = j + 1;
    }
    proof {
        assert(crossings@.take(n as int) == crossings@);
        assert forall|i: int| (#[trigger] tick_value(ticks@, i)).liquidity_net == tick_value(
            s0,
            i,
        ).liquidity_net && tick_value(ticks@, i).liquidity_gross == tick_value(
            s0,
            i,
        ).liquidity_gross by {
            if spec_crossed(crossings@, i) {
                let j2 = choose|j2: int| 0 <= j2 < crossings@.len() && crossings@[j2].tick_index == i;
                assert(tick_value(ticks@, i) == spec_flip_tick(
                    tick_value(s0, i),
                    crossings@[j2].global_a,
                    crossings@[j2].global_b,
                ));
            }
        }
    }
}

/// The fee taken from a gross input: `gross * fee_rate / 10_000`, floored.
pub open spec fn spec_fee_of(gross: u64, fee_rate: u16) -> int {
    gross * fee_rate / 10_000
}

/// The fee the pool takes from `gross` input units.
pub fn fee_of(gross: u64, fee_rate: u16) -> (r: u64)
    requires
        fee_rate < 10_000,
    ensures
        r == spec_fee_of(gross, fee_rate),
        r <= gross,
{
    proof {
        assert(gross * fee_rate <= u128::MAX && gross * fee_rate / 10_000 <= gross)
            by (nonlinear_arith)
            requires
                0 <= gross <= u64::MAX,
                0 <= fee_rate < 10_000,
        ;
    }
    let wide = (gross as u128) * (fee_rate as u128) / 10_000;
    wide as u64
}

/// The single-bucket case of an A-for-B swap, read off the state before
/// the call: there is a boundary below, liquidity is active, and the input
/// runs out before the boundary is reached, all arithmetic staying in
/// range.  In this case the swap is one step whose results have closed
/// forms.
pub open spec fn spec_within_bucket_a(p: crate::pool::PoolClmm, amount_in: u64) -> bool {
    match crate::tick::spec_next_below(p.ticks@, p.current_tick as int) {
        Some(k) => {
            let limit = crate::tick::spec_sqrt_price_at_tick(p.ticks@[k].tick_index as int);
            let fee = spec_fee_of(amount_in, p.fee_rate);
            let avail = amount_in - fee;
            &&& amount_in > 0
            &&& p.fee_rate < 10_000
            &&& p.liquidity > 0
            &&& crate::pool::spec_amount_a_ok(p.liquidity, limit, p.sqrt_price_x64 as int)
            &&& avail < crate::pool::spec_amount_a(p.liquidity, limit, p.sqrt_price_x64 as int)
            &&& spec_price_after_a_ok(p.liquidity, p.sqrt_price_x64, avail as u128)
            &&& crate::pool::spec_amount_b_ok(
                p.liquidity,
                spec_end_price_a(p, amount_in),
                p.sqrt_price_x64 as int,
            )
            &&& spec_swap_out_a(p, amount_in) <= u64::MAX
            &&& p.fee_growth_global_a + spec_fee_growth_a(p, amount_in) <= u128::MAX
        },
        None => false,
    }
}

/// The square-root price a single-bucket A-for-B swap ends at: the input
/// after the fee applied to the active liquidity, clamped at the next
/// boundary.
pub open spec fn spec_end_price_a(p: crate::pool::PoolClmm, amount_in: u64) -> int {
    let k = crate::tick::spec_next_below(p.ticks@, p.current_tick as int)->0;
    let limit = crate::tick::spec_sqrt_price_at_tick(p.ticks@[k].tick_index as int);
    let avail = amount_in - spec_fee_of(amount_in, p.fee_rate);
    let raw = spec_price_after_a(p.liquidity, p.sqrt_price_x64, avail as u128);
    if raw < limit {
        limit
    } else {
        raw
    }
}

/// The output of a single-bucket A-for-B swap: the active liquidity over
/// the price move.
pub open spec fn spec_swap_out_a(p: crate::pool::PoolClmm, amount_in: u64) -> int {
    crate::pool::spec_amount_b(p.liquidity, spec_end_price_a(p, amount_in), p.sqrt_price_x64 as int)
}

/// What a single-bucket A-for-B swap adds to the global fee-growth
/// accumulator of asset A: the fee, spread over the active liquidity,
/// shifted into Q64.64 before the division.
pub open spec fn spec_fee_growth_a(p: crate::pool::PoolClmm, amount_in: u64) -> int {
    spec_fee_of(amount_in, p.fee_rate) * Q64 / (p.liquidity as int)
}

/// The single-bucket case of a B-for-A swap: the mirror of
/// `spec_within_bucket_a`, walking price upward.
pub open spec fn spec_within_bucket_b(p: crate::pool::PoolClmm, amount_in: u64) -> bool {
    match crate::tick::spec_next_above(p.ticks@, p.current_tick as int) {
        Some(k) => {
            let limit = crate::tick::spec_sqrt_price_at_tick(p.ticks@[k].tick_index as int);
            let fee = spec_fee_of(amount_in, p.fee_rate);
            let avail = amount_in - fee;
            &&& amount_in > 0
            &&& p.fee_rate < 10_000
            &&& p.liquidity > 0
            &&& crate::pool::spec_amount_b_ok(p.liquidity, p.sqrt_price_x64 as int, limit)
            &&& avail < crate::pool::spec_amount_b(p.liquidity, p.sqrt_price_x64 as int, limit)
            &&& spec_price_after_b_ok(p.liquidity, p.sqrt_price_x64, avail as u128)
            &&& crate::pool::spec_amount_a_ok(
                p.liquidity,
                p.sqrt_price_x64 as int,
                spec_end_price_b(p, amount_in),
            )
            &&& spec_swap_out_b(p, amount_in) <= u64::MAX
            &&& p.fee_growth_global_b + spec_fee_growth_b(p, amount_in) <= u128::MAX
        },
        None => false,
    }
}

/// The square-root price a single-bucket B-for-A swap ends at.
pub open spec fn spec_end_price_b(p: crate::pool::PoolClmm, amount_in: u64) -> int {
    let k = crate::tick::spec_next_above(p.ticks@, p.current_tick as int)->0;
    let limit = crate::tick::spec_sqrt_price_at_tick(p.ticks@[k].tick_index as int);
    let avail = amount_in - spec_fee_of(amount_in, p.fee_rate);
    let raw = spec_price_after_b(p.liquidity, p.sqrt_price_x64, avail as u128);
    if raw > limit {
        limit
    } else {
        raw
    }
}

/// The output of a single-bucket B-for-A swap.
pub open spec fn spec_swap_out_b(p: crate::pool::PoolClmm, amount_in: u64) -> int {
    crate::pool::spec_amount_a(p.liquidity, p.sqrt_price_x64 as int, spec_end_price_b(p, amount_in))
}

/// What a single-bucket B-for-A swap adds to the global fee-growth
/// accumulator of asset B.
pub open spec fn spec_fee_growth_b(p: crate::pool::PoolClmm, amount_in: u64) -> int {
    spec_fee_of(amount_in, p.fee_rate) * Q64 / (p.liquidity as int)
}

/// The scalar state a swap simulation carries: price, bucket, active
/// liquidity, fee accumulators, input not yet consumed, output produced.
pub struct SwapSim {
    pub sqrt_price: u128,
    pub tick: i32,
    pub liquidity: u128,
    pub global_a: u128,
    pub global_b: u128,
    pub remaining: u64,
    pub amount_out: u64,
}

impl crate::pool::PoolClmm {
    /// Simulates an A-for-B swap without touching the store: walks price
    /// downward across initialized ticks, taking the fee from each step's
    /// input, producing output from the active liquidity and the price
    /// move, and recording every boundary crossed.  Fails on any
    /// fixed-point overflow; the caller commits the result atomically.
    fn simulate_a_to_b(&self, amount_in: u64) -> (r: Result<(SwapSim, Vec<Crossing>), CustomError>)
        requires
            self.wf(),
            self.fee_rate < 10_000,
        ensures
            r is Ok ==> ({
                let (sim, cs) = r->Ok_0;
                &&& crate::tick::MIN_TICK - 1 <= sim.tick <= crate::tick::MAX_TICK
                &&& crate::tick::spec_sqrt_price_at_tick(sim.tick as int) <= sim.sqrt_price
                &&& sim.sqrt_price <= crate::tick::spec_sqrt_price_at_tick(sim.tick as int + 1)
                &&& sim.liquidity == net_sum_upto(self.ticks@, sim.tick as int)
                &&& sim.global_a >= self.fee_growth_global_a
                &&& sim.global_b == self.fee_growth_global_b
                &&& sim.remaining <= amount_in
                &&& sim.sqrt_price <= self.sqrt_price_x64
                &&& sim.tick <= self.current_tick
                &&& (forall|j: int|
                    0 <= j < cs@.len() ==> has_tick(
                        self.ticks@,
                        (#[trigger] cs@[j]).tick_index as int,
                    ))
                &&& (forall|i: int, j: int|
                    0 <= i < j < cs@.len() ==> cs@[i].tick_index != cs@[j].tick_index)
                &&& (forall|j: int|
                    0 <= j < cs@.len() ==> self.fee_growth_global_a <= (
                    #[trigger] cs@[j]).global_a <= sim.global_a && cs@[j].global_b
                        == self.fee_growth_global_b)
                &&& (sim.remaining > 0 ==> forall|j: int|
                    0 <= j < self.ticks@.len() ==> (#[trigger] self.ticks@[j]).tick_index
                        > sim.tick)
            }),
            amount_in == 0 ==> r is Ok,
            spec_within_bucket_a(*self, amount_in) ==> r is Ok && ({
                let (sim, cs) = r->Ok_0;
                &&& sim.remaining == 0
                &&& sim.amount_out == spec_swap_out_a(*self, amount_in)
                &&& sim.sqrt_price == spec_end_price_a(*self, amount_in)
                &&& sim.liquidity == self.liquidity
                &&& sim.global_a == self.fee_growth_global_a + spec_fee_growth_a(*self, amount_in)
                &&& cs@.len() == 0
            }),
            r is Err ==> r->Err_0 == CustomError::Overflow,
    {
        let mut sqrtp = self.sqrt_price_x64;
        let mut cur = self.current_tick;
        let mut liq = self.liquidity;
        let mut ga = self.fee_growth_global_a;
        let gb = self.fee_growth_global_b;
        let mut remaining = amount_in;
        let mut total_out: u64 = 0;
        let mut crossings: Vec<Crossing> = Vec::new();
        let mut bound = self.ticks.len();
        let mut searching: u8 = 1;
        while remaining > 0 && searching == 1
            invariant
                self.wf(),
                self.fee_rate < 10_000,
                crate::tick::MIN_TICK - 1 <= cur <= crate::tick::MAX_TICK,
                crate::tick::spec_sqrt_price_at_tick(cur as int) <= sqrtp,
                sqrtp <= crate::tick::spec_sqrt_price_at_tick(cur as int + 1),
                liq == net_sum_upto(self.ticks@, cur as int),
                ga >= self.fee_growth_global_a,
                remaining <= amount_in,
                sqrtp <= self.sqrt_price_x64,
                cur <= self.current_tick,
                bound <= self.ticks@.len(),
                forall|j: int| bound <= j < self.ticks@.len() ==> self.ticks@[j].tick_index > cur,
                forall|j: int|
                    0 <= j < crossings@.len() ==> has_tick(
                        self.ticks@,
                        (#[trigger] crossings@[j]).tick_index as int,
                    ),
                forall|j: int| 0 <= j < crossings@.len() ==> (#[trigger] crossings@[j]).tick_index > cur,
                forall|i: int, j: int|
                    0 <= i < j < crossings@.len() ==> crossings@[i].tick_index
                        > crossings@[j].tick_index,
                forall|j: int|
                    0 <= j < crossings@.len() ==> self.fee_growth_global_a <= (
                    #[trigger] crossings@[j]).global_a <= ga && crossings@[j].global_b == gb,
                gb == self.fee_growth_global_b,
                searching <= 1,
                searching == 0 ==> forall|j: int|
                    0 <= j < self.ticks@.len() ==> (#[trigger] self.ticks@[j]).tick_index > cur,
                spec_within_bucket_a(*self, amount_in) ==> (remaining == amount_in && sqrtp
                    == self.sqrt_price_x64 && cur == self.current_tick && liq == self.liquidity
                    && ga == self.fee_growth_global_a && total_out == 0 && crossings@.len() == 0
                    && searching == 1) || (remaining == 0 && sqrtp == spec_end_price_a(
                    *self,
                    amount_in,
                ) && total_out == spec_swap_out_a(*self, amount_in) && ga
                    == self.fee_growth_global_a + spec_fee_growth_a(*self, amount_in) && liq
                    == self.liquidity && crossings@.len() == 0),
            decreases searching, remaining, bound,
        {
            let next = crate::tick::next_tick_below(&self.ticks, cur);
            let k = match next {
                Some(k) => k,
                None => {
                    proof {
                        if spec_within_bucket_a(*self, amount_in) {
                            crate::tick::lemma_spec_next_below_bounds(self.ticks@, cur as int);
                        }
                    }
                    searching = 0;
                    continue;
                },
            };
            let t = self.ticks[k];
            proof {
                assert(k < bound);
                if spec_within_bucket_a(*self, amount_in) && remaining == amount_in {
                    crate::tick::lemma_next_below_spec(self.ticks@, cur as int, k as int);
                }
                crate::tick::lemma_sqrt_price_monotone(t.tick_index as int, cur as int);
                assert forall|j: int| 0 <= j < self.ticks@.len() implies !(t.tick_index
                    < (#[trigger] self.ticks@[j]).tick_index <= cur) by {
                    if j < k {
                        assert(self.ticks@[j].tick_index < self.ticks@[k as int].tick_index);
                    }
                }
            }
            let limit = crate::tick::sqrt_price_at_tick(t.tick_index);
            if liq == 0 {
                // No liquidity in this bucket: jump to the boundary and
                // cross it, activating whatever lies below.
                let new_liq = match cross_liquidity(liq, t.liquidity_net, true) {
                    Ok(v) => v,
                    Err(e) => {
                        return Err(e);
                    },
                };
                proof {
                    crate::tick::lemma_net_sum_upto_range(
                        self.ticks@,
                        t.tick_index as int,
                        cur as int,
                    );
                    crate::tick::lemma_net_sum_upto_at(self.ticks@, k as int, t.tick_index as int);
                }
                crossings.push(
                    Crossing { tick_index: t.tick_index, global_a: ga, global_b: gb },
                );
                liq = new_liq;
                sqrtp = limit;
                cur = t.tick_index - 1;
                bound = k;
                continue;
            }
            let fee = fee_of(remaining, self.fee_rate);
            let avail_net = remaining - fee;
            let required_net = match crate::pool::amount_a_delta(liq, limit, sqrtp) {
                Ok(v) => v,
                Err(e) => {
                    return Err(e);
                },
            };
            if (avail_net as u128) >= required_net {
                // Full step: the boundary is reached and crossed.
                let step_net = required_net as u64;
                let rate = self.fee_rate as u128;
                let fee_denom = 10_000u128 - rate;
                let prod = match (step_net as u128).checked_mul(rate) {
                    Some(v) => v,
                    None => {
                        return Err(CustomError::Overflow);
                    },
                };
                let num = match prod.checked_add(fee_denom - 1) {
                    Some(v) => v,
                    None => {
                        return Err(CustomError::Overflow);
                    },
                };
                let fee_wide = num / fee_denom;
                let cg_wide = match (step_net as u128).checked_add(fee_wide) {
                    Some(v) => v,
                    None => {
                        return Err(CustomError::Overflow);
                    },
                };
                let cg: u64 = if cg_wide > (remaining as u128) {
                    remaining
                } else {
                    cg_wide as u64
                };
                let out_step = match crate::pool::amount_b_delta(liq, limit, sqrtp) {
                    Ok(v) => v,
                    Err(e) => {
                        return Err(e);
                    },
                };
                if out_step > ((u64::MAX - total_out) as u128) {
                    return Err(CustomError::Overflow);
                }
                total_out = total_out + (out_step as u64);
                let fee_step = cg - step_net;
                if fee_step > 0 {
                    let fg = match shift_div(fee_step as u128, 64, liq) {
                        Ok(v) => v,
                        Err(e) => {
                            return Err(e);
                        },
                    };
                    ga = match ga.checked_add(fg) {
                        Some(v) => v,
                        None => {
                            return Err(CustomError::Overflow);
                        },
                    };
                }
                let new_liq = match cross_liquidity(liq, t.liquidity_net, true) {
                    Ok(v) => v,
                    Err(e) => {
                        return Err(e);
                    },
                };
                proof {
                    crate::tick::lemma_net_sum_upto_range(
                        self.ticks@,
                        t.tick_index as int,
                        cur as int,
                    );
                    crate::tick::lemma_net_sum_upto_at(self.ticks@, k as int, t.tick_index as int);
                }
                crossings.push(
                    Crossing { tick_index: t.tick_index, global_a: ga, global_b: gb },
                );
                liq = new_liq;
                sqrtp = limit;
                cur = t.tick_index - 1;
                remaining = remaining - cg;
                bound = k;
            } else {
                // Partial step: the input runs out inside this bucket.
                let new_sqrt_raw = match price_after_a(liq, sqrtp, avail_net as u128) {
                    Ok(v) => v,
                    Err(e) => {
                        return Err(e);
                    },
                };
                let new_sqrt = if new_sqrt_raw < limit {
                    limit
                } else {
                    new_sqrt_raw
                };
                let out_step = match crate::pool::amount_b_delta(liq, new_sqrt, sqrtp) {
                    Ok(v) => v,
                    Err(e) => {
                        return Err(e);
                    },
                };
                if out_step > ((u64::MAX - total_out) as u128) {
                    return Err(CustomError::Overflow);
                }
                total_out = total_out + (out_step as u64);
                proof {
                    vstd::arithmetic::power2::lemma2_to64();
                    assert((fee as u128) * Q64 <= u128::MAX) by (nonlinear_arith)
                        requires
                            0 <= fee <= u64::MAX,
                            Q64 == 0x1_0000_0000_0000_0000,
                    ;
                }
                if fee > 0 {
                    let fg = match shift_div(fee as u128, 64, liq) {
                        Ok(v) => v,
                        Err(e) => {
                            return Err(e);
                        },
                    };
                    ga = match ga.checked_add(fg) {
                        Some(v) => v,
                        None => {
                            return Err(CustomError::Overflow);
                        },
                    };
                }
                proof {
                    crate::tick::lemma_sqrt_price_monotone(
                        crate::tick::MIN_TICK as int,
                        t.tick_index as int,
                    );
                }
                let new_cur = if new_sqrt == sqrtp {
                    cur
                } else {
                    crate::tick::tick_at_sqrt_price(new_sqrt)
                };
                proof {
                    assert(t.tick_index <= new_cur) by {
                        if new_cur < t.tick_index {
                            crate::tick::lemma_sqrt_price_monotone(
                                new_cur as int + 1,
                                t.tick_index as int,
                            );
                        }
                    }
                    assert(new_cur <= cur) by {
                        if new_cur > cur {
                            crate::tick::lemma_sqrt_price_monotone(
                                cur as int + 1,
                                new_cur as int,
                            );
                        }
                    }
                    crate::tick::lemma_net_sum_upto_range(self.ticks@, new_cur as int, cur as int);
                }
                sqrtp = new_sqrt;
                cur = new_cur;
                remaining = 0;
            }
        }
        Ok(
            (
                SwapSim {
                    sqrt_price: sqrtp,
                    tick: cur,
                    liquidity: liq,
                    global_a: ga,
                    global_b: gb,
                    remaining,
                    amount_out: total_out,
                },
                crossings,
            ),
        )
    }
    /// Simulates a B-for-A swap without touching the store: the mirror of
    /// `simulate_a_to_b`, walking price upward.
    fn simulate_b_to_a(&self, amount_in: u64) -> (r: Result<(SwapSim, Vec<Crossing>), CustomError>)
        requires
            self.wf(),
            self.fee_rate < 10_000,
        ensures
            r is Ok ==> ({
                let (sim, cs) = r->Ok_0;
                &&& crate::tick::MIN_TICK - 1 <= sim.tick <= crate::tick::MAX_TICK
                &&& crate::tick::spec_sqrt_price_at_tick(sim.tick as int) <= sim.sqrt_price
                &&& sim.sqrt_price <= crate::tick::spec_sqrt_price_at_tick(sim.tick as int + 1)
                &&& sim.liquidity == net_sum_upto(self.ticks@, sim.tick as int)
                &&& sim.global_b >= self.fee_growth_global_b
                &&& sim.global_a == self.fee_growth_global_a
                &&& sim.remaining <= amount_in
                &&& sim.sqrt_price >= self.sqrt_price_x64
                &&& sim.tick >= self.current_tick
                &&& (forall|j: int|
                    0 <= j < cs@.len() ==> has_tick(
                        self.ticks@,
                        (#[trigger] cs@[j]).tick_index as int,
                    ))
                &&& (forall|i: int, j: int|
                    0 <= i < j < cs@.len() ==> cs@[i].tick_index != cs@[j].tick_index)
                &&& (forall|j: int|
                    0 <= j < cs@.len() ==> self.fee_growth_global_b <= (
                    #[trigger] cs@[j]).global_b <= sim.global_b && cs@[j].global_a
                        == self.fee_growth_global_a)
                &&& (sim.remaining > 0 ==> forall|j: int|
                    0 <= j < self.ticks@.len() ==> (#[trigger] self.ticks@[j]).tick_index
                        <= sim.tick)
            }),
            amount_in == 0 ==> r is Ok,
            spec_within_bucket_b(*self, amount_in) ==> r is Ok && ({
                let (sim, cs) = r->Ok_0;
                &&& sim.remaining == 0
                &&& sim.amount_out == spec_swap_out_b(*self, amount_in)
                &&& sim.sqrt_price == spec_end_price_b(*self, amount_in)
                &&& sim.liquidity == self.liquidity
                &&& sim.global_b == self.fee_growth_global_b + spec_fee_growth_b(*self, amount_in)
                &&& cs@.len() == 0
            }),
            r is Err ==> r->Err_0 == CustomError::Overflow,
    {
        let mut sqrtp = self.sqrt_price_x64;
        let mut cur = self.current_tick;
        let mut liq = self.liquidity;
        let ga = self.fee_growth_global_a;
        let mut gb = self.fee_growth_global_b;
        let mut remaining = amount_in;
        let mut total_out: u64 = 0;
        let mut crossings: Vec<Crossing> = Vec::new();
        let mut lo: usize = 0;
        let mut searching: u8 = 1;
        while remaining > 0 && searching == 1
            invariant
                self.wf(),
                self.fee_rate < 10_000,
                crate::tick::MIN_TICK - 1 <= cur <= crate::tick::MAX_TICK,
                crate::tick::spec_sqrt_price_at_tick(cur as int) <= sqrtp,
                sqrtp <= crate::tick::spec_sqrt_price_at_tick(cur as int + 1),
                liq == net_sum_upto(self.ticks@, cur as int),
                gb >= self.fee_growth_global_b,
                remaining <= amount_in,
                sqrtp >= self.sqrt_price_x64,
                cur >= self.current_tick,
                lo <= self.ticks@.len(),
                forall|j: int| 0 <= j < lo ==> self.ticks@[j].tick_index <= cur,
                forall|j: int|
                    0 <= j < crossings@.len() ==> has_tick(
                        self.ticks@,
                        (#[trigger] crossings@[j]).tick_index as int,
                    ),
                forall|j: int|
                    0 <= j < crossings@.len() ==> (#[trigger] crossings@[j]).tick_index <= cur,
                forall|i: int, j: int|
                    0 <= i < j < crossings@.len() ==> crossings@[i].tick_index
                        < crossings@[j].tick_index,
                forall|j: int|
                    0 <= j < crossings@.len() ==> self.fee_growth_global_b <= (
                    #[trigger] crossings@[j]).global_b <= gb && crossings@[j].global_a == ga,
                ga == self.fee_growth_global_a,
                searching <= 1,
                searching == 0 ==> forall|j: int|
                    0 <= j < self.ticks@.len() ==> (#[trigger] self.ticks@[j]).tick_index <= cur,
                spec_within_bucket_b(*self, amount_in) ==> (remaining == amount_in && sqrtp
                    == self.sqrt_price_x64 && cur == self.current_tick && liq == self.liquidity
                    && gb == self.fee_growth_global_b && total_out == 0 && crossings@.len() == 0
                    && searching == 1) || (remaining == 0 && sqrtp == spec_end_price_b(
                    *self,
                    amount_in,
                ) && total_out == spec_swap_out_b(*self, amount_in) && gb
                    == self.fee_growth_global_b + spec_fee_growth_b(*self, amount_in) && liq
                    == self.liquidity && crossings@.len() == 0),
            decreases searching, remaining, self.ticks@.len() - lo,
        {
            let next = crate::tick::next_tick_above(&self.ticks, cur);
            let k = match next {
                Some(k) => k,
                None => {
                    proof {
                        if spec_within_bucket_b(*self, amount_in) {
                            crate::tick::lemma_spec_next_above_bounds(self.ticks@, cur as int);
                        }
                    }
                    searching = 0;
                    continue;
                },
            };
            let n_ticks = self.ticks.len();
            let t = self.ticks[k];
            proof {
                assert(k >= lo);
                assert(k < n_ticks);
                if spec_within_bucket_b(*self, amount_in) && remaining == amount_in {
                    crate::tick::lemma_next_above_spec(self.ticks@, cur as int, k as int);
                }
                crate::tick::lemma_sqrt_price_monotone(cur as int + 1, t.tick_index as int);
                crate::tick::lemma_sqrt_price_monotone(t.tick_index as int, crate::tick::MAX_TICK as int);
                assert forall|j: int| 0 <= j < self.ticks@.len() implies !(cur
                    < (#[trigger] self.ticks@[j]).tick_index <= t.tick_index - 1) by {
                    if j > k {
                        assert(self.ticks@[k as int].tick_index < self.ticks@[j].tick_index);
                    }
                }
            }
            let limit = crate::tick::sqrt_price_at_tick(t.tick_index);
            if liq == 0 {
                // No liquidity in this bucket: jump to the boundary and
                // cross it, activating whatever lies above.
                let new_liq = match cross_liquidity(liq, t.liquidity_net, false) {
                    Ok(v) => v,
                    Err(e) => {
                        return Err(e);
                    },
                };
                proof {
                    crate::tick::lemma_net_sum_upto_range(
                        self.ticks@,
                        cur as int,
                        t.tick_index as int - 1,
                    );
                    crate::tick::lemma_net_sum_upto_at(self.ticks@, k as int, t.tick_index as int);
                }
                crossings.push(
                    Crossing { tick_index: t.tick_index, global_a: ga, global_b: gb },
                );
                liq = new_liq;
                sqrtp = limit;
                cur = t.tick_index;
                lo = k + 1;
                continue;
            }
            let fee = fee_of(remaining, self.fee_rate);
            let avail_net = remaining - fee;
            let required_net = match crate::pool::amount_b_delta(liq, sqrtp, limit) {
                Ok(v) => v,
                Err(e) => {
                    return Err(e);
                },
            };
            if (avail_net as u128) >= required_net {
                // Full step: the boundary is reached and crossed.
                let step_net = required_net as u64;
                let rate = self.fee_rate as u128;
                let fee_denom = 10_000u128 - rate;
                let prod = match (step_net as u128).checked_mul(rate) {
                    Some(v) => v,
                    None => {
                        return Err(CustomError::Overflow);
                    },
                };
                let num = match prod.checked_add(fee_denom - 1) {
                    Some(v) => v,
                    None => {
                        return Err(CustomError::Overflow);
                    },
                };
                let fee_wide = num / fee_denom;
                let cg_wide = match (step_net as u128).checked_add(fee_wide) {
                    Some(v) => v,
                    None => {
                        return Err(CustomError::Overflow);
                    },
                };
                let cg: u64 = if cg_wide > (remaining as u128) {
                    remaining
                } else {
                    cg_wide as u64
                };
                let out_step = match crate::pool::amount_a_delta(liq, sqrtp, limit) {
                    Ok(v) => v,
                    Err(e) => {
                        return Err(e);
                    },
                };
                if out_step > ((u64::MAX - total_out) as u128) {
                    return Err(CustomError::Overflow);
                }
                total_out = total_out + (out_step as u64);
                let fee_step = cg - step_net;
                if fee_step > 0 {
                    let fg = match shift_div(fee_step as u128, 64, liq) {
                        Ok(v) => v,
                        Err(e) => {
                            return Err(e);
                        },
                    };
                    gb = match gb.checked_add(fg) {
                        Some(v) => v,
                        None => {
                            return Err(CustomError::Overflow);
                        },
                    };
                }
                let new_liq = match cross_liquidity(liq, t.liquidity_net, false) {
                    Ok(v) => v,
                    Err(e) => {
                        return Err(e);
                    },
                };
                proof {
                    crate::tick::lemma_net_sum_upto_range(
                        self.ticks@,
                        cur as int,
                        t.tick_index as int - 1,
                    );
                    crate::tick::lemma_net_sum_upto_at(self.ticks@, k as int, t.tick_index as int);
                }
                crossings.push(
                    Crossing { tick_index: t.tick_index, global_a: ga, global_b: gb },
                );
                liq = new_liq;
                sqrtp = limit;
                cur = t.tick_index;
                remaining = remaining - cg;
                lo = k + 1;
            } else {
                // Partial step: the input runs out inside this bucket.
                let new_sqrt_raw = match price_after_b(liq, sqrtp, avail_net as u128) {
                    Ok(v) => v,
                    Err(e) => {
                        return Err(e);
                    },
                };
                let new_sqrt = if new_sqrt_raw > limit {
                    limit
                } else {
                    new_sqrt_raw
                };
                let out_step = match crate::pool::amount_a_delta(liq, sqrtp, new_sqrt) {
                    Ok(v) => v,
                    Err(e) => {
                        return Err(e);
                    },
                };
                if out_step > ((u64::MAX - total_out) as u128) {
                    return Err(CustomError::Overflow);
                }
                total_out = total_out + (out_step as u64);
                proof {
                    vstd::arithmetic::power2::lemma2_to64();
                    assert((fee as u128) * Q64 <= u128::MAX) by (nonlinear_arith)
                        requires
                            0 <= fee <= u64::MAX,
                            Q64 == 0x1_0000_0000_0000_0000,
                    ;
                }
                if fee > 0 {
                    let fg = match shift_div(fee as u128, 64, liq) {
                        Ok(v) => v,
                        Err(e) => {
                            return Err(e);
                        },
                    };
                    gb = match gb.checked_add(fg) {
                        Some(v) => v,
                        None => {
                            return Err(CustomError::Overflow);
                        },
                    };
                }
                let new_cur = if new_sqrt == sqrtp {
                    cur
                } else {
                    proof {
                        crate::tick::lemma_sqrt_price_monotone(
                            crate::tick::MIN_TICK as int,
                            cur as int + 1,
                        );
                        crate::tick::lemma_sqrt_price_monotone(
                            t.tick_index as int,
                            crate::tick::MAX_TICK as int + 1,
                        );
                    }
                    let nc = if new_sqrt < crate::tick::sqrt_price_at_tick(
                        crate::tick::MIN_TICK,
                    ) {
                        crate::tick::MIN_TICK - 1
                    } else {
                        crate::tick::tick_at_sqrt_price(new_sqrt)
                    };
                    if nc >= t.tick_index {
                        proof {
                            assert(nc == t.tick_index) by {
                                if nc > t.tick_index {
                                    crate::tick::lemma_sqrt_price_monotone(
                                        t.tick_index as int,
                                        nc as int,
                                    );
                                }
                            }
                        }
                        t.tick_index - 1
                    } else {
                        nc
                    }
                };
                proof {
                    assert(cur <= new_cur) by {
                        if new_cur < cur {
                            crate::tick::lemma_sqrt_price_monotone(
                                new_cur as int + 1,
                                cur as int,
                            );
                        }
                    }
                    assert(new_cur <= t.tick_index - 1);
                    crate::tick::lemma_net_sum_upto_range(self.ticks@, cur as int, new_cur as int);
                }
                sqrtp = new_sqrt;
                cur = new_cur;
                remaining = 0;
            }
        }
        Ok(
            (
                SwapSim {
                    sqrt_price: sqrtp,
                    tick: cur,
                    liquidity: liq,
                    global_a: ga,
                    global_b: gb,
                    remaining,
                    amount_out: total_out,
                },
                crossings,
            ),
        )
    }
    /// Swaps `amount_in` of one asset for the other, exact-in: the engine
    /// walks the price across initialized ticks, deducts the pool fee from
    /// each step's input and accrues it to the input asset's global
    /// fee-growth accumulator, converts the rest through the active
    /// liquidity, and crosses each boundary it reaches.  Fails with
    /// `SlippageExceeded` when the output stays under `min_amount_out`;
    /// every failure leaves the store untouched.  Liquidity placement is
    /// never changed: every tick keeps its net and gross liquidity, and
    /// positions are untouched.
    pub fn swap(&mut self, direction: SwapDirection, amount_in: u64, min_amount_out: u64) -> (r:
        Result<SwapOutcome, CustomError>)
        requires
            old(self).wf(),
        ensures
            final(self).wf(),
            crate::pool::spec_same_config(*old(self), *final(self)),
            r is Err ==> *final(self) == *old(self),
            r is Err ==> r->Err_0 == CustomError::SlippageExceeded || r->Err_0
                == CustomError::Overflow,
            final(self).fee_growth_global_a >= old(self).fee_growth_global_a,
            final(self).fee_growth_global_b >= old(self).fee_growth_global_b,
            direction == SwapDirection::AToB ==> final(self).fee_growth_global_b == old(
                self,
            ).fee_growth_global_b,
            direction == SwapDirection::BToA ==> final(self).fee_growth_global_a == old(
                self,
            ).fee_growth_global_a,
            final(self).positions@ == old(self).positions@,
            final(self).liquidity == net_sum_upto(final(self).ticks@, final(self).current_tick as int),
            forall|i: int|
                #[trigger] has_tick(final(self).ticks@, i) <==> has_tick(old(self).ticks@, i),
            forall|i: int|
                (#[trigger] tick_value(final(self).ticks@, i)).liquidity_net == tick_value(
                    old(self).ticks@,
                    i,
                ).liquidity_net && tick_value(final(self).ticks@, i).liquidity_gross == tick_value(
                    old(self).ticks@,
                    i,
                ).liquidity_gross,
            direction == SwapDirection::AToB ==> final(self).sqrt_price_x64 <= old(
                self,
            ).sqrt_price_x64 && final(self).current_tick <= old(self).current_tick,
            direction == SwapDirection::BToA ==> final(self).sqrt_price_x64 >= old(
                self,
            ).sqrt_price_x64 && final(self).current_tick >= old(self).current_tick,
            r is Ok ==> r->Ok_0.amount_out >= min_amount_out && r->Ok_0.amount_in_spent
                <= amount_in,
            amount_in == 0 && min_amount_out == 0 && old(self).fee_rate < 10_000 ==> r is Ok,
            direction == SwapDirection::AToB && spec_within_bucket_a(*old(self), amount_in) ==> (
            r is Ok <==> spec_swap_out_a(*old(self), amount_in) >= min_amount_out),
            direction == SwapDirection::AToB && spec_within_bucket_a(*old(self), amount_in) && r
                is Ok ==> r->Ok_0.amount_out == spec_swap_out_a(*old(self), amount_in)
                && r->Ok_0.amount_in_spent == amount_in && final(self).sqrt_price_x64
                == spec_end_price_a(*old(self), amount_in) && final(self).fee_growth_global_a
                == old(self).fee_growth_global_a + spec_fee_growth_a(*old(self), amount_in)
                && final(self).liquidity == old(self).liquidity,
            direction == SwapDirection::BToA && spec_within_bucket_b(*old(self), amount_in) ==> (
            r is Ok <==> spec_swap_out_b(*old(self), amount_in) >= min_amount_out),
            direction == SwapDirection::BToA && spec_within_bucket_b(*old(self), amount_in) && r
                is Ok ==> r->Ok_0.amount_out == spec_swap_out_b(*old(self), amount_in)
                && r->Ok_0.amount_in_spent == amount_in && final(self).sqrt_price_x64
                == spec_end_price_b(*old(self), amount_in) && final(self).fee_growth_global_b
                == old(self).fee_growth_global_b + spec_fee_growth_b(*old(self), amount_in)
                && final(self).liquidity == old(self).liquidity,
            r is Ok && r->Ok_0.amount_in_spent < amount_in && direction == SwapDirection::AToB
                ==> forall|j: int|
                0 <= j < final(self).ticks@.len()
                    ==> (#[trigger] final(self).ticks@[j]).tick_index > final(self).current_tick,
            r is Ok && r->Ok_0.amount_in_spent < amount_in && direction == SwapDirection::BToA
                ==> forall|j: int|
                0 <= j < final(self).ticks@.len()
                    ==> (#[trigger] final(self).ticks@[j]).tick_index <= final(self).current_tick,
    {
        if self.fee_rate >= 10_000 {
            return Err(CustomError::Overflow);
        }
        let simulated = match direction {
            SwapDirection::AToB => self.simulate_a_to_b(amount_in),
            SwapDirection::BToA => self.simulate_b_to_a(amount_in),
        };
        let (sim, crossings) = match simulated {
            Ok(v) => v,
            Err(e) => {
                return Err(e);
            },
        };
        if sim.amount_out < min_amount_out {
            return Err(CustomError::SlippageExceeded);
        }
        let spent = amount_in - sim.remaining;
        let ghost p0 = *self;
        proof {
            assert forall|j: int| 0 <= j < crossings@.len() implies tick_value(
                p0.ticks@,
                (#[trigger] crossings@[j]).tick_index as int,
            ).fee_growth_outside_a <= crossings@[j].global_a && tick_value(
                p0.ticks@,
                crossings@[j].tick_index as int,
            ).fee_growth_outside_b <= crossings@[j].global_b by {
                let idx = crossings@[j].tick_index as int;
                let i0 = choose|i: int| 0 <= i < p0.ticks@.len() && p0.ticks@[i].tick_index == idx;
                assert(tick_value(p0.ticks@, idx) == p0.ticks@[i0]);
            }
        }
        apply_crossings(&mut self.ticks, &crossings);
        self.sqrt_price_x64 = sim.sqrt_price;
        self.current_tick = sim.tick;
        self.liquidity = sim.liquidity;
        self.fee_growth_global_a = sim.global_a;
        self.fee_growth_global_b = sim.global_b;
        proof {
            lemma_swap_commit_wf(p0, *self, crossings@);
            if sim.remaining > 0 {
                assert forall|j: int| 0 <= j < self.ticks@.len() implies (match direction {
                    SwapDirection::AToB => (#[trigger] self.ticks@[j]).tick_index
                        > self.current_tick,
                    SwapDirection::BToA => (#[trigger] self.ticks@[j]).tick_index
                        <= self.current_tick,
                }) by {
                    crate::tick::lemma_tick_value_at(self.ticks@, j);
                    let idx = self.ticks@[j].tick_index as int;
                    assert(has_tick(p0.ticks@, idx));
                    let i0 = choose|i: int|
                        0 <= i < p0.ticks@.len() && p0.ticks@[i].tick_index == idx;
                }
            }
        }
        Ok(SwapOutcome { amount_in_spent: spent, amount_out: sim.amount_out })
    }
}

/// After a swap commits, the store is consistent again: flipping outside
/// snapshots moves no liquidity, and the simulated scalars carry the
/// active-liquidity identity to the new tick.
proof fn lemma_swap_commit_wf(p0: crate::pool::PoolClmm, p1: crate::pool::PoolClmm, cs: Seq<Crossing>)
    requires
        p0.wf(),
        ticks_sorted(p1.ticks@),
        forall|i: int| #[trigger] has_tick(p1.ticks@, i) <==> has_tick(p0.ticks@, i),
        forall|j: int|
            0 <= j < cs.len() ==> tick_value(p1.ticks@, (#[trigger] cs[j]).tick_index as int)
                == spec_flip_tick(
                tick_value(p0.ticks@, cs[j].tick_index as int),
                cs[j].global_a,
                cs[j].global_b,
            ),
        forall|i: int|
            !spec_crossed(cs, i) ==> #[trigger] tick_value(p1.ticks@, i) == tick_value(
                p0.ticks@,
                i,
            ),
        forall|j: int|
            0 <= j < cs.len() ==> tick_value(
                p0.ticks@,
                (#[trigger] cs[j]).tick_index as int,
            ).fee_growth_outside_a <= cs[j].global_a && tick_value(
                p0.ticks@,
                cs[j].tick_index as int,
            ).fee_growth_outside_b <= cs[j].global_b,
        forall|j: int|
            0 <= j < cs.len() ==> (#[trigger] cs[j]).global_a <= p1.fee_growth_global_a
                && cs[j].global_b <= p1.fee_growth_global_b,
        p1.fee_growth_global_a >= p0.fee_growth_global_a,
        p1.fee_growth_global_b >= p0.fee_growth_global_b,
        crate::tick::MIN_TICK - 1 <= p1.current_tick <= crate::tick::MAX_TICK,
        crate::tick::spec_sqrt_price_at_tick(p1.current_tick as int) <= p1.sqrt_price_x64,
        p1.sqrt_price_x64 <= crate::tick::spec_sqrt_price_at_tick(p1.current_tick as int + 1),
        p1.liquidity == net_sum_upto(p1.ticks@, p1.current_tick as int),
        p1.positions@ == p0.positions@,
        p1.tick_spacing == p0.tick_spacing,
    ensures
        p1.wf(),
{
    assert forall|k: int| 0 <= k < p1.ticks@.len() implies (#[trigger] p1.ticks@[k]).tick_index
        >= crate::tick::MIN_TICK && p1.ticks@[k].tick_index <= crate::tick::MAX_TICK
        && crate::pool::spec_aligned(p1.tick_spacing, p1.ticks@[k].tick_index as int)
        && p1.ticks@[k].fee_growth_outside_a <= p1.fee_growth_global_a
        && p1.ticks@[k].fee_growth_outside_b <= p1.fee_growth_global_b by {
        crate::tick::lemma_tick_value_at(p1.ticks@, k);
        let idx = p1.ticks@[k].tick_index as int;
        assert(has_tick(p0.ticks@, idx));
        let i0 = choose|i: int| 0 <= i < p0.ticks@.len() && p0.ticks@[i].tick_index == idx;
        assert(tick_value(p0.ticks@, idx) == p0.ticks@[i0]);
        if spec_crossed(cs, idx) {
            let j = choose|j: int| 0 <= j < cs.len() && cs[j].tick_index == idx;
            assert(tick_value(p1.ticks@, idx) == spec_flip_tick(
                tick_value(p0.ticks@, idx),
                cs[j].global_a,
                cs[j].global_b,
            ));
        } else {
            assert(tick_value(p1.ticks@, idx) == tick_value(p0.ticks@, idx));
        }
    }
}

} // verus!
