use vstd::prelude::*;

verus! {

/// Lowest tick index a pool can reference.
pub const MIN_TICK: i32 = -1_000_000;

/// Highest tick index a pool can reference.
pub const MAX_TICK: i32 = 1_000_000;

/// Width of one tick in square-root price, in Q64.64: `2^44`.  Price buckets
/// are uniform in square-root price, so the map between a tick index and the
/// square-root price at its boundary is exact in both directions.
pub const TICK_STEP: u128 = 0x1000_0000_0000;

/// The square-root price at the lower boundary of tick `i`.
pub open spec fn spec_sqrt_price_at_tick(i: int) -> int {
    crate::fixed::Q64 + i * TICK_STEP
}

/// A price bucket boundary.  A tick is created the first time a position
/// references it and is pruned once no position does; `liquidity_net` is
/// positive at a position's lower tick and negative at its upper tick, so
/// that walking ticks upward and summing nets yields the liquidity active
/// in each bucket.
#[derive(Clone, Copy, Debug, PartialEq, Eq, Structural)]
pub struct Tick {
    pub tick_index: i32,
    /// Liquidity added when the price enters from below, removed when it
    /// leaves downward.
    pub liquidity_net: i128,
    /// Total liquidity of all positions referencing this tick; the tick can
    /// be pruned exactly when this is zero.
    pub liquidity_gross: u128,
    /// Fee growth accumulated on the far side of this tick, per unit of
    /// liquidity, Q64.64; flipped against the global accumulator on every
    /// crossing.
    pub fee_growth_outside_a: u128,
    pub fee_growth_outside_b: u128,
}

/// A freshly referenced tick, before any position's liquidity is recorded.
pub open spec fn spec_zero_tick(idx: i32) -> Tick {
    Tick {
        tick_index: idx,
        liquidity_net: 0,
        liquidity_gross: 0,
        fee_growth_outside_a: 0,
        fee_growth_outside_b: 0,
    }
}

/// The registry holds ticks in strictly increasing index order.
pub open spec fn ticks_sorted(s: Seq<Tick>) -> bool {
    forall|i: int, j: int|
        0 <= i < j < s.len() ==> s[i].tick_index < s[j].tick_index
}

/// Whether some tick in the registry has index `idx`.
pub open spec fn has_tick(s: Seq<Tick>, idx: int) -> bool {
    exists|i: int| 0 <= i < s.len() && s[i].tick_index == idx
}

/// What one tick contributes to the liquidity active at tick `t`.
pub open spec fn net_contrib(v: Tick, t: int) -> int {
    if v.tick_index <= t {
        v.liquidity_net as int
    } else {
        0
    }
}

/// The sum of `liquidity_net` over all ticks with index at most `t`: the
/// liquidity active in the bucket holding `t`.
pub open spec fn net_sum_upto(s: Seq<Tick>, t: int) -> int
    decreases s.len(),
{
    if s.len() == 0 {
        0
    } else {
        net_sum_upto(s.drop_last(), t) + net_contrib(s.last(), t)
    }
}

/// The boundary price map is strictly increasing in the tick index.
pub proof fn lemma_sqrt_price_monotone(a: int, b: int)
    requires
        a <= b,
    ensures
        spec_sqrt_price_at_tick(a) <= spec_sqrt_price_at_tick(b),
        a < b ==> spec_sqrt_price_at_tick(a) + TICK_STEP <= spec_sqrt_price_at_tick(b),
{
    assert(a * TICK_STEP <= b * TICK_STEP && (a < b ==> a * TICK_STEP + TICK_STEP <= b
        * TICK_STEP)) by (nonlinear_arith)
        requires
            a <= b,
            TICK_STEP > 0,
    ;
}

/// The square-root price at the lower boundary of tick `i`, as a `u128`.
pub fn sqrt_price_at_tick(i: i32) -> (r: u128)
    requires
        MIN_TICK <= i <= MAX_TICK + 1,
    ensures
        r == spec_sqrt_price_at_tick(i as int),
        r > 0,
{
    if i >= 0 {
        crate::fixed::Q64 + (i as u128) * TICK_STEP
    } else {
        crate::fixed::Q64 - ((-i) as u128) * TICK_STEP
    }
}

/// The tick bucket holding square-root price `p`: the unique `t` with
/// `sqrt_price_at_tick(t) <= p < sqrt_price_at_tick(t + 1)`.
pub fn tick_at_sqrt_price(p: u128) -> (t: i32)
    requires
        spec_sqrt_price_at_tick(MIN_TICK as int) <= p < spec_sqrt_price_at_tick(MAX_TICK as int + 1),
    ensures
        MIN_TICK <= t <= MAX_TICK,
        spec_sqrt_price_at_tick(t as int) <= p < spec_sqrt_price_at_tick(t as int + 1),
{
    let q64 = crate::fixed::Q64;
    if p >= q64 {
        let d = (p - q64) / TICK_STEP;
        let t = d as i32;
        proof {
            assert(d * TICK_STEP <= (p - q64) < (d + 1) * TICK_STEP) by (nonlinear_arith)
                requires
                    d == (p - q64) as int / TICK_STEP as int,
                    TICK_STEP > 0,
                    p >= q64,
            ;
        }
        t
    } else {
        let q = q64 - p;
        let d = (q + TICK_STEP - 1) / TICK_STEP;
        let t = -(d as i32);
        proof {
            assert((d - 1) * TICK_STEP < q <= d * TICK_STEP) by (nonlinear_arith)
                requires
                    d == (q + TICK_STEP - 1) as int / TICK_STEP as int,
                    TICK_STEP > 0,
                    q > 0,
            ;
        }
        t
    }
}

/// The position of the tick with index `idx` in the registry, if present.
pub fn find_tick(ticks: &Vec<Tick>, idx: i32) -> (r: Option<usize>)
    ensures
        match r {
            Some(k) => k < ticks@.len() && ticks@[k as int].tick_index == idx,
            None => !has_tick(ticks@, idx as int),
        },
{
    let n = ticks.len();
    let mut i: usize = 0;
    while i < n
        invariant
            i <= n == ticks@.len(),
            forall|j: int| 0 <= j < i ==> ticks@[j].tick_index != idx,
        decreases n - i,
    {
        if ticks[i].tick_index == idx {
            return Some(i);
        }
        i = i + 1;
    }
    None
}

/// Looks up the tick with index `idx`, creating a zero-initialized one in
/// sorted position on first reference.  Returns its position.
pub fn get_or_create_tick(ticks: &mut Vec<Tick>, idx: i32) -> (k: usize)
    requires
        ticks_sorted(old(ticks)@),
    ensures
        ticks_sorted(final(ticks)@),
        k < final(ticks)@.len(),
        k <= old(ticks)@.len(),
        final(ticks)@[k as int].tick_index == idx,
        has_tick(old(ticks)@, idx as int) ==> final(ticks)@ == old(ticks)@,
        !has_tick(old(ticks)@, idx as int) ==> final(ticks)@ == old(ticks)@.insert(
            k as int,
            spec_zero_tick(idx),
        ),
{
    let mut i: usize = 0;
    while i < ticks.len() && ticks[i].tick_index < idx
        invariant
            ticks@ == old(ticks)@,
            ticks_sorted(ticks@),
            i <= ticks@.len(),
            forall|j: int| 0 <= j < i ==> ticks@[j].tick_index < idx,
        decreases ticks@.len() - i,
    {
        i = i + 1;
    }
    if i < ticks.len() && ticks[i].tick_index == idx {
        return i;
    }
    proof {
        assert(forall|j: int| i <= j < ticks@.len() ==> ticks@[j].tick_index > idx) by {
            assert forall|j: int| i <= j < ticks@.len() implies ticks@[j].tick_index > idx by {
                if j > i {
                    assert(ticks@[i as int].tick_index < ticks@[j].tick_index);
                }
            }
        }
        assert(!has_tick(ticks@, idx as int));
    }
    let t = Tick {
        tick_index: idx,
        liquidity_net: 0,
        liquidity_gross: 0,
        fee_growth_outside_a: 0,
        fee_growth_outside_b: 0,
    };
    let ghost s0 = ticks@;
    ticks.insert(i, t);
    proof {
        assert(ticks@ == s0.insert(i as int, spec_zero_tick(idx)));
        assert forall|a: int, b: int| 0 <= a < b < ticks@.len() implies ticks@[a].tick_index
            < ticks@[b].tick_index by {
            if a < i && b < i {
            } else if a < i && b == i {
            } else if a < i && b > i {
            } else if a == i {
            } else {
            }
        }
    }
    i
}

/// Deletes the tick at position `k` once no position references it.
pub fn prune_tick(ticks: &mut Vec<Tick>, k: usize)
    requires
        ticks_sorted(old(ticks)@),
        k < old(ticks)@.len(),
        old(ticks)@[k as int].liquidity_gross == 0,
    ensures
        ticks_sorted(final(ticks)@),
        final(ticks)@ == old(ticks)@.remove(k as int),
{
    ticks.remove(k);
}

/// The position of the last tick with index at most `t`, if any: the
/// spec-level counterpart of `next_tick_below`.
pub open spec fn spec_next_below(s: Seq<Tick>, t: int) -> Option<int>
    decreases s.len(),
{
    if s.len() == 0 {
        None
    } else if s.last().tick_index <= t {
        Some(s.len() - 1)
    } else {
        spec_next_below(s.drop_last(), t)
    }
}

/// When `spec_next_below` finds a tick, it is a valid position at or
/// below the cutoff.
pub proof fn lemma_spec_next_below_bounds(s: Seq<Tick>, t: int)
    requires
        spec_next_below(s, t) is Some,
    ensures
        0 <= spec_next_below(s, t)->0 < s.len(),
        s[spec_next_below(s, t)->0].tick_index <= t,
    decreases s.len(),
{
    if s.len() > 0 && s.last().tick_index > t {
        lemma_spec_next_below_bounds(s.drop_last(), t);
    }
}

/// `next_tick_below`'s characterization picks out `spec_next_below`.
pub proof fn lemma_next_below_spec(s: Seq<Tick>, t: int, k: int)
    requires
        0 <= k < s.len(),
        s[k].tick_index <= t,
        forall|j: int| k < j < s.len() ==> s[j].tick_index > t,
    ensures
        spec_next_below(s, t) == Some(k),
    decreases s.len(),
{
    if k == s.len() - 1 {
    } else {
        assert(s.last().tick_index > t);
        assert(forall|j: int|
            k < j < s.drop_last().len() ==> s.drop_last()[j].tick_index > t);
        lemma_next_below_spec(s.drop_last(), t, k);
    }
}

/// The position of the first tick with index above `t`, if any: the
/// spec-level counterpart of `next_tick_above`.
pub open spec fn spec_next_above(s: Seq<Tick>, t: int) -> Option<int>
    decreases s.len(),
{
    if s.len() == 0 {
        None
    } else if s[0].tick_index > t {
        Some(0)
    } else {
        match spec_next_above(s.drop_first(), t) {
            Some(k) => Some(k + 1),
            None => None,
        }
    }
}

/// `next_tick_above`'s characterization picks out `spec_next_above`.
pub proof fn lemma_next_above_spec(s: Seq<Tick>, t: int, k: int)
    requires
        0 <= k < s.len(),
        s[k].tick_index > t,
        forall|j: int| 0 <= j < k ==> s[j].tick_index <= t,
    ensures
        spec_next_above(s, t) == Some(k),
    decreases s.len(),
{
    if k > 0 {
        assert(forall|j: int| 0 <= j < k - 1 ==> s.drop_first()[j].tick_index <= t);
        assert(s.drop_first()[k - 1].tick_index > t);
        lemma_next_above_spec(s.drop_first(), t, k - 1);
    }
}

/// When `spec_next_above` finds a tick, it is a valid position above the
/// cutoff.
pub proof fn lemma_spec_next_above_bounds(s: Seq<Tick>, t: int)
    requires
        spec_next_above(s, t) is Some,
    ensures
        0 <= spec_next_above(s, t)->0 < s.len(),
        s[spec_next_above(s, t)->0].tick_index > t,
    decreases s.len(),
{
    if s.len() > 0 && !(s[0].tick_index > t) {
        lemma_spec_next_above_bounds(s.drop_first(), t);
    }
}

/// The position of the greatest initialized tick with index at most `t`:
/// the next boundary a downward swap will reach.
pub fn next_tick_below(ticks: &Vec<Tick>, t: i32) -> (r: Option<usize>)
    requires
        ticks_sorted(ticks@),
    ensures
        match r {
            Some(k) => k < ticks@.len() && ticks@[k as int].tick_index <= t && forall|j: int|
                k < j < ticks@.len() ==> ticks@[j].tick_index > t,
            None => forall|j: int| 0 <= j < ticks@.len() ==> ticks@[j].tick_index > t,
        },
{
    let n = ticks.len();
    let mut i: usize = n;
    while i > 0
        invariant
            i <= n == ticks@.len(),
            forall|j: int| i <= j < n ==> ticks@[j].tick_index > t,
        decreases i,
    {
        i = i - 1;
        if ticks[i].tick_index <= t {
            return Some(i);
        }
    }
    None
}

/// The position of the least initialized tick with index strictly above
/// `t`: the next boundary an upward swap will reach.
pub fn next_tick_above(ticks: &Vec<Tick>, t: i32) -> (r: Option<usize>)
    requires
        ticks_sorted(ticks@),
    ensures
        match r {
            Some(k) => k < ticks@.len() && ticks@[k as int].tick_index > t && forall|j: int|
                0 <= j < k ==> ticks@[j].tick_index <= t,
            None => forall|j: int| 0 <= j < ticks@.len() ==> ticks@[j].tick_index <= t,
        },
{
    let n = ticks.len();
    let mut i: usize = 0;
    while i < n
        invariant
            i <= n == ticks@.len(),
            forall|j: int| 0 <= j < i ==> ticks@[j].tick_index <= t,
        decreases n - i,
    {
        if ticks[i].tick_index > t {
            return Some(i);
        }
        i = i + 1;
    }
    None
}

/// Replacing one tick shifts the active-liquidity sum by the difference of
/// the contributions.
pub proof fn lemma_net_sum_upto_update(s: Seq<Tick>, k: int, v: Tick, t: int)
    requires
        0 <= k < s.len(),
    ensures
        net_sum_upto(s.update(k, v), t) == net_sum_upto(s, t) - net_contrib(s[k], t)
            + net_contrib(v, t),
    decreases s.len(),
{
    let s2 = s.update(k, v);
    if k == s.len() - 1 {
        assert(s2.drop_last() =~= s.drop_last());
        assert(s2.last() == v);
    } else {
        assert(s2.drop_last() =~= s.drop_last().update(k, v));
        assert(s2.last() == s.last());
        lemma_net_sum_upto_update(s.drop_last(), k, v, t);
    }
}

/// Inserting a tick adds exactly its own contribution.
pub proof fn lemma_net_sum_upto_insert(s: Seq<Tick>, k: int, v: Tick, t: int)
    requires
        0 <= k <= s.len(),
    ensures
        net_sum_upto(s.insert(k, v), t) == net_sum_upto(s, t) + net_contrib(v, t),
    decreases s.len(),
{
    let s2 = s.insert(k, v);
    if k == s.len() {
        assert(s2.drop_last() =~= s);
        assert(s2.last() == v);
    } else {
        assert(s2.drop_last() =~= s.drop_last().insert(k, v));
        assert(s2.last() == s.last());
        lemma_net_sum_upto_insert(s.drop_last(), k, v, t);
    }
}

/// Removing a tick takes away exactly its own contribution.
pub proof fn lemma_net_sum_upto_remove(s: Seq<Tick>, k: int, t: int)
    requires
        0 <= k < s.len(),
    ensures
        net_sum_upto(s.remove(k), t) == net_sum_upto(s, t) - net_contrib(s[k], t),
{
    assert(s.remove(k).insert(k, s[k]) =~= s);
    lemma_net_sum_upto_insert(s.remove(k), k, s[k], t);
}

/// When no tick lies in `(a, b]`, the liquidity active at `a` and at `b`
/// is the same.
pub proof fn lemma_net_sum_upto_range(s: Seq<Tick>, a: int, b: int)
    requires
        a <= b,
        forall|j: int| 0 <= j < s.len() ==> !(a < #[trigger] s[j].tick_index <= b),
    ensures
        net_sum_upto(s, a) == net_sum_upto(s, b),
    decreases s.len(),
{
    if s.len() > 0 {
        assert(forall|j: int|
            0 <= j < s.drop_last().len() ==> !(a < #[trigger] s.drop_last()[j].tick_index <= b));
        lemma_net_sum_upto_range(s.drop_last(), a, b);
        assert(net_contrib(s.last(), a) == net_contrib(s.last(), b));
    }
}

/// Crossing boundary: the liquidity active at tick `t` differs from the
/// liquidity active at `t - 1` by the net of the tick standing at `t`.
pub proof fn lemma_net_sum_upto_at(s: Seq<Tick>, k: int, t: int)
    requires
        ticks_sorted(s),
        0 <= k < s.len(),
        s[k].tick_index == t,
    ensures
        net_sum_upto(s, t) == net_sum_upto(s, t - 1) + s[k].liquidity_net,
    decreases s.len(),
{
    assert(forall|i: int, j: int|
        0 <= i < j < s.drop_last().len() ==> s.drop_last()[i].tick_index
            < s.drop_last()[j].tick_index);
    if k == s.len() - 1 {
        assert(forall|j: int| 0 <= j < s.drop_last().len() ==> s.drop_last()[j].tick_index < t);
        lemma_net_sum_upto_range(s.drop_last(), t - 1, t);
        assert(net_contrib(s.last(), t) == s[k].liquidity_net);
        assert(net_contrib(s.last(), t - 1) == 0);
    } else {
        assert(s.last().tick_index > t);
        assert(net_contrib(s.last(), t) == 0);
        assert(net_contrib(s.last(), t - 1) == 0);
        lemma_net_sum_upto_at(s.drop_last(), k, t);
    }
}

/// The record the registry holds under index `idx`, or a zero tick when the
/// index was never referenced.  Together with `has_tick` this is the
/// registry's pointwise view: contracts describe what an operation does to
/// it, index by index.
pub open spec fn tick_value(s: Seq<Tick>, idx: int) -> Tick {
    if has_tick(s, idx) {
        s[choose|i: int| 0 <= i < s.len() && s[i].tick_index == idx]
    } else {
        spec_zero_tick(idx as i32)
    }
}

/// In a sorted registry an index names at most one tick.
pub proof fn lemma_sorted_unique(s: Seq<Tick>, i: int, j: int)
    requires
        ticks_sorted(s),
        0 <= i < s.len(),
        0 <= j < s.len(),
        s[i].tick_index == s[j].tick_index,
    ensures
        i == j,
{
    if i < j {
        assert(s[i].tick_index < s[j].tick_index);
    }
    if j < i {
        assert(s[j].tick_index < s[i].tick_index);
    }
}

/// The pointwise view agrees with the stored record.
pub proof fn lemma_tick_value_at(s: Seq<Tick>, k: int)
    requires
        ticks_sorted(s),
        0 <= k < s.len(),
    ensures
        has_tick(s, s[k].tick_index as int),
        tick_value(s, s[k].tick_index as int) == s[k],
{
    let idx = s[k].tick_index as int;
    assert(0 <= k < s.len() && s[k].tick_index == idx);
    let i = choose|i: int| 0 <= i < s.len() && s[i].tick_index == idx;
    lemma_sorted_unique(s, i, k);
}

/// Replacing a record in place changes the pointwise view at that index
/// alone.
pub proof fn lemma_tick_value_update(s: Seq<Tick>, k: int, v: Tick)
    requires
        ticks_sorted(s),
        0 <= k < s.len(),
        v.tick_index == s[k].tick_index,
    ensures
        ticks_sorted(s.update(k, v)),
        has_tick(s.update(k, v), v.tick_index as int),
        tick_value(s.update(k, v), v.tick_index as int) == v,
        forall|idx: int|
            idx != v.tick_index ==> #[trigger] tick_value(s.update(k, v), idx) == tick_value(
                s,
                idx,
            ),
        forall|idx: int|
            idx != v.tick_index ==> (#[trigger] has_tick(s.update(k, v), idx) <==> has_tick(
                s,
                idx,
            )),
{
    let s2 = s.update(k, v);
    assert(forall|i: int| 0 <= i < s.len() ==> s2[i].tick_index == s[i].tick_index);
    lemma_tick_value_at(s2, k);
    assert forall|idx: int| idx != v.tick_index implies (#[trigger] has_tick(s2, idx) <==> has_tick(
        s,
        idx,
    )) by {
        if has_tick(s2, idx) {
            let i = choose|i: int| 0 <= i < s2.len() && s2[i].tick_index == idx;
            assert(0 <= i < s.len() && s[i].tick_index == idx);
        }
        if has_tick(s, idx) {
            let i = choose|i: int| 0 <= i < s.len() && s[i].tick_index == idx;
            assert(0 <= i < s2.len() && s2[i].tick_index == idx);
        }
    }
    assert forall|idx: int| idx != v.tick_index implies #[trigger] tick_value(s2, idx)
        == tick_value(s, idx) by {
        if has_tick(s, idx) {
            let i = choose|i: int| 0 <= i < s.len() && s[i].tick_index == idx;
            let i2 = choose|i: int| 0 <= i < s2.len() && s2[i].tick_index == idx;
            lemma_sorted_unique(s2, i, i2);
            assert(i != k);
        }
    }
}

/// A record inserted under a fresh index appears in the pointwise view at
/// that index alone.
pub proof fn lemma_tick_value_insert(s: Seq<Tick>, k: int, v: Tick)
    requires
        0 <= k <= s.len(),
        ticks_sorted(s.insert(k, v)),
        !has_tick(s, v.tick_index as int),
    ensures
        has_tick(s.insert(k, v), v.tick_index as int),
        tick_value(s.insert(k, v), v.tick_index as int) == v,
        forall|idx: int|
            idx != v.tick_index ==> #[trigger] tick_value(s.insert(k, v), idx) == tick_value(
                s,
                idx,
            ),
        forall|idx: int|
            idx != v.tick_index ==> (#[trigger] has_tick(s.insert(k, v), idx) <==> has_tick(
                s,
                idx,
            )),
{
    let s2 = s.insert(k, v);
    assert(s2[k] == v);
    lemma_tick_value_at(s2, k);
    assert forall|idx: int| idx != v.tick_index implies (#[trigger] has_tick(s2, idx) <==> has_tick(
        s,
        idx,
    )) by {
        if has_tick(s2, idx) {
            let i = choose|i: int| 0 <= i < s2.len() && s2[i].tick_index == idx;
            if i < k {
                assert(0 <= i < s.len() && s[i].tick_index == idx);
            } else {
                assert(i != k);
                assert(0 <= i - 1 < s.len() && s[i - 1].tick_index == idx);
            }
        }
        if has_tick(s, idx) {
            let i = choose|i: int| 0 <= i < s.len() && s[i].tick_index == idx;
            if i < k {
                assert(0 <= i < s2.len() && s2[i].tick_index == idx);
            } else {
                assert(0 <= i + 1 < s2.len() && s2[i + 1].tick_index == idx);
            }
        }
    }
    assert forall|idx: int| idx != v.tick_index implies #[trigger] tick_value(s2, idx)
        == tick_value(s, idx) by {
        if has_tick(s, idx) {
            let i = choose|i: int| 0 <= i < s.len() && s[i].tick_index == idx;
            assert(has_tick(s2, idx)) by {
                if i < k {
                    assert(0 <= i < s2.len() && s2[i].tick_index == idx);
                } else {
                    assert(0 <= i + 1 < s2.len() && s2[i + 1].tick_index == idx);
                }
            }
            let i2 = choose|i: int| 0 <= i < s2.len() && s2[i].tick_index == idx;
            assert(i2 != k);
            if i < k {
                lemma_sorted_unique(s2, i, i2);
            } else {
                lemma_sorted_unique(s2, i + 1, i2);
            }
        }
    }
}

/// Writes the two boundary records of one position range, creating either
/// tick on first reference.  Everything the registry knows about any other
/// index is untouched, and the active-liquidity sums move by exactly the
/// change in the two records' contributions.
pub fn apply_tick_deltas(
    ticks: &mut Vec<Tick>,
    tick_lower: i32,
    tick_upper: i32,
    nlt: Tick,
    nut: Tick,
)
    requires
        ticks_sorted(old(ticks)@),
        tick_lower < tick_upper,
        nlt.tick_index == tick_lower,
        nut.tick_index == tick_upper,
    ensures
        ticks_sorted(final(ticks)@),
        tick_value(final(ticks)@, tick_lower as int) == nlt,
        tick_value(final(ticks)@, tick_upper as int) == nut,
        forall|i: int|
            i != tick_lower && i != tick_upper ==> #[trigger] tick_value(final(ticks)@, i)
                == tick_value(old(ticks)@, i),
        forall|i: int|
            #[trigger] has_tick(final(ticks)@, i) <==> has_tick(old(ticks)@, i) || i == tick_lower
                || i == tick_upper,
        forall|t: int|
            #[trigger] net_sum_upto(final(ticks)@, t) == net_sum_upto(old(ticks)@, t)
                + net_contrib(nlt, t) - net_contrib(
                tick_value(old(ticks)@, tick_lower as int),
                t,
            ) + net_contrib(nut, t) - net_contrib(tick_value(old(ticks)@, tick_upper as int), t),
{
    let ghost s0 = ticks@;
    let ghost lt = tick_value(s0, tick_lower as int);
    let ghost ut = tick_value(s0, tick_upper as int);
    let kl = get_or_create_tick(ticks, tick_lower);
    let ghost s1 = ticks@;
    proof {
        if !has_tick(s0, tick_lower as int) {
            lemma_tick_value_insert(s0, kl as int, spec_zero_tick(tick_lower));
        }
        lemma_tick_value_at(s1, kl as int);
        assert(s1[kl as int] == lt);
    }
    ticks[kl] = nlt;
    let ghost s2 = ticks@;
    proof {
        lemma_tick_value_update(s1, kl as int, nlt);
    }
    let ku = get_or_create_tick(ticks, tick_upper);
    let ghost s3 = ticks@;
    proof {
        if !has_tick(s2, tick_upper as int) {
            lemma_tick_value_insert(s2, ku as int, spec_zero_tick(tick_upper));
        }
        lemma_tick_value_at(s3, ku as int);
        assert(tick_value(s2, tick_upper as int) == ut);
        assert(s3[ku as int] == ut);
    }
    ticks[ku] = nut;
    let ghost s4 = ticks@;
    proof {
        lemma_tick_value_update(s3, ku as int, nut);
        assert(tick_value(s4, tick_lower as int) == nlt) by {
            assert(tick_value(s3, tick_lower as int) == tick_value(s2, tick_lower as int));
            assert(tick_value(s4, tick_lower as int) == tick_value(s3, tick_lower as int));
        }
        assert forall|i: int| i != tick_lower && i != tick_upper implies #[trigger] tick_value(
            s4,
            i,
        ) == tick_value(s0, i) by {
            assert(tick_value(s4, i) == tick_value(s3, i));
            assert(tick_value(s3, i) == tick_value(s2, i));
            assert(tick_value(s2, i) == tick_value(s1, i));
            assert(tick_value(s1, i) == tick_value(s0, i));
        }
        assert forall|i: int| (#[trigger] has_tick(s4, i) <==> has_tick(s0, i) || i == tick_lower
            || i == tick_upper) by {
            if i == tick_lower {
                assert(has_tick(s2, i));
                assert(has_tick(s3, i));
                assert(has_tick(s4, i));
            } else if i == tick_upper {
                assert(has_tick(s3, i));
                assert(has_tick(s4, i));
            } else {
                assert(has_tick(s4, i) <==> has_tick(s3, i));
                assert(has_tick(s3, i) <==> has_tick(s2, i));
                assert(has_tick(s2, i) <==> has_tick(s1, i));
                assert(has_tick(s1, i) <==> has_tick(s0, i));
            }
        }
        assert forall|t: int| #[trigger] net_sum_upto(s4, t) == net_sum_upto(s0, t) + net_contrib(
            nlt,
            t,
        ) - net_contrib(lt, t) + net_contrib(nut, t) - net_contrib(ut, t) by {
            if !has_tick(s0, tick_lower as int) {
                lemma_net_sum_upto_insert(s0, kl as int, spec_zero_tick(tick_lower), t);
            }
            lemma_net_sum_upto_update(s1, kl as int, nlt, t);
            if !has_tick(s2, tick_upper as int) {
                lemma_net_sum_upto_insert(s2, ku as int, spec_zero_tick(tick_upper), t);
            }
            lemma_net_sum_upto_update(s3, ku as int, nut, t);
        }
    }
}

/// Removing a record erases the pointwise view at its index alone.
pub proof fn lemma_tick_value_remove(s: Seq<Tick>, k: int)
    requires
        ticks_sorted(s),
        0 <= k < s.len(),
    ensures
        ticks_sorted(s.remove(k)),
        !has_tick(s.remove(k), s[k].tick_index as int),
        forall|idx: int|
            idx != s[k].tick_index ==> #[trigger] tick_value(s.remove(k), idx) == tick_value(
                s,
                idx,
            ),
        forall|idx: int|
            idx != s[k].tick_index ==> (#[trigger] has_tick(s.remove(k), idx) <==> has_tick(
                s,
                idx,
            )),
{
    let s2 = s.remove(k);
    let t = s[k].tick_index;
    assert forall|a: int, b: int| 0 <= a < b < s2.len() implies s2[a].tick_index
        < s2[b].tick_index by {
        if b < k {
        } else if a < k {
            assert(s2[b] == s[b + 1]);
        } else {
            assert(s2[a] == s[a + 1] && s2[b] == s[b + 1]);
        }
    }
    assert(!has_tick(s2, t as int)) by {
        if has_tick(s2, t as int) {
            let i = choose|i: int| 0 <= i < s2.len() && s2[i].tick_index == t;
            if i < k {
                lemma_sorted_unique(s, i, k);
            } else {
                lemma_sorted_unique(s, i + 1, k);
            }
        }
    }
    assert forall|idx: int| idx != t implies (#[trigger] has_tick(s2, idx) <==> has_tick(
        s,
        idx,
    )) by {
        if has_tick(s2, idx) {
            let i = choose|i: int| 0 <= i < s2.len() && s2[i].tick_index == idx;
            if i < k {
                assert(0 <= i < s.len() && s[i].tick_index == idx);
            } else {
                assert(0 <= i + 1 < s.len() && s[i + 1].tick_index == idx);
            }
        }
        if has_tick(s, idx) {
            let i = choose|i: int| 0 <= i < s.len() && s[i].tick_index == idx;
            assert(i != k);
            if i < k {
                assert(0 <= i < s2.len() && s2[i].tick_index == idx);
            } else {
                assert(0 <= i - 1 < s2.len() && s2[i - 1].tick_index == idx);
            }
        }
    }
    assert forall|idx: int| idx != t implies #[trigger] tick_value(s2, idx) == tick_value(
        s,
        idx,
    ) by {
        if has_tick(s, idx) {
            let i = choose|i: int| 0 <= i < s.len() && s[i].tick_index == idx;
            assert(i != k);
            assert(has_tick(s2, idx)) by {
                if i < k {
                    assert(0 <= i < s2.len() && s2[i].tick_index == idx);
                } else {
                    assert(0 <= i - 1 < s2.len() && s2[i - 1].tick_index == idx);
                }
            }
            let i2 = choose|i: int| 0 <= i < s2.len() && s2[i].tick_index == idx;
            if i2 < k {
                lemma_sorted_unique(s, i, i2);
            } else {
                lemma_sorted_unique(s, i, i2 + 1);
            }
        }
    }
}

} // verus!
