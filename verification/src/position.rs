use vstd::prelude::*;

verus! {

/// A liquidity provider's claim over one price range of one pool, keyed by
/// `(owner, tick_lower, tick_upper)`.  Created on the first liquidity add
/// for the range and destroyed only once both the liquidity and the owed
/// amounts are zero.
#[derive(Clone, Copy, Debug, PartialEq, Eq, Structural)]
pub struct Position {
    /// Identity that controls this position.
    pub owner: u64,
    pub tick_lower: i32,
    pub tick_upper: i32,
    pub liquidity: u128,
    /// Fee growth inside the range, per unit of liquidity, Q64.64, recorded
    /// at the last fee settlement.
    pub fee_growth_checkpoint_a: u128,
    pub fee_growth_checkpoint_b: u128,
    /// Fees accrued to the owner and not yet paid out.
    pub tokens_owed_a: u64,
    pub tokens_owed_b: u64,
}

/// Whether a position record answers to the key `(owner, lower, upper)`.
pub open spec fn position_keyed(p: Position, owner: u64, lower: i32, upper: i32) -> bool {
    p.owner == owner && p.tick_lower == lower && p.tick_upper == upper
}

/// Whether the store holds a position under the key.
pub open spec fn has_position(s: Seq<Position>, owner: u64, lower: i32, upper: i32) -> bool {
    exists|i: int| 0 <= i < s.len() && position_keyed(s[i], owner, lower, upper)
}

/// Position keys are unique: any caller can recompute a record's place from
/// its identifying tuple alone.
pub open spec fn positions_unique(s: Seq<Position>) -> bool {
    forall|i: int, j: int|
        0 <= i < j < s.len() ==> !(#[trigger] position_keyed(
            s[i],
            s[j].owner,
            s[j].tick_lower,
            s[j].tick_upper,
        ))
}

/// The place of the position keyed `(owner, lower, upper)`, if any.
pub fn find_position(positions: &Vec<Position>, owner: u64, lower: i32, upper: i32) -> (r: Option<
    usize,
>)
    ensures
        match r {
            Some(k) => k < positions@.len() && position_keyed(
                positions@[k as int],
                owner,
                lower,
                upper,
            ),
            None => !has_position(positions@, owner, lower, upper),
        },
{
    let n = positions.len();
    let mut i: usize = 0;
    while i < n
        invariant
            i <= n == positions@.len(),
            forall|j: int|
                0 <= j < i ==> !position_keyed(#[trigger] positions@[j], owner, lower, upper),
        decreases n - i,
    {
        let p = &positions[i];
        if p.owner == owner && p.tick_lower == lower && p.tick_upper == upper {
            return Some(i);
        }
        i = i + 1;
    }
    None
}

/// A position record before any liquidity or fees accrue to it.
pub open spec fn spec_empty_position(owner: u64, lower: i32, upper: i32) -> Position {
    Position {
        owner,
        tick_lower: lower,
        tick_upper: upper,
        liquidity: 0,
        fee_growth_checkpoint_a: 0,
        fee_growth_checkpoint_b: 0,
        tokens_owed_a: 0,
        tokens_owed_b: 0,
    }
}

/// The record the store holds under a key, or the empty record when the key
/// was never used: the store's pointwise view.
pub open spec fn position_value(s: Seq<Position>, owner: u64, lower: i32, upper: i32) -> Position {
    if has_position(s, owner, lower, upper) {
        s[choose|i: int| 0 <= i < s.len() && position_keyed(s[i], owner, lower, upper)]
    } else {
        spec_empty_position(owner, lower, upper)
    }
}

/// In a store with unique keys a key names at most one record.
pub proof fn lemma_position_unique(s: Seq<Position>, i: int, j: int)
    requires
        positions_unique(s),
        0 <= i < s.len(),
        0 <= j < s.len(),
        s[i].owner == s[j].owner,
        s[i].tick_lower == s[j].tick_lower,
        s[i].tick_upper == s[j].tick_upper,
    ensures
        i == j,
{
    if i < j {
        assert(position_keyed(s[i], s[j].owner, s[j].tick_lower, s[j].tick_upper));
    }
    if j < i {
        assert(position_keyed(s[j], s[i].owner, s[i].tick_lower, s[i].tick_upper));
    }
}

/// The pointwise view agrees with the stored record.
pub proof fn lemma_position_value_at(s: Seq<Position>, k: int)
    requires
        positions_unique(s),
        0 <= k < s.len(),
    ensures
        has_position(s, s[k].owner, s[k].tick_lower, s[k].tick_upper),
        position_value(s, s[k].owner, s[k].tick_lower, s[k].tick_upper) == s[k],
{
    let o = s[k].owner;
    let l = s[k].tick_lower;
    let u = s[k].tick_upper;
    assert(0 <= k < s.len() && position_keyed(s[k], o, l, u));
    let i = choose|i: int| 0 <= i < s.len() && position_keyed(s[i], o, l, u);
    lemma_position_unique(s, i, k);
}

/// Replacing a record in place changes the pointwise view at its key alone.
pub proof fn lemma_position_value_update(s: Seq<Position>, k: int, v: Position)
    requires
        positions_unique(s),
        0 <= k < s.len(),
        v.owner == s[k].owner,
        v.tick_lower == s[k].tick_lower,
        v.tick_upper == s[k].tick_upper,
    ensures
        positions_unique(s.update(k, v)),
        has_position(s.update(k, v), v.owner, v.tick_lower, v.tick_upper),
        position_value(s.update(k, v), v.owner, v.tick_lower, v.tick_upper) == v,
        forall|o: u64, l: i32, u: i32|
            !(o == v.owner && l == v.tick_lower && u == v.tick_upper)
                ==> #[trigger] position_value(s.update(k, v), o, l, u) == position_value(
                s,
                o,
                l,
                u,
            ) && (has_position(s.update(k, v), o, l, u) <==> has_position(s, o, l, u)),
{
    let s2 = s.update(k, v);
    assert forall|i: int, j: int| 0 <= i < j < s2.len() implies !(#[trigger] position_keyed(
        s2[i],
        s2[j].owner,
        s2[j].tick_lower,
        s2[j].tick_upper,
    )) by {
        if position_keyed(s2[i], s2[j].owner, s2[j].tick_lower, s2[j].tick_upper) {
            assert(position_keyed(s[i], s[j].owner, s[j].tick_lower, s[j].tick_upper));
        }
    }
    lemma_position_value_at(s2, k);
    assert forall|o: u64, l: i32, u: i32|
        !(o == v.owner && l == v.tick_lower && u == v.tick_upper) implies #[trigger] position_value(
        s2,
        o,
        l,
        u,
    ) == position_value(s, o, l, u) && (has_position(s2, o, l, u) <==> has_position(
        s,
        o,
        l,
        u,
    )) by {
        if has_position(s2, o, l, u) {
            let i = choose|i: int| 0 <= i < s2.len() && position_keyed(s2[i], o, l, u);
            assert(i != k);
            assert(position_keyed(s[i], o, l, u));
        }
        if has_position(s, o, l, u) {
            let i = choose|i: int| 0 <= i < s.len() && position_keyed(s[i], o, l, u);
            assert(i != k);
            assert(position_keyed(s2[i], o, l, u));
            let i2 = choose|i: int| 0 <= i < s2.len() && position_keyed(s2[i], o, l, u);
            assert(i2 != k);
            lemma_position_unique(s2, i, i2);
        }
    }
}

/// A record appended under a fresh key appears in the pointwise view at
/// that key alone.
pub proof fn lemma_position_value_push(s: Seq<Position>, v: Position)
    requires
        positions_unique(s),
        !has_position(s, v.owner, v.tick_lower, v.tick_upper),
    ensures
        positions_unique(s.push(v)),
        has_position(s.push(v), v.owner, v.tick_lower, v.tick_upper),
        position_value(s.push(v), v.owner, v.tick_lower, v.tick_upper) == v,
        forall|o: u64, l: i32, u: i32|
            !(o == v.owner && l == v.tick_lower && u == v.tick_upper)
                ==> #[trigger] position_value(s.push(v), o, l, u) == position_value(s, o, l, u) && (
            has_position(s.push(v), o, l, u) <==> has_position(s, o, l, u)),
{
    let s2 = s.push(v);
    assert(s2[s.len() as int] == v);
    assert forall|i: int, j: int| 0 <= i < j < s2.len() implies !(#[trigger] position_keyed(
        s2[i],
        s2[j].owner,
        s2[j].tick_lower,
        s2[j].tick_upper,
    )) by {
        if position_keyed(s2[i], s2[j].owner, s2[j].tick_lower, s2[j].tick_upper) {
            if j == s.len() {
                assert(position_keyed(s[i], v.owner, v.tick_lower, v.tick_upper));
            } else {
                assert(position_keyed(s[i], s[j].owner, s[j].tick_lower, s[j].tick_upper));
            }
        }
    }
    lemma_position_value_at(s2, s.len() as int);
    assert forall|o: u64, l: i32, u: i32|
        !(o == v.owner && l == v.tick_lower && u == v.tick_upper) implies #[trigger] position_value(
        s2,
        o,
        l,
        u,
    ) == position_value(s, o, l, u) && (has_position(s2, o, l, u) <==> has_position(
        s,
        o,
        l,
        u,
    )) by {
        if has_position(s2, o, l, u) {
            let i = choose|i: int| 0 <= i < s2.len() && position_keyed(s2[i], o, l, u);
            assert(i != s.len());
            assert(position_keyed(s[i], o, l, u));
        }
        if has_position(s, o, l, u) {
            let i = choose|i: int| 0 <= i < s.len() && position_keyed(s[i], o, l, u);
            assert(position_keyed(s2[i], o, l, u));
            let i2 = choose|i: int| 0 <= i < s2.len() && position_keyed(s2[i], o, l, u);
            assert(i2 != s.len());
            lemma_position_unique(s2, i, i2);
        }
    }
}

/// Removing a record erases the pointwise view at its key alone.
pub proof fn lemma_position_value_remove(s: Seq<Position>, k: int)
    requires
        positions_unique(s),
        0 <= k < s.len(),
    ensures
        positions_unique(s.remove(k)),
        !has_position(s.remove(k), s[k].owner, s[k].tick_lower, s[k].tick_upper),
        forall|o: u64, l: i32, u: i32|
            !(o == s[k].owner && l == s[k].tick_lower && u == s[k].tick_upper)
                ==> #[trigger] position_value(s.remove(k), o, l, u) == position_value(s, o, l, u)
                && (has_position(s.remove(k), o, l, u) <==> has_position(s, o, l, u)),
{
    let s2 = s.remove(k);
    assert forall|i: int, j: int| 0 <= i < j < s2.len() implies !(#[trigger] position_keyed(
        s2[i],
        s2[j].owner,
        s2[j].tick_lower,
        s2[j].tick_upper,
    )) by {
        let i0 = if i < k {
            i
        } else {
            i + 1
        };
        let j0 = if j < k {
            j
        } else {
            j + 1
        };
        assert(s2[i] == s[i0] && s2[j] == s[j0]);
        if position_keyed(s2[i], s2[j].owner, s2[j].tick_lower, s2[j].tick_upper) {
            assert(position_keyed(s[i0], s[j0].owner, s[j0].tick_lower, s[j0].tick_upper));
        }
    }
    assert(!has_position(s2, s[k].owner, s[k].tick_lower, s[k].tick_upper)) by {
        if has_position(s2, s[k].owner, s[k].tick_lower, s[k].tick_upper) {
            let i = choose|i: int|
                0 <= i < s2.len() && position_keyed(
                    s2[i],
                    s[k].owner,
                    s[k].tick_lower,
                    s[k].tick_upper,
                );
            if i < k {
                lemma_position_unique(s, i, k);
            } else {
                lemma_position_unique(s, i + 1, k);
            }
        }
    }
    assert forall|o: u64, l: i32, u: i32|
        !(o == s[k].owner && l == s[k].tick_lower && u == s[k].tick_upper)
        implies #[trigger] position_value(s2, o, l, u) == position_value(s, o, l, u) && (
    has_position(s2, o, l, u) <==> has_position(s, o, l, u)) by {
        if has_position(s2, o, l, u) {
            let i = choose|i: int| 0 <= i < s2.len() && position_keyed(s2[i], o, l, u);
            if i < k {
                assert(position_keyed(s[i], o, l, u));
            } else {
                assert(position_keyed(s[i + 1], o, l, u));
            }
        }
        if has_position(s, o, l, u) {
            let i = choose|i: int| 0 <= i < s.len() && position_keyed(s[i], o, l, u);
            assert(i != k);
            assert(has_position(s2, o, l, u)) by {
                if i < k {
                    assert(position_keyed(s2[i], o, l, u));
                } else {
                    assert(position_keyed(s2[i - 1], o, l, u));
                }
            }
            let i2 = choose|i: int| 0 <= i < s2.len() && position_keyed(s2[i], o, l, u);
            let i20 = if i2 < k {
                i2
            } else {
                i2 + 1
            };
            assert(position_keyed(s[i20], o, l, u));
            lemma_position_unique(s, i, i20);
        }
    }
}

} // verus!
