//! Ordering of cosine distances and selection of the nearest records.
//!
//! A distance is handed in as the bit pattern of an IEEE-754 `f64`. Distances
//! are compared through [`distance_key`], which orders finite values and
//! infinities as the numbers they stand for, counts `-0.0` as `+0.0`, and puts
//! every NaN after every number, so that a record whose stored vector is
//! corrupt sinks to the end instead of aborting the scan.
use vstd::prelude::*;

verus! {

/// The sign bit of an `f64` bit pattern.
pub const SIGN_BIT: u64 = 0x8000_0000_0000_0000;

/// The exponent field of an `f64` bit pattern, in place.
pub const EXPONENT_MASK: u64 = 0x7ff0_0000_0000_0000;

/// The fraction field of an `f64` bit pattern.
pub const FRACTION_MASK: u64 = 0x000f_ffff_ffff_ffff;

/// The bit pattern of `+0.0`.
pub const POSITIVE_ZERO: u64 = 0;

/// The bit pattern of `2.0`, the distance given to a degenerate comparison.
pub const SENTINEL_DISTANCE: u64 = 0x4000_0000_0000_0000;

/// Whether the bit pattern `b` is a NaN: all exponent bits set, fraction not zero.
pub open spec fn is_nan(b: u64) -> bool {
    b & EXPONENT_MASK == EXPONENT_MASK && b & FRACTION_MASK != 0
}

/// Whether the bit pattern `b` has its sign bit set.
pub open spec fn is_negative(b: u64) -> bool {
    b & SIGN_BIT != 0
}

/// The key by which the distance with bit pattern `b` is ranked: smaller keys
/// come first.
pub open spec fn order_key(b: u64) -> u64 {
    if is_nan(b) {
        u64::MAX
    } else if b == SIGN_BIT {
        SIGN_BIT
    } else if is_negative(b) {
        !b
    } else {
        b | SIGN_BIT
    }
}

/// The ranking key of the distance whose `f64` bit pattern is `bits`.
pub fn distance_key(bits: u64) -> (r: u64)
    ensures
        r == order_key(bits),
{
    if bits & EXPONENT_MASK == EXPONENT_MASK && bits & FRACTION_MASK != 0 {
        u64::MAX
    } else if bits == SIGN_BIT {
        SIGN_BIT
    } else if bits & SIGN_BIT != 0 {
        !bits
    } else {
        bits | SIGN_BIT
    }
}

/// Among distances that are neither negative nor NaN, keys are ordered as the
/// bit patterns are, which IEEE-754 orders as the numbers they stand for.
pub proof fn lemma_key_orders_non_negative(a: u64, b: u64)
    by (bit_vector)
    requires
        !is_nan(a),
        !is_nan(b),
        !is_negative(a),
        !is_negative(b),
    ensures
        order_key(a) <= order_key(b) <==> a <= b,
        order_key(a) == order_key(b) <==> a == b,
{
}

/// Among negative distances that are not NaN, the one of greater magnitude
/// comes first.
pub proof fn lemma_key_orders_negative(a: u64, b: u64)
    by (bit_vector)
    requires
        !is_nan(a),
        !is_nan(b),
        is_negative(a),
        is_negative(b),
        a != SIGN_BIT,
        b != SIGN_BIT,
    ensures
        order_key(a) <= order_key(b) <==> b <= a,
{
}

/// Every negative distance other than `-0.0` comes before every distance that
/// is not negative, and a NaN comes after every number.
pub proof fn lemma_key_signs_and_nan(a: u64, b: u64)
    by (bit_vector)
    ensures
        !is_nan(a) && !is_nan(b) && is_negative(a) && a != SIGN_BIT && !is_negative(b)
            ==> order_key(a) < order_key(b),
        is_nan(a) && !is_nan(b) ==> order_key(b) < order_key(a),
        order_key(SIGN_BIT) == order_key(POSITIVE_ZERO),
{
}

/// Whether the record at index `i` of `s` is ranked before the one at `j`:
/// by distance key, and by position in `s` where the keys are equal.
pub open spec fn precedes(s: Seq<(String, u64)>, i: int, j: int) -> bool {
    order_key(s[i].1) < order_key(s[j].1) || (order_key(s[i].1) == order_key(s[j].1) && i < j)
}

/// Whether `i` occurs in `p`.
pub open spec fn lists(p: Seq<int>, i: int) -> bool {
    exists|k: int| 0 <= k < p.len() && #[trigger] p[k] == i
}

/// Whether `p` lists every index of `s` once, in ranking order.
pub open spec fn is_stable_order(s: Seq<(String, u64)>, p: Seq<int>) -> bool {
    &&& p.len() == s.len()
    &&& forall|k: int| 0 <= k < p.len() ==> 0 <= #[trigger] p[k] < s.len()
    &&& forall|i: int| 0 <= i < s.len() ==> #[trigger] lists(p, i)
    &&& forall|a: int, b: int| 0 <= a < b < p.len() ==> precedes(s, #[trigger] p[a], #[trigger] p[b])
}

/// Whether `r` is the first `limit` records of `s` (all of them, if `s` has
/// fewer) in ascending order of distance, records of equal distance keeping
/// the order they have in `s`.
pub open spec fn is_ranking(s: Seq<(String, u64)>, limit: nat, r: Seq<(String, u64)>) -> bool {
    &&& r.len() == if s.len() < limit { s.len() } else { limit }
    &&& exists|p: Seq<int>|
        is_stable_order(s, p) && forall|k: int| 0 <= k < r.len() ==> #[trigger] r[k] == s[p[k]]
}

/// Index of the first record in `sorted` whose key is greater than `key`.
fn insertion_point(sorted: &Vec<(String, u64)>, key: u64) -> (pos: usize)
    requires
        forall|a: int, b: int|
            0 <= a < b < sorted@.len() ==> order_key(sorted@[a].1) <= order_key(sorted@[b].1),
    ensures
        pos <= sorted@.len(),
        forall|q: int| 0 <= q < pos ==> order_key(#[trigger] sorted@[q].1) <= key,
        forall|q: int| pos <= q < sorted@.len() ==> order_key(#[trigger] sorted@[q].1) > key,
{
    let mut pos: usize = 0;
    let mut found = false;
    while !found && pos < sorted.len()
        invariant
            pos <= sorted@.len(),
            forall|q: int| 0 <= q < pos ==> order_key(#[trigger] sorted@[q].1) <= key,
            found ==> pos < sorted@.len() && order_key(sorted@[pos as int].1) > key,
        decreases sorted@.len() - pos + if found { 0int } else { 1int },
    {
        if distance_key(sorted[pos].1) > key {
            found = true;
        } else {
            pos = pos + 1;
        }
    }
    assert forall|q: int| pos <= q < sorted@.len() implies order_key(#[trigger] sorted@[q].1)
        > key by {
        if q > pos {
            assert(order_key(sorted@[pos as int].1) <= order_key(sorted@[q].1));
        }
    }
    pos
}

/// Orders scored records by ascending distance and keeps the first `limit`.
///
/// Each record is a label with the `f64` bit pattern of its distance to the
/// query. Records of equal distance keep the order in which they were given;
/// NaN distances come last. An empty input gives an empty result.
pub fn rank(scored: Vec<(String, u64)>, limit: usize) -> (r: Vec<(String, u64)>)
    ensures
        is_ranking(scored@, limit as nat, r@),
{
    let ghost s = scored@;
    let mut rest = scored;
    let mut sorted: Vec<(String, u64)> = Vec::new();
    let ghost mut p: Seq<int> = Seq::empty();
    let ghost mut i: int = 0;
    while rest.len() > 0
        invariant
            0 <= i <= s.len(),
            rest@ == s.subrange(i, s.len() as int),
            sorted@.len() == i,
            p.len() == i,
            forall|k: int| 0 <= k < i ==> 0 <= #[trigger] p[k] < i,
            forall|k: int| 0 <= k < i ==> #[trigger] sorted@[k] == s[p[k]],
            forall|j: int| 0 <= j < i ==> #[trigger] lists(p, j),
            forall|a: int, b: int| 0 <= a < b < i ==> precedes(s, #[trigger] p[a], #[trigger] p[b]),
        decreases rest@.len(),
    {
        let x = rest.remove(0);
        assert(x == s[i]);
        let key = distance_key(x.1);
        assert forall|a: int, b: int| 0 <= a < b < sorted@.len() implies order_key(
            sorted@[a].1,
        ) <= order_key(sorted@[b].1) by {
            assert(precedes(s, p[a], p[b]));
        }
        let pos = insertion_point(&sorted, key);
        let ghost old_p = p;
        let ghost old_sorted = sorted@;
        sorted.insert(pos, x);
        proof {
            p = p.insert(pos as int, i);
            assert forall|k: int| 0 <= k < i + 1 implies #[trigger] sorted@[k] == s[p[k]] by {
                if k < pos {
                    assert(sorted@[k] == old_sorted[k]);
                } else if k > pos {
                    assert(sorted@[k] == old_sorted[k - 1]);
                }
            }
            assert forall|k: int| 0 <= k < i + 1 implies 0 <= #[trigger] p[k] < i + 1 by {
                if k < pos {
                    assert(p[k] == old_p[k]);
                } else if k > pos {
                    assert(p[k] == old_p[k - 1]);
                }
            }
            assert forall|j: int| 0 <= j < i + 1 implies #[trigger] lists(p, j) by {
                if j == i {
                    assert(p[pos as int] == i);
                } else {
                    assert(lists(old_p, j));
                    let k0 = choose|k: int| 0 <= k < old_p.len() && #[trigger] old_p[k] == j;
                    if k0 < pos {
                        assert(p[k0] == j);
                    } else {
                        assert(p[k0 + 1] == j);
                    }
                }
            }
            assert forall|a: int, b: int| 0 <= a < b < i + 1 implies precedes(
                s,
                #[trigger] p[a],
                #[trigger] p[b],
            ) by {
                if a < pos && b < pos {
                    assert(precedes(s, old_p[a], old_p[b]));
                } else if a < pos && b == pos {
                    assert(sorted@[a] == s[old_p[a]]);
                    assert(order_key(old_sorted[a].1) <= key);
                } else if a < pos && b > pos {
                    assert(precedes(s, old_p[a], old_p[b - 1]));
                } else if a == pos {
                    assert(order_key(old_sorted[b - 1].1) > key);
                    assert(old_sorted[b - 1] == s[old_p[b - 1]]);
                } else {
                    assert(precedes(s, old_p[a - 1], old_p[b - 1]));
                }
            }
            i = i + 1;
            assert(rest@ =~= s.subrange(i, s.len() as int));
        }
    }
    let ghost full = sorted@;
    sorted.truncate(limit);
    assert(forall|k: int| 0 <= k < sorted@.len() ==> #[trigger] sorted@[k] == full[k]);
    assert(is_stable_order(s, p));
    sorted
}

/// What a ranking promises its reader: distances never decrease along it; it
/// holds at most `limit` records, and fewer exactly when there were fewer
/// records to rank (none at all when there were none); and every record left
/// out ranks no better than every record kept.
pub proof fn lemma_ranking_order(s: Seq<(String, u64)>, limit: nat, r: Seq<(String, u64)>)
    requires
        is_ranking(s, limit, r),
    ensures
        forall|a: int, b: int|
            0 <= a < b < r.len() ==> order_key((#[trigger] r[a]).1) <= order_key(
                (#[trigger] r[b]).1,
            ),
        r.len() <= limit,
        r.len() < limit <==> s.len() < limit,
        s.len() == 0 ==> r.len() == 0,
        forall|i: int|
            0 <= i < s.len() ==> (exists|k: int| 0 <= k < r.len() && r[k] == #[trigger] s[i]) || (
            forall|j: int| 0 <= j < r.len() ==> order_key((#[trigger] r[j]).1) <= order_key(s[i].1)),
{
    let p = choose|p: Seq<int>|
        is_stable_order(s, p) && forall|k: int| 0 <= k < r.len() ==> #[trigger] r[k] == s[p[k]];
    assert forall|a: int, b: int| 0 <= a < b < r.len() implies order_key((#[trigger] r[a]).1)
        <= order_key((#[trigger] r[b]).1) by {
        assert(precedes(s, p[a], p[b]));
    }
    assert forall|i: int| 0 <= i < s.len() implies (exists|k: int|
        0 <= k < r.len() && r[k] == #[trigger] s[i]) || (forall|j: int|
        0 <= j < r.len() ==> order_key((#[trigger] r[j]).1) <= order_key(s[i].1)) by {
        assert(lists(p, i));
        let k = choose|k: int| 0 <= k < p.len() && #[trigger] p[k] == i;
        if k < r.len() {
            assert(r[k] == s[i]);
        } else {
            assert forall|j: int| 0 <= j < r.len() implies order_key((#[trigger] r[j]).1)
                <= order_key(s[i].1) by {
                assert(precedes(s, p[j], p[k]));
            }
        }
    }
}

} // verus!
