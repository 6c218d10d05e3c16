//! Sorting and lower-median reduction for side-coordinate lists.
//!
//! Each side of the estimated rectangle is reduced to the lower median of its
//! collected coordinates: the element at index `len / 2` of the ascending
//! permutation.  The median is what makes the estimator robust: as long as a
//! strict majority of the sampled lines agree on a boundary coordinate, the
//! reduced value is that coordinate, whatever the minority reports.

use vstd::prelude::*;
use vstd::seq_lib::lemma_sorted_unique;
use vstd::relations::total_ordering;

verus! {

/// The ordering by which side coordinates are sorted before taking a median.
pub open spec fn coord_leq() -> spec_fn(u32, u32) -> bool {
    |a: u32, b: u32| a <= b
}

/// A coordinate sequence is sorted ascending.
pub open spec fn is_sorted(s: Seq<u32>) -> bool {
    forall|i: int, j: int| 0 <= i < j < s.len() ==> s[i] <= s[j]
}

/// The ascending permutation of a coordinate sequence.
pub open spec fn sort_seq(s: Seq<u32>) -> Seq<u32> {
    s.sort_by(coord_leq())
}

/// The lower median: the element at index `len / 2` of the ascending
/// permutation.  For odd lengths this is the statistical median; for even
/// lengths it is the smaller-index choice just past the midpoint.
pub open spec fn lower_median(s: Seq<u32>) -> u32
    recommends
        s.len() > 0,
{
    sort_seq(s)[s.len() as int / 2]
}

/// How many elements of `s` satisfy `p`.
spec fn count_if(s: Seq<u32>, p: spec_fn(u32) -> bool) -> nat
    decreases s.len(),
{
    if s.len() == 0 {
        0
    } else {
        count_if(s.drop_last(), p) + (if p(s.last()) {
            1nat
        } else {
            0nat
        })
    }
}

/// How many elements of `s` equal `v`.
pub open spec fn count_eq(s: Seq<u32>, v: u32) -> nat
    decreases s.len(),
{
    if s.len() == 0 {
        0
    } else {
        count_eq(s.drop_last(), v) + (if s.last() == v {
            1nat
        } else {
            0nat
        })
    }
}

/// How many elements of `s` are at most `v`.
spec fn count_le(s: Seq<u32>, v: u32) -> nat
    decreases s.len(),
{
    if s.len() == 0 {
        0
    } else {
        count_le(s.drop_last(), v) + (if s.last() <= v {
            1nat
        } else {
            0nat
        })
    }
}

proof fn lemma_coord_leq_total_ordering()
    ensures
        total_ordering(coord_leq()),
{
    let r = coord_leq();
    assert forall|x: u32| #[trigger] r(x, x) by {}
    assert forall|x: u32, y: u32| #[trigger] r(x, y) && #[trigger] r(y, x) implies x == y by {}
    assert forall|x: u32, y: u32, z: u32| #[trigger] r(x, y) && #[trigger] r(y, z) implies r(
        x,
        z,
    ) by {}
    assert forall|x: u32, y: u32| #[trigger] r(x, y) || #[trigger] r(y, x) by {}
}

/// The ascending permutation is sorted, has the same length, and holds the
/// same elements (as a multiset) as the original sequence.
pub proof fn lemma_sort_seq_props(s: Seq<u32>)
    ensures
        sort_seq(s).len() == s.len(),
        is_sorted(sort_seq(s)),
        sort_seq(s).to_multiset() == s.to_multiset(),
{
    broadcast use vstd::seq_lib::group_to_multiset_ensures;

    lemma_coord_leq_total_ordering();
    s.lemma_sort_by_ensures(coord_leq());
    let t = sort_seq(s);
    assert(s.len() == s.to_multiset().len());
    assert(t.len() == t.to_multiset().len());
    assert forall|i: int, j: int| 0 <= i < j < t.len() implies t[i] <= t[j] by {
        assert(coord_leq()(t[i], t[j]));
    }
}

/// `count_eq` agrees with `count_if` for any predicate that tests equality
/// with `v`.
proof fn lemma_count_eq_bridge(s: Seq<u32>, v: u32, p: spec_fn(u32) -> bool)
    requires
        forall|x: u32| #[trigger] p(x) <==> x == v,
    ensures
        count_eq(s, v) == count_if(s, p),
    decreases s.len(),
{
    if s.len() > 0 {
        lemma_count_eq_bridge(s.drop_last(), v, p);
    }
}

/// `count_le` agrees with `count_if` for any predicate that tests being at
/// most `v`.
proof fn lemma_count_le_bridge(s: Seq<u32>, v: u32, p: spec_fn(u32) -> bool)
    requires
        forall|x: u32| #[trigger] p(x) <==> x <= v,
    ensures
        count_le(s, v) == count_if(s, p),
    decreases s.len(),
{
    if s.len() > 0 {
        lemma_count_le_bridge(s.drop_last(), v, p);
    }
}

proof fn lemma_count_le_le_len(s: Seq<u32>, v: u32)
    ensures
        count_le(s, v) <= s.len(),
    decreases s.len(),
{
    if s.len() > 0 {
        lemma_count_le_le_len(s.drop_last(), v);
    }
}

proof fn lemma_count_le_all(s: Seq<u32>, v: u32)
    requires
        forall|i: int| 0 <= i < s.len() ==> #[trigger] s[i] <= v,
    ensures
        count_le(s, v) == s.len(),
    decreases s.len(),
{
    if s.len() > 0 {
        assert(s.last() == s[s.len() - 1]);
        lemma_count_le_all(s.drop_last(), v);
    }
}

/// Every element equal to `b` is counted by `count_le(s, b)` too.
proof fn lemma_count_eq_le_count_le(s: Seq<u32>, b: u32)
    ensures
        count_eq(s, b) <= count_le(s, b),
    decreases s.len(),
{
    if s.len() > 0 {
        lemma_count_eq_le_count_le(s.drop_last(), b);
    }
}

/// Elements equal to `b` and elements at most `w` are disjoint when `w < b`,
/// so together they never outnumber the sequence.
proof fn lemma_count_eq_above(s: Seq<u32>, b: u32, w: u32)
    requires
        w < b,
    ensures
        count_eq(s, b) + count_le(s, w) <= s.len(),
    decreases s.len(),
{
    if s.len() > 0 {
        lemma_count_eq_above(s.drop_last(), b, w);
    }
}

proof fn lemma_count_if_concat(a: Seq<u32>, b: Seq<u32>, p: spec_fn(u32) -> bool)
    ensures
        count_if(a + b, p) == count_if(a, p) + count_if(b, p),
    decreases b.len(),
{
    if b.len() == 0 {
        assert(a + b =~= a);
    } else {
        assert((a + b).drop_last() =~= a + b.drop_last());
        assert((a + b).last() == b.last());
        lemma_count_if_concat(a, b.drop_last(), p);
    }
}

proof fn lemma_count_if_remove(t: Seq<u32>, j: int, p: spec_fn(u32) -> bool)
    requires
        0 <= j < t.len(),
    ensures
        count_if(t, p) == count_if(t.remove(j), p) + (if p(t[j]) {
            1nat
        } else {
            0nat
        }),
{
    let front = t.subrange(0, j);
    let mid = t.subrange(j, j + 1);
    let back = t.subrange(j + 1, t.len() as int);
    assert(t =~= (front + mid) + back);
    assert(t.remove(j) =~= front + back);
    lemma_count_if_concat(front + mid, back, p);
    lemma_count_if_concat(front, mid, p);
    lemma_count_if_concat(front, back, p);
    assert(mid.last() == t[j]);
    assert(mid.drop_last() =~= Seq::<u32>::empty());
    assert(count_if(Seq::<u32>::empty(), p) == 0);
    assert(count_if(mid, p) == count_if(mid.drop_last(), p) + (if p(mid.last()) {
        1nat
    } else {
        0nat
    }));
}

/// Counting is a property of the elements alone: sequences holding the same
/// multiset of coordinates count alike.
proof fn lemma_count_if_permutation(s: Seq<u32>, t: Seq<u32>, p: spec_fn(u32) -> bool)
    requires
        s.to_multiset() == t.to_multiset(),
    ensures
        count_if(s, p) == count_if(t, p),
    decreases s.len(),
{
    broadcast use vstd::seq_lib::group_to_multiset_ensures;

    assert(s.len() == s.to_multiset().len());
    assert(t.len() == t.to_multiset().len());
    if s.len() > 0 {
        let x = s.last();
        assert(s[s.len() - 1] == x);
        assert(s.contains(x));
        assert(s.to_multiset().count(x) > 0);
        assert(t.to_multiset().count(x) > 0);
        assert(t.contains(x));
        let j = choose|j: int| 0 <= j < t.len() && t[j] == x;
        assert(s.remove(s.len() - 1) =~= s.drop_last());
        assert(s.drop_last().to_multiset() == s.to_multiset().remove(x));
        assert(t.remove(j).to_multiset() == t.to_multiset().remove(x));
        lemma_count_if_permutation(s.drop_last(), t.remove(j), p);
        lemma_count_if_remove(t, j, p);
    }
}

proof fn lemma_is_sorted_drop_last(t: Seq<u32>)
    requires
        is_sorted(t),
        t.len() > 0,
    ensures
        is_sorted(t.drop_last()),
{
    assert forall|i: int, j: int| 0 <= i < j < t.drop_last().len() implies t.drop_last()[i]
        <= t.drop_last()[j] by {
        assert(t.drop_last()[i] == t[i]);
        assert(t.drop_last()[j] == t[j]);
    }
}

/// In a sorted sequence, an element at index `i` that is at most `v` pins at
/// least `i + 1` elements at most `v`.
proof fn lemma_sorted_count_le_lower(t: Seq<u32>, v: u32, i: int)
    requires
        is_sorted(t),
        0 <= i < t.len(),
        t[i] <= v,
    ensures
        count_le(t, v) >= i + 1,
    decreases t.len(),
{
    if i == t.len() - 1 {
        assert(forall|k: int| 0 <= k < t.len() ==> #[trigger] t[k] <= v);
        lemma_count_le_all(t, v);
    } else {
        lemma_is_sorted_drop_last(t);
        assert(t.drop_last()[i] == t[i]);
        lemma_sorted_count_le_lower(t.drop_last(), v, i);
    }
}

/// In a sorted sequence, an element at index `i` that exceeds `v` confines the
/// elements at most `v` to the first `i` positions.
proof fn lemma_sorted_count_le_upper(t: Seq<u32>, v: u32, i: int)
    requires
        is_sorted(t),
        0 <= i < t.len(),
        t[i] > v,
    ensures
        count_le(t, v) <= i,
    decreases t.len(),
{
    assert(t.last() >= t[i]);
    lemma_is_sorted_drop_last(t);
    if i == t.len() - 1 {
        lemma_count_le_le_len(t.drop_last(), v);
    } else {
        assert(t.drop_last()[i] == t[i]);
        lemma_sorted_count_le_upper(t.drop_last(), v, i);
    }
}

/// If a strict majority of a list's elements equal `b`, the lower median is
/// `b`: the median ignores any minority of outlier coordinates.
pub proof fn lemma_lower_median_majority(s: Seq<u32>, b: u32)
    requires
        s.len() > 0,
        2 * count_eq(s, b) > s.len(),
    ensures
        lower_median(s) == b,
{
    let t = sort_seq(s);
    let n = t.len() as int;
    let k = s.len() as int / 2;
    lemma_sort_seq_props(s);
    let pe = |x: u32| x == b;
    lemma_count_eq_bridge(s, b, pe);
    lemma_count_eq_bridge(t, b, pe);
    lemma_count_if_permutation(s, t, pe);
    assert(2 * count_eq(t, b) > n);
    if t[k] > b {
        lemma_count_eq_le_count_le(t, b);
        lemma_sorted_count_le_upper(t, b, k);
        assert(count_eq(t, b) <= k);
        assert(2 * k <= n);
        assert(false);
    } else if t[k] < b {
        let w = t[k];
        lemma_sorted_count_le_lower(t, w, k);
        lemma_count_eq_above(t, b, w);
        assert(count_eq(t, b) <= n - (k + 1));
        assert(2 * k >= n - 1);
        assert(false);
    }
}

/// If one list dominates another position by position, its lower median
/// dominates too: recorded right-edge coordinates that are never left of the
/// matching left-edge coordinates keep the reduced medians in order.
pub proof fn lemma_lower_median_pointwise(a: Seq<u32>, b: Seq<u32>)
    requires
        a.len() == b.len(),
        a.len() > 0,
        forall|i: int| 0 <= i < a.len() ==> #[trigger] a[i] <= #[trigger] b[i],
    ensures
        lower_median(a) <= lower_median(b),
{
    let ta = sort_seq(a);
    let tb = sort_seq(b);
    let k = a.len() as int / 2;
    lemma_sort_seq_props(a);
    lemma_sort_seq_props(b);
    let v = tb[k];
    let p = |x: u32| x <= v;
    lemma_sorted_count_le_lower(tb, v, k);
    lemma_count_le_bridge(b, v, p);
    lemma_count_le_bridge(tb, v, p);
    lemma_count_if_permutation(b, tb, p);
    lemma_count_le_pointwise(a, b, v);
    lemma_count_le_bridge(a, v, p);
    lemma_count_le_bridge(ta, v, p);
    lemma_count_if_permutation(a, ta, p);
    if ta[k] > v {
        lemma_sorted_count_le_upper(ta, v, k);
        assert(false);
    }
}

proof fn lemma_count_le_pointwise(a: Seq<u32>, b: Seq<u32>, v: u32)
    requires
        a.len() == b.len(),
        forall|i: int| 0 <= i < a.len() ==> #[trigger] a[i] <= #[trigger] b[i],
    ensures
        count_le(a, v) >= count_le(b, v),
    decreases a.len(),
{
    if a.len() > 0 {
        assert(a[a.len() - 1] <= b[a.len() - 1]);
        assert forall|i: int| 0 <= i < a.drop_last().len() implies #[trigger] a.drop_last()[i]
            <= #[trigger] b.drop_last()[i] by {
            assert(a[i] <= b[i]);
        }
        lemma_count_le_pointwise(a.drop_last(), b.drop_last(), v);
    }
}

/// Inserts `x` into an already sorted vector, keeping it sorted.
fn insert_sorted(out: &mut Vec<u32>, x: u32)
    requires
        is_sorted(old(out)@),
    ensures
        is_sorted(final(out)@),
        final(out)@.to_multiset() == old(out)@.to_multiset().insert(x),
        final(out)@.len() == old(out)@.len() + 1,
{
    broadcast use vstd::seq_lib::group_to_multiset_ensures;

    let mut j: usize = 0;
    while j < out.len() && out[j] <= x
        invariant
            j <= out@.len(),
            forall|k: int| 0 <= k < j ==> #[trigger] out@[k] <= x,
            out@ == old(out)@,
        decreases out@.len() - j,
    {
        j += 1;
    }
    let ghost s = out@;
    out.insert(j, x);
    proof {
        vstd::seq_lib::to_multiset_insert(s, j as int, x);
        let t = out@;
        assert forall|i1: int, i2: int| 0 <= i1 < i2 < t.len() implies t[i1] <= t[i2] by {
            if i2 < j {
                assert(t[i1] == s[i1] && t[i2] == s[i2]);
            } else if i1 > j {
                assert(t[i1] == s[i1 - 1] && t[i2] == s[i2 - 1]);
            } else if i1 < j && i2 == j {
                assert(t[i1] == s[i1] && t[i2] == x);
            } else if i1 == j {
                assert(t[i1] == x && t[i2] == s[i2 - 1]);
                if j < s.len() {
                    assert(s[j as int] > x);
                    assert(i2 - 1 >= j);
                    if i2 - 1 > j {
                        assert(s[j as int] <= s[i2 - 1]);
                    }
                }
            } else {
                assert(i1 < j && i2 > j);
                assert(t[i1] == s[i1] && t[i2] == s[i2 - 1]);
                if j < s.len() && i2 - 1 > j {
                    assert(s[j as int] <= s[i2 - 1]);
                }
                assert(s[i1] <= x);
            }
        }
    }
}

/// Sorts a coordinate vector ascending, in place.
pub fn sort_vec(v: &mut Vec<u32>)
    ensures
        final(v)@ == sort_seq(old(v)@),
{
    broadcast use vstd::seq_lib::group_to_multiset_ensures;

    let mut out: Vec<u32> = Vec::new();
    let mut i: usize = 0;
    while i < v.len()
        invariant
            i <= v@.len(),
            v@ == old(v)@,
            is_sorted(out@),
            out@.to_multiset() == v@.subrange(0, i as int).to_multiset(),
        decreases v@.len() - i,
    {
        let ghost pre = v@.subrange(0, i as int);
        let x = v[i];
        insert_sorted(&mut out, x);
        proof {
            assert(v@.subrange(0, i as int + 1) =~= pre.push(x));
            vstd::seq_lib::to_multiset_build(pre, x);
            assert(pre.push(x).to_multiset() == pre.to_multiset().insert(x));
        }
        i += 1;
    }
    proof {
        assert(v@.subrange(0, v@.len() as int) =~= v@);
        lemma_coord_leq_total_ordering();
        lemma_sort_seq_props(v@);
        let t = sort_seq(v@);
        assert forall|i1: int, i2: int|
            0 <= i1 < i2 < out@.len() implies coord_leq()(out@[i1], out@[i2]) by {
            assert(out@[i1] <= out@[i2]);
        }
        assert forall|i1: int, i2: int| 0 <= i1 < i2 < t.len() implies coord_leq()(
            t[i1],
            t[i2],
        ) by {
            assert(t[i1] <= t[i2]);
        }
        lemma_sorted_unique(out@, t, coord_leq());
        assert(out@ =~= t);
    }
    *v = out;
}

} // verus!
