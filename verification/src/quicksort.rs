//! Quicksort: in-place recursive partitioning around the first element of
//! the current range. Two converging scans skip elements already on their
//! side and swap a misplaced pair otherwise; the pivot is then dropped into
//! the boundary and the two strict sides are sorted recursively. Pivoting on
//! the first element keeps the code simple but makes already-sorted input a
//! worst case, and the recursion depth is not bounded beyond the range
//! length — a known limitation of this design, not guarded against here.

use vstd::prelude::*;

verus! {

use crate::Sorter;
use crate::order::{TotalPreorder, sorted, sorted_between};

pub struct QuickSort;

/// Splitting a range at `mid` and preserving the multiset of each half
/// preserves the multiset of the whole range.
proof fn lemma_subrange_multiset_glue<T>(a: Seq<T>, b: Seq<T>, lo: int, mid: int, hi: int)
    requires
        a.len() == b.len(),
        0 <= lo <= mid <= hi <= a.len(),
        a.subrange(lo, mid).to_multiset() == b.subrange(lo, mid).to_multiset(),
        a.subrange(mid, hi).to_multiset() == b.subrange(mid, hi).to_multiset(),
    ensures
        a.subrange(lo, hi).to_multiset() == b.subrange(lo, hi).to_multiset(),
{
    assert(a.subrange(lo, hi) =~= a.subrange(lo, mid) + a.subrange(mid, hi));
    assert(b.subrange(lo, hi) =~= b.subrange(lo, mid) + b.subrange(mid, hi));
    vstd::seq_lib::lemma_multiset_commutative(a.subrange(lo, mid), a.subrange(mid, hi));
    vstd::seq_lib::lemma_multiset_commutative(b.subrange(lo, mid), b.subrange(mid, hi));
}

/// A property of every element of a sequence carries over to any sequence
/// with the same multiset of elements.
proof fn lemma_multiset_preserves_pred<T>(a: Seq<T>, b: Seq<T>, pred: spec_fn(T) -> bool)
    requires
        a.to_multiset() == b.to_multiset(),
        forall|k: int| 0 <= k < a.len() ==> pred(#[trigger] a[k]),
    ensures
        forall|k: int| 0 <= k < b.len() ==> pred(#[trigger] b[k]),
{
    broadcast use vstd::seq_lib::group_to_multiset_ensures;

    assert forall|k: int| 0 <= k < b.len() implies pred(#[trigger] b[k]) by {
        assert(b.contains(b[k]));
        assert(a.to_multiset().count(b[k]) > 0);
        assert(a.contains(b[k]));
        let m = choose|m: int| 0 <= m < a.len() && a[m] == b[k];
        assert(pred(a[m]));
    }
}

/// Exchanging two positions inside `[lo, hi)` preserves the multiset of that
/// range.
proof fn lemma_swap_in_range_multiset<T>(s: Seq<T>, lo: int, hi: int, a: int, b: int)
    requires
        0 <= lo <= a < hi <= s.len(),
        lo <= b < hi,
    ensures
        s.update(a, s[b]).update(b, s[a]).subrange(lo, hi).to_multiset() == s.subrange(
            lo,
            hi,
        ).to_multiset(),
{
    let sub = s.subrange(lo, hi);
    assert(s.update(a, s[b]).update(b, s[a]).subrange(lo, hi) =~= sub.update(
        a - lo,
        sub[b - lo],
    ).update(b - lo, sub[a - lo]));
    crate::lemma_swap_preserves_multiset(sub, a - lo, b - lo);
}

/// Sort `v[lo..hi]` in place; the rest of the vector is untouched and the
/// range keeps its multiset of elements.
fn quicksort_range<T: TotalPreorder>(v: &mut Vec<T>, lo: usize, hi: usize)
    requires
        lo <= hi,
        hi <= old(v)@.len(),
    ensures
        final(v)@.len() == old(v)@.len(),
        sorted_between(final(v)@, lo as int, hi as int),
        final(v)@.subrange(lo as int, hi as int).to_multiset() == old(v)@.subrange(
            lo as int,
            hi as int,
        ).to_multiset(),
        forall|k: int|
            0 <= k < lo || hi <= k < old(v)@.len() ==> final(v)@[k] == #[trigger] old(v)@[k],
    decreases hi - lo,
{
    // Ranges of zero or one element are already sorted.
    if hi - lo < 2 {
        return ;
    }
    // A pair takes a single comparison and at most one swap.
    if hi - lo == 2 {
        let ghost pre = v@;
        if !v[lo].le(&v[lo + 1]) {
            crate::swap(v, lo, lo + 1);
            proof {
                T::lemma_total(pre[lo as int], pre[lo + 1]);
                lemma_swap_in_range_multiset(pre, lo as int, hi as int, lo as int, lo + 1);
            }
        }
        return ;
    }

    let ghost pre = v@;
    let ghost p = v@[lo as int];
    // Partition everything after the pivot slot: `i` climbs past elements
    // that belong on the low side, `j` falls past elements already on the
    // high side, and a misplaced pair is swapped.
    let mut i: usize = lo + 1;
    let mut j: usize = hi;
    while i < j
        invariant
            v@.len() == pre.len(),
            hi <= pre.len(),
            lo + 1 <= i <= j <= hi,
            v@[lo as int] == p,
            p == pre[lo as int],
            forall|k: int| lo + 1 <= k < i ==> (#[trigger] v@[k]).le_spec(p),
            forall|k: int| j <= k < hi ==> !(#[trigger] v@[k]).le_spec(p),
            forall|k: int| 0 <= k < lo || hi <= k < pre.len() ==> v@[k] == #[trigger] pre[k],
            v@.subrange(lo as int, hi as int).to_multiset() == pre.subrange(
                lo as int,
                hi as int,
            ).to_multiset(),
        decreases j - i,
    {
        if v[i].le(&v[lo]) {
            i = i + 1;
        } else if !v[j - 1].le(&v[lo]) {
            j = j - 1;
        } else {
            let ghost step = v@;
            crate::swap(v, i, j - 1);
            proof {
                lemma_swap_in_range_multiset(step, lo as int, hi as int, i as int, j - 1);
            }
            i = i + 1;
            j = j - 1;
        }
    }

    // Drop the pivot into the boundary slot; everything before it is on the
    // low side, everything after it on the high side.
    assert(i == j);
    let ghost mid = v@;
    let m = i - 1;
    crate::swap(v, lo, m);
    proof {
        lemma_swap_in_range_multiset(mid, lo as int, hi as int, lo as int, m as int);
    }
    let ghost placed = v@;
    proof {
        assert(placed[m as int] == p);
        assert forall|k: int| lo <= k < m implies (#[trigger] placed[k]).le_spec(p) by {
            if k == lo {
                assert(placed[k] == mid[m as int]);
            } else {
                assert(placed[k] == mid[k]);
            }
        }
        assert(forall|k: int| m < k < hi ==> !(#[trigger] placed[k]).le_spec(p));
    }

    quicksort_range(v, lo, m);
    let ghost after_left = v@;
    proof {
        assert(after_left.subrange(m as int, hi as int) =~= placed.subrange(m as int, hi as int));
        lemma_subrange_multiset_glue(after_left, placed, lo as int, m as int, hi as int);
        lemma_multiset_preserves_pred(
            placed.subrange(lo as int, m as int),
            after_left.subrange(lo as int, m as int),
            |t: T| t.le_spec(p),
        );
        assert forall|k: int| lo <= k < m implies (#[trigger] after_left[k]).le_spec(p) by {
            assert(after_left.subrange(lo as int, m as int)[k - lo] == after_left[k]);
        }
    }
    quicksort_range(v, m + 1, hi);
    proof {
        let fin = v@;
        assert(fin.subrange(lo as int, m as int + 1) =~= after_left.subrange(
            lo as int,
            m as int + 1,
        ));
        lemma_subrange_multiset_glue(fin, after_left, lo as int, m as int + 1, hi as int);
        assert forall|k: int|
            0 <= k < after_left.subrange(m as int + 1, hi as int).len() implies !(
        #[trigger] after_left.subrange(m as int + 1, hi as int)[k]).le_spec(p) by {
            assert(after_left.subrange(m as int + 1, hi as int)[k] == after_left[m as int + 1
                + k]);
            assert(after_left[m as int + 1 + k] == placed[m as int + 1 + k]);
        }
        lemma_multiset_preserves_pred(
            after_left.subrange(m as int + 1, hi as int),
            fin.subrange(m as int + 1, hi as int),
            |t: T| !t.le_spec(p),
        );
        assert forall|k: int| m < k < hi implies !(#[trigger] fin[k]).le_spec(p) by {
            assert(fin.subrange(m as int + 1, hi as int)[k - (m as int + 1)] == fin[k]);
        }
        assert(fin[m as int] == p);
        assert forall|k: int| lo <= k < m implies (#[trigger] fin[k]).le_spec(p) by {
            assert(fin[k] == after_left[k]);
        }
        // Nothing outside the range ever moved.
        assert forall|k: int| 0 <= k < lo || hi <= k < pre.len() implies fin[k]
            == #[trigger] pre[k] by {
            assert(fin[k] == after_left[k]);
            assert(after_left[k] == placed[k]);
            assert(placed[k] == mid[k]);
        }
        // The two sorted sides join across the pivot.
        assert forall|a: int, b: int| lo <= a < b < hi implies #[trigger] fin[a].le_spec(
            fin[b],
        ) by {
            if b < m as int {
                assert(fin[a] == after_left[a] && fin[b] == after_left[b]);
                assert(after_left[a].le_spec(after_left[b]));
            } else if b == m as int {
                assert(fin[a].le_spec(p));
            } else if a == m as int {
                T::lemma_total(p, fin[b]);
            } else if a < m as int {
                T::lemma_total(p, fin[b]);
                T::lemma_transitive(fin[a], p, fin[b]);
            }
        }
    }
}

/// Sort the whole vector with the quicksort algorithm.
pub fn quicksort<T: TotalPreorder>(v: &mut Vec<T>)
    ensures
        sorted(final(v)@),
        final(v)@.to_multiset() == old(v)@.to_multiset(),
        final(v)@.len() == old(v)@.len(),
{
    let n = v.len();
    quicksort_range(v, 0, n);
    proof {
        assert(old(v)@.subrange(0, old(v)@.len() as int) =~= old(v)@);
        assert(v@.subrange(0, v@.len() as int) =~= v@);
    }
}

impl Default for QuickSort {
    fn default() -> (r: Self)
        ensures
            r == (QuickSort {}),
    {
        QuickSort {}
    }
}

impl Sorter for QuickSort {
    fn sort<T: TotalPreorder>(&self, v: &mut Vec<T>) {
        quicksort(v);
    }
}

} // verus!
