//! Insertion sort: grow a sorted prefix one element at a time. The linear
//! strategy swaps the new element leftward past every greater neighbour; the
//! binary strategy first finds the insertion index by binary search over the
//! sorted prefix — always the leftmost valid position, so equal elements keep
//! their arrival order — and then rotates the gap closed. The binary strategy
//! spends fewer comparisons at the price of the same amount of movement.

use vstd::prelude::*;

verus! {

use crate::Sorter;
use crate::order::{TotalPreorder, sorted_between};

pub struct InsertionSort {
    pub smart: bool,
}

/// The leftmost index of the sorted prefix `v[0..u]` at which `v[u]` may be
/// inserted while keeping the prefix sorted: every element before the result
/// is strictly below `v[u]`, and every element from the result up to `u` is
/// at or above it. Found by binary search, so the prefix is probed only
/// O(log u) times.
pub fn insertion_point<T: TotalPreorder>(v: &Vec<T>, u: usize) -> (idx: usize)
    requires
        u < v@.len(),
        sorted_between(v@, 0, u as int),
    ensures
        idx <= u,
        forall|k: int| 0 <= k < idx ==> !v@[u as int].le_spec(#[trigger] v@[k]),
        forall|k: int| idx <= k < u ==> v@[u as int].le_spec(#[trigger] v@[k]),
{
    let mut lo: usize = 0;
    let mut hi: usize = u;
    while lo < hi
        invariant
            lo <= hi <= u < v@.len(),
            sorted_between(v@, 0, u as int),
            forall|k: int| 0 <= k < lo ==> !v@[u as int].le_spec(#[trigger] v@[k]),
            forall|k: int| hi <= k < u ==> v@[u as int].le_spec(#[trigger] v@[k]),
        decreases hi - lo,
    {
        let mid = lo + (hi - lo) / 2;
        if !v[u].le(&v[mid]) {
            proof {
                // Everything at or below `mid` in the prefix is no greater
                // than `v[mid]`, hence also strictly below `v[u]`.
                assert forall|k: int| 0 <= k < mid + 1 implies !v@[u as int].le_spec(
                    #[trigger] v@[k],
                ) by {
                    if k < mid {
                        if v@[u as int].le_spec(v@[k]) {
                            T::lemma_transitive(v@[u as int], v@[k], v@[mid as int]);
                        }
                    }
                }
            }
            lo = mid + 1;
        } else {
            proof {
                assert forall|k: int| mid <= k < u implies v@[u as int].le_spec(
                    #[trigger] v@[k],
                ) by {
                    if k > mid {
                        T::lemma_transitive(v@[u as int], v@[mid as int], v@[k]);
                    }
                }
            }
            hi = mid;
        }
    }
    lo
}

impl Default for InsertionSort {
    fn default() -> (r: Self)
        ensures
            r == (InsertionSort { smart: false }),
    {
        InsertionSort { smart: false }
    }
}

impl Sorter for InsertionSort {
    fn sort<T: TotalPreorder>(&self, v: &mut Vec<T>) {
        let ghost orig = v@;
        let n = v.len();
        let mut unsorted: usize = 1;
        while unsorted < n
            invariant
                n == v@.len(),
                1 <= unsorted,
                unsorted <= n || n <= 1,
                v@.to_multiset() == orig.to_multiset(),
                sorted_between(v@, 0, unsorted as int),
            decreases n - unsorted,
        {
            if !self.smart {
                // Swap the new element leftward until its left neighbour is
                // no greater.
                let mut i: usize = unsorted;
                while i > 0 && !v[i - 1].le(&v[i])
                    invariant
                        n == v@.len(),
                        i <= unsorted < n,
                        v@.to_multiset() == orig.to_multiset(),
                        sorted_between(v@, 0, i as int),
                        sorted_between(v@, i as int, unsorted + 1),
                        forall|a: int, b: int|
                            0 <= a < i && i < b < unsorted + 1 ==> #[trigger] v@[a].le_spec(v@[b]),
                    decreases i,
                {
                    let ghost pre = v@;
                    crate::swap(v, i - 1, i);
                    proof {
                        crate::lemma_swap_preserves_multiset(pre, i - 1, i as int);
                        T::lemma_total(pre[i - 1], pre[i as int]);
                        assert forall|a: int, b: int|
                            i - 1 <= a < b < unsorted + 1 implies #[trigger] v@[a].le_spec(
                            v@[b],
                        ) by {
                            if a == i - 1 && b == i {
                                assert(v@[a] == pre[i as int]);
                            }
                        }
                    }
                    i = i - 1;
                }
                proof {
                    assert forall|a: int, b: int|
                        0 <= a < b < unsorted + 1 implies #[trigger] v@[a].le_spec(v@[b]) by {
                        if a < i && b == i && a < i - 1 {
                            T::lemma_transitive(v@[a], v@[i - 1], v@[i as int]);
                        }
                    }
                }
            } else {
                // Find the leftmost fitting index in the prefix, then rotate
                // the range from there through the new element one step to
                // the right, which drops the new element into that index.
                let idx = insertion_point(v, unsorted);
                let ghost pre = v@;
                let mut j: usize = unsorted;
                while j > idx
                    invariant
                        n == v@.len(),
                        idx <= j <= unsorted < n,
                        v@.to_multiset() == orig.to_multiset(),
                        v@[j as int] == pre[unsorted as int],
                        forall|k: int| 0 <= k < j ==> #[trigger] v@[k] == pre[k],
                        forall|k: int| j < k <= unsorted ==> #[trigger] v@[k] == pre[k - 1],
                        forall|k: int| unsorted < k < n ==> #[trigger] v@[k] == pre[k],
                    decreases j,
                {
                    let ghost step = v@;
                    crate::swap(v, j - 1, j);
                    proof {
                        crate::lemma_swap_preserves_multiset(step, j - 1, j as int);
                    }
                    j = j - 1;
                }
                proof {
                    assert forall|a: int, b: int|
                        0 <= a < b < unsorted + 1 implies #[trigger] v@[a].le_spec(v@[b]) by {
                        let x = pre[unsorted as int];
                        if b < idx {
                            assert(v@[a] == pre[a]);
                            assert(v@[b] == pre[b]);
                        } else if a < idx {
                            T::lemma_total(pre[a], x);
                            if b == idx {
                                assert(v@[b] == x);
                            } else {
                                assert(v@[b] == pre[b - 1]);
                                assert(pre[a].le_spec(pre[b - 1]));
                            }
                        } else if a == idx {
                            assert(v@[a] == x);
                            assert(v@[b] == pre[b - 1]);
                            assert(x.le_spec(pre[b - 1]));
                        } else {
                            assert(v@[a] == pre[a - 1]);
                            assert(v@[b] == pre[b - 1]);
                        }
                    }
                }
            }
            unsorted = unsorted + 1;
        }
    }
}

} // verus!
