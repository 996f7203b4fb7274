//! Selection sort: advance a sorted-prefix boundary left to right, each time
//! swapping the minimum of the unsorted suffix into place. Always scans the
//! whole suffix, so the comparison count does not depend on the input order;
//! swaps are avoided when the minimum is already in position.

use vstd::prelude::*;

verus! {

use crate::Sorter;
use crate::order::{TotalPreorder, sorted_between};

pub struct SelectionSort;

impl Default for SelectionSort {
    fn default() -> (r: Self)
        ensures
            r == (SelectionSort {}),
    {
        SelectionSort {}
    }
}

impl Sorter for SelectionSort {
    fn sort<T: TotalPreorder>(&self, v: &mut Vec<T>) {
        let ghost orig = v@;
        let n = v.len();
        let mut unsorted: usize = 0;
        while unsorted < n
            invariant
                n == v@.len(),
                unsorted <= n,
                v@.to_multiset() == orig.to_multiset(),
                sorted_between(v@, 0, unsorted as int),
                forall|a: int, b: int|
                    0 <= a < unsorted <= b < n ==> #[trigger] v@[a].le_spec(v@[b]),
            decreases n - unsorted,
        {
            let ghost pre = v@;
            // Scan the suffix for the index of its minimum.
            let mut smallest_in_rest: usize = unsorted;
            let mut i: usize = unsorted + 1;
            proof {
                T::lemma_total(v@[unsorted as int], v@[unsorted as int]);
            }
            while i < n
                invariant
                    n == v@.len(),
                    v@ == pre,
                    unsorted < n,
                    unsorted <= smallest_in_rest < i <= n,
                    forall|k: int|
                        unsorted <= k < i ==> #[trigger] v@[smallest_in_rest as int].le_spec(v@[k]),
                decreases n - i,
            {
                if !v[smallest_in_rest].le(&v[i]) {
                    proof {
                        T::lemma_total(v@[smallest_in_rest as int], v@[i as int]);
                        assert forall|k: int| unsorted <= k < i implies #[trigger] v@[i as int].le_spec(
                            v@[k],
                        ) by {
                            T::lemma_transitive(v@[i as int], v@[smallest_in_rest as int], v@[k]);
                        }
                    }
                    smallest_in_rest = i;
                }
                proof {
                    T::lemma_total(v@[i as int], v@[i as int]);
                }
                i = i + 1;
            }
            if unsorted != smallest_in_rest {
                crate::swap(v, unsorted, smallest_in_rest);
                proof {
                    crate::lemma_swap_preserves_multiset(
                        pre,
                        unsorted as int,
                        smallest_in_rest as int,
                    );
                }
            }
            proof {
                // The prefix gained the suffix minimum; every ordering fact
                // about the new boundary follows from the scan result and
                // from what already held of the old prefix.
                assert forall|a: int, b: int|
                    0 <= a < b < unsorted + 1 implies #[trigger] v@[a].le_spec(v@[b]) by {
                    if b < unsorted {
                        assert(pre[a].le_spec(pre[b]));
                    } else {
                        assert(pre[a].le_spec(pre[smallest_in_rest as int]));
                    }
                }
                assert forall|a: int, b: int|
                    0 <= a < unsorted + 1 <= b < n implies #[trigger] v@[a].le_spec(v@[b]) by {
                    if a < unsorted {
                        assert(pre[a].le_spec(pre[b]));
                        assert(pre[a].le_spec(pre[unsorted as int]));
                    } else {
                        assert(pre[smallest_in_rest as int].le_spec(pre[b]));
                        assert(pre[smallest_in_rest as int].le_spec(pre[unsorted as int]));
                    }
                }
            }
            unsorted = unsorted + 1;
        }
    }
}

} // verus!
