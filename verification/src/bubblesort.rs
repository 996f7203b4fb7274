//! Bubble sort: scan left to right swapping adjacent out-of-order pairs,
//! repeating until a full pass performs no swap. A no-swap pass means every
//! adjacent pair is in order, which by transitivity means the whole sequence
//! is sorted. Each swapping pass bubbles the largest remaining element into
//! the sorted suffix, which bounds the number of passes.

use vstd::prelude::*;

verus! {

use crate::Sorter;
use crate::order::{TotalPreorder, sorted_between};

pub struct BubbleSort;

impl Default for BubbleSort {
    fn default() -> (r: Self)
        ensures
            r == (BubbleSort {}),
    {
        BubbleSort {}
    }
}

impl Sorter for BubbleSort {
    fn sort<T: TotalPreorder>(&self, v: &mut Vec<T>) {
        let ghost orig = v@;
        let n = v.len();
        // Start of the suffix already known to be in final sorted position.
        let ghost mut sorted_from: int = n as int;
        let mut swapped = true;
        while swapped
            invariant
                n == v@.len(),
                v@.to_multiset() == orig.to_multiset(),
                0 <= sorted_from <= n,
                sorted_between(v@, sorted_from, n as int),
                forall|a: int, b: int|
                    0 <= a < sorted_from <= b < n ==> #[trigger] v@[a].le_spec(v@[b]),
                !swapped ==> sorted_between(v@, 0, n as int),
            decreases sorted_from + if swapped { 1int } else { 0int },
        {
            let ghost s0 = sorted_from;
            swapped = false;
            let mut i: usize = 0;
            while i + 1 < n
                invariant
                    n == v@.len(),
                    v@.to_multiset() == orig.to_multiset(),
                    0 <= i < n || (i == 0 && n <= 1),
                    0 <= s0 <= n,
                    sorted_between(v@, s0, n as int),
                    forall|a: int, b: int|
                        0 <= a < s0 <= b < n ==> #[trigger] v@[a].le_spec(v@[b]),
                    forall|k: int| 0 <= k < i ==> #[trigger] v@[k].le_spec(v@[i as int]),
                    !swapped ==> sorted_between(v@, 0, i + 1),
                    s0 == 0 ==> !swapped,
                    s0 >= 1 && i >= s0 ==> sorted_between(v@, s0 - 1, n as int),
                    s0 >= 1 && i >= s0 ==> forall|a: int, b: int|
                        0 <= a < s0 - 1 <= b < n ==> #[trigger] v@[a].le_spec(v@[b]),
                decreases n - i,
            {
                let ghost pre = v@;
                if !v[i].le(&v[i + 1]) {
                    crate::swap(v, i, i + 1);
                    proof {
                        crate::lemma_swap_preserves_multiset(pre, i as int, i + 1);
                        T::lemma_total(pre[i as int], pre[i + 1]);
                        // An out-of-order pair never straddles or enters the
                        // sorted suffix.
                        assert(i + 1 < s0);
                        assert forall|k: int| 0 <= k < i + 1 implies #[trigger] v@[k].le_spec(
                            v@[i + 1],
                        ) by {
                            if k < i {
                                assert(pre[k].le_spec(pre[i as int]));
                            }
                        }
                    }
                    swapped = true;
                } else {
                    proof {
                        assert forall|k: int| 0 <= k < i + 1 implies #[trigger] v@[k].le_spec(
                            v@[i + 1],
                        ) by {
                            if k < i {
                                T::lemma_transitive(v@[k], v@[i as int], v@[i + 1]);
                            }
                        }
                        if !swapped {
                            assert forall|a: int, b: int| 0 <= a < b < i + 2 implies #[trigger] v@[a].le_spec(
                                v@[b],
                            ) by {
                                if b == i + 1 && a < i {
                                    assert(v@[a].le_spec(v@[i as int]));
                                    T::lemma_transitive(v@[a], v@[i as int], v@[i + 1]);
                                }
                            }
                        }
                        if s0 >= 1 && i + 1 == s0 {
                            // The running maximum has reached the boundary:
                            // position `s0 - 1` now caps the prefix, so the
                            // sorted suffix extends one place to the left.
                            assert(sorted_between(v@, s0 - 1, n as int));
                        }
                    }
                }
                i = i + 1;
            }
            proof {
                if s0 >= 1 {
                    if n >= 2 {
                        assert(i == n - 1);
                        if i >= s0 {
                        } else {
                            // s0 == n: the first pass; the running maximum at
                            // the last position starts the suffix.
                            assert(s0 == n);
                            assert(sorted_between(v@, s0 - 1, n as int));
                        }
                    } else {
                        // One element or none: trivially sorted everywhere.
                        assert(sorted_between(v@, s0 - 1, n as int));
                    }
                    sorted_from = s0 - 1;
                }
                if !swapped {
                    assert(sorted_between(v@, 0, n as int));
                }
            }
        }
    }
}

} // verus!
