//! A small suite of in-place comparison sorts behind one uniform `Sorter`
//! interface, together with a comparison-counting element wrapper for
//! measuring how much work each algorithm performs.

pub mod bubblesort;
pub mod evaluator;
pub mod insertionsort;
pub mod order;
pub mod quicksort;
pub mod selectionsort;

pub use crate::bubblesort::BubbleSort;
pub use crate::evaluator::SortEvaluator;
pub use crate::insertionsort::InsertionSort;
pub use crate::quicksort::QuickSort;
pub use crate::selectionsort::SelectionSort;


use vstd::prelude::*;

verus! {

use crate::order::{TotalPreorder, sorted};

/// The capability every sorting algorithm implements: rearrange the sequence
/// in place into non-decreasing order. The multiset of elements is left
/// unchanged, so the result is always a permutation of the input.
pub trait Sorter {
    fn sort<T: TotalPreorder>(&self, v: &mut Vec<T>)
        ensures
            sorted(final(v)@),
            final(v)@.to_multiset() == old(v)@.to_multiset(),
            final(v)@.len() == old(v)@.len(),
    ;
}

/// Sort with a sorter chosen by type alone, for the stateless algorithms.
pub fn sort<T: TotalPreorder, S: Sorter + Default>(v: &mut Vec<T>)
    ensures
        sorted(final(v)@),
        final(v)@.to_multiset() == old(v)@.to_multiset(),
        final(v)@.len() == old(v)@.len(),
{
    let sorter: S = Default::default();
    sorter.sort(v);
}

/// Relies on `<[T]>::swap` (reached through `Vec`'s slice deref): the
/// elements at the two indices change places and nothing else moves.
#[verifier::external_body]
pub(crate) fn swap<T>(v: &mut Vec<T>, i: usize, j: usize)
    requires
        i < old(v)@.len(),
        j < old(v)@.len(),
    ensures
        final(v)@ == old(v)@.update(i as int, old(v)@[j as int]).update(j as int, old(v)@[i as int]),
{
    v.swap(i, j);
}

/// Exchanging two positions of a sequence leaves its multiset of elements
/// unchanged.
pub proof fn lemma_swap_preserves_multiset<T>(s: Seq<T>, i: int, j: int)
    requires
        0 <= i < s.len(),
        0 <= j < s.len(),
    ensures
        s.update(i, s[j]).update(j, s[i]).to_multiset() == s.to_multiset(),
{
    broadcast use vstd::seq_lib::group_to_multiset_ensures;
    broadcast use vstd::multiset::group_multiset_axioms;

    assert(s.contains(s[i]));
    assert(s.contains(s[j]));
    let s1 = s.update(i, s[j]);
    assert(s1.contains(s1[j]));
    assert(s1.update(j, s[i]).to_multiset() =~= s.to_multiset());
}

} // verus!
