//! The comparison-counting evaluator: a decorator that pairs an element with
//! a shared tally and bumps the tally once per order comparison, delegating
//! the comparison itself to the wrapped element. It orders exactly as the
//! wrapped element does, so wrapping is purely a measurement device.

use core::cell::Cell;
use std::rc::Rc;
use vstd::prelude::*;

verus! {

use crate::order::TotalPreorder;

#[verifier::external_type_specification]
#[verifier::external_body]
#[verifier::reject_recursive_types(T)]
pub struct ExCell<T: ?Sized>(Cell<T>);

/// Relies on `Cell::get`: reads whatever the shared tally currently holds.
/// Nothing is promised of the value — any holder of the cell may have set it.
#[verifier::external_body]
fn tally_get(c: &Rc<Cell<usize>>) -> usize {
    c.get()
}

/// Relies on `Cell::set`: stores the given value into the shared tally.
#[verifier::external_body]
fn tally_set(c: &Rc<Cell<usize>>, value: usize) {
    c.set(value);
}

/// An element together with a handle on a shared comparison tally. Every
/// order comparison between two wrapped elements adds one to the tally.
#[derive(Clone)]
pub struct SortEvaluator<T> {
    pub t: T,
    pub cmps: Rc<Cell<usize>>,
}

impl<T> SortEvaluator<T> {
    /// One comparison has just been delegated: add it to the tally. The
    /// count wraps around rather than overflowing, which no realistic run
    /// ever reaches.
    fn record_comparison(&self) {
        let n = tally_get(&self.cmps);
        tally_set(&self.cmps, n.wrapping_add(1));
    }
}

impl<T: TotalPreorder> TotalPreorder for SortEvaluator<T> {
    /// The evaluator orders exactly as the wrapped element does.
    open spec fn le_spec(self, other: Self) -> bool {
        self.t.le_spec(other.t)
    }

    proof fn lemma_total(a: Self, b: Self) {
        T::lemma_total(a.t, b.t);
    }

    proof fn lemma_transitive(a: Self, b: Self, c: Self) {
        T::lemma_transitive(a.t, b.t, c.t);
    }

    fn le(&self, other: &Self) -> (r: bool) {
        self.record_comparison();
        self.t.le(&other.t)
    }
}

/// Wrapping two elements in counting evaluators does not change how they
/// compare: the evaluator's order relation gives the same verdict as the
/// wrapped elements' own relation, whatever tallies the wrappers carry. A
/// sort therefore rearranges wrapped elements exactly as it would rearrange
/// the bare ones.
pub proof fn lemma_wrapping_preserves_order<T: TotalPreorder>(
    a: SortEvaluator<T>,
    b: SortEvaluator<T>,
)
    ensures
        a.le_spec(b) == a.t.le_spec(b.t),
{
}

} // verus!
