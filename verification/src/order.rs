//! The order contract every sorter depends on: a total preorder given by a
//! spec-level relation `le_spec` together with an executable comparison `le`
//! that agrees with it.
//!
//! Antisymmetry is deliberately not required: elements may compare equal
//! without being the same value (for example a keyed record ordered by its
//! key alone), which is exactly what makes questions about stable insertion
//! points meaningful.

use vstd::prelude::*;

verus! {

/// An element type usable by the sorters: a total preorder, reflexive and
/// transitive with any two elements comparable, plus an executable
/// comparison that decides it.
pub trait TotalPreorder: Sized {
    /// The order relation itself, at the specification level.
    spec fn le_spec(self, other: Self) -> bool;

    /// Any two elements are comparable (which also gives reflexivity).
    proof fn lemma_total(a: Self, b: Self)
        ensures
            a.le_spec(b) || b.le_spec(a),
    ;

    /// The relation is transitive.
    proof fn lemma_transitive(a: Self, b: Self, c: Self)
        requires
            a.le_spec(b),
            b.le_spec(c),
        ensures
            a.le_spec(c),
    ;

    /// One order comparison: returns whether `self` is at or below `other`.
    fn le(&self, other: &Self) -> (r: bool)
        ensures
            r == self.le_spec(*other),
    ;
}

/// The elements of `s` at positions `[lo, hi)` are in non-decreasing order.
pub open spec fn sorted_between<T: TotalPreorder>(s: Seq<T>, lo: int, hi: int) -> bool {
    forall|i: int, j: int| lo <= i < j < hi ==> #[trigger] s[i].le_spec(s[j])
}

/// The whole sequence is in non-decreasing order.
pub open spec fn sorted<T: TotalPreorder>(s: Seq<T>) -> bool {
    sorted_between(s, 0, s.len() as int)
}

impl TotalPreorder for i64 {
    open spec fn le_spec(self, other: Self) -> bool {
        self <= other
    }

    proof fn lemma_total(a: Self, b: Self) {
    }

    proof fn lemma_transitive(a: Self, b: Self, c: Self) {
    }

    fn le(&self, other: &Self) -> (r: bool) {
        *self <= *other
    }
}

/// A record ordered by `key` alone; `tag` rides along untouched by every
/// comparison. Two records with equal keys compare equal without being the
/// same value, which makes it possible to observe where a sorter puts an
/// element among equal ones.
#[derive(Clone, Copy, Debug, PartialEq, Eq, Structural)]
pub struct Tagged {
    pub key: u64,
    pub tag: u64,
}

impl TotalPreorder for Tagged {
    open spec fn le_spec(self, other: Self) -> bool {
        self.key <= other.key
    }

    proof fn lemma_total(a: Self, b: Self) {
    }

    proof fn lemma_transitive(a: Self, b: Self, c: Self) {
    }

    fn le(&self, other: &Self) -> (r: bool) {
        self.key <= other.key
    }
}

/// Sorting an already-sorted sequence yields it unchanged, for any sorter:
/// whenever the order relation is antisymmetric, a sorted sequence is the
/// only sorted arrangement of its elements, so anything sorted that holds
/// the same elements as a sorted input is that input itself. Without
/// antisymmetry the claim fails — two records that compare equal but differ
/// elsewhere may legally come back in either order.
pub proof fn lemma_sorted_arrangement_unique<T: TotalPreorder>(a: Seq<T>, b: Seq<T>)
    requires
        sorted(a),
        sorted(b),
        a.to_multiset() == b.to_multiset(),
        forall|x: T, y: T| x.le_spec(y) && #[trigger] y.le_spec(x) ==> x == y,
    ensures
        a == b,
{
    let leq = |x: T, y: T| x.le_spec(y);
    assert forall|x: T| #[trigger] leq(x, x) by {
        T::lemma_total(x, x);
    }
    assert forall|x: T, y: T| #[trigger] leq(x, y) && #[trigger] leq(y, x) implies x == y by {
        assert(x.le_spec(y) && y.le_spec(x));
    }
    assert forall|x: T, y: T, z: T| #[trigger] leq(x, y) && #[trigger] leq(y, z) implies leq(
        x,
        z,
    ) by {
        T::lemma_transitive(x, y, z);
    }
    assert forall|x: T, y: T| #[trigger] leq(x, y) || #[trigger] leq(y, x) by {
        T::lemma_total(x, y);
    }
    assert(vstd::relations::total_ordering(leq));
    assert(vstd::relations::sorted_by(a, leq));
    assert(vstd::relations::sorted_by(b, leq));
    vstd::seq_lib::lemma_sorted_unique(a, b, leq);
    assert(a =~= b);
}

impl TotalPreorder for u64 {
    open spec fn le_spec(self, other: Self) -> bool {
        self <= other
    }

    proof fn lemma_total(a: Self, b: Self) {
    }

    proof fn lemma_transitive(a: Self, b: Self, c: Self) {
    }

    fn le(&self, other: &Self) -> (r: bool) {
        *self <= *other
    }
}

} // verus!
