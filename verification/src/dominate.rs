use vstd::prelude::*;

verus! {

/// The capability an element type must offer before it can be stored in a
/// Pareto front: a pure dominance test.
///
/// `a.dominate(b)` means "`a` is at least as good as `b` on every attribute
/// that matters, and the two are not equivalent".  By convention an element
/// never dominates an equal element, so equality is a tie, not a win.
///
/// The front's guarantees rest on the relation being an irreflexive strict
/// partial order; an implementation discharges that obligation once, through
/// the two proof methods, and every front built over it is then correct by
/// construction.
pub trait Dominate: Sized {
    /// The dominance relation, as a mathematical predicate.
    spec fn spec_dominate(self, other: Self) -> bool;

    /// Returns `true` iff `self` dominates `other`.
    ///
    /// Must be a pure function of the two operands, with no side effects.
    fn dominate(&self, other: &Self) -> (r: bool)
        ensures
            r == self.spec_dominate(*other),
    ;

    /// No element dominates itself.
    proof fn lemma_dominate_irreflexive(a: Self)
        ensures
            !a.spec_dominate(a),
    ;

    /// Dominance is transitive.
    proof fn lemma_dominate_transitive(a: Self, b: Self, c: Self)
        requires
            a.spec_dominate(b),
            b.spec_dominate(c),
        ensures
            a.spec_dominate(c),
    ;
}

} // verus!
