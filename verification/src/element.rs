//! A ready-made element type for cost/quality/score trade-offs.

use vstd::prelude::*;

use crate::dominate::Dominate;

verus! {

/// An element with three attributes: `cost` is minimized, `quality` and
/// `score` are maximized.
///
/// One element dominates another when it is at least as good on all three
/// attributes and the two are not equal; equal elements are ties.  That
/// relation is proved to be an irreflexive strict partial order, so the
/// type can be stored in a Pareto front.
#[derive(Clone, Copy, Debug, PartialEq, Eq, Structural, PartialOrd, Ord, Hash)]
pub struct ParetoElement {
    /// To be minimized.
    pub cost: usize,
    /// To be maximized.
    pub quality: u8,
    /// To be maximized.
    pub score: i64,
}

impl Dominate for ParetoElement {
    open spec fn spec_dominate(self, other: Self) -> bool {
        self.cost <= other.cost && self.quality >= other.quality && self.score >= other.score
            && self != other
    }

    fn dominate(&self, other: &Self) -> (r: bool) {
        self.cost <= other.cost && self.quality >= other.quality && self.score >= other.score && !(
        self == other)
    }

    proof fn lemma_dominate_irreflexive(a: Self) {
    }

    proof fn lemma_dominate_transitive(a: Self, b: Self, c: Self) {
        if a == c {
            assert(b == c);
        }
    }
}

} // verus!
