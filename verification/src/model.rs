//! The mathematical model of a Pareto front.
//!
//! Contents of a front are modelled as a [`Multiset`], since the stored order
//! carries no meaning and exact duplicates are kept.  The central notion is
//! [`pareto`]: the sub-multiset of elements that no element of the whole
//! multiset dominates.

use vstd::multiset::Multiset;
use vstd::prelude::*;

use crate::dominate::Dominate;

verus! {

broadcast use vstd::multiset::group_multiset_axioms;

/// Some element of `m` dominates `x`.
pub open spec fn dominated_in<T: Dominate>(m: Multiset<T>, x: T) -> bool {
    exists|y: T| #[trigger] m.contains(y) && y.spec_dominate(x)
}

/// No element of `m` dominates another (nor, vacuously, itself).
pub open spec fn antichain<T: Dominate>(m: Multiset<T>) -> bool {
    forall|x: T, y: T| #[trigger] m.contains(x) && #[trigger] m.contains(y) ==> !x.spec_dominate(y)
}

/// The elements of `m` that `x` does not dominate.
pub open spec fn survivors<T: Dominate>(m: Multiset<T>, x: T) -> Multiset<T> {
    m.filter(|e: T| !x.spec_dominate(e))
}

/// The Pareto front of `m`: the elements of `m` that nothing in `m` dominates.
pub open spec fn pareto<T: Dominate>(m: Multiset<T>) -> Multiset<T> {
    m.filter(|e: T| !dominated_in(m, e))
}

/// What one `push` of `x` does to a front's contents: leave them alone when
/// some member dominates `x`, otherwise evict everything `x` dominates and
/// admit `x`.
pub open spec fn spec_push<T: Dominate>(m: Multiset<T>, x: T) -> Multiset<T> {
    if dominated_in(m, x) {
        m
    } else {
        survivors(m, x).insert(x)
    }
}

/// The Pareto front of any multiset is an antichain.
pub proof fn lemma_pareto_antichain<T: Dominate>(m: Multiset<T>)
    ensures
        antichain(pareto(m)),
{
    assert forall|x: T, y: T| #[trigger] pareto(m).contains(x) && #[trigger] pareto(m).contains(y)
        implies !x.spec_dominate(y) by {
        assert(m.contains(x));
        assert(m.contains(y));
        assert(!dominated_in(m, y));
    }
}

/// An antichain is its own Pareto front.
pub proof fn lemma_pareto_of_antichain<T: Dominate>(m: Multiset<T>)
    requires
        antichain(m),
    ensures
        pareto(m) == m,
{
    assert forall|v: T| pareto(m).count(v) == m.count(v) by {
        if m.contains(v) {
            assert(!dominated_in(m, v));
        }
    }
    assert(pareto(m) =~= m);
}

/// Every dominated element has a dominator that is itself undominated.
///
/// This is where irreflexivity and transitivity earn their keep: a chain of
/// dominators over a finite multiset cannot cycle, so it ends in a maximal
/// element.
pub proof fn lemma_maximal_dominator<T: Dominate>(m: Multiset<T>, x: T)
    requires
        dominated_in(m, x),
    ensures
        exists|y: T| #[trigger] m.contains(y) && y.spec_dominate(x) && !dominated_in(m, y),
    decreases m.len(),
{
    let t = choose|t: T| #[trigger] m.contains(t) && t.spec_dominate(x);
    if !dominated_in(m, t) {
        assert(m.contains(t) && t.spec_dominate(x) && !dominated_in(m, t));
    } else {
        let s = choose|s: T| #[trigger] m.contains(s) && s.spec_dominate(t);
        T::lemma_dominate_irreflexive(t);
        assert(s != t);
        T::lemma_dominate_transitive(s, t, x);
        let m2 = m.remove(t);
        assert(m2.contains(s));
        assert(dominated_in(m2, x));
        assert(m2.len() == m.len() - 1) by {
            assert(Multiset::singleton(t).subset_of(m));
        }
        lemma_maximal_dominator(m2, x);
        let y = choose|y: T| #[trigger] m2.contains(y) && y.spec_dominate(x) && !dominated_in(
            m2,
            y,
        );
        assert(m.contains(y));
        assert(!dominated_in(m, y)) by {
            if dominated_in(m, y) {
                let z = choose|z: T| #[trigger] m.contains(z) && z.spec_dominate(y);
                if z == t {
                    T::lemma_dominate_transitive(s, t, y);
                    assert(m2.contains(s) && s.spec_dominate(y));
                } else {
                    assert(m2.contains(z) && z.spec_dominate(y));
                }
            }
        }
    }
}

/// Domination survives growing the multiset.
pub proof fn lemma_dominated_in_add<T: Dominate>(a: Multiset<T>, b: Multiset<T>, x: T)
    ensures
        dominated_in(a.add(b), x) <==> dominated_in(a, x) || dominated_in(b, x),
{
    if dominated_in(a, x) {
        let y = choose|y: T| #[trigger] a.contains(y) && y.spec_dominate(x);
        assert(a.add(b).contains(y));
    }
    if dominated_in(b, x) {
        let y = choose|y: T| #[trigger] b.contains(y) && y.spec_dominate(x);
        assert(a.add(b).contains(y));
    }
    if dominated_in(a.add(b), x) {
        let y = choose|y: T| #[trigger] a.add(b).contains(y) && y.spec_dominate(x);
        if a.contains(y) {
            assert(dominated_in(a, x));
        } else {
            assert(b.contains(y));
            assert(dominated_in(b, x));
        }
    }
}

/// Reducing a multiset to its Pareto front first does not change the Pareto
/// front of a later union: the evicted elements were already beaten by a
/// surviving one.
pub proof fn lemma_pareto_absorb<T: Dominate>(m: Multiset<T>, n: Multiset<T>)
    ensures
        pareto(pareto(m).add(n)) == pareto(m.add(n)),
{
    let p = pareto(m);
    assert forall|v: T| dominated_in(m.add(n), v) implies dominated_in(p.add(n), v) by {
        lemma_dominated_in_add(m, n, v);
        if dominated_in(n, v) {
            let y = choose|y: T| #[trigger] n.contains(y) && y.spec_dominate(v);
            assert(p.add(n).contains(y));
        } else {
            let y = choose|y: T| #[trigger] m.contains(y) && y.spec_dominate(v);
            if !dominated_in(m, y) {
                assert(p.contains(y));
                assert(p.add(n).contains(y));
            } else {
                lemma_maximal_dominator(m, y);
                let w = choose|w: T|
                    #[trigger] m.contains(w) && w.spec_dominate(y) && !dominated_in(m, w);
                T::lemma_dominate_transitive(w, y, v);
                assert(p.contains(w));
                assert(p.add(n).contains(w) && w.spec_dominate(v));
            }
        }
    }
    assert forall|v: T| dominated_in(p.add(n), v) implies dominated_in(m.add(n), v) by {
        let y = choose|y: T| #[trigger] p.add(n).contains(y) && y.spec_dominate(v);
        if p.contains(y) {
            assert(m.contains(y));
            assert(m.add(n).contains(y));
        } else {
            assert(n.contains(y));
            assert(m.add(n).contains(y));
        }
    }
    assert forall|v: T| pareto(p.add(n)).count(v) == pareto(m.add(n)).count(v) by {
        if !dominated_in(m.add(n), v) {
            assert(!dominated_in(m, v)) by {
                lemma_dominated_in_add(m, n, v);
            }
        }
    }
    assert(pareto(p.add(n)) =~= pareto(m.add(n)));
}

/// On an antichain, one `spec_push` lands exactly on the Pareto front of the
/// grown multiset.
pub proof fn lemma_spec_push_is_pareto<T: Dominate>(m: Multiset<T>, x: T)
    requires
        antichain(m),
    ensures
        spec_push(m, x) == pareto(m.insert(x)),
{
    T::lemma_dominate_irreflexive(x);
    if dominated_in(m, x) {
        let d = choose|d: T| #[trigger] m.contains(d) && d.spec_dominate(x);
        assert(m.insert(x).contains(d));
        assert forall|v: T| pareto(m.insert(x)).count(v) == m.count(v) by {
            if v == x {
                assert(dominated_in(m.insert(x), x));
                assert(m.count(x) == 0) by {
                    if m.contains(x) {
                        assert(m.contains(d) && m.contains(x));
                    }
                }
            } else if m.contains(v) {
                assert(!dominated_in(m.insert(x), v)) by {
                    if dominated_in(m.insert(x), v) {
                        let z = choose|z: T|
                            #[trigger] m.insert(x).contains(z) && z.spec_dominate(v);
                        if z == x {
                            T::lemma_dominate_transitive(d, x, v);
                            assert(m.contains(d) && m.contains(v));
                        } else {
                            assert(m.contains(z) && m.contains(v));
                        }
                    }
                }
            }
        }
        assert(pareto(m.insert(x)) =~= m);
    } else {
        assert forall|v: T| pareto(m.insert(x)).count(v) == survivors(m, x).insert(x).count(v) by {
            if v == x {
                assert(!dominated_in(m.insert(x), x)) by {
                    if dominated_in(m.insert(x), x) {
                        let z = choose|z: T|
                            #[trigger] m.insert(x).contains(z) && z.spec_dominate(x);
                        if z == x {
                        } else {
                            assert(m.contains(z));
                            assert(dominated_in(m, x));
                        }
                    }
                }
            } else if m.contains(v) {
                assert(dominated_in(m.insert(x), v) <==> x.spec_dominate(v)) by {
                    if dominated_in(m.insert(x), v) {
                        let z = choose|z: T|
                            #[trigger] m.insert(x).contains(z) && z.spec_dominate(v);
                        if z != x {
                            assert(m.contains(z) && m.contains(v));
                        }
                    }
                    if x.spec_dominate(v) {
                        assert(m.insert(x).contains(x));
                    }
                }
            }
        }
        assert(pareto(m.insert(x)) =~= survivors(m, x).insert(x));
    }
}

} // verus!
