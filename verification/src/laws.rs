//! The laws of the Pareto front, stated over the model and proved once.
//!
//! Every operation's contract speaks in terms of [`pareto`], so these laws
//! tie the contracts together: what one push does, what a whole sequence of
//! pushes builds, and why neither the insertion order nor any sharding of the
//! elements can change the outcome.

use vstd::multiset::Multiset;
use vstd::prelude::*;

use crate::dominate::Dominate;
use crate::model::antichain;
use crate::model::lemma_pareto_absorb;
use crate::model::lemma_pareto_antichain;
use crate::model::lemma_pareto_of_antichain;
use crate::model::lemma_spec_push_is_pareto;
use crate::model::pareto;
use crate::model::spec_push;

verus! {

broadcast use vstd::multiset::group_multiset_axioms, vstd::seq_lib::group_to_multiset_ensures;

/// The contents of a front after pushing the elements of `s`, in order, into
/// a front that held `m`.
pub open spec fn push_all<T: Dominate>(m: Multiset<T>, s: Seq<T>) -> Multiset<T>
    decreases s.len(),
{
    if s.len() == 0 {
        m
    } else {
        push_all(spec_push(m, s.first()), s.drop_first())
    }
}

/// Every front reachable by pushes is an antichain: no member dominates
/// another.
pub proof fn lemma_antichain_invariant<T: Dominate>(s: Seq<T>)
    ensures
        antichain(push_all(Multiset::empty(), s)),
{
    lemma_push_all_from_empty(s);
    lemma_pareto_antichain(s.to_multiset());
}

/// Merging any antichain with an empty front leaves its contents unchanged.
pub proof fn lemma_merge_identity<T: Dominate>(m: Multiset<T>)
    requires
        antichain(m),
    ensures
        pareto(m.add(Multiset::empty())) == m,
{
    assert(m.add(Multiset::empty()) =~= m);
    lemma_pareto_of_antichain(m);
}

/// Pushing a sequence of elements into an empty front builds exactly the
/// Pareto front of the elements as a multiset.
pub proof fn lemma_push_all_from_empty<T: Dominate>(s: Seq<T>)
    ensures
        push_all(Multiset::empty(), s) == pareto(s.to_multiset()),
{
    assert(Multiset::<T>::empty() =~= pareto(Multiset::<T>::empty())) by {
        assert(antichain(Multiset::<T>::empty()));
        lemma_pareto_of_antichain(Multiset::<T>::empty());
    }
    lemma_push_all_of_pareto(Multiset::empty(), s);
    assert(Multiset::<T>::empty().add(s.to_multiset()) =~= s.to_multiset());
}

/// Pushing `s` into the Pareto front of `m` builds the Pareto front of the
/// union.
pub proof fn lemma_push_all_of_pareto<T: Dominate>(m: Multiset<T>, s: Seq<T>)
    ensures
        push_all(pareto(m), s) == pareto(m.add(s.to_multiset())),
    decreases s.len(),
{
    if s.len() == 0 {
        assert(s.to_multiset() =~= Multiset::<T>::empty()) by {
            assert(s =~= Seq::<T>::empty());
        }
        assert(m.add(s.to_multiset()) =~= m);
    } else {
        let x = s.first();
        let rest = s.drop_first();
        lemma_pareto_antichain(m);
        lemma_spec_push_is_pareto::<T>(pareto(m), x);
        lemma_pareto_absorb(m, Multiset::singleton(x));
        assert(pareto(m).insert(x) == pareto(m).add(Multiset::singleton(x)));
        assert(m.add(Multiset::singleton(x)) =~= m.insert(x));
        assert(spec_push(pareto(m), x) == pareto(m.insert(x)));
        lemma_push_all_of_pareto(m.insert(x), rest);
        assert(rest.to_multiset() == s.to_multiset().remove(x)) by {
            assert(rest =~= s.remove(0));
        }
        assert(s.contains(x));
        assert(s.to_multiset().count(x) > 0);
        assert(m.insert(x).add(rest.to_multiset()) =~= m.add(s.to_multiset()));
    }
}

/// Order independence: pushing the same elements in any two orders into an
/// empty front yields the same contents.
pub proof fn lemma_order_independence<T: Dominate>(s1: Seq<T>, s2: Seq<T>)
    requires
        s1.to_multiset() == s2.to_multiset(),
    ensures
        push_all(Multiset::empty(), s1) == push_all(Multiset::empty(), s2),
{
    lemma_push_all_from_empty(s1);
    lemma_push_all_from_empty(s2);
}

/// Partition independence, pairwise: building separate fronts over two
/// portions of the elements and merging them yields the front of the whole.
pub proof fn lemma_partition_independence<T: Dominate>(a: Multiset<T>, b: Multiset<T>)
    ensures
        pareto(pareto(a).add(pareto(b))) == pareto(a.add(b)),
{
    lemma_pareto_absorb(a, pareto(b));
    lemma_pareto_absorb(b, a);
    assert(a.add(pareto(b)) =~= pareto(b).add(a));
    assert(b.add(a) =~= a.add(b));
}

/// The union of a sequence of portions of elements.
pub open spec fn combined_contents<T>(parts: Seq<Multiset<T>>) -> Multiset<T>
    decreases parts.len(),
{
    if parts.len() == 0 {
        Multiset::empty()
    } else {
        combined_contents(parts.drop_last()).add(parts.last())
    }
}

/// Each portion replaced by its own Pareto front.
pub open spec fn pareto_each<T: Dominate>(parts: Seq<Multiset<T>>) -> Seq<Multiset<T>> {
    parts.map_values(|m: Multiset<T>| pareto(m))
}

/// Sharding independence: split the elements into any number of portions,
/// build a front over each, and pool the fronts; the Pareto front of the
/// pool is the Pareto front of all the elements together.  This is why the
/// concurrent aggregator's reduction does not depend on how elements were
/// routed to threads.
pub proof fn lemma_sharding_independence<T: Dominate>(parts: Seq<Multiset<T>>)
    ensures
        pareto(combined_contents(pareto_each(parts))) == pareto(combined_contents(parts)),
    decreases parts.len(),
{
    if parts.len() == 0 {
        assert(pareto_each(parts) =~= Seq::<Multiset<T>>::empty());
    } else {
        let rest = parts.drop_last();
        let b = parts.last();
        let a = combined_contents(pareto_each(rest));
        lemma_sharding_independence(rest);
        assert(pareto_each(parts).drop_last() =~= pareto_each(rest));
        assert(pareto_each(parts).last() == pareto(b));
        assert(combined_contents(pareto_each(parts)) == a.add(pareto(b)));
        lemma_pareto_absorb(b, a);
        assert(a.add(pareto(b)) =~= pareto(b).add(a));
        assert(b.add(a) =~= a.add(b));
        assert(pareto(a.add(pareto(b))) == pareto(a.add(b)));
        lemma_pareto_absorb(a, b);
        lemma_pareto_absorb(combined_contents(rest), b);
        assert(pareto(a).add(b) == pareto(combined_contents(rest)).add(b));
        assert(pareto(combined_contents(pareto_each(parts))) == pareto(
            combined_contents(rest).add(b),
        ));
    }
}

} // verus!
