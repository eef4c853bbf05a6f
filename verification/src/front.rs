//! The sequential Pareto front.

use vstd::multiset::Multiset;
use vstd::prelude::*;

use crate::dominate::Dominate;
use crate::model::antichain;
use crate::model::dominated_in;
use crate::model::lemma_pareto_absorb;
use crate::model::lemma_pareto_antichain;
use crate::model::lemma_pareto_of_antichain;
use crate::model::lemma_spec_push_is_pareto;
use crate::model::pareto;
use crate::model::spec_push;
use crate::model::survivors;
use vstd::std_specs::iter::IteratorSpec;

verus! {

broadcast use vstd::multiset::group_multiset_axioms, vstd::seq_lib::group_to_multiset_ensures, vstd::std_specs::slice::axiom_spec_slice_iter;

/// A Pareto front: of all elements pushed so far, exactly those that no other
/// pushed element dominates.
///
/// The stored order carries no meaning and is not stable across operations;
/// the contents are the view's [`Seq::to_multiset`].  Exact duplicates are
/// kept: an element equal to a current member is admitted again, since by
/// convention equal elements do not dominate each other.
#[derive(Clone, Debug)]
pub struct ParetoFront<T: Dominate> {
    front: Vec<T>,
}

impl<T: Dominate> View for ParetoFront<T> {
    type V = Seq<T>;

    closed spec fn view(&self) -> Seq<T> {
        self.front@
    }
}

impl<T: Dominate> ParetoFront<T> {
    /// The front is an antichain: no member dominates another.
    ///
    /// Every constructor establishes this and every operation preserves it.
    pub open spec fn wf(self) -> bool {
        antichain(self@.to_multiset())
    }

    /// Constructs a new, empty, Pareto front.
    pub fn new() -> (front: Self)
        ensures
            front@ == Seq::<T>::empty(),
            front.wf(),
    {
        let front = ParetoFront { front: Vec::new() };
        proof {
            assert(front@.to_multiset() =~= Multiset::<T>::empty());
        }
        front
    }

    /// Returns the number of elements currently in the Pareto front.
    pub fn len(&self) -> (n: usize)
        ensures
            n == self@.len(),
    {
        self.front.len()
    }

    /// Extracts a slice containing the entire Pareto front.
    pub fn as_slice(&self) -> (s: &[T])
        ensures
            s@ == self@,
    {
        self.front.as_slice()
    }

    /// Returns an iterator over the Pareto front, yielding each member
    /// exactly once, in unspecified order.
    pub fn iter(&self) -> (it: core::slice::Iter<'_, T>)
        ensures
            it.remaining() == self@.as_ref(),
    {
        self.front.as_slice().iter()
    }

    /// Converts the Pareto front into a vector of its elements.
    pub fn into_vec(self) -> (v: Vec<T>)
        ensures
            v@ == self@,
    {
        self.front
    }

    /// Swaps the element at `index` with its immediate predecessor.
    ///
    /// Elements that have dominated a newcomer are statistically likely to do
    /// so again; moving them forward shortens future scans.  The contents are
    /// untouched.
    fn percolate_forward(&mut self, index: usize)
        requires
            0 < index < old(self)@.len(),
        ensures
            final(self)@ == old(self)@.update(index - 1, old(self)@[index as int]).update(
                index as int,
                old(self)@[index - 1],
            ),
            final(self)@.to_multiset() == old(self)@.to_multiset(),
    {
        let predecessor = self.front.remove(index - 1);
        self.front.insert(index, predecessor);
        proof {
            let s0 = old(self)@;
            assert(self@ =~= s0.update(index - 1, s0[index as int]).update(
                index as int,
                s0[index - 1],
            ));
            assert(self@.to_multiset() =~= s0.to_multiset());
        }
    }

    /// Removes every element at position `index_start` or later that
    /// `new_element` dominates.  Positions before `index_start` must already
    /// be free of dominated elements.
    fn remove_dominated_starting_at(&mut self, new_element: &T, index_start: usize)
        requires
            antichain(old(self)@.to_multiset()),
            index_start <= old(self)@.len(),
            forall|j: int|
                0 <= j < index_start ==> !new_element.spec_dominate(#[trigger] old(self)@[j]),
        ensures
            antichain(final(self)@.to_multiset()),
            final(self)@.to_multiset() == survivors(old(self)@.to_multiset(), *new_element),
    {
        let ghost m0 = old(self)@.to_multiset();
        let ghost keep = |e: T| !new_element.spec_dominate(e);
        let mut index: usize = index_start;
        while index < self.front.len()
            invariant
                antichain(m0),
                index <= self@.len(),
                self@.to_multiset().subset_of(m0),
                self@.to_multiset().filter(keep) == m0.filter(keep),
                keep == (|e: T| !new_element.spec_dominate(e)),
                forall|j: int| 0 <= j < index ==> !new_element.spec_dominate(#[trigger] self@[j]),
            decreases self@.len() - index,
        {
            let is_dominated = new_element.dominate(&self.front[index]);
            if is_dominated {
                let ghost s = self@;
                let _removed = self.front.swap_remove(index);
                proof {
                    let removed = s[index as int];
                    assert(s.update(index as int, s.last()).drop_last() =~= s.update(
                        index as int,
                        s.last(),
                    ).remove(s.len() - 1));
                    assert(self@.to_multiset() =~= s.to_multiset().remove(removed));
                    assert forall|v: T|
                        self@.to_multiset().filter(keep).count(v) == m0.filter(keep).count(
                            v,
                        ) by {}
                    assert(self@.to_multiset().filter(keep) =~= m0.filter(keep));
                }
            } else {
                index += 1;
            }
        }
        proof {
            assert forall|v: T| self@.to_multiset().count(v) == survivors(m0, *new_element).count(
                v,
            ) by {
                if !keep(v) {
                    if self@.to_multiset().count(v) > 0 {
                        assert(self@.contains(v));
                        let j = choose|j: int| 0 <= j < self@.len() && self@[j] == v;
                        assert(!new_element.spec_dominate(self@[j]));
                        assert(false);
                    }
                } else {
                    assert(self@.to_multiset().filter(keep).count(v) == m0.filter(keep).count(v));
                }
            }
            assert(self@.to_multiset() =~= survivors(m0, *new_element));
            assert forall|x: T, y: T|
                #[trigger] self@.to_multiset().contains(x) && #[trigger] self@.to_multiset()
                    .contains(y) implies !x.spec_dominate(y) by {
                assert(m0.contains(x) && m0.contains(y));
            }
        }
    }

    /// Removes every element of the front that `new_element` dominates, and
    /// reports whether `new_element` belongs in the front: `true` unless some
    /// member dominates it, in which case the contents are left unchanged.
    fn remove_dominated(&mut self, new_element: &T) -> (is_pareto_optimal: bool)
        requires
            antichain(old(self)@.to_multiset()),
        ensures
            antichain(final(self)@.to_multiset()),
            is_pareto_optimal == !dominated_in(old(self)@.to_multiset(), *new_element),
            is_pareto_optimal ==> final(self)@.to_multiset() == survivors(
                old(self)@.to_multiset(),
                *new_element,
            ),
            !is_pareto_optimal ==> final(self)@.to_multiset() == old(self)@.to_multiset(),
    {
        let ghost m0 = old(self)@.to_multiset();
        let mut index: usize = 0;
        while index < self.front.len()
            invariant
                antichain(m0),
                m0 == old(self)@.to_multiset(),
                self@.to_multiset() == m0,
                index <= self@.len(),
                forall|j: int|
                    0 <= j < index ==> !(#[trigger] self@[j]).spec_dominate(*new_element)
                        && !new_element.spec_dominate(self@[j]),
            decreases self@.len() - index,
        {
            let dominates_newcomer = self.front[index].dominate(new_element);
            if dominates_newcomer {
                proof {
                    let witness = self@[index as int];
                    assert(self@.contains(witness));
                    assert(m0.contains(witness));
                    assert(witness.spec_dominate(*new_element));
                    assert(dominated_in(m0, *new_element));
                }
                if index > 0 {
                    // Percolate the winner forward so that later pushes meet
                    // it sooner.
                    self.percolate_forward(index);
                }
                return false;
            }
            let newcomer_dominates = new_element.dominate(&self.front[index]);
            if newcomer_dominates {
                let ghost s = self@;
                let ghost evicted = self@[index as int];
                proof {
                    assert(s.contains(evicted));
                    assert(m0.contains(evicted));
                    assert(!dominated_in(m0, *new_element)) by {
                        if dominated_in(m0, *new_element) {
                            let y = choose|y: T|
                                #[trigger] m0.contains(y) && y.spec_dominate(*new_element);
                            T::lemma_dominate_transitive(y, *new_element, evicted);
                            assert(!y.spec_dominate(evicted));
                        }
                    }
                }
                let _removed = self.front.swap_remove(index);
                proof {
                    assert(s.update(index as int, s.last()).drop_last() =~= s.update(
                        index as int,
                        s.last(),
                    ).remove(s.len() - 1));
                    assert(self@.to_multiset() =~= m0.remove(evicted));
                    assert(self@.to_multiset().subset_of(m0));
                    assert forall|x: T, y: T|
                        #[trigger] self@.to_multiset().contains(x) && #[trigger] self@.to_multiset()
                            .contains(y) implies !x.spec_dominate(y) by {
                        assert(m0.contains(x) && m0.contains(y));
                    }
                    assert(forall|j: int|
                        0 <= j < index ==> !new_element.spec_dominate(#[trigger] self@[j]));
                }
                self.remove_dominated_starting_at(new_element, index);
                proof {
                    assert forall|v: T|
                        survivors(m0.remove(evicted), *new_element).count(v) == survivors(
                            m0,
                            *new_element,
                        ).count(v) by {}
                    assert(survivors(m0.remove(evicted), *new_element) =~= survivors(
                        m0,
                        *new_element,
                    ));
                }
                return true;
            }
            index += 1;
        }
        proof {
            assert(!dominated_in(m0, *new_element)) by {
                if dominated_in(m0, *new_element) {
                    let y = choose|y: T| #[trigger] m0.contains(y) && y.spec_dominate(*new_element);
                    assert(self@.contains(y));
                    let j = choose|j: int| 0 <= j < self@.len() && self@[j] == y;
                    assert(!self@[j].spec_dominate(*new_element));
                }
            }
            assert forall|v: T| self@.to_multiset().count(v) == survivors(m0, *new_element).count(
                v,
            ) by {
                let keep = |e: T| !new_element.spec_dominate(e);
                if !keep(v) {
                    if self@.to_multiset().count(v) > 0 {
                        assert(self@.contains(v));
                        let j = choose|j: int| 0 <= j < self@.len() && self@[j] == v;
                        assert(!new_element.spec_dominate(self@[j]));
                        assert(false);
                    }
                }
            }
            assert(self@.to_multiset() =~= survivors(m0, *new_element));
        }
        true
    }

    /// Adds `new_element` to the Pareto front: admits it iff no current
    /// member dominates it, and evicts every member it dominates.
    ///
    /// Returns `true` iff the element is now in the Pareto front.  The scan is
    /// `O(n)` in the current size of the front; the stored order of the
    /// remaining elements is not preserved.
    pub fn push(&mut self, new_element: T) -> (is_pareto_optimal: bool)
        requires
            old(self).wf(),
        ensures
            final(self).wf(),
            is_pareto_optimal == !dominated_in(old(self)@.to_multiset(), new_element),
            final(self)@.to_multiset() == spec_push(old(self)@.to_multiset(), new_element),
            final(self)@.to_multiset() == pareto(old(self)@.to_multiset().insert(new_element)),
    {
        let ghost m0 = old(self)@.to_multiset();
        let is_pareto_optimal = self.remove_dominated(&new_element);
        if is_pareto_optimal {
            let ghost s = self@;
            self.front.push(new_element);
            proof {
                assert(self@ == s.push(new_element));
                assert(self@.to_multiset() == s.to_multiset().insert(new_element));
            }
        }
        proof {
            lemma_spec_push_is_pareto(m0, new_element);
            lemma_pareto_antichain(m0.insert(new_element));
        }
        is_pareto_optimal
    }

    /// Pushes every element of `elements` into the Pareto front, one by one.
    ///
    /// The batch is drained back to front; by order independence (see
    /// [`crate::lemma_order_independence`]) the resulting contents are the
    /// same whatever the order, namely the Pareto front of the union.
    pub fn extend(&mut self, elements: Vec<T>)
        requires
            old(self).wf(),
        ensures
            final(self).wf(),
            final(self)@.to_multiset() == pareto(
                old(self)@.to_multiset().add(elements@.to_multiset()),
            ),
    {
        let ghost a0 = self@.to_multiset();
        let ghost e0 = elements@.to_multiset();
        let mut elements = elements;
        while elements.len() > 0
            invariant
                self.wf(),
                pareto(self@.to_multiset().add(elements@.to_multiset())) == pareto(a0.add(e0)),
            decreases elements@.len(),
        {
            let ghost a = self@.to_multiset();
            let ghost e = elements@.to_multiset();
            let ghost s = elements@;
            let x = elements.pop().unwrap();
            proof {
                assert(s =~= elements@.push(x));
                assert(e == elements@.to_multiset().insert(x));
            }
            self.push(x);
            proof {
                let e2 = elements@.to_multiset();
                lemma_pareto_absorb(a.insert(x), e2);
                assert(a.insert(x).add(e2) =~= a.add(e));
                assert(pareto(self@.to_multiset().add(e2)) == pareto(a0.add(e0)));
            }
        }
        proof {
            assert(elements@.to_multiset() =~= Multiset::<T>::empty()) by {
                assert(elements@ =~= Seq::<T>::empty());
            }
            assert(self@.to_multiset().add(elements@.to_multiset()) =~= self@.to_multiset());
            lemma_pareto_of_antichain(self@.to_multiset());
        }
    }

    /// Builds a Pareto front from the elements of a vector.
    pub fn from_vec(elements: Vec<T>) -> (front: Self)
        ensures
            front.wf(),
            front@.to_multiset() == pareto(elements@.to_multiset()),
    {
        let mut front = ParetoFront::new();
        let ghost e0 = elements@.to_multiset();
        front.extend(elements);
        proof {
            assert(Seq::<T>::empty().to_multiset() =~= Multiset::<T>::empty());
            assert(Multiset::<T>::empty().add(e0) =~= e0);
        }
        front
    }

    /// Absorbs the contents of `other_front` into `self`, keeping exactly the
    /// elements of the union that nothing in the union dominates.
    ///
    /// The larger of the two fronts is kept as the scanned base and every
    /// element of the smaller one is re-tested against it, so the work is
    /// `O(n * m)`.  The stored order of the result is unspecified.
    pub fn merge(&mut self, other_front: ParetoFront<T>)
        requires
            old(self).wf(),
            other_front.wf(),
        ensures
            final(self).wf(),
            final(self)@.to_multiset() == pareto(
                old(self)@.to_multiset().add(other_front@.to_multiset()),
            ),
    {
        let ghost a0 = self@.to_multiset();
        let ghost b0 = other_front@.to_multiset();
        let mut other_front = other_front;
        if self.front.len() < other_front.front.len() {
            core::mem::swap(&mut self.front, &mut other_front.front);
        }
        let ghost a1 = self@.to_multiset();
        let ghost b1 = other_front@.to_multiset();
        self.extend(other_front.front);
        proof {
            assert(a1.add(b1) =~= a0.add(b0));
        }
    }
}

impl<T: Dominate> Default for ParetoFront<T> {
    /// An empty Pareto front.
    fn default() -> (front: Self)
        ensures
            front@ == Seq::<T>::empty(),
            front.wf(),
    {
        ParetoFront::new()
    }
}

} // verus!
