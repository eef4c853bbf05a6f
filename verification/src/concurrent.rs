//! The concurrent Pareto front: one private shard per calling thread, merged
//! into a single sequential front on demand.
//!
//! Pushes from different threads never touch the same shard, so the hot path
//! runs without any lock contention; the price is that a push's verdict is
//! only locally correct until [`ConcurrentParetoFront::into_sequential`]
//! reduces the shards.  The reduction itself is ordinary verified code: the
//! only trusted steps are the thread-local storage accesses.

use core::cell::RefCell;
use thread_local::ThreadLocal;
use vstd::multiset::Multiset;
use vstd::prelude::*;

use crate::dominate::Dominate;
use crate::front::ParetoFront;
use crate::model::antichain;
use crate::model::lemma_pareto_absorb;
use crate::model::lemma_pareto_of_antichain;
use crate::model::pareto;

verus! {

broadcast use vstd::multiset::group_multiset_axioms, vstd::seq_lib::group_to_multiset_ensures;

#[verifier::external_type_specification]
#[verifier::external_body]
#[verifier::reject_recursive_types(T)]
pub struct ExThreadLocal<T: Send>(ThreadLocal<T>);

#[verifier::external_type_specification]
#[verifier::external_body]
#[verifier::reject_recursive_types(T)]
pub struct ExRefCell<T: ?Sized>(RefCell<T>);

/// The union of the contents of a sequence of fronts.
pub open spec fn total_contents<T: Dominate>(fronts: Seq<ParetoFront<T>>) -> Multiset<T>
    decreases fronts.len(),
{
    if fronts.len() == 0 {
        Multiset::empty()
    } else {
        total_contents(fronts.drop_last()).add(fronts.last()@.to_multiset())
    }
}

/// Folds a batch of well-formed fronts into one by repeated [`ParetoFront::merge`]:
/// the result holds exactly the elements of the union that nothing in the
/// union dominates, whatever the batch's order or how the elements were
/// split across it.
pub fn reduce_fronts<T: Dominate>(fronts: Vec<ParetoFront<T>>) -> (front: ParetoFront<T>)
    requires
        forall|i: int| 0 <= i < fronts@.len() ==> (#[trigger] fronts@[i]).wf(),
    ensures
        front.wf(),
        front@.to_multiset() == pareto(total_contents(fronts@)),
{
    let ghost all = fronts@;
    let mut fronts = fronts;
    let mut front = ParetoFront::new();
    proof {
        assert(front@.to_multiset() =~= Multiset::<T>::empty());
        assert(Multiset::<T>::empty().add(total_contents(all)) =~= total_contents(all));
    }
    while fronts.len() > 0
        invariant
            front.wf(),
            forall|i: int| 0 <= i < fronts@.len() ==> (#[trigger] fronts@[i]).wf(),
            pareto(front@.to_multiset().add(total_contents(fronts@))) == pareto(
                total_contents(all),
            ),
        decreases fronts@.len(),
    {
        let ghost before = fronts@;
        let ghost acc = front@.to_multiset();
        let shard = fronts.pop().unwrap();
        proof {
            assert(fronts@ =~= before.drop_last());
            assert(total_contents(before) == total_contents(fronts@).add(shard@.to_multiset()));
        }
        front.merge(shard);
        proof {
            lemma_pareto_absorb(acc.add(shard@.to_multiset()), total_contents(fronts@));
            assert(acc.add(shard@.to_multiset()).add(total_contents(fronts@)) =~= acc.add(
                total_contents(before),
            ));
        }
    }
    proof {
        assert(total_contents(fronts@) =~= Multiset::<T>::empty()) by {
            assert(fronts@ =~= Seq::<ParetoFront<T>>::empty());
        }
        assert(front@.to_multiset().add(total_contents(fronts@)) =~= front@.to_multiset());
        lemma_pareto_of_antichain(front@.to_multiset());
    }
    front
}

/// A Pareto front that can be pushed into concurrently.
///
/// Each calling thread gets a private [`ParetoFront`] shard, created empty on
/// that thread's first push.  Shards are independent: an element accepted by
/// one shard may be dominated by an element pushed concurrently into another,
/// which is only resolved when the aggregator is reduced.  Memory use is
/// about one sequential front per pushing thread.
#[verifier::reject_recursive_types(T)]
pub struct ConcurrentParetoFront<T: Dominate + Send> {
    inner_front: ThreadLocal<RefCell<ParetoFront<T>>>,
}

impl<T: Dominate + Send> ConcurrentParetoFront<T> {
    /// Constructs a new, empty, concurrent Pareto front.
    ///
    /// Relies on `thread_local::ThreadLocal::new`: the store starts with no
    /// per-thread value.
    #[verifier::external_body]
    pub fn new() -> Self {
        ConcurrentParetoFront { inner_front: ThreadLocal::new() }
    }

    /// Swaps the calling thread's shard out of the store, leaving an empty
    /// front in its place.
    ///
    /// Relies on `thread_local::ThreadLocal::get_or` and
    /// `core::cell::RefCell::borrow_mut`: the calling thread gets exclusive
    /// access to its own shard, created empty on first use; no other thread
    /// can reach it, so the borrow always succeeds.  The shard handed out
    /// satisfies `wf`: it is either the empty front made here or a front that
    /// `put_local` or `from_front` stored, and both demand `wf`.
    #[verifier::external_body]
    fn take_local(&self) -> (front: ParetoFront<T>)
        ensures
            front.wf(),
    {
        let shard = self.inner_front.get_or(|| RefCell::new(ParetoFront::new()));
        core::mem::replace(&mut *shard.borrow_mut(), ParetoFront::new())
    }

    /// Stores `front` back as the calling thread's shard.
    ///
    /// Relies on the same two calls as `take_local`; the store only ever
    /// holds well-formed fronts, so `front` must be one.
    #[verifier::external_body]
    fn put_local(&self, front: ParetoFront<T>)
        requires
            front.wf(),
    {
        let shard = self.inner_front.get_or(|| RefCell::new(ParetoFront::new()));
        *shard.borrow_mut() = front;
    }

    /// Adds `new_element` to the calling thread's private shard, exactly as
    /// [`ParetoFront::push`] does.
    ///
    /// Returns `true` if the element *might be* in the final Pareto front:
    /// the verdict is that of this thread's shard alone, and an accepted
    /// element may still be evicted at reduction time by an element another
    /// thread pushed.  No cross-thread synchronization happens on this path.
    pub fn push(&self, new_element: T) -> bool {
        let mut front = self.take_local();
        let is_locally_optimal = front.push(new_element);
        self.put_local(front);
        is_locally_optimal
    }

    /// Moves every shard out of the aggregator.
    ///
    /// Relies on `thread_local::ThreadLocal::into_iter` and
    /// `core::cell::RefCell::into_inner`: the iterator yields exactly the
    /// per-thread values the store holds, and by then no thread can touch
    /// them any more.  Every shard in the store was created empty or stored
    /// by `put_local` or `from_front`, which demand `wf`, so each one
    /// satisfies `wf`.
    #[verifier::external_body]
    fn take_shards(self) -> (shards: Vec<ParetoFront<T>>)
        ensures
            forall|i: int| 0 <= i < shards@.len() ==> (#[trigger] shards@[i]).wf(),
    {
        self.inner_front.into_iter().map(|cell| cell.into_inner()).collect()
    }

    /// Turns the concurrent Pareto front into a sequential [`ParetoFront`]
    /// holding the true global antichain: folding the shards with
    /// [`ParetoFront::merge`] keeps exactly the elements of their union that
    /// nothing in the union dominates, independent of how the elements were
    /// routed to threads.
    ///
    /// If no element was ever pushed, the result is empty.  The reduction is
    /// purely sequential; the aggregator is consumed and no further push is
    /// possible.
    pub fn into_sequential(self) -> (front: ParetoFront<T>)
        ensures
            front.wf(),
    {
        let shards = self.take_shards();
        reduce_fronts(shards)
    }

    /// Converts the concurrent Pareto front into a vector of the reduced
    /// front's elements, in unspecified order.
    pub fn into_vec(self) -> (elements: Vec<T>)
        ensures
            antichain(elements@.to_multiset()),
    {
        self.into_sequential().into_vec()
    }

    /// Converts a sequential front into a concurrent one whose only shard,
    /// owned by the calling thread, is `front`.
    ///
    /// Relies on `thread_local::ThreadLocal::new` and
    /// `thread_local::ThreadLocal::get_or`: the store is fresh, so the
    /// closure runs and seeds the calling thread's shard with `front`.
    #[verifier::external_body]
    pub fn from_front(front: ParetoFront<T>) -> Self
        requires
            front.wf(),
    {
        let inner_front = ThreadLocal::new();
        inner_front.get_or(move || RefCell::new(front));
        ConcurrentParetoFront { inner_front }
    }

    /// Pushes every element of `elements` into the calling thread's shard.
    pub fn extend(&self, elements: Vec<T>) {
        let mut elements = elements;
        while elements.len() > 0
            decreases elements@.len(),
        {
            let element = elements.pop().unwrap();
            self.push(element);
        }
    }

    /// Builds a concurrent Pareto front holding the elements of a vector,
    /// all in the calling thread's shard.
    pub fn from_vec(elements: Vec<T>) -> Self {
        let front = ConcurrentParetoFront::new();
        front.extend(elements);
        front
    }
}

} // verus!
