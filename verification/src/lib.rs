//! An incrementally maintained Pareto front.
//!
//! A [`ParetoFront`] keeps, out of every element handed to it, exactly those
//! that are not dominated by any other element seen so far, under the
//! dominance relation supplied through the [`Dominate`] trait.  A
//! [`ConcurrentParetoFront`] lets many threads feed elements into private
//! per-thread fronts without contention and reduces them to a single
//! [`ParetoFront`] on demand.

mod concurrent;
mod dominate;
mod element;
mod front;
mod laws;
mod model;

pub use concurrent::reduce_fronts;
pub use concurrent::total_contents;
pub use concurrent::ConcurrentParetoFront;
pub use dominate::Dominate;
pub use element::ParetoElement;
pub use front::ParetoFront;
pub use laws::combined_contents;
pub use laws::lemma_antichain_invariant;
pub use laws::lemma_merge_identity;
pub use laws::lemma_order_independence;
pub use laws::lemma_partition_independence;
pub use laws::lemma_push_all_from_empty;
pub use laws::lemma_push_all_of_pareto;
pub use laws::lemma_sharding_independence;
pub use laws::pareto_each;
pub use laws::push_all;
pub use model::antichain;
pub use model::dominated_in;
pub use model::pareto;
pub use model::spec_push;
pub use model::survivors;
