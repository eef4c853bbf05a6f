use pareto_front::ConcurrentParetoFront;
use pareto_front::ParetoElement;
use pareto_front::ParetoFront;
use rand::rngs::StdRng;
use rand::Rng;
use rand::RngExt;
use rand::SeedableRng;
use rayon::iter::IntoParallelRefIterator;
use rayon::iter::ParallelIterator;

/// creates a fully random element using the given random number generator
fn sample<R: Rng + ?Sized>(rng: &mut R) -> ParetoElement {
    ParetoElement {
        cost: rng.random::<u64>() as usize,
        quality: rng.random(),
        score: rng.random(),
    }
}

/// creates the given number of elements and puts them in a vector
/// uses the given seed for reproducibility
fn sample_n(n: usize, seed: u64) -> Vec<ParetoElement> {
    let mut rng = StdRng::seed_from_u64(seed);
    (0..n).map(|_| sample(&mut rng)).collect()
}

/// adds 1000 elements to a ParetoFront and a simulated ConcurrentParetoFront
/// check the result to ensure they are the same
/// in practice this tests the push and merge operation, reducing the list of potential culprits in case of bug
#[test]
fn simulated_push_concurrent() {
    // data to be put in the front
    let seed = 42;
    let data = sample_n(1000, seed);

    // sequential front
    let mut seq_front = ParetoFront::new();
    data.iter().for_each(|x| {
        seq_front.push(*x);
    });
    let mut seq_front: Vec<_> = seq_front.into_vec();
    seq_front.sort();

    // simulated concurrent front
    let mut sim_front: Vec<_> = (0..8).map(|_| ParetoFront::new()).collect();
    data.iter().enumerate().for_each(|(idx, x)| {
        sim_front[idx % 8].push(*x);
    });
    let sim_front = sim_front
        .into_iter()
        .reduce(|mut front_acc, front| {
            front_acc.merge(front);
            front_acc
        })
        .unwrap_or_default();
    let mut sim_front: Vec<_> = sim_front.into_vec();
    sim_front.sort();

    // check for equality with simulated front
    assert_eq!(seq_front.len(), sim_front.len());
    assert!(seq_front.eq(&sim_front));
}

/// adds 1000 elements to a ParetoFront and a ConcurrentParetoFront
/// check the result to ensure they are the same
#[test]
fn push_concurrent() {
    // data to be put in the front
    let seed = 42;
    let data = sample_n(1000, seed);

    // sequential front
    let mut seq_front = ParetoFront::new();
    data.iter().for_each(|x| {
        seq_front.push(*x);
    });
    let mut seq_front: Vec<_> = seq_front.into_vec();
    seq_front.sort();

    // concurrent front
    let conc_front = ConcurrentParetoFront::new();
    data.par_iter().for_each(|x| {
        conc_front.push(*x);
    });
    let mut conc_front: Vec<_> = conc_front.into_vec();
    conc_front.sort();

    // checks for equality with concurrent front
    assert_eq!(seq_front.len(), conc_front.len());
    assert!(seq_front.eq(&conc_front));
}

/// an aggregator nobody pushed into reduces to an empty front
#[test]
fn empty_aggregator_reduces_to_empty_front() {
    let conc_front: ConcurrentParetoFront<ParetoElement> = ConcurrentParetoFront::new();
    let front = conc_front.into_sequential();
    assert_eq!(front.len(), 0);
}

/// a front seeded through from_front comes back unchanged from the reduction
#[test]
fn from_front_round_trip() {
    let data = sample_n(100, 5);
    let mut front = ParetoFront::new();
    for x in &data {
        front.push(*x);
    }
    let mut reference: Vec<_> = front.as_slice().to_vec();
    reference.sort();

    let conc_front = ConcurrentParetoFront::from_front(front);
    let mut reduced: Vec<_> = conc_front.into_sequential().into_vec();
    reduced.sort();
    assert_eq!(reference, reduced);
}

/// extend and from_vec on the aggregator match the sequential front
#[test]
fn concurrent_extend_matches_sequential() {
    let data = sample_n(400, 9);

    let mut seq_front = ParetoFront::new();
    data.iter().for_each(|x| {
        seq_front.push(*x);
    });
    let mut seq_front: Vec<_> = seq_front.into_vec();
    seq_front.sort();

    let conc_front = ConcurrentParetoFront::from_vec(data.clone());
    let mut conc_front: Vec<_> = conc_front.into_vec();
    conc_front.sort();
    assert_eq!(seq_front, conc_front);
}
