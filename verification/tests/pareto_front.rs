use pareto_front::Dominate;
use pareto_front::ParetoElement;
use pareto_front::ParetoFront;
use rand::rngs::StdRng;
use rand::Rng;
use rand::RngExt;
use rand::SeedableRng;

/// creates a fully random element using the given random number generator
fn sample<R: Rng + ?Sized>(rng: &mut R) -> ParetoElement {
    ParetoElement {
        cost: rng.random::<u64>() as usize,
        quality: rng.random(),
        score: rng.random(),
    }
}

/// creates the given number of elements and puts them in a vector
/// uses the given seed for reproducibility
fn sample_n(n: usize, seed: u64) -> Vec<ParetoElement> {
    let mut rng = StdRng::seed_from_u64(seed);
    (0..n).map(|_| sample(&mut rng)).collect()
}

/// adds 3 elements to a pareto front and checks to see if the result is correct
#[test]
fn push3() {
    // data to be put in the front
    let x = ParetoElement { cost: 35, quality: 50, score: 4 };
    let y = ParetoElement { cost: 350, quality: 5, score: 2 };
    let z = ParetoElement { cost: 6, quality: 25, score: 5 };
    let v = ParetoElement { cost: 5, quality: 25, score: 5 };

    // insertions in a new front
    let mut front = ParetoFront::new();
    let x_is_optimal = front.push(x);
    assert!(x_is_optimal);
    let y_is_optimal = front.push(y);
    assert!(!y_is_optimal); // this element shouldn't be on the front
    let z_is_optimal = front.push(z);
    assert!(z_is_optimal); // this element should be on the front for now
    let v_is_optimal = front.push(v);
    assert!(v_is_optimal);

    // converts the front into a vector for ease of analysis
    let front_vec: Vec<ParetoElement> = front.into_vec();

    // checks size and content of the front
    assert_eq!(front_vec.len(), 2);
    assert!(front_vec.contains(&x));
    assert!(front_vec.contains(&v));
}

/// test the associativity of the push operation
#[test]
fn push_associativity() {
    // data to be put in the front
    let seed = 42;
    let mut data = sample_n(1000, seed);

    // sequential front
    let mut seq_front = ParetoFront::new();
    data.iter().for_each(|x| {
        seq_front.push(*x);
    });
    let mut seq_front: Vec<_> = seq_front.into_vec();
    seq_front.sort();

    // sequential front with different insertion order
    data.sort();
    let mut sort_front = ParetoFront::new();
    data.iter().for_each(|x| {
        sort_front.push(*x);
    });
    let mut sort_front: Vec<_> = sort_front.into_vec();
    sort_front.sort();

    // check for equality between both front
    assert_eq!(seq_front.len(), sort_front.len());
    assert!(seq_front.eq(&sort_front));
}

/// adds 3 elements to a pareto front and checks to see if the result is correct
#[test]
fn insert3() {
    // data to be put in the front
    let x = ParetoElement { cost: 35, quality: 50, score: 4 };
    let y = ParetoElement { cost: 350, quality: 5, score: 2 };
    let z = ParetoElement { cost: 6, quality: 25, score: 5 };
    let v = ParetoElement { cost: 5, quality: 25, score: 5 };

    // insertions in a new front
    let mut front = ParetoFront::new();
    let x_is_optimal = front.push(x);
    assert!(x_is_optimal);
    let y_is_optimal = front.push(y);
    assert!(!y_is_optimal); // this element shouldn't be on the front
    let z_is_optimal = front.push(z);
    assert!(z_is_optimal); // this element should be on the front for now
    let v_is_optimal = front.push(v);
    assert!(v_is_optimal);

    // converts the front into a vector for ease of analysis
    let front_vec: Vec<ParetoElement> = front.into_vec();

    // checks size and content of the front
    assert_eq!(front_vec.len(), 2);
    assert!(front_vec.contains(&x));
    assert!(front_vec.contains(&v));
}

/// the front never holds two elements such that one dominates the other
#[test]
fn antichain_invariant() {
    let data = sample_n(500, 7);
    let mut front = ParetoFront::new();
    for x in &data {
        front.push(*x);
    }
    let members = front.into_vec();
    for (i, a) in members.iter().enumerate() {
        for (j, b) in members.iter().enumerate() {
            if i != j {
                assert!(!a.dominate(b));
            }
        }
    }
}

/// merging with a freshly constructed empty front changes nothing,
/// in either direction
#[test]
fn merge_identity() {
    let data = sample_n(300, 11);
    let mut front = ParetoFront::new();
    for x in &data {
        front.push(*x);
    }
    let mut reference: Vec<_> = front.as_slice().to_vec();
    reference.sort();

    front.merge(ParetoFront::new());
    let mut merged: Vec<_> = front.as_slice().to_vec();
    merged.sort();
    assert_eq!(reference, merged);

    let mut empty = ParetoFront::new();
    empty.merge(front);
    let mut absorbed: Vec<_> = empty.into_vec();
    absorbed.sort();
    assert_eq!(reference, absorbed);
}

/// splitting the elements over several fronts and folding them with merge
/// gives the same contents as pushing them all into one front
#[test]
fn partition_independence() {
    let data = sample_n(900, 23);

    let mut direct = ParetoFront::new();
    data.iter().for_each(|x| {
        direct.push(*x);
    });
    let mut direct: Vec<_> = direct.into_vec();
    direct.sort();

    for parts in [2, 3, 5] {
        let mut fronts: Vec<_> = (0..parts).map(|_| ParetoFront::new()).collect();
        data.iter().enumerate().for_each(|(idx, x)| {
            fronts[idx % parts].push(*x);
        });
        let folded = fronts
            .into_iter()
            .reduce(|mut front_acc, front| {
                front_acc.merge(front);
                front_acc
            })
            .unwrap();
        let mut folded: Vec<_> = folded.into_vec();
        folded.sort();
        assert_eq!(direct, folded);
    }
}

/// an exact duplicate is admitted again rather than treated as a no-op
#[test]
fn duplicate_elements_are_kept() {
    let x = ParetoElement { cost: 4, quality: 9, score: 1 };
    let mut front = ParetoFront::new();
    assert!(front.push(x));
    assert!(front.push(x));
    assert_eq!(front.len(), 2);
    assert_eq!(front.as_slice(), &[x, x]);
}

/// building from a vector matches repeated pushes, and extend continues a front
#[test]
fn from_vec_and_extend() {
    let data = sample_n(200, 3);
    let (first, second) = data.split_at(120);

    let mut pushed = ParetoFront::new();
    data.iter().for_each(|x| {
        pushed.push(*x);
    });
    let mut pushed: Vec<_> = pushed.into_vec();
    pushed.sort();

    let mut built = ParetoFront::from_vec(first.to_vec());
    built.extend(second.to_vec());
    let mut built: Vec<_> = built.into_vec();
    built.sort();

    assert_eq!(pushed, built);
}

/// a new front is empty, and its accessors agree on the contents
#[test]
fn empty_front_accessors() {
    let front: ParetoFront<ParetoElement> = ParetoFront::new();
    assert_eq!(front.len(), 0);
    assert!(front.as_slice().is_empty());
    assert_eq!(front.iter().count(), 0);
    assert!(front.into_vec().is_empty());

    let defaulted: ParetoFront<ParetoElement> = ParetoFront::default();
    assert_eq!(defaulted.len(), 0);
}

/// iteration yields each member exactly once
#[test]
fn iter_yields_members() {
    let x = ParetoElement { cost: 1, quality: 2, score: 9 };
    let y = ParetoElement { cost: 9, quality: 8, score: 1 };
    let mut front = ParetoFront::new();
    front.push(x);
    front.push(y);
    assert_eq!(front.len(), 2);
    let mut seen: Vec<ParetoElement> = front.iter().copied().collect();
    seen.sort();
    let mut expected = vec![x, y];
    expected.sort();
    assert_eq!(seen, expected);
}
