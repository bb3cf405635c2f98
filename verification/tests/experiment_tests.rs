use strategy_transfer::{permutation_draws, random_strategy, Domain, TransferExperiment};

#[test]
fn experiment_defaults_to_seed_42() {
    let e = TransferExperiment::new(Domain::new("a", 3), Domain::new("b", 5), 10);
    assert_eq!(e.seed, 42);
    assert_eq!(e.budget, 10);
    assert_eq!(e.source.name, "a");
    assert_eq!(e.target.strategy_length, 5);
    let e = e.with_seed(7);
    assert_eq!(e.seed, 7);
    assert_eq!(e.budget, 10);
    assert_eq!(e.source.strategy_length, 3);
}

#[test]
fn experiment_draws_thread_one_seed() {
    let e = TransferExperiment::new(Domain::new("a", 3), Domain::new("b", 2), 4).with_seed(11);
    let d = e.draw();
    let mut seed: u64 = 11;
    for k in 0..4 {
        assert_eq!(d.source_candidates[k], random_strategy(3, &mut seed));
    }
    for k in 0..4 {
        assert_eq!(d.scratch_candidates[k], random_strategy(2, &mut seed));
    }
    for k in 0..4 {
        assert_eq!(d.random_candidates[k], random_strategy(2, &mut seed));
    }
    assert_eq!(d.source_candidates.len(), 4);
    assert_eq!(d.scratch_candidates.len(), 4);
    assert_eq!(d.random_candidates.len(), 4);
}

#[test]
fn permutation_draws_start_one_past_seed() {
    let target = Domain::new("t", 3);
    let pairs = permutation_draws(&target, 3, 41);
    assert_eq!(pairs.len(), 3);
    let mut seed: u64 = 42;
    for k in 0..3 {
        assert_eq!(pairs[k].0, random_strategy(3, &mut seed));
        assert_eq!(pairs[k].1, random_strategy(3, &mut seed));
    }
}

#[test]
fn permutation_draws_wrap_seed() {
    let target = Domain::new("t", 1);
    let pairs = permutation_draws(&target, 1, u64::MAX);
    assert_eq!(pairs[0].0, vec![1]);
    assert_eq!(pairs[0].1, vec![-1]);
}
