use strategy_transfer::{random_strategy, Domain};

#[test]
fn test_random_strategy_values() {
    let s = random_strategy(100, &mut 123);
    assert_eq!(s.len(), 100);
    assert!(s.iter().all(|&x| x == -1 || x == 0 || x == 1));
}

#[test]
fn test_domain_creation() {
    let d = Domain::new("test", 3);
    assert_eq!(d.name, "test");
    assert_eq!(d.strategy_length, 3);
}

#[test]
fn random_strategy_exact_values() {
    let mut seed: u64 = 123;
    let s = random_strategy(10, &mut seed);
    assert_eq!(s, vec![0, -1, 0, -1, 0, 1, 1, 1, 1, 0]);
    assert_eq!(seed, 17075329021495130221);
}

#[test]
fn random_strategy_first_step_from_zero() {
    let mut seed: u64 = 0;
    let s = random_strategy(1, &mut seed);
    assert_eq!(s, vec![1]);
    assert_eq!(seed, 1442695040888963407);
}

#[test]
fn random_strategy_wraps_at_top_of_range() {
    let mut seed: u64 = u64::MAX;
    let s = random_strategy(3, &mut seed);
    assert_eq!(s, vec![0, 1, 0]);
    assert_eq!(seed, 10372369020401571876);
}

#[test]
fn random_strategy_empty_leaves_seed() {
    let mut seed: u64 = 77;
    let s = random_strategy(0, &mut seed);
    assert!(s.is_empty());
    assert_eq!(seed, 77);
}

#[test]
fn random_strategy_split_is_one_stream() {
    let mut a: u64 = 42;
    let mut first = random_strategy(5, &mut a);
    let second = random_strategy(7, &mut a);
    first.extend(second);
    let mut b: u64 = 42;
    let whole = random_strategy(12, &mut b);
    assert_eq!(first, whole);
    assert_eq!(a, b);
    assert_eq!(whole, vec![0, 1, 0, -1, 1, 0, 1, -1, 1, 1, 0, 1]);
    assert_eq!(b, 9756468244095911142);
}

#[test]
fn random_strategy_same_seed_same_strategy() {
    let x = random_strategy(20, &mut 5);
    let y = random_strategy(20, &mut 5);
    assert_eq!(x, y);
}

#[test]
fn draw_candidates_chunks_one_stream() {
    let d = Domain::new("d", 4);
    let mut seed: u64 = 42;
    let c = d.draw_candidates(3, &mut seed);
    assert_eq!(c.len(), 3);
    assert_eq!(c[0], vec![0, 1, 0, -1]);
    assert_eq!(c[1], vec![1, 0, 1, -1]);
    assert_eq!(c[2], vec![1, 1, 0, 1]);
    assert_eq!(seed, 9756468244095911142);
}

#[test]
fn draw_candidates_zero_budget() {
    let d = Domain::new("d", 4);
    let mut seed: u64 = 9;
    let c = d.draw_candidates(0, &mut seed);
    assert!(c.is_empty());
    assert_eq!(seed, 9);
}

#[test]
fn candidates_laid_end_to_end_are_one_strategy() {
    let d = Domain::new("d", 5);
    let mut a: u64 = 2024;
    let c = d.draw_candidates(4, &mut a);
    let flat: Vec<i8> = c.into_iter().flatten().collect();
    let mut b: u64 = 2024;
    assert_eq!(flat, random_strategy(20, &mut b));
    assert_eq!(a, b);
}
