use strategy_transfer::{cross_domain_schedule, matrix_schedule};

#[test]
fn matrix_schedule_covers_every_pair() {
    let s = matrix_schedule(3, 42);
    assert_eq!(s.len(), 9);
    assert_eq!(s[0], (0, 0, 42));
    assert_eq!(s[5], (1, 2, 42 + 5 * 1000));
    assert_eq!(s[8], (2, 2, 42 + 8 * 1000));
    assert!(matrix_schedule(0, 42).is_empty());
}

#[test]
fn cross_schedule_skips_the_diagonal() {
    let s = cross_domain_schedule(3, 42);
    assert_eq!(
        s,
        vec![
            (0, 1, 1042),
            (0, 2, 2042),
            (1, 0, 3042),
            (1, 2, 5042),
            (2, 0, 6042),
            (2, 1, 7042),
        ]
    );
}

#[test]
fn cross_schedule_counts_off_diagonal_pairs() {
    assert_eq!(cross_domain_schedule(8, 99).len(), 8 * 7);
    assert!(cross_domain_schedule(1, 99).is_empty());
    assert!(cross_domain_schedule(0, 99).is_empty());
}

#[test]
fn cross_schedule_largest_seed_fits() {
    let s = cross_domain_schedule(2, u64::MAX - 2000);
    assert_eq!(s, vec![(0, 1, u64::MAX - 1000), (1, 0, u64::MAX)]);
}

#[test]
fn cross_schedule_is_matrix_without_diagonal() {
    for n in 0..6 {
        let off: Vec<_> = matrix_schedule(n, 1234).into_iter().filter(|e| e.0 != e.1).collect();
        assert_eq!(cross_domain_schedule(n, 1234), off);
    }
}
