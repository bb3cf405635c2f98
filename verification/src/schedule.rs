//! Which experiments a cross-domain analysis runs, and with which seeds.
//!
//! The experiment from domain `i` to domain `j` among `n` domains is seeded
//! with `seed + (i * n + j) * 1000`.

use vstd::prelude::*;

verus! {

/// One scheduled experiment: source index, target index, seed.
pub type ScheduledPair = (usize, usize, u64);

/// The seed of the experiment from domain `i` to domain `j` among `n`.
pub open spec fn pair_seed(seed: u64, n: nat, i: nat, j: nat) -> int {
    seed + (i * n + j) * 1000
}

/// Row `i` of the full matrix: every target `j` in order.
pub open spec fn matrix_row(seed: u64, n: nat, i: nat) -> Seq<ScheduledPair> {
    Seq::new(n, |j: int| (i as usize, j as usize, pair_seed(seed, n, i, j as nat) as u64))
}

/// The first `r` rows of the full matrix, row after row.
pub open spec fn matrix_rows(seed: u64, n: nat, r: nat) -> Seq<ScheduledPair>
    decreases r,
{
    if r == 0 {
        Seq::empty()
    } else {
        matrix_rows(seed, n, (r - 1) as nat) + matrix_row(seed, n, (r - 1) as nat)
    }
}

/// Row `i` without its diagonal entry: every target `j != i` in order.
pub open spec fn cross_row(seed: u64, n: nat, i: nat) -> Seq<ScheduledPair> {
    Seq::new(
        (n - 1) as nat,
        |t: int|
            {
                let j: int = if t < i { t } else { t + 1 };
                (i as usize, j as usize, pair_seed(seed, n, i, j as nat) as u64)
            },
    )
}

/// The first `r` rows without their diagonal entries, row after row.
pub open spec fn cross_rows(seed: u64, n: nat, r: nat) -> Seq<ScheduledPair>
    decreases r,
{
    if r == 0 {
        Seq::empty()
    } else {
        cross_rows(seed, n, (r - 1) as nat) + cross_row(seed, n, (r - 1) as nat)
    }
}

proof fn lemma_matrix_rows_len(seed: u64, n: nat, r: nat)
    ensures
        matrix_rows(seed, n, r).len() == r * n,
    decreases r,
{
    if r == 0 {
        assert(r * n == 0) by (nonlinear_arith)
            requires
                r == 0,
        ;
    } else {
        let p = (r - 1) as nat;
        lemma_matrix_rows_len(seed, n, p);
        assert(r * n == p * n + n) by (nonlinear_arith)
            requires
                p + 1 == r,
        ;
    }
}

proof fn lemma_cross_rows_len(seed: u64, n: nat, r: nat)
    requires
        n >= 1,
    ensures
        cross_rows(seed, n, r).len() == r * (n - 1),
    decreases r,
{
    if r == 0 {
        assert(r * (n - 1) == 0) by (nonlinear_arith)
            requires
                r == 0,
        ;
    } else {
        let p = (r - 1) as nat;
        lemma_cross_rows_len(seed, n, p);
        assert(r * (n - 1) == p * (n - 1) + (n - 1)) by (nonlinear_arith)
            requires
                p + 1 == r,
        ;
    }
}

proof fn lemma_index_bound(n: nat, i: nat, j: nat)
    requires
        i < n,
        j < n,
    ensures
        i * n + j <= n * n - 1,
        i != j ==> i * n + j <= n * n - 2,
{
    assert(i * n + j <= n * n - 1) by (nonlinear_arith)
        requires
            i < n,
            j < n,
    ;
    if i != j {
        if i + 1 == n {
            assert(i * n + j <= n * n - 2) by (nonlinear_arith)
                requires
                    i + 1 == n,
                    j < n,
                    i != j,
            ;
        } else {
            assert(i * n + j <= n * n - 2) by (nonlinear_arith)
                requires
                    i + 1 < n,
                    j < n,
            ;
        }
    }
}

/// Whether a scheduled experiment goes between two different domains.
pub open spec fn off_diagonal() -> spec_fn(ScheduledPair) -> bool {
    |e: ScheduledPair| e.0 != e.1
}

proof fn lemma_row_prefix_filter(seed: u64, n: nat, i: nat, t: nat)
    requires
        i < n,
        t <= n,
        n <= usize::MAX,
    ensures
        matrix_row(seed, n, i).take(t as int).filter(off_diagonal()) == cross_row(seed, n, i).take(
            if t <= i { t as int } else { t - 1 },
        ),
    decreases t,
{
    let row = matrix_row(seed, n, i);
    if t == 0 {
        reveal(Seq::filter);
        assert(row.take(0) =~= Seq::<ScheduledPair>::empty());
        assert(cross_row(seed, n, i).take(0) =~= Seq::<ScheduledPair>::empty());
    } else {
        let p = (t - 1) as nat;
        lemma_row_prefix_filter(seed, n, i, p);
        assert(row.take(t as int) =~= row.take(p as int).push(row[p as int]));
        row.take(p as int).lemma_filter_push(row[p as int], off_diagonal());
        if p < i {
            assert(cross_row(seed, n, i).take(t as int) =~= cross_row(seed, n, i).take(p as int).push(
                row[p as int],
            ));
        } else if p > i {
            assert(cross_row(seed, n, i).take(p as int) =~= cross_row(seed, n, i).take(p - 1).push(
                row[p as int],
            ));
        }
    }
}

proof fn lemma_rows_filter(seed: u64, n: nat, r: nat)
    requires
        r <= n,
        n <= usize::MAX,
    ensures
        cross_rows(seed, n, r) == matrix_rows(seed, n, r).filter(off_diagonal()),
    decreases r,
{
    if r == 0 {
        reveal(Seq::filter);
    } else {
        let p = (r - 1) as nat;
        lemma_rows_filter(seed, n, p);
        lemma_row_prefix_filter(seed, n, p, n);
        assert(matrix_row(seed, n, p).take(n as int) =~= matrix_row(seed, n, p));
        assert(cross_row(seed, n, p).take(n - 1) =~= cross_row(seed, n, p));
        Seq::filter_distributes_over_add(
            matrix_rows(seed, n, p),
            matrix_row(seed, n, p),
            off_diagonal(),
        );
    }
}

/// A cross-domain analysis runs exactly the off-diagonal experiments of the
/// transfer matrix built from the same domains and seed, in the same order
/// and with the same seeds.
pub proof fn lemma_cross_is_matrix_off_diagonal(n: usize, seed: u64)
    ensures
        cross_rows(seed, n as nat, n as nat) == matrix_rows(seed, n as nat, n as nat).filter(
            off_diagonal(),
        ),
{
    lemma_rows_filter(seed, n as nat, n as nat);
}

proof fn lemma_matrix_rows_index(seed: u64, n: nat, r: nat, i: nat, j: nat)
    requires
        i < r,
        j < n,
    ensures
        i * n + j < r * n,
        matrix_rows(seed, n, r).len() == r * n,
        matrix_rows(seed, n, r)[(i * n + j) as int] == matrix_row(seed, n, i)[j as int],
    decreases r,
{
    let p = (r - 1) as nat;
    lemma_matrix_rows_len(seed, n, p);
    lemma_matrix_rows_len(seed, n, r);
    assert(r * n == p * n + n) by (nonlinear_arith)
        requires
            p + 1 == r,
    ;
    if i < p {
        lemma_matrix_rows_index(seed, n, p, i, j);
    } else {
        assert(i * n == p * n);
    }
}

proof fn lemma_cross_rows_index(seed: u64, n: nat, r: nat, i: nat, t: nat)
    requires
        n >= 1,
        i < r,
        t < n - 1,
    ensures
        i * (n - 1) + t < r * (n - 1),
        cross_rows(seed, n, r).len() == r * (n - 1),
        cross_rows(seed, n, r)[i * (n - 1) + t] == cross_row(seed, n, i)[t as int],
    decreases r,
{
    let p = (r - 1) as nat;
    let m = (n - 1) as nat;
    lemma_cross_rows_len(seed, n, p);
    lemma_cross_rows_len(seed, n, r);
    assert(r * m == p * m + m) by (nonlinear_arith)
        requires
            p + 1 == r,
    ;
    if i < p {
        lemma_cross_rows_index(seed, n, p, i, t);
        assert(i * m + t < p * m) by (nonlinear_arith)
            requires
                i < p,
                t < m,
        ;
    } else {
        assert(i * m == p * m);
    }
}

/// Entry `i * n + j` of the full transfer matrix schedule is the experiment
/// from domain `i` to domain `j`, diagonal included, seeded with
/// `seed + (i * n + j) * 1000`.
pub proof fn lemma_matrix_schedule_entry(seed: u64, n: usize, i: int, j: int)
    requires
        0 <= i < n,
        0 <= j < n,
        seed + (n * n - 1) * 1000 <= u64::MAX,
    ensures
        i * n + j < matrix_rows(seed, n as nat, n as nat).len(),
        matrix_rows(seed, n as nat, n as nat)[i * n + j].0 == i,
        matrix_rows(seed, n as nat, n as nat)[i * n + j].1 == j,
        matrix_rows(seed, n as nat, n as nat)[i * n + j].2 == seed + (i * n + j) * 1000,
{
    lemma_matrix_rows_index(seed, n as nat, n as nat, i as nat, j as nat);
    lemma_index_bound(n as nat, i as nat, j as nat);
}

/// In the cross-domain schedule, the experiment from domain `i` to a different
/// domain `j` comes at position `i * (n - 1) + j` when `j < i` and
/// `i * (n - 1) + j - 1` when `j > i`, seeded with `seed + (i * n + j) * 1000`.
pub proof fn lemma_cross_schedule_entry(seed: u64, n: usize, i: int, j: int)
    requires
        0 <= i < n,
        0 <= j < n,
        i != j,
        seed + (n * n - 2) * 1000 <= u64::MAX,
    ensures
        ({
            let k = i * (n - 1) + if j < i { j } else { j - 1 };
            &&& k < cross_rows(seed, n as nat, n as nat).len()
            &&& cross_rows(seed, n as nat, n as nat)[k].0 == i
            &&& cross_rows(seed, n as nat, n as nat)[k].1 == j
            &&& cross_rows(seed, n as nat, n as nat)[k].2 == seed + (i * n + j) * 1000
        }),
{
    let t: int = if j < i { j } else { j - 1 };
    lemma_cross_rows_index(seed, n as nat, n as nat, i as nat, t as nat);
    lemma_index_bound(n as nat, i as nat, j as nat);
}

/// Different experiments of a transfer matrix get different seeds.
pub proof fn lemma_matrix_seeds_distinct(seed: u64, n: usize, i1: int, j1: int, i2: int, j2: int)
    requires
        0 <= i1 < n,
        0 <= j1 < n,
        0 <= i2 < n,
        0 <= j2 < n,
        i1 != i2 || j1 != j2,
        seed + (n * n - 1) * 1000 <= u64::MAX,
    ensures
        matrix_rows(seed, n as nat, n as nat)[i1 * n + j1].2 != matrix_rows(
            seed,
            n as nat,
            n as nat,
        )[i2 * n + j2].2,
{
    lemma_matrix_schedule_entry(seed, n, i1, j1);
    lemma_matrix_schedule_entry(seed, n, i2, j2);
    if i1 < i2 {
        assert(i1 * n + j1 < i2 * n + j2) by (nonlinear_arith)
            requires
                i1 < i2,
                0 <= j1 < n,
                0 <= j2,
        ;
    } else if i2 < i1 {
        assert(i2 * n + j2 < i1 * n + j1) by (nonlinear_arith)
            requires
                i2 < i1,
                0 <= j2 < n,
                0 <= j1,
        ;
    }
}

/// Every experiment of the full `n` by `n` transfer matrix, row by row:
/// entry `i * n + j` is the experiment from domain `i` to domain `j`.
pub fn matrix_schedule(n: usize, seed: u64) -> (s: Vec<ScheduledPair>)
    requires
        n == 0 || seed + (n * n - 1) * 1000 <= u64::MAX,
    ensures
        s@ == matrix_rows(seed, n as nat, n as nat),
        s@.len() == n * n,
{
    let mut s: Vec<ScheduledPair> = Vec::new();
    let mut i: usize = 0;
    while i < n
        invariant
            i <= n,
            n == 0 || seed + (n * n - 1) * 1000 <= u64::MAX,
            s@ == matrix_rows(seed, n as nat, i as nat),
        decreases n - i,
    {
        let mut j: usize = 0;
        while j < n
            invariant
                i < n,
                j <= n,
                seed + (n * n - 1) * 1000 <= u64::MAX,
                s@ == matrix_rows(seed, n as nat, i as nat) + matrix_row(seed, n as nat, i as nat).take(
                    j as int,
                ),
            decreases n - j,
        {
            proof {
                lemma_index_bound(n as nat, i as nat, j as nat);
                assert((i as u64) * (n as u64) <= i * n + j);
            }
            let k: u64 = i as u64 * n as u64 + j as u64;
            let pair: ScheduledPair = (i, j, seed + k * 1000);
            let ghost prev = s@;
            s.push(pair);
            proof {
                assert(matrix_row(seed, n as nat, i as nat).take(j + 1) =~= matrix_row(
                    seed,
                    n as nat,
                    i as nat,
                ).take(j as int).push(pair));
                assert(s@ =~= prev.push(pair));
            }
            j = j + 1;
        }
        assert(matrix_row(seed, n as nat, i as nat).take(n as int) =~= matrix_row(
            seed,
            n as nat,
            i as nat,
        ));
        i = i + 1;
    }
    proof {
        lemma_matrix_rows_len(seed, n as nat, n as nat);
    }
    s
}

/// The experiments of a cross-domain analysis: every ordered pair of distinct
/// domains among `n`, row by row, with its seed. There are `n * (n - 1)` of them.
pub fn cross_domain_schedule(n: usize, seed: u64) -> (s: Vec<ScheduledPair>)
    requires
        n <= 1 || seed + (n * n - 2) * 1000 <= u64::MAX,
    ensures
        s@ == cross_rows(seed, n as nat, n as nat),
        s@.len() == n * (n - 1),
{
    let mut s: Vec<ScheduledPair> = Vec::new();
    let mut i: usize = 0;
    while i < n
        invariant
            i <= n,
            n <= 1 || seed + (n * n - 2) * 1000 <= u64::MAX,
            s@ == cross_rows(seed, n as nat, i as nat),
        decreases n - i,
    {
        let mut j: usize = 0;
        while j < n
            invariant
                i < n,
                j <= n,
                n <= 1 || seed + (n * n - 2) * 1000 <= u64::MAX,
                s@ == cross_rows(seed, n as nat, i as nat) + cross_row(seed, n as nat, i as nat).take(
                    if j <= i { j as int } else { j - 1 },
                ),
            decreases n - j,
        {
            if i != j {
                proof {
                    lemma_index_bound(n as nat, i as nat, j as nat);
                    assert((i as u64) * (n as u64) <= i * n + j);
                }
                let k: u64 = i as u64 * n as u64 + j as u64;
                let pair: ScheduledPair = (i, j, seed + k * 1000);
                let ghost t: int = if j < i { j as int } else { j - 1 };
                let ghost prev = s@;
                s.push(pair);
                proof {
                    assert(cross_row(seed, n as nat, i as nat)[t] == pair);
                    assert(cross_row(seed, n as nat, i as nat).take(t + 1) =~= cross_row(
                        seed,
                        n as nat,
                        i as nat,
                    ).take(t).push(pair));
                    assert(s@ =~= prev.push(pair));
                }
            }
            j = j + 1;
        }
        assert(cross_row(seed, n as nat, i as nat).take(n - 1) =~= cross_row(
            seed,
            n as nat,
            i as nat,
        ));
        i = i + 1;
    }
    proof {
        if n >= 1 {
            lemma_cross_rows_len(seed, n as nat, n as nat);
        } else {
            assert(n * (n - 1) == 0) by (nonlinear_arith)
                requires
                    n == 0,
            ;
        }
    }
    s
}

} // verus!
