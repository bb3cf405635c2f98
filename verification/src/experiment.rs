//! Transfer experiments: which candidates each phase of an experiment draws,
//! and from which generator state.

use vstd::prelude::*;
use crate::rng::{random_strategy, strategy_seq, lcg_iter, lemma_lcg_iter_add, Strategy};
use crate::domain::{Domain, strategy_views, candidate_seq, lemma_candidates_flatten};

verus! {

/// The seed an experiment starts from unless another is given.
pub const DEFAULT_SEED: u64 = 42;

/// A transfer experiment: train on the source domain, test on the target domain.
pub struct TransferExperiment {
    pub source: Domain,
    pub target: Domain,
    pub budget: usize,
    pub seed: u64,
}

/// The candidates of the three phases of an experiment, in the order they are drawn.
pub struct ExperimentDraws {
    /// Candidates scored on the source domain; the best of them is transferred.
    pub source_candidates: Vec<Strategy>,
    /// Candidates scored on the target domain, training from scratch.
    pub scratch_candidates: Vec<Strategy>,
    /// Candidates scored on the target domain as the random baseline.
    pub random_candidates: Vec<Strategy>,
}

/// The generator state after the source phase of an experiment.
pub open spec fn after_source(e: TransferExperiment) -> u64 {
    lcg_iter(e.seed, e.budget as nat * e.source.strategy_length as nat)
}

/// The generator state after the scratch phase of an experiment.
pub open spec fn after_scratch(e: TransferExperiment) -> u64 {
    lcg_iter(after_source(e), e.budget as nat * e.target.strategy_length as nat)
}

impl TransferExperiment {
    /// An experiment with the given domains and budget, seeded with 42.
    pub fn new(source: Domain, target: Domain, budget: usize) -> (e: TransferExperiment)
        ensures
            e.source == source,
            e.target == target,
            e.budget == budget,
            e.seed == DEFAULT_SEED,
    {
        TransferExperiment { source, target, budget, seed: DEFAULT_SEED }
    }

    /// The same experiment, started from `seed`.
    pub fn with_seed(self, seed: u64) -> (e: TransferExperiment)
        ensures
            e.source == self.source,
            e.target == self.target,
            e.budget == self.budget,
            e.seed == seed,
    {
        TransferExperiment { seed, ..self }
    }

    /// Draw the candidates of every phase. One generator state runs through
    /// all three: `budget` source-length strategies for training on the source,
    /// then `budget` target-length strategies for training from scratch, then
    /// `budget` target-length strategies for the random baseline.
    pub fn draw(&self) -> (d: ExperimentDraws)
        ensures
            d.source_candidates@.len() == self.budget,
            d.scratch_candidates@.len() == self.budget,
            d.random_candidates@.len() == self.budget,
            strategy_views(d.source_candidates@) == candidate_seq(
                self.seed,
                self.budget as nat,
                self.source.strategy_length as nat,
            ),
            strategy_views(d.scratch_candidates@) == candidate_seq(
                after_source(*self),
                self.budget as nat,
                self.target.strategy_length as nat,
            ),
            strategy_views(d.random_candidates@) == candidate_seq(
                after_scratch(*self),
                self.budget as nat,
                self.target.strategy_length as nat,
            ),
    {
        let mut seed: u64 = self.seed;
        let source_candidates = self.source.draw_candidates(self.budget, &mut seed);
        let scratch_candidates = self.target.draw_candidates(self.budget, &mut seed);
        let random_candidates = self.target.draw_candidates(self.budget, &mut seed);
        ExperimentDraws { source_candidates, scratch_candidates, random_candidates }
    }
}

/// The three phases of an experiment are consecutive, non-overlapping
/// stretches of the one stream that starts at the experiment's seed: the
/// scratch phase starts where the source phase stops, the baseline where the
/// scratch phase stops, and all the candidates, in the order they are drawn,
/// make up the strategy of length `budget * (source length + 2 * target length)`
/// drawn from the seed.
pub proof fn lemma_experiment_is_one_stream(e: TransferExperiment)
    ensures
        after_source(e) == lcg_iter(e.seed, e.budget as nat * e.source.strategy_length as nat),
        after_scratch(e) == lcg_iter(
            e.seed,
            e.budget as nat * e.source.strategy_length as nat + e.budget as nat
                * e.target.strategy_length as nat,
        ),
        candidate_seq(e.seed, e.budget as nat, e.source.strategy_length as nat).flatten()
            + candidate_seq(after_source(e), e.budget as nat, e.target.strategy_length as nat).flatten()
            + candidate_seq(after_scratch(e), e.budget as nat, e.target.strategy_length as nat).flatten()
            == strategy_seq(
            e.seed,
            e.budget as nat * e.source.strategy_length as nat + e.budget as nat
                * e.target.strategy_length as nat + e.budget as nat * e.target.strategy_length as nat,
        ),
{
    let b = e.budget as nat;
    let ls = e.source.strategy_length as nat;
    let lt = e.target.strategy_length as nat;
    let a1 = b * ls;
    let a2 = b * lt;
    lemma_candidates_flatten(e.seed, b, ls);
    lemma_candidates_flatten(after_source(e), b, lt);
    lemma_candidates_flatten(after_scratch(e), b, lt);
    lemma_lcg_iter_add(e.seed, a1, a2);
    crate::rng::lemma_strategy_split(e.seed, a1, a2);
    crate::rng::lemma_strategy_split(e.seed, a1 + a2, a2);
}

/// The state a permutation test starts from: one past the experiment's seed,
/// wrapping at 2^64.
pub open spec fn permutation_start(seed: u64) -> u64 {
    if seed == u64::MAX {
        0
    } else {
        (seed + 1) as u64
    }
}

/// A permutation test starts one past the seed modulo 2^64, and its pairs are
/// consecutive candidates of one stream: pair `k` is candidates `2k` and
/// `2k + 1` of the `2 * count` target-length candidates drawn from the start.
pub proof fn lemma_permutation_pairs_are_one_stream(seed: u64, count: nat, len: nat, k: int)
    requires
        0 <= k < count,
    ensures
        permutation_start(seed) as int == (seed as int + 1) % 18446744073709551616,
        permutation_pair_seq(permutation_start(seed), count, len)[k].0 == candidate_seq(
            permutation_start(seed),
            2 * count,
            len,
        )[2 * k],
        permutation_pair_seq(permutation_start(seed), count, len)[k].1 == candidate_seq(
            permutation_start(seed),
            2 * count,
            len,
        )[2 * k + 1],
{
    assert((2 * k) * len == 2 * k * len) by (nonlinear_arith);
    if seed == u64::MAX {
        assert((seed as int + 1) % 18446744073709551616 == 0);
    } else {
        vstd::arithmetic::div_mod::lemma_small_mod((seed + 1) as nat, 18446744073709551616);
    }
}

/// The pairs of strategies of a permutation test's null distribution: pair
/// `k` is the strategies drawn `2k * len` and `(2k + 1) * len` steps in.
pub open spec fn permutation_pair_seq(s: u64, count: nat, len: nat) -> Seq<(Seq<i8>, Seq<i8>)> {
    Seq::new(
        count,
        |k: int|
            (
                strategy_seq(lcg_iter(s, (2 * k * len) as nat), len),
                strategy_seq(lcg_iter(s, ((2 * k + 1) * len) as nat), len),
            ),
    )
}

/// The views of a list of strategy pairs.
pub open spec fn pair_views(c: Seq<(Strategy, Strategy)>) -> Seq<(Seq<i8>, Seq<i8>)> {
    c.map_values(|p: (Strategy, Strategy)| (p.0@, p.1@))
}

proof fn lemma_permutation_step(s: u64, k: nat, len: nat)
    ensures
        permutation_pair_seq(s, k + 1, len) == permutation_pair_seq(s, k, len).push(
            (
                strategy_seq(lcg_iter(s, 2 * k * len), len),
                strategy_seq(lcg_iter(lcg_iter(s, 2 * k * len), len), len),
            ),
        ),
        lcg_iter(s, 2 * (k + 1) * len) == lcg_iter(lcg_iter(lcg_iter(s, 2 * k * len), len), len),
{
    assert((2 * k + 1) * len == 2 * k * len + len) by (nonlinear_arith);
    assert(2 * (k + 1) * len == 2 * k * len + len + len) by (nonlinear_arith);
    lemma_lcg_iter_add(s, 2 * k * len, len);
    lemma_lcg_iter_add(s, 2 * k * len + len, len);
    assert(permutation_pair_seq(s, k + 1, len) =~= permutation_pair_seq(s, k, len).push(
        (
            strategy_seq(lcg_iter(s, 2 * k * len), len),
            strategy_seq(lcg_iter(lcg_iter(s, 2 * k * len), len), len),
        ),
    ));
}

/// The strategy pairs of a permutation test on `target`: starting one past
/// `seed`, each of the `permutations` rounds draws two target-length strategies.
pub fn permutation_draws(target: &Domain, permutations: usize, seed: u64) -> (p: Vec<(Strategy, Strategy)>)
    ensures
        p@.len() == permutations,
        pair_views(p@) == permutation_pair_seq(
            permutation_start(seed),
            permutations as nat,
            target.strategy_length as nat,
        ),
{
    let mut rng: u64 = seed.wrapping_add(1);
    let ghost start: u64 = rng;
    let ghost len: nat = target.strategy_length as nat;
    let mut pairs: Vec<(Strategy, Strategy)> = Vec::with_capacity(permutations);
    let mut k: usize = 0;
    assert(2 * 0nat * len == 0) by (nonlinear_arith);
    assert(pair_views(pairs@) =~= permutation_pair_seq(start, 0, len));
    while k < permutations
        invariant
            k <= permutations,
            pairs@.len() == k,
            start == permutation_start(seed),
            len == target.strategy_length,
            rng == lcg_iter(start, 2 * k as nat * len),
            pair_views(pairs@) == permutation_pair_seq(start, k as nat, len),
        decreases permutations - k,
    {
        proof {
            lemma_permutation_step(start, k as nat, len);
        }
        let s1 = random_strategy(target.strategy_length, &mut rng);
        let s2 = random_strategy(target.strategy_length, &mut rng);
        let ghost prev = pairs@;
        pairs.push((s1, s2));
        k = k + 1;
        proof {
            assert(pair_views(pairs@) =~= pair_views(prev).push((s1@, s2@)));
        }
    }
    pairs
}

} // verus!
