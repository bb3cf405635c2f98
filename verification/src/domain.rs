//! A domain's shape, and the candidate strategies that training draws for it.

use vstd::prelude::*;
use crate::rng::{
    random_strategy, strategy_seq, lcg_iter, lemma_lcg_iter_add, lemma_strategy_split, Strategy,
};

verus! {

/// What a reward landscape fixes about the strategies it scores: its name and
/// the length of every strategy it accepts.
pub struct Domain {
    pub name: String,
    pub strategy_length: usize,
}

/// The views of a list of strategies.
pub open spec fn strategy_views(c: Seq<Strategy>) -> Seq<Seq<i8>> {
    c.map_values(|v: Strategy| v@)
}

/// The `count` candidates of length `len` drawn one after another from state
/// `s`: candidate `k` starts `k * len` steps in.
pub open spec fn candidate_seq(s: u64, count: nat, len: nat) -> Seq<Seq<i8>> {
    Seq::new(count, |k: int| strategy_seq(lcg_iter(s, (k * len) as nat), len))
}

impl Domain {
    /// A domain with the given name and strategy length.
    pub fn new(name: &str, strategy_length: usize) -> (d: Domain)
        ensures
            d.name@ == name@,
            d.strategy_length == strategy_length,
    {
        Domain { name: name.to_owned(), strategy_length }
    }

    /// The candidates that training with the given budget examines: `budget`
    /// random strategies of this domain's length, drawn in turn from `seed`,
    /// which is left `budget * strategy_length` steps further on.
    pub fn draw_candidates(&self, budget: usize, seed: &mut u64) -> (c: Vec<Strategy>)
        ensures
            c@.len() == budget,
            strategy_views(c@) == candidate_seq(*old(seed), budget as nat, self.strategy_length as nat),
            *final(seed) == lcg_iter(*old(seed), budget as nat * self.strategy_length as nat),
    {
        let ghost start: u64 = *seed;
        let ghost len: nat = self.strategy_length as nat;
        let mut c: Vec<Strategy> = Vec::new();
        let mut i: usize = 0;
        while i < budget
            invariant
                i <= budget,
                c@.len() == i,
                start == *old(seed),
                len == self.strategy_length,
                *seed == lcg_iter(start, i as nat * len),
                strategy_views(c@) == candidate_seq(start, i as nat, len),
            decreases budget - i,
        {
            let s = random_strategy(self.strategy_length, seed);
            proof {
                lemma_candidate_seq_step(start, i as nat, len);
            }
            let ghost prev = c@;
            c.push(s);
            i = i + 1;
            proof {
                assert(strategy_views(c@) =~= strategy_views(prev).push(s@));
            }
        }
        c
    }
}

/// Drawing one more candidate extends the candidates by the strategy that
/// starts `i * len` steps in, and leaves the state `(i + 1) * len` steps in.
proof fn lemma_candidate_seq_step(s: u64, i: nat, len: nat)
    ensures
        candidate_seq(s, i + 1, len) == candidate_seq(s, i, len).push(
            strategy_seq(lcg_iter(s, i * len), len),
        ),
        lcg_iter(s, (i + 1) * len) == lcg_iter(lcg_iter(s, i * len), len),
{
    assert((i + 1) * len == i * len + len) by (nonlinear_arith);
    lemma_lcg_iter_add(s, i * len, len);
    assert(candidate_seq(s, i + 1, len) =~= candidate_seq(s, i, len).push(
        strategy_seq(lcg_iter(s, i * len), len),
    ));
}

/// The candidates, concatenated in the order they are drawn, are exactly the
/// strategy of length `count * len` drawn from the same state: no choice is
/// skipped and none is drawn twice.
pub proof fn lemma_candidates_flatten(s: u64, count: nat, len: nat)
    ensures
        candidate_seq(s, count, len).flatten() == strategy_seq(s, count * len),
        candidate_seq(s, count, len).flatten().len() == count * len,
    decreases count,
{
    let c = candidate_seq(s, count, len);
    c.lemma_flatten_and_flatten_alt_are_equivalent();
    if count == 0 {
        assert(count * len == 0) by (nonlinear_arith)
            requires
                count == 0,
        ;
        assert(strategy_seq(s, 0) =~= Seq::<i8>::empty());
    } else {
        let p = (count - 1) as nat;
        lemma_candidates_flatten(s, p, len);
        candidate_seq(s, p, len).lemma_flatten_and_flatten_alt_are_equivalent();
        assert(c.drop_last() =~= candidate_seq(s, p, len));
        assert(count * len == p * len + len) by (nonlinear_arith)
            requires
                p + 1 == count,
        ;
        assert(p * len >= 0) by (nonlinear_arith);
        lemma_strategy_split(s, p * len, len);
        assert(c.last() == strategy_seq(lcg_iter(s, p * len), len));
    }
}

/// The candidates, laid end to end, are one long strategy: choice `j` of
/// candidate `k` is choice `k * len + j` of the strategy of length
/// `count * len` drawn from the same state.
pub proof fn lemma_candidates_are_one_stream(s: u64, count: nat, len: nat, k: int, j: int)
    requires
        0 <= k < count,
        0 <= j < len,
    ensures
        candidate_seq(s, count, len)[k][j] == strategy_seq(s, count * len)[k * len + j],
        k * len + j < count * len,
{
    assert(k * len + j < count * len) by (nonlinear_arith)
        requires
            0 <= k < count,
            0 <= j < len,
    ;
    assert(k * len >= 0) by (nonlinear_arith)
        requires
            0 <= k,
    ;
    lemma_lcg_iter_add(s, (k * len) as nat, (j + 1) as nat);
}

} // verus!
