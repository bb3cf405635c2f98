//! The linear congruential generator and the strategies it draws.

use vstd::prelude::*;
use vstd::arithmetic::div_mod::{lemma_add_mod_noop, lemma_small_mod, lemma_mod_bound};

verus! {

/// A ternary strategy: a sequence of choices from {-1, 0, +1}.
pub type Strategy = Vec<i8>;

/// Multiplier of the generator.
pub const LCG_MULTIPLIER: u64 = 6364136223846793005;

/// Increment of the generator.
pub const LCG_INCREMENT: u64 = 1442695040888963407;

/// 2^64, the modulus of the generator.
pub open spec fn lcg_modulus() -> int {
    0x1_0000_0000_0000_0000
}

/// One step of the generator: `s * a + c` modulo 2^64.
pub open spec fn lcg_next(s: u64) -> u64 {
    ((s as int * LCG_MULTIPLIER as int + LCG_INCREMENT as int) % lcg_modulus()) as u64
}

/// The state after `n` steps from `s`.
pub open spec fn lcg_iter(s: u64, n: nat) -> u64
    decreases n,
{
    if n == 0 {
        s
    } else {
        lcg_next(lcg_iter(s, (n - 1) as nat))
    }
}

/// The choice read from a generator state: bits 33 and up, modulo 3, shifted to {-1, 0, 1}.
pub open spec fn ternary_of(s: u64) -> i8 {
    ((s as int / 0x2_0000_0000) % 3 - 1) as i8
}

/// The strategy of length `len` drawn from state `s`: choice `k` is read
/// from the state after `k + 1` steps.
pub open spec fn strategy_seq(s: u64, len: nat) -> Seq<i8> {
    Seq::new(len, |k: int| ternary_of(lcg_iter(s, (k + 1) as nat)))
}

/// Every choice is -1, 0 or 1.
pub open spec fn is_ternary(s: Seq<i8>) -> bool {
    forall|k: int| 0 <= k < s.len() ==> -1 <= #[trigger] s[k] <= 1
}

/// One step of the generator, with wrapping arithmetic.
fn lcg_step(s: u64) -> (r: u64)
    ensures
        r == lcg_next(s),
{
    let r = s.wrapping_mul(LCG_MULTIPLIER).wrapping_add(LCG_INCREMENT);
    proof {
        let p = s as int * LCG_MULTIPLIER as int;
        let m = lcg_modulus();
        lemma_mod_bound(p, m);
        lemma_small_mod(LCG_INCREMENT as nat, m as nat);
        lemma_add_mod_noop(p, LCG_INCREMENT as int, m);
        let w = p % m;
        lemma_mod_bound(w + LCG_INCREMENT as int, m);
        if w + LCG_INCREMENT as int >= m {
            lemma_small_mod((w + LCG_INCREMENT as int - m) as nat, m as nat);
            assert((w + LCG_INCREMENT as int) % m == w + LCG_INCREMENT as int - m) by {
                vstd::arithmetic::div_mod::lemma_mod_sub_multiples_vanish(
                    w + LCG_INCREMENT as int,
                    m,
                );
            }
        } else {
            lemma_small_mod((w + LCG_INCREMENT as int) as nat, m as nat);
        }
    }
    r
}

/// Generate a random strategy of the given length, advancing `seed` once per choice.
///
/// The result is exactly `strategy_seq` of the incoming seed, and the seed is
/// left `len` steps further on.
pub fn random_strategy(len: usize, seed: &mut u64) -> (s: Strategy)
    ensures
        s@ == strategy_seq(*old(seed), len as nat),
        *final(seed) == lcg_iter(*old(seed), len as nat),
        is_ternary(s@),
{
    let ghost start: u64 = *seed;
    let mut s: Vec<i8> = Vec::with_capacity(len);
    let mut i: usize = 0;
    while i < len
        invariant
            i <= len,
            *seed == lcg_iter(start, i as nat),
            s@ == strategy_seq(start, i as nat),
            start == *old(seed),
        decreases len - i,
    {
        *seed = lcg_step(*seed);
        let x: u64 = *seed;
        let val: u64 = (x >> 33u64) % 3;
        assert(x >> 33u64 == x / 0x2_0000_0000) by (bit_vector);
        s.push((val as i8) - 1);
        i = i + 1;
        assert(s@ =~= strategy_seq(start, i as nat));
    }
    proof {
        lemma_strategy_is_ternary(start, len as nat);
    }
    s
}

/// The generator and the strategies it draws, spelled out: the state after
/// `n + 1` steps is one step past the state after `n` steps, no steps leave the
/// state alone, and choice `k` of a strategy drawn from `s` is bits 33 and up of
/// the state after `k + 1` steps, modulo 3, minus 1.
pub proof fn lemma_strategy_choice(s: u64, len: nat, k: int)
    requires
        0 <= k < len,
    ensures
        lcg_iter(s, 0) == s,
        lcg_iter(s, (k + 1) as nat) == lcg_next(lcg_iter(s, k as nat)),
        strategy_seq(s, len).len() == len,
        strategy_seq(s, len)[k] as int == (lcg_iter(s, (k + 1) as nat) as int / 8589934592) % 3 - 1,
{
    let x = lcg_iter(s, (k + 1) as nat);
    lemma_mod_bound(x as int / 0x2_0000_0000, 3);
}

/// Every choice of every drawn strategy is -1, 0 or 1.
pub proof fn lemma_strategy_is_ternary(s: u64, len: nat)
    ensures
        is_ternary(strategy_seq(s, len)),
{
    assert forall|k: int| 0 <= k < len implies -1 <= #[trigger] strategy_seq(s, len)[k] <= 1 by {
        let x = lcg_iter(s, (k + 1) as nat);
        lemma_mod_bound(x as int / 0x2_0000_0000, 3);
    }
}

/// One step of the generator is `s * 6364136223846793005 + 1442695040888963407`
/// modulo 2^64, for every state `s`. The multiplier and the increment are both
/// odd, so every step flips the lowest bit of the state: no state is ever left
/// unchanged.
pub proof fn lemma_lcg_step_formula(s: u64)
    ensures
        lcg_iter(s, 1) == lcg_next(s),
        lcg_next(s) as int == (s as int * 6364136223846793005 + 1442695040888963407)
            % 18446744073709551616,
        lcg_next(s) % 2 != s % 2,
        lcg_next(s) != s,
{
    let v: int = s as int * 6364136223846793005 + 1442695040888963407;
    assert(lcg_iter(s, 1) == lcg_next(lcg_iter(s, 0)));
    let w: int = s as int * 3182068111923396502 + 721347520444481703;
    assert(v == 2 * w + (s as int + 1));
    vstd::arithmetic::div_mod::lemma_mod_multiples_vanish(w, s as int + 1, 2);
    vstd::arithmetic::div_mod::lemma_mod_mod(v, 2, 9223372036854775808);
    assert(2 * 9223372036854775808int == 18446744073709551616int);
    vstd::arithmetic::div_mod::lemma_mod_multiples_vanish(s as int / 2, 1, 2);
    vstd::arithmetic::div_mod::lemma_fundamental_div_mod(s as int, 2);
    lemma_mod_bound(s as int, 2);
}

/// Stepping `a` times and then `b` times is stepping `a + b` times.
pub proof fn lemma_lcg_iter_add(s: u64, a: nat, b: nat)
    ensures
        lcg_iter(s, a + b) == lcg_iter(lcg_iter(s, a), b),
    decreases b,
{
    if b > 0 {
        lemma_lcg_iter_add(s, a, (b - 1) as nat);
        assert(lcg_iter(s, a + b) == lcg_next(lcg_iter(s, (a + b - 1) as nat)));
    }
}

/// Drawing a strategy of length `a` and then one of length `b` from the
/// advanced seed gives the same choices, in order, as drawing one strategy of
/// length `a + b`.
pub proof fn lemma_strategy_split(s: u64, a: nat, b: nat)
    ensures
        strategy_seq(s, a + b) == strategy_seq(s, a) + strategy_seq(lcg_iter(s, a), b),
        lcg_iter(s, a + b) == lcg_iter(lcg_iter(s, a), b),
{
    lemma_lcg_iter_add(s, a, b);
    assert forall|k: int| a <= k < a + b implies #[trigger] strategy_seq(s, a + b)[k]
        == strategy_seq(lcg_iter(s, a), b)[k - a] by {
        lemma_lcg_iter_add(s, a, (k - a + 1) as nat);
    }
    assert(strategy_seq(s, a + b) =~= strategy_seq(s, a) + strategy_seq(lcg_iter(s, a), b));
}

} // verus!
