# strategy_transfer

Controlled transfer experiments over ternary strategies (sequences of choices
from {-1, 0, +1}): train a strategy on a source domain, score it on a target
domain, and compare it with training from scratch and with a random baseline.

## Layout

- `src/` — the verified library (Verus).
  - `rng.rs`: the 64-bit linear congruential generator, `random_strategy`, and
    the laws of the stream it draws (every choice is ternary; consecutive
    draws form one stream).
  - `domain.rs`: a domain's name and strategy length, and the candidates that
    training draws for it.
  - `experiment.rs`: the seed threading of a transfer experiment (source,
    scratch and baseline phases) and of a permutation test.
  - `classify.rs`: transfer classes, the classification rule over the gain's
    comparisons with its threshold, tallies of classes, and the baseline rank.
  - `schedule.rs`: which experiments a transfer matrix and a cross-domain
    analysis run, with their seeds.
- `app/` — the fitness-scored side: fitness functions return `f64`, so
  evaluation, selection of the best candidate, gains, rates, the transfer
  matrix and the permutation statistics are ordinary Rust on top of the library.
- `tests/` — tests of the library.
