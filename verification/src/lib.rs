//! Ternary strategies and the bookkeeping of cross-domain transfer experiments.
//!
//! A strategy is a sequence of choices from {-1, 0, +1}. Strategies are drawn
//! from a 64-bit linear congruential generator whose state is threaded through
//! every draw, so a whole experiment is determined by its seed.

pub mod classify;
pub mod domain;
pub mod experiment;
pub mod rng;
pub mod schedule;

pub use classify::{transferred_rank, ClassCounts, TransferClass};
pub use domain::Domain;
pub use experiment::{permutation_draws, ExperimentDraws, TransferExperiment};
pub use rng::{random_strategy, Strategy};
pub use schedule::{cross_domain_schedule, matrix_schedule, ScheduledPair};
