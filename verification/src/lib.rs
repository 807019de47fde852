//! Simulated tabletop ability-score generation: a stream of six-sided die
//! results is grouped into windows of four, each window is scored by the
//! drop-lowest rule, a named strategy selects six scores into one outcome
//! per trial, and a running accumulator averages outcomes over many trials.

pub mod accumulator;
pub mod dice;
pub mod outcome;
pub mod score;
pub mod sorting;
pub mod strategy;
