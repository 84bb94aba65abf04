//! Core decision engine for coverage-guided fuzzing: a bit-packed coverage
//! map read from a shared buffer, a corpus of test cases with stable ids and
//! lineage, and two scheduling policies (round-robin and score-weighted
//! sampling) that pick the next corpus entry to mutate.

pub mod corpus;
pub mod coverage;
pub mod engine;
pub mod errors;
pub mod queue;
pub mod rng;
pub mod score;
pub mod weighted;
