//! Stochastic decision machinery for a ruin-and-recreate vehicle routing
//! search: a seedable randomization engine, acceptance policies, bounded
//! ruin of routes and jobs, and solution populations that retain and select
//! candidates between generations.

pub mod acceptance;
pub mod dominance;
pub mod heuristic;
pub mod population;
pub mod random;
pub mod rosomaxa;
pub mod ruin;
pub mod solution;
