//! Stochastic Series Expansion (SSE) quantum Monte Carlo for the spin-1/2
//! antiferromagnetic Heisenberg model on a periodic chain or square lattice.
//!
//! The engine samples the operator-string representation of the truncated
//! partition-function expansion: a diagonal update inserts and removes
//! diagonal bond operators, a vertex linker rebuilds the leg-pairing
//! structure every sweep, and a loop update flips whole closed cycles of
//! legs at once.  Acceptance probabilities are evaluated exactly in 32-bit
//! fixed-point arithmetic, so the verified core is free of floating point;
//! measurement normalisation is left to the caller, which only needs the
//! operator count and the spin configuration after each sweep.
#![verifier::loop_isolation(false)]

pub mod lattice;
pub mod types;
pub mod rng;
pub mod model;
pub mod updates;
pub mod laws;
