//! A small, step-traceable PLONK-style proof system over toy finite fields.
//!
//! The `math` modules hold the algebra (modular arithmetic, polynomials, the
//! curve and its pairing), the `protocol` modules the circuit, the prover and
//! the verifier, and the `thaler` modules a probabilistic check of matrix
//! products by fingerprints. Every executable function carries a contract
//! that relates it to a mathematical model written as spec functions.

pub mod error;
pub mod math;
pub mod protocol;
pub mod thaler;
