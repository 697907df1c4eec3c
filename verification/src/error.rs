use vstd::prelude::*;

verus! {

/// The ways in which a computation of this library can fail.
#[derive(Clone, Copy, Debug, PartialEq, Eq, Structural)]
pub enum PlonkError {
    /// A field element that had to be inverted has no multiplicative inverse.
    NoInverse,
    /// An interpolation was asked for a number of points other than four, or
    /// the prover's quotient has fewer than the three coefficients that its
    /// split into three parts needs.
    InvalidDegree,
    /// The quotient polynomial of the prover did not divide exactly.
    CircuitNotSatisfied,
}

} // verus!
