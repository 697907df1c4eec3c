use vstd::prelude::*;

verus! {

/// The public coins of one proof: nine blinding scalars of the prover and six
/// challenges of the verifier, which stand in for the outputs of a transcript
/// hash.
#[derive(Clone, Copy, Debug)]
pub struct PublicCoin {
    pub b1: u32,
    pub b2: u32,
    pub b3: u32,
    pub b4: u32,
    pub b5: u32,
    pub b6: u32,
    pub b7: u32,
    pub b8: u32,
    pub b9: u32,
    pub alpha: u32,
    pub beta: u32,
    pub gamma: u32,
    pub zed: u32,
    pub v: u32,
    pub u: u32,
}

impl PublicCoin {
    /// The coins before any were taken: all zero.
    pub open spec fn default_coin() -> PublicCoin {
        PublicCoin {
            b1: 0,
            b2: 0,
            b3: 0,
            b4: 0,
            b5: 0,
            b6: 0,
            b7: 0,
            b8: 0,
            b9: 0,
            alpha: 0,
            beta: 0,
            gamma: 0,
            zed: 0,
            v: 0,
            u: 0,
        }
    }
}

impl Default for PublicCoin {
    fn default() -> (r: PublicCoin)
        ensures
            r == PublicCoin::default_coin(),
    {
        PublicCoin {
            b1: 0,
            b2: 0,
            b3: 0,
            b4: 0,
            b5: 0,
            b6: 0,
            b7: 0,
            b8: 0,
            b9: 0,
            alpha: 0,
            beta: 0,
            gamma: 0,
            zed: 0,
            v: 0,
            u: 0,
        }
    }
}

} // verus!
