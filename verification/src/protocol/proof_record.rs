use crate::math::ecc::CurvePoint;
use crate::math::polynomial::Polynomial;
use vstd::prelude::*;

verus! {

/// A proof: nine commitments to polynomials of the prover and seven of their
/// values at the challenge point.
#[derive(Clone, Copy, Debug)]
pub struct Proof {
    pub a: CurvePoint,
    pub b: CurvePoint,
    pub c: CurvePoint,
    pub z: CurvePoint,
    pub t_lo: CurvePoint,
    pub t_mid: CurvePoint,
    pub t_hi: CurvePoint,
    pub w: CurvePoint,
    pub wz: CurvePoint,
    pub a_bar: u32,
    pub b_bar: u32,
    pub c_bar: u32,
    pub left_copy_bar: u32,
    pub right_copy_bar: u32,
    pub r_bar: u32,
    pub z_bar: u32,
}

/// The polynomials that the prover works out on the way to a proof.
pub struct ProverPolys {
    pub a: Polynomial,
    pub b: Polynomial,
    pub c: Polynomial,
    pub z: Polynomial,
    pub t: Polynomial,
    pub t_lo: Polynomial,
    pub t_mid: Polynomial,
    pub t_hi: Polynomial,
    pub r: Polynomial,
    pub w: Polynomial,
    pub wz: Polynomial,
}

/// The values of the prover's polynomials at the challenge point.
#[derive(Clone, Copy, Debug)]
pub struct OpeningEvals {
    pub a: u32,
    pub b: u32,
    pub c: u32,
    pub left_copy: u32,
    pub right_copy: u32,
    pub t: u32,
    pub z: u32,
    pub r: u32,
}

impl Proof {
    /// The proof before one was provided: every coordinate and every value
    /// zero.
    pub open spec fn blank() -> Proof {
        let origin = CurvePoint { x: 0, y: 0 };
        Proof {
            a: origin,
            b: origin,
            c: origin,
            z: origin,
            t_lo: origin,
            t_mid: origin,
            t_hi: origin,
            w: origin,
            wz: origin,
            a_bar: 0,
            b_bar: 0,
            c_bar: 0,
            left_copy_bar: 0,
            right_copy_bar: 0,
            r_bar: 0,
            z_bar: 0,
        }
    }
}

impl Default for Proof {
    fn default() -> (r: Proof)
        ensures
            r == Proof::blank(),
    {
        Proof {
            a: CurvePoint::default(),
            b: CurvePoint::default(),
            c: CurvePoint::default(),
            z: CurvePoint::default(),
            t_lo: CurvePoint::default(),
            t_mid: CurvePoint::default(),
            t_hi: CurvePoint::default(),
            w: CurvePoint::default(),
            wz: CurvePoint::default(),
            a_bar: 0,
            b_bar: 0,
            c_bar: 0,
            left_copy_bar: 0,
            right_copy_bar: 0,
            r_bar: 0,
            z_bar: 0,
        }
    }
}

impl ProverPolys {
    /// All eleven polynomials are placeholders.
    pub open spec fn unbuilt(&self) -> bool {
        &&& self.a.unbuilt() && self.b.unbuilt() && self.c.unbuilt() && self.z.unbuilt()
        &&& self.t.unbuilt() && self.t_lo.unbuilt() && self.t_mid.unbuilt() && self.t_hi.unbuilt()
        &&& self.r.unbuilt() && self.w.unbuilt() && self.wz.unbuilt()
    }
}

impl OpeningEvals {
    /// The values before any were worked out: all zero.
    pub open spec fn blank() -> OpeningEvals {
        OpeningEvals { a: 0, b: 0, c: 0, left_copy: 0, right_copy: 0, t: 0, z: 0, r: 0 }
    }
}

impl Default for ProverPolys {
    /// Eleven placeholders for polynomials that are not worked out yet.
    fn default() -> (r: ProverPolys)
        ensures
            r.unbuilt(),
    {
        ProverPolys {
            a: Polynomial::default(),
            b: Polynomial::default(),
            c: Polynomial::default(),
            z: Polynomial::default(),
            t: Polynomial::default(),
            t_lo: Polynomial::default(),
            t_mid: Polynomial::default(),
            t_hi: Polynomial::default(),
            r: Polynomial::default(),
            w: Polynomial::default(),
            wz: Polynomial::default(),
        }
    }
}

impl Default for OpeningEvals {
    fn default() -> (r: OpeningEvals)
        ensures
            r == OpeningEvals::blank(),
    {
        OpeningEvals { a: 0, b: 0, c: 0, left_copy: 0, right_copy: 0, t: 0, z: 0, r: 0 }
    }
}

} // verus!
