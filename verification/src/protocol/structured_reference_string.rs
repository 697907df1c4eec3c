use crate::error::PlonkError;
use crate::math::ecc::{
    ec_add, ec_double_extension, ec_mul, infinity, CurvePoint, ExtensionCurvePoint, ECC,
};
use crate::math::polynomial::Polynomial;
use crate::math::field::{fpow, Field};
use vstd::prelude::*;

verus! {

/// The structured reference string: the generators of the curve and of its
/// twist, the multiples of them that commitments and the pairing need, and
/// the scalar `s` they are powers of, which a toy setup keeps in the open.
#[derive(Clone)]
pub struct SRS {
    pub g_1: CurvePoint,
    pub g_2: ExtensionCurvePoint,
    pub g_1_points: Vec<CurvePoint>,
    pub g_2_points: Vec<ExtensionCurvePoint>,
    pub degree: u32,
    pub s: u32,
    pub scalar_field: Field,
    pub ecc: ECC,
}

/// The points `s^0 * g, s^1 * g, ..`, `k` of them: the powers of `s` are
/// taken modulo `n`, the multiples on the curve modulo `e`.
pub open spec fn g1_powers(e: u32, n: u32, s: u32, g: CurvePoint, k: nat) -> Result<
    Seq<CurvePoint>,
    PlonkError,
>
    decreases k,
{
    if k == 0 {
        Ok(Seq::empty())
    } else {
        match g1_powers(e, n, s, g, (k - 1) as nat) {
            Err(err) => Err(err),
            Ok(prev) => match ec_mul(e, fpow(n, s, (k - 1) as nat) as nat, g) {
                Err(err) => Err(err),
                Ok(p) => Ok(prev.push(p)),
            },
        }
    }
}

/// The commitment to the first `k` coefficients on the points: the sum of
/// `coefficients_i * points_i`, added up from the point at infinity in the
/// order of the coefficients. Fails where a multiple or a sum cannot be formed.
pub open spec fn commitment(e: u32, coefficients: Seq<u32>, points: Seq<CurvePoint>, k: nat) -> Result<
    CurvePoint,
    PlonkError,
>
    decreases k,
{
    if k == 0 {
        Ok(infinity())
    } else {
        match commitment(e, coefficients, points, (k - 1) as nat) {
            Err(err) => Err(err),
            Ok(sum) => match ec_mul(e, coefficients[k - 1] as nat, points[k - 1]) {
                Err(err) => Err(err),
                Ok(term) => ec_add(e, sum, term),
            },
        }
    }
}

/// The commitment to a polynomial on the points.
pub open spec fn commit(e: u32, coefficients: Seq<u32>, points: Seq<CurvePoint>) -> Result<
    CurvePoint,
    PlonkError,
> {
    commitment(e, coefficients, points, coefficients.len())
}

/// A failure on the way to a commitment is the failure of the commitment.
pub proof fn lemma_commitment_error_persists(
    e: u32,
    coefficients: Seq<u32>,
    points: Seq<CurvePoint>,
    k: nat,
    longer: nat,
)
    requires
        k <= longer,
        commitment(e, coefficients, points, k) is Err,
    ensures
        commitment(e, coefficients, points, longer) == commitment(e, coefficients, points, k),
    decreases longer,
{
    if k < longer {
        lemma_commitment_error_persists(e, coefficients, points, k, (longer - 1) as nat);
    }
}

/// Commits to a polynomial on the points of a reference string, in the group
/// of `ecc`.
pub fn commit_on(ecc: &ECC, points: &Vec<CurvePoint>, poly: &Polynomial) -> (res: Result<
    CurvePoint,
    PlonkError,
>)
    requires
        ecc.field.order > 0,
        poly@.len() <= points@.len(),
    ensures
        res == commit(ecc.field.order, poly@, points@),
        res is Err ==> res == Err::<CurvePoint, _>(PlonkError::NoInverse),
{
    let ghost e = ecc.field.order;
    let mut res = CurvePoint::point_at_infinity();
    let mut i: usize = 0;
    while i < poly.coefficients.len()
        invariant
            e == ecc.field.order,
            e > 0,
            poly@.len() <= points@.len(),
            i <= poly@.len(),
            commitment(e, poly@, points@, i as nat) == Ok::<_, PlonkError>(res),
        decreases poly@.len() - i,
    {
        let term = match ecc.multiply(poly.coefficients[i], &points[i]) {
            Ok(t) => t,
            Err(err) => {
                proof {
                    lemma_commitment_error_persists(e, poly@, points@, (i + 1) as nat, poly@.len());
                }
                return Err(err);
            },
        };
        res = match ecc.add(&res, &term) {
            Ok(sum) => sum,
            Err(err) => {
                proof {
                    lemma_commitment_error_persists(e, poly@, points@, (i + 1) as nat, poly@.len());
                }
                return Err(err);
            },
        };
        i = i + 1;
    }
    Ok(res)
}

/// A failure among the points is the failure of all longer runs.
pub proof fn lemma_g1_error_persists(e: u32, n: u32, s: u32, g: CurvePoint, k: nat, longer: nat)
    requires
        k <= longer,
        g1_powers(e, n, s, g, k) is Err,
    ensures
        g1_powers(e, n, s, g, longer) == g1_powers(e, n, s, g, k),
    decreases longer,
{
    if k < longer {
        lemma_g1_error_persists(e, n, s, g, k, (longer - 1) as nat);
    }
}

impl SRS {
    /// Everything but the two lists of points is the same in both.
    pub open spec fn same_setup(&self, other: &SRS) -> bool {
        &&& self.g_1 == other.g_1
        &&& self.g_2 == other.g_2
        &&& self.degree == other.degree
        &&& self.s == other.s
        &&& self.scalar_field == other.scalar_field
        &&& self.ecc == other.ecc
    }

    /// What `generate_g_1_points` computes.
    pub open spec fn g_1_powers(&self) -> Result<Seq<CurvePoint>, PlonkError> {
        g1_powers(
            self.ecc.field.order,
            self.scalar_field.order,
            self.s,
            self.g_1,
            (self.degree + 3) as nat,
        )
    }

    /// Replaces the points of the curve by `s^i * g_1` for `i` up to
    /// `degree + 2`. Nothing is changed where a multiple cannot be formed.
    pub fn generate_g_1_points(&mut self) -> (res: Result<(), PlonkError>)
        requires
            old(self).scalar_field.order > 0,
            old(self).ecc.field.order > 0,
            old(self).degree <= u32::MAX - 3,
        ensures
            final(self).same_setup(old(self)),
            final(self).g_2_points == old(self).g_2_points,
            match res {
                Ok(()) => old(self).g_1_powers() == Ok::<_, PlonkError>(final(self).g_1_points@),
                Err(e) => old(self).g_1_powers() == Err::<Seq<CurvePoint>, _>(e) && *final(self) == *old(
                    self,
                ),
            },
    {
        let ghost e = self.ecc.field.order;
        let ghost n = self.scalar_field.order;
        let mut g_1_points: Vec<CurvePoint> = Vec::new();
        let count: u32 = self.degree + 3;
        let mut i: u32 = 0;
        while i < count
            invariant
                e == self.ecc.field.order,
                n == self.scalar_field.order,
                e > 0,
                n > 0,
                *self == *old(self),
                count == self.degree + 3,
                i <= count,
                g1_powers(e, n, self.s, self.g_1, i as nat) == Ok::<_, PlonkError>(g_1_points@),
            decreases count - i,
        {
            let point = match self.ecc.multiply(self.scalar_field.exponent(self.s, i), &self.g_1) {
                Ok(p) => p,
                Err(err) => {
                    proof {
                        lemma_g1_error_persists(e, n, self.s, self.g_1, (i + 1) as nat, count as nat);
                    }
                    return Err(err);
                },
            };
            g_1_points.push(point);
            i = i + 1;
        }
        self.g_1_points = g_1_points;
        Ok(())
    }

    /// Appends the generator of the twist and its double to the points of the
    /// twist. Nothing is changed where the double cannot be formed.
    pub fn generate_g_2_points(&mut self) -> (res: Result<(), PlonkError>)
        requires
            old(self).ecc.field.order > 0,
        ensures
            final(self).same_setup(old(self)),
            final(self).g_1_points == old(self).g_1_points,
            match res {
                Ok(()) => {
                    &&& ec_double_extension(old(self).ecc.field.order, old(self).g_2) is Ok
                    &&& final(self).g_2_points@ == old(self).g_2_points@.push(old(self).g_2).push(
                        ec_double_extension(old(self).ecc.field.order, old(self).g_2).unwrap(),
                    )
                },
                Err(e) => ec_double_extension(old(self).ecc.field.order, old(self).g_2) == Err::<
                    ExtensionCurvePoint,
                    _,
                >(e) && *final(self) == *old(self),
            },
    {
        let doubled = self.ecc.double_extension(&self.g_2)?;
        self.g_2_points.push(self.g_2);
        self.g_2_points.push(doubled);
        Ok(())
    }

    /// A copy of the reference string.
    pub fn copy(&self) -> (r: SRS)
        ensures
            r.same_setup(self),
            r.g_1_points@ == self.g_1_points@,
            r.g_2_points@ == self.g_2_points@,
    {
        let g_1_points = self.g_1_points.clone();
        let g_2_points = self.g_2_points.clone();
        proof {
            assert(g_1_points@ =~= self.g_1_points@);
            assert(g_2_points@ =~= self.g_2_points@);
        }
        SRS {
            g_1: self.g_1,
            g_2: self.g_2,
            g_1_points,
            g_2_points,
            degree: self.degree,
            s: self.s,
            scalar_field: self.scalar_field,
            ecc: ECC { field: self.ecc.field },
        }
    }
}

} // verus!
