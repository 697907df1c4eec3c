use crate::error::PlonkError;
use crate::math::complex_scalar::{cmul, cpow, ComplexScalar};
use crate::math::ecc::{
    ec_line, ec_mul, ec_neg, ec_plug, lemma_ec_errors, CurvePoint, ExtensionCurvePoint, ECC,
};
use vstd::prelude::*;

verus! {

/// The pairing of the twisted curve with the curve, for a group of order `r`.
pub struct Pairing {
    pub r: u32,
    pub ecc: ECC,
}

/// The line through `a` and the opposite of `b`, evaluated at `q`.
pub open spec fn miller_line(n: u32, q: ExtensionCurvePoint, a: CurvePoint, b: CurvePoint) -> ComplexScalar {
    let (x_factor, y_factor, constant) = ec_line(n, a, ec_neg(n, b));
    ec_plug(n, q, x_factor, y_factor, constant)
}

/// One doubling step of the accumulation: the square of the value so far
/// times the line through `a` and the opposite of its double `b`.
pub open spec fn miller_double(
    n: u32,
    q: ExtensionCurvePoint,
    f: ComplexScalar,
    a: CurvePoint,
    b: CurvePoint,
) -> ComplexScalar {
    cmul(n, cmul(n, f, f), miller_line(n, q, a, b))
}

/// The accumulated line values for the degree 17: four doublings from `p` up
/// to `16 p`, and one step from `16 p` back to `p`.
pub open spec fn f_17(n: u32, q: ExtensionCurvePoint, p: CurvePoint) -> Result<
    ComplexScalar,
    PlonkError,
> {
    match (ec_mul(n, 2, p), ec_mul(n, 4, p), ec_mul(n, 8, p), ec_mul(n, 16, p)) {
        (Ok(p2), Ok(p4), Ok(p8), Ok(p16)) => {
            let acc2 = miller_line(n, q, p, p2);
            let acc4 = miller_double(n, q, acc2, p2, p4);
            let acc8 = miller_double(n, q, acc4, p4, p8);
            let acc16 = miller_double(n, q, acc8, p8, p16);
            Ok(cmul(n, acc16, miller_line(n, q, p16, p)))
        },
        _ => Err(PlonkError::NoInverse),
    }
}

/// The pairing of `q` and `p`: the accumulated line values, raised to
/// `(n^2 - 1) / r`.
pub open spec fn base_pairing(n: u32, r: u32, q: ExtensionCurvePoint, p: CurvePoint) -> Result<
    ComplexScalar,
    PlonkError,
> {
    match f_17(n, q, p) {
        Err(e) => Err(e),
        Ok(f) => Ok(cpow(n, f, ((n * n - 1) / (r as int)) as nat)),
    }
}

impl Pairing {
    /// The pairing of a point of the twisted curve with a point of the curve.
    pub fn get_base_pairing(&self, q: &ExtensionCurvePoint, p: &CurvePoint) -> (res: Result<
        ComplexScalar,
        PlonkError,
    >)
        requires
            self.r > 0,
            self.ecc.field.order > 0,
            self.ecc.field.order * self.ecc.field.order <= u32::MAX,
        ensures
            res == base_pairing(self.ecc.field.order, self.r, *q, *p),
            res is Err ==> res == Err::<ComplexScalar, _>(PlonkError::NoInverse),
    {
        let f17 = self.get_f_17(q, p)?;
        let order = self.ecc.field.order;
        assert(order * order >= 1) by (nonlinear_arith)
            requires
                order >= 1,
        ;
        let exponent = (order * order - 1) / self.r;
        Ok(ComplexScalar::exponent(&self.ecc.field, &f17, exponent))
    }

    /// The accumulated line values, before the final exponentiation.
    pub fn get_f_17(&self, q: &ExtensionCurvePoint, p: &CurvePoint) -> (res: Result<
        ComplexScalar,
        PlonkError,
    >)
        requires
            self.ecc.field.order > 0,
        ensures
            res == f_17(self.ecc.field.order, *q, *p),
    {
        let field = &self.ecc.field;
        proof {
            lemma_ec_errors(field.order, *p, *p, 2);
            lemma_ec_errors(field.order, *p, *p, 4);
            lemma_ec_errors(field.order, *p, *p, 8);
            lemma_ec_errors(field.order, *p, *p, 16);
        }
        let p2 = self.ecc.multiply(2, p)?;
        let p4 = self.ecc.multiply(4, p)?;
        let p8 = self.ecc.multiply(8, p)?;
        let p16 = self.ecc.multiply(16, p)?;

        let acc2 = self.line_value(q, p, &p2);
        let acc4 = ComplexScalar::multiply(
            field,
            &ComplexScalar::multiply(field, &acc2, &acc2),
            &self.line_value(q, &p2, &p4),
        );
        let acc8 = ComplexScalar::multiply(
            field,
            &ComplexScalar::multiply(field, &acc4, &acc4),
            &self.line_value(q, &p4, &p8),
        );
        let acc16 = ComplexScalar::multiply(
            field,
            &ComplexScalar::multiply(field, &acc8, &acc8),
            &self.line_value(q, &p8, &p16),
        );
        Ok(ComplexScalar::multiply(field, &acc16, &self.line_value(q, &p16, p)))
    }

    /// The line through `a` and the opposite of `b`, evaluated at `q`.
    fn line_value(&self, q: &ExtensionCurvePoint, a: &CurvePoint, b: &CurvePoint) -> (res: ComplexScalar)
        requires
            self.ecc.field.order > 0,
        ensures
            res == miller_line(self.ecc.field.order, *q, *a, *b),
    {
        let minus = self.ecc.inversion(b);
        let (x_factor, y_factor, constant) = self.ecc.get_line_between_points(a, &minus);
        self.ecc.plug_extension_point_in_equation(q, x_factor, y_factor, constant)
    }
}

} // verus!
