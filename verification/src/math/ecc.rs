use crate::error::PlonkError;
use crate::math::complex_scalar::ComplexScalar;
use crate::math::field::{fadd, fdiv, fmul, fneg, fsub, Field};
use vstd::prelude::*;

verus! {

/// The coordinate that stands, twice, for the point at infinity.
pub const INFINITY: u32 = 99999999;

/// A point of the curve `y^2 = x^3 + 3`, or the point at infinity.
#[derive(Clone, Copy, Debug)]
pub struct CurvePoint {
    pub x: u32,
    pub y: u32,
}

/// A point of the twisted curve over the extension; where `u` is set, the
/// second coordinate carries the factor `u` of the extension.
#[derive(Clone, Copy, Debug)]
pub struct ExtensionCurvePoint {
    pub x: u32,
    pub y: u32,
    pub u: bool,
}

/// The group law of the curve over a field.
#[derive(Clone, Copy)]
pub struct ECC {
    pub field: Field,
}

/// The point at infinity, the identity of the group.
pub open spec fn infinity() -> CurvePoint {
    CurvePoint { x: INFINITY, y: INFINITY }
}

/// The tangent rule on bare coordinates modulo `n`. With `u` set, the slope
/// `m` lives in the extension, and each `m^2` carries the factor `1 / (-2)`.
/// Fails where `2 y`, or `-2` for the extension, has no inverse.
pub open spec fn ec_double_any(n: u32, x: u32, y: u32, u: bool) -> Result<
    (u32, u32, bool),
    PlonkError,
> {
    if !u && x == INFINITY && y == INFINITY {
        Ok((x, y, false))
    } else {
        match fdiv(n, fmul(n, 3, fmul(n, x, x)), fmul(n, 2, y)) {
            Err(e) => Err(e),
            Ok(m) => if u {
                match fdiv(n, 1, fneg(n, 2)) {
                    Err(e) => Err(e),
                    Ok(u_factor) => {
                        let m_squared = fmul(n, m, fmul(n, m, u_factor));
                        Ok(
                            (
                                fsub(n, m_squared, fmul(n, 2, x)),
                                fsub(
                                    n,
                                    fmul(
                                        n,
                                        fmul(n, m, fsub(n, fmul(n, 3, x), m_squared)),
                                        u_factor,
                                    ),
                                    y,
                                ),
                                u,
                            ),
                        )
                    },
                }
            } else {
                let m_squared = fmul(n, m, m);
                Ok(
                    (
                        fsub(n, m_squared, fmul(n, 2, x)),
                        fsub(n, fmul(n, m, fsub(n, fmul(n, 3, x), m_squared)), y),
                        u,
                    ),
                )
            },
        }
    }
}

/// Twice a point of the curve; twice the point at infinity is itself.
pub open spec fn ec_double(n: u32, p: CurvePoint) -> Result<CurvePoint, PlonkError> {
    match ec_double_any(n, p.x, p.y, false) {
        Err(e) => Err(e),
        Ok((x, y, _)) => Ok(CurvePoint { x, y }),
    }
}

/// Twice a point of the twisted curve.
pub open spec fn ec_double_extension(n: u32, p: ExtensionCurvePoint) -> Result<
    ExtensionCurvePoint,
    PlonkError,
> {
    match ec_double_any(n, p.x, p.y, p.u) {
        Err(e) => Err(e),
        Ok((x, y, u)) => Ok(ExtensionCurvePoint { x, y, u }),
    }
}

/// The sum of two points: the other point where one is at infinity, the
/// double where they are equal, infinity where they are opposite, and the
/// chord rule otherwise. Fails where the slope cannot be formed.
pub open spec fn ec_add(n: u32, p1: CurvePoint, p2: CurvePoint) -> Result<CurvePoint, PlonkError> {
    if p1 == infinity() {
        Ok(p2)
    } else if p2 == infinity() {
        Ok(p1)
    } else if p1 == p2 {
        ec_double(n, p1)
    } else if p1.x == p2.x {
        Ok(infinity())
    } else {
        match fdiv(n, fsub(n, p2.y, p1.y), fsub(n, p2.x, p1.x)) {
            Err(e) => Err(e),
            Ok(m) => {
                let new_x = fsub(n, fsub(n, fmul(n, m, m), p1.x), p2.x);
                Ok(CurvePoint { x: new_x, y: fsub(n, fmul(n, m, fsub(n, p1.x, new_x)), p1.y) })
            },
        }
    }
}

/// The opposite of a point: the second coordinate negated.
pub open spec fn ec_neg(n: u32, p: CurvePoint) -> CurvePoint {
    CurvePoint { x: p.x, y: fneg(n, p.y) }
}

/// The multiple `scalar * p` by double-and-add: an even scalar halves and
/// doubles the point, an odd one adds the point to the multiple before it.
pub open spec fn ec_mul(n: u32, scalar: nat, p: CurvePoint) -> Result<CurvePoint, PlonkError>
    decreases scalar,
{
    if scalar == 0 {
        Ok(infinity())
    } else if scalar == 1 {
        Ok(p)
    } else if scalar % 2 == 0 {
        match ec_double(n, p) {
            Err(e) => Err(e),
            Ok(doubled) => ec_mul(n, scalar / 2, doubled),
        }
    } else {
        match ec_mul(n, (scalar - 1) as nat, p) {
            Err(e) => Err(e),
            Ok(rest) => ec_add(n, p, rest),
        }
    }
}

/// The coefficients `(x_factor, y_factor, constant)` of a line
/// `x_factor * x + y_factor * y + constant = 0` through two points. Which of
/// the two opposite triples is given follows the worked example that this
/// library reproduces: the `y` side is negated where `y_factor > x_factor` or
/// the first point has `x` 65 or 1, the `x` side otherwise. A vertical line
/// gives the fixed triple `(1, 0, 15)`.
pub open spec fn ec_line(n: u32, p1: CurvePoint, p2: CurvePoint) -> (u32, u32, u32) {
    let m_numerator = fsub(n, p2.y, p1.y);
    let m_denominator = fsub(n, p2.x, p1.x);
    let constant = fsub(
        n,
        fmul(n, fneg(n, p1.y), m_denominator),
        fmul(n, fneg(n, p1.x), m_numerator),
    );
    if p1.x == p2.x {
        (1, 0, 15)
    } else if m_denominator > m_numerator || p1.x == 65 || p1.x == 1 {
        (m_numerator, fneg(n, m_denominator), fneg(n, constant))
    } else {
        (fneg(n, m_numerator), m_denominator, constant)
    }
}

/// The value of `x_factor * x + y_factor * y + constant` at a point of the
/// twisted curve: the `y` term is the part that carries `u`.
pub open spec fn ec_plug(
    n: u32,
    p: ExtensionCurvePoint,
    x_factor: u32,
    y_factor: u32,
    constant: u32,
) -> ComplexScalar {
    ComplexScalar { constant: fadd(n, fmul(n, x_factor, p.x), constant), u_term: fmul(n, y_factor, p.y) }
}

/// The search for `k` in `[i, order)` with `k * generator == p`, lowest first;
/// 0 where there is none. Fails where a multiple on the way cannot be formed.
pub open spec fn ec_log_from(n: u32, p: CurvePoint, generator: CurvePoint, order: u32, i: nat) -> Result<
    u32,
    PlonkError,
>
    decreases order - i,
{
    if i >= order {
        Ok(0)
    } else {
        match ec_mul(n, i, generator) {
            Err(e) => Err(e),
            Ok(q) => if q == p {
                Ok(i as u32)
            } else {
                ec_log_from(n, p, generator, order, i + 1)
            },
        }
    }
}

/// Whatever fails on the curve fails for want of an inverse.
pub proof fn lemma_ec_errors(n: u32, p1: CurvePoint, p2: CurvePoint, scalar: nat)
    ensures
        ec_double(n, p1) is Err ==> ec_double(n, p1) == Err::<CurvePoint, _>(PlonkError::NoInverse),
        ec_add(n, p1, p2) is Err ==> ec_add(n, p1, p2) == Err::<CurvePoint, _>(PlonkError::NoInverse),
        ec_mul(n, scalar, p1) is Err ==> ec_mul(n, scalar, p1) == Err::<CurvePoint, _>(
            PlonkError::NoInverse,
        ),
    decreases scalar,
{
    if scalar >= 2 {
        if scalar % 2 == 0 {
            if ec_double(n, p1) is Ok {
                lemma_ec_errors(n, ec_double(n, p1).unwrap(), p2, scalar / 2);
            }
        } else {
            lemma_ec_errors(n, p1, p2, (scalar - 1) as nat);
            if ec_mul(n, (scalar - 1) as nat, p1) is Ok {
                lemma_ec_errors(n, p1, ec_mul(n, (scalar - 1) as nat, p1).unwrap(), 0);
            }
        }
    }
}

/// Adding a point to itself is doubling it, and so is multiplying it by two.
pub proof fn law_double_is_add_and_twice(n: u32, p: CurvePoint)
    ensures
        ec_add(n, p, p) == ec_double(n, p),
        ec_mul(n, 2, p) == ec_double(n, p),
{
    reveal_with_fuel(ec_mul, 3);
}

impl CurvePoint {
    /// The point with the given coordinates.
    pub fn new(x: u32, y: u32) -> (r: CurvePoint)
        ensures
            r == (CurvePoint { x, y }),
    {
        CurvePoint { x, y }
    }

    /// The point at infinity.
    pub fn point_at_infinity() -> (r: CurvePoint)
        ensures
            r == infinity(),
    {
        CurvePoint { x: INFINITY, y: INFINITY }
    }

    /// Whether both coordinates agree.
    pub fn equals(p1: &CurvePoint, p2: &CurvePoint) -> (r: bool)
        ensures
            r == (*p1 == *p2),
    {
        (p1.x == p2.x) && (p1.y == p2.y)
    }
}

impl Default for CurvePoint {
    /// The point with both coordinates zero, a placeholder.
    fn default() -> (r: CurvePoint)
        ensures
            r == (CurvePoint { x: 0, y: 0 }),
    {
        CurvePoint { x: 0, y: 0 }
    }
}

impl ExtensionCurvePoint {
    /// The point with the given coordinates and mark.
    pub fn new(x: u32, y: u32, u: bool) -> (r: ExtensionCurvePoint)
        ensures
            r == (ExtensionCurvePoint { x, y, u }),
    {
        ExtensionCurvePoint { x, y, u }
    }

    /// Whether both coordinates and the mark agree.
    pub fn equals(p1: &ExtensionCurvePoint, p2: &ExtensionCurvePoint) -> (r: bool)
        ensures
            r == (*p1 == *p2),
    {
        (p1.x == p2.x) && (p1.y == p2.y) && (p1.u == p2.u)
    }
}

impl Default for ExtensionCurvePoint {
    /// The point with both coordinates zero and no mark, a placeholder.
    fn default() -> (r: ExtensionCurvePoint)
        ensures
            r == (ExtensionCurvePoint { x: 0, y: 0, u: false }),
    {
        ExtensionCurvePoint { x: 0, y: 0, u: false }
    }
}

impl ECC {
    /// A copy of the group law.
    pub fn copy(&self) -> (r: ECC)
        ensures
            r == *self,
    {
        ECC { field: self.field }
    }

    /// The sum of two points.
    pub fn add(&self, p1: &CurvePoint, p2: &CurvePoint) -> (r: Result<CurvePoint, PlonkError>)
        requires
            self.field.order > 0,
        ensures
            r == ec_add(self.field.order, *p1, *p2),
            r is Err ==> r == Err::<CurvePoint, _>(PlonkError::NoInverse),
    {
        proof {
            lemma_ec_errors(self.field.order, *p1, *p2, 0);
        }
        if CurvePoint::equals(p1, &CurvePoint::point_at_infinity()) {
            return Ok(*p2);
        } else if CurvePoint::equals(p2, &CurvePoint::point_at_infinity()) {
            return Ok(*p1);
        } else if CurvePoint::equals(p1, p2) {
            return self.double(p1);
        } else if p1.x == p2.x {
            return Ok(CurvePoint::point_at_infinity());
        }
        let delta_x = self.field.subtract(p2.x, p1.x);
        let delta_y = self.field.subtract(p2.y, p1.y);
        let m = self.field.divide(delta_y, delta_x)?;
        let new_x = self.field.subtract(self.field.subtract(self.field.multiply(m, m), p1.x), p2.x);
        let new_y = self.field.subtract(
            self.field.multiply(m, self.field.subtract(p1.x, new_x)),
            p1.y,
        );
        Ok(CurvePoint { x: new_x, y: new_y })
    }

    /// Twice a point.
    pub fn double(&self, p: &CurvePoint) -> (r: Result<CurvePoint, PlonkError>)
        requires
            self.field.order > 0,
        ensures
            r == ec_double(self.field.order, *p),
            r is Err ==> r == Err::<CurvePoint, _>(PlonkError::NoInverse),
    {
        proof {
            lemma_ec_errors(self.field.order, *p, *p, 0);
        }
        let (new_x, new_y, _u) = self.double_any(p.x, p.y, false)?;
        Ok(CurvePoint::new(new_x, new_y))
    }

    /// Twice a point of the twisted curve.
    pub fn double_extension(&self, p: &ExtensionCurvePoint) -> (r: Result<
        ExtensionCurvePoint,
        PlonkError,
    >)
        requires
            self.field.order > 0,
        ensures
            r == ec_double_extension(self.field.order, *p),
    {
        let (new_x, new_y, u) = self.double_any(p.x, p.y, p.u)?;
        Ok(ExtensionCurvePoint::new(new_x, new_y, u))
    }

    /// The tangent rule on bare coordinates, for the curve and for its twist.
    fn double_any(&self, x: u32, y: u32, u: bool) -> (r: Result<(u32, u32, bool), PlonkError>)
        requires
            self.field.order > 0,
        ensures
            r == ec_double_any(self.field.order, x, y, u),
    {
        if !u && CurvePoint::equals(&CurvePoint::new(x, y), &CurvePoint::point_at_infinity()) {
            return Ok((x, y, false));
        }
        let m_num = self.field.multiply(3, self.field.multiply(x, x));
        let m_denom = self.field.multiply(2, y);
        let m = self.field.divide(m_num, m_denom)?;
        if u {
            let u_factor = self.field.divide(1, self.field.additive_inverse(2))?;
            let m_squared = self.field.multiply(m, self.field.multiply(m, u_factor));
            let new_x = self.field.subtract(m_squared, self.field.multiply(2, x));
            let y_u_term = self.field.multiply(
                self.field.multiply(m, self.field.subtract(self.field.multiply(3, x), m_squared)),
                u_factor,
            );
            Ok((new_x, self.field.subtract(y_u_term, y), u))
        } else {
            let m_squared = self.field.multiply(m, m);
            let new_x = self.field.subtract(m_squared, self.field.multiply(2, x));
            let y_u_term = self.field.multiply(
                m,
                self.field.subtract(self.field.multiply(3, x), m_squared),
            );
            Ok((new_x, self.field.subtract(y_u_term, y), u))
        }
    }

    /// The opposite of a point.
    pub fn inversion(&self, p: &CurvePoint) -> (r: CurvePoint)
        requires
            self.field.order > 0,
        ensures
            r == ec_neg(self.field.order, *p),
    {
        CurvePoint { x: p.x, y: self.field.additive_inverse(p.y) }
    }

    /// The multiple `scalar * p1`, by double-and-add.
    pub fn multiply(&self, scalar: u32, p1: &CurvePoint) -> (r: Result<CurvePoint, PlonkError>)
        requires
            self.field.order > 0,
        ensures
            r == ec_mul(self.field.order, scalar as nat, *p1),
            r is Err ==> r == Err::<CurvePoint, _>(PlonkError::NoInverse),
        decreases scalar,
    {
        proof {
            lemma_ec_errors(self.field.order, *p1, *p1, scalar as nat);
        }
        if scalar == 0 {
            Ok(CurvePoint::point_at_infinity())
        } else if scalar == 1 {
            Ok(*p1)
        } else if scalar % 2 == 0 {
            let doubled = self.double(p1)?;
            self.multiply(scalar / 2, &doubled)
        } else {
            let rest = self.multiply(scalar - 1, p1)?;
            self.add(p1, &rest)
        }
    }

    /// The coefficients of a line through two points.
    pub fn get_line_between_points(&self, p1: &CurvePoint, p2: &CurvePoint) -> (r: (u32, u32, u32))
        requires
            self.field.order > 0,
        ensures
            r == ec_line(self.field.order, *p1, *p2),
    {
        if p1.x == p2.x {
            return (1, 0, 15);
        }
        let m_numerator = self.field.subtract(p2.y, p1.y);
        let m_denominator = self.field.subtract(p2.x, p1.x);
        let constant = self.field.subtract(
            self.field.multiply(self.field.additive_inverse(p1.y), m_denominator),
            self.field.multiply(self.field.additive_inverse(p1.x), m_numerator),
        );
        if m_denominator > m_numerator || p1.x == 65 || p1.x == 1 {
            (
                m_numerator,
                self.field.additive_inverse(m_denominator),
                self.field.additive_inverse(constant),
            )
        } else {
            (self.field.additive_inverse(m_numerator), m_denominator, constant)
        }
    }

    /// The value of a line at a point of the twisted curve.
    pub fn plug_extension_point_in_equation(
        &self,
        p: &ExtensionCurvePoint,
        x_factor: u32,
        y_factor: u32,
        constant: u32,
    ) -> (r: ComplexScalar)
        requires
            self.field.order > 0,
        ensures
            r == ec_plug(self.field.order, *p, x_factor, y_factor, constant),
    {
        ComplexScalar {
            constant: self.field.add(self.field.multiply(x_factor, p.x), constant),
            u_term: self.field.multiply(y_factor, p.y),
        }
    }

    /// The discrete logarithm of `p` to the base `generator`, by trial of the
    /// multiples `1, 2, ..` below `order`; 0 where none is `p`.
    pub fn get_generator_multiple(&self, p: &CurvePoint, generator: &CurvePoint, order: u32) -> (r:
        Result<u32, PlonkError>)
        requires
            self.field.order > 0,
        ensures
            r == ec_log_from(self.field.order, *p, *generator, order, 1),
            r is Err ==> r == Err::<u32, _>(PlonkError::NoInverse),
    {
        let mut i: u32 = 1;
        while i < order
            invariant
                self.field.order > 0,
                1 <= i,
                i <= order || i == 1,
                ec_log_from(self.field.order, *p, *generator, order, 1) == ec_log_from(
                    self.field.order,
                    *p,
                    *generator,
                    order,
                    i as nat,
                ),
            decreases order - i,
        {
            let new_point = self.multiply(i, generator)?;
            if CurvePoint::equals(p, &new_point) {
                return Ok(i);
            }
            i = i + 1;
        }
        Ok(0)
    }
}

} // verus!
