use crate::math::field::{
    congruent, fadd, fmul, fneg, lemma_congruent_canonical, lemma_field_ops_canonical,
    lemma_field_ops_congruent, Field,
};
use vstd::prelude::*;

verus! {

/// An element `constant + u_term * u` of the quadratic extension in which
/// `u * u = -2`.
#[derive(Clone, Copy, Debug)]
pub struct ComplexScalar {
    pub constant: u32,
    pub u_term: u32,
}

/// The product of two elements of the extension modulo `n`:
/// `(a + b u)(c + d u) = (a c - 2 b d) + (a d + b c) u`.
pub open spec fn cmul(n: u32, c1: ComplexScalar, c2: ComplexScalar) -> ComplexScalar {
    ComplexScalar {
        constant: fadd(
            n,
            fmul(n, c1.constant, c2.constant),
            fmul(n, fneg(n, 2), fmul(n, c1.u_term, c2.u_term)),
        ),
        u_term: fadd(n, fmul(n, c1.constant, c2.u_term), fmul(n, c1.u_term, c2.constant)),
    }
}

/// The sum of two elements of the extension modulo `n`.
pub open spec fn cadd(n: u32, c1: ComplexScalar, c2: ComplexScalar) -> ComplexScalar {
    ComplexScalar {
        constant: fadd(n, c1.constant, c2.constant),
        u_term: fadd(n, c1.u_term, c2.u_term),
    }
}

/// The power `c^e` in the extension modulo `n`, for `e >= 1`; for `e == 0` it
/// is `c` as well.
pub open spec fn cpow(n: u32, c: ComplexScalar, e: nat) -> ComplexScalar
    decreases e,
{
    if e <= 1 {
        c
    } else {
        cmul(n, c, cpow(n, c, (e - 1) as nat))
    }
}

/// The parts of a product follow the integers that the parts of its factors
/// stand for.
pub proof fn lemma_cmul_congruent(
    n: u32,
    x: ComplexScalar,
    y: ComplexScalar,
    xc: int,
    xu: int,
    yc: int,
    yu: int,
)
    requires
        n > 0,
        congruent(x.constant as int, xc, n as int),
        congruent(x.u_term as int, xu, n as int),
        congruent(y.constant as int, yc, n as int),
        congruent(y.u_term as int, yu, n as int),
    ensures
        congruent(cmul(n, x, y).constant as int, xc * yc + (-2) * (xu * yu), n as int),
        congruent(cmul(n, x, y).u_term as int, xc * yu + xu * yc, n as int),
        cmul(n, x, y).constant < n,
        cmul(n, x, y).u_term < n,
{
    let cc = fmul(n, x.constant, y.constant);
    let uu = fmul(n, x.u_term, y.u_term);
    let m2 = fneg(n, 2);
    let cu = fmul(n, x.constant, y.u_term);
    let uc = fmul(n, x.u_term, y.constant);
    lemma_field_ops_congruent(n, x.constant, y.constant, xc, yc);
    lemma_field_ops_congruent(n, x.u_term, y.u_term, xu, yu);
    lemma_field_ops_congruent(n, 2, 2, 2, 2);
    lemma_field_ops_congruent(n, m2, uu, -2, xu * yu);
    lemma_field_ops_congruent(n, cc, fmul(n, m2, uu), xc * yc, (-2) * (xu * yu));
    lemma_field_ops_congruent(n, x.constant, y.u_term, xc, yu);
    lemma_field_ops_congruent(n, x.u_term, y.constant, xu, yc);
    lemma_field_ops_congruent(n, cu, uc, xc * yu, xu * yc);
    lemma_field_ops_canonical(n, cc, fmul(n, m2, uu), 0);
    lemma_field_ops_canonical(n, cu, uc, 0);
}

/// The two ways of bracketing a product of three elements agree, part by part,
/// in the integers.
proof fn lemma_triple_product(a: int, b: int, c: int, d: int, e: int, f: int)
    ensures
        (a * c + (-2) * (b * d)) * e + (-2) * ((a * d + b * c) * f) == a * (c * e + (-2) * (d * f)) + (-2)
            * (b * (c * f + d * e)),
        (a * c + (-2) * (b * d)) * f + (a * d + b * c) * e == a * (c * f + d * e) + b * (c * e + (-2) * (d
            * f)),
{
    assert((a * c + (-2) * (b * d)) * e == a * c * e - 2 * (b * d * e)) by (nonlinear_arith);
    assert((a * d + b * c) * f == a * d * f + b * c * f) by (nonlinear_arith);
    assert(a * (c * e + (-2) * (d * f)) == a * c * e - 2 * (a * d * f)) by (nonlinear_arith);
    assert(b * (c * f + d * e) == b * c * f + b * d * e) by (nonlinear_arith);
    assert((a * c + (-2) * (b * d)) * f == a * c * f - 2 * (b * d * f)) by (nonlinear_arith);
    assert((a * d + b * c) * e == a * d * e + b * c * e) by (nonlinear_arith);
    assert(a * (c * f + d * e) == a * c * f + a * d * e) by (nonlinear_arith);
    assert(b * (c * e + (-2) * (d * f)) == b * c * e - 2 * (b * d * f)) by (nonlinear_arith);
}

/// Multiplication in the extension is associative.
pub proof fn lemma_cmul_associative(n: u32, x: ComplexScalar, y: ComplexScalar, z: ComplexScalar)
    requires
        n > 0,
    ensures
        cmul(n, cmul(n, x, y), z) == cmul(n, x, cmul(n, y, z)),
{
    let (xc, xu) = (x.constant as int, x.u_term as int);
    let (yc, yu) = (y.constant as int, y.u_term as int);
    let (zc, zu) = (z.constant as int, z.u_term as int);
    let xy_c = xc * yc + (-2) * (xu * yu);
    let xy_u = xc * yu + xu * yc;
    let yz_c = yc * zc + (-2) * (yu * zu);
    let yz_u = yc * zu + yu * zc;
    lemma_cmul_congruent(n, x, y, xc, xu, yc, yu);
    lemma_cmul_congruent(n, y, z, yc, yu, zc, zu);
    lemma_cmul_congruent(n, cmul(n, x, y), z, xy_c, xy_u, zc, zu);
    lemma_cmul_congruent(n, x, cmul(n, y, z), xc, xu, yz_c, yz_u);
    lemma_triple_product(xc, xu, yc, yu, zc, zu);
    let l = cmul(n, cmul(n, x, y), z);
    let r = cmul(n, x, cmul(n, y, z));
    lemma_congruent_canonical(n, l.constant, xy_c * zc + (-2) * (xy_u * zu));
    lemma_congruent_canonical(n, r.constant, xc * yz_c + (-2) * (xu * yz_u));
    lemma_congruent_canonical(n, l.u_term, xy_c * zu + xy_u * zc);
    lemma_congruent_canonical(n, r.u_term, xc * yz_u + xu * yz_c);
}

/// Powers multiply by adding their exponents.
pub proof fn lemma_cpow_adds(n: u32, c: ComplexScalar, a: nat, b: nat)
    requires
        n > 0,
        a >= 1,
        b >= 1,
    ensures
        cmul(n, cpow(n, c, a), cpow(n, c, b)) == cpow(n, c, a + b),
    decreases a,
{
    if a > 1 {
        lemma_cpow_adds(n, c, (a - 1) as nat, b);
        lemma_cmul_associative(n, c, cpow(n, c, (a - 1) as nat), cpow(n, c, b));
    }
}

impl ComplexScalar {
    /// The product in the extension of the field.
    pub fn multiply(field: &Field, c1: &ComplexScalar, c2: &ComplexScalar) -> (r: ComplexScalar)
        requires
            field.order > 0,
        ensures
            r == cmul(field.order, *c1, *c2),
            r.constant < field.order,
            r.u_term < field.order,
    {
        let mut constant = field.multiply(c1.constant, c2.constant);
        constant =
        field.add(
            constant,
            field.multiply(field.additive_inverse(2), field.multiply(c1.u_term, c2.u_term)),
        );
        let u_term = field.add(
            field.multiply(c1.constant, c2.u_term),
            field.multiply(c1.u_term, c2.constant),
        );
        ComplexScalar { constant, u_term }
    }

    /// The sum in the extension of the field.
    pub fn add(field: &Field, c1: &ComplexScalar, c2: &ComplexScalar) -> (r: ComplexScalar)
        requires
            field.order > 0,
        ensures
            r == cadd(field.order, *c1, *c2),
    {
        ComplexScalar {
            constant: field.add(c1.constant, c2.constant),
            u_term: field.add(c1.u_term, c2.u_term),
        }
    }

    /// The power `c^exponent` in the extension, by repeated squaring up to the
    /// largest power of two below the exponent and single factors from there.
    /// An exponent of zero gives `c`, as an exponent of one does.
    pub fn exponent(field: &Field, c: &ComplexScalar, exponent: u32) -> (r: ComplexScalar)
        requires
            field.order > 0,
        ensures
            r == cpow(field.order, *c, exponent as nat),
    {
        let n = field.order;
        let mut curr: u64 = 2;
        let mut res = ComplexScalar { constant: c.constant, u_term: c.u_term };
        while curr < exponent as u64
            invariant
                n == field.order,
                n > 0,
                2 <= curr <= 0x2_0000_0000,
                curr % 2 == 0,
                curr / 2 <= exponent || curr == 2,
                res == cpow(n, *c, (curr / 2) as nat),
            decreases 0x2_0000_0000 - curr,
        {
            proof {
                lemma_cpow_adds(n, *c, (curr / 2) as nat, (curr / 2) as nat);
            }
            res = ComplexScalar::multiply(field, &res, &res);
            curr = curr * 2;
        }
        curr = curr / 2;
        while curr < exponent as u64
            invariant
                n == field.order,
                n > 0,
                1 <= curr,
                curr <= exponent || curr == 1,
                res == cpow(n, *c, curr as nat),
            decreases exponent - curr,
        {
            res = ComplexScalar::multiply(field, c, &res);
            curr = curr + 1;
        }
        res
    }

    /// Whether both parts agree.
    pub fn equals(c1: &ComplexScalar, c2: &ComplexScalar) -> (r: bool)
        ensures
            r == (*c1 == *c2),
    {
        c1.constant == c2.constant && c1.u_term == c2.u_term
    }
}

} // verus!
