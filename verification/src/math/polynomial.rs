use crate::error::PlonkError;
use crate::math::field::{
    fadd, finv, fmul, fneg, fpow, fsub, lemma_field_ops_canonical, Field,
};
use crate::math::matrix::{
    det4_mod, dot, get_inverse_matrix_4x4, inverse_entry, matrix_multiply_4x4_1x4, rows,
};
use vstd::arithmetic::div_mod::*;
use vstd::arithmetic::power::*;
use vstd::prelude::*;

verus! {

/// The coefficient of `X^i` in a coefficient sequence: zero beyond its end.
pub open spec fn coef(s: Seq<u32>, i: int) -> u32 {
    if 0 <= i < s.len() {
        s[i]
    } else {
        0
    }
}

/// Every coefficient is a canonical residue modulo `n`.
pub open spec fn canonical(s: Seq<u32>, n: u32) -> bool {
    forall|i: int| 0 <= i < s.len() ==> s[i] < n
}

/// `s` without its trailing zero coefficients, though never without its first
/// coefficient.
pub open spec fn trimmed(s: Seq<u32>) -> Seq<u32>
    decreases s.len(),
{
    if s.len() <= 1 || s.last() != 0 {
        s
    } else {
        trimmed(s.drop_last())
    }
}

/// The coefficients of the sum, before trailing zeros are removed.
pub open spec fn padd_raw(n: u32, a: Seq<u32>, b: Seq<u32>) -> Seq<u32> {
    Seq::new(
        if a.len() >= b.len() {
            a.len()
        } else {
            b.len()
        },
        |i: int| fadd(n, coef(a, i), coef(b, i)),
    )
}

/// The sum of two polynomials modulo `n`.
#[verifier::opaque]
pub open spec fn padd(n: u32, a: Seq<u32>, b: Seq<u32>) -> Seq<u32> {
    trimmed(padd_raw(n, a, b))
}

/// The negation of a polynomial modulo `n`, coefficient by coefficient.
#[verifier::opaque]
pub open spec fn pneg(n: u32, a: Seq<u32>) -> Seq<u32> {
    Seq::new(a.len(), |i: int| fneg(n, a[i]))
}

/// The difference of two polynomials modulo `n`.
pub open spec fn psub(n: u32, a: Seq<u32>, b: Seq<u32>) -> Seq<u32> {
    padd(n, a, pneg(n, b))
}

/// The polynomial times the scalar `c`, modulo `n`.
#[verifier::opaque]
pub open spec fn pscale(n: u32, a: Seq<u32>, c: u32) -> Seq<u32> {
    trimmed(Seq::new(a.len(), |i: int| fmul(n, c, a[i])))
}

/// The sum of `a_i * b_(k-i)` over `0 <= i < j`, in the integers.
pub open spec fn conv(a: Seq<u32>, b: Seq<u32>, k: int, j: int) -> int
    decreases j,
{
    if j <= 0 {
        0
    } else {
        conv(a, b, k, j - 1) + coef(a, j - 1) * coef(b, k - (j - 1))
    }
}

/// The coefficients of the product, before trailing zeros are removed.
pub open spec fn pmul_raw(n: u32, a: Seq<u32>, b: Seq<u32>) -> Seq<u32> {
    Seq::new(
        (a.len() + b.len() - 1) as nat,
        |k: int| (conv(a, b, k, k + 1) % (n as int)) as u32,
    )
}

/// The product of two polynomials modulo `n`.
#[verifier::opaque]
pub open spec fn pmul(n: u32, a: Seq<u32>, b: Seq<u32>) -> Seq<u32> {
    trimmed(pmul_raw(n, a, b))
}

/// The sum of `s_i * x^i` over `0 <= i < j`, in the integers.
pub open spec fn peval_sum(s: Seq<u32>, x: u32, j: int) -> int
    decreases j,
{
    if j <= 0 {
        0
    } else {
        peval_sum(s, x, j - 1) + coef(s, j - 1) * pow(x as int, (j - 1) as nat)
    }
}

/// The value of the polynomial at `x`, modulo `n`.
#[verifier::opaque]
pub open spec fn peval(n: u32, s: Seq<u32>, x: u32) -> u32 {
    (peval_sum(s, x, s.len() as int) % (n as int)) as u32
}

/// The zero polynomial in its one representation: the single coefficient 0.
pub open spec fn is_zero_poly(s: Seq<u32>) -> bool {
    s.len() == 1 && s[0] == 0
}

/// `r - c * X^shift * d` modulo `n`, on the exponents that `r` has.
pub open spec fn psub_shifted(n: u32, r: Seq<u32>, d: Seq<u32>, c: u32, shift: int) -> Seq<u32> {
    Seq::new(r.len(), |i: int| fsub(n, r[i], fmul(n, c, coef(d, i - shift))))
}

/// Long division of `p` by `d`, once the terms of `p` of exponent `k` and above
/// have been cancelled, highest first: the quotient so far and what is left of
/// `p`. `inv` stands for the inverse of the leading coefficient of `d`.
pub open spec fn div_state(n: u32, p: Seq<u32>, d: Seq<u32>, inv: u32, k: int) -> (
    Seq<u32>,
    Seq<u32>,
)
    decreases p.len() - k,
{
    if k >= p.len() {
        (Seq::new((p.len() - d.len() + 1) as nat, |i: int| 0u32), p)
    } else {
        let (q, r) = div_state(n, p, d, inv, k + 1);
        let c = fmul(n, r[k], inv);
        let shift = k - (d.len() - 1);
        (q.update(shift, c), psub_shifted(n, r, d, c, shift))
    }
}

/// Quotient and remainder of `p` by `d` modulo `n`. Where `p` is the zero
/// polynomial or shorter than `d`, nothing is divided; otherwise the leading
/// coefficient of `d` must have an inverse.
#[verifier::opaque]
pub open spec fn pdiv(n: u32, p: Seq<u32>, d: Seq<u32>) -> Result<(Seq<u32>, Seq<u32>), PlonkError> {
    if is_zero_poly(p) || p.len() < d.len() {
        Ok((seq![0u32], p))
    } else {
        match finv(n, d.last()) {
            Err(e) => Err(e),
            Ok(inv) => {
                let (q, r) = div_state(n, p, d, inv, d.len() - 1);
                Ok((trimmed(q), trimmed(r)))
            },
        }
    }
}

/// Every state of the long division has a quotient of `p.len() - d.len() + 1`
/// coefficients and a remainder of `p.len()`, all canonical.
pub proof fn lemma_div_state_shape(n: u32, p: Seq<u32>, d: Seq<u32>, inv: u32, k: int)
    requires
        n > 0,
        canonical(p, n),
        1 <= d.len() <= p.len(),
        d.len() - 1 <= k,
    ensures
        div_state(n, p, d, inv, k).0.len() == p.len() - d.len() + 1,
        div_state(n, p, d, inv, k).1.len() == p.len(),
        canonical(div_state(n, p, d, inv, k).0, n),
        canonical(div_state(n, p, d, inv, k).1, n),
    decreases p.len() - k,
{
    if k < p.len() {
        lemma_div_state_shape(n, p, d, inv, k + 1);
        let (q, r) = div_state(n, p, d, inv, k + 1);
        let c = fmul(n, r[k], inv);
        let shift = k - (d.len() - 1);
        lemma_field_ops_canonical(n, r[k], inv, 0);
        assert forall|i: int| 0 <= i < r.len() implies #[trigger] psub_shifted(n, r, d, c, shift)[i]
            < n by {
            lemma_field_ops_canonical(n, r[i], fmul(n, c, coef(d, i - shift)), 0);
        }
    }
}

/// The first coordinates of the points, in their order.
pub open spec fn xs_of(points: Seq<Point>) -> Seq<u32> {
    Seq::new(points.len(), |i: int| points[i].x)
}

/// The second coordinates of the points, in their order.
pub open spec fn ys_of(points: Seq<Point>) -> Seq<u32> {
    Seq::new(points.len(), |i: int| points[i].y)
}

/// The powers `x^0, x^1, ..` of `x` modulo `n`, `len` of them.
pub open spec fn power_row(n: u32, x: u32, len: nat) -> Seq<u32> {
    Seq::new(len, |j: int| fpow(n, x, j as nat))
}

/// The matrix with one row of powers for each of `xs`; each row is one entry
/// longer than there are rows.
pub open spec fn vandermonde(n: u32, xs: Seq<u32>) -> Seq<Seq<u32>> {
    Seq::new(xs.len(), |i: int| power_row(n, xs[i], xs.len() + 1))
}

/// Row `i` of the inverse of the four by four matrix `m` modulo `n`.
pub open spec fn inverse_row(n: u32, m: Seq<Seq<u32>>, dinv: u32, i: int) -> Seq<u32> {
    Seq::new(4, |j: int| inverse_entry(n, m, dinv, i, j))
}

/// The coefficients of the polynomial of degree at most three through the
/// four points `(xs_i, ys_i)`: the inverse of the matrix of powers of the `xs`,
/// times the `ys`. Other numbers of points are refused, and so are points
/// whose matrix has a determinant without inverse.
#[verifier::opaque]
pub open spec fn interpolate(n: u32, xs: Seq<u32>, ys: Seq<u32>) -> Result<Seq<u32>, PlonkError> {
    if xs.len() != 4 {
        Err(PlonkError::InvalidDegree)
    } else {
        let m = vandermonde(n, xs);
        match finv(n, det4_mod(n, m)) {
            Err(e) => Err(e),
            Ok(dinv) => Ok(
                Seq::new(4, |i: int| (dot(inverse_row(n, m, dinv, i), ys, 4) % (n as int)) as u32),
            ),
        }
    }
}

/// The values 1, 0, 0, ..: one at the first point and zero at the others.
pub open spec fn first_indicator(len: nat) -> Seq<u32> {
    Seq::new(
        len,
        |i: int|
            if i == 0 {
                1u32
            } else {
                0u32
            },
    )
}

/// The coefficients of the polynomial that is 1 at `roots[0]` and 0 at the
/// other of the first `degree + 1` roots.
pub open spec fn lagrange_1(n: u32, degree: u32, roots: Seq<u32>) -> Result<Seq<u32>, PlonkError> {
    interpolate(n, roots.take(degree + 1), first_indicator((degree + 1) as nat))
}

/// `trimmed` cuts the sequence behind its last nonzero coefficient.
pub proof fn lemma_trimmed_is_prefix(s: Seq<u32>, k: int)
    requires
        0 <= k < s.len(),
        forall|j: int| k < j < s.len() ==> s[j] == 0,
        k == 0 || s[k] != 0,
    ensures
        trimmed(s) == s.take(k + 1),
    decreases s.len(),
{
    if s.len() <= 1 || s.last() != 0 {
        assert(s.take(k + 1) =~= s);
    } else {
        lemma_trimmed_is_prefix(s.drop_last(), k);
        assert(s.drop_last().take(k + 1) =~= s.take(k + 1));
    }
}

/// What `trimmed` keeps: the coefficients as a function of the exponent, the
/// canonical form and at least one coefficient.
pub proof fn lemma_trimmed_props(s: Seq<u32>, n: u32)
    ensures
        trimmed(s).len() <= s.len(),
        s.len() >= 1 ==> trimmed(s).len() >= 1,
        canonical(s, n) ==> canonical(trimmed(s), n),
        forall|i: int| coef(trimmed(s), i) == coef(s, i),
        trimmed(s).len() > 1 ==> trimmed(s).last() != 0,
        trimmed(s) == s.take(trimmed(s).len() as int),
    decreases s.len(),
{
    if s.len() <= 1 || s.last() != 0 {
        assert(s.take(s.len() as int) =~= s);
    } else {
        let t = s.drop_last();
        lemma_trimmed_props(t, n);
        assert forall|i: int| coef(trimmed(s), i) == coef(s, i) by {
            assert(coef(trimmed(t), i) == coef(t, i));
        }
        assert(t.take(trimmed(t).len() as int) =~= s.take(trimmed(t).len() as int));
    }
}

/// A polynomial over a field, by its coefficients from the constant term up.
pub struct Polynomial {
    pub degree: u32,
    pub coefficients: Vec<u32>,
    pub field: Field,
}

/// A point of the plane over a field.
#[derive(Debug)]
pub struct Point {
    pub x: u32,
    pub y: u32,
}

impl View for Polynomial {
    type V = Seq<u32>;

    open spec fn view(&self) -> Seq<u32> {
        self.coefficients@
    }
}

impl Default for Polynomial {
    /// A placeholder that stands for "not built yet": no coefficients, no field.
    fn default() -> (r: Polynomial)
        ensures
            r.unbuilt(),
    {
        Polynomial { degree: 0, coefficients: Vec::new(), field: Field { order: 0 } }
    }
}

impl Polynomial {
    /// The polynomial has `degree + 1` coefficients, each a canonical residue
    /// of its field.
    pub open spec fn wf(&self) -> bool {
        &&& self.field.order > 0
        &&& self.coefficients.len() == self.degree + 1
        &&& canonical(self@, self.field.order)
    }

    /// The polynomial is the placeholder for one that is not built yet: no
    /// coefficients, and a field of order zero.
    pub open spec fn unbuilt(&self) -> bool {
        self.degree == 0 && self@.len() == 0 && self.field.order == 0
    }

    /// The modulus of the polynomial's field.
    pub open spec fn order(&self) -> u32 {
        self.field.order
    }

    /// Evaluates the polynomial at `x`.
    pub fn eval(&self, x: u32) -> (r: u32)
        requires
            self.wf(),
        ensures
            r == peval(self.order(), self@, x),
            r < self.order(),
    {
        proof {
            reveal(peval);
        }
        let ghost n = self.field.order;
        let ghost m = self.field.order as int;
        let ghost s = self@;
        let mut res: u32 = self.coefficients[0];
        let mut i: usize = 1;
        proof {
            lemma_pow0(x as int);
            assert(peval_sum(s, x, 1) == peval_sum(s, x, 0) + coef(s, 0) * pow(x as int, 0));
            assert(coef(s, 0) * 1 == coef(s, 0)) by (nonlinear_arith);
            lemma_small_mod(res as nat, n as nat);
        }
        while i < self.coefficients.len()
            invariant
                self.wf(),
                n == self.field.order,
                m == n as int,
                s == self@,
                1 <= i <= self.degree + 1,
                res < n,
                res == peval_sum(s, x, i as int) % m,
            decreases self.degree + 1 - i,
        {
            let x_i = self.field.exponent(x, i as u32);
            let c = self.coefficients[i];
            let term = self.field.multiply(c, x_i);
            proof {
                let p = pow(x as int, i as nat);
                lemma_field_ops_canonical(n, x, x, i as nat);
                lemma_field_ops_canonical(n, c, x_i, 0);
                lemma_field_ops_canonical(n, res, term, 0);
                lemma_mul_mod_noop_right(c as int, p, m);
                lemma_add_mod_noop(peval_sum(s, x, i as int), c * p, m);
                assert(peval_sum(s, x, i + 1) == peval_sum(s, x, i as int) + coef(s, i as int) * p);
            }
            res = self.field.add(res, term);
            i = i + 1;
        }
        proof {
            lemma_mod_bound(peval_sum(s, x, s.len() as int), m);
        }
        res
    }

    /// The polynomial times `scalar`.
    pub fn scalar_multiply(&self, scalar: u32) -> (r: Polynomial)
        requires
            self.wf(),
        ensures
            r@ == pscale(self.order(), self@, scalar),
            r.field == self.field,
            r.wf(),
            r@.len() <= self@.len(),
    {
        proof {
            reveal(pscale);
        }
        let ghost n = self.field.order;
        let mut new_coefficients: Vec<u32> = Vec::new();
        let mut i: usize = 0;
        while i < self.coefficients.len()
            invariant
                self.wf(),
                n == self.field.order,
                i <= self.coefficients.len(),
                new_coefficients.len() == i,
                forall|j: int| 0 <= j < i ==> new_coefficients[j] == fmul(n, scalar, self@[j]),
            decreases self.coefficients.len() - i,
        {
            new_coefficients.push(self.field.multiply(scalar, self.coefficients[i]));
            i = i + 1;
        }
        proof {
            assert(new_coefficients@ =~= Seq::new(self@.len(), |i: int| fmul(n, scalar, self@[i])));
            assert(canonical(new_coefficients@, n)) by {
                assert forall|j: int| 0 <= j < new_coefficients@.len() implies new_coefficients@[j]
                    < n by {
                    lemma_field_ops_canonical(n, scalar, self@[j], 0);
                }
            }
            lemma_trimmed_props(new_coefficients@, n);
        }
        Polynomial::remove_zeros(
            &Polynomial { degree: self.degree, coefficients: new_coefficients, field: self.field },
        )
    }

    /// The product of two polynomials, by the full convolution of their
    /// coefficients in the field of the first.
    pub fn poly_multiply(poly1: &Polynomial, poly2: &Polynomial) -> (r: Polynomial)
        requires
            poly1.wf(),
            poly2.wf(),
            poly1.degree + poly2.degree < u32::MAX,
        ensures
            r@ == pmul(poly1.order(), poly1@, poly2@),
            r.field == poly1.field,
            r.wf(),
            r@.len() <= poly1@.len() + poly2@.len() - 1,
    {
        proof {
            reveal(pmul);
        }
        let ghost n = poly1.field.order;
        let ghost m = poly1.field.order as int;
        let ghost a = poly1@;
        let ghost b = poly2@;
        let new_degree: u32 = poly1.degree + poly2.degree;
        let len1: usize = poly1.coefficients.len();
        let len2: usize = poly2.coefficients.len();
        let mut new_coefficients: Vec<u32> = Vec::new();
        let mut k: usize = 0;
        while k <= new_degree as usize
            invariant
                poly1.wf(),
                poly2.wf(),
                n == poly1.field.order,
                m == n as int,
                a == poly1@,
                b == poly2@,
                len1 == a.len(),
                len2 == b.len(),
                new_degree == poly1.degree + poly2.degree,
                new_degree < u32::MAX,
                k <= new_degree + 1,
                new_coefficients.len() == k,
                forall|j: int| 0 <= j < k ==> new_coefficients[j] == conv(a, b, j, j + 1) % m,
            decreases new_degree + 1 - k,
        {
            let mut acc: u32 = 0;
            let mut i: usize = 0;
            proof {
                lemma_small_mod(0, n as nat);
            }
            while i <= k
                invariant
                    poly1.wf(),
                    poly2.wf(),
                    n == poly1.field.order,
                    m == n as int,
                    a == poly1@,
                    b == poly2@,
                    len1 == a.len(),
                    len2 == b.len(),
                    k <= new_degree,
                    new_degree < u32::MAX,
                    i <= k + 1,
                    acc < n,
                    acc == conv(a, b, k as int, i as int) % m,
                decreases k + 1 - i,
            {
                if i < len1 && k - i < len2 {
                    let term = poly1.field.multiply(poly1.coefficients[i], poly2.coefficients[k - i]);
                    proof {
                        lemma_field_ops_canonical(n, a[i as int], b[k - i], 0);
                        lemma_field_ops_canonical(n, acc, term, 0);
                        lemma_add_mod_noop(conv(a, b, k as int, i as int), a[i as int] * b[k - i], m);
                    }
                    acc = poly1.field.add(acc, term);
                } else {
                    proof {
                        assert(coef(a, i as int) * coef(b, k - i) == 0) by (nonlinear_arith)
                            requires
                                coef(a, i as int) == 0 || coef(b, k - i) == 0,
                        ;
                    }
                }
                i = i + 1;
            }
            new_coefficients.push(acc);
            k = k + 1;
        }
        proof {
            assert(new_coefficients@ =~= pmul_raw(n, a, b));
            lemma_trimmed_props(new_coefficients@, n);
        }
        Polynomial::remove_zeros(
            &Polynomial { degree: new_degree, coefficients: new_coefficients, field: poly1.field },
        )
    }

    /// The sum of two polynomials over one field.
    pub fn poly_add(poly1: &Polynomial, poly2: &Polynomial) -> (r: Polynomial)
        requires
            poly1.wf(),
            poly2.wf(),
            poly1.order() == poly2.order(),
        ensures
            r@ == padd(poly1.order(), poly1@, poly2@),
            r.field == (if poly1.degree < poly2.degree {
                poly2.field
            } else {
                poly1.field
            }),
            r.wf(),
            r@.len() <= poly1@.len() || r@.len() <= poly2@.len(),
    {
        proof {
            reveal(padd);
        }
        let ghost n = poly1.field.order;
        let large = if poly1.degree < poly2.degree {
            poly2
        } else {
            poly1
        };
        let small = if poly1.degree < poly2.degree {
            poly1
        } else {
            poly2
        };
        let mut res = large.copy();
        let mut i: usize = 0;
        while i < small.coefficients.len()
            invariant
                large.wf(),
                small.wf(),
                large.order() == n,
                small.order() == n,
                poly1.order() == n,
                small@.len() <= large@.len(),
                i <= small@.len(),
                res.degree == large.degree,
                res.field == large.field,
                res@.len() == large@.len(),
                forall|j: int| 0 <= j < i ==> res@[j] == fadd(n, large@[j], small@[j]),
                forall|j: int| i <= j < large@.len() ==> res@[j] == large@[j],
            decreases small@.len() - i,
        {
            let c = poly1.field.add(large.coefficients[i], small.coefficients[i]);
            res.coefficients.set(i, c);
            i = i + 1;
        }
        proof {
            assert(res@ =~= padd_raw(n, poly1@, poly2@)) by {
                assert forall|j: int| 0 <= j < res@.len() implies res@[j] == fadd(
                    n,
                    coef(poly1@, j),
                    coef(poly2@, j),
                ) by {
                    lemma_field_ops_canonical(n, coef(poly1@, j), coef(poly2@, j), 0);
                    if j >= small@.len() {
                        lemma_small_mod(large@[j] as nat, n as nat);
                    }
                }
            }
            assert(canonical(res@, n)) by {
                assert forall|j: int| 0 <= j < res@.len() implies res@[j] < n by {
                    lemma_field_ops_canonical(n, coef(poly1@, j), coef(poly2@, j), 0);
                }
            }
            lemma_trimmed_props(res@, n);
        }
        Polynomial::remove_zeros(&res)
    }

    /// The difference of two polynomials over one field.
    pub fn poly_subtract(poly1: &Polynomial, poly2: &Polynomial) -> (r: Polynomial)
        requires
            poly1.wf(),
            poly2.wf(),
            poly1.order() == poly2.order(),
        ensures
            r@ == psub(poly1.order(), poly1@, poly2@),
            r.field == (if poly1.degree < poly2.degree {
                poly2.field
            } else {
                poly1.field
            }),
            r.wf(),
            r@.len() <= poly1@.len() || r@.len() <= poly2@.len(),
    {
        let negated = Polynomial::additive_inverse_poly(poly2);
        Polynomial::poly_add(poly1, &negated)
    }

    /// The negation of a polynomial, coefficient by coefficient.
    pub fn additive_inverse_poly(poly: &Polynomial) -> (r: Polynomial)
        requires
            poly.wf(),
        ensures
            r@ == pneg(poly.order(), poly@),
            r.degree == poly.degree,
            r.field == poly.field,
            r.wf(),
    {
        proof {
            reveal(pneg);
        }
        let ghost n = poly.field.order;
        let mut new_coefficients: Vec<u32> = Vec::new();
        let mut i: usize = 0;
        while i < poly.coefficients.len()
            invariant
                poly.wf(),
                n == poly.field.order,
                i <= poly.coefficients.len(),
                new_coefficients.len() == i,
                forall|j: int| 0 <= j < i ==> new_coefficients[j] == fneg(n, poly@[j]),
                forall|j: int| 0 <= j < i ==> new_coefficients[j] < n,
            decreases poly.coefficients.len() - i,
        {
            new_coefficients.push(poly.field.additive_inverse(poly.coefficients[i]));
            i = i + 1;
        }
        proof {
            assert(new_coefficients@ =~= pneg(n, poly@));
        }
        Polynomial { degree: poly.degree, coefficients: new_coefficients, field: poly.field }
    }

    /// Long division: the quotient and the remainder of `poly1` by `poly2`, in
    /// the field of `poly1`. Fails where a division is due and the leading
    /// coefficient of `poly2` has no inverse.
    pub fn poly_divide(poly1: &Polynomial, poly2: &Polynomial) -> (res: Result<
        (Polynomial, Polynomial),
        PlonkError,
    >)
        requires
            poly1.wf(),
            poly2.wf(),
        ensures
            match res {
                Ok((q, r)) => {
                    &&& pdiv(poly1.order(), poly1@, poly2@) == Ok::<_, PlonkError>((q@, r@))
                    &&& q.wf()
                    &&& r.wf()
                    &&& q.field == poly1.field
                    &&& r.field == poly1.field
                    &&& q@.len() <= 1 || q@.len() + poly2@.len() <= poly1@.len() + 1
                    &&& r@.len() <= poly1@.len()
                },
                Err(e) => pdiv(poly1.order(), poly1@, poly2@) == Err::<(Seq<u32>, Seq<u32>), _>(e),
            },
    {
        proof {
            reveal(pdiv);
        }
        let ghost n = poly1.field.order;
        let ghost p = poly1@;
        let ghost d = poly2@;
        let len1: usize = poly1.coefficients.len();
        let len2: usize = poly2.coefficients.len();
        if (len1 == 1 && poly1.coefficients[0] == 0) || len1 < len2 {
            return Ok((Polynomial::from_scalar(0, poly1.field), poly1.copy()));
        }
        let inv = match poly1.field.multiplicative_inverse(poly2.coefficients[len2 - 1]) {
            Ok(i) => i,
            Err(e) => {
                return Err(e);
            },
        };
        let mut r: Vec<u32> = poly1.coefficients.clone();
        let quotient_len: usize = len1 - len2 + 1;
        let mut q: Vec<u32> = vec![0u32; quotient_len];
        let mut k: usize = len1;
        proof {
            assert(r@ =~= p);
            assert(q@ =~= Seq::new((p.len() - d.len() + 1) as nat, |i: int| 0u32));
        }
        while k >= len2
            invariant
                poly1.wf(),
                poly2.wf(),
                n == poly1.field.order,
                p == poly1@,
                d == poly2@,
                len1 == p.len(),
                len2 == d.len(),
                1 <= len2 <= len1,
                len2 - 1 <= k <= len1,
                (q@, r@) == div_state(n, p, d, inv, k as int),
            decreases k,
        {
            k = k - 1;
            proof {
                lemma_div_state_shape(n, p, d, inv, k + 1);
            }
            let c = poly1.field.multiply(r[k], inv);
            let shift: usize = k - (len2 - 1);
            let ghost r0 = r@;
            q.set(shift, c);
            let mut j: usize = 0;
            while j < len2
                invariant
                    poly1.wf(),
                    n == poly1.field.order,
                    d == poly2@,
                    len2 == d.len(),
                    r0.len() == len1,
                    r@.len() == len1,
                    shift + len2 <= len1,
                    j <= len2,
                    forall|i: int| shift <= i < shift + j ==> r@[i] == fsub(n, r0[i], fmul(n, c, d[i - shift])),
                    forall|i: int| 0 <= i < len1 && !(shift <= i < shift + j) ==> r@[i] == r0[i],
                decreases len2 - j,
            {
                let t = poly1.field.multiply(c, poly2.coefficients[j]);
                let v = poly1.field.subtract(r[shift + j], t);
                r.set(shift + j, v);
                j = j + 1;
            }
            proof {
                assert(r@ =~= psub_shifted(n, r0, d, c, shift as int)) by {
                    assert forall|i: int| 0 <= i < r0.len() implies r@[i] == fsub(
                        n,
                        r0[i],
                        fmul(n, c, coef(d, i - shift)),
                    ) by {
                        if !(shift <= i < shift + len2) {
                            lemma_field_ops_canonical(n, c, 0, 0);
                            lemma_field_ops_canonical(n, r0[i], 0, 0);
                            lemma_small_mod(r0[i] as nat, n as nat);
                            assert(c * 0 == 0);
                            lemma_small_mod(0, n as nat);
                        }
                    }
                }
            }
        }
        proof {
            lemma_div_state_shape(n, p, d, inv, k as int);
            lemma_trimmed_props(q@, n);
            lemma_trimmed_props(r@, n);
        }
        let quotient = Polynomial::remove_zeros(
            &Polynomial { degree: (len1 - len2) as u32, coefficients: q, field: poly1.field },
        );
        let remainder = Polynomial::remove_zeros(
            &Polynomial { degree: poly1.degree, coefficients: r, field: poly1.field },
        );
        Ok((quotient, remainder))
    }

    /// The polynomial of degree at most three through four points. Fails with
    /// `InvalidDegree` on another number of points, and with `NoInverse` where
    /// the points admit no such polynomial.
    pub fn create_poly_from_points(points: Vec<Point>, field: &Field) -> (res: Result<
        Polynomial,
        PlonkError,
    >)
        requires
            field.order > 0,
        ensures
            match res {
                Ok(p) => {
                    &&& interpolate(field.order, xs_of(points@), ys_of(points@)) == Ok::<_, PlonkError>(p@)
                    &&& p.degree == 3
                    &&& p.field == *field
                    &&& p.wf()
                },
                Err(e) => interpolate(field.order, xs_of(points@), ys_of(points@)) == Err::<Seq<u32>, _>(e),
            },
    {
        proof {
            reveal(interpolate);
        }
        let n = field.order;
        if points.len() != 4 {
            return Err(PlonkError::InvalidDegree);
        }
        let mut y_vals: Vec<u32> = Vec::new();
        let mut x_vals: Vec<u32> = Vec::new();
        let mut i: usize = 0;
        while i < points.len()
            invariant
                i <= points.len(),
                x_vals@ == xs_of(points@).take(i as int),
                y_vals@ == ys_of(points@).take(i as int),
            decreases points.len() - i,
        {
            x_vals.push(points[i].x);
            y_vals.push(points[i].y);
            proof {
                assert(x_vals@ =~= xs_of(points@).take(i + 1));
                assert(y_vals@ =~= ys_of(points@).take(i + 1));
            }
            i = i + 1;
        }
        proof {
            assert(x_vals@ =~= xs_of(points@));
            assert(y_vals@ =~= ys_of(points@));
        }
        let interpolation_matrix = Polynomial::get_interpolation_matrix(x_vals, field);
        let ghost m = vandermonde(n, xs_of(points@));
        let inv_matrix = match get_inverse_matrix_4x4(&interpolation_matrix, field) {
            Ok(inv) => inv,
            Err(e) => {
                return Err(e);
            },
        };
        let ghost dinv = finv(n, det4_mod(n, m)).unwrap();
        proof {
            assert forall|i: int| 0 <= i < 4 implies (#[trigger] inv_matrix@[i])@ == inverse_row(
                n,
                m,
                dinv,
                i,
            ) by {
                assert(rows(inv_matrix@)[i] =~= inverse_row(n, m, dinv, i));
            }
        }
        let coefficients = matrix_multiply_4x4_1x4(&inv_matrix, &y_vals, field);
        proof {
            assert(coefficients@ =~= Seq::new(
                4,
                |i: int| (dot(inverse_row(n, m, dinv, i), ys_of(points@), 4) % (n as int)) as u32,
            ));
        }
        Ok(Polynomial { degree: 3, coefficients, field: *field })
    }

    /// One row of powers for each of `x_vals`.
    fn get_interpolation_matrix(x_vals: Vec<u32>, field: &Field) -> (res: Vec<Vec<u32>>)
        requires
            field.order > 0,
            x_vals.len() < u32::MAX,
        ensures
            rows(res@) == vandermonde(field.order, x_vals@),
    {
        let mut res: Vec<Vec<u32>> = Vec::new();
        let mut i: usize = 0;
        while i < x_vals.len()
            invariant
                field.order > 0,
                x_vals.len() < u32::MAX,
                i <= x_vals.len(),
                res@.len() == i,
                forall|a: int|
                    0 <= a < i ==> (#[trigger] res@[a])@ == power_row(
                        field.order,
                        x_vals@[a],
                        x_vals@.len() + 1,
                    ),
            decreases x_vals.len() - i,
        {
            res.push(Polynomial::get_interpolation_row(x_vals[i], x_vals.len() as u32, field));
            i = i + 1;
        }
        proof {
            assert(rows(res@) =~= vandermonde(field.order, x_vals@));
        }
        res
    }

    /// The powers of `x` from exponent 0 to `degree`.
    fn get_interpolation_row(x: u32, degree: u32, field: &Field) -> (res: Vec<u32>)
        requires
            field.order > 0,
            degree < u32::MAX,
        ensures
            res@ == power_row(field.order, x, (degree + 1) as nat),
    {
        let mut res: Vec<u32> = Vec::new();
        let mut i: u32 = 0;
        while i < degree + 1
            invariant
                field.order > 0,
                degree < u32::MAX,
                i <= degree + 1,
                res@.len() == i,
                forall|j: int| 0 <= j < i ==> (#[trigger] res@[j]) == fpow(field.order, x, j as nat),
            decreases degree + 1 - i,
        {
            res.push(field.exponent(x, i));
            i = i + 1;
        }
        proof {
            assert(res@ =~= power_row(field.order, x, (degree + 1) as nat));
        }
        res
    }

    /// The polynomial that is 1 at the first root and 0 at the others of the
    /// first `degree + 1` roots. Only `degree == 3` can be interpolated.
    pub fn get_lagrange_1_poly(field: &Field, degree: u32, roots: &Vec<u32>) -> (res: Result<
        Polynomial,
        PlonkError,
    >)
        requires
            field.order > 0,
            degree < roots.len(),
        ensures
            match res {
                Ok(p) => {
                    &&& lagrange_1(field.order, degree, roots@) == Ok::<_, PlonkError>(p@)
                    &&& p.degree == 3
                    &&& p.field == *field
                    &&& p.wf()
                },
                Err(e) => lagrange_1(field.order, degree, roots@) == Err::<Seq<u32>, _>(e),
            },
    {
        let mut points: Vec<Point> = Vec::new();
        let mut i: usize = 0;
        while i <= degree as usize
            invariant
                degree < roots.len(),
                i <= degree + 1,
                points@.len() == i,
                forall|j: int| 0 <= j < i ==> (#[trigger] points@[j]).x == roots@[j],
                forall|j: int|
                    0 <= j < i ==> (#[trigger] points@[j]).y == (if j == 0 {
                        1u32
                    } else {
                        0u32
                    }),
            decreases degree + 1 - i,
        {
            let y: u32 = if i == 0 {
                1
            } else {
                0
            };
            points.push(Point { x: roots[i], y });
            i = i + 1;
        }
        proof {
            assert(xs_of(points@) =~= roots@.take(degree + 1));
            assert(ys_of(points@) =~= first_indicator((degree + 1) as nat));
        }
        Polynomial::create_poly_from_points(points, field)
    }

    /// A polynomial of degree zero.
    pub fn from_scalar(scalar: u32, field: Field) -> (r: Polynomial)
        ensures
            r.degree == 0,
            r@ == seq![scalar],
            r.field == field,
            field.order > 0 && scalar < field.order ==> r.wf(),
    {
        let mut coefficients: Vec<u32> = Vec::new();
        coefficients.push(scalar);
        Polynomial { degree: 0, coefficients, field }
    }

    /// Removes the trailing zero coefficients.
    pub fn remove_zeros(poly: &Polynomial) -> (r: Polynomial)
        requires
            poly.coefficients.len() >= 1,
            poly.coefficients.len() <= u32::MAX + 1,
        ensures
            r@ == trimmed(poly@),
            r.degree + 1 == r@.len(),
            r.field == poly.field,
            poly.wf() ==> r.wf(),
    {
        let mut k: usize = poly.coefficients.len() - 1;
        while k > 0 && poly.coefficients[k] == 0
            invariant
                k < poly.coefficients.len(),
                forall|j: int| k < j < poly.coefficients.len() ==> poly@[j] == 0,
            decreases k,
        {
            k = k - 1;
        }
        let mut coefficients: Vec<u32> = Vec::new();
        let mut i: usize = 0;
        while i <= k
            invariant
                k < poly.coefficients.len(),
                i <= k + 1,
                coefficients@ == poly@.take(i as int),
            decreases k + 1 - i,
        {
            coefficients.push(poly.coefficients[i]);
            proof {
                assert(poly@.take(i as int).push(poly@[i as int]) =~= poly@.take(i + 1));
            }
            i = i + 1;
        }
        proof {
            lemma_trimmed_is_prefix(poly@, k as int);
            lemma_trimmed_props(poly@, poly.field.order);
        }
        Polynomial { degree: k as u32, coefficients, field: poly.field }
    }

    /// A copy of the polynomial.
    pub fn copy(&self) -> (r: Polynomial)
        ensures
            r.degree == self.degree,
            r@ == self@,
            r.field == self.field,
            self.wf() ==> r.wf(),
    {
        let coefficients = self.coefficients.clone();
        proof {
            assert(coefficients@ =~= self.coefficients@);
        }
        Polynomial { degree: self.degree, coefficients, field: self.field }
    }
}

} // verus!
