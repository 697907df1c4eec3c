use crate::math::field::{
    congruent, fmul, fsub, inverse, is_inverse, lemma_congruent_canonical, lemma_congruent_ops,
    lemma_field_ops_canonical, lemma_field_ops_congruent,
};
use crate::math::matrix::{det4_mod, dot, entry, has_4x4, inverse_entry};
use crate::math::matrix_laws::{law_matrix_times_inverse, row_times_inverse};
use crate::math::polynomial::{
    canonical, coef, conv, div_state, interpolate, inverse_row, is_zero_poly, lemma_div_state_shape,
    lemma_trimmed_props, padd, padd_raw, pdiv, peval, peval_sum, pmul, pmul_raw, psub_shifted,
    trimmed, vandermonde,
};
use vstd::arithmetic::power::*;
use vstd::arithmetic::div_mod::*;
use vstd::prelude::*;

verus! {

/// The convolution reads its first factor only through its coefficients.
pub proof fn lemma_conv_same(a: Seq<u32>, b: Seq<u32>, d: Seq<u32>, k: int, j: int)
    requires
        forall|i: int| 0 <= i < j ==> coef(a, i) == coef(b, i),
    ensures
        conv(a, d, k, j) == conv(b, d, k, j),
    decreases j,
{
    if j > 0 {
        lemma_conv_same(a, b, d, k, j - 1);
        assert(coef(a, j - 1) == coef(b, j - 1));
    }
}

/// Beyond the degree of the product every term of the convolution vanishes.
pub proof fn lemma_conv_beyond(a: Seq<u32>, d: Seq<u32>, k: int, j: int)
    requires
        k >= a.len() + d.len() - 1,
    ensures
        conv(a, d, k, j) == 0,
    decreases j,
{
    if j > 0 {
        lemma_conv_beyond(a, d, k, j - 1);
        assert(coef(a, j - 1) * coef(d, k - (j - 1)) == 0) by (nonlinear_arith)
            requires
                coef(a, j - 1) == 0 || coef(d, k - (j - 1)) == 0,
        ;
    }
}

/// Changing one coefficient of the first factor changes the convolution by
/// the change times the coefficient of the second factor that it meets.
pub proof fn lemma_conv_update(q: Seq<u32>, d: Seq<u32>, s: int, c: u32, k: int, j: int)
    requires
        0 <= s < q.len(),
    ensures
        conv(q.update(s, c), d, k, j) == conv(q, d, k, j) + (if s < j {
            (c - q[s]) * coef(d, k - s)
        } else {
            0
        }),
    decreases j,
{
    if j > 0 {
        lemma_conv_update(q, d, s, c, k, j - 1);
        let cd = coef(d, k - (j - 1)) as int;
        if j - 1 == s {
            assert(c * cd == q[s] * cd + (c - q[s]) * cd) by (nonlinear_arith);
        } else {
            assert(coef(q.update(s, c), j - 1) == coef(q, j - 1));
        }
    }
}

/// In every state of the long division, what is left of the dividend has no
/// term of an exponent that was cancelled, and the quotient no term of an
/// exponent that is yet to come.
pub proof fn lemma_div_state_zeros(n: u32, p: Seq<u32>, d: Seq<u32>, inv: u32, k: int)
    requires
        n > 0,
        canonical(p, n),
        1 <= d.len() <= p.len(),
        d.len() - 1 <= k <= p.len(),
        is_inverse(n, d.last(), inv),
    ensures
        forall|j: int| k <= j < p.len() ==> (#[trigger] div_state(n, p, d, inv, k).1[j]) == 0,
        forall|j: int| 0 <= j < k - (d.len() - 1) ==> (#[trigger] div_state(n, p, d, inv, k).0[j]) == 0,
    decreases p.len() - k,
{
    if k < p.len() {
        lemma_div_state_zeros(n, p, d, inv, k + 1);
        lemma_div_state_shape(n, p, d, inv, k + 1);
        let (q1, r1) = div_state(n, p, d, inv, k + 1);
        let c = fmul(n, r1[k], inv);
        let shift = k - (d.len() - 1);
        let (q, r) = div_state(n, p, d, inv, k);
        let m = n as int;
        assert(q == q1.update(shift, c));
        assert(r == psub_shifted(n, r1, d, c, shift));
        assert forall|j: int| k <= j < p.len() implies (#[trigger] r[j]) == 0 by {
            if j == k {
                let dl = d.last();
                assert(coef(d, j - shift) == dl);
                lemma_field_ops_congruent(n, r1[k], inv, r1[k] as int, inv as int);
                lemma_field_ops_congruent(n, c, dl, r1[k] * inv, dl as int);
                assert((r1[k] * inv) * dl == r1[k] * (inv * dl)) by (nonlinear_arith);
                lemma_field_ops_canonical(n, inv, dl, 0);
                lemma_mul_mod_noop_right(r1[k] as int, inv * dl, m);
                assert(r1[k] * 1 == r1[k]);
                lemma_field_ops_congruent(n, r1[k], fmul(n, c, dl), r1[k] as int, r1[k] as int);
                lemma_field_ops_canonical(n, r1[k], fmul(n, c, dl), 0);
                lemma_congruent_canonical(n, fsub(n, r1[k], fmul(n, c, dl)), 0);
                lemma_small_mod(0, n as nat);
            } else {
                assert(coef(d, j - shift) == 0);
                assert(r1[j] == 0);
                lemma_field_ops_canonical(n, c, 0, 0);
                assert(c * 0 == 0);
                lemma_small_mod(0, n as nat);
                lemma_field_ops_canonical(n, 0, 0, 0);
            }
        }
        assert forall|j: int| 0 <= j < shift implies (#[trigger] q[j]) == 0 by {
            assert(q1[j] == 0);
        }
    } else {
        let (q, r) = div_state(n, p, d, inv, k);
        assert(q == Seq::new((p.len() - d.len() + 1) as nat, |i: int| 0u32));
    }
}

/// In every state of the long division, the quotient so far times the
/// divisor, plus what is left of the dividend, is the dividend: coefficient
/// by coefficient, modulo `n`.
pub proof fn lemma_div_state_identity(n: u32, p: Seq<u32>, d: Seq<u32>, inv: u32, k: int, i: int)
    requires
        n > 0,
        canonical(p, n),
        1 <= d.len() <= p.len(),
        d.len() - 1 <= k <= p.len(),
        is_inverse(n, d.last(), inv),
        0 <= i,
    ensures
        congruent(
            conv(div_state(n, p, d, inv, k).0, d, i, i + 1) + coef(div_state(n, p, d, inv, k).1, i),
            coef(p, i) as int,
            n as int,
        ),
    decreases p.len() - k,
{
    let m = n as int;
    if k < p.len() {
        lemma_div_state_identity(n, p, d, inv, k + 1, i);
        lemma_div_state_zeros(n, p, d, inv, k + 1);
        lemma_div_state_shape(n, p, d, inv, k + 1);
        let (q1, r1) = div_state(n, p, d, inv, k + 1);
        let c = fmul(n, r1[k], inv);
        let shift = k - (d.len() - 1);
        let (q, r) = div_state(n, p, d, inv, k);
        assert(q == q1.update(shift, c));
        assert(r == psub_shifted(n, r1, d, c, shift));
        let cd = coef(d, i - shift);
        let before = conv(q1, d, i, i + 1);
        lemma_conv_update(q1, d, shift, c, i, i + 1);
        assert(q1[shift] == 0);
        assert(conv(q, d, i, i + 1) == before + c * cd) by {
            if shift < i + 1 {
                assert((c - 0) * cd == c * cd);
            } else {
                assert(cd == 0);
                assert(c * 0 == 0);
            }
        }
        if i < p.len() {
            let t = fmul(n, c, cd);
            lemma_field_ops_congruent(n, c, cd, c as int, cd as int);
            lemma_field_ops_congruent(n, r1[i], t, r1[i] as int, c * cd);
            assert(r[i] == fsub(n, r1[i], t));
            // r[i] stands for r1[i] - c * cd
            lemma_add_mod_noop_right(before + c * cd, r[i] as int, m);
            lemma_add_mod_noop_right(before + c * cd, r1[i] - c * cd, m);
            assert(before + c * cd + (r1[i] - c * cd) == before + r1[i]);
        } else {
            assert(cd == 0);
            assert(c * 0 == 0);
        }
    } else {
        let (q, r) = div_state(n, p, d, inv, k);
        let zeros = Seq::new((p.len() - d.len() + 1) as nat, |j: int| 0u32);
        assert(q == zeros);
        lemma_conv_zero(zeros, d, i, i + 1);
    }
}

/// The convolution of a polynomial without a nonzero coefficient is zero.
pub proof fn lemma_conv_zero(a: Seq<u32>, d: Seq<u32>, k: int, j: int)
    requires
        forall|i: int| 0 <= i < a.len() ==> a[i] == 0,
    ensures
        conv(a, d, k, j) == 0,
    decreases j,
{
    if j > 0 {
        lemma_conv_zero(a, d, k, j - 1);
        assert(coef(a, j - 1) == 0);
        assert(0 * coef(d, k - (j - 1)) == 0);
    }
}

/// Two polynomials without trailing zeros that agree coefficient by
/// coefficient are the same sequence.
pub proof fn lemma_trimmed_unique(a: Seq<u32>, b: Seq<u32>)
    requires
        a.len() >= 1,
        b.len() >= 1,
        trimmed(a) == a,
        trimmed(b) == b,
        forall|i: int| #![trigger coef(a, i)] 0 <= i ==> coef(a, i) == coef(b, i),
    ensures
        a == b,
{
    lemma_trimmed_props(a, 1);
    lemma_trimmed_props(b, 1);
    if a.len() < b.len() {
        assert(coef(a, b.len() - 1) == coef(b, b.len() - 1));
    } else if b.len() < a.len() {
        assert(coef(a, a.len() - 1) == coef(b, a.len() - 1));
    } else {
        assert forall|i: int| 0 <= i < a.len() implies a[i] == b[i] by {
            assert(coef(a, i) == coef(b, i));
        }
        assert(a =~= b);
    }
}

/// Division with remainder gives back the dividend: for a dividend `p`
/// without trailing zeros and a divisor `d` by which it can be divided, the
/// quotient times `d` plus the remainder is `p`, and the remainder is the
/// zero polynomial or shorter than `d` where anything was divided.
pub proof fn law_division_recomposes(n: u32, p: Seq<u32>, d: Seq<u32>)
    requires
        n > 0,
        p.len() >= 1,
        d.len() >= 1,
        canonical(p, n),
        canonical(d, n),
        trimmed(p) == p,
        pdiv(n, p, d) is Ok,
    ensures
        padd(n, pmul(n, pdiv(n, p, d).unwrap().0, d), pdiv(n, p, d).unwrap().1) == p,
        !is_zero_poly(p) && p.len() >= d.len() ==> is_zero_poly(pdiv(n, p, d).unwrap().1) || pdiv(
            n,
            p,
            d,
        ).unwrap().1.len() < d.len(),
{
    reveal(pdiv);
    reveal(pmul);
    reveal(padd);
    let m = n as int;
    let (qf, rf) = pdiv(n, p, d).unwrap();
    let pm_raw = pmul_raw(n, qf, d);
    let pm = trimmed(pm_raw);
    let sum_raw = padd_raw(n, pm, rf);
    let result = trimmed(sum_raw);
    assert(result == padd(n, pmul(n, qf, d), rf));
    lemma_trimmed_props(pm_raw, n);
    lemma_trimmed_props(sum_raw, n);
    if is_zero_poly(p) || p.len() < d.len() {
        assert(qf == seq![0u32]);
        assert(rf == p);
        assert forall|i: int| #![trigger coef(result, i)] 0 <= i implies coef(result, i) == coef(p, i) by {
            lemma_conv_zero(qf, d, i, i + 1);
            lemma_small_mod(0, n as nat);
            assert(coef(pm_raw, i) == 0);
            assert(coef(pm, i) == coef(pm_raw, i));
            assert(coef(result, i) == coef(sum_raw, i));
            if i < sum_raw.len() {
                lemma_field_ops_canonical(n, coef(pm, i), coef(rf, i), 0);
                lemma_small_mod(coef(p, i) as nat, n as nat);
                assert(sum_raw[i] == crate::math::field::fadd(n, coef(pm, i), coef(rf, i)));
            } else {
                assert(coef(sum_raw, i) == 0);
                assert(i >= rf.len());
            }
        }
        assert(sum_raw.len() >= 1);
        lemma_trimmed_idempotent(sum_raw);
        lemma_trimmed_unique(result, p);
    } else {
        let inv = crate::math::field::inverse(n, d.last());
        let k = d.len() - 1;
        let (q, r) = div_state(n, p, d, inv, k);
        assert(is_inverse(n, d.last(), inv));
        lemma_div_state_shape(n, p, d, inv, k);
        lemma_div_state_zeros(n, p, d, inv, k);
        lemma_trimmed_props(q, n);
        lemma_trimmed_props(r, n);
        assert(qf == trimmed(q));
        assert(rf == trimmed(r));
        assert forall|i: int| #![trigger coef(result, i)] 0 <= i implies coef(result, i) == coef(p, i) by {
            lemma_div_state_identity(n, p, d, inv, k, i);
            let cv = conv(q, d, i, i + 1);
            assert forall|j: int| 0 <= j < i + 1 implies coef(qf, j) == coef(q, j) by {}
            lemma_conv_same(qf, q, d, i, i + 1);
            lemma_mod_bound(cv, m);
            // the raw product's coefficient is the convolution modulo n, also beyond its end
            assert(coef(pm_raw, i) == cv % m) by {
                if i >= pm_raw.len() {
                    lemma_conv_beyond(qf, d, i, i + 1);
                    lemma_small_mod(0, n as nat);
                }
            }
            assert(coef(pm, i) == coef(pm_raw, i));
            assert(coef(pm, i) == cv % m);
            assert(coef(rf, i) == coef(r, i));
            assert(coef(result, i) == coef(sum_raw, i));
            lemma_small_mod(coef(p, i) as nat, n as nat);
            assert(coef(r, i) < n);
            lemma_small_mod(coef(r, i) as nat, n as nat);
            lemma_add_mod_noop(cv, coef(r, i) as int, m);
            assert((cv % m + coef(r, i)) % m == coef(p, i));
            if i < sum_raw.len() {
                lemma_field_ops_canonical(n, coef(pm, i), coef(rf, i), 0);
                assert(sum_raw[i] == crate::math::field::fadd(n, coef(pm, i), coef(rf, i)));
            } else {
                assert(coef(pm, i) == 0);
                assert(coef(rf, i) == 0);
                lemma_small_mod(0, n as nat);
            }
        }
        assert(sum_raw.len() >= 1);
        lemma_trimmed_idempotent(sum_raw);
        lemma_trimmed_unique(result, p);
        // the remainder has no term of the divisor's degree or above
        if rf.len() > 1 {
            assert(rf.last() != 0);
            assert(rf == r.take(rf.len() as int));
            assert(r[rf.len() - 1] != 0);
        } else {
            assert(rf.len() == 1);
            if d.len() == 1 {
                assert(r[0] == 0);
                assert(coef(rf, 0) == coef(r, 0));
            }
        }
    }
}

/// Removing trailing zeros twice removes no more than removing them once.
pub proof fn lemma_trimmed_idempotent(s: Seq<u32>)
    ensures
        trimmed(trimmed(s)) == trimmed(s),
    decreases s.len(),
{
    if s.len() <= 1 || s.last() != 0 {
    } else {
        lemma_trimmed_idempotent(s.drop_last());
    }
}

/// A sum of four products times a factor, with the factor taken into each
/// product.
proof fn lemma_row_term(
    e: int,
    a0: int,
    a1: int,
    a2: int,
    a3: int,
    y0: int,
    y1: int,
    y2: int,
    y3: int,
)
    ensures
        (a0 * y0 + a1 * y1 + a2 * y2 + a3 * y3) * e == y0 * (e * a0) + y1 * (e * a1) + y2 * (e * a2) + y3 * (e
            * a3),
{
    let (p0, p1, p2, p3) = (a0 * y0, a1 * y1, a2 * y2, a3 * y3);
    assert((p0 + p1 + p2 + p3) * e == p0 * e + p1 * e + p2 * e + p3 * e) by (nonlinear_arith);
    assert((a0 * y0) * e == y0 * (e * a0)) by (nonlinear_arith);
    assert((a1 * y1) * e == y1 * (e * a1)) by (nonlinear_arith);
    assert((a2 * y2) * e == y2 * (e * a2)) by (nonlinear_arith);
    assert((a3 * y3) * e == y3 * (e * a3)) by (nonlinear_arith);
}

/// A factor times a sum of four terms, with the factor taken into each term.
proof fn lemma_times_sum(y: int, a: int, b: int, c: int, d: int)
    ensures
        y * (a + b + c + d) == y * a + y * b + y * c + y * d,
{
    assert(y * (a + b + c + d) == y * a + y * b + y * c + y * d) by (nonlinear_arith);
}

/// The term of exponent `j` of the interpolating polynomial at `xs[i]`: the
/// coefficient stands for row `j` of the inverse times the values, and the
/// power of `xs[i]` for entry `(i, j)` of the matrix of powers.
proof fn lemma_interpolation_term(n: u32, xs: Seq<u32>, ys: Seq<u32>, dinv: u32, i: int, j: int)
    requires
        n > 0,
        xs.len() == 4,
        ys.len() == 4,
        0 <= i < 4,
        0 <= j < 4,
    ensures
        ({
            let m = vandermonde(n, xs);
            let e = entry(m, i, j);
            congruent(
                (dot(inverse_row(n, m, dinv, j), ys, 4) % (n as int)) * pow(xs[i] as int, j as nat),
                ys[0] * (e * inverse_entry(n, m, dinv, j, 0)) + ys[1] * (e * inverse_entry(n, m, dinv, j, 1))
                    + ys[2] * (e * inverse_entry(n, m, dinv, j, 2)) + ys[3] * (e * inverse_entry(
                    n,
                    m,
                    dinv,
                    j,
                    3,
                )),
                n as int,
            )
        }),
{
    reveal_with_fuel(dot, 5);
    let o = n as int;
    let m = vandermonde(n, xs);
    let row = inverse_row(n, m, dinv, j);
    let e = entry(m, i, j);
    let s = dot(row, ys, 4);
    let p = pow(xs[i] as int, j as nat);
    assert(row[0] == inverse_entry(n, m, dinv, j, 0) && row[1] == inverse_entry(n, m, dinv, j, 1) && row[2]
        == inverse_entry(n, m, dinv, j, 2) && row[3] == inverse_entry(n, m, dinv, j, 3));
    assert(s == row[0] * ys[0] + row[1] * ys[1] + row[2] * ys[2] + row[3] * ys[3]);
    lemma_mod_twice(s, o);
    lemma_field_ops_canonical(n, xs[i], xs[i], j as nat);
    assert(e == p % o);
    lemma_mod_twice(p, o);
    lemma_congruent_ops(s % o, s, p, e, o);
    lemma_row_term(
        e,
        row[0] as int,
        row[1] as int,
        row[2] as int,
        row[3] as int,
        ys[0] as int,
        ys[1] as int,
        ys[2] as int,
        ys[3] as int,
    );
}

/// The interpolating polynomial meets its points: where four points can be
/// interpolated, the polynomial through them has, at the abscissa of each,
/// the ordinate of that point, for ordinates that are residues of the field.
pub proof fn law_interpolation_meets_points(n: u32, xs: Seq<u32>, ys: Seq<u32>, i: int)
    requires
        n > 0,
        xs.len() == 4,
        ys.len() == 4,
        0 <= i < 4,
        ys[i] < n,
        interpolate(n, xs, ys) is Ok,
    ensures
        peval(n, interpolate(n, xs, ys).unwrap(), xs[i]) == ys[i],
{
    reveal(interpolate);
    reveal(peval);
    reveal_with_fuel(peval_sum, 5);
    let o = n as int;
    let m = vandermonde(n, xs);
    let dinv = inverse(n, det4_mod(n, m));
    assert(is_inverse(n, det4_mod(n, m), dinv));
    assert(has_4x4(m));
    let c = interpolate(n, xs, ys).unwrap();
    let x = xs[i];
    let (e0, e1, e2, e3) = (entry(m, i, 0), entry(m, i, 1), entry(m, i, 2), entry(m, i, 3));
    // term by term, the value of the polynomial stands for the matrix of
    // powers times its inverse times the values
    lemma_interpolation_term(n, xs, ys, dinv, i, 0);
    lemma_interpolation_term(n, xs, ys, dinv, i, 1);
    lemma_interpolation_term(n, xs, ys, dinv, i, 2);
    lemma_interpolation_term(n, xs, ys, dinv, i, 3);
    let (c0, c1, c2, c3) = (
        c[0] * pow(x as int, 0),
        c[1] * pow(x as int, 1),
        c[2] * pow(x as int, 2),
        c[3] * pow(x as int, 3),
    );
    assert(peval_sum(c, x, 4) == c0 + c1 + c2 + c3);
    let term = |j: int, k: int| ys[k] * (entry(m, i, j) * inverse_entry(n, m, dinv, j, k));
    let s0 = term(0, 0) + term(0, 1) + term(0, 2) + term(0, 3);
    let s1 = term(1, 0) + term(1, 1) + term(1, 2) + term(1, 3);
    let s2 = term(2, 0) + term(2, 1) + term(2, 2) + term(2, 3);
    let s3 = term(3, 0) + term(3, 1) + term(3, 2) + term(3, 3);
    assert(congruent(c0, s0, o));
    assert(congruent(c1, s1, o));
    assert(congruent(c2, s2, o));
    assert(congruent(c3, s3, o));
    lemma_congruent_ops(c0, s0, c1, s1, o);
    lemma_congruent_ops(c0 + c1, s0 + s1, c2, s2, o);
    lemma_congruent_ops(c0 + c1 + c2, s0 + s1 + s2, c3, s3, o);
    // column by column, the matrix times its inverse is the identity
    let t0 = row_times_inverse(n, m, dinv, i, 0);
    let t1 = row_times_inverse(n, m, dinv, i, 1);
    let t2 = row_times_inverse(n, m, dinv, i, 2);
    let t3 = row_times_inverse(n, m, dinv, i, 3);
    lemma_times_sum(
        ys[0] as int,
        e0 * inverse_entry(n, m, dinv, 0, 0),
        e1 * inverse_entry(n, m, dinv, 1, 0),
        e2 * inverse_entry(n, m, dinv, 2, 0),
        e3 * inverse_entry(n, m, dinv, 3, 0),
    );
    lemma_times_sum(
        ys[1] as int,
        e0 * inverse_entry(n, m, dinv, 0, 1),
        e1 * inverse_entry(n, m, dinv, 1, 1),
        e2 * inverse_entry(n, m, dinv, 2, 1),
        e3 * inverse_entry(n, m, dinv, 3, 1),
    );
    lemma_times_sum(
        ys[2] as int,
        e0 * inverse_entry(n, m, dinv, 0, 2),
        e1 * inverse_entry(n, m, dinv, 1, 2),
        e2 * inverse_entry(n, m, dinv, 2, 2),
        e3 * inverse_entry(n, m, dinv, 3, 2),
    );
    lemma_times_sum(
        ys[3] as int,
        e0 * inverse_entry(n, m, dinv, 0, 3),
        e1 * inverse_entry(n, m, dinv, 1, 3),
        e2 * inverse_entry(n, m, dinv, 2, 3),
        e3 * inverse_entry(n, m, dinv, 3, 3),
    );
    assert(s0 + s1 + s2 + s3 == ys[0] * t0 + ys[1] * t1 + ys[2] * t2 + ys[3] * t3);
    law_matrix_times_inverse(n, m, dinv, i, 0);
    law_matrix_times_inverse(n, m, dinv, i, 1);
    law_matrix_times_inverse(n, m, dinv, i, 2);
    law_matrix_times_inverse(n, m, dinv, i, 3);
    let unit = |k: int| if i == k { 1int } else { 0int };
    lemma_congruent_ops(ys[0] as int, ys[0] as int, t0, unit(0), o);
    lemma_congruent_ops(ys[1] as int, ys[1] as int, t1, unit(1), o);
    lemma_congruent_ops(ys[2] as int, ys[2] as int, t2, unit(2), o);
    lemma_congruent_ops(ys[3] as int, ys[3] as int, t3, unit(3), o);
    let (u0, u1, u2, u3) = (ys[0] * unit(0), ys[1] * unit(1), ys[2] * unit(2), ys[3] * unit(3));
    lemma_congruent_ops(ys[0] * t0, u0, ys[1] * t1, u1, o);
    lemma_congruent_ops(ys[0] * t0 + ys[1] * t1, u0 + u1, ys[2] * t2, u2, o);
    lemma_congruent_ops(ys[0] * t0 + ys[1] * t1 + ys[2] * t2, u0 + u1 + u2, ys[3] * t3, u3, o);
    assert(u0 + u1 + u2 + u3 == ys[i]) by {
        assert(ys[0] * 1 == ys[0] && ys[1] * 1 == ys[1] && ys[2] * 1 == ys[2] && ys[3] * 1 == ys[3]);
        assert(ys[0] * 0 == 0 && ys[1] * 0 == 0 && ys[2] * 0 == 0 && ys[3] * 0 == 0);
    }
    lemma_small_mod(ys[i] as nat, n as nat);
}

} // verus!
