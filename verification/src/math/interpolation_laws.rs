use crate::math::field::{congruent, lemma_congruent_ops, lemma_field_ops_canonical};
use crate::math::matrix::{cofactor, det3, det4, det4_mod, entry, has_4x4};
use crate::math::matrix_laws::{law_rows_times_cofactors, row_times_cofactors};
use crate::math::polynomial::{interpolate, peval, vandermonde};
use crate::math::polynomial_laws::law_interpolation_meets_points;
use crate::math::primes::{is_prime, lemma_prime_inverse, lemma_prime_no_zero_divisors};
use vstd::arithmetic::div_mod::*;
use vstd::arithmetic::power::*;
use vstd::prelude::*;

verus! {

/// The four abscissas are residues modulo `n`, no two of them the same.
pub open spec fn distinct_residues(n: u32, xs: Seq<u32>) -> bool {
    &&& xs.len() == 4
    &&& forall|i: int| 0 <= i < 4 ==> xs[i] < n
    &&& forall|i: int, j: int| 0 <= i < j < 4 ==> xs[i] != xs[j]
}

/// The value of the cubic with the coefficients `c0` to `c3` at `x`.
pub open spec fn cubic(c0: int, c1: int, c2: int, c3: int, x: int) -> int {
    c0 + c1 * x + c2 * (x * x) + c3 * (x * x * x)
}

/// The difference of two residues that are not the same is no multiple of
/// the modulus.
proof fn lemma_difference_not_zero(n: u32, a: u32, b: u32)
    requires
        a < n,
        b < n,
        a != b,
    ensures
        (b - a) % (n as int) != 0,
{
    if b > a {
        lemma_small_mod((b - a) as nat, n as nat);
    } else {
        lemma_mod_add_multiples_vanish(b - a, n as int);
        lemma_small_mod((b - a + n) as nat, n as nat);
    }
}

/// Where a product is congruent to zero modulo a prime and its first factor
/// is not, its second factor is.
proof fn lemma_cancel(n: u32, f: int, q: int)
    requires
        is_prime(n),
        (f * q) % (n as int) == 0,
        f % (n as int) != 0,
    ensures
        q % (n as int) == 0,
{
    lemma_prime_no_zero_divisors(n, f, q);
}

/// The difference of two integers congruent to zero is congruent to zero.
proof fn lemma_difference_of_zeros(n: u32, a: int, b: int)
    requires
        n > 0,
        a % (n as int) == 0,
        b % (n as int) == 0,
    ensures
        (a - b) % (n as int) == 0,
{
    lemma_sub_mod_noop(a, b, n as int);
    lemma_small_mod(0, n as nat);
}

/// A cubic with four roots modulo a prime, no two of them congruent, has a
/// leading coefficient congruent to zero.
pub proof fn lemma_cubic_with_four_roots(
    n: u32,
    c0: int,
    c1: int,
    c2: int,
    c3: int,
    a: int,
    b: int,
    c: int,
    d: int,
)
    requires
        is_prime(n),
        cubic(c0, c1, c2, c3, a) % (n as int) == 0,
        cubic(c0, c1, c2, c3, b) % (n as int) == 0,
        cubic(c0, c1, c2, c3, c) % (n as int) == 0,
        cubic(c0, c1, c2, c3, d) % (n as int) == 0,
        (b - a) % (n as int) != 0,
        (c - a) % (n as int) != 0,
        (d - a) % (n as int) != 0,
        (c - b) % (n as int) != 0,
        (d - b) % (n as int) != 0,
        (d - c) % (n as int) != 0,
    ensures
        c3 % (n as int) == 0,
{
    // first divided differences, from `a`
    let qb = c1 + c2 * (a + b) + c3 * (a * a + a * b + b * b);
    let qc = c1 + c2 * (a + c) + c3 * (a * a + a * c + c * c);
    let qd = c1 + c2 * (a + d) + c3 * (a * a + a * d + d * d);
    lemma_first_difference(c0, c1, c2, c3, a, b);
    lemma_first_difference(c0, c1, c2, c3, a, c);
    lemma_first_difference(c0, c1, c2, c3, a, d);
    lemma_difference_of_zeros(n, cubic(c0, c1, c2, c3, b), cubic(c0, c1, c2, c3, a));
    lemma_difference_of_zeros(n, cubic(c0, c1, c2, c3, c), cubic(c0, c1, c2, c3, a));
    lemma_difference_of_zeros(n, cubic(c0, c1, c2, c3, d), cubic(c0, c1, c2, c3, a));
    lemma_cancel(n, b - a, qb);
    lemma_cancel(n, c - a, qc);
    lemma_cancel(n, d - a, qd);
    // second divided differences, from `a` and `b`
    let rc = c2 + c3 * (a + b + c);
    let rd = c2 + c3 * (a + b + d);
    lemma_second_difference(c1, c2, c3, a, b, c);
    lemma_second_difference(c1, c2, c3, a, b, d);
    lemma_difference_of_zeros(n, qc, qb);
    lemma_difference_of_zeros(n, qd, qb);
    lemma_cancel(n, c - b, rc);
    lemma_cancel(n, d - b, rd);
    // the third divided difference is the leading coefficient
    assert(rd - rc == (d - c) * c3) by (nonlinear_arith)
        requires
            rc == c2 + c3 * (a + b + c),
            rd == c2 + c3 * (a + b + d),
    ;
    lemma_difference_of_zeros(n, rd, rc);
    lemma_cancel(n, d - c, c3);
}

/// The values of a cubic at two places differ by the difference of the
/// places times the first divided difference.
proof fn lemma_first_difference(c0: int, c1: int, c2: int, c3: int, a: int, b: int)
    ensures
        cubic(c0, c1, c2, c3, b) - cubic(c0, c1, c2, c3, a) == (b - a) * (c1 + c2 * (a + b) + c3 * (a * a
            + a * b + b * b)),
{
    assert(c1 * b - c1 * a == (b - a) * c1) by (nonlinear_arith);
    assert(b * b - a * a == (b - a) * (a + b)) by (nonlinear_arith);
    assert(c2 * (b * b) - c2 * (a * a) == c2 * (b * b - a * a)) by (nonlinear_arith);
    assert(c2 * ((b - a) * (a + b)) == (b - a) * (c2 * (a + b))) by (nonlinear_arith);
    assert(b * b * b - a * a * a == (b - a) * (a * a + a * b + b * b)) by (nonlinear_arith);
    assert(c3 * (b * b * b) - c3 * (a * a * a) == c3 * (b * b * b - a * a * a)) by (nonlinear_arith);
    assert(c3 * ((b - a) * (a * a + a * b + b * b)) == (b - a) * (c3 * (a * a + a * b + b * b)))
        by (nonlinear_arith);
    let (u, v, w) = (c1, c2 * (a + b), c3 * (a * a + a * b + b * b));
    assert((b - a) * (u + v + w) == (b - a) * u + (b - a) * v + (b - a) * w) by (nonlinear_arith);
}

/// Two first divided differences from one place differ by the difference of
/// their other places times the second divided difference.
proof fn lemma_second_difference(c1: int, c2: int, c3: int, a: int, b: int, c: int)
    ensures
        (c1 + c2 * (a + c) + c3 * (a * a + a * c + c * c)) - (c1 + c2 * (a + b) + c3 * (a * a + a * b + b
            * b)) == (c - b) * (c2 + c3 * (a + b + c)),
{
    assert(c2 * (a + c) - c2 * (a + b) == (c - b) * c2) by (nonlinear_arith);
    assert((a * a + a * c + c * c) - (a * a + a * b + b * b) == (c - b) * (a + b + c))
        by (nonlinear_arith);
    let (s, t) = (a * a + a * c + c * c, a * a + a * b + b * b);
    assert(c3 * s - c3 * t == c3 * (s - t)) by (nonlinear_arith);
    assert(c3 * ((c - b) * (a + b + c)) == (c - b) * (c3 * (a + b + c))) by (nonlinear_arith);
    let (u, v) = (c2, c3 * (a + b + c));
    assert((c - b) * (u + v) == (c - b) * u + (c - b) * v) by (nonlinear_arith);
}

/// The determinant of the powers 0, 1 and 2 of three integers is the product
/// of their differences.
proof fn lemma_three_powers(a: int, b: int, c: int)
    ensures
        b * (c * c) - (b * b) * c - a * (c * c) + a * (b * b) + (a * a) * c - (a * a) * b == (b - a) * ((c
            - a) * (c - b)),
{
    assert((c - a) * (c - b) == c * c - c * b - a * c + a * b) by (nonlinear_arith);
    let (p, q, r, s) = (c * c, c * b, a * c, a * b);
    assert((b - a) * (p - q - r + s) == b * p - b * q - b * r + b * s - a * p + a * q + a * r - a * s)
        by (nonlinear_arith);
    assert(b * (c * b) == (b * b) * c) by (nonlinear_arith);
    assert(b * (a * c) == a * (c * b)) by (nonlinear_arith);
    assert(b * (a * b) == a * (b * b)) by (nonlinear_arith);
    assert(a * (a * c) == (a * a) * c) by (nonlinear_arith);
    assert(a * (a * b) == (a * a) * b) by (nonlinear_arith);
}

/// The entries of a row of the matrix of powers stand for the powers of the
/// row's abscissa.
proof fn lemma_power_entries(n: u32, xs: Seq<u32>, i: int)
    requires
        n >= 2,
        xs.len() == 4,
        0 <= i < 4,
        xs[i] < n,
    ensures
        ({
            let m = vandermonde(n, xs);
            let x = xs[i] as int;
            &&& entry(m, i, 0) == 1
            &&& entry(m, i, 1) == x
            &&& congruent(entry(m, i, 2), x * x, n as int)
            &&& congruent(entry(m, i, 3), x * x * x, n as int)
        }),
{
    let o = n as int;
    let x = xs[i] as int;
    lemma_field_ops_canonical(n, xs[i], xs[i], 0);
    lemma_field_ops_canonical(n, xs[i], xs[i], 1);
    lemma_field_ops_canonical(n, xs[i], xs[i], 2);
    lemma_field_ops_canonical(n, xs[i], xs[i], 3);
    lemma_pow0(x);
    lemma_pow1(x);
    reveal_with_fuel(pow, 4);
    assert(pow(x, 2) == x * x) by {
        assert(x * (x * 1) == x * x) by (nonlinear_arith);
    }
    assert(pow(x, 3) == x * x * x) by {
        assert(x * (x * (x * 1)) == x * x * x) by (nonlinear_arith);
    }
    lemma_small_mod(1, n as nat);
    lemma_small_mod(xs[i] as nat, n as nat);
    lemma_mod_twice(x * x, o);
    lemma_mod_twice(x * x * x, o);
}

/// The cofactor of the last place of the matrix of powers of distinct
/// residues is no multiple of a prime modulus: it stands for the product of
/// the differences of the first three abscissas.
proof fn lemma_last_cofactor_not_zero(n: u32, xs: Seq<u32>)
    requires
        is_prime(n),
        distinct_residues(n, xs),
    ensures
        cofactor(vandermonde(n, xs), 3, 3) % (n as int) != 0,
{
    let o = n as int;
    let m = vandermonde(n, xs);
    let (a, b, c) = (xs[0] as int, xs[1] as int, xs[2] as int);
    lemma_power_entries(n, xs, 0);
    lemma_power_entries(n, xs, 1);
    lemma_power_entries(n, xs, 2);
    let (a2, b2, c2) = (entry(m, 0, 2), entry(m, 1, 2), entry(m, 2, 2));
    let cof = cofactor(m, 3, 3);
    assert(cof == det3(1, a, a2, 1, b, b2, 1, c, c2));
    assert(cof == b * c2 - b2 * c - a * c2 + a * b2 + a2 * c - a2 * b) by {
        assert(1 * (b * c2 - b2 * c) == b * c2 - b2 * c);
        assert(a * (1 * c2 - b2 * 1) == a * c2 - a * b2) by (nonlinear_arith);
        assert(a2 * (1 * c - b * 1) == a2 * c - a2 * b) by (nonlinear_arith);
    }
    // each square stands for the square of the abscissa
    lemma_congruent_ops(b, b, c2, c * c, o);
    lemma_congruent_ops(b2, b * b, c, c, o);
    lemma_congruent_ops(a, a, c2, c * c, o);
    lemma_congruent_ops(a, a, b2, b * b, o);
    lemma_congruent_ops(a2, a * a, c, c, o);
    lemma_congruent_ops(a2, a * a, b, b, o);
    lemma_congruent_ops(b * c2, b * (c * c), b2 * c, (b * b) * c, o);
    lemma_congruent_ops(b * c2 - b2 * c, b * (c * c) - (b * b) * c, a * c2, a * (c * c), o);
    lemma_congruent_ops(
        b * c2 - b2 * c - a * c2,
        b * (c * c) - (b * b) * c - a * (c * c),
        a * b2,
        a * (b * b),
        o,
    );
    lemma_congruent_ops(
        b * c2 - b2 * c - a * c2 + a * b2,
        b * (c * c) - (b * b) * c - a * (c * c) + a * (b * b),
        a2 * c,
        (a * a) * c,
        o,
    );
    lemma_congruent_ops(
        b * c2 - b2 * c - a * c2 + a * b2 + a2 * c,
        b * (c * c) - (b * b) * c - a * (c * c) + a * (b * b) + (a * a) * c,
        a2 * b,
        (a * a) * b,
        o,
    );
    lemma_three_powers(a, b, c);
    let product = (b - a) * ((c - a) * (c - b));
    assert(congruent(cof, product, o));
    lemma_difference_not_zero(n, xs[0], xs[1]);
    lemma_difference_not_zero(n, xs[0], xs[2]);
    lemma_difference_not_zero(n, xs[1], xs[2]);
    if product % o == 0 {
        lemma_prime_no_zero_divisors(n, b - a, (c - a) * (c - b));
        lemma_prime_no_zero_divisors(n, c - a, c - b);
    }
}

/// Row `i` of the matrix of powers times the cofactors of its last row
/// stands for the cubic with those cofactors as coefficients, at the row's
/// abscissa.
proof fn lemma_row_is_cubic(n: u32, xs: Seq<u32>, i: int)
    requires
        n >= 2,
        xs.len() == 4,
        0 <= i < 4,
        xs[i] < n,
    ensures
        ({
            let m = vandermonde(n, xs);
            congruent(
                cubic(
                    cofactor(m, 3, 0),
                    cofactor(m, 3, 1),
                    cofactor(m, 3, 2),
                    cofactor(m, 3, 3),
                    xs[i] as int,
                ),
                row_times_cofactors(m, i, 3),
                n as int,
            )
        }),
{
    let o = n as int;
    let m = vandermonde(n, xs);
    let x = xs[i] as int;
    let (c0, c1, c2, c3) = (cofactor(m, 3, 0), cofactor(m, 3, 1), cofactor(m, 3, 2), cofactor(m, 3, 3));
    let (e2, e3) = (entry(m, i, 2), entry(m, i, 3));
    lemma_power_entries(n, xs, i);
    assert(1 * c0 == c0);
    assert(c1 * x == x * c1) by (nonlinear_arith);
    lemma_congruent_ops(c2, c2, x * x, e2, o);
    lemma_congruent_ops(c3, c3, x * x * x, e3, o);
    assert(c2 * e2 == e2 * c2) by (nonlinear_arith);
    assert(c3 * e3 == e3 * c3) by (nonlinear_arith);
    lemma_congruent_ops(c0 + c1 * x, c0 + c1 * x, c2 * (x * x), e2 * c2, o);
    lemma_congruent_ops(c0 + c1 * x + c2 * (x * x), c0 + c1 * x + e2 * c2, c3 * (x * x * x), e3 * c3, o);
}

/// Four points with distinct abscissas modulo a prime can be interpolated:
/// the matrix of the powers of the abscissas has a determinant with an
/// inverse.
pub proof fn law_interpolation_succeeds(n: u32, xs: Seq<u32>, ys: Seq<u32>)
    requires
        is_prime(n),
        distinct_residues(n, xs),
        ys.len() == 4,
    ensures
        interpolate(n, xs, ys) is Ok,
{
    reveal(interpolate);
    let o = n as int;
    let m = vandermonde(n, xs);
    assert(has_4x4(m));
    let (c0, c1, c2, c3) = (cofactor(m, 3, 0), cofactor(m, 3, 1), cofactor(m, 3, 2), cofactor(m, 3, 3));
    lemma_mod_bound(det4(m), o);
    if det4_mod(n, m) == 0 {
        // then the cubic of the last row's cofactors has the four abscissas
        // for roots, and its leading coefficient could not be what it is
        law_rows_times_cofactors(m, 0, 3);
        law_rows_times_cofactors(m, 1, 3);
        law_rows_times_cofactors(m, 2, 3);
        law_rows_times_cofactors(m, 3, 3);
        lemma_row_is_cubic(n, xs, 0);
        lemma_row_is_cubic(n, xs, 1);
        lemma_row_is_cubic(n, xs, 2);
        lemma_row_is_cubic(n, xs, 3);
        lemma_small_mod(0, n as nat);
        lemma_difference_not_zero(n, xs[0], xs[1]);
        lemma_difference_not_zero(n, xs[0], xs[2]);
        lemma_difference_not_zero(n, xs[0], xs[3]);
        lemma_difference_not_zero(n, xs[1], xs[2]);
        lemma_difference_not_zero(n, xs[1], xs[3]);
        lemma_difference_not_zero(n, xs[2], xs[3]);
        lemma_cubic_with_four_roots(
            n,
            c0,
            c1,
            c2,
            c3,
            xs[0] as int,
            xs[1] as int,
            xs[2] as int,
            xs[3] as int,
        );
        lemma_last_cofactor_not_zero(n, xs);
    }
    lemma_small_mod(det4_mod(n, m) as nat, n as nat);
    lemma_prime_inverse(n, det4_mod(n, m));
}

/// Interpolation in a field of prime order: through four points with
/// distinct abscissas there is a polynomial, of four coefficients, and it
/// has at each abscissa the ordinate of its point.
pub proof fn law_interpolation_in_prime_field(n: u32, xs: Seq<u32>, ys: Seq<u32>, i: int)
    requires
        is_prime(n),
        distinct_residues(n, xs),
        ys.len() == 4,
        forall|k: int| 0 <= k < 4 ==> ys[k] < n,
        0 <= i < 4,
    ensures
        interpolate(n, xs, ys) is Ok,
        interpolate(n, xs, ys).unwrap().len() == 4,
        peval(n, interpolate(n, xs, ys).unwrap(), xs[i]) == ys[i],
{
    law_interpolation_succeeds(n, xs, ys);
    law_interpolation_meets_points(n, xs, ys, i);
    reveal(interpolate);
}

} // verus!
