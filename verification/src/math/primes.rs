use crate::error::PlonkError;
use crate::math::field::{
    fdiv, fmul, has_inverse, is_inverse, law_divide_undoes_multiply, lemma_field_ops_canonical,
};
use vstd::arithmetic::div_mod::*;
use vstd::prelude::*;

verus! {

/// `n` is a prime number.
pub open spec fn is_prime(n: u32) -> bool {
    n >= 2 && forall|d: int| 1 < d < n ==> #[trigger] (n as int % d) != 0
}

/// The greatest common divisor, by Euclid's algorithm.
pub open spec fn gcd(a: nat, b: nat) -> nat
    decreases b,
{
    if b == 0 {
        a
    } else {
        gcd(b, a % b)
    }
}

/// The greatest common divisor of two numbers that are not both zero is
/// above zero and divides both.
pub proof fn lemma_gcd_divides(a: nat, b: nat)
    requires
        a > 0 || b > 0,
    ensures
        gcd(a, b) > 0,
        a % gcd(a, b) == 0,
        b % gcd(a, b) == 0,
    decreases b,
{
    if b == 0 {
        lemma_mod_self_0(a as int);
        lemma_small_mod(0, a);
    } else {
        lemma_mod_bound(a as int, b as int);
        lemma_gcd_divides(b, a % b);
        let g = gcd(a, b) as int;
        let q = a as int / b as int;
        let r = a as int % b as int;
        let k = b as int / g;
        lemma_fundamental_div_mod(a as int, b as int);
        lemma_fundamental_div_mod(b as int, g);
        assert(b == g * k);
        assert(b * q == g * (k * q)) by (nonlinear_arith)
            requires
                b == g * k,
        ;
        lemma_mod_multiples_vanish(k * q, r, g);
    }
}

/// Bézout's identity: the greatest common divisor is a combination of the
/// two numbers with integer factors.
pub proof fn lemma_bezout(a: nat, b: nat) -> (st: (int, int))
    ensures
        st.0 * a + st.1 * b == gcd(a, b),
    decreases b,
{
    if b == 0 {
        (1, 0)
    } else {
        lemma_mod_bound(a as int, b as int);
        let (s, t) = lemma_bezout(b, a % b);
        let q = a as int / b as int;
        let r = a as int % b as int;
        lemma_fundamental_div_mod(a as int, b as int);
        assert(t * a + (s - t * q) * b == s * b + t * r) by (nonlinear_arith)
            requires
                a == b * q + r,
        ;
        (t, s - t * q)
    }
}

/// Modulo a prime, every residue but zero has an inverse.
pub proof fn lemma_prime_inverse(n: u32, a: u32)
    requires
        is_prime(n),
        a as int % n as int != 0,
    ensures
        has_inverse(n, a),
{
    let m = n as int;
    let r = (a as int % m) as nat;
    lemma_mod_bound(a as int, m);
    lemma_gcd_divides(r, n as nat);
    let g = gcd(r, n as nat) as int;
    assert(g == 1) by {
        if g > m {
            lemma_small_mod(n as nat, g as nat);
        } else if g == m {
            lemma_small_mod(r, n as nat);
        } else if g > 1 {
            assert(m % g != 0);
        }
    }
    let (s, t) = lemma_bezout(r, n as nat);
    let x = (s % m) as u32;
    lemma_mod_bound(s, m);
    // x * a stands for s * r, which is 1 less a multiple of n
    lemma_mul_mod_noop(s, a as int, m);
    lemma_mod_twice(s, m);
    lemma_mul_mod_noop(x as int, a as int, m);
    assert((x * a) % m == (s * r) % m) by {
        lemma_mul_mod_noop(s, r as int, m);
        lemma_mod_twice(a as int, m);
    }
    assert(s * r == m * (-t) + 1) by (nonlinear_arith)
        requires
            s * r + t * m == 1,
    ;
    lemma_mod_multiples_vanish(-t, 1, m);
    lemma_small_mod(1, n as nat);
    lemma_field_ops_canonical(n, x, a, 0);
    assert(is_inverse(n, a, x));
}

/// Modulo a prime, a product is zero only where a factor is.
pub proof fn lemma_prime_no_zero_divisors(n: u32, a: int, b: int)
    requires
        is_prime(n),
        (a * b) % (n as int) == 0,
    ensures
        a % (n as int) == 0 || b % (n as int) == 0,
{
    let m = n as int;
    if a % m != 0 {
        lemma_mod_bound(a, m);
        let ra = (a % m) as u32;
        lemma_mod_twice(a, m);
        lemma_prime_inverse(n, ra);
        let x = choose|x: u32| is_inverse(n, ra, x);
        lemma_field_ops_canonical(n, x, ra, 0);
        assert((x * ra) % m == 1);
        // b = b * 1 stands for b * (x * a) = x * (a * b), which stands for 0
        lemma_mul_mod_noop_right(x as int, a, m);
        assert((x * a) % m == 1);
        lemma_mul_mod_noop_right(b, x * a, m);
        assert(b * 1 == b);
        assert(b * (x * a) == x * (a * b)) by (nonlinear_arith);
        lemma_mul_mod_noop_right(x as int, a * b, m);
        assert(x * 0 == 0);
        lemma_small_mod(0, n as nat);
    }
}

/// In a field of prime order, dividing by a factor other than zero gives
/// back the other factor.
pub proof fn law_divide_undoes_multiply_in_prime_field(n: u32, a: u32, b: u32)
    requires
        is_prime(n),
        a < n,
        0 < b < n,
    ensures
        fdiv(n, fmul(n, a, b), b) == Ok::<u32, PlonkError>(a),
{
    lemma_small_mod(b as nat, n as nat);
    lemma_prime_inverse(n, b);
    law_divide_undoes_multiply(n, a, b);
}

} // verus!
