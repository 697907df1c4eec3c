use crate::error::PlonkError;
use crate::math::matrix::dot;
use crate::thaler::arrays::{vector_items, FieldVector};
use vstd::arithmetic::div_mod::*;
use vstd::arithmetic::mul::*;
use vstd::arithmetic::power::*;
use vstd::prelude::*;

verus! {

/// The one of the field: `1 mod n`.
pub open spec fn fone(n: u32) -> u32 {
    (1int % (n as int)) as u32
}

/// `(a + b) mod n`.
pub open spec fn fadd(n: u32, a: u32, b: u32) -> u32 {
    ((a + b) % (n as int)) as u32
}

/// `(-a) mod n`.
pub open spec fn fneg(n: u32, a: u32) -> u32 {
    ((0 - a) % (n as int)) as u32
}

/// `(a - b) mod n`.
pub open spec fn fsub(n: u32, a: u32, b: u32) -> u32 {
    ((a - b) % (n as int)) as u32
}

/// `(a * b) mod n`.
pub open spec fn fmul(n: u32, a: u32, b: u32) -> u32 {
    ((a * b) % (n as int)) as u32
}

/// `a^e mod n`.
pub open spec fn fpow(n: u32, a: u32, e: nat) -> u32 {
    (pow(a as int, e) % (n as int)) as u32
}

/// `x` is the canonical multiplicative inverse of `a` modulo `n`.
pub open spec fn is_inverse(n: u32, a: u32, x: u32) -> bool {
    x < n && fmul(n, x, a) == 1
}

/// `a` is invertible modulo `n`.
pub open spec fn has_inverse(n: u32, a: u32) -> bool {
    exists|x: u32| is_inverse(n, a, x)
}

/// The canonical inverse of `a` modulo `n`, where there is one.
pub open spec fn inverse(n: u32, a: u32) -> u32 {
    choose|x: u32| is_inverse(n, a, x)
}

/// The inverse of `a` modulo `n`, or the failure to find one.
pub open spec fn finv(n: u32, a: u32) -> Result<u32, PlonkError> {
    if has_inverse(n, a) {
        Ok(inverse(n, a))
    } else {
        Err(PlonkError::NoInverse)
    }
}

/// `a / b` modulo `n`: `a` times the inverse of `b`, where `b` has one.
pub open spec fn fdiv(n: u32, a: u32, b: u32) -> Result<u32, PlonkError> {
    match finv(n, b) {
        Ok(i) => Ok(fmul(n, a, i)),
        Err(e) => Err(e),
    }
}

/// Every field operation lands in `[0, n)`.
pub proof fn lemma_field_ops_canonical(n: u32, a: u32, b: u32, e: nat)
    requires
        n > 0,
    ensures
        fadd(n, a, b) < n,
        fneg(n, a) < n,
        fsub(n, a, b) < n,
        fmul(n, a, b) < n,
        fpow(n, a, e) < n,
        fadd(n, a, b) == (a + b) % (n as int),
        fneg(n, a) == (0 - a) % (n as int),
        fsub(n, a, b) == (a - b) % (n as int),
        fmul(n, a, b) == (a * b) % (n as int),
        fpow(n, a, e) == pow(a as int, e) % (n as int),
{
    lemma_mod_bound(a + b, n as int);
    lemma_mod_bound(0 - a, n as int);
    lemma_mod_bound(a - b, n as int);
    lemma_mod_bound(a * b, n as int);
    lemma_mod_bound(pow(a as int, e), n as int);
}

/// `a` and `b` leave the same remainder modulo `n`.
pub open spec fn congruent(a: int, b: int, n: int) -> bool {
    a % n == b % n
}

/// Field operations on residues follow the integers they stand for: where
/// `x` stands for `a` and `y` for `b`, the sum, difference, product and
/// negation in the field stand for those of `a` and `b`.
pub proof fn lemma_field_ops_congruent(n: u32, x: u32, y: u32, a: int, b: int)
    requires
        n > 0,
        congruent(x as int, a, n as int),
        congruent(y as int, b, n as int),
    ensures
        congruent(fadd(n, x, y) as int, a + b, n as int),
        congruent(fsub(n, x, y) as int, a - b, n as int),
        congruent(fmul(n, x, y) as int, a * b, n as int),
        congruent(fneg(n, x) as int, -a, n as int),
{
    let m = n as int;
    lemma_field_ops_canonical(n, x, y, 0);
    lemma_mod_twice(x + y, m);
    lemma_mod_twice(x - y, m);
    lemma_mod_twice(x * y, m);
    lemma_mod_twice(0 - x, m);
    lemma_add_mod_noop(x as int, y as int, m);
    lemma_add_mod_noop(a, b, m);
    lemma_sub_mod_noop(x as int, y as int, m);
    lemma_sub_mod_noop(a, b, m);
    lemma_mul_mod_noop(x as int, y as int, m);
    lemma_mul_mod_noop(a, b, m);
    lemma_sub_mod_noop(0, x as int, m);
    lemma_sub_mod_noop(0, a, m);
}

/// Sums, differences and products of congruent integers are congruent.
pub proof fn lemma_congruent_ops(a: int, a2: int, b: int, b2: int, n: int)
    requires
        n > 0,
        congruent(a, a2, n),
        congruent(b, b2, n),
    ensures
        congruent(a + b, a2 + b2, n),
        congruent(a - b, a2 - b2, n),
        congruent(a * b, a2 * b2, n),
{
    lemma_add_mod_noop(a, b, n);
    lemma_add_mod_noop(a2, b2, n);
    lemma_sub_mod_noop(a, b, n);
    lemma_sub_mod_noop(a2, b2, n);
    lemma_mul_mod_noop(a, b, n);
    lemma_mul_mod_noop(a2, b2, n);
}

/// A canonical residue that stands for `a` is `a mod n`.
pub proof fn lemma_congruent_canonical(n: u32, x: u32, a: int)
    requires
        x < n,
        congruent(x as int, a, n as int),
    ensures
        x == a % (n as int),
{
    lemma_small_mod(x as nat, n as nat);
}

/// A residue has at most one canonical inverse.
pub proof fn lemma_inverse_unique(n: u32, a: u32, x: u32, y: u32)
    requires
        is_inverse(n, a, x),
        is_inverse(n, a, y),
    ensures
        x == y,
{
    let m = n as int;
    lemma_field_ops_canonical(n, x, a, 0);
    lemma_field_ops_canonical(n, y, a, 0);
    assert((x * (y * a)) % m == x) by {
        lemma_mul_mod_noop_right(x as int, y * a, m);
        lemma_small_mod(x as nat, n as nat);
    }
    assert((y * (x * a)) % m == y) by {
        lemma_mul_mod_noop_right(y as int, x * a, m);
        lemma_small_mod(y as nat, n as nat);
    }
    assert(x * (y * a) == y * (x * a)) by (nonlinear_arith);
}

/// Whoever exhibits an inverse knows what `finv` is.
pub proof fn lemma_inverse_found(n: u32, a: u32, x: u32)
    requires
        is_inverse(n, a, x),
    ensures
        has_inverse(n, a),
        inverse(n, a) == x,
        finv(n, a) == Ok::<u32, PlonkError>(x),
{
    lemma_inverse_unique(n, a, x, inverse(n, a));
}

/// Subtracting what was added gives back the start.
pub proof fn law_subtract_undoes_add(n: u32, a: u32, b: u32)
    requires
        a < n,
        b < n,
    ensures
        fsub(n, fadd(n, a, b), b) == a,
{
    let m = n as int;
    lemma_field_ops_canonical(n, a, b, 0);
    lemma_field_ops_canonical(n, fadd(n, a, b), b, 0);
    lemma_sub_mod_noop(a + b, b as int, m);
    lemma_small_mod(b as nat, n as nat);
    lemma_small_mod(a as nat, n as nat);
    assert(((a + b) % m - (b as int) % m) % m == (a + b - b) % m);
}

/// Dividing by an invertible factor gives back the other factor.
pub proof fn law_divide_undoes_multiply(n: u32, a: u32, b: u32)
    requires
        a < n,
        b < n,
        has_inverse(n, b),
    ensures
        fdiv(n, fmul(n, a, b), b) == Ok::<u32, PlonkError>(a),
{
    let m = n as int;
    let i = inverse(n, b);
    let ab = fmul(n, a, b);
    assert(is_inverse(n, b, i));
    lemma_field_ops_canonical(n, a, b, 0);
    lemma_field_ops_canonical(n, ab, i, 0);
    lemma_field_ops_canonical(n, i, b, 0);
    assert((((a * b) % m) * i) % m == ((a * b) * i) % m) by {
        lemma_mul_mod_noop_left(a * b, i as int, m);
    }
    assert((a * b) * i == a * (i * b)) by (nonlinear_arith);
    assert((a * (i * b)) % m == (a * ((i * b) % m)) % m) by {
        lemma_mul_mod_noop_right(a as int, i * b, m);
    }
    assert(a * ((i * b) % m) == a) by (nonlinear_arith)
        requires
            (i * b) % m == 1,
    ;
    lemma_small_mod(a as nat, n as nat);
}

/// The integers modulo `order`.
#[derive(Clone, Copy, Debug)]
pub struct Field {
    pub order: u32,
}

impl Field {
    /// `(a + b) mod order`.
    pub fn add(&self, a: u32, b: u32) -> (r: u32)
        requires
            self.order > 0,
        ensures
            r == fadd(self.order, a, b),
            r < self.order,
    {
        proof {
            lemma_field_ops_canonical(self.order, a, b, 0);
        }
        ((a as u64 + b as u64) % (self.order as u64)) as u32
    }

    /// `(a - b) mod order`.
    pub fn subtract(&self, a: u32, b: u32) -> (r: u32)
        requires
            self.order > 0,
        ensures
            r == fsub(self.order, a, b),
            r < self.order,
    {
        let nb = self.additive_inverse(b);
        proof {
            let m = self.order as int;
            lemma_field_ops_canonical(self.order, a, b, 0);
            lemma_field_ops_canonical(self.order, a, nb, 0);
            lemma_add_mod_noop_right(a as int, 0 - b, m);
        }
        self.add(a, nb)
    }

    /// `(a * b) mod order`.
    pub fn multiply(&self, a: u32, b: u32) -> (r: u32)
        requires
            self.order > 0,
        ensures
            r == fmul(self.order, a, b),
            r < self.order,
    {
        proof {
            lemma_field_ops_canonical(self.order, a, b, 0);
            assert(a * b <= 0xffff_ffff * 0xffff_ffff) by (nonlinear_arith)
                requires
                    a <= 0xffff_ffff,
                    b <= 0xffff_ffff,
            ;
        }
        ((a as u64 * b as u64) % (self.order as u64)) as u32
    }

    /// `a / b`: `a` times the inverse of `b`; fails where `b` has none.
    pub fn divide(&self, a: u32, b: u32) -> (r: Result<u32, PlonkError>)
        requires
            self.order > 0,
        ensures
            r == fdiv(self.order, a, b),
            r is Ok ==> r.unwrap() < self.order,
            r is Err ==> r == Err::<u32, PlonkError>(PlonkError::NoInverse),
    {
        match self.multiplicative_inverse(b) {
            Ok(i) => Ok(self.multiply(a, i)),
            Err(e) => Err(e),
        }
    }

    /// `a^b mod order`.
    pub fn exponent(&self, a: u32, b: u32) -> (r: u32)
        requires
            self.order > 0,
        ensures
            r == fpow(self.order, a, b as nat),
            r < self.order,
    {
        let mut res: u32 = 1 % self.order;
        let mut i: u32 = 0;
        proof {
            lemma_field_ops_canonical(self.order, a, a, 0);
            lemma_pow0(a as int);
        }
        while i < b
            invariant
                self.order > 0,
                i <= b,
                res == fpow(self.order, a, i as nat),
                res < self.order,
            decreases b - i,
        {
            proof {
                let m = self.order as int;
                lemma_field_ops_canonical(self.order, a, a, i as nat);
                lemma_field_ops_canonical(self.order, res, a, (i + 1) as nat);
                lemma_mul_mod_noop_left(pow(a as int, i as nat), a as int, m);
                lemma_pow_adds(a as int, i as nat, 1);
                lemma_pow1(a as int);
            }
            res = self.multiply(res, a);
            i = i + 1;
        }
        res
    }

    /// `(-a) mod order`.
    pub fn additive_inverse(&self, a: u32) -> (r: u32)
        requires
            self.order > 0,
        ensures
            r == fneg(self.order, a),
            r < self.order,
    {
        proof {
            let m = self.order as int;
            lemma_field_ops_canonical(self.order, a, a, 0);
            lemma_mod_bound(a as int, m);
            lemma_sub_mod_noop_right(m, a as int, m);
            lemma_mod_sub_multiples_vanish(0 - a, m);
            assert(m - a == -m + (0 - a) + 2 * m);
            lemma_mod_add_multiples_vanish(0 - a, m);
            lemma_mod_add_multiples_vanish(m - a, m);
        }
        (self.order - (a % self.order)) % self.order
    }

    /// Searches `[0, order)` for the inverse of `a`; fails where there is none.
    pub fn multiplicative_inverse(&self, a: u32) -> (r: Result<u32, PlonkError>)
        requires
            self.order > 0,
        ensures
            r == finv(self.order, a),
            r is Ok ==> r.unwrap() < self.order,
            r is Err ==> r == Err::<u32, PlonkError>(PlonkError::NoInverse),
    {
        let mut i: u32 = 0;
        while i < self.order
            invariant
                self.order > 0,
                i <= self.order,
                forall|x: u32| x < i ==> !is_inverse(self.order, a, x),
            decreases self.order - i,
        {
            if self.multiply(i, a) == 1 {
                proof {
                    lemma_inverse_found(self.order, a, i);
                }
                return Ok(i);
            }
            i = i + 1;
        }
        Err(PlonkError::NoInverse)
    }
    /// The dot product of two vectors in the field, over the places of the
    /// first, which the second must have too.
    pub fn vector_dot(&self, a: &FieldVector, b: &FieldVector) -> (r: u32)
        requires
            self.order > 0,
            vector_items(*a).len() <= vector_items(*b).len(),
        ensures
            r == dot(vector_items(*a), vector_items(*b), vector_items(*a).len() as int) % (self.order as int),
            r < self.order,
    {
        let ghost n = self.order;
        let ghost x = vector_items(*a);
        let ghost y = vector_items(*b);
        let len = a.len();
        let mut result: u32 = 0;
        let mut index: usize = 0;
        proof {
            lemma_small_mod(0, n as nat);
        }
        while index < len
            invariant
                n == self.order,
                n > 0,
                x == vector_items(*a),
                y == vector_items(*b),
                len == x.len(),
                len <= y.len(),
                index <= len,
                result < n,
                result == dot(x, y, index as int) % (n as int),
            decreases len - index,
        {
            let term = self.multiply(a.at(index), b.at(index));
            proof {
                lemma_field_ops_canonical(n, x[index as int], y[index as int], 0);
                lemma_field_ops_canonical(n, result, term, 0);
                lemma_add_mod_noop(dot(x, y, index as int), x[index as int] * y[index as int], n as int);
            }
            result = self.add(result, term);
            index = index + 1;
        }
        result
    }

    /// `Rng::gen_range` on the thread's generator: a residue of the field,
    /// which one is left to chance.
    #[verifier::external_body]
    pub fn get_random(&self) -> (r: u32)
        requires
            self.order > 0,
        ensures
            r < self.order,
    {
        rand::Rng::gen_range(&mut rand::thread_rng(), 0..self.order)
    }
}

} // verus!
