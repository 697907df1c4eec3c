use crate::math::field::{fpow, lemma_field_ops_canonical, Field};
use crate::math::matrix::dot;
use crate::thaler::arrays::{vector_items, FieldVector};
use vstd::arithmetic::div_mod::*;
use vstd::arithmetic::power::*;
use vstd::prelude::*;

verus! {

/// Fingerprints of vectors: their values as polynomials at a challenge.
pub struct ReedSolomon {
    pub field: Field,
}

/// The powers `1, c, c^2, ..` of the challenge modulo `n`, `len` of them. The
/// first is the number 1 itself.
pub open spec fn challenge_powers(n: u32, challenge: u32, len: nat) -> Seq<u32> {
    Seq::new(
        len,
        |i: int|
            if i == 0 {
                1u32
            } else {
                fpow(n, challenge, i as nat)
            },
    )
}

/// The fingerprint of the values at the challenge: the sum of
/// `values_i * challenge^i` modulo `n`.
pub open spec fn fingerprint(n: u32, values: Seq<u32>, challenge: u32) -> u32 {
    (dot(values, challenge_powers(n, challenge, values.len()), values.len() as int) % (n as int)) as u32
}

impl ReedSolomon {
    /// The fingerprint of the values at the challenge.
    pub fn finger_print(&self, values: &FieldVector, challenge: u32) -> (r: u32)
        requires
            self.field.order > 0,
            vector_items(*values).len() <= u32::MAX,
        ensures
            r == fingerprint(self.field.order, vector_items(*values), challenge),
    {
        let challenge_array = self.get_challenge_array(challenge, values.len() as u32);
        self.field.vector_dot(values, &challenge_array)
    }

    /// The powers of the challenge from exponent 0 up to, not including,
    /// `degree`.
    pub fn get_challenge_array(&self, challenge: u32, degree: u32) -> (r: FieldVector)
        requires
            self.field.order > 0,
        ensures
            vector_items(r) == challenge_powers(self.field.order, challenge, degree as nat),
    {
        let ghost n = self.field.order;
        let mut challenge_array: Vec<u32> = Vec::new();
        let mut val: u32 = 1;
        let mut index: u32 = 0;
        while index < degree
            invariant
                n == self.field.order,
                n > 0,
                index <= degree,
                challenge_array@.len() == index,
                challenge_array@ == challenge_powers(n, challenge, index as nat),
                index == 0 ==> val == 1,
                index > 0 ==> val == fpow(n, challenge, index as nat),
            decreases degree - index,
        {
            challenge_array.push(val);
            proof {
                assert(challenge_array@ =~= challenge_powers(n, challenge, (index + 1) as nat));
                let m = n as int;
                let c = challenge as int;
                lemma_field_ops_canonical(n, val, challenge, index as nat);
                lemma_field_ops_canonical(n, val, challenge, (index + 1) as nat);
                lemma_pow1(c);
                if index == 0 {
                    assert(1 * c == c);
                } else {
                    lemma_mul_mod_noop_left(pow(c, index as nat), c, m);
                    lemma_pow_adds(c, index as nat, 1);
                }
            }
            val = self.field.multiply(val, challenge);
            index = index + 1;
        }
        FieldVector::from_vec(challenge_array)
    }
}

} // verus!
