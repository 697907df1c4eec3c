use crate::math::matrix::dot;
use crate::thaler::arrays::{matrix_rows, vector_items, FieldMatrix, FieldVector};
use crate::thaler::reed_solomon::{fingerprint, ReedSolomon};
use vstd::prelude::*;

verus! {

/// The probabilistic check of a matrix product: `C = A B` is tested on the
/// vector of powers of a challenge only.
pub struct Freivald {
    pub reed: ReedSolomon,
}

/// The fingerprint of each row of the matrix at the challenge.
pub open spec fn row_fingerprints(n: u32, rows: Seq<Seq<u32>>, challenge: u32) -> Seq<u32> {
    Seq::new(rows.len(), |i: int| fingerprint(n, rows[i], challenge))
}

/// The product of the matrix and the vector modulo `n`, row by row.
pub open spec fn matrix_times(n: u32, rows: Seq<Seq<u32>>, x: Seq<u32>) -> Seq<u32> {
    Seq::new(rows.len(), |i: int| (dot(rows[i], x, rows[i].len() as int) % (n as int)) as u32)
}

/// The second vector agrees with the first at every place of the first.
pub open spec fn agree(y: Seq<u32>, z: Seq<u32>) -> bool {
    forall|i: int| 0 <= i < y.len() ==> y[i] == z[i]
}

/// No row has more elements than `len`, nor than the machine counts with.
pub open spec fn rows_within(rows: Seq<Seq<u32>>, len: nat) -> bool {
    forall|i: int| 0 <= i < rows.len() ==> (#[trigger] rows[i]).len() <= len && rows[i].len() <= u32::MAX
}

impl Freivald {
    /// Whether `C x` and `A (B x)` agree for the vector `x` of the powers of
    /// the challenge, on the rows of `C`.
    pub fn verify(
        &self,
        a: &FieldMatrix,
        b: &FieldMatrix,
        c: &FieldMatrix,
        challenge: u32,
    ) -> (r: bool)
        requires
            self.reed.field.order > 0,
            rows_within(matrix_rows(*a), matrix_rows(*b).len()),
            rows_within(matrix_rows(*b), u32::MAX as nat),
            rows_within(matrix_rows(*c), u32::MAX as nat),
            matrix_rows(*c).len() <= matrix_rows(*a).len(),
        ensures
            r == agree(
                row_fingerprints(self.reed.field.order, matrix_rows(*c), challenge),
                matrix_times(
                    self.reed.field.order,
                    matrix_rows(*a),
                    row_fingerprints(self.reed.field.order, matrix_rows(*b), challenge),
                ),
            ),
    {
        let ghost n = self.reed.field.order;
        let y = self.compute_y(c, challenge);
        let z = self.compute_z(a, b, challenge);
        let ghost ys = row_fingerprints(n, matrix_rows(*c), challenge);
        let ghost zs = matrix_times(
            n,
            matrix_rows(*a),
            row_fingerprints(n, matrix_rows(*b), challenge),
        );
        let len = y.len();
        let mut index: usize = 0;
        while index < len
            invariant
                ys == row_fingerprints(self.reed.field.order, matrix_rows(*c), challenge),
                zs == matrix_times(
                    self.reed.field.order,
                    matrix_rows(*a),
                    row_fingerprints(self.reed.field.order, matrix_rows(*b), challenge),
                ),
                len == ys.len(),
                len <= zs.len(),
                vector_items(y) == ys,
                vector_items(z) == zs,
                index <= len,
                forall|i: int| 0 <= i < index ==> ys[i] == zs[i],
            decreases len - index,
        {
            if y.at(index) != z.at(index) {
                assert(ys[index as int] != zs[index as int]);
                return false;
            }
            index = index + 1;
        }
        true
    }

    /// `y = C x`: the fingerprint of each row of `c`.
    pub fn compute_y(&self, c: &FieldMatrix, challenge: u32) -> (r: FieldVector)
        requires
            self.reed.field.order > 0,
            rows_within(matrix_rows(*c), u32::MAX as nat),
        ensures
            vector_items(r) == row_fingerprints(self.reed.field.order, matrix_rows(*c), challenge),
    {
        let ghost n = self.reed.field.order;
        let mut result: Vec<u32> = Vec::new();
        let len = c.nrows();
        let mut i: usize = 0;
        while i < len
            invariant
                n == self.reed.field.order,
                n > 0,
                rows_within(matrix_rows(*c), u32::MAX as nat),
                len == matrix_rows(*c).len(),
                i <= len,
                result@.len() == i,
                forall|j: int|
                    0 <= j < i ==> (#[trigger] result@[j]) == fingerprint(n, matrix_rows(*c)[j], challenge),
            decreases len - i,
        {
            let row = c.row(i);
            assert(matrix_rows(*c)[i as int].len() <= u32::MAX);
            result.push(self.reed.finger_print(&row, challenge));
            i = i + 1;
        }
        proof {
            assert(result@ =~= row_fingerprints(n, matrix_rows(*c), challenge));
        }
        FieldVector::from_vec(result)
    }

    /// `z = A (B x)`: the rows of `a` times the fingerprints of the rows of `b`.
    pub fn compute_z(
        &self,
        a: &FieldMatrix,
        b: &FieldMatrix,
        challenge: u32,
    ) -> (r: FieldVector)
        requires
            self.reed.field.order > 0,
            rows_within(matrix_rows(*a), matrix_rows(*b).len()),
            rows_within(matrix_rows(*b), u32::MAX as nat),
        ensures
            vector_items(r) == matrix_times(
                self.reed.field.order,
                matrix_rows(*a),
                row_fingerprints(self.reed.field.order, matrix_rows(*b), challenge),
            ),
    {
        let ghost n = self.reed.field.order;
        let b_mul_x = self.compute_y(b, challenge);
        let ghost x = row_fingerprints(n, matrix_rows(*b), challenge);
        let mut result: Vec<u32> = Vec::new();
        let len = a.nrows();
        let mut i: usize = 0;
        while i < len
            invariant
                n == self.reed.field.order,
                n > 0,
                rows_within(matrix_rows(*a), matrix_rows(*b).len()),
                vector_items(b_mul_x) == x,
                x.len() == matrix_rows(*b).len(),
                len == matrix_rows(*a).len(),
                i <= len,
                result@.len() == i,
                forall|j: int|
                    0 <= j < i ==> (#[trigger] result@[j]) == dot(
                        matrix_rows(*a)[j],
                        x,
                        matrix_rows(*a)[j].len() as int,
                    ) % (n as int),
            decreases len - i,
        {
            let row = a.row(i);
            assert(matrix_rows(*a)[i as int].len() <= matrix_rows(*b).len());
            result.push(self.reed.field.vector_dot(&row, &b_mul_x));
            i = i + 1;
        }
        proof {
            assert(result@ =~= matrix_times(n, matrix_rows(*a), x));
        }
        FieldVector::from_vec(result)
    }
}

} // verus!
