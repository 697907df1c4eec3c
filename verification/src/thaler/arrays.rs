use vstd::prelude::*;

verus! {

/// A vector of field elements, kept in a one-dimensional array of `ndarray`.
#[verifier::external_body]
pub struct FieldVector {
    items: ndarray::Array1<u32>,
}

/// A matrix of field elements, kept in a two-dimensional array of `ndarray`.
#[verifier::external_body]
pub struct FieldMatrix {
    rows: ndarray::Array2<u32>,
}

/// The elements of the vector, in the order of their indices.
pub uninterp spec fn vector_items(v: FieldVector) -> Seq<u32>;

/// The rows of the matrix, from the first to the last, each with its elements
/// in the order of their columns.
pub uninterp spec fn matrix_rows(m: FieldMatrix) -> Seq<Seq<u32>>;

/// `Array1::from_vec`: the array that holds the elements of the vector, in
/// their order.
#[verifier::external_body]
fn array_from_vec(v: Vec<u32>) -> (r: FieldVector)
    ensures
        vector_items(r) == v@,
{
    FieldVector { items: ndarray::Array1::from_vec(v) }
}

/// `ArrayBase::len` on an array of one dimension: the number of its elements.
#[verifier::external_body]
fn array_len(a: &FieldVector) -> (r: usize)
    ensures
        r == vector_items(*a).len(),
{
    a.items.len()
}

/// Indexing an array of one dimension: the element at place `i`, which must
/// be one of the array's places.
#[verifier::external_body]
fn array_at(a: &FieldVector, i: usize) -> (r: u32)
    requires
        i < vector_items(*a).len(),
    ensures
        r == vector_items(*a)[i as int],
{
    a.items[i]
}

/// The number of elements that `ndarray` holds a shape of two axes to: the
/// product of the lengths of its axes, an axis of length zero left out.
pub open spec fn shape_extent(rows: usize, cols: usize) -> int {
    (if rows == 0 {
        1int
    } else {
        rows as int
    }) * (if cols == 0 {
        1int
    } else {
        cols as int
    })
}

/// The shape `(rows, cols)` is one that `ndarray` makes an array of from a
/// vector of `len` elements: the vector has `rows * cols` elements, and the
/// extent of the shape is no more than `isize::MAX`.
pub open spec fn shape_fits(rows: usize, cols: usize, len: nat) -> bool {
    rows * cols == len && shape_extent(rows, cols) <= isize::MAX
}

/// `Array2::from_shape_vec` with the shape `(rows, cols)`: it gives an array
/// where the vector has `rows * cols` elements and the product of the axes
/// that are not zero is no more than `isize::MAX`, and an error otherwise;
/// the array holds the elements of the vector row after row.
#[verifier::external_body]
fn array_from_shape_vec(rows: usize, cols: usize, v: Vec<u32>) -> (r: Option<FieldMatrix>)
    ensures
        r is Some <==> shape_fits(rows, cols, v@.len()),
        r matches Some(m) ==> {
            &&& matrix_rows(m).len() == rows
            &&& forall|i: int|
                0 <= i < rows ==> (#[trigger] matrix_rows(m)[i]) == v@.subrange(i * cols, (i + 1) * cols)
        },
{
    match ndarray::Array2::from_shape_vec((rows, cols), v) {
        Ok(array) => Some(FieldMatrix { rows: array }),
        Err(_) => None,
    }
}

/// `ArrayBase::nrows` on an array of two dimensions: the number of its rows.
#[verifier::external_body]
fn array_nrows(a: &FieldMatrix) -> (r: usize)
    ensures
        r == matrix_rows(*a).len(),
{
    a.rows.nrows()
}

/// `ArrayBase::row`, made an array of its own by `to_owned`: row `i`, which
/// must be one of the rows.
#[verifier::external_body]
fn array_row(a: &FieldMatrix, i: usize) -> (r: FieldVector)
    requires
        i < matrix_rows(*a).len(),
    ensures
        vector_items(r) == matrix_rows(*a)[i as int],
{
    FieldVector { items: a.rows.row(i).to_owned() }
}

impl FieldVector {
    /// The vector of the given elements.
    pub fn from_vec(v: Vec<u32>) -> (r: FieldVector)
        ensures
            vector_items(r) == v@,
    {
        array_from_vec(v)
    }

    /// The number of elements.
    pub fn len(&self) -> (r: usize)
        ensures
            r == vector_items(*self).len(),
    {
        array_len(self)
    }

    /// The element at place `i`.
    pub fn at(&self, i: usize) -> (r: u32)
        requires
            i < vector_items(*self).len(),
        ensures
            r == vector_items(*self)[i as int],
    {
        array_at(self, i)
    }

    /// The elements, as a vector of their own.
    pub fn to_vec(&self) -> (r: Vec<u32>)
        ensures
            r@ == vector_items(*self),
    {
        let mut out: Vec<u32> = Vec::new();
        let len = self.len();
        let mut i: usize = 0;
        while i < len
            invariant
                len == vector_items(*self).len(),
                i <= len,
                out@ == vector_items(*self).take(i as int),
            decreases len - i,
        {
            out.push(self.at(i));
            proof {
                assert(out@ =~= vector_items(*self).take(i + 1));
            }
            i = i + 1;
        }
        proof {
            assert(out@ =~= vector_items(*self));
        }
        out
    }
}

impl FieldMatrix {
    /// The matrix of `rows` rows and `cols` columns that holds the elements
    /// row after row. There is one where the vector has `rows * cols`
    /// elements and the shape is none that `ndarray` refuses for its extent;
    /// there is none otherwise.
    pub fn from_shape_vec(rows: usize, cols: usize, v: Vec<u32>) -> (r: Option<FieldMatrix>)
        ensures
            r is Some <==> shape_fits(rows, cols, v@.len()),
            r matches Some(m) ==> {
                &&& matrix_rows(m).len() == rows
                &&& forall|i: int|
                    0 <= i < rows ==> (#[trigger] matrix_rows(m)[i]) == v@.subrange(
                        i * cols,
                        (i + 1) * cols,
                    )
            },
    {
        array_from_shape_vec(rows, cols, v)
    }

    /// The number of rows.
    pub fn nrows(&self) -> (r: usize)
        ensures
            r == matrix_rows(*self).len(),
    {
        array_nrows(self)
    }

    /// Row `i`.
    pub fn row(&self, i: usize) -> (r: FieldVector)
        requires
            i < matrix_rows(*self).len(),
        ensures
            vector_items(r) == matrix_rows(*self)[i as int],
    {
        array_row(self, i)
    }
}

} // verus!
