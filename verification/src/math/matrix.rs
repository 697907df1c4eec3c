use crate::error::PlonkError;
use crate::math::field::{
    congruent, finv, fmul, lemma_congruent_canonical, lemma_field_ops_canonical,
    lemma_field_ops_congruent, Field,
};
use vstd::arithmetic::div_mod::*;
use vstd::prelude::*;

verus! {

/// The rows of a matrix that is stored as a vector of vectors.
pub open spec fn rows(m: Seq<Vec<u32>>) -> Seq<Seq<u32>> {
    Seq::new(m.len(), |i: int| m[i]@)
}

/// The entry in row `i` and column `j`, as an integer.
pub open spec fn entry(m: Seq<Seq<u32>>, i: int, j: int) -> int {
    m[i][j] as int
}

/// The matrix has at least four rows of at least four entries each; only the
/// upper left four by four block is looked at.
pub open spec fn has_4x4(m: Seq<Seq<u32>>) -> bool {
    &&& m.len() >= 4
    &&& forall|i: int| 0 <= i < 4 ==> (#[trigger] m[i]).len() >= 4
}

/// The determinant of a three by three matrix, given row by row.
pub open spec fn det3(a: int, b: int, c: int, d: int, e: int, f: int, g: int, h: int, i: int) -> int {
    a * (e * i - f * h) - b * (d * i - f * g) + c * (d * h - e * g)
}

/// The `k`-th of the indices `0..4` that are left when `r` is taken out.
pub open spec fn skip(k: int, r: int) -> int {
    if k < r {
        k
    } else {
        k + 1
    }
}

/// The determinant of the block that is left of the four by four matrix when
/// row `r` and column `c` are struck out.
pub open spec fn minor(m: Seq<Seq<u32>>, r: int, c: int) -> int {
    det3(
        entry(m, skip(0, r), skip(0, c)),
        entry(m, skip(0, r), skip(1, c)),
        entry(m, skip(0, r), skip(2, c)),
        entry(m, skip(1, r), skip(0, c)),
        entry(m, skip(1, r), skip(1, c)),
        entry(m, skip(1, r), skip(2, c)),
        entry(m, skip(2, r), skip(0, c)),
        entry(m, skip(2, r), skip(1, c)),
        entry(m, skip(2, r), skip(2, c)),
    )
}

/// The minor with the sign of its place.
pub open spec fn cofactor(m: Seq<Seq<u32>>, r: int, c: int) -> int {
    if (r + c) % 2 == 0 {
        minor(m, r, c)
    } else {
        -minor(m, r, c)
    }
}

/// The expansion of the determinant along the first row, up to column `j`.
pub open spec fn expansion(m: Seq<Seq<u32>>, j: int) -> int
    decreases j,
{
    if j <= 0 {
        0
    } else {
        expansion(m, j - 1) + entry(m, 0, j - 1) * cofactor(m, 0, j - 1)
    }
}

/// The determinant of the four by four matrix, in the integers: the sum, along
/// the first row, of each entry times its cofactor.
pub open spec fn det4(m: Seq<Seq<u32>>) -> int {
    expansion(m, 4)
}

/// The determinant modulo `n`.
pub open spec fn det4_mod(n: u32, m: Seq<Seq<u32>>) -> u32 {
    (det4(m) % (n as int)) as u32
}

/// Entry `(i, j)` of the adjugate modulo `n`: the cofactor of place `(j, i)`.
pub open spec fn adj_entry(n: u32, m: Seq<Seq<u32>>, i: int, j: int) -> u32 {
    (cofactor(m, j, i) % (n as int)) as u32
}

/// The sum of `row_k * v_k` over `0 <= k < j`, in the integers.
pub open spec fn dot(row: Seq<u32>, v: Seq<u32>, j: int) -> int
    decreases j,
{
    if j <= 0 {
        0
    } else {
        dot(row, v, j - 1) + row[j - 1] * v[j - 1]
    }
}

/// `out` is the four by four matrix whose entry `(i, j)` is `f(i, j)`.
pub open spec fn is_matrix_of(out: Seq<Seq<u32>>, f: spec_fn(int, int) -> u32) -> bool {
    &&& out.len() == 4
    &&& forall|i: int| 0 <= i < 4 ==> (#[trigger] out[i]).len() == 4
    &&& forall|i: int, j: int| 0 <= i < 4 && 0 <= j < 4 ==> (#[trigger] out[i][j]) == f(i, j)
}

/// The inverse of the four by four matrix modulo `n`, given the inverse `dinv`
/// of its determinant: the adjugate times `dinv`.
pub open spec fn inverse_entry(n: u32, m: Seq<Seq<u32>>, dinv: u32, i: int, j: int) -> u32 {
    fmul(n, adj_entry(n, m, i, j), dinv)
}

/// The `k`-th of the indices `0..4` that are left when `r` is taken out.
fn skip_index(k: usize, r: usize) -> (s: usize)
    requires
        k < 3,
        r < 4,
    ensures
        s == skip(k as int, r as int),
        s < 4,
{
    if k < r {
        k
    } else {
        k + 1
    }
}

/// The cofactor of place `(r, c)` modulo the field's order.
fn cofactor_mod(m: &Vec<Vec<u32>>, r: usize, c: usize, field: &Field) -> (res: u32)
    requires
        has_4x4(rows(m@)),
        r < 4,
        c < 4,
        field.order > 0,
    ensures
        res == cofactor(rows(m@), r as int, c as int) % (field.order as int),
        res < field.order,
{
    let n = field.order;
    let ghost o = n as int;
    let r0 = skip_index(0, r);
    let r1 = skip_index(1, r);
    let r2 = skip_index(2, r);
    let c0 = skip_index(0, c);
    let c1 = skip_index(1, c);
    let c2 = skip_index(2, c);
    assert(rows(m@)[r0 as int].len() >= 4 && rows(m@)[r1 as int].len() >= 4 && rows(m@)[r2 as int].len()
        >= 4);
    let a = m[r0][c0];
    let b = m[r0][c1];
    let cc = m[r0][c2];
    let d = m[r1][c0];
    let e = m[r1][c1];
    let f = m[r1][c2];
    let g = m[r2][c0];
    let h = m[r2][c1];
    let i = m[r2][c2];
    let ei = field.multiply(e, i);
    let fh = field.multiply(f, h);
    let di = field.multiply(d, i);
    let fg = field.multiply(f, g);
    let dh = field.multiply(d, h);
    let eg = field.multiply(e, g);
    let x = field.subtract(ei, fh);
    let y = field.subtract(di, fg);
    let z = field.subtract(dh, eg);
    let ax = field.multiply(a, x);
    let by = field.multiply(b, y);
    let cz = field.multiply(cc, z);
    let s = field.subtract(ax, by);
    let t = field.add(s, cz);
    proof {
        lemma_field_ops_congruent(n, e, i, e as int, i as int);
        lemma_field_ops_congruent(n, f, h, f as int, h as int);
        lemma_field_ops_congruent(n, d, i, d as int, i as int);
        lemma_field_ops_congruent(n, f, g, f as int, g as int);
        lemma_field_ops_congruent(n, d, h, d as int, h as int);
        lemma_field_ops_congruent(n, e, g, e as int, g as int);
        lemma_field_ops_congruent(n, ei, fh, e * i, f * h);
        lemma_field_ops_congruent(n, di, fg, d * i, f * g);
        lemma_field_ops_congruent(n, dh, eg, d * h, e * g);
        lemma_field_ops_congruent(n, a, x, a as int, e * i - f * h);
        lemma_field_ops_congruent(n, b, y, b as int, d * i - f * g);
        lemma_field_ops_congruent(n, cc, z, cc as int, d * h - e * g);
        lemma_field_ops_congruent(n, ax, by, a * (e * i - f * h), b * (d * i - f * g));
        lemma_field_ops_congruent(
            n,
            s,
            cz,
            a * (e * i - f * h) - b * (d * i - f * g),
            cc * (d * h - e * g),
        );
        lemma_field_ops_congruent(n, t, t, minor(rows(m@), r as int, c as int), minor(rows(m@), r as int, c as int));
    }
    if (r + c) % 2 == 0 {
        proof {
            lemma_congruent_canonical(n, t, minor(rows(m@), r as int, c as int));
        }
        t
    } else {
        let neg = field.additive_inverse(t);
        proof {
            lemma_congruent_canonical(n, neg, -minor(rows(m@), r as int, c as int));
        }
        neg
    }
}

/// The determinant of a four by four matrix over the field.
pub fn get_matrix_determinant_4x4(m: &Vec<Vec<u32>>, field: &Field) -> (res: u32)
    requires
        has_4x4(rows(m@)),
        field.order > 0,
    ensures
        res == det4_mod(field.order, rows(m@)),
        res < field.order,
{
    let n = field.order;
    let ghost mm = rows(m@);
    let mut acc: u32 = 0;
    let mut j: usize = 0;
    while j < 4
        invariant
            has_4x4(mm),
            mm == rows(m@),
            n == field.order,
            n > 0,
            j <= 4,
            acc < n,
            congruent(acc as int, expansion(mm, j as int), n as int),
        decreases 4 - j,
    {
        let cof = cofactor_mod(m, 0, j, field);
        assert(mm[0].len() >= 4);
        let term = field.multiply(m[0][j], cof);
        proof {
            let e = entry(mm, 0, j as int);
            let c = cofactor(mm, 0, j as int);
            lemma_mod_twice(c, n as int);
            lemma_field_ops_congruent(n, m[0][j as int], cof, e, c);
            lemma_field_ops_congruent(n, acc, term, expansion(mm, j as int), e * c);
        }
        acc = field.add(acc, term);
        j = j + 1;
    }
    proof {
        lemma_congruent_canonical(n, acc, det4(mm));
    }
    acc
}

/// The adjugate of a four by four matrix over the field.
pub fn get_adjugate_matrix_4x4(m: &Vec<Vec<u32>>, field: &Field) -> (adj: Vec<Vec<u32>>)
    requires
        has_4x4(rows(m@)),
        field.order > 0,
    ensures
        is_matrix_of(rows(adj@), |i: int, j: int| adj_entry(field.order, rows(m@), i, j)),
{
    let n = field.order;
    let mut adj: Vec<Vec<u32>> = Vec::new();
    let mut i: usize = 0;
    while i < 4
        invariant
            has_4x4(rows(m@)),
            n == field.order,
            n > 0,
            i <= 4,
            adj@.len() == i,
            forall|a: int| 0 <= a < i ==> (#[trigger] adj@[a])@.len() == 4,
            forall|a: int, b: int|
                0 <= a < i && 0 <= b < 4 ==> (#[trigger] adj@[a]@[b]) == adj_entry(n, rows(m@), a, b),
        decreases 4 - i,
    {
        let mut row: Vec<u32> = Vec::new();
        let mut j: usize = 0;
        while j < 4
            invariant
                has_4x4(rows(m@)),
                n == field.order,
                n > 0,
                i < 4,
                j <= 4,
                row@.len() == j,
                forall|b: int| 0 <= b < j ==> (#[trigger] row@[b]) == adj_entry(n, rows(m@), i as int, b),
            decreases 4 - j,
        {
            row.push(cofactor_mod(m, j, i, field));
            j = j + 1;
        }
        adj.push(row);
        i = i + 1;
    }
    adj
}

/// The inverse of a four by four matrix over the field: its adjugate times the
/// inverse of its determinant. Fails where the determinant has no inverse.
pub fn get_inverse_matrix_4x4(m: &Vec<Vec<u32>>, field: &Field) -> (res: Result<
    Vec<Vec<u32>>,
    PlonkError,
>)
    requires
        has_4x4(rows(m@)),
        field.order > 0,
    ensures
        match res {
            Ok(inv) => {
                &&& finv(field.order, det4_mod(field.order, rows(m@))) is Ok
                &&& is_matrix_of(
                    rows(inv@),
                    |i: int, j: int|
                        inverse_entry(
                            field.order,
                            rows(m@),
                            finv(field.order, det4_mod(field.order, rows(m@))).unwrap(),
                            i,
                            j,
                        ),
                )
            },
            Err(e) => finv(field.order, det4_mod(field.order, rows(m@))) == Err::<u32, _>(e),
        },
{
    let n = field.order;
    let determinant = get_matrix_determinant_4x4(m, field);
    let determinant_inverse = match field.multiplicative_inverse(determinant) {
        Ok(i) => i,
        Err(e) => {
            return Err(e);
        },
    };
    let adj = get_adjugate_matrix_4x4(m, field);
    let mut inv: Vec<Vec<u32>> = Vec::new();
    let mut i: usize = 0;
    while i < 4
        invariant
            n == field.order,
            n > 0,
            is_matrix_of(rows(adj@), |i: int, j: int| adj_entry(n, rows(m@), i, j)),
            i <= 4,
            inv@.len() == i,
            forall|a: int| 0 <= a < i ==> (#[trigger] inv@[a])@.len() == 4,
            forall|a: int, b: int|
                0 <= a < i && 0 <= b < 4 ==> (#[trigger] inv@[a]@[b]) == fmul(
                    n,
                    adj_entry(n, rows(m@), a, b),
                    determinant_inverse,
                ),
        decreases 4 - i,
    {
        let mut row: Vec<u32> = Vec::new();
        let mut k: usize = 0;
        while k < 4
            invariant
                n == field.order,
                n > 0,
                is_matrix_of(rows(adj@), |i: int, j: int| adj_entry(n, rows(m@), i, j)),
                i < 4,
                k <= 4,
                row@.len() == k,
                forall|b: int|
                    0 <= b < k ==> (#[trigger] row@[b]) == fmul(
                        n,
                        adj_entry(n, rows(m@), i as int, b),
                        determinant_inverse,
                    ),
            decreases 4 - k,
        {
            assert(rows(adj@)[i as int].len() == 4);
            assert(rows(adj@)[i as int][k as int] == adj_entry(n, rows(m@), i as int, k as int));
            row.push(field.multiply(adj[i][k], determinant_inverse));
            k = k + 1;
        }
        inv.push(row);
        i = i + 1;
    }
    Ok(inv)
}

/// The product of a square matrix and a vector over the field.
pub fn matrix_multiply_4x4_1x4(m: &Vec<Vec<u32>>, v: &Vec<u32>, field: &Field) -> (res: Vec<u32>)
    requires
        m.len() == v.len(),
        forall|i: int| 0 <= i < m.len() ==> (#[trigger] m@[i])@.len() >= m.len(),
        field.order > 0,
    ensures
        res@.len() == v@.len(),
        forall|i: int|
            0 <= i < res@.len() ==> (#[trigger] res@[i]) == dot(m@[i]@, v@, v@.len() as int) % (
            field.order as int),
        forall|i: int| 0 <= i < res@.len() ==> (#[trigger] res@[i]) < field.order,
{
    let n = field.order;
    let mut res: Vec<u32> = Vec::new();
    let mut i: usize = 0;
    while i < v.len()
        invariant
            m.len() == v.len(),
            forall|i: int| 0 <= i < m.len() ==> (#[trigger] m@[i])@.len() >= m.len(),
            n == field.order,
            n > 0,
            i <= v.len(),
            res@.len() == i,
            forall|a: int|
                0 <= a < i ==> (#[trigger] res@[a]) == dot(m@[a]@, v@, v@.len() as int) % (n as int),
            forall|a: int| 0 <= a < i ==> (#[trigger] res@[a]) < n,
        decreases v.len() - i,
    {
        let mut ele: u32 = 0;
        let mut k: usize = 0;
        assert(m@[i as int]@.len() >= m.len());
        proof {
            lemma_small_mod(0, n as nat);
        }
        while k < m.len()
            invariant
                m.len() == v.len(),
                i < m.len(),
                m@[i as int]@.len() >= m.len(),
                n == field.order,
                n > 0,
                k <= m.len(),
                ele < n,
                ele == dot(m@[i as int]@, v@, k as int) % (n as int),
            decreases m.len() - k,
        {
            let term = field.multiply(v[k], m[i][k]);
            proof {
                let row = m@[i as int]@;
                lemma_field_ops_canonical(n, v[k as int], row[k as int], 0);
                lemma_field_ops_canonical(n, ele, term, 0);
                lemma_add_mod_noop(dot(row, v@, k as int), row[k as int] * v[k as int], n as int);
                assert(v[k as int] * row[k as int] == row[k as int] * v[k as int]) by (nonlinear_arith);
            }
            ele = field.add(ele, term);
            k = k + 1;
        }
        res.push(ele);
        i = i + 1;
    }
    res
}

} // verus!
