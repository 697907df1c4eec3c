use crate::math::field::{
    congruent, is_inverse, lemma_congruent_ops, lemma_field_ops_canonical,
    lemma_field_ops_congruent,
};
use crate::math::matrix::{
    adj_entry, cofactor, det3, det4, det4_mod, entry, expansion, has_4x4, inverse_entry, minor, skip,
};
use vstd::arithmetic::div_mod::*;
use vstd::prelude::*;

verus! {

/// The product of four integers, bracketed from the left.
pub open spec fn mono(w: int, x: int, y: int, z: int) -> int {
    w * x * y * z
}

/// A factor can stand at any of the four places of a product.
pub proof fn lemma_mono_places(x: int, p: int, q: int, r: int)
    ensures
        x * (p * q * r) == mono(x, p, q, r),
        mono(p, x, q, r) == mono(x, p, q, r),
        mono(p, q, x, r) == mono(x, p, q, r),
        mono(p, q, r, x) == mono(x, p, q, r),
{
    assert(x * (p * q * r) == x * p * q * r) by (nonlinear_arith);
    assert(p * x * q * r == x * p * q * r) by (nonlinear_arith);
    assert(p * q * x * r == x * p * q * r) by (nonlinear_arith);
    assert(p * q * r * x == x * p * q * r) by (nonlinear_arith);
}

/// The determinant of three rows as the sum of its six signed products.
pub proof fn lemma_det3_products(a: int, b: int, c: int, d: int, e: int, f: int, g: int, h: int, i: int)
    ensures
        det3(a, b, c, d, e, f, g, h, i) == a * e * i - a * f * h - b * d * i + b * f * g + c * d * h - c * e
            * g,
{
    assert(a * (e * i - f * h) == a * e * i - a * f * h) by (nonlinear_arith);
    assert(b * (d * i - f * g) == b * d * i - b * f * g) by (nonlinear_arith);
    assert(c * (d * h - e * g) == c * d * h - c * e * g) by (nonlinear_arith);
}

/// An integer times the determinant of three rows, as six signed products of
/// four factors; the integer may stand at any one place in all of them.
pub proof fn lemma_times_det3(
    x: int,
    a: int,
    b: int,
    c: int,
    d: int,
    e: int,
    f: int,
    g: int,
    h: int,
    i: int,
)
    ensures
        x * det3(a, b, c, d, e, f, g, h, i) == mono(x, a, e, i) - mono(x, a, f, h) - mono(x, b, d, i) + mono(
            x,
            b,
            f,
            g,
        ) + mono(x, c, d, h) - mono(x, c, e, g),
        x * det3(a, b, c, d, e, f, g, h, i) == mono(a, x, e, i) - mono(a, x, f, h) - mono(b, x, d, i) + mono(
            b,
            x,
            f,
            g,
        ) + mono(c, x, d, h) - mono(c, x, e, g),
        x * det3(a, b, c, d, e, f, g, h, i) == mono(a, e, x, i) - mono(a, f, x, h) - mono(b, d, x, i) + mono(
            b,
            f,
            x,
            g,
        ) + mono(c, d, x, h) - mono(c, e, x, g),
        x * det3(a, b, c, d, e, f, g, h, i) == mono(a, e, i, x) - mono(a, f, h, x) - mono(b, d, i, x) + mono(
            b,
            f,
            g,
            x,
        ) + mono(c, d, h, x) - mono(c, e, g, x),
{
    lemma_det3_products(a, b, c, d, e, f, g, h, i);
    let (t1, t2, t3, t4, t5, t6) = (a * e * i, a * f * h, b * d * i, b * f * g, c * d * h, c * e * g);
    assert(x * (t1 - t2 - t3 + t4 + t5 - t6) == x * t1 - x * t2 - x * t3 + x * t4 + x * t5 - x * t6)
        by (nonlinear_arith);
    lemma_mono_places(x, a, e, i);
    lemma_mono_places(x, a, f, h);
    lemma_mono_places(x, b, d, i);
    lemma_mono_places(x, b, f, g);
    lemma_mono_places(x, c, d, h);
    lemma_mono_places(x, c, e, g);
}

/// A determinant of three rows of which two are equal is zero.
pub proof fn lemma_det3_equal_rows(a: int, b: int, c: int, d: int, e: int, f: int, g: int, h: int, i: int)
    requires
        (a == d && b == e && c == f) || (a == g && b == h && c == i) || (d == g && e == h && f == i),
    ensures
        det3(a, b, c, d, e, f, g, h, i) == 0,
{
    lemma_det3_products(a, b, c, d, e, f, g, h, i);
    assert(a * e * i == i * e * a && a * f * h == h * f * a && b * d * i == i * d * b && b * f * g == g * f
        * b && c * d * h == h * d * c && c * e * g == g * e * c) by (nonlinear_arith);
    assert(a * e * i == e * a * i && a * f * h == f * a * h && b * d * i == d * b * i && b * f * g == f * b
        * g && c * d * h == d * c * h && c * e * g == e * c * g) by (nonlinear_arith);
    assert(a * e * i == a * i * e && a * f * h == a * h * f && b * d * i == b * i * d && b * f * g == b * g
        * f && c * d * h == c * h * d && c * e * g == c * g * e) by (nonlinear_arith);
}

/// The determinant as the signed sum, over the ways to pick one entry from
/// each row with no two in one column, of the products of the entries picked.
pub open spec fn leibniz(m: Seq<Seq<u32>>) -> int {
    mono(entry(m, 0, 0), entry(m, 1, 1), entry(m, 2, 2), entry(m, 3, 3)) - mono(entry(m, 0, 0), entry(m, 1, 1), entry(m, 2, 3), entry(m, 3, 2)) - mono(entry(m, 0, 0), entry(m, 1, 2), entry(m, 2, 1), entry(m, 3, 3)) + mono(entry(m, 0, 0), entry(m, 1, 2), entry(m, 2, 3), entry(m, 3, 1)) + mono(entry(m, 0, 0), entry(m, 1, 3), entry(m, 2, 1), entry(m, 3, 2)) - mono(entry(m, 0, 0), entry(m, 1, 3), entry(m, 2, 2), entry(m, 3, 1)) - mono(entry(m, 0, 1), entry(m, 1, 0), entry(m, 2, 2), entry(m, 3, 3)) + mono(entry(m, 0, 1), entry(m, 1, 0), entry(m, 2, 3), entry(m, 3, 2)) + mono(entry(m, 0, 1), entry(m, 1, 2), entry(m, 2, 0), entry(m, 3, 3)) - mono(entry(m, 0, 1), entry(m, 1, 2), entry(m, 2, 3), entry(m, 3, 0)) - mono(entry(m, 0, 1), entry(m, 1, 3), entry(m, 2, 0), entry(m, 3, 2)) + mono(entry(m, 0, 1), entry(m, 1, 3), entry(m, 2, 2), entry(m, 3, 0)) + mono(entry(m, 0, 2), entry(m, 1, 0), entry(m, 2, 1), entry(m, 3, 3)) - mono(entry(m, 0, 2), entry(m, 1, 0), entry(m, 2, 3), entry(m, 3, 1)) - mono(entry(m, 0, 2), entry(m, 1, 1), entry(m, 2, 0), entry(m, 3, 3)) + mono(entry(m, 0, 2), entry(m, 1, 1), entry(m, 2, 3), entry(m, 3, 0)) + mono(entry(m, 0, 2), entry(m, 1, 3), entry(m, 2, 0), entry(m, 3, 1)) - mono(entry(m, 0, 2), entry(m, 1, 3), entry(m, 2, 1), entry(m, 3, 0)) - mono(entry(m, 0, 3), entry(m, 1, 0), entry(m, 2, 1), entry(m, 3, 2)) + mono(entry(m, 0, 3), entry(m, 1, 0), entry(m, 2, 2), entry(m, 3, 1)) + mono(entry(m, 0, 3), entry(m, 1, 1), entry(m, 2, 0), entry(m, 3, 2)) - mono(entry(m, 0, 3), entry(m, 1, 1), entry(m, 2, 2), entry(m, 3, 0)) - mono(entry(m, 0, 3), entry(m, 1, 2), entry(m, 2, 0), entry(m, 3, 1)) + mono(entry(m, 0, 3), entry(m, 1, 2), entry(m, 2, 1), entry(m, 3, 0))
}

/// The sum, along row `i`, of each entry times the cofactor of its column in
/// row `k`.
pub open spec fn row_times_cofactors(m: Seq<Seq<u32>>, i: int, k: int) -> int {
    entry(m, i, 0) * cofactor(m, k, 0) + entry(m, i, 1) * cofactor(m, k, 1) + entry(m, i, 2) * cofactor(
        m,
        k,
        2,
    ) + entry(m, i, 3) * cofactor(m, k, 3)
}

/// An entry times the cofactor of its own place, as six signed products: the
/// entry times the determinant of the rows and columns that are left, with
/// the sign of the place.
proof fn lemma_entry_times_cofactor(m: Seq<Seq<u32>>, k: int, j: int)
    requires
        0 <= k < 4,
        0 <= j < 4,
    ensures
        entry(m, k, j) * cofactor(m, k, j) == (if (k + j) % 2 == 0 {
            entry(m, k, j) * minor(m, k, j)
        } else {
            -(entry(m, k, j) * minor(m, k, j))
        }),
{
    let x = entry(m, k, j);
    let d = minor(m, k, j);
    assert(x * (-d) == -(x * d)) by (nonlinear_arith);
}

/// The expansion along any row is the signed sum of products.
pub proof fn lemma_row_products(m: Seq<Seq<u32>>, k: int)
    requires
        0 <= k < 4,
    ensures
        row_times_cofactors(m, k, k) == leibniz(m),
{
    if k == 0 {
        lemma_entry_times_cofactor(m, 0, 0);
        lemma_times_det3(
            entry(m, 0, 0),
            entry(m, 1, 1),
            entry(m, 1, 2),
            entry(m, 1, 3),
            entry(m, 2, 1),
            entry(m, 2, 2),
            entry(m, 2, 3),
            entry(m, 3, 1),
            entry(m, 3, 2),
            entry(m, 3, 3),
        );
        lemma_entry_times_cofactor(m, 0, 1);
        lemma_times_det3(
            entry(m, 0, 1),
            entry(m, 1, 0),
            entry(m, 1, 2),
            entry(m, 1, 3),
            entry(m, 2, 0),
            entry(m, 2, 2),
            entry(m, 2, 3),
            entry(m, 3, 0),
            entry(m, 3, 2),
            entry(m, 3, 3),
        );
        lemma_entry_times_cofactor(m, 0, 2);
        lemma_times_det3(
            entry(m, 0, 2),
            entry(m, 1, 0),
            entry(m, 1, 1),
            entry(m, 1, 3),
            entry(m, 2, 0),
            entry(m, 2, 1),
            entry(m, 2, 3),
            entry(m, 3, 0),
            entry(m, 3, 1),
            entry(m, 3, 3),
        );
        lemma_entry_times_cofactor(m, 0, 3);
        lemma_times_det3(
            entry(m, 0, 3),
            entry(m, 1, 0),
            entry(m, 1, 1),
            entry(m, 1, 2),
            entry(m, 2, 0),
            entry(m, 2, 1),
            entry(m, 2, 2),
            entry(m, 3, 0),
            entry(m, 3, 1),
            entry(m, 3, 2),
        );
    } else if k == 1 {
        lemma_entry_times_cofactor(m, 1, 0);
        lemma_times_det3(
            entry(m, 1, 0),
            entry(m, 0, 1),
            entry(m, 0, 2),
            entry(m, 0, 3),
            entry(m, 2, 1),
            entry(m, 2, 2),
            entry(m, 2, 3),
            entry(m, 3, 1),
            entry(m, 3, 2),
            entry(m, 3, 3),
        );
        lemma_entry_times_cofactor(m, 1, 1);
        lemma_times_det3(
            entry(m, 1, 1),
            entry(m, 0, 0),
            entry(m, 0, 2),
            entry(m, 0, 3),
            entry(m, 2, 0),
            entry(m, 2, 2),
            entry(m, 2, 3),
            entry(m, 3, 0),
            entry(m, 3, 2),
            entry(m, 3, 3),
        );
        lemma_entry_times_cofactor(m, 1, 2);
        lemma_times_det3(
            entry(m, 1, 2),
            entry(m, 0, 0),
            entry(m, 0, 1),
            entry(m, 0, 3),
            entry(m, 2, 0),
            entry(m, 2, 1),
            entry(m, 2, 3),
            entry(m, 3, 0),
            entry(m, 3, 1),
            entry(m, 3, 3),
        );
        lemma_entry_times_cofactor(m, 1, 3);
        lemma_times_det3(
            entry(m, 1, 3),
            entry(m, 0, 0),
            entry(m, 0, 1),
            entry(m, 0, 2),
            entry(m, 2, 0),
            entry(m, 2, 1),
            entry(m, 2, 2),
            entry(m, 3, 0),
            entry(m, 3, 1),
            entry(m, 3, 2),
        );
    } else if k == 2 {
        lemma_entry_times_cofactor(m, 2, 0);
        lemma_times_det3(
            entry(m, 2, 0),
            entry(m, 0, 1),
            entry(m, 0, 2),
            entry(m, 0, 3),
            entry(m, 1, 1),
            entry(m, 1, 2),
            entry(m, 1, 3),
            entry(m, 3, 1),
            entry(m, 3, 2),
            entry(m, 3, 3),
        );
        lemma_entry_times_cofactor(m, 2, 1);
        lemma_times_det3(
            entry(m, 2, 1),
            entry(m, 0, 0),
            entry(m, 0, 2),
            entry(m, 0, 3),
            entry(m, 1, 0),
            entry(m, 1, 2),
            entry(m, 1, 3),
            entry(m, 3, 0),
            entry(m, 3, 2),
            entry(m, 3, 3),
        );
        lemma_entry_times_cofactor(m, 2, 2);
        lemma_times_det3(
            entry(m, 2, 2),
            entry(m, 0, 0),
            entry(m, 0, 1),
            entry(m, 0, 3),
            entry(m, 1, 0),
            entry(m, 1, 1),
            entry(m, 1, 3),
            entry(m, 3, 0),
            entry(m, 3, 1),
            entry(m, 3, 3),
        );
        lemma_entry_times_cofactor(m, 2, 3);
        lemma_times_det3(
            entry(m, 2, 3),
            entry(m, 0, 0),
            entry(m, 0, 1),
            entry(m, 0, 2),
            entry(m, 1, 0),
            entry(m, 1, 1),
            entry(m, 1, 2),
            entry(m, 3, 0),
            entry(m, 3, 1),
            entry(m, 3, 2),
        );
    } else {
        lemma_entry_times_cofactor(m, 3, 0);
        lemma_times_det3(
            entry(m, 3, 0),
            entry(m, 0, 1),
            entry(m, 0, 2),
            entry(m, 0, 3),
            entry(m, 1, 1),
            entry(m, 1, 2),
            entry(m, 1, 3),
            entry(m, 2, 1),
            entry(m, 2, 2),
            entry(m, 2, 3),
        );
        lemma_entry_times_cofactor(m, 3, 1);
        lemma_times_det3(
            entry(m, 3, 1),
            entry(m, 0, 0),
            entry(m, 0, 2),
            entry(m, 0, 3),
            entry(m, 1, 0),
            entry(m, 1, 2),
            entry(m, 1, 3),
            entry(m, 2, 0),
            entry(m, 2, 2),
            entry(m, 2, 3),
        );
        lemma_entry_times_cofactor(m, 3, 2);
        lemma_times_det3(
            entry(m, 3, 2),
            entry(m, 0, 0),
            entry(m, 0, 1),
            entry(m, 0, 3),
            entry(m, 1, 0),
            entry(m, 1, 1),
            entry(m, 1, 3),
            entry(m, 2, 0),
            entry(m, 2, 1),
            entry(m, 2, 3),
        );
        lemma_entry_times_cofactor(m, 3, 3);
        lemma_times_det3(
            entry(m, 3, 3),
            entry(m, 0, 0),
            entry(m, 0, 1),
            entry(m, 0, 2),
            entry(m, 1, 0),
            entry(m, 1, 1),
            entry(m, 1, 2),
            entry(m, 2, 0),
            entry(m, 2, 1),
            entry(m, 2, 2),
        );
    }
}

/// The expansion along any row is the determinant.
pub proof fn lemma_expansion_along(m: Seq<Seq<u32>>, k: int)
    requires
        0 <= k < 4,
    ensures
        row_times_cofactors(m, k, k) == det4(m),
{
    reveal_with_fuel(expansion, 5);
    lemma_row_products(m, k);
    lemma_row_products(m, 0);
}

/// A matrix with two equal rows has the determinant zero.
pub proof fn lemma_equal_rows(m: Seq<Seq<u32>>, i: int, k: int)
    requires
        0 <= i < 4,
        0 <= k < 4,
        i != k,
        forall|j: int| 0 <= j < 4 ==> entry(m, i, j) == entry(m, k, j),
    ensures
        det4(m) == 0,
{
    assert(entry(m, i, 0) == entry(m, k, 0) && entry(m, i, 1) == entry(m, k, 1) && entry(m, i, 2) == entry(
        m,
        k,
        2,
    ) && entry(m, i, 3) == entry(m, k, 3));
    // expand along a row that is neither of the two: all its cofactors vanish
    if i != 0 && k != 0 {
        lemma_expansion_along(m, 0);
        lemma_det3_equal_rows(
            entry(m, 1, 1),
            entry(m, 1, 2),
            entry(m, 1, 3),
            entry(m, 2, 1),
            entry(m, 2, 2),
            entry(m, 2, 3),
            entry(m, 3, 1),
            entry(m, 3, 2),
            entry(m, 3, 3),
        );
        lemma_det3_equal_rows(
            entry(m, 1, 0),
            entry(m, 1, 2),
            entry(m, 1, 3),
            entry(m, 2, 0),
            entry(m, 2, 2),
            entry(m, 2, 3),
            entry(m, 3, 0),
            entry(m, 3, 2),
            entry(m, 3, 3),
        );
        lemma_det3_equal_rows(
            entry(m, 1, 0),
            entry(m, 1, 1),
            entry(m, 1, 3),
            entry(m, 2, 0),
            entry(m, 2, 1),
            entry(m, 2, 3),
            entry(m, 3, 0),
            entry(m, 3, 1),
            entry(m, 3, 3),
        );
        lemma_det3_equal_rows(
            entry(m, 1, 0),
            entry(m, 1, 1),
            entry(m, 1, 2),
            entry(m, 2, 0),
            entry(m, 2, 1),
            entry(m, 2, 2),
            entry(m, 3, 0),
            entry(m, 3, 1),
            entry(m, 3, 2),
        );
        lemma_zero_cofactors(m, 0);
    } else if i != 1 && k != 1 {
        lemma_expansion_along(m, 1);
        lemma_det3_equal_rows(
            entry(m, 0, 1),
            entry(m, 0, 2),
            entry(m, 0, 3),
            entry(m, 2, 1),
            entry(m, 2, 2),
            entry(m, 2, 3),
            entry(m, 3, 1),
            entry(m, 3, 2),
            entry(m, 3, 3),
        );
        lemma_det3_equal_rows(
            entry(m, 0, 0),
            entry(m, 0, 2),
            entry(m, 0, 3),
            entry(m, 2, 0),
            entry(m, 2, 2),
            entry(m, 2, 3),
            entry(m, 3, 0),
            entry(m, 3, 2),
            entry(m, 3, 3),
        );
        lemma_det3_equal_rows(
            entry(m, 0, 0),
            entry(m, 0, 1),
            entry(m, 0, 3),
            entry(m, 2, 0),
            entry(m, 2, 1),
            entry(m, 2, 3),
            entry(m, 3, 0),
            entry(m, 3, 1),
            entry(m, 3, 3),
        );
        lemma_det3_equal_rows(
            entry(m, 0, 0),
            entry(m, 0, 1),
            entry(m, 0, 2),
            entry(m, 2, 0),
            entry(m, 2, 1),
            entry(m, 2, 2),
            entry(m, 3, 0),
            entry(m, 3, 1),
            entry(m, 3, 2),
        );
        lemma_zero_cofactors(m, 1);
    } else {
        lemma_expansion_along(m, 2);
        lemma_det3_equal_rows(
            entry(m, 0, 1),
            entry(m, 0, 2),
            entry(m, 0, 3),
            entry(m, 1, 1),
            entry(m, 1, 2),
            entry(m, 1, 3),
            entry(m, 3, 1),
            entry(m, 3, 2),
            entry(m, 3, 3),
        );
        lemma_det3_equal_rows(
            entry(m, 0, 0),
            entry(m, 0, 2),
            entry(m, 0, 3),
            entry(m, 1, 0),
            entry(m, 1, 2),
            entry(m, 1, 3),
            entry(m, 3, 0),
            entry(m, 3, 2),
            entry(m, 3, 3),
        );
        lemma_det3_equal_rows(
            entry(m, 0, 0),
            entry(m, 0, 1),
            entry(m, 0, 3),
            entry(m, 1, 0),
            entry(m, 1, 1),
            entry(m, 1, 3),
            entry(m, 3, 0),
            entry(m, 3, 1),
            entry(m, 3, 3),
        );
        lemma_det3_equal_rows(
            entry(m, 0, 0),
            entry(m, 0, 1),
            entry(m, 0, 2),
            entry(m, 1, 0),
            entry(m, 1, 1),
            entry(m, 1, 2),
            entry(m, 3, 0),
            entry(m, 3, 1),
            entry(m, 3, 2),
        );
        lemma_zero_cofactors(m, 2);
    }
}

/// A row whose cofactors all vanish expands to zero.
proof fn lemma_zero_cofactors(m: Seq<Seq<u32>>, r: int)
    requires
        minor(m, r, 0) == 0,
        minor(m, r, 1) == 0,
        minor(m, r, 2) == 0,
        minor(m, r, 3) == 0,
    ensures
        row_times_cofactors(m, r, r) == 0,
{
    assert(entry(m, r, 0) * 0 == 0 && entry(m, r, 1) * 0 == 0 && entry(m, r, 2) * 0 == 0 && entry(m, r, 3)
        * 0 == 0);
}

/// The entries of a row times the cofactors of a row: the determinant where
/// the two rows are the same row, and zero where they are not.
pub proof fn law_rows_times_cofactors(m: Seq<Seq<u32>>, i: int, k: int)
    requires
        has_4x4(m),
        0 <= i < 4,
        0 <= k < 4,
    ensures
        row_times_cofactors(m, i, k) == (if i == k {
            det4(m)
        } else {
            0
        }),
{
    if i == k {
        lemma_expansion_along(m, k);
    } else {
        // the matrix with row k replaced by row i has the same cofactors in row k
        let r = m.update(k, m[i]);
        assert forall|j: int| 0 <= j < 4 implies entry(r, i, j) == entry(r, k, j) by {}
        lemma_equal_rows(r, i, k);
        lemma_expansion_along(r, k);
        assert forall|j: int| 0 <= j < 4 implies #[trigger] cofactor(r, k, j) == cofactor(m, k, j) by {
            assert(forall|a: int| 0 <= a < 3 ==> r[#[trigger] skip(a, k)] == m[skip(a, k)]);
        }
        assert(entry(r, k, 0) == entry(m, i, 0) && entry(r, k, 1) == entry(m, i, 1) && entry(r, k, 2)
            == entry(m, i, 2) && entry(r, k, 3) == entry(m, i, 3));
    }
}

/// The sum, along row `i` of the matrix, of each entry times the entry of its
/// column's row in column `k` of the inverse: entry `(i, k)` of the matrix
/// times its inverse, in the integers.
pub open spec fn row_times_inverse(n: u32, m: Seq<Seq<u32>>, dinv: u32, i: int, k: int) -> int {
    entry(m, i, 0) * inverse_entry(n, m, dinv, 0, k) + entry(m, i, 1) * inverse_entry(n, m, dinv, 1, k)
        + entry(m, i, 2) * inverse_entry(n, m, dinv, 2, k) + entry(m, i, 3) * inverse_entry(
        n,
        m,
        dinv,
        3,
        k,
    )
}

/// One entry of the inverse stands for a cofactor times the inverse of the
/// determinant, and so does its product with an entry of the matrix.
proof fn lemma_inverse_entry_congruent(n: u32, m: Seq<Seq<u32>>, dinv: u32, e: int, j: int, k: int)
    requires
        n > 0,
    ensures
        congruent(e * inverse_entry(n, m, dinv, j, k), e * (cofactor(m, k, j) * dinv), n as int),
{
    let o = n as int;
    let cof = cofactor(m, k, j);
    let adj = adj_entry(n, m, j, k);
    lemma_mod_bound(cof, o);
    lemma_mod_twice(cof, o);
    lemma_field_ops_congruent(n, adj, dinv, cof, dinv as int);
    lemma_congruent_ops(e, e, inverse_entry(n, m, dinv, j, k) as int, cof * dinv, o);
}

/// A matrix times its inverse is the identity: entry `(i, k)` of the product
/// is congruent to 1 on the diagonal and to 0 off it.
pub proof fn law_matrix_times_inverse(n: u32, m: Seq<Seq<u32>>, dinv: u32, i: int, k: int)
    requires
        n > 0,
        has_4x4(m),
        is_inverse(n, det4_mod(n, m), dinv),
        0 <= i < 4,
        0 <= k < 4,
    ensures
        congruent(
            row_times_inverse(n, m, dinv, i, k),
            if i == k {
                1
            } else {
                0
            },
            n as int,
        ),
{
    let o = n as int;
    let d = dinv as int;
    let (e0, e1, e2, e3) = (entry(m, i, 0), entry(m, i, 1), entry(m, i, 2), entry(m, i, 3));
    let (c0, c1, c2, c3) = (cofactor(m, k, 0), cofactor(m, k, 1), cofactor(m, k, 2), cofactor(m, k, 3));
    lemma_inverse_entry_congruent(n, m, dinv, e0, 0, k);
    lemma_inverse_entry_congruent(n, m, dinv, e1, 1, k);
    lemma_inverse_entry_congruent(n, m, dinv, e2, 2, k);
    lemma_inverse_entry_congruent(n, m, dinv, e3, 3, k);
    let (t0, t1, t2, t3) = (
        e0 * inverse_entry(n, m, dinv, 0, k),
        e1 * inverse_entry(n, m, dinv, 1, k),
        e2 * inverse_entry(n, m, dinv, 2, k),
        e3 * inverse_entry(n, m, dinv, 3, k),
    );
    let (s0, s1, s2, s3) = (e0 * (c0 * d), e1 * (c1 * d), e2 * (c2 * d), e3 * (c3 * d));
    lemma_congruent_ops(t0, s0, t1, s1, o);
    lemma_congruent_ops(t0 + t1, s0 + s1, t2, s2, o);
    lemma_congruent_ops(t0 + t1 + t2, s0 + s1 + s2, t3, s3, o);
    // the cofactors' sum times the inverse of the determinant
    let sum = e0 * c0 + e1 * c1 + e2 * c2 + e3 * c3;
    let (p0, p1, p2, p3) = (e0 * c0, e1 * c1, e2 * c2, e3 * c3);
    assert(e0 * (c0 * d) == d * (e0 * c0)) by (nonlinear_arith);
    assert(e1 * (c1 * d) == d * (e1 * c1)) by (nonlinear_arith);
    assert(e2 * (c2 * d) == d * (e2 * c2)) by (nonlinear_arith);
    assert(e3 * (c3 * d) == d * (e3 * c3)) by (nonlinear_arith);
    assert(d * (p0 + p1 + p2 + p3) == d * p0 + d * p1 + d * p2 + d * p3) by (nonlinear_arith);
    assert(s0 + s1 + s2 + s3 == d * sum);
    law_rows_times_cofactors(m, i, k);
    assert(sum == row_times_cofactors(m, i, k));
    if i == k {
        let det = det4(m);
        lemma_mod_bound(det, o);
        lemma_field_ops_canonical(n, dinv, det4_mod(n, m), 0);
        lemma_mul_mod_noop_right(d, det, o);
        assert((d * det) % o == 1);
        lemma_small_mod(1, n as nat);
    } else {
        assert(d * 0 == 0);
    }
}

} // verus!
