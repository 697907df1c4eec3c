use crate::math::ecc::{CurvePoint, ExtensionCurvePoint, ECC};
use crate::math::field::Field;
use crate::protocol::public_coin::PublicCoin;
use crate::protocol::structured_reference_string::SRS;
use vstd::prelude::*;

verus! {

/// The field of the worked example: the integers modulo 17.
pub fn field_17() -> (r: Field)
    ensures
        r.order == 17,
{
    Field { order: 17 }
}

/// The reference string of the worked example, before its points are
/// generated: the curve modulo 101, the generator `(1, 2)` and the twisted
/// generator `(36, 31 u)`, the scalar 2 and degree 4.
pub fn srs_by_hand() -> (r: SRS)
    ensures
        r.g_1 == (CurvePoint { x: 1, y: 2 }),
        r.g_2 == (ExtensionCurvePoint { x: 36, y: 31, u: true }),
        r.g_1_points@.len() == 0,
        r.g_2_points@.len() == 0,
        r.degree == 4,
        r.s == 2,
        r.scalar_field.order == 17,
        r.ecc.field.order == 101,
{
    SRS {
        g_1: CurvePoint { x: 1, y: 2 },
        g_2: ExtensionCurvePoint { x: 36, y: 31, u: true },
        g_1_points: Vec::new(),
        g_2_points: Vec::new(),
        degree: 4,
        s: 2,
        scalar_field: Field { order: 17 },
        ecc: ECC { field: Field { order: 101 } },
    }
}

/// The coins of the worked example.
pub fn pub_coin() -> (r: PublicCoin)
    ensures
        r == (PublicCoin {
            b1: 7,
            b2: 4,
            b3: 11,
            b4: 12,
            b5: 16,
            b6: 2,
            b7: 14,
            b8: 11,
            b9: 7,
            alpha: 15,
            beta: 12,
            gamma: 13,
            zed: 5,
            v: 12,
            u: 4,
        }),
{
    PublicCoin {
        b1: 7,
        b2: 4,
        b3: 11,
        b4: 12,
        b5: 16,
        b6: 2,
        b7: 14,
        b8: 11,
        b9: 7,
        alpha: 15,
        beta: 12,
        gamma: 13,
        zed: 5,
        v: 12,
        u: 4,
    }
}

} // verus!
