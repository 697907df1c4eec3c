use plonk_by_hand::math::ecc::{CurvePoint, ExtensionCurvePoint, ECC};
use plonk_by_hand::math::field::Field;

#[test]
fn test_multiply() {
    let ecc = ECC {
        field: Field { order: 101 },
    };

    let p1 = CurvePoint { x: 1, y: 2 };
    let expected_product1 = CurvePoint { x: 68, y: 74 };
    assert!(CurvePoint::equals(
        &ecc.double(&p1).unwrap(),
        &expected_product1
    ));
    assert!(CurvePoint::equals(
        &ecc.add(&p1, &p1).unwrap(),
        &expected_product1
    ));
    assert!(CurvePoint::equals(
        &ecc.multiply(2, &p1).unwrap(),
        &expected_product1
    ));

    let expected_product2 = CurvePoint { x: 1, y: 99 };
    assert!(CurvePoint::equals(
        &ecc.multiply(16, &p1).unwrap(),
        &expected_product2
    ));
}

#[test]
fn test_extension_double() {
    let ecc = ECC {
        field: Field { order: 101 },
    };

    let g2 = ExtensionCurvePoint::new(36, 31, true);
    let doubled = ecc.double_extension(&g2).unwrap();
    let expected = ExtensionCurvePoint::new(90, 82, true);
    assert!(ExtensionCurvePoint::equals(&expected, &doubled));
}

#[test]
fn test_line_through_points() {
    let ecc = ECC {
        field: Field { order: 101 },
    };

    let (x, y, constant) =
        ecc.get_line_between_points(&CurvePoint::new(1, 2), &CurvePoint::new(68, 27));

    assert_eq!(x, 25);
    assert_eq!(y, 34);
    assert_eq!(constant, 8);

    let (x, y, constant) =
        ecc.get_line_between_points(&CurvePoint::new(68, 74), &CurvePoint::new(65, 3));

    assert_eq!(x, 30);
    assert_eq!(y, 3);
    assert_eq!(constant, 61);

    let (x, y, constant) =
        ecc.get_line_between_points(&CurvePoint::new(65, 98), &CurvePoint::new(18, 52));

    assert_eq!(x, 55);
    assert_eq!(y, 47);
    assert_eq!(constant, 0);

    let (x, y, constant) =
        ecc.get_line_between_points(&CurvePoint::new(18, 49), &CurvePoint::new(1, 2));

    assert_eq!(x, 54);
    assert_eq!(y, 17);
    assert_eq!(constant, 13);

    let (x, y, constant) =
        ecc.get_line_between_points(&CurvePoint::new(1, 99), &CurvePoint::new(1, 2));

    assert_eq!(x, 1);
    assert_eq!(y, 0);
    assert_eq!(constant, 15);
}
