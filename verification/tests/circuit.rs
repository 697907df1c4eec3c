use plonk_by_hand::math::ecc::{CurvePoint, ExtensionCurvePoint, ECC};
use plonk_by_hand::math::field::Field;
use plonk_by_hand::protocol::pythagorean_circuit_builder::PythagoreanCircuit;
use plonk_by_hand::protocol::structured_reference_string::SRS;

#[test]
fn test_circuit() {
    let field = Field { order: 17 };

    let mut pythagorean_circuit = PythagoreanCircuit::new(field);
    pythagorean_circuit
        .build_circuit_with_inputs(vec![3, 4, 5])
        .unwrap();
    assert_eq!(
        vec![3, 4, 5, 9],
        pythagorean_circuit.circuit.get_left_inputs()
    );
    assert_eq!(
        vec![3, 4, 5, 16],
        pythagorean_circuit.circuit.get_right_inputs()
    );
    assert_eq!(vec![9, 16, 8, 8], pythagorean_circuit.circuit.get_outputs());

    assert_eq!(
        vec![0, 0, 0, 1],
        pythagorean_circuit.circuit.get_left_selectors()
    );
    assert_eq!(
        vec![0, 0, 0, 1],
        pythagorean_circuit.circuit.get_right_selectors()
    );
    assert_eq!(
        vec![16, 16, 16, 16],
        pythagorean_circuit.circuit.get_output_selectors()
    );
    assert_eq!(
        vec![1, 1, 1, 0],
        pythagorean_circuit.circuit.get_multiply_selectors()
    );

    assert_eq!(
        vec![2, 8, 15, 3],
        pythagorean_circuit.circuit.get_left_copy_constraints()
    );
    assert_eq!(
        vec![1, 4, 16, 12],
        pythagorean_circuit.circuit.get_right_copy_constraints()
    );
    assert_eq!(
        vec![13, 9, 5, 14],
        pythagorean_circuit.circuit.get_output_copy_constraints()
    );

    let left_poly = pythagorean_circuit.circuit.circuit_polys.left;
    assert_eq!(vec![1, 13, 3, 3], left_poly.coefficients);
    let right_poly = pythagorean_circuit.circuit.circuit_polys.right;
    assert_eq!(vec![7, 3, 14, 13], right_poly.coefficients);
    let output_poly = pythagorean_circuit.circuit.circuit_polys.output;
    assert_eq!(vec![6, 5, 11, 4], output_poly.coefficients);

    let left_selector_poly = pythagorean_circuit.circuit.circuit_polys.left_selector;
    assert_eq!(vec![13, 1, 4, 16], left_selector_poly.coefficients);
    let right_selector_poly = pythagorean_circuit.circuit.circuit_polys.right_selector;
    assert_eq!(vec![13, 1, 4, 16], right_selector_poly.coefficients);
    let output_selector_poly = pythagorean_circuit.circuit.circuit_polys.output_selector;
    assert_eq!(vec![16, 0, 0, 0], output_selector_poly.coefficients);
    let multiply_selector_poly = pythagorean_circuit.circuit.circuit_polys.multiply_selector;
    assert_eq!(vec![5, 16, 13, 1], multiply_selector_poly.coefficients);

    let left_copy_poly = pythagorean_circuit.circuit.circuit_polys.left_copy;
    assert_eq!(vec![7, 13, 10, 6], left_copy_poly.coefficients);
    let right_copy_poly = pythagorean_circuit.circuit.circuit_polys.right_copy;
    assert_eq!(vec![4, 0, 13, 1], right_copy_poly.coefficients);
    let output_copy_poly = pythagorean_circuit.circuit.circuit_polys.output_copy;
    assert_eq!(vec![6, 7, 3, 14], output_copy_poly.coefficients);

    assert_eq!(
        vec![16, 0, 0, 0, 1],
        pythagorean_circuit.circuit.circuit_polys.z_h.coefficients
    );
}

#[test]
fn test_g_1_points() {
    let mut srs = SRS {
        g_1: CurvePoint::new(1, 2),
        g_2: ExtensionCurvePoint::new(31, 36, true),
        g_1_points: Vec::new(),
        g_2_points: Vec::new(),
        degree: 4,
        s: 2,
        scalar_field: Field { order: 17 },
        ecc: ECC {
            field: Field { order: 101 },
        },
    };

    srs.generate_g_1_points().unwrap();
    let expected_points = vec![
        CurvePoint { x: 1, y: 2 },
        CurvePoint { x: 68, y: 74 },
        CurvePoint { x: 65, y: 98 },
        CurvePoint { x: 18, y: 49 },
        CurvePoint { x: 1, y: 99 },
        CurvePoint { x: 68, y: 27 },
        CurvePoint { x: 65, y: 3 },
    ];

    for i in 0..srs.g_1_points.len() {
        assert!(CurvePoint::equals(&srs.g_1_points[i], &expected_points[i]));
    }
}

#[test]
fn test_g_2_points() {
    let mut srs = SRS {
        g_1: CurvePoint::new(1, 2),
        g_2: ExtensionCurvePoint::new(36, 31, true),
        g_1_points: Vec::new(),
        g_2_points: Vec::new(),
        degree: 4,
        s: 2,
        scalar_field: Field { order: 17 },
        ecc: ECC {
            field: Field { order: 101 },
        },
    };

    srs.generate_g_2_points().unwrap();

    let expected_first_point = ExtensionCurvePoint::new(36, 31, true);
    let expected_second_point = ExtensionCurvePoint::new(90, 82, true);
    assert!(ExtensionCurvePoint::equals(
        &srs.g_2_points[0],
        &expected_first_point
    ));
    assert!(ExtensionCurvePoint::equals(
        &srs.g_2_points[1],
        &expected_second_point
    ));
}
