use plonk_by_hand::error::PlonkError;
use plonk_by_hand::math::complex_scalar::ComplexScalar;
use plonk_by_hand::math::ecc::{CurvePoint, ExtensionCurvePoint, ECC};
use plonk_by_hand::math::field::Field;
use plonk_by_hand::protocol::circuit::{Circuit, CircuitPolynomials, Gate, GateType};
use plonk_by_hand::protocol::constants;
use plonk_by_hand::protocol::prover::Prover;
use plonk_by_hand::protocol::public_coin::PublicCoin;
use plonk_by_hand::protocol::pythagorean_circuit_builder::PythagoreanCircuit;
use plonk_by_hand::protocol::verification::Verifier;

fn curve() -> ECC {
    ECC {
        field: Field { order: 101 },
    }
}

fn multiples_of_the_generator() -> Vec<CurvePoint> {
    let ecc = curve();
    let g = CurvePoint::new(1, 2);
    (1..17).map(|k| ecc.multiply(k, &g).unwrap()).collect()
}

#[test]
fn doubling_is_adding_a_point_to_itself() {
    let ecc = curve();
    for p in multiples_of_the_generator() {
        let doubled = ecc.double(&p).unwrap();
        assert!(CurvePoint::equals(&doubled, &ecc.add(&p, &p).unwrap()));
        assert!(CurvePoint::equals(&doubled, &ecc.multiply(2, &p).unwrap()));
    }
}

#[test]
fn the_point_at_infinity_is_the_identity() {
    let ecc = curve();
    let g = CurvePoint::new(1, 2);
    let infinity = CurvePoint::point_at_infinity();
    assert_eq!((infinity.x, infinity.y), (99999999, 99999999));
    assert!(CurvePoint::equals(&ecc.add(&infinity, &g).unwrap(), &g));
    assert!(CurvePoint::equals(&ecc.add(&g, &infinity).unwrap(), &g));
    assert!(CurvePoint::equals(&ecc.double(&infinity).unwrap(), &infinity));
    assert!(CurvePoint::equals(&ecc.multiply(0, &g).unwrap(), &infinity));
    assert!(CurvePoint::equals(&ecc.multiply(1, &g).unwrap(), &g));
    // the generator has order 17
    assert!(CurvePoint::equals(&ecc.multiply(17, &g).unwrap(), &infinity));
    assert!(CurvePoint::equals(&ecc.multiply(18, &g).unwrap(), &g));
}

#[test]
fn opposite_points_add_up_to_infinity() {
    let ecc = curve();
    let g = CurvePoint::new(1, 2);
    let minus = ecc.inversion(&g);
    assert!(CurvePoint::equals(&minus, &CurvePoint::new(1, 99)));
    assert!(CurvePoint::equals(
        &ecc.add(&g, &minus).unwrap(),
        &CurvePoint::point_at_infinity()
    ));
    assert!(CurvePoint::equals(
        &ecc.add(&g, &CurvePoint::new(68, 74)).unwrap(),
        &CurvePoint::new(26, 45)
    ));
}

#[test]
fn a_tangent_without_slope_is_an_error() {
    let ecc = curve();
    assert_eq!(
        ecc.double(&CurvePoint::new(5, 0)).err(),
        Some(PlonkError::NoInverse)
    );
    assert_eq!(
        ecc.multiply(4, &CurvePoint::new(5, 0)).err(),
        Some(PlonkError::NoInverse)
    );
    // abscissas that differ as numbers but not as residues
    assert_eq!(
        ecc.add(&CurvePoint::new(1, 2), &CurvePoint::new(102, 5)).err(),
        Some(PlonkError::NoInverse)
    );
    let even = ECC {
        field: Field { order: 2 },
    };
    assert_eq!(
        even.double_extension(&ExtensionCurvePoint::new(1, 1, true)).err(),
        Some(PlonkError::NoInverse)
    );
}

#[test]
fn discrete_logarithms_by_trial() {
    let ecc = curve();
    let g = CurvePoint::new(1, 2);
    for (index, p) in multiples_of_the_generator().iter().enumerate() {
        assert_eq!(ecc.get_generator_multiple(p, &g, 17), Ok(index as u32 + 1));
    }
    assert_eq!(
        ecc.get_generator_multiple(&CurvePoint::point_at_infinity(), &g, 17),
        Ok(0)
    );
    assert_eq!(ecc.get_generator_multiple(&CurvePoint::new(1, 99), &g, 16), Ok(0));
    assert_eq!(ecc.get_generator_multiple(&CurvePoint::new(1, 99), &g, 17), Ok(16));
    assert_eq!(ecc.get_generator_multiple(&g, &g, 0), Ok(0));
}

#[test]
fn a_line_at_a_point_of_the_twist() {
    let ecc = curve();
    let q = ExtensionCurvePoint::new(36, 31, true);
    let value = ecc.plug_extension_point_in_equation(&q, 25, 34, 8);
    // 25 * 36 + 8 = 908 = 100 mod 101, 34 * 31 = 1054 = 44 mod 101
    assert!(ComplexScalar::equals(
        &value,
        &ComplexScalar {
            constant: 100,
            u_term: 44
        }
    ));
    assert!(CurvePoint::equals(
        &ecc.copy().double(&CurvePoint::new(1, 2)).unwrap(),
        &CurvePoint::new(68, 74)
    ));
}

fn empty_circuit() -> Circuit {
    Circuit {
        gates: Vec::new(),
        inputs: Vec::new(),
        witness: vec![0; 4],
        field: Field { order: 17 },
        coset1: vec![2, 8, 15, 9],
        coset2: vec![3, 12, 14, 5],
        roots: vec![1, 4, 16, 13],
        circuit_polys: CircuitPolynomials::default(),
    }
}

#[test]
fn gates_run_in_the_order_of_their_insertion() {
    let mut circuit = empty_circuit();
    circuit.set_inputs(vec![(5, 0), (7, 1), (6, 0)]);
    assert_eq!(circuit.witness, vec![6, 7, 0, 0]);
    assert_eq!(circuit.inputs, vec![(5, 0), (7, 1), (6, 0)]);
    circuit.insert_gate(Gate {
        left_index: 0,
        right_index: 1,
        output_index: 2,
        gate_type: GateType::Addition,
    });
    circuit.insert_gate(Gate {
        left_index: 2,
        right_index: 2,
        output_index: 3,
        gate_type: GateType::Multiplication,
    });
    circuit.insert_gate(Gate {
        left_index: 3,
        right_index: 0,
        output_index: 0,
        gate_type: GateType::Multiplication,
    });
    circuit.compute_witness();
    // 6 + 7 = 13, 13 * 13 = 169 = 16, 16 * 6 = 96 = 11
    assert_eq!(circuit.witness, vec![11, 7, 13, 16]);
    assert_eq!(circuit.get_left_inputs(), vec![11, 13, 16]);
    assert_eq!(circuit.get_right_inputs(), vec![7, 13, 11]);
    assert_eq!(circuit.get_outputs(), vec![13, 16, 11]);
    assert_eq!(circuit.get_left_selectors(), vec![1, 0, 0]);
    assert_eq!(circuit.get_multiply_selectors(), vec![0, 1, 1]);
    // three values are one too few for an interpolation
    assert_eq!(
        circuit.build_polynomials_with_input().err(),
        Some(PlonkError::InvalidDegree)
    );
    assert_eq!(
        circuit.build_poly(vec![1, 2, 3, 4, 5]).unwrap().coefficients.len(),
        4
    );
}

#[test]
fn a_wire_without_partner_has_no_copy_constraint() {
    let mut circuit = empty_circuit();
    circuit.insert_gate(Gate {
        left_index: 0,
        right_index: 1,
        output_index: 2,
        gate_type: GateType::Addition,
    });
    circuit.insert_gate(Gate {
        left_index: 2,
        right_index: 2,
        output_index: 3,
        gate_type: GateType::Multiplication,
    });
    // the left wire of the first gate stands alone; that of the second gate
    // meets the right wire of its own gate and the output of the first
    assert_eq!(circuit.get_left_copy_constraints(), vec![3, 8]);
    // the right wire of the second gate meets the output of the first gate
    // and the left wire of its own
    assert_eq!(circuit.get_right_copy_constraints(), vec![3, 4]);
    assert_eq!(circuit.get_output_copy_constraints(), vec![4]);
    assert_eq!(circuit.get_z_h().coefficients, vec![16, 0, 0, 0, 1]);
}

#[test]
fn the_accumulator_of_the_worked_example() {
    let mut circuit = PythagoreanCircuit::new(Field { order: 17 });
    circuit.build_circuit_with_inputs(vec![3, 4, 5]).unwrap();
    assert_eq!(
        circuit.circuit.get_accumulator_values(3, 12, 13),
        Ok(vec![1, 3, 9, 4])
    );
    assert_eq!(circuit.circuit.get_accumulator_values(0, 12, 13), Ok(vec![1]));
    circuit.build_acc(12, 13).unwrap();
    let acc = &circuit.circuit.circuit_polys.acc;
    assert_eq!(
        vec![acc.eval(1), acc.eval(4), acc.eval(16), acc.eval(13)],
        vec![1, 3, 9, 4]
    );
}

fn prover_for(inputs: Vec<u32>, coin: PublicCoin) -> Prover {
    let mut srs = constants::srs_by_hand();
    srs.generate_g_1_points().unwrap();
    let mut prover = Prover::new(constants::field_17(), inputs, srs).unwrap();
    prover.set_public_coin(coin);
    prover
}

#[test]
fn a_witness_that_does_not_satisfy_the_circuit_is_an_error() {
    let mut prover = prover_for(vec![0, 0, 1], constants::pub_coin());
    assert_eq!(
        prover.generate_proof().err(),
        Some(PlonkError::CircuitNotSatisfied)
    );
    let mut other = prover_for(vec![3, 4, 6], constants::pub_coin());
    assert_eq!(
        other.generate_proof().err(),
        Some(PlonkError::CircuitNotSatisfied)
    );
    // here the accumulator meets a factor without inverse first
    let mut third = prover_for(vec![1, 1, 1], constants::pub_coin());
    assert_eq!(third.generate_proof().err(), Some(PlonkError::NoInverse));
}

#[test]
fn no_proof_comes_of_inputs_that_do_not_satisfy_the_circuit() {
    let mut proved = 0;
    for a in 0..17u32 {
        for b in 0..17u32 {
            for c in 0..17u32 {
                let mut prover = prover_for(vec![a, b, c], constants::pub_coin());
                if prover.generate_proof().is_ok() {
                    assert_eq!((a * a + b * b) % 17, (c * c) % 17);
                    proved += 1;
                }
            }
        }
    }
    assert!(proved > 0);
}

#[test]
fn other_satisfying_inputs_are_proved_and_accepted() {
    // 0^2 + 2^2 = 2^2, and 5^2 + 12^2 = 169 = 16 = 13^2, and so on
    for inputs in vec![vec![0, 2, 2], vec![0, 5, 12], vec![0, 8, 9], vec![0, 3, 14]] {
        let mut srs = constants::srs_by_hand();
        srs.generate_g_1_points().unwrap();
        srs.generate_g_2_points().unwrap();
        let mut prover = Prover::new(constants::field_17(), inputs, srs.copy()).unwrap();
        prover.set_public_coin(constants::pub_coin());
        let proof = prover.generate_proof().unwrap();
        let mut verifier = Verifier::new(constants::field_17(), srs).unwrap();
        verifier.preprocess().unwrap();
        verifier.provide_proof(constants::pub_coin(), proof);
        assert_eq!(verifier.verify_proof(), Ok(true));
    }
}

#[test]
fn a_challenge_on_the_domain_is_an_error_of_the_verifier() {
    let mut prover = prover_for(vec![3, 4, 5], constants::pub_coin());
    let proof = prover.generate_proof().unwrap();
    let mut srs = constants::srs_by_hand();
    srs.generate_g_1_points().unwrap();
    srs.generate_g_2_points().unwrap();
    let mut verifier = Verifier::new(constants::field_17(), srs).unwrap();
    verifier.preprocess().unwrap();
    // z_h vanishes at 4, a root of the domain
    let coin = PublicCoin {
        zed: 4,
        ..constants::pub_coin()
    };
    verifier.provide_proof(coin, proof);
    assert_eq!(verifier.verify_proof(), Err(PlonkError::NoInverse));
    assert_eq!(verifier.vals.z_h_opening, 0);
    assert_eq!(verifier.vals.lagrange_1_opening, 0);
}

#[test]
fn the_constants_of_the_worked_example() {
    assert_eq!(constants::field_17().order, 17);
    let srs = constants::srs_by_hand();
    assert_eq!((srs.g_1.x, srs.g_1.y), (1, 2));
    assert_eq!((srs.g_2.x, srs.g_2.y, srs.g_2.u), (36, 31, true));
    assert_eq!((srs.degree, srs.s), (4, 2));
    assert_eq!((srs.scalar_field.order, srs.ecc.field.order), (17, 101));
    assert!(srs.g_1_points.is_empty() && srs.g_2_points.is_empty());
    let coin = constants::pub_coin();
    assert_eq!((coin.alpha, coin.beta, coin.gamma, coin.zed, coin.v, coin.u), (15, 12, 13, 5, 12, 4));
    let copy = {
        let mut generated = constants::srs_by_hand();
        generated.generate_g_1_points().unwrap();
        generated.copy()
    };
    assert_eq!(copy.g_1_points.len(), 7);
}
