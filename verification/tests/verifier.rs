use plonk_by_hand::math::complex_scalar::ComplexScalar;
use plonk_by_hand::math::ecc::{CurvePoint, ECC};
use plonk_by_hand::math::field::Field;
use plonk_by_hand::math::pairing::Pairing;
use plonk_by_hand::protocol::constants;
use plonk_by_hand::protocol::prover::Prover;
use plonk_by_hand::protocol::verification::Verifier;

fn test_setup_verifier_with_proof() -> Verifier {
    let field_17 = constants::field_17();

    let mut srs = constants::srs_by_hand();
    srs.generate_g_1_points().unwrap();
    srs.generate_g_2_points().unwrap();

    let pub_coin = constants::pub_coin();

    let mut prover = Prover::new(field_17.clone(), vec![3, 4, 5], srs.copy()).unwrap();
    prover.set_public_coin(pub_coin.clone());

    let mut verifier = Verifier::new(field_17.clone(), srs.copy()).unwrap();
    verifier.preprocess().unwrap();
    verifier.provide_proof(pub_coin.clone(), prover.generate_proof().unwrap());
    verifier
}

#[test]
fn test_preprocess() {
    let verifier = test_setup_verifier_with_proof();

    assert!(CurvePoint::equals(
        &verifier.commitments.left_selector,
        &CurvePoint::new(32, 42)
    ));
    assert!(CurvePoint::equals(
        &verifier.commitments.right_selector,
        &CurvePoint::new(32, 42)
    ));
    assert!(CurvePoint::equals(
        &verifier.commitments.output_selector,
        &CurvePoint::new(1, 99)
    ));
    assert!(CurvePoint::equals(
        &verifier.commitments.multiply_selector,
        &CurvePoint::new(12, 69)
    ));
    assert!(CurvePoint::equals(
        &verifier.commitments.c_selector,
        &CurvePoint::point_at_infinity()
    ));
    assert!(CurvePoint::equals(
        &verifier.commitments.left_copy,
        &CurvePoint::new(68, 74)
    ));
    assert!(CurvePoint::equals(
        &verifier.commitments.right_copy,
        &CurvePoint::new(65, 3)
    ));
    assert!(CurvePoint::equals(
        &verifier.commitments.output_copy,
        &CurvePoint::new(18, 49)
    ));
}

#[test]
fn test_verify_commitments_in_field() {
    let verifier = test_setup_verifier_with_proof();

    assert!(verifier.verify_commitments_on_curve());
}

#[test]
fn test_verify_openings_in_field() {
    let verifier = test_setup_verifier_with_proof();

    assert!(verifier.verify_openings_in_field());
}

#[test]
fn test_set_z_h_and_lagrange_opening() {
    let mut verifier = test_setup_verifier_with_proof();
    verifier.set_z_h_opening();
    verifier.set_lagrange_1_opening().unwrap();
    assert_eq!(12, verifier.vals.z_h_opening);
    assert_eq!(5, verifier.vals.lagrange_1_opening);
}

#[test]
fn test_set_t_opening() {
    let mut verifier = test_setup_verifier_with_proof();
    verifier.set_z_h_opening();
    verifier.set_lagrange_1_opening().unwrap();
    verifier.set_t_opening().unwrap();
    assert_eq!(1, verifier.vals.t_opening);
}

#[test]
fn test_d_commitment() {
    let mut verifier = test_setup_verifier_with_proof();
    verifier.set_z_h_opening();
    verifier.set_lagrange_1_opening().unwrap();
    verifier.set_t_opening().unwrap();
    verifier.set_d_commitment().unwrap();
    assert!(CurvePoint::equals(
        &CurvePoint::point_at_infinity(),
        &verifier.vals.d_commitment
    ));
}

#[test]
fn test_f_commitment() {
    let mut verifier = test_setup_verifier_with_proof();
    verifier.set_z_h_opening();
    verifier.set_lagrange_1_opening().unwrap();
    verifier.set_t_opening().unwrap();
    verifier.set_d_commitment().unwrap();
    verifier.set_f_commitment().unwrap();
    assert!(CurvePoint::equals(
        &CurvePoint::new(68, 27),
        &verifier.vals.f_commitment
    ));
}

#[test]
fn test_e_commitment() {
    let mut verifier = test_setup_verifier_with_proof();
    verifier.set_z_h_opening();
    verifier.set_lagrange_1_opening().unwrap();
    verifier.set_t_opening().unwrap();
    verifier.set_d_commitment().unwrap();
    verifier.set_f_commitment().unwrap();
    verifier.set_e_commitment().unwrap();
    assert!(CurvePoint::equals(
        &CurvePoint::new(1, 2),
        &verifier.vals.e_commitment
    ));
}

#[test]
fn test_pairing() {
    let mut verifier = test_setup_verifier_with_proof();
    verifier.set_z_h_opening();
    verifier.set_lagrange_1_opening().unwrap();
    verifier.set_t_opening().unwrap();
    verifier.set_d_commitment().unwrap();
    verifier.set_f_commitment().unwrap();
    verifier.set_e_commitment().unwrap();

    assert!(verifier.check_pairing().unwrap());
}

#[test]
fn test_f_17() {
    let pairing = Pairing {
        r: 17,
        ecc: ECC {
            field: Field { order: 101 },
        },
    };

    let mut srs = constants::srs_by_hand();
    srs.generate_g_1_points().unwrap();
    srs.generate_g_2_points().unwrap();

    let f17 = pairing
        .get_f_17(&srs.g_2_points[1], &srs.g_1_points[0])
        .unwrap();
    assert!(ComplexScalar::equals(
        &f17,
        &ComplexScalar {
            constant: 68,
            u_term: 47
        }
    ));
}

#[test]
fn test_get_base_pairing() {
    let pairing = Pairing {
        r: 17,
        ecc: ECC {
            field: Field { order: 101 },
        },
    };

    let mut srs = constants::srs_by_hand();
    srs.generate_g_1_points().unwrap();
    srs.generate_g_2_points().unwrap();

    let base_pairing = pairing
        .get_base_pairing(&srs.g_2_points[1], &srs.g_1_points[0])
        .unwrap();
    assert!(ComplexScalar::equals(
        &base_pairing,
        &ComplexScalar {
            constant: 97,
            u_term: 89
        }
    ));

    let second_base_pairing = pairing
        .get_base_pairing(&srs.g_2_points[0], &srs.g_1_points[0])
        .unwrap();
    assert!(ComplexScalar::equals(
        &second_base_pairing,
        &ComplexScalar {
            constant: 7,
            u_term: 28
        }
    ));
}

#[test]
fn full_round_trip_is_accepted() {
    let mut verifier = test_setup_verifier_with_proof();
    assert_eq!(verifier.verify_proof(), Ok(true));
}
