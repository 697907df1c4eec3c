use plonk_by_hand::error::PlonkError;
use plonk_by_hand::math::ecc::{CurvePoint, ECC};
use plonk_by_hand::math::field::Field;
use plonk_by_hand::protocol::constants;
use plonk_by_hand::protocol::proof_record::Proof;
use plonk_by_hand::protocol::prover::Prover;
use plonk_by_hand::protocol::verification::Verifier;

fn valid_proof() -> Proof {
    let mut srs = constants::srs_by_hand();
    srs.generate_g_1_points().unwrap();
    let mut prover = Prover::new(constants::field_17(), vec![3, 4, 5], srs).unwrap();
    prover.set_public_coin(constants::pub_coin());
    prover.generate_proof().unwrap()
}

fn verdict_on(proof: Proof) -> Result<bool, PlonkError> {
    let mut srs = constants::srs_by_hand();
    srs.generate_g_1_points().unwrap();
    srs.generate_g_2_points().unwrap();
    let mut verifier = Verifier::new(constants::field_17(), srs).unwrap();
    verifier.preprocess().unwrap();
    verifier.provide_proof(constants::pub_coin(), proof);
    verifier.verify_proof()
}

fn bump(scalar: u32) -> u32 {
    Field { order: 17 }.add(scalar, 1)
}

fn shift(point: CurvePoint) -> CurvePoint {
    let ecc = ECC {
        field: Field { order: 101 },
    };
    ecc.add(&point, &CurvePoint::new(1, 2)).unwrap()
}

#[test]
fn the_valid_proof_is_accepted() {
    assert_eq!(verdict_on(valid_proof()), Ok(true));
}

#[test]
fn the_proof_of_the_worked_example() {
    let proof = valid_proof();
    assert!(CurvePoint::equals(&proof.a, &CurvePoint::new(91, 66)));
    assert!(CurvePoint::equals(&proof.b, &CurvePoint::new(26, 45)));
    assert!(CurvePoint::equals(&proof.c, &CurvePoint::new(91, 35)));
    assert!(CurvePoint::equals(&proof.z, &CurvePoint::new(32, 59)));
    assert!(CurvePoint::equals(&proof.t_lo, &CurvePoint::new(12, 32)));
    assert!(CurvePoint::equals(&proof.t_mid, &CurvePoint::new(26, 45)));
    assert!(CurvePoint::equals(&proof.t_hi, &CurvePoint::new(91, 66)));
    assert!(CurvePoint::equals(&proof.w, &CurvePoint::new(91, 35)));
    assert!(CurvePoint::equals(&proof.wz, &CurvePoint::new(65, 98)));
    assert_eq!(
        (
            proof.a_bar,
            proof.b_bar,
            proof.c_bar,
            proof.left_copy_bar,
            proof.right_copy_bar,
            proof.r_bar,
            proof.z_bar
        ),
        (15, 13, 5, 1, 12, 15, 15)
    );
}

#[test]
fn a_changed_value_is_rejected() {
    let proof = valid_proof();
    let changed = vec![
        Proof { a_bar: bump(proof.a_bar), ..proof },
        Proof { b_bar: bump(proof.b_bar), ..proof },
        Proof { c_bar: bump(proof.c_bar), ..proof },
        Proof { left_copy_bar: bump(proof.left_copy_bar), ..proof },
        Proof { right_copy_bar: bump(proof.right_copy_bar), ..proof },
        Proof { r_bar: bump(proof.r_bar), ..proof },
        Proof { z_bar: bump(proof.z_bar), ..proof },
    ];
    for (index, p) in changed.into_iter().enumerate() {
        assert_eq!(verdict_on(p), Ok(false), "value {}", index);
    }
}

#[test]
fn a_changed_commitment_is_rejected() {
    let proof = valid_proof();
    let changed = vec![
        Proof { a: shift(proof.a), ..proof },
        Proof { b: shift(proof.b), ..proof },
        Proof { c: shift(proof.c), ..proof },
        Proof { z: shift(proof.z), ..proof },
        Proof { t_lo: shift(proof.t_lo), ..proof },
        Proof { t_mid: shift(proof.t_mid), ..proof },
        Proof { t_hi: shift(proof.t_hi), ..proof },
        Proof { w: shift(proof.w), ..proof },
        Proof { wz: shift(proof.wz), ..proof },
    ];
    for (index, p) in changed.into_iter().enumerate() {
        assert_eq!(verdict_on(p), Ok(false), "commitment {}", index);
    }
}

#[test]
fn a_commitment_off_the_curve_is_rejected() {
    let proof = valid_proof();
    let off = Proof { a: CurvePoint::new(proof.a.x + 1, proof.a.y), ..proof };
    assert_eq!(verdict_on(off), Ok(false));
    let out_of_range = Proof { w: CurvePoint::new(proof.w.x + 101, proof.w.y), ..proof };
    assert_eq!(verdict_on(out_of_range), Ok(false));
    let infinite = Proof { z: CurvePoint::point_at_infinity(), ..proof };
    assert_eq!(verdict_on(infinite), Ok(false));
}

#[test]
fn a_value_out_of_the_field_is_rejected() {
    let proof = valid_proof();
    let big = Proof { a_bar: proof.a_bar + 17, ..proof };
    assert_eq!(verdict_on(big), Ok(false));
}
