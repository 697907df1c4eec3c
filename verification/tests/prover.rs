use plonk_by_hand::math::ecc::CurvePoint;
use plonk_by_hand::protocol::constants;
use plonk_by_hand::protocol::prover::Prover;

fn test_setup_prover() -> Prover {
    let mut srs = constants::srs_by_hand();
    srs.generate_g_1_points().unwrap();

    let mut prover = Prover::new(constants::field_17(), vec![3, 4, 5], srs).unwrap();
    prover.set_public_coin(constants::pub_coin());

    prover.generate_proof().unwrap();

    prover
}

#[test]
fn test_blinded_wire_polys() {
    let prover = test_setup_prover();

    let a_coefficients = prover
        .get_blinded_wire_poly(&prover.py_circuit.circuit.circuit_polys.left, 4, 7)
        .coefficients;
    assert_eq!(a_coefficients, vec![14, 6, 3, 3, 4, 7]);

    let b_coefficients = prover
        .get_blinded_wire_poly(&prover.py_circuit.circuit.circuit_polys.right, 12, 11)
        .coefficients;
    assert_eq!(b_coefficients, vec![12, 9, 14, 13, 12, 11]);

    let c_coefficients = prover
        .get_blinded_wire_poly(&prover.py_circuit.circuit.circuit_polys.output, 2, 16)
        .coefficients;
    assert_eq!(c_coefficients, vec![4, 6, 11, 4, 2, 16]);

    let a_commitment = prover.commit_poly(&prover.prover_polys.a).unwrap();
    assert!(CurvePoint::equals(
        &a_commitment,
        &CurvePoint { x: 91, y: 66 }
    ));

    let b_commitment = prover.commit_poly(&prover.prover_polys.b).unwrap();
    assert!(CurvePoint::equals(
        &b_commitment,
        &CurvePoint { x: 26, y: 45 }
    ));

    let c_commitment = prover.commit_poly(&prover.prover_polys.c).unwrap();
    assert!(CurvePoint::equals(
        &c_commitment,
        &CurvePoint { x: 91, y: 35 }
    ));
}

#[test]
fn test_accumulator() {
    let prover = test_setup_prover();

    assert!(CurvePoint::equals(
        &prover.commit_poly(&prover.prover_polys.z).unwrap(),
        &CurvePoint { x: 32, y: 59 }
    ));
}

#[test]
fn test_t_poly() {
    let prover = test_setup_prover();

    let t_poly = prover.get_t_poly().unwrap();
    assert_eq!(
        t_poly.coefficients,
        vec![11, 16, 13, 9, 0, 13, 13, 8, 1, 2, 10, 1, 15, 6, 16, 2, 7, 11]
    );

    assert_eq!(
        prover.prover_polys.t_lo.coefficients,
        vec![11, 16, 13, 9, 0, 13]
    );
    assert_eq!(
        prover.prover_polys.t_mid.coefficients,
        vec![13, 8, 1, 2, 10, 1]
    );
    assert_eq!(
        prover.prover_polys.t_hi.coefficients,
        vec![15, 6, 16, 2, 7, 11]
    );

    let t_lo_com = prover.commit_poly(&prover.prover_polys.t_lo).unwrap();
    let t_mid_com = prover.commit_poly(&prover.prover_polys.t_mid).unwrap();
    let t_hi_com = prover.commit_poly(&prover.prover_polys.t_hi).unwrap();

    assert!(CurvePoint::equals(&t_lo_com, &CurvePoint { x: 12, y: 32 }));
    assert!(CurvePoint::equals(&t_mid_com, &CurvePoint { x: 26, y: 45 }));
    assert!(CurvePoint::equals(&t_hi_com, &CurvePoint { x: 91, y: 66 }));
}

#[test]
fn test_opening_evals() {
    let prover = test_setup_prover();

    let actual_evals = vec![
        prover.opening_evals.a,
        prover.opening_evals.b,
        prover.opening_evals.c,
        prover.opening_evals.left_copy,
        prover.opening_evals.right_copy,
        prover.opening_evals.t,
        prover.opening_evals.z,
    ];
    let expected_evals = vec![15, 13, 5, 1, 12, 1, 15];
    assert_eq!(actual_evals, expected_evals);

    let r_eval = prover.opening_evals.r;
    let expected_r_eval = 15;
    assert_eq!(r_eval, expected_r_eval);
}

#[test]
fn test_r_poly() {
    let prover = test_setup_prover();

    let actual_coefficients = prover.prover_polys.r.coefficients;
    let expected_coefficients = vec![0, 16, 9, 13, 8, 15, 16];
    assert_eq!(actual_coefficients, expected_coefficients);
}

#[test]
fn test_w_polys() {
    let prover = test_setup_prover();

    let actual_coefficients = prover.prover_polys.w.coefficients.clone();
    let expected_coefficients = vec![16, 13, 2, 9, 3, 5];
    assert_eq!(actual_coefficients, expected_coefficients);

    let actual_coefficients = prover.prover_polys.wz.coefficients;
    let expected_coefficients = vec![13, 14, 2, 13, 2, 14];
    assert_eq!(actual_coefficients, expected_coefficients);
}

#[test]
fn test_w_commits() {
    let prover = test_setup_prover();

    let w_com = prover.commit_poly(&prover.prover_polys.w).unwrap();
    let wz_com = prover.commit_poly(&prover.prover_polys.wz).unwrap();

    assert!(CurvePoint::equals(&w_com, &CurvePoint { x: 91, y: 35 }));
    assert!(CurvePoint::equals(&wz_com, &CurvePoint { x: 65, y: 98 }));
}
