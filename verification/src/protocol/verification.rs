use crate::error::PlonkError;
use crate::math::complex_scalar::{cpow, ComplexScalar};
use crate::math::ecc::{
    ec_add, ec_log_from, ec_mul, ec_neg, infinity, CurvePoint, ExtensionCurvePoint, ECC,
};
use crate::math::field::{fadd, fdiv, fmul, fneg, fpow, Field};
use crate::math::pairing::{base_pairing, Pairing};
use crate::math::polynomial::{lagrange_1, peval, Polynomial};
use crate::protocol::circuit::{challenge_term, first_error, gate_interpolations};
use crate::protocol::proof_record::Proof;
use crate::protocol::public_coin::PublicCoin;
use crate::protocol::pythagorean_circuit_builder::{
    has_domain, pythagorean_gates, template_wiring, PythagoreanCircuit,
};
use crate::protocol::structured_reference_string::{commit, commit_on, SRS};
use vstd::prelude::*;

verus! {

/// The verifier of the circuit `x^2 + y^2 = z^2`: the circuit without a
/// witness, the reference string, and the coins and the proof to check.
pub struct Verifier {
    pub circuit: PythagoreanCircuit,
    pub srs: SRS,
    pub ecc: ECC,
    pub field: Field,
    pub pub_coin: PublicCoin,
    pub proof: Proof,
    pub commitments: VerifierCommitments,
    pub vals: VerifierVals,
}

/// The commitments to the polynomials of the circuit that depend on the gates
/// alone. `c_selector` is the selector of constants, of which this circuit has
/// none: its commitment is the point at infinity.
#[derive(Clone, Copy, Debug)]
pub struct VerifierCommitments {
    pub left_selector: CurvePoint,
    pub right_selector: CurvePoint,
    pub output_selector: CurvePoint,
    pub multiply_selector: CurvePoint,
    pub c_selector: CurvePoint,
    pub left_copy: CurvePoint,
    pub right_copy: CurvePoint,
    pub output_copy: CurvePoint,
}

/// What the verifier works out of a proof before the pairing check.
#[derive(Clone, Copy, Debug)]
pub struct VerifierVals {
    pub z_h_opening: u32,
    pub lagrange_1_opening: u32,
    pub t_opening: u32,
    pub d_commitment: CurvePoint,
    pub f_commitment: CurvePoint,
    pub e_commitment: CurvePoint,
}

/// What a proof is checked against: the orders of the field and of the
/// curve's field, the domain, `z_h`, the reference string, the coins, the
/// proof and the commitments to the circuit.
pub struct Statement {
    pub n: u32,
    pub e: u32,
    pub roots: Seq<u32>,
    pub z_h: Seq<u32>,
    pub g_1: CurvePoint,
    pub g_1_points: Seq<CurvePoint>,
    pub g_2_points: Seq<ExtensionCurvePoint>,
    pub coin: PublicCoin,
    pub proof: Proof,
    pub commitments: VerifierCommitments,
}

/// The sum of two points that may have failed to form: a failure on either
/// side, or of the sum itself, is the failure `NoInverse`.
pub open spec fn sum(
    e: u32,
    a: Result<CurvePoint, PlonkError>,
    b: Result<CurvePoint, PlonkError>,
) -> Result<CurvePoint, PlonkError> {
    match (a, b) {
        (Ok(p), Ok(q)) => ec_add(e, p, q),
        _ => Err(PlonkError::NoInverse),
    }
}

/// The multiple `scalar * p` on the curve modulo `e`.
pub open spec fn times(e: u32, scalar: u32, p: CurvePoint) -> Result<CurvePoint, PlonkError> {
    ec_mul(e, scalar as nat, p)
}

/// The point has coordinates below `e` and lies on `y^2 = x^3 + 3` modulo `e`.
pub open spec fn on_curve(e: u32, p: CurvePoint) -> bool {
    p.x < e && p.y < e && fpow(e, p.y, 2) == fadd(e, fpow(e, p.x, 3), 3)
}

/// All nine commitments of the proof lie on the curve.
pub open spec fn commitments_on_curve(e: u32, proof: Proof) -> bool {
    on_curve(e, proof.a) && on_curve(e, proof.b) && on_curve(e, proof.c) && on_curve(e, proof.z)
        && on_curve(e, proof.t_lo) && on_curve(e, proof.t_mid) && on_curve(e, proof.t_hi) && on_curve(
        e,
        proof.w,
    ) && on_curve(e, proof.wz)
}

/// All seven values of the proof are residues modulo `n`.
pub open spec fn openings_in_field(n: u32, proof: Proof) -> bool {
    proof.a_bar < n && proof.b_bar < n && proof.c_bar < n && proof.left_copy_bar < n
        && proof.right_copy_bar < n && proof.r_bar < n && proof.z_bar < n
}

/// The commitments to the seven polynomials of the gates, on the points of
/// the reference string; a failure of any is the failure `NoInverse`.
pub open spec fn preprocessed(
    e: u32,
    points: Seq<CurvePoint>,
    left_selector: Seq<u32>,
    right_selector: Seq<u32>,
    output_selector: Seq<u32>,
    multiply_selector: Seq<u32>,
    left_copy: Seq<u32>,
    right_copy: Seq<u32>,
    output_copy: Seq<u32>,
) -> Result<VerifierCommitments, PlonkError> {
    match (
        commit(e, left_selector, points),
        commit(e, right_selector, points),
        commit(e, output_selector, points),
        commit(e, multiply_selector, points),
        commit(e, left_copy, points),
        commit(e, right_copy, points),
        commit(e, output_copy, points),
    ) {
        (Ok(ql), Ok(qr), Ok(qo), Ok(qm), Ok(sl), Ok(sr), Ok(so)) => Ok(
            VerifierCommitments {
                left_selector: ql,
                right_selector: qr,
                output_selector: qo,
                multiply_selector: qm,
                c_selector: infinity(),
                left_copy: sl,
                right_copy: sr,
                output_copy: so,
            },
        ),
        _ => Err(PlonkError::NoInverse),
    }
}

/// The value of `z_h` at the challenge `zed`.
pub open spec fn z_h_opening(st: Statement) -> u32 {
    peval(st.n, st.z_h, st.coin.zed)
}

/// The value of the first Lagrange polynomial of the domain at `zed`.
pub open spec fn lagrange_opening(st: Statement) -> Result<u32, PlonkError> {
    match lagrange_1(st.n, (st.roots.len() - 1) as u32, st.roots) {
        Err(e) => Err(e),
        Ok(l1) => Ok(peval(st.n, l1, st.coin.zed)),
    }
}

/// The value that `t` must have at `zed`, from the values of the proof:
/// `(r_bar - alpha z_bar (a + beta s_1 + gamma)(b + beta s_2 + gamma)(c + gamma)
/// - alpha^2 L_1(zed)) / z_h(zed)`.
pub open spec fn t_opening(st: Statement, l1: u32, zh: u32) -> Result<u32, PlonkError> {
    let n = st.n;
    let (p, coin) = (st.proof, st.coin);
    let middle = fmul(
        n,
        challenge_term(n, p.a_bar, p.left_copy_bar, coin.beta, coin.gamma),
        fmul(
            n,
            challenge_term(n, p.b_bar, p.right_copy_bar, coin.beta, coin.gamma),
            fmul(n, fadd(n, p.c_bar, coin.gamma), fmul(n, p.z_bar, coin.alpha)),
        ),
    );
    fdiv(
        n,
        fadd(
            n,
            fadd(n, p.r_bar, fneg(n, middle)),
            fneg(n, fmul(n, l1, fpow(n, coin.alpha, 2))),
        ),
        zh,
    )
}

/// The scalar of the accumulator's commitment in `D`.
pub open spec fn d_accumulator_scalar(st: Statement, l1: u32) -> u32 {
    let n = st.n;
    let (p, coin) = (st.proof, st.coin);
    fadd(
        n,
        fadd(
            n,
            fmul(
                n,
                fmul(
                    n,
                    fmul(
                        n,
                        challenge_term(n, p.a_bar, coin.zed, coin.beta, coin.gamma),
                        challenge_term(n, p.b_bar, coin.zed, fmul(n, coin.beta, 2), coin.gamma),
                    ),
                    challenge_term(n, p.c_bar, coin.zed, fmul(n, coin.beta, 3), coin.gamma),
                ),
                fmul(n, coin.alpha, coin.v),
            ),
            fmul(n, l1, fmul(n, fpow(n, coin.alpha, 2), coin.v)),
        ),
        coin.u,
    )
}

/// The scalar of the third copy constraint's commitment in `D`.
pub open spec fn d_copy_scalar(st: Statement) -> u32 {
    let n = st.n;
    let (p, coin) = (st.proof, st.coin);
    fneg(
        n,
        fmul(
            n,
            fmul(
                n,
                challenge_term(n, p.a_bar, p.left_copy_bar, coin.beta, coin.gamma),
                challenge_term(n, p.b_bar, p.right_copy_bar, coin.beta, coin.gamma),
            ),
            fmul(n, coin.alpha, fmul(n, coin.v, fmul(n, coin.beta, p.z_bar))),
        ),
    )
}

/// The commitment `D` to the linearisation, put together on the curve from
/// the commitments to the circuit and to the accumulator.
pub open spec fn d_commitment(st: Statement, l1: u32) -> Result<CurvePoint, PlonkError> {
    let (n, e) = (st.n, st.e);
    let (p, coin, cm) = (st.proof, st.coin, st.commitments);
    let gates = sum(
        e,
        times(e, fmul(n, p.a_bar, fmul(n, p.b_bar, coin.v)), cm.multiply_selector),
        sum(
            e,
            times(e, fmul(n, p.a_bar, coin.v), cm.left_selector),
            sum(
                e,
                times(e, fmul(n, p.b_bar, coin.v), cm.right_selector),
                sum(
                    e,
                    times(e, fmul(n, p.c_bar, coin.v), cm.output_selector),
                    times(e, coin.v, cm.c_selector),
                ),
            ),
        ),
    );
    sum(
        e,
        sum(e, gates, times(e, d_accumulator_scalar(st, l1), p.z)),
        times(e, d_copy_scalar(st), cm.output_copy),
    )
}

/// The batched commitment `F`: `t` from its parts, `D`, and the commitments
/// to the wires and to two copy constraints under rising powers of `v`.
pub open spec fn f_commitment(st: Statement, d: CurvePoint) -> Result<CurvePoint, PlonkError> {
    let (n, e) = (st.n, st.e);
    let (p, coin, cm) = (st.proof, st.coin, st.commitments);
    let len = st.roots.len() as u32;
    let quotient = sum(
        e,
        sum(e, Ok(p.t_lo), times(e, fpow(n, coin.zed, (len + 2) as nat), p.t_mid)),
        times(e, fpow(n, coin.zed, (fmul(n, len, 2) + 4) as nat), p.t_hi),
    );
    let wires = sum(
        e,
        times(e, fpow(n, coin.v, 2), p.a),
        sum(
            e,
            times(e, fpow(n, coin.v, 3), p.b),
            sum(
                e,
                times(e, fpow(n, coin.v, 4), p.c),
                sum(
                    e,
                    times(e, fpow(n, coin.v, 5), cm.left_copy),
                    times(e, fpow(n, coin.v, 6), cm.right_copy),
                ),
            ),
        ),
    );
    sum(e, quotient, sum(e, Ok(d), wires))
}

/// The scalar of the batched values: the value of `t` and, under rising
/// powers of `v`, the values of the proof, with the accumulator's under `u`.
pub open spec fn e_scalar(st: Statement, t: u32) -> u32 {
    let n = st.n;
    let (p, coin) = (st.proof, st.coin);
    fadd(
        n,
        t,
        fadd(
            n,
            fmul(n, coin.v, p.r_bar),
            fadd(
                n,
                fmul(n, fpow(n, coin.v, 2), p.a_bar),
                fadd(
                    n,
                    fmul(n, fpow(n, coin.v, 3), p.b_bar),
                    fadd(
                        n,
                        fmul(n, fpow(n, coin.v, 4), p.c_bar),
                        fadd(
                            n,
                            fmul(n, fpow(n, coin.v, 5), p.left_copy_bar),
                            fadd(
                                n,
                                fmul(n, fpow(n, coin.v, 6), p.right_copy_bar),
                                fmul(n, coin.u, p.z_bar),
                            ),
                        ),
                    ),
                ),
            ),
        ),
    )
}

/// The commitment `E` to the batched values.
pub open spec fn e_commitment(st: Statement, t: u32) -> Result<CurvePoint, PlonkError> {
    times(st.e, e_scalar(st, t), st.g_1)
}

/// The left argument of the pairing check: `W + u W_z`.
pub open spec fn pairing_left(st: Statement) -> Result<CurvePoint, PlonkError> {
    sum(st.e, Ok(st.proof.w), times(st.e, st.coin.u, st.proof.wz))
}

/// The right argument of the pairing check:
/// `zed W + u zed omega W_z + F - E`.
pub open spec fn pairing_right(st: Statement, f: CurvePoint, ec: CurvePoint) -> Result<
    CurvePoint,
    PlonkError,
> {
    let (n, e) = (st.n, st.e);
    sum(
        e,
        sum(
            e,
            times(e, st.coin.zed, st.proof.w),
            times(e, fmul(n, st.coin.u, fmul(n, st.coin.zed, st.roots[1])), st.proof.wz),
        ),
        sum(e, Ok(f), Ok(ec_neg(e, ec))),
    )
}

/// The outcome of the pairing check. In place of two pairings of the two
/// arguments, the arguments' logarithms to the base of the first point of
/// the reference string are taken, by trial below `n`, and the pairings of
/// that point with the second and with the first point of the twist are
/// raised to them. A failure on the way is the failure `NoInverse`.
pub open spec fn pairing_holds(st: Statement, f: CurvePoint, ec: CurvePoint) -> Result<bool, PlonkError> {
    let (n, e) = (st.n, st.e);
    let base = st.g_1_points[0];
    match (pairing_left(st), pairing_right(st, f, ec)) {
        (Ok(left), Ok(right)) => match (ec_log_from(e, left, base, n, 1), ec_log_from(e, right, base, n, 1)) {
            (Ok(left_multiple), Ok(right_multiple)) => match (
                base_pairing(e, n, st.g_2_points[1], base),
                base_pairing(e, n, st.g_2_points[0], base),
            ) {
                (Ok(left_pairing), Ok(right_pairing)) => Ok(
                    cpow(e, left_pairing, left_multiple as nat) == cpow(
                        e,
                        right_pairing,
                        right_multiple as nat,
                    ),
                ),
                _ => Err(PlonkError::NoInverse),
            },
            _ => Err(PlonkError::NoInverse),
        },
        _ => Err(PlonkError::NoInverse),
    }
}

/// What the verifier works out before the pairing check, step after step; or
/// the first failure on the way.
pub open spec fn checks(st: Statement) -> Result<VerifierVals, PlonkError> {
    let zh = z_h_opening(st);
    match lagrange_opening(st) {
        Err(x) => Err(x),
        Ok(l1) => match t_opening(st, l1, zh) {
            Err(x) => Err(x),
            Ok(t) => match d_commitment(st, l1) {
                Err(x) => Err(x),
                Ok(d) => match f_commitment(st, d) {
                    Err(x) => Err(x),
                    Ok(f) => match e_commitment(st, t) {
                        Err(x) => Err(x),
                        Ok(ec) => Ok(
                            VerifierVals {
                                z_h_opening: zh,
                                lagrange_1_opening: l1,
                                t_opening: t,
                                d_commitment: d,
                                f_commitment: f,
                                e_commitment: ec,
                            },
                        ),
                    },
                },
            },
        },
    }
}

/// What the verifier holds once it has gone through its steps, from what it
/// held before: each step up to the first that fails has written its part.
pub open spec fn worked_out(st: Statement, before: VerifierVals) -> VerifierVals {
    let v1 = VerifierVals { z_h_opening: z_h_opening(st), ..before };
    match lagrange_opening(st) {
        Err(_) => v1,
        Ok(l1) => {
            let v2 = VerifierVals { lagrange_1_opening: l1, ..v1 };
            match t_opening(st, l1, v1.z_h_opening) {
                Err(_) => v2,
                Ok(t) => {
                    let v3 = VerifierVals { t_opening: t, ..v2 };
                    match d_commitment(st, l1) {
                        Err(_) => v3,
                        Ok(d) => {
                            let v4 = VerifierVals { d_commitment: d, ..v3 };
                            match f_commitment(st, d) {
                                Err(_) => v4,
                                Ok(f) => {
                                    let v5 = VerifierVals { f_commitment: f, ..v4 };
                                    match e_commitment(st, t) {
                                        Err(_) => v5,
                                        Ok(ec) => VerifierVals { e_commitment: ec, ..v5 },
                                    }
                                },
                            }
                        },
                    }
                },
            }
        },
    }
}

/// The verdict on a proof: rejected where a commitment is off the curve or a
/// value is no residue; else what the pairing check says of what the steps
/// before it give; or the first failure on the way.
pub open spec fn verdict(st: Statement) -> Result<bool, PlonkError> {
    if !(commitments_on_curve(st.e, st.proof) && openings_in_field(st.n, st.proof)) {
        Ok(false)
    } else {
        match checks(st) {
            Err(x) => Err(x),
            Ok(vals) => pairing_holds(st, vals.f_commitment, vals.e_commitment),
        }
    }
}

impl VerifierCommitments {
    /// The commitments before the circuit was committed to: every coordinate
    /// zero.
    pub open spec fn blank() -> VerifierCommitments {
        let origin = CurvePoint { x: 0, y: 0 };
        VerifierCommitments {
            left_selector: origin,
            right_selector: origin,
            output_selector: origin,
            multiply_selector: origin,
            c_selector: origin,
            left_copy: origin,
            right_copy: origin,
            output_copy: origin,
        }
    }
}

impl VerifierVals {
    /// What is held before anything was worked out: every coordinate and
    /// every value zero.
    pub open spec fn blank() -> VerifierVals {
        let origin = CurvePoint { x: 0, y: 0 };
        VerifierVals {
            z_h_opening: 0,
            lagrange_1_opening: 0,
            t_opening: 0,
            d_commitment: origin,
            f_commitment: origin,
            e_commitment: origin,
        }
    }
}

impl Default for VerifierCommitments {
    fn default() -> (r: VerifierCommitments)
        ensures
            r == VerifierCommitments::blank(),
    {
        VerifierCommitments {
            left_selector: CurvePoint::default(),
            right_selector: CurvePoint::default(),
            output_selector: CurvePoint::default(),
            multiply_selector: CurvePoint::default(),
            c_selector: CurvePoint::default(),
            left_copy: CurvePoint::default(),
            right_copy: CurvePoint::default(),
            output_copy: CurvePoint::default(),
        }
    }
}

impl Default for VerifierVals {
    fn default() -> (r: VerifierVals)
        ensures
            r == VerifierVals::blank(),
    {
        VerifierVals {
            z_h_opening: 0,
            lagrange_1_opening: 0,
            t_opening: 0,
            d_commitment: CurvePoint::default(),
            f_commitment: CurvePoint::default(),
            e_commitment: CurvePoint::default(),
        }
    }
}

impl Verifier {
    /// What this verifier checks its proof against.
    pub open spec fn statement(&self) -> Statement {
        Statement {
            n: self.field.order,
            e: self.ecc.field.order,
            roots: self.circuit.circuit.roots@,
            z_h: self.circuit.circuit.circuit_polys.z_h@,
            g_1: self.srs.g_1,
            g_1_points: self.srs.g_1_points@,
            g_2_points: self.srs.g_2_points@,
            coin: self.pub_coin,
            proof: self.proof,
            commitments: self.commitments,
        }
    }

    /// The verifier can work: its circuit is built over its field, whose
    /// order leaves room for four more, the domain has two roots at least,
    /// the square of the order of the curve's field fits the machine, and
    /// the reference string has four points of the curve and two of the twist.
    pub open spec fn wf(&self) -> bool {
        let c = self.circuit.circuit;
        &&& self.field == c.field
        &&& 0 < self.field.order <= u32::MAX - 4
        &&& 0 < self.ecc.field.order
        &&& self.ecc.field.order * self.ecc.field.order <= u32::MAX
        &&& c.fixed_built()
        &&& 2 <= c.roots@.len() <= 0x0fff_ffff
        &&& 4 <= self.srs.g_1_points@.len()
        &&& 2 <= self.srs.g_2_points@.len()
    }

    /// All but what the verifier works out is the same in both.
    pub open spec fn same_but_vals(&self, other: &Verifier) -> bool {
        &&& self.circuit == other.circuit
        &&& self.srs == other.srs
        &&& self.ecc == other.ecc
        &&& self.field == other.field
        &&& self.pub_coin == other.pub_coin
        &&& self.proof == other.proof
        &&& self.commitments == other.commitments
    }

    /// The verifier is as `new` makes it for the field and the reference
    /// string: the circuit built without a witness, the curve modulo 101.
    pub open spec fn fresh(&self, field: Field, srs: SRS) -> bool {
        let c = self.circuit.circuit;
        &&& self.field == field
        &&& self.srs == srs
        &&& self.ecc.field.order == 101
        &&& self.pub_coin == PublicCoin::default_coin()
        &&& c.field == field
        &&& c.wiring() == template_wiring(field)
        &&& c.inputs@.len() == 0
        &&& c.witness@ == Seq::new(6, |i: int| 0u32)
        &&& c.roots@.len() < u32::MAX
        &&& c.fixed_built()
        &&& c.circuit_polys.wires_unbuilt()
        &&& c.circuit_polys.acc.unbuilt()
        &&& self.proof == Proof::blank()
        &&& self.commitments == VerifierCommitments::blank()
        &&& self.vals == VerifierVals::blank()
    }

    /// A verifier over the field, with the circuit built. The curve is the
    /// one modulo 101. Fails where an interpolation of the circuit fails.
    pub fn new(field: Field, srs: SRS) -> (res: Result<Verifier, PlonkError>)
        requires
            has_domain(field),
        ensures
            match res {
                Ok(v) => v.fresh(field, srs),
                Err(e) => first_error(gate_interpolations(field.order, template_wiring(field))) == Some(e),
            },
    {
        let mut py_circuit = PythagoreanCircuit::new(field);
        let res = py_circuit.build_circuit();
        proof {
            assert(py_circuit.circuit.gates@ =~= pythagorean_gates());
            assert(py_circuit.circuit.wiring() == template_wiring(field));
        }
        match res {
            Ok(()) => {},
            Err(e) => {
                return Err(e);
            },
        }
        let ecc = ECC { field: Field { order: 101 } };
        Ok(
            Verifier {
                circuit: py_circuit,
                srs,
                ecc,
                field,
                pub_coin: PublicCoin::default(),
                proof: Proof::default(),
                commitments: VerifierCommitments::default(),
                vals: VerifierVals::default(),
            },
        )
    }

    /// Checks the proof provided. A proof with a commitment off the curve or
    /// a value that is no residue is rejected at once, and nothing is worked
    /// out of it. Where a step fails, what the steps before it worked out
    /// stays held.
    pub fn verify_proof(&mut self) -> (res: Result<bool, PlonkError>)
        requires
            old(self).wf(),
        ensures
            final(self).same_but_vals(old(self)),
            res == verdict(old(self).statement()),
            final(self).vals == (if commitments_on_curve(old(self).ecc.field.order, old(self).proof)
                && openings_in_field(old(self).field.order, old(self).proof) {
                worked_out(old(self).statement(), old(self).vals)
            } else {
                old(self).vals
            }),
    {
        let ghost st = self.statement();
        // Step 1
        let mut verified = self.verify_commitments_on_curve();
        // Step 2
        verified = verified && self.verify_openings_in_field();
        if !verified {
            return Ok(false);
        }
        // Skip step 3 since no public inputs
        // Step 4
        self.set_z_h_opening();
        // Step 5
        self.set_lagrange_1_opening()?;
        // Skip step 6 since no public inputs
        // Step 7
        self.set_t_opening()?;
        // Step 8
        self.set_d_commitment()?;
        // Step 9
        self.set_f_commitment()?;
        // Step 10
        self.set_e_commitment()?;
        assert(self.statement() == st);
        assert(checks(st) == Ok::<_, PlonkError>(self.vals));
        // Step 11
        self.check_pairing()
    }

    /// Takes the coins and the proof to check.
    pub fn provide_proof(&mut self, pub_coin: PublicCoin, proof: Proof)
        ensures
            final(self).pub_coin == pub_coin,
            final(self).proof == proof,
            final(self).circuit == old(self).circuit,
            final(self).srs == old(self).srs,
            final(self).ecc == old(self).ecc,
            final(self).field == old(self).field,
            final(self).commitments == old(self).commitments,
            final(self).vals == old(self).vals,
    {
        self.pub_coin = pub_coin;
        self.proof = proof;
    }

    /// What `preprocess` computes.
    pub open spec fn preprocessed(&self) -> Result<VerifierCommitments, PlonkError> {
        let p = self.circuit.circuit.circuit_polys;
        preprocessed(
            self.ecc.field.order,
            self.srs.g_1_points@,
            p.left_selector@,
            p.right_selector@,
            p.output_selector@,
            p.multiply_selector@,
            p.left_copy@,
            p.right_copy@,
            p.output_copy@,
        )
    }

    /// All but the commitments to the circuit is the same in both.
    pub open spec fn same_but_commitments(&self, other: &Verifier) -> bool {
        &&& self.circuit == other.circuit
        &&& self.srs == other.srs
        &&& self.ecc == other.ecc
        &&& self.field == other.field
        &&& self.pub_coin == other.pub_coin
        &&& self.proof == other.proof
        &&& self.vals == other.vals
    }

    /// Commits to the polynomials of the circuit. Nothing is changed where a
    /// commitment fails.
    pub fn preprocess(&mut self) -> (res: Result<(), PlonkError>)
        requires
            old(self).wf(),
        ensures
            final(self).same_but_commitments(old(self)),
            match res {
                Ok(()) => old(self).preprocessed() == Ok::<_, PlonkError>(final(self).commitments),
                Err(e) => old(self).preprocessed() == Err::<VerifierCommitments, _>(e) && *final(self) == *old(
                    self,
                ),
            },
    {
        let polys = &self.circuit.circuit.circuit_polys;
        let left_selector = self.commit_poly(&polys.left_selector)?;
        let right_selector = self.commit_poly(&polys.right_selector)?;
        let output_selector = self.commit_poly(&polys.output_selector)?;
        let multiply_selector = self.commit_poly(&polys.multiply_selector)?;
        let left_copy = self.commit_poly(&polys.left_copy)?;
        let right_copy = self.commit_poly(&polys.right_copy)?;
        let output_copy = self.commit_poly(&polys.output_copy)?;
        self.commitments =
        VerifierCommitments {
            left_selector,
            right_selector,
            output_selector,
            multiply_selector,
            c_selector: CurvePoint::point_at_infinity(),
            left_copy,
            right_copy,
            output_copy,
        };
        Ok(())
    }

    /// Step 1: whether all commitments of the proof lie on the curve.
    pub fn verify_commitments_on_curve(&self) -> (r: bool)
        requires
            self.ecc.field.order > 0,
        ensures
            r == commitments_on_curve(self.ecc.field.order, self.proof),
    {
        self.in_curve(&self.proof.a) && self.in_curve(&self.proof.b) && self.in_curve(&self.proof.c)
            && self.in_curve(&self.proof.z) && self.in_curve(&self.proof.t_lo) && self.in_curve(
            &self.proof.t_mid,
        ) && self.in_curve(&self.proof.t_hi) && self.in_curve(&self.proof.w) && self.in_curve(
            &self.proof.wz,
        )
    }

    /// Step 2: whether all values of the proof are residues of the field.
    pub fn verify_openings_in_field(&self) -> (r: bool)
        ensures
            r == openings_in_field(self.field.order, self.proof),
    {
        self.in_scalar_field(self.proof.a_bar) && self.in_scalar_field(self.proof.b_bar)
            && self.in_scalar_field(self.proof.c_bar) && self.in_scalar_field(self.proof.left_copy_bar)
            && self.in_scalar_field(self.proof.right_copy_bar) && self.in_scalar_field(self.proof.r_bar)
            && self.in_scalar_field(self.proof.z_bar)
    }

    /// Step 4: the value of `z_h` at the challenge.
    pub fn set_z_h_opening(&mut self)
        requires
            old(self).wf(),
        ensures
            final(self).same_but_vals(old(self)),
            final(self).vals == (VerifierVals {
                z_h_opening: z_h_opening(old(self).statement()),
                ..old(self).vals
            }),
    {
        self.vals.z_h_opening = self.circuit.circuit.circuit_polys.z_h.eval(self.pub_coin.zed);
    }

    /// Step 5: the value of the first Lagrange polynomial at the challenge.
    /// Nothing is changed where the polynomial cannot be formed.
    pub fn set_lagrange_1_opening(&mut self) -> (res: Result<(), PlonkError>)
        requires
            old(self).wf(),
        ensures
            final(self).same_but_vals(old(self)),
            match (res, lagrange_opening(old(self).statement())) {
                (Ok(()), Ok(l1)) => final(self).vals == (VerifierVals {
                    lagrange_1_opening: l1,
                    ..old(self).vals
                }),
                (Err(e), Err(expected)) => e == expected && *final(self) == *old(self),
                _ => false,
            },
    {
        let l1 = Polynomial::get_lagrange_1_poly(
            &self.field,
            (self.circuit.circuit.roots.len() - 1) as u32,
            &self.circuit.circuit.roots,
        )?;
        self.vals.lagrange_1_opening = l1.eval(self.pub_coin.zed);
        Ok(())
    }

    /// `w + beta x + gamma` in the field.
    fn challenge_term(&self, w: u32, x: u32, beta: u32) -> (r: u32)
        requires
            self.field.order > 0,
        ensures
            r == challenge_term(self.field.order, w, x, beta, self.pub_coin.gamma),
    {
        self.field.add(w, self.field.add(self.field.multiply(beta, x), self.pub_coin.gamma))
    }

    /// Step 7: the value that `t` must have at the challenge. Nothing is
    /// changed where the value of `z_h` held has no inverse.
    pub fn set_t_opening(&mut self) -> (res: Result<(), PlonkError>)
        requires
            old(self).wf(),
        ensures
            final(self).same_but_vals(old(self)),
            match (
                res,
                t_opening(
                    old(self).statement(),
                    old(self).vals.lagrange_1_opening,
                    old(self).vals.z_h_opening,
                ),
            ) {
                (Ok(()), Ok(t)) => final(self).vals == (VerifierVals { t_opening: t, ..old(self).vals }),
                (Err(e), Err(expected)) => e == expected && *final(self) == *old(self),
                _ => false,
            },
    {
        let field = &self.field;
        let first_term = self.challenge_term(
            self.proof.a_bar,
            self.proof.left_copy_bar,
            self.pub_coin.beta,
        );
        let second_term = self.challenge_term(
            self.proof.b_bar,
            self.proof.right_copy_bar,
            self.pub_coin.beta,
        );
        let third_term = field.add(self.proof.c_bar, self.pub_coin.gamma);
        let middle_term = field.multiply(
            first_term,
            field.multiply(
                second_term,
                field.multiply(third_term, field.multiply(self.proof.z_bar, self.pub_coin.alpha)),
            ),
        );
        let mut res = field.add(self.proof.r_bar, field.additive_inverse(middle_term));
        res =
        field.add(
            res,
            field.additive_inverse(
                field.multiply(self.vals.lagrange_1_opening, field.exponent(self.pub_coin.alpha, 2)),
            ),
        );
        res = field.divide(res, self.vals.z_h_opening)?;
        self.vals.t_opening = res;
        Ok(())
    }

    /// Step 8: the commitment `D` to the linearisation. Nothing is changed
    /// where a point cannot be formed.
    pub fn set_d_commitment(&mut self) -> (res: Result<(), PlonkError>)
        requires
            old(self).wf(),
        ensures
            final(self).same_but_vals(old(self)),
            match (res, d_commitment(old(self).statement(), old(self).vals.lagrange_1_opening)) {
                (Ok(()), Ok(d)) => final(self).vals == (VerifierVals { d_commitment: d, ..old(self).vals }),
                (Err(e), Err(expected)) => e == expected && *final(self) == *old(self),
                _ => false,
            },
    {
        let field = &self.field;
        let (proof, coin, cm) = (&self.proof, &self.pub_coin, &self.commitments);
        let first_term = self.ecc.multiply(
            field.multiply(proof.a_bar, field.multiply(proof.b_bar, coin.v)),
            &cm.multiply_selector,
        )?;
        let second_term = self.ecc.multiply(field.multiply(proof.a_bar, coin.v), &cm.left_selector)?;
        let third_term = self.ecc.multiply(field.multiply(proof.b_bar, coin.v), &cm.right_selector)?;
        let fourth_term = self.ecc.multiply(field.multiply(proof.c_bar, coin.v), &cm.output_selector)?;
        let fifth_term = self.ecc.multiply(coin.v, &cm.c_selector)?;

        let mut res = self.ecc.add(&fourth_term, &fifth_term)?;
        res = self.ecc.add(&third_term, &res)?;
        res = self.ecc.add(&second_term, &res)?;
        res = self.ecc.add(&first_term, &res)?;

        let mut middle_term_scalar = self.challenge_term(proof.a_bar, coin.zed, coin.beta);
        middle_term_scalar =
        field.multiply(
            middle_term_scalar,
            self.challenge_term(proof.b_bar, coin.zed, field.multiply(coin.beta, 2)),
        );
        middle_term_scalar =
        field.multiply(
            middle_term_scalar,
            self.challenge_term(proof.c_bar, coin.zed, field.multiply(coin.beta, 3)),
        );
        middle_term_scalar = field.multiply(middle_term_scalar, field.multiply(coin.alpha, coin.v));
        middle_term_scalar =
        field.add(
            middle_term_scalar,
            field.multiply(
                self.vals.lagrange_1_opening,
                field.multiply(field.exponent(coin.alpha, 2), coin.v),
            ),
        );
        middle_term_scalar = field.add(middle_term_scalar, coin.u);
        let middle_term = self.ecc.multiply(middle_term_scalar, &proof.z)?;
        res = self.ecc.add(&res, &middle_term)?;

        let mut last_term_scalar = self.challenge_term(proof.a_bar, proof.left_copy_bar, coin.beta);
        last_term_scalar =
        field.multiply(
            last_term_scalar,
            self.challenge_term(proof.b_bar, proof.right_copy_bar, coin.beta),
        );
        last_term_scalar =
        field.multiply(
            last_term_scalar,
            field.multiply(coin.alpha, field.multiply(coin.v, field.multiply(coin.beta, proof.z_bar))),
        );
        last_term_scalar = field.additive_inverse(last_term_scalar);
        let last_term = self.ecc.multiply(last_term_scalar, &cm.output_copy)?;

        res = self.ecc.add(&res, &last_term)?;
        self.vals.d_commitment = res;
        Ok(())
    }

    /// Step 9: the batched commitment `F`. Nothing is changed where a point
    /// cannot be formed.
    pub fn set_f_commitment(&mut self) -> (res: Result<(), PlonkError>)
        requires
            old(self).wf(),
        ensures
            final(self).same_but_vals(old(self)),
            match (res, f_commitment(old(self).statement(), old(self).vals.d_commitment)) {
                (Ok(()), Ok(f)) => final(self).vals == (VerifierVals { f_commitment: f, ..old(self).vals }),
                (Err(e), Err(expected)) => e == expected && *final(self) == *old(self),
                _ => false,
            },
    {
        let field = &self.field;
        let (proof, coin, cm) = (&self.proof, &self.pub_coin, &self.commitments);
        let len = self.circuit.circuit.roots.len() as u32;
        let mid = self.ecc.multiply(field.exponent(coin.zed, len + 2), &proof.t_mid)?;
        let mut first_term = self.ecc.add(&proof.t_lo, &mid)?;
        let high = self.ecc.multiply(field.exponent(coin.zed, field.multiply(len, 2) + 4), &proof.t_hi)?;
        first_term = self.ecc.add(&first_term, &high)?;

        let second_term = self.vals.d_commitment;

        let a = self.ecc.multiply(field.exponent(coin.v, 2), &proof.a)?;
        let b = self.ecc.multiply(field.exponent(coin.v, 3), &proof.b)?;
        let c = self.ecc.multiply(field.exponent(coin.v, 4), &proof.c)?;
        let left_copy = self.ecc.multiply(field.exponent(coin.v, 5), &cm.left_copy)?;
        let right_copy = self.ecc.multiply(field.exponent(coin.v, 6), &cm.right_copy)?;
        let mut third_term = self.ecc.add(&left_copy, &right_copy)?;
        third_term = self.ecc.add(&c, &third_term)?;
        third_term = self.ecc.add(&b, &third_term)?;
        third_term = self.ecc.add(&a, &third_term)?;

        let rest = self.ecc.add(&second_term, &third_term)?;
        self.vals.f_commitment = self.ecc.add(&first_term, &rest)?;
        Ok(())
    }

    /// Step 10: the commitment `E` to the batched values. Nothing is changed
    /// where the point cannot be formed.
    pub fn set_e_commitment(&mut self) -> (res: Result<(), PlonkError>)
        requires
            old(self).wf(),
        ensures
            final(self).same_but_vals(old(self)),
            match (res, e_commitment(old(self).statement(), old(self).vals.t_opening)) {
                (Ok(()), Ok(ec)) => final(self).vals == (VerifierVals { e_commitment: ec, ..old(self).vals }),
                (Err(e), Err(expected)) => e == expected && *final(self) == *old(self),
                _ => false,
            },
    {
        let field = &self.field;
        let (proof, coin) = (&self.proof, &self.pub_coin);
        let scalar_term = field.add(
            self.vals.t_opening,
            field.add(
                field.multiply(coin.v, proof.r_bar),
                field.add(
                    field.multiply(field.exponent(coin.v, 2), proof.a_bar),
                    field.add(
                        field.multiply(field.exponent(coin.v, 3), proof.b_bar),
                        field.add(
                            field.multiply(field.exponent(coin.v, 4), proof.c_bar),
                            field.add(
                                field.multiply(field.exponent(coin.v, 5), proof.left_copy_bar),
                                field.add(
                                    field.multiply(field.exponent(coin.v, 6), proof.right_copy_bar),
                                    field.multiply(coin.u, proof.z_bar),
                                ),
                            ),
                        ),
                    ),
                ),
            ),
        );
        self.vals.e_commitment = self.ecc.multiply(scalar_term, &self.srs.g_1)?;
        Ok(())
    }

    /// Step 11: the pairing check on the commitments `F` and `E` held.
    pub fn check_pairing(&mut self) -> (res: Result<bool, PlonkError>)
        requires
            old(self).wf(),
        ensures
            *final(self) == *old(self),
            res == pairing_holds(
                old(self).statement(),
                old(self).vals.f_commitment,
                old(self).vals.e_commitment,
            ),
    {
        let field = &self.field;
        let (proof, coin) = (&self.proof, &self.pub_coin);
        let scaled_wz = self.ecc.multiply(coin.u, &proof.wz)?;
        let left_first_term = self.ecc.add(&proof.w, &scaled_wz)?;

        let scaled_w = self.ecc.multiply(coin.zed, &proof.w)?;
        let shifted_wz = self.ecc.multiply(
            field.multiply(coin.u, field.multiply(coin.zed, self.circuit.circuit.roots[1])),
            &proof.wz,
        )?;
        let mut right_first_term = self.ecc.add(&scaled_w, &shifted_wz)?;
        let difference = self.ecc.add(
            &self.vals.f_commitment,
            &self.ecc.inversion(&self.vals.e_commitment),
        )?;
        right_first_term = self.ecc.add(&right_first_term, &difference)?;

        let left_multiple = self.ecc.get_generator_multiple(
            &left_first_term,
            &self.srs.g_1_points[0],
            field.order,
        )?;
        let right_multiple = self.ecc.get_generator_multiple(
            &right_first_term,
            &self.srs.g_1_points[0],
            field.order,
        )?;

        let pairing = Pairing { ecc: self.ecc, r: field.order };

        let mut left_pairing = pairing.get_base_pairing(&self.srs.g_2_points[1], &self.srs.g_1_points[0])?;
        let mut right_pairing = pairing.get_base_pairing(&self.srs.g_2_points[0], &self.srs.g_1_points[0])?;

        left_pairing = ComplexScalar::exponent(&self.ecc.field, &left_pairing, left_multiple);
        right_pairing = ComplexScalar::exponent(&self.ecc.field, &right_pairing, right_multiple);

        Ok(ComplexScalar::equals(&left_pairing, &right_pairing))
    }

    /// Whether the scalar is a residue of the field.
    pub fn in_scalar_field(&self, scalar: u32) -> (r: bool)
        ensures
            r == (scalar < self.field.order),
    {
        scalar < self.field.order
    }

    /// Whether the point has coordinates of the curve's field and lies on
    /// the curve `y^2 = x^3 + 3`.
    pub fn in_curve(&self, point: &CurvePoint) -> (r: bool)
        requires
            self.ecc.field.order > 0,
        ensures
            r == on_curve(self.ecc.field.order, *point),
    {
        if point.x >= self.ecc.field.order || point.y >= self.ecc.field.order {
            return false;
        }
        // must satisfy y^2 = x^3 + 3
        let left = self.ecc.field.exponent(point.y, 2);
        let right = self.ecc.field.add(self.ecc.field.exponent(point.x, 3), 3);
        left == right
    }

    /// The commitment to a polynomial on the points of the reference string.
    pub fn commit_poly(&self, poly: &Polynomial) -> (res: Result<CurvePoint, PlonkError>)
        requires
            self.ecc.field.order > 0,
            poly@.len() <= self.srs.g_1_points@.len(),
        ensures
            res == commit(self.ecc.field.order, poly@, self.srs.g_1_points@),
            res is Err ==> res == Err::<CurvePoint, _>(PlonkError::NoInverse),
    {
        commit_on(&self.ecc, &self.srs.g_1_points, poly)
    }
}

} // verus!
