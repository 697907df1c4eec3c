use crate::error::PlonkError;
use crate::math::ecc::{CurvePoint, ECC};
use crate::math::field::{fmul, fneg, fone, fpow, Field};
use crate::math::polynomial::{
    canonical, is_zero_poly, lagrange_1, padd, pdiv, peval, pmul, pneg, pscale, Polynomial,
};
use crate::protocol::circuit::{challenge_term, first_error, Circuit};
use crate::protocol::proof_record::{OpeningEvals, Proof, ProverPolys};
use crate::protocol::public_coin::PublicCoin;
use crate::protocol::pythagorean_circuit_builder::{
    has_domain, pythagorean_gates, pythagorean_inputs, template_error, template_wiring,
    template_witness,
    PythagoreanCircuit,
};
use crate::protocol::structured_reference_string::{commit, commit_on, SRS};
use vstd::prelude::*;

verus! {

/// The prover of the circuit `x^2 + y^2 = z^2`: the circuit with its witness,
/// the reference string, and what it has worked out of a proof so far.
pub struct Prover {
    pub py_circuit: PythagoreanCircuit,
    pub srs: SRS,
    pub ecc: ECC,
    pub field: Field,
    pub prover_polys: ProverPolys,
    pub opening_evals: OpeningEvals,
    pub pub_coin: PublicCoin,
}

/// What a proof is worked out from, besides the accumulator: the field's
/// order, the domain, the polynomials of the circuit by their coefficients,
/// and the public coins.
pub struct Setup {
    pub n: u32,
    pub roots: Seq<u32>,
    pub left: Seq<u32>,
    pub right: Seq<u32>,
    pub output: Seq<u32>,
    pub left_selector: Seq<u32>,
    pub right_selector: Seq<u32>,
    pub output_selector: Seq<u32>,
    pub multiply_selector: Seq<u32>,
    pub left_copy: Seq<u32>,
    pub right_copy: Seq<u32>,
    pub output_copy: Seq<u32>,
    pub z_h: Seq<u32>,
    pub coin: PublicCoin,
}

/// The polynomials and values that the prover works out, in the order in
/// which it does.
pub struct Transcript {
    pub a: Seq<u32>,
    pub b: Seq<u32>,
    pub c: Seq<u32>,
    pub z: Seq<u32>,
    pub t: Seq<u32>,
    pub t_lo: Seq<u32>,
    pub t_mid: Seq<u32>,
    pub t_hi: Seq<u32>,
    pub r: Seq<u32>,
    pub w: Seq<u32>,
    pub wz: Seq<u32>,
    pub evals: OpeningEvals,
}

/// All fifteen coins are canonical residues modulo `n`.
pub open spec fn coin_canonical(coin: PublicCoin, n: u32) -> bool {
    &&& coin.b1 < n && coin.b2 < n && coin.b3 < n
    &&& coin.b4 < n && coin.b5 < n && coin.b6 < n
    &&& coin.b7 < n && coin.b8 < n && coin.b9 < n
    &&& coin.alpha < n && coin.beta < n && coin.gamma < n
    &&& coin.zed < n && coin.v < n && coin.u < n
}

/// The second root of the domain, by which the accumulator is shifted.
pub open spec fn omega(s: Setup) -> u32 {
    s.roots[1]
}

/// The blinding polynomial with the given coefficients, times `z_h`: it
/// vanishes on the domain.
pub open spec fn blinded(s: Setup, rands: Seq<u32>) -> Seq<u32> {
    pmul(s.n, s.z_h, rands)
}

/// A wire polynomial, blinded by `(rand1 + rand2 X) z_h`.
pub open spec fn blinded_wire(s: Setup, wire: Seq<u32>, rand1: u32, rand2: u32) -> Seq<u32> {
    padd(s.n, blinded(s, seq![rand1, rand2]), wire)
}

/// The accumulator, blinded by `(rand1 + rand2 X + rand3 X^2) z_h`.
pub open spec fn blinded_acc(s: Setup, acc: Seq<u32>, rand1: u32, rand2: u32, rand3: u32) -> Seq<u32> {
    padd(s.n, blinded(s, seq![rand1, rand2, rand3]), acc)
}

/// The constraint of the gates, `a b q_M + a q_L + b q_R + c q_O`.
pub open spec fn gate_constraint(s: Setup, a: Seq<u32>, b: Seq<u32>, c: Seq<u32>) -> Seq<u32> {
    let n = s.n;
    padd(
        n,
        padd(
            n,
            padd(n, pmul(n, pmul(n, a, b), s.multiply_selector), pmul(n, a, s.left_selector)),
            pmul(n, b, s.right_selector),
        ),
        pmul(n, c, s.output_selector),
    )
}

/// The permutation's numerator
/// `alpha (a + beta X + gamma)(b + 2 beta X + gamma)(c + 3 beta X + gamma) z`.
pub open spec fn permutation_numerator(
    s: Setup,
    a: Seq<u32>,
    b: Seq<u32>,
    c: Seq<u32>,
    z: Seq<u32>,
) -> Seq<u32> {
    let n = s.n;
    let (beta, gamma) = (s.coin.beta, s.coin.gamma);
    pscale(
        n,
        pmul(
            n,
            pmul(
                n,
                pmul(n, padd(n, a, seq![gamma, beta]), padd(n, b, seq![gamma, fmul(n, 2, beta)])),
                padd(n, c, seq![gamma, fmul(n, 3, beta)]),
            ),
            z,
        ),
        s.coin.alpha,
    )
}

/// The polynomial `z(omega X)`: each coefficient times the power of `omega`
/// of its exponent.
pub open spec fn shifted(s: Setup, z: Seq<u32>) -> Seq<u32> {
    Seq::new(z.len(), |i: int| fmul(s.n, fpow(s.n, omega(s), i as nat), z[i]))
}

/// The permutation's denominator, negated:
/// `-alpha (a + beta S_1 + gamma)(b + beta S_2 + gamma)(c + beta S_3 + gamma) z(omega X)`.
pub open spec fn permutation_denominator(
    s: Setup,
    a: Seq<u32>,
    b: Seq<u32>,
    c: Seq<u32>,
    z: Seq<u32>,
) -> Seq<u32> {
    let n = s.n;
    let (beta, gamma) = (s.coin.beta, s.coin.gamma);
    pneg(
        n,
        pscale(
            n,
            pmul(
                n,
                pmul(
                    n,
                    pmul(
                        n,
                        padd(n, padd(n, a, pscale(n, s.left_copy, beta)), seq![gamma]),
                        padd(n, b, padd(n, pscale(n, s.right_copy, beta), seq![gamma])),
                    ),
                    padd(n, c, padd(n, pscale(n, s.output_copy, beta), seq![gamma])),
                ),
                shifted(s, z),
            ),
            s.coin.alpha,
        ),
    )
}

/// The polynomial minus a constant.
pub open spec fn minus_constant(n: u32, p: Seq<u32>, value: u32) -> Seq<u32> {
    padd(n, p, seq![fneg(n, value)])
}

/// The condition on the first row, `alpha^2 (z - 1) L_1`.
pub open spec fn first_row(s: Setup, z: Seq<u32>, l1: Seq<u32>) -> Seq<u32> {
    pscale(s.n, pmul(s.n, minus_constant(s.n, z, 1), l1), fpow(s.n, s.coin.alpha, 2))
}

/// The sum of the four terms that `z_h` must divide.
pub open spec fn quotient_numerator(
    s: Setup,
    a: Seq<u32>,
    b: Seq<u32>,
    c: Seq<u32>,
    z: Seq<u32>,
    l1: Seq<u32>,
) -> Seq<u32> {
    padd(
        s.n,
        gate_constraint(s, a, b, c),
        padd(
            s.n,
            permutation_numerator(s, a, b, c, z),
            padd(s.n, permutation_denominator(s, a, b, c, z), first_row(s, z, l1)),
        ),
    )
}

/// The first Lagrange polynomial of the domain.
pub open spec fn lagrange(s: Setup) -> Result<Seq<u32>, PlonkError> {
    lagrange_1(s.n, (s.roots.len() - 1) as u32, s.roots)
}

/// The quotient polynomial `t`: the numerator over `z_h`. A remainder other
/// than zero is the failure `CircuitNotSatisfied`.
pub open spec fn quotient(s: Setup, a: Seq<u32>, b: Seq<u32>, c: Seq<u32>, z: Seq<u32>) -> Result<
    Seq<u32>,
    PlonkError,
> {
    match lagrange(s) {
        Err(e) => Err(e),
        Ok(l1) => match pdiv(s.n, quotient_numerator(s, a, b, c, z, l1), s.z_h) {
            Err(e) => Err(e),
            Ok((q, remainder)) => if is_zero_poly(remainder) {
                Ok(q)
            } else {
                Err(PlonkError::CircuitNotSatisfied)
            },
        },
    }
}

/// The three parts of `t`, each a third of its coefficients long; coefficients
/// beyond three times that length are left out. A `t` of less than three
/// coefficients cannot be split: `InvalidDegree`.
pub open spec fn split(t: Seq<u32>) -> Result<(Seq<u32>, Seq<u32>, Seq<u32>), PlonkError> {
    let num = t.len() as int / 3;
    if num == 0 {
        Err(PlonkError::InvalidDegree)
    } else {
        Ok((t.subrange(0, num), t.subrange(num, 2 * num), t.subrange(2 * num, 3 * num)))
    }
}

/// The values at the challenge `zed` of the wires, of two copy constraints
/// and of `t`, and the value of `z` at `zed omega`. The value of `r` is
/// handed through.
pub open spec fn first_openings(
    s: Setup,
    a: Seq<u32>,
    b: Seq<u32>,
    c: Seq<u32>,
    z: Seq<u32>,
    t: Seq<u32>,
    r: u32,
) -> OpeningEvals {
    let zed = s.coin.zed;
    OpeningEvals {
        a: peval(s.n, a, zed),
        b: peval(s.n, b, zed),
        c: peval(s.n, c, zed),
        left_copy: peval(s.n, s.left_copy, zed),
        right_copy: peval(s.n, s.right_copy, zed),
        t: peval(s.n, t, zed),
        z: peval(s.n, z, fmul(s.n, zed, omega(s))),
        r,
    }
}

/// The scalar of `z` in the linearisation:
/// `alpha (a + beta zed + gamma)(b + 2 beta zed + gamma)(c + 3 beta zed + gamma)`.
pub open spec fn numerator_scalar(n: u32, coin: PublicCoin, a: u32, b: u32, c: u32) -> u32 {
    fmul(
        n,
        fmul(
            n,
            challenge_term(n, a, coin.zed, coin.beta, coin.gamma),
            fmul(
                n,
                challenge_term(n, b, coin.zed, fmul(n, coin.beta, 2), coin.gamma),
                challenge_term(n, c, coin.zed, fmul(n, coin.beta, 3), coin.gamma),
            ),
        ),
        coin.alpha,
    )
}

/// The scalar of the third copy constraint in the linearisation:
/// `alpha beta z_bar (a + beta s_1 + gamma)(b + beta s_2 + gamma)`.
pub open spec fn denominator_scalar(
    n: u32,
    coin: PublicCoin,
    a: u32,
    b: u32,
    left_copy: u32,
    right_copy: u32,
    z: u32,
) -> u32 {
    fmul(
        n,
        fmul(
            n,
            challenge_term(n, a, left_copy, coin.beta, coin.gamma),
            fmul(n, challenge_term(n, b, right_copy, coin.beta, coin.gamma), fmul(n, coin.beta, z)),
        ),
        coin.alpha,
    )
}

/// The linearisation polynomial `r`, in which the values `e` at the challenge
/// stand for the wires and the first two copy constraints.
pub open spec fn linearisation(s: Setup, z: Seq<u32>, e: OpeningEvals) -> Result<Seq<u32>, PlonkError> {
    let n = s.n;
    match lagrange(s) {
        Err(err) => Err(err),
        Ok(l1) => Ok(
            padd(
                n,
                padd(
                    n,
                    pscale(n, s.multiply_selector, fmul(n, e.a, e.b)),
                    padd(
                        n,
                        pscale(n, s.left_selector, e.a),
                        padd(n, pscale(n, s.right_selector, e.b), pscale(n, s.output_selector, e.c)),
                    ),
                ),
                padd(
                    n,
                    pscale(n, z, numerator_scalar(n, s.coin, e.a, e.b, e.c)),
                    padd(
                        n,
                        pneg(
                            n,
                            pscale(
                                n,
                                s.output_copy,
                                denominator_scalar(n, s.coin, e.a, e.b, e.left_copy, e.right_copy, e.z),
                            ),
                        ),
                        pscale(n, z, fmul(n, peval(n, l1, s.coin.zed), fpow(n, s.coin.alpha, 2))),
                    ),
                ),
            ),
        ),
    }
}

/// `X - point`, the divisor of an opening at `point`.
pub open spec fn opening_divisor(n: u32, point: u32) -> Seq<u32> {
    seq![fneg(n, point), fone(n)]
}

/// What the opening polynomial `W` divides: `t` put together from its parts
/// minus its value, and, with rising powers of `v`, the polynomials `r`, `a`,
/// `b`, `c` and the first two copy constraints, each minus its value.
pub open spec fn opening_numerator(s: Setup, tr: Transcript) -> Seq<u32> {
    let n = s.n;
    let (zed, v) = (s.coin.zed, s.coin.v);
    let e = tr.evals;
    let len = s.roots.len();
    padd(
        n,
        padd(
            n,
            padd(
                n,
                tr.t_lo,
                padd(
                    n,
                    pscale(n, tr.t_mid, fpow(n, zed, len + 2)),
                    pscale(n, tr.t_hi, fpow(n, zed, 2 * len + 4)),
                ),
            ),
            seq![fneg(n, e.t)],
        ),
        padd(
            n,
            padd(
                n,
                padd(
                    n,
                    padd(
                        n,
                        padd(
                            n,
                            pscale(n, minus_constant(n, tr.r, e.r), v),
                            pscale(n, minus_constant(n, tr.a, e.a), fpow(n, v, 2)),
                        ),
                        pscale(n, minus_constant(n, tr.b, e.b), fpow(n, v, 3)),
                    ),
                    pscale(n, minus_constant(n, tr.c, e.c), fpow(n, v, 4)),
                ),
                pscale(n, minus_constant(n, s.left_copy, e.left_copy), fpow(n, v, 5)),
            ),
            pscale(n, minus_constant(n, s.right_copy, e.right_copy), fpow(n, v, 6)),
        ),
    )
}

/// The quotient of a division, whatever is left over.
pub open spec fn quotient_of(r: Result<(Seq<u32>, Seq<u32>), PlonkError>) -> Result<Seq<u32>, PlonkError> {
    match r {
        Err(e) => Err(e),
        Ok((q, _)) => Ok(q),
    }
}

/// The opening polynomial `W` at `zed`.
pub open spec fn opening_w(s: Setup, tr: Transcript) -> Result<Seq<u32>, PlonkError> {
    quotient_of(pdiv(s.n, opening_numerator(s, tr), opening_divisor(s.n, s.coin.zed)))
}

/// The opening polynomial `W_z` of the accumulator at `zed omega`.
pub open spec fn opening_wz(s: Setup, z: Seq<u32>, z_bar: u32) -> Result<Seq<u32>, PlonkError> {
    quotient_of(
        pdiv(s.n, minus_constant(s.n, z, z_bar), opening_divisor(s.n, fmul(s.n, s.coin.zed, omega(s)))),
    )
}

/// All that the prover works out, step after step, given the accumulator of
/// the circuit; or the first failure on the way.
#[verifier::opaque]
pub open spec fn transcript(s: Setup, acc: Result<Seq<u32>, PlonkError>) -> Result<Transcript, PlonkError> {
    let a = blinded_wire(s, s.left, s.coin.b2, s.coin.b1);
    let b = blinded_wire(s, s.right, s.coin.b4, s.coin.b3);
    let c = blinded_wire(s, s.output, s.coin.b6, s.coin.b5);
    match acc {
        Err(e) => Err(e),
        Ok(acc) => {
            let z = blinded_acc(s, acc, s.coin.b9, s.coin.b8, s.coin.b7);
            match quotient(s, a, b, c, z) {
                Err(e) => Err(e),
                Ok(t) => match split(t) {
                    Err(e) => Err(e),
                    Ok((t_lo, t_mid, t_hi)) => {
                        let first = first_openings(s, a, b, c, z, t, 0);
                        match linearisation(s, z, first) {
                            Err(e) => Err(e),
                            Ok(r) => {
                                let evals = first_openings(s, a, b, c, z, t, peval(s.n, r, s.coin.zed));
                                let tr = Transcript {
                                    a,
                                    b,
                                    c,
                                    z,
                                    t,
                                    t_lo,
                                    t_mid,
                                    t_hi,
                                    r,
                                    w: Seq::empty(),
                                    wz: Seq::empty(),
                                    evals,
                                };
                                match opening_w(s, tr) {
                                    Err(e) => Err(e),
                                    Ok(w) => match opening_wz(s, z, evals.z) {
                                        Err(e) => Err(e),
                                        Ok(wz) => Ok(Transcript { w, wz, ..tr }),
                                    },
                                }
                            },
                        }
                    },
                }
            }
        },
    }
}

/// A transcript whose parts are what the steps give, each from the parts
/// before it, is the transcript of the setup. The values that a step does not
/// read (`r0`, `w0`, `wz0`: what was held before the step wrote) do not matter.
pub proof fn lemma_transcript_assembled(
    s: Setup,
    acc: Result<Seq<u32>, PlonkError>,
    tr: Transcript,
    r0: u32,
    w0: Seq<u32>,
    wz0: Seq<u32>,
)
    requires
        steps_done(s, acc, tr, r0, w0, wz0, 7),
    ensures
        transcript(s, acc) == Ok::<_, PlonkError>(tr),
{
    reveal(transcript);
    let first = first_openings(s, tr.a, tr.b, tr.c, tr.z, tr.t, 0);
    let first0 = first_openings(s, tr.a, tr.b, tr.c, tr.z, tr.t, r0);
    assert(linearisation(s, tr.z, first) == linearisation(s, tr.z, first0));
    let blank = Transcript { w: Seq::empty(), wz: Seq::empty(), ..tr };
    let before = Transcript { w: w0, wz: wz0, ..tr };
    assert(opening_numerator(s, blank) == opening_numerator(s, before));
    assert(tr == Transcript { w: tr.w, wz: tr.wz, ..blank });
}

/// Where the steps before `step` gave the parts of `tr` and step `step`
/// failed, the transcript of the setup is that failure.
pub proof fn lemma_transcript_fails(
    s: Setup,
    acc: Result<Seq<u32>, PlonkError>,
    tr: Transcript,
    r0: u32,
    w0: Seq<u32>,
    wz0: Seq<u32>,
    step: int,
    e: PlonkError,
)
    requires
        2 <= step <= 6,
        steps_done(s, acc, tr, r0, w0, wz0, step),
        step_fails(s, acc, tr, r0, w0, wz0, step, e),
    ensures
        transcript(s, acc) == Err::<Transcript, _>(e),
{
    reveal(transcript);
    let first = first_openings(s, tr.a, tr.b, tr.c, tr.z, tr.t, 0);
    let first0 = first_openings(s, tr.a, tr.b, tr.c, tr.z, tr.t, r0);
    assert(linearisation(s, tr.z, first) == linearisation(s, tr.z, first0));
    let blank = Transcript { w: Seq::empty(), wz: Seq::empty(), ..tr };
    let before = Transcript { w: w0, wz: wz0, ..tr };
    assert(opening_numerator(s, blank) == opening_numerator(s, before));
}

/// The steps numbered below `step` gave the parts of `tr`: step 1 the wire
/// polynomials, 2 the accumulator, 3 the quotient and its parts, 4 the
/// linearisation, 5 the opening `W`, 6 the opening `W_z`.
pub open spec fn steps_done(
    s: Setup,
    acc: Result<Seq<u32>, PlonkError>,
    tr: Transcript,
    r0: u32,
    w0: Seq<u32>,
    wz0: Seq<u32>,
    step: int,
) -> bool {
    &&& step > 1 ==> {
        &&& tr.a == blinded_wire(s, s.left, s.coin.b2, s.coin.b1)
        &&& tr.b == blinded_wire(s, s.right, s.coin.b4, s.coin.b3)
        &&& tr.c == blinded_wire(s, s.output, s.coin.b6, s.coin.b5)
    }
    &&& step > 2 ==> acc is Ok && tr.z == blinded_acc(s, acc.unwrap(), s.coin.b9, s.coin.b8, s.coin.b7)
    &&& step > 3 ==> {
        &&& quotient(s, tr.a, tr.b, tr.c, tr.z) == Ok::<_, PlonkError>(tr.t)
        &&& split(tr.t) == Ok::<_, PlonkError>((tr.t_lo, tr.t_mid, tr.t_hi))
    }
    &&& step > 4 ==> {
        &&& linearisation(s, tr.z, first_openings(s, tr.a, tr.b, tr.c, tr.z, tr.t, r0)) == Ok::<
            _,
            PlonkError,
        >(tr.r)
        &&& tr.evals == first_openings(s, tr.a, tr.b, tr.c, tr.z, tr.t, peval(s.n, tr.r, s.coin.zed))
    }
    &&& step > 5 ==> opening_w(s, Transcript { w: w0, wz: wz0, ..tr }) == Ok::<_, PlonkError>(tr.w)
    &&& step > 6 ==> opening_wz(s, tr.z, tr.evals.z) == Ok::<_, PlonkError>(tr.wz)
}

/// Step `step` fails with `e` on the parts of `tr` that the steps before it gave.
pub open spec fn step_fails(
    s: Setup,
    acc: Result<Seq<u32>, PlonkError>,
    tr: Transcript,
    r0: u32,
    w0: Seq<u32>,
    wz0: Seq<u32>,
    step: int,
    e: PlonkError,
) -> bool {
    &&& step == 2 ==> acc == Err::<Seq<u32>, _>(e)
    &&& step == 3 ==> match quotient(s, tr.a, tr.b, tr.c, tr.z) {
        Err(err) => err == e,
        Ok(t) => split(t) == Err::<(Seq<u32>, Seq<u32>, Seq<u32>), _>(e),
    }
    &&& step == 4 ==> linearisation(s, tr.z, first_openings(s, tr.a, tr.b, tr.c, tr.z, tr.t, r0)) == Err::<
        Seq<u32>,
        _,
    >(e)
    &&& step == 5 ==> opening_w(s, Transcript { w: w0, wz: wz0, ..tr }) == Err::<Seq<u32>, _>(e)
    &&& step == 6 ==> opening_wz(s, tr.z, tr.evals.z) == Err::<Seq<u32>, _>(e)
}

/// The proof that belongs to a transcript: the commitments to its polynomials
/// on the points, in the group modulo `e`, and the values at the challenge;
/// or the failure of the first commitment that fails, in the order `a`, `b`,
/// `c`, `z`, `t_lo`, `t_mid`, `t_hi`, `w`, `wz`.
pub open spec fn proof_of(e: u32, points: Seq<CurvePoint>, tr: Transcript) -> Result<Proof, PlonkError> {
    match commit(e, tr.a, points) {
        Err(err) => Err(err),
        Ok(a) => match commit(e, tr.b, points) {
            Err(err) => Err(err),
            Ok(b) => match commit(e, tr.c, points) {
                Err(err) => Err(err),
                Ok(c) => match commit(e, tr.z, points) {
                    Err(err) => Err(err),
                    Ok(z) => match commit(e, tr.t_lo, points) {
                        Err(err) => Err(err),
                        Ok(t_lo) => match commit(e, tr.t_mid, points) {
                            Err(err) => Err(err),
                            Ok(t_mid) => match commit(e, tr.t_hi, points) {
                                Err(err) => Err(err),
                                Ok(t_hi) => match commit(e, tr.w, points) {
                                    Err(err) => Err(err),
                                    Ok(w) => match commit(e, tr.wz, points) {
                                        Err(err) => Err(err),
                                        Ok(wz) => Ok(
                                            Proof {
                                                a,
                                                b,
                                                c,
                                                z,
                                                t_lo,
                                                t_mid,
                                                t_hi,
                                                w,
                                                wz,
                                                a_bar: tr.evals.a,
                                                b_bar: tr.evals.b,
                                                c_bar: tr.evals.c,
                                                left_copy_bar: tr.evals.left_copy,
                                                right_copy_bar: tr.evals.right_copy,
                                                r_bar: tr.evals.r,
                                                z_bar: tr.evals.z,
                                            },
                                        ),
                                    },
                                },
                            },
                        },
                    },
                },
            },
        },
    }
}

/// The proof of a setup, given the accumulator of its circuit: the transcript,
/// then its commitments.
pub open spec fn prove(s: Setup, acc: Result<Seq<u32>, PlonkError>, e: u32, points: Seq<CurvePoint>) -> Result<
    Proof,
    PlonkError,
> {
    match transcript(s, acc) {
        Err(err) => Err(err),
        Ok(tr) => proof_of(e, points, tr),
    }
}

/// A polynomial over `field`, well formed and of at most `max_len` coefficients.
pub open spec fn poly_within(p: Polynomial, field: Field, max_len: int) -> bool {
    p.wf() && p.field == field && p@.len() <= max_len
}


/// In a circuit whose polynomials are built, no interpolation fails.
pub proof fn lemma_built_has_no_error(c: &Circuit)
    requires
        c.fixed_built(),
        c.wires_built(),
    ensures
        first_error(c.fixed_interpolations()) is None,
        first_error(c.wire_interpolations()) is None,
{
    reveal_with_fuel(first_error, 8);
}

impl ProverPolys {
    /// The polynomials agree but, at most, for those numbered from `from` up
    /// to, not including, `to`, in the order `a`, `b`, `c`, `z`, `t`, `t_lo`,
    /// `t_mid`, `t_hi`, `r`, `w`, `wz`.
    pub open spec fn same_except(&self, other: &ProverPolys, from: int, to: int) -> bool {
        &&& from <= 0 < to || self.a == other.a
        &&& from <= 1 < to || self.b == other.b
        &&& from <= 2 < to || self.c == other.c
        &&& from <= 3 < to || self.z == other.z
        &&& from <= 4 < to || self.t == other.t
        &&& from <= 5 < to || self.t_lo == other.t_lo
        &&& from <= 6 < to || self.t_mid == other.t_mid
        &&& from <= 7 < to || self.t_hi == other.t_hi
        &&& from <= 8 < to || self.r == other.r
        &&& from <= 9 < to || self.w == other.w
        &&& from <= 10 < to || self.wz == other.wz
    }
}

impl Prover {
    /// What this prover works a proof out from.
    pub open spec fn setup(&self) -> Setup {
        let c = self.py_circuit.circuit;
        Setup {
            n: self.field.order,
            roots: c.roots@,
            left: c.circuit_polys.left@,
            right: c.circuit_polys.right@,
            output: c.circuit_polys.output@,
            left_selector: c.circuit_polys.left_selector@,
            right_selector: c.circuit_polys.right_selector@,
            output_selector: c.circuit_polys.output_selector@,
            multiply_selector: c.circuit_polys.multiply_selector@,
            left_copy: c.circuit_polys.left_copy@,
            right_copy: c.circuit_polys.right_copy@,
            output_copy: c.circuit_polys.output_copy@,
            z_h: c.circuit_polys.z_h@,
            coin: self.pub_coin,
        }
    }

    /// The accumulator of the circuit for the coins `beta` and `gamma`.
    pub open spec fn acc_result(&self) -> Result<Seq<u32>, PlonkError> {
        self.py_circuit.circuit.acc_result(self.pub_coin.beta, self.pub_coin.gamma)
    }

    /// The number of roots of the domain.
    pub open spec fn domain_len(&self) -> int {
        self.py_circuit.circuit.roots@.len() as int
    }

    /// The prover can work: its circuit is built with its witness over the
    /// prover's field, the domain has four roots at least, the reference
    /// string has three points more than the domain has roots, and the coins
    /// are residues of the field.
    pub open spec fn wf(&self) -> bool {
        let c = self.py_circuit.circuit;
        &&& self.field == c.field
        &&& self.field.order > 0
        &&& self.ecc.field.order > 0
        &&& c.gates_fit()
        &&& c.fixed_built()
        &&& c.wires_built()
        &&& 3 <= c.gates@.len()
        &&& c.domain_covers(3)
        &&& 4 <= c.roots@.len() <= 0x0fff_ffff
        &&& c.roots@.len() + 3 <= self.srs.g_1_points@.len()
        &&& coin_canonical(self.pub_coin, self.field.order)
    }

    /// Circuit, but for its accumulator, reference string, group, field and
    /// coins are the same in both provers.
    pub open spec fn same_setup(&self, other: &Prover) -> bool {
        &&& self.py_circuit.circuit.same_wiring(&other.py_circuit.circuit)
        &&& self.py_circuit.circuit.circuit_polys.same_fixed(&other.py_circuit.circuit.circuit_polys)
        &&& self.py_circuit.circuit.circuit_polys.same_wires(&other.py_circuit.circuit.circuit_polys)
        &&& self.srs == other.srs
        &&& self.ecc == other.ecc
        &&& self.field == other.field
        &&& self.pub_coin == other.pub_coin
    }

    /// How far the prover has come: from stage 1 on the wire polynomials are
    /// there, from stage 2 on the accumulator, from stage 3 on the quotient
    /// and its parts, from stage 4 on the linearisation; each is well formed
    /// over the field and short enough to be committed to.
    pub open spec fn stage(&self, k: int) -> bool {
        let p = self.prover_polys;
        let m = self.domain_len();
        &&& k >= 1 ==> poly_within(p.a, self.field, m + 2) && poly_within(p.b, self.field, m + 2)
            && poly_within(p.c, self.field, m + 2)
        &&& k >= 2 ==> poly_within(p.z, self.field, m + 3)
        &&& k >= 3 ==> poly_within(p.t, self.field, 3 * m + 6) && poly_within(p.t_lo, self.field, m + 2)
            && poly_within(p.t_mid, self.field, m + 2) && poly_within(p.t_hi, self.field, m + 2)
        &&& k >= 4 ==> poly_within(p.r, self.field, m + 3)
    }

    /// The part of the transcript that is a record of polynomials: what the
    /// prover holds.
    pub open spec fn held(&self) -> Transcript {
        let p = self.prover_polys;
        Transcript {
            a: p.a@,
            b: p.b@,
            c: p.c@,
            z: p.z@,
            t: p.t@,
            t_lo: p.t_lo@,
            t_mid: p.t_mid@,
            t_hi: p.t_hi@,
            r: p.r@,
            w: p.w@,
            wz: p.wz@,
            evals: self.opening_evals,
        }
    }

    /// The prover is as `new` makes it for the field, the inputs and the
    /// reference string: the circuit built, the witness computed, the curve
    /// modulo 101, nothing worked out, no coins taken.
    pub open spec fn fresh(&self, field: Field, inputs: Seq<u32>, srs: SRS) -> bool {
        let c = self.py_circuit.circuit;
        &&& self.field == field
        &&& self.srs == srs
        &&& self.ecc.field.order == 101
        &&& self.pub_coin == PublicCoin::default_coin()
        &&& c.field == field
        &&& c.wiring() == template_wiring(field)
        &&& c.witness@ == template_witness(field, inputs)
        &&& c.inputs@ == pythagorean_inputs(inputs)
        &&& c.roots@.len() < u32::MAX
        &&& c.gates_fit()
        &&& c.fixed_built()
        &&& c.wires_built()
        &&& c.circuit_polys.acc.unbuilt()
        &&& self.prover_polys.unbuilt()
        &&& self.opening_evals == OpeningEvals::blank()
    }

    /// A prover for the three inputs over the field, with the circuit built
    /// and the witness computed. The curve is the one modulo 101. Fails where
    /// an interpolation of the circuit fails.
    pub fn new(field: Field, inputs: Vec<u32>, srs: SRS) -> (res: Result<Prover, PlonkError>)
        requires
            has_domain(field),
            inputs@.len() >= 3,
        ensures
            match res {
                Ok(p) => p.fresh(field, inputs@, srs) && template_error(field, inputs@) is None,
                Err(e) => template_error(field, inputs@) == Some(e),
            },
    {
        let mut py_circuit = PythagoreanCircuit::new(field);
        let res = py_circuit.build_circuit_with_inputs(inputs);
        proof {
            assert(py_circuit.circuit.gates@ =~= pythagorean_gates());
            assert(py_circuit.circuit.wiring() == template_wiring(field));
        }
        match res {
            Ok(()) => {
                proof {
                    lemma_built_has_no_error(&py_circuit.circuit);
                }
            },
            Err(e) => {
                return Err(e);
            },
        }
        let ecc = ECC { field: Field { order: 101 } };
        let prover = Prover {
            py_circuit,
            srs,
            ecc,
            field,
            prover_polys: ProverPolys::default(),
            opening_evals: OpeningEvals::default(),
            pub_coin: PublicCoin::default(),
        };
        proof {
            let c = prover.py_circuit.circuit;
            assert(prover.srs == srs);
            assert(prover.pub_coin == PublicCoin::default_coin());
            assert(c.wiring() == template_wiring(field));
            assert(c.gates_fit());
            assert(c.fixed_built());
            assert(c.wires_built());
        }
        Ok(prover)
    }

    /// The prover stopped where step `step` failed with `e`, having set out
    /// as `before`: it holds what the steps before that one gave, and what
    /// it held of the rest before.
    pub open spec fn stopped_at(&self, before: &Prover, step: int, e: PlonkError) -> bool {
        let s = before.setup();
        let acc = before.acc_result();
        let r0 = before.opening_evals.r;
        let w0 = before.prover_polys.w@;
        let wz0 = before.prover_polys.wz@;
        let tr = self.held();
        let written: int = if step == 2 {
            3
        } else if step == 3 {
            4
        } else if step == 4 {
            8
        } else if step == 5 {
            9
        } else {
            10
        };
        &&& 2 <= step <= 6
        &&& steps_done(s, acc, tr, r0, w0, wz0, step)
        &&& step_fails(s, acc, tr, r0, w0, wz0, step, e)
        &&& self.prover_polys.same_except(&before.prover_polys, 0, written)
        &&& step == 2 ==> self.py_circuit == before.py_circuit
        &&& step > 2 ==> self.py_circuit.circuit.acc_built(before.pub_coin.beta, before.pub_coin.gamma)
        &&& step <= 3 ==> self.opening_evals == before.opening_evals
        &&& step == 4 ==> self.opening_evals == first_openings(s, tr.a, tr.b, tr.c, tr.z, tr.t, r0)
        &&& self.stage(
            if step <= 4 {
                step - 1
            } else {
                4
            },
        )
        &&& step == 6 ==> poly_within(self.prover_polys.w, before.field, before.domain_len() + 2)
    }

    /// The prover has worked out the whole transcript, having set out as
    /// `before`: it holds the transcript of that setup, every polynomial of
    /// it well formed over the field and short enough to be committed to,
    /// and its circuit holds the accumulator for the coins.
    pub open spec fn worked_out(&self, before: &Prover) -> bool {
        &&& self.stage(4)
        &&& self.py_circuit.circuit.acc_built(before.pub_coin.beta, before.pub_coin.gamma)
        &&& poly_within(self.prover_polys.w, before.field, before.domain_len() + 2)
        &&& poly_within(self.prover_polys.wz, before.field, before.domain_len() + 2)
        &&& self.can_commit()
        &&& transcript(before.setup(), before.acc_result()) == Ok::<_, PlonkError>(self.held())
    }

    /// Works out the polynomials and values of the transcript, step after
    /// step. Where a step fails, what the steps before it worked out stays
    /// held.
    pub fn work_out(&mut self) -> (res: Result<(), PlonkError>)
        requires
            old(self).wf(),
        ensures
            final(self).same_setup(old(self)),
            final(self).wf(),
            match res {
                Ok(()) => final(self).worked_out(old(self)),
                Err(e) => {
                    &&& transcript(old(self).setup(), old(self).acc_result()) == Err::<Transcript, _>(e)
                    &&& exists|step: int| final(self).stopped_at(old(self), step, e)
                },
            },
    {
        let ghost s = self.setup();
        let ghost acc = self.acc_result();
        let ghost r0 = self.opening_evals.r;
        let ghost w0 = self.prover_polys.w@;
        let ghost wz0 = self.prover_polys.wz@;
        self.set_wire_polys();
        assert(self.setup() == s);
        assert(steps_done(s, acc, self.held(), r0, w0, wz0, 2));
        match self.set_z_poly() {
            Ok(()) => {},
            Err(e) => {
                proof {
                    lemma_transcript_fails(s, acc, self.held(), r0, w0, wz0, 2, e);
                    assert(self.stopped_at(old(self), 2, e));
                }
                return Err(e);
            },
        }
        assert(self.setup() == s);
        assert(steps_done(s, acc, self.held(), r0, w0, wz0, 3));
        match self.set_t_polys() {
            Ok(()) => {},
            Err(e) => {
                proof {
                    lemma_transcript_fails(s, acc, self.held(), r0, w0, wz0, 3, e);
                    assert(self.stopped_at(old(self), 3, e));
                }
                return Err(e);
            },
        }
        assert(self.setup() == s);
        self.set_first_opening_evals();
        assert(self.setup() == s);
        assert(steps_done(s, acc, self.held(), r0, w0, wz0, 4));
        match self.set_r_poly() {
            Ok(()) => {},
            Err(e) => {
                proof {
                    lemma_transcript_fails(s, acc, self.held(), r0, w0, wz0, 4, e);
                    assert(self.stopped_at(old(self), 4, e));
                }
                return Err(e);
            },
        }
        self.set_r_opening_eval();
        assert(self.setup() == s);
        assert(steps_done(s, acc, self.held(), r0, w0, wz0, 5));
        match self.set_w_poly() {
            Ok(()) => {},
            Err(e) => {
                proof {
                    assert(self.held() == Transcript { w: w0, wz: wz0, ..self.held() });
                    lemma_transcript_fails(s, acc, self.held(), r0, w0, wz0, 5, e);
                    assert(self.stopped_at(old(self), 5, e));
                }
                return Err(e);
            },
        }
        assert(self.setup() == s);
        assert(steps_done(s, acc, self.held(), r0, w0, wz0, 6));
        match self.set_wz_poly() {
            Ok(()) => {},
            Err(e) => {
                proof {
                    lemma_transcript_fails(s, acc, self.held(), r0, w0, wz0, 6, e);
                    assert(self.stopped_at(old(self), 6, e));
                }
                return Err(e);
            },
        }
        assert(self.setup() == s);
        assert(steps_done(s, acc, self.held(), r0, w0, wz0, 7));
        proof {
            lemma_transcript_assembled(s, acc, self.held(), r0, w0, wz0);
        }
        Ok(())
    }

    /// Works out the proof: the polynomials of the transcript, step after
    /// step, and then their commitments. Where a step fails, what the steps
    /// before it worked out stays held; where a commitment fails, the whole
    /// transcript does. The prover can work on afterwards either way.
    pub fn generate_proof(&mut self) -> (res: Result<Proof, PlonkError>)
        requires
            old(self).wf(),
        ensures
            final(self).same_setup(old(self)),
            final(self).wf(),
            res == prove(
                old(self).setup(),
                old(self).acc_result(),
                old(self).ecc.field.order,
                old(self).srs.g_1_points@,
            ),
            match res {
                Ok(_) => final(self).worked_out(old(self)),
                Err(e) => {
                    ||| final(self).worked_out(old(self))
                    ||| exists|step: int| final(self).stopped_at(old(self), step, e)
                },
            },
    {
        self.work_out()?;
        proof {
            reveal(transcript);
        }
        self.commit_all()
    }

    /// Every polynomial held is short enough for the points of the reference
    /// string.
    pub open spec fn can_commit(&self) -> bool {
        let p = self.prover_polys;
        let len = self.srs.g_1_points@.len();
        &&& self.ecc.field.order > 0
        &&& p.a@.len() <= len && p.b@.len() <= len && p.c@.len() <= len && p.z@.len() <= len
        &&& p.t_lo@.len() <= len && p.t_mid@.len() <= len && p.t_hi@.len() <= len
        &&& p.w@.len() <= len && p.wz@.len() <= len
    }

    /// Step 8: the proof of the transcript held, by the commitments to its
    /// polynomials.
    pub fn commit_all(&self) -> (res: Result<Proof, PlonkError>)
        requires
            self.can_commit(),
        ensures
            res == proof_of(self.ecc.field.order, self.srs.g_1_points@, self.held()),
    {
        let a = self.commit_poly(&self.prover_polys.a)?;
        let b = self.commit_poly(&self.prover_polys.b)?;
        let c = self.commit_poly(&self.prover_polys.c)?;
        let z = self.commit_poly(&self.prover_polys.z)?;
        let t_lo = self.commit_poly(&self.prover_polys.t_lo)?;
        let t_mid = self.commit_poly(&self.prover_polys.t_mid)?;
        let t_hi = self.commit_poly(&self.prover_polys.t_hi)?;
        let w = self.commit_poly(&self.prover_polys.w)?;
        let wz = self.commit_poly(&self.prover_polys.wz)?;
        Ok(
            Proof {
                a,
                b,
                c,
                z,
                t_lo,
                t_mid,
                t_hi,
                w,
                wz,
                a_bar: self.opening_evals.a,
                b_bar: self.opening_evals.b,
                c_bar: self.opening_evals.c,
                left_copy_bar: self.opening_evals.left_copy,
                right_copy_bar: self.opening_evals.right_copy,
                r_bar: self.opening_evals.r,
                z_bar: self.opening_evals.z,
            },
        )
    }

    /// Takes the coins of the proof to come.
    pub fn set_public_coin(&mut self, public_coin: PublicCoin)
        ensures
            final(self).pub_coin == public_coin,
            final(self).py_circuit == old(self).py_circuit,
            final(self).srs == old(self).srs,
            final(self).ecc == old(self).ecc,
            final(self).field == old(self).field,
            final(self).prover_polys == old(self).prover_polys,
            final(self).opening_evals == old(self).opening_evals,
    {
        self.pub_coin = public_coin;
    }

    /// Step 1: the blinded wire polynomials `a`, `b` and `c`.
    pub fn set_wire_polys(&mut self)
        requires
            old(self).wf(),
        ensures
            final(self).same_setup(old(self)),
            final(self).py_circuit == old(self).py_circuit,
            final(self).opening_evals == old(self).opening_evals,
            final(self).prover_polys.same_except(&old(self).prover_polys, 0, 3),
            final(self).wf(),
            final(self).stage(1),
            final(self).prover_polys.a@ == blinded_wire(
                old(self).setup(),
                old(self).setup().left,
                old(self).pub_coin.b2,
                old(self).pub_coin.b1,
            ),
            final(self).prover_polys.b@ == blinded_wire(
                old(self).setup(),
                old(self).setup().right,
                old(self).pub_coin.b4,
                old(self).pub_coin.b3,
            ),
            final(self).prover_polys.c@ == blinded_wire(
                old(self).setup(),
                old(self).setup().output,
                old(self).pub_coin.b6,
                old(self).pub_coin.b5,
            ),
    {
        let a = self.get_blinded_wire_poly(
            &self.py_circuit.circuit.circuit_polys.left,
            self.pub_coin.b2,
            self.pub_coin.b1,
        );
        let b = self.get_blinded_wire_poly(
            &self.py_circuit.circuit.circuit_polys.right,
            self.pub_coin.b4,
            self.pub_coin.b3,
        );
        let c = self.get_blinded_wire_poly(
            &self.py_circuit.circuit.circuit_polys.output,
            self.pub_coin.b6,
            self.pub_coin.b5,
        );
        self.prover_polys.a = a;
        self.prover_polys.b = b;
        self.prover_polys.c = c;
    }

    /// Step 2: the blinded accumulator `z`, for which the accumulator of the
    /// circuit is built. Nothing is changed where that fails.
    pub fn set_z_poly(&mut self) -> (res: Result<(), PlonkError>)
        requires
            old(self).wf(),
            old(self).stage(1),
        ensures
            final(self).same_setup(old(self)),
            final(self).opening_evals == old(self).opening_evals,
            final(self).prover_polys.same_except(&old(self).prover_polys, 3, 4),
            final(self).wf(),
            match res {
                Ok(()) => {
                    &&& final(self).stage(2)
                    &&& final(self).py_circuit.circuit.acc_built(
                        old(self).pub_coin.beta,
                        old(self).pub_coin.gamma,
                    )
                    &&& old(self).acc_result() is Ok
                    &&& final(self).prover_polys.z@ == blinded_acc(
                        old(self).setup(),
                        old(self).acc_result().unwrap(),
                        old(self).pub_coin.b9,
                        old(self).pub_coin.b8,
                        old(self).pub_coin.b7,
                    )
                },
                Err(e) => old(self).acc_result() == Err::<Seq<u32>, _>(e) && *final(self) == *old(self),
            },
    {
        let z = self.get_blinded_z_poly(
            self.pub_coin.b9,
            self.pub_coin.b8,
            self.pub_coin.b7,
            self.pub_coin.beta,
            self.pub_coin.gamma,
        )?;
        self.prover_polys.z = z;
        Ok(())
    }

    /// Steps 3 and 4: the quotient `t` and its three parts. Nothing is
    /// changed where the quotient cannot be formed or split.
    pub fn set_t_polys(&mut self) -> (res: Result<(), PlonkError>)
        requires
            old(self).wf(),
            old(self).stage(2),
        ensures
            final(self).same_setup(old(self)),
            final(self).py_circuit == old(self).py_circuit,
            final(self).opening_evals == old(self).opening_evals,
            final(self).prover_polys.same_except(&old(self).prover_polys, 4, 8),
            final(self).wf(),
            match (res, old(self).quotient_and_parts()) {
                (Ok(()), Ok((t, (t_lo, t_mid, t_hi)))) => {
                    &&& final(self).stage(3)
                    &&& final(self).prover_polys.t@ == t
                    &&& final(self).prover_polys.t_lo@ == t_lo
                    &&& final(self).prover_polys.t_mid@ == t_mid
                    &&& final(self).prover_polys.t_hi@ == t_hi
                },
                (Err(e), Err(expected)) => e == expected && *final(self) == *old(self),
                _ => false,
            },
    {
        let t = self.get_t_poly()?;
        let mut t_lo_coefficients: Vec<u32> = Vec::new();
        let mut t_mid_coefficients: Vec<u32> = Vec::new();
        let mut t_hi_coefficients: Vec<u32> = Vec::new();

        let num_coefficients: usize = t.coefficients.len() / 3;
        if num_coefficients == 0 {
            return Err(PlonkError::InvalidDegree);
        }
        let mut i: usize = 0;
        while i < num_coefficients
            invariant
                num_coefficients == t@.len() / 3,
                3 * num_coefficients <= t@.len(),
                t@.len() == t.coefficients.len(),
                i <= num_coefficients,
                t_lo_coefficients@ == t@.subrange(0, i as int),
                t_mid_coefficients@ == t@.subrange(num_coefficients as int, num_coefficients + i),
                t_hi_coefficients@ == t@.subrange(2 * num_coefficients, 2 * num_coefficients + i),
            decreases num_coefficients - i,
        {
            t_lo_coefficients.push(t.coefficients[i]);
            t_mid_coefficients.push(t.coefficients[num_coefficients + i]);
            t_hi_coefficients.push(t.coefficients[num_coefficients * 2 + i]);
            proof {
                assert(t_lo_coefficients@ =~= t@.subrange(0, i + 1));
                assert(t_mid_coefficients@ =~= t@.subrange(
                    num_coefficients as int,
                    num_coefficients + i + 1,
                ));
                assert(t_hi_coefficients@ =~= t@.subrange(
                    2 * num_coefficients,
                    2 * num_coefficients + i + 1,
                ));
            }
            i = i + 1;
        }
        let part_degree: u32 = (num_coefficients - 1) as u32;
        self.prover_polys.t = t.copy();
        self.prover_polys.t_lo =
        Polynomial { degree: part_degree, coefficients: t_lo_coefficients, field: t.field };
        self.prover_polys.t_mid =
        Polynomial { degree: part_degree, coefficients: t_mid_coefficients, field: t.field };
        self.prover_polys.t_hi =
        Polynomial { degree: part_degree, coefficients: t_hi_coefficients, field: t.field };
        Ok(())
    }

    /// The quotient and its parts, as the polynomials held so far give them.
    pub open spec fn quotient_and_parts(&self) -> Result<
        (Seq<u32>, (Seq<u32>, Seq<u32>, Seq<u32>)),
        PlonkError,
    > {
        let p = self.prover_polys;
        match quotient(self.setup(), p.a@, p.b@, p.c@, p.z@) {
            Err(e) => Err(e),
            Ok(t) => match split(t) {
                Err(e) => Err(e),
                Ok(parts) => Ok((t, parts)),
            },
        }
    }

    /// Step 6: the linearisation polynomial `r`. Nothing is changed where it
    /// cannot be formed.
    pub fn set_r_poly(&mut self) -> (res: Result<(), PlonkError>)
        requires
            old(self).wf(),
            old(self).stage(3),
        ensures
            final(self).same_setup(old(self)),
            final(self).py_circuit == old(self).py_circuit,
            final(self).opening_evals == old(self).opening_evals,
            final(self).prover_polys.same_except(&old(self).prover_polys, 8, 9),
            final(self).wf(),
            match res {
                Ok(()) => {
                    &&& final(self).stage(4)
                    &&& old(self).linearisation_held() == Ok::<_, PlonkError>(final(self).prover_polys.r@)
                },
                Err(e) => old(self).linearisation_held() == Err::<Seq<u32>, _>(e) && *final(self) == *old(
                    self,
                ),
            },
    {
        let r = self.get_r_poly()?;
        self.prover_polys.r = r;
        Ok(())
    }

    /// The linearisation, as the accumulator and the values held give it.
    pub open spec fn linearisation_held(&self) -> Result<Seq<u32>, PlonkError> {
        linearisation(self.setup(), self.prover_polys.z@, self.opening_evals)
    }

    /// Step 7: the opening polynomial `W`. Nothing is changed where it cannot
    /// be formed.
    pub fn set_w_poly(&mut self) -> (res: Result<(), PlonkError>)
        requires
            old(self).wf(),
            old(self).stage(4),
        ensures
            final(self).same_setup(old(self)),
            final(self).py_circuit == old(self).py_circuit,
            final(self).opening_evals == old(self).opening_evals,
            final(self).prover_polys.same_except(&old(self).prover_polys, 9, 10),
            final(self).wf(),
            final(self).stage(4),
            match res {
                Ok(()) => {
                    &&& opening_w(old(self).setup(), old(self).held()) == Ok::<_, PlonkError>(
                        final(self).prover_polys.w@,
                    )
                    &&& poly_within(final(self).prover_polys.w, old(self).field, old(self).domain_len() + 2)
                },
                Err(e) => opening_w(old(self).setup(), old(self).held()) == Err::<Seq<u32>, _>(e)
                    && *final(self) == *old(self),
            },
    {
        let w = self.get_w_poly()?;
        self.prover_polys.w = w;
        Ok(())
    }

    /// Step 7, second part: the opening polynomial `W_z`. Nothing is changed
    /// where it cannot be formed.
    pub fn set_wz_poly(&mut self) -> (res: Result<(), PlonkError>)
        requires
            old(self).wf(),
            old(self).stage(4),
        ensures
            final(self).same_setup(old(self)),
            final(self).py_circuit == old(self).py_circuit,
            final(self).opening_evals == old(self).opening_evals,
            final(self).prover_polys.same_except(&old(self).prover_polys, 10, 11),
            final(self).wf(),
            final(self).stage(4),
            match res {
                Ok(()) => {
                    &&& opening_wz(old(self).setup(), old(self).prover_polys.z@, old(self).opening_evals.z)
                        == Ok::<_, PlonkError>(final(self).prover_polys.wz@)
                    &&& poly_within(final(self).prover_polys.wz, old(self).field, old(self).domain_len() + 2)
                },
                Err(e) => opening_wz(old(self).setup(), old(self).prover_polys.z@, old(self).opening_evals.z)
                    == Err::<Seq<u32>, _>(e) && *final(self) == *old(self),
            },
    {
        let wz = self.get_wz_poly()?;
        self.prover_polys.wz = wz;
        Ok(())
    }

    /// Step 5: the values at the challenge of all polynomials but `r`.
    pub fn set_first_opening_evals(&mut self)
        requires
            old(self).wf(),
            old(self).stage(3),
        ensures
            final(self).same_setup(old(self)),
            final(self).py_circuit == old(self).py_circuit,
            final(self).prover_polys == old(self).prover_polys,
            final(self).opening_evals == first_openings(
                old(self).setup(),
                old(self).prover_polys.a@,
                old(self).prover_polys.b@,
                old(self).prover_polys.c@,
                old(self).prover_polys.z@,
                old(self).prover_polys.t@,
                old(self).opening_evals.r,
            ),
    {
        let zed = self.pub_coin.zed;
        self.opening_evals.a = self.prover_polys.a.eval(zed);
        self.opening_evals.b = self.prover_polys.b.eval(zed);
        self.opening_evals.c = self.prover_polys.c.eval(zed);
        self.opening_evals.left_copy = self.py_circuit.circuit.circuit_polys.left_copy.eval(zed);
        self.opening_evals.right_copy = self.py_circuit.circuit.circuit_polys.right_copy.eval(zed);
        self.opening_evals.t = self.prover_polys.t.eval(zed);
        self.opening_evals.z =
        self.prover_polys.z.eval(self.field.multiply(zed, self.py_circuit.circuit.roots[1]));
    }

    /// Step 6, second part: the value of `r` at the challenge.
    pub fn set_r_opening_eval(&mut self)
        requires
            old(self).wf(),
            old(self).stage(4),
        ensures
            final(self).same_setup(old(self)),
            final(self).py_circuit == old(self).py_circuit,
            final(self).prover_polys == old(self).prover_polys,
            final(self).opening_evals == (OpeningEvals {
                r: peval(old(self).field.order, old(self).prover_polys.r@, old(self).pub_coin.zed),
                ..old(self).opening_evals
            }),
    {
        self.opening_evals.r = self.prover_polys.r.eval(self.pub_coin.zed);
    }

    /// The commitment to a polynomial on the points of the reference string.
    pub fn commit_poly(&self, poly: &Polynomial) -> (res: Result<CurvePoint, PlonkError>)
        requires
            self.ecc.field.order > 0,
            poly@.len() <= self.srs.g_1_points@.len(),
        ensures
            res == commit(self.ecc.field.order, poly@, self.srs.g_1_points@),
    {
        commit_on(&self.ecc, &self.srs.g_1_points, poly)
    }

    /// A polynomial from coefficients that are residues of the field.
    fn poly_of(&self, coefficients: Vec<u32>) -> (r: Polynomial)
        requires
            self.field.order > 0,
            1 <= coefficients@.len() <= 3,
            canonical(coefficients@, self.field.order),
        ensures
            r@ == coefficients@,
            r.wf(),
            r.field == self.field,
    {
        Polynomial { degree: (coefficients.len() - 1) as u32, coefficients, field: self.field }
    }

    /// A wire polynomial, blinded by `(rand1 + rand2 X) z_h`.
    pub fn get_blinded_wire_poly(&self, wire_poly: &Polynomial, rand1: u32, rand2: u32) -> (r: Polynomial)
        requires
            self.wf(),
            poly_within(*wire_poly, self.field, 4),
            rand1 < self.field.order,
            rand2 < self.field.order,
        ensures
            r@ == blinded_wire(self.setup(), wire_poly@, rand1, rand2),
            poly_within(r, self.field, self.domain_len() + 2),
    {
        let blinded_z_poly = self.get_blinded_z_h_poly(1, vec![rand1, rand2]);
        Polynomial::poly_add(&blinded_z_poly, wire_poly)
    }

    /// The accumulator of the circuit, built for `beta` and `gamma` and
    /// blinded by `(rand1 + rand2 X + rand3 X^2) z_h`. Nothing is changed
    /// where the accumulator cannot be built.
    pub fn get_blinded_z_poly(
        &mut self,
        rand1: u32,
        rand2: u32,
        rand3: u32,
        beta: u32,
        gamma: u32,
    ) -> (res: Result<Polynomial, PlonkError>)
        requires
            old(self).wf(),
            rand1 < old(self).field.order,
            rand2 < old(self).field.order,
            rand3 < old(self).field.order,
        ensures
            final(self).same_setup(old(self)),
            final(self).prover_polys == old(self).prover_polys,
            final(self).opening_evals == old(self).opening_evals,
            final(self).wf(),
            match res {
                Ok(z) => {
                    &&& old(self).py_circuit.circuit.acc_result(beta, gamma) is Ok
                    &&& final(self).py_circuit.circuit.acc_built(beta, gamma)
                    &&& z@ == blinded_acc(
                        old(self).setup(),
                        old(self).py_circuit.circuit.acc_result(beta, gamma).unwrap(),
                        rand1,
                        rand2,
                        rand3,
                    )
                    &&& poly_within(z, old(self).field, old(self).domain_len() + 3)
                },
                Err(e) => old(self).py_circuit.circuit.acc_result(beta, gamma) == Err::<Seq<u32>, _>(e)
                    && *final(self) == *old(self),
            },
    {
        let blinded_z_poly = self.get_blinded_z_h_poly(2, vec![rand1, rand2, rand3]);
        self.py_circuit.build_acc(beta, gamma)?;
        let acc_poly = &self.py_circuit.circuit.circuit_polys.acc;
        Ok(Polynomial::poly_add(&blinded_z_poly, acc_poly))
    }

    /// The blinding polynomial with the given coefficients, times `z_h`.
    pub fn get_blinded_z_h_poly(&self, degree: u32, rands: Vec<u32>) -> (r: Polynomial)
        requires
            self.wf(),
            1 <= rands@.len() <= 3,
            rands@.len() == degree + 1,
            canonical(rands@, self.field.order),
        ensures
            r@ == blinded(self.setup(), rands@),
            poly_within(r, self.field, self.domain_len() + rands@.len()),
    {
        let blinding_poly = Polynomial { degree, coefficients: rands, field: self.field };
        Polynomial::poly_multiply(&self.py_circuit.circuit.circuit_polys.z_h, &blinding_poly)
    }
}

impl Prover {
    /// `z(omega X)` for the accumulator held.
    fn shifted_z(&self) -> (r: Polynomial)
        requires
            self.wf(),
            self.stage(2),
        ensures
            r@ == shifted(self.setup(), self.prover_polys.z@),
            poly_within(r, self.field, self.domain_len() + 3),
    {
        let ghost n = self.field.order;
        let z = &self.prover_polys.z;
        let root = self.py_circuit.circuit.roots[1];
        let mut coefficients: Vec<u32> = Vec::new();
        let mut i: usize = 0;
        while i < z.coefficients.len()
            invariant
                n == self.field.order,
                n > 0,
                z.wf(),
                z@.len() <= 0x1000_0002,
                i <= z@.len(),
                coefficients@.len() == i,
                forall|j: int|
                    0 <= j < i ==> (#[trigger] coefficients@[j]) == fmul(n, fpow(n, root, j as nat), z@[j]),
                forall|j: int| 0 <= j < i ==> (#[trigger] coefficients@[j]) < n,
            decreases z@.len() - i,
        {
            coefficients.push(self.field.multiply(self.field.exponent(root, i as u32), z.coefficients[i]));
            i = i + 1;
        }
        proof {
            assert(coefficients@ =~= shifted(self.setup(), z@));
        }
        Polynomial { degree: z.degree, coefficients, field: z.field }
    }

    /// The constraint of the gates on the wire polynomials held.
    fn gate_constraint_poly(&self) -> (r: Polynomial)
        requires
            self.wf(),
            self.stage(1),
        ensures
            r@ == gate_constraint(
                self.setup(),
                self.prover_polys.a@,
                self.prover_polys.b@,
                self.prover_polys.c@,
            ),
            poly_within(r, self.field, 2 * self.domain_len() + 6),
    {
        let polys = &self.py_circuit.circuit.circuit_polys;
        let (a, b, c) = (&self.prover_polys.a, &self.prover_polys.b, &self.prover_polys.c);
        let mut first_term = Polynomial::poly_multiply(a, b);
        first_term = Polynomial::poly_multiply(&first_term, &polys.multiply_selector);
        first_term = Polynomial::poly_add(&first_term, &Polynomial::poly_multiply(a, &polys.left_selector));
        first_term = Polynomial::poly_add(&first_term, &Polynomial::poly_multiply(b, &polys.right_selector));
        first_term = Polynomial::poly_add(&first_term, &Polynomial::poly_multiply(c, &polys.output_selector));
        first_term
    }

    /// The numerator of the permutation, of the polynomials held.
    fn permutation_numerator_poly(&self) -> (r: Polynomial)
        requires
            self.wf(),
            self.stage(2),
        ensures
            r@ == permutation_numerator(
                self.setup(),
                self.prover_polys.a@,
                self.prover_polys.b@,
                self.prover_polys.c@,
                self.prover_polys.z@,
            ),
            poly_within(r, self.field, 4 * self.domain_len() + 6),
    {
        let (a, b, c, z) = (
            &self.prover_polys.a,
            &self.prover_polys.b,
            &self.prover_polys.c,
            &self.prover_polys.z,
        );
        let (alpha, beta, gamma) = (self.pub_coin.alpha, self.pub_coin.beta, self.pub_coin.gamma);
        let helper1 = self.poly_of(vec![gamma, beta]);
        let helper2 = self.poly_of(vec![gamma, self.field.multiply(2, beta)]);
        let helper3 = self.poly_of(vec![gamma, self.field.multiply(3, beta)]);
        let mut second_term = Polynomial::poly_add(a, &helper1);
        second_term = Polynomial::poly_multiply(&second_term, &Polynomial::poly_add(b, &helper2));
        second_term = Polynomial::poly_multiply(&second_term, &Polynomial::poly_add(c, &helper3));
        second_term = Polynomial::poly_multiply(&second_term, z);
        second_term.scalar_multiply(alpha)
    }

    /// The denominator of the permutation, negated, of the polynomials held.
    fn permutation_denominator_poly(&self) -> (r: Polynomial)
        requires
            self.wf(),
            self.stage(2),
        ensures
            r@ == permutation_denominator(
                self.setup(),
                self.prover_polys.a@,
                self.prover_polys.b@,
                self.prover_polys.c@,
                self.prover_polys.z@,
            ),
            poly_within(r, self.field, 4 * self.domain_len() + 6),
    {
        let polys = &self.py_circuit.circuit.circuit_polys;
        let (a, b, c) = (&self.prover_polys.a, &self.prover_polys.b, &self.prover_polys.c);
        let (alpha, beta, gamma) = (self.pub_coin.alpha, self.pub_coin.beta, self.pub_coin.gamma);
        let gamma_poly = self.poly_of(vec![gamma]);
        assert(gamma_poly@ =~= seq![gamma]);
        let mut third_term = Polynomial::poly_add(
            &Polynomial::poly_add(a, &polys.left_copy.scalar_multiply(beta)),
            &gamma_poly,
        );
        third_term =
        Polynomial::poly_multiply(
            &third_term,
            &Polynomial::poly_add(
                b,
                &Polynomial::poly_add(&polys.right_copy.scalar_multiply(beta), &gamma_poly),
            ),
        );
        third_term =
        Polynomial::poly_multiply(
            &third_term,
            &Polynomial::poly_add(
                c,
                &Polynomial::poly_add(&polys.output_copy.scalar_multiply(beta), &gamma_poly),
            ),
        );
        let z_at_w_x = self.shifted_z();
        third_term = Polynomial::poly_multiply(&third_term, &z_at_w_x);
        third_term = third_term.scalar_multiply(alpha);
        Polynomial::additive_inverse_poly(&third_term)
    }

    /// The condition on the first row, of the accumulator held.
    fn first_row_poly(&self, lagrange_1: &Polynomial) -> (r: Polynomial)
        requires
            self.wf(),
            self.stage(2),
            poly_within(*lagrange_1, self.field, 4),
        ensures
            r@ == first_row(self.setup(), self.prover_polys.z@, lagrange_1@),
            poly_within(r, self.field, self.domain_len() + 6),
    {
        let inverse_one_poly = Polynomial::from_scalar(self.field.additive_inverse(1), self.field);
        let mut fourth_term = Polynomial::poly_add(&self.prover_polys.z, &inverse_one_poly);
        fourth_term = Polynomial::poly_multiply(&fourth_term, lagrange_1);
        fourth_term.scalar_multiply(self.field.exponent(self.pub_coin.alpha, 2))
    }

    /// Step 3: the quotient polynomial `t`: the constraint of the gates, the two
    /// sides of the permutation and the condition on the first row, over
    /// `z_h`. Fails with `CircuitNotSatisfied` where `z_h` does not divide.
    pub fn get_t_poly(&self) -> (res: Result<Polynomial, PlonkError>)
        requires
            self.wf(),
            self.stage(2),
        ensures
            match res {
                Ok(t) => {
                    &&& quotient(
                        self.setup(),
                        self.prover_polys.a@,
                        self.prover_polys.b@,
                        self.prover_polys.c@,
                        self.prover_polys.z@,
                    ) == Ok::<_, PlonkError>(t@)
                    &&& poly_within(t, self.field, 3 * self.domain_len() + 6)
                },
                Err(e) => quotient(
                    self.setup(),
                    self.prover_polys.a@,
                    self.prover_polys.b@,
                    self.prover_polys.c@,
                    self.prover_polys.z@,
                ) == Err::<Seq<u32>, _>(e),
            },
    {
        let first_term = self.gate_constraint_poly();
        let second_term = self.permutation_numerator_poly();
        let third_term = self.permutation_denominator_poly();
        let lagrange_1 = Polynomial::get_lagrange_1_poly(
            &self.field,
            (self.py_circuit.circuit.roots.len() - 1) as u32,
            &self.py_circuit.circuit.roots,
        )?;
        let fourth_term = self.first_row_poly(&lagrange_1);

        let t_z = Polynomial::poly_add(
            &first_term,
            &Polynomial::poly_add(&second_term, &Polynomial::poly_add(&third_term, &fourth_term)),
        );

        let (quotient, remainder) = Polynomial::poly_divide(&t_z, &self.py_circuit.circuit.circuit_polys.z_h)?;
        if remainder.coefficients.len() == 1 && remainder.coefficients[0] == 0 {
            Ok(quotient)
        } else {
            Err(PlonkError::CircuitNotSatisfied)
        }
    }

    /// `w + beta x + gamma` in the field.
    fn challenge_term(&self, w: u32, x: u32, beta: u32) -> (r: u32)
        requires
            self.field.order > 0,
        ensures
            r == challenge_term(self.field.order, w, x, beta, self.pub_coin.gamma),
    {
        self.field.add(w, self.field.add(self.field.multiply(beta, x), self.pub_coin.gamma))
    }

    /// Step 6: the linearisation polynomial `r`, in which the values held
    /// stand for the wires and the first two copy constraints.
    pub fn get_r_poly(&self) -> (res: Result<Polynomial, PlonkError>)
        requires
            self.wf(),
            self.stage(2),
        ensures
            match res {
                Ok(r) => {
                    &&& linearisation(self.setup(), self.prover_polys.z@, self.opening_evals) == Ok::<
                        _,
                        PlonkError,
                    >(r@)
                    &&& poly_within(r, self.field, self.domain_len() + 3)
                },
                Err(e) => linearisation(self.setup(), self.prover_polys.z@, self.opening_evals) == Err::<
                    Seq<u32>,
                    _,
                >(e),
            },
    {
        let polys = &self.py_circuit.circuit.circuit_polys;
        let evals = &self.opening_evals;
        let (alpha, beta, zed) = (self.pub_coin.alpha, self.pub_coin.beta, self.pub_coin.zed);
        let field = &self.field;

        let first_term = Polynomial::poly_add(
            &polys.multiply_selector.scalar_multiply(field.multiply(evals.a, evals.b)),
            &Polynomial::poly_add(
                &polys.left_selector.scalar_multiply(evals.a),
                &Polynomial::poly_add(
                    &polys.right_selector.scalar_multiply(evals.b),
                    &polys.output_selector.scalar_multiply(evals.c),
                ),
            ),
        );

        let second_term_scalar = field.multiply(
            field.multiply(
                self.challenge_term(evals.a, zed, beta),
                field.multiply(
                    self.challenge_term(evals.b, zed, field.multiply(beta, 2)),
                    self.challenge_term(evals.c, zed, field.multiply(beta, 3)),
                ),
            ),
            alpha,
        );
        let second_term = self.prover_polys.z.scalar_multiply(second_term_scalar);

        let third_term_scalar = field.multiply(
            field.multiply(
                self.challenge_term(evals.a, evals.left_copy, beta),
                field.multiply(
                    self.challenge_term(evals.b, evals.right_copy, beta),
                    field.multiply(beta, evals.z),
                ),
            ),
            alpha,
        );
        let third_term = Polynomial::additive_inverse_poly(
            &polys.output_copy.scalar_multiply(third_term_scalar),
        );

        let lagrange_1 = Polynomial::get_lagrange_1_poly(
            field,
            (self.py_circuit.circuit.roots.len() - 1) as u32,
            &self.py_circuit.circuit.roots,
        )?;
        let fourth_term_scalar = field.multiply(lagrange_1.eval(zed), field.exponent(alpha, 2));
        let fourth_term = self.prover_polys.z.scalar_multiply(fourth_term_scalar);

        Ok(
            Polynomial::poly_add(
                &first_term,
                &Polynomial::poly_add(&second_term, &Polynomial::poly_add(&third_term, &fourth_term)),
            ),
        )
    }

    /// The polynomial minus a constant.
    fn minus_constant(&self, poly: &Polynomial, value: u32) -> (r: Polynomial)
        requires
            self.field.order > 0,
            poly.wf(),
            poly.field == self.field,
        ensures
            r@ == minus_constant(self.field.order, poly@, value),
            poly_within(r, self.field, poly@.len() as int),
    {
        Polynomial::poly_add(
            poly,
            &Polynomial::from_scalar(self.field.additive_inverse(value), self.field),
        )
    }

    /// `X - point`, the divisor of an opening at `point`.
    fn opening_divisor(&self, point: u32) -> (r: Polynomial)
        requires
            self.field.order > 0,
        ensures
            r@ == opening_divisor(self.field.order, point),
            r.wf(),
            r.field == self.field,
    {
        self.poly_of(vec![self.field.additive_inverse(point), 1 % self.field.order])
    }

    /// Step 7: the opening polynomial `W`, the quotient by `X - zed` of the
    /// polynomials held, each minus its value held, under rising powers of `v`.
    pub fn get_w_poly(&self) -> (res: Result<Polynomial, PlonkError>)
        requires
            self.wf(),
            self.stage(4),
        ensures
            match res {
                Ok(w) => {
                    &&& opening_w(self.setup(), self.held()) == Ok::<_, PlonkError>(w@)
                    &&& poly_within(w, self.field, self.domain_len() + 2)
                },
                Err(e) => opening_w(self.setup(), self.held()) == Err::<Seq<u32>, _>(e),
            },
    {
        let polys = &self.py_circuit.circuit.circuit_polys;
        let held = &self.prover_polys;
        let evals = &self.opening_evals;
        let (zed, v) = (self.pub_coin.zed, self.pub_coin.v);
        let field = &self.field;
        let len = self.py_circuit.circuit.roots.len();

        let mut first_term = Polynomial::poly_add(
            &held.t_lo,
            &Polynomial::poly_add(
                &held.t_mid.scalar_multiply(field.exponent(zed, (len + 2) as u32)),
                &held.t_hi.scalar_multiply(field.exponent(zed, (2 * len + 4) as u32)),
            ),
        );
        first_term =
        Polynomial::poly_add(&first_term, &Polynomial::from_scalar(field.additive_inverse(evals.t), self.field));

        let mut second_term = self.minus_constant(&held.r, evals.r).scalar_multiply(v);
        second_term =
        Polynomial::poly_add(
            &second_term,
            &self.minus_constant(&held.a, evals.a).scalar_multiply(field.exponent(v, 2)),
        );
        second_term =
        Polynomial::poly_add(
            &second_term,
            &self.minus_constant(&held.b, evals.b).scalar_multiply(field.exponent(v, 3)),
        );
        second_term =
        Polynomial::poly_add(
            &second_term,
            &self.minus_constant(&held.c, evals.c).scalar_multiply(field.exponent(v, 4)),
        );
        second_term =
        Polynomial::poly_add(
            &second_term,
            &self.minus_constant(&polys.left_copy, evals.left_copy).scalar_multiply(field.exponent(v, 5)),
        );
        second_term =
        Polynomial::poly_add(
            &second_term,
            &self.minus_constant(&polys.right_copy, evals.right_copy).scalar_multiply(
                field.exponent(v, 6),
            ),
        );

        let denominator = self.opening_divisor(zed);
        let (quotient, _remainder) = Polynomial::poly_divide(
            &Polynomial::poly_add(&first_term, &second_term),
            &denominator,
        )?;
        Ok(quotient)
    }

    /// Step 7, second part: the opening polynomial `W_z`, the quotient by
    /// `X - zed omega` of the accumulator minus its value held.
    pub fn get_wz_poly(&self) -> (res: Result<Polynomial, PlonkError>)
        requires
            self.wf(),
            self.stage(2),
        ensures
            match res {
                Ok(wz) => {
                    &&& opening_wz(self.setup(), self.prover_polys.z@, self.opening_evals.z) == Ok::<
                        _,
                        PlonkError,
                    >(wz@)
                    &&& poly_within(wz, self.field, self.domain_len() + 2)
                },
                Err(e) => opening_wz(self.setup(), self.prover_polys.z@, self.opening_evals.z) == Err::<
                    Seq<u32>,
                    _,
                >(e),
            },
    {
        let numerator = self.minus_constant(&self.prover_polys.z, self.opening_evals.z);
        let denominator = self.opening_divisor(
            self.field.multiply(self.pub_coin.zed, self.py_circuit.circuit.roots[1]),
        );
        let (quotient, _remainder) = Polynomial::poly_divide(&numerator, &denominator)?;
        Ok(quotient)
    }
}

} // verus!
