use crate::error::PlonkError;
use crate::math::field::{fadd, fdiv, fmul, fneg, fone, Field};
use crate::math::polynomial::{interpolate, peval, xs_of, ys_of, Point, Polynomial};
use vstd::prelude::*;

verus! {

/// What a gate computes from its two inputs.
#[derive(Clone, Copy, Debug, PartialEq, Eq, Structural)]
pub enum GateType {
    Addition,
    Multiplication,
}

/// One of the three wires of a gate.
#[derive(Clone, Copy, Debug, PartialEq, Eq, Structural)]
pub enum Wire {
    Left,
    Right,
    Output,
}

/// A gate: the places in the witness of its two inputs and of its output.
#[derive(Clone, Copy, Debug)]
pub struct Gate {
    pub left_index: usize,
    pub right_index: usize,
    pub output_index: usize,
    pub gate_type: GateType,
}

/// The polynomials of a circuit. Selectors, copy constraints and `z_h` depend
/// on the gates alone, the wire polynomials on the witness too, and the
/// accumulator on two challenges as well.
pub struct CircuitPolynomials {
    pub left: Polynomial,
    pub right: Polynomial,
    pub output: Polynomial,
    pub left_selector: Polynomial,
    pub right_selector: Polynomial,
    pub output_selector: Polynomial,
    pub multiply_selector: Polynomial,
    pub left_copy: Polynomial,
    pub right_copy: Polynomial,
    pub output_copy: Polynomial,
    pub z_h: Polynomial,
    pub acc: Polynomial,
}

/// A circuit over a field: gates that read and write a shared witness, the
/// evaluation domain with its two cosets, and the polynomials built from them.
/// Gates are inserted and inputs set first, then the witness is computed, then
/// the polynomials are built.
pub struct Circuit {
    pub gates: Vec<Gate>,
    pub inputs: Vec<(u32, usize)>,
    pub witness: Vec<u32>,
    pub field: Field,
    pub coset1: Vec<u32>,
    pub coset2: Vec<u32>,
    pub roots: Vec<u32>,
    pub circuit_polys: CircuitPolynomials,
}

/// The place in the witness that a wire of a gate names.
pub open spec fn wire_index(g: Gate, wire: Wire) -> usize {
    match wire {
        Wire::Left => g.left_index,
        Wire::Right => g.right_index,
        Wire::Output => g.output_index,
    }
}

/// All three wires of a gate name places of a witness of length `len`.
pub open spec fn gate_fits(g: Gate, len: nat) -> bool {
    g.left_index < len && g.right_index < len && g.output_index < len
}

/// The witness after the first `k` input bindings were written, in order.
pub open spec fn bind_inputs(witness: Seq<u32>, inputs: Seq<(u32, usize)>, k: int) -> Seq<u32>
    decreases k,
{
    if k <= 0 {
        witness
    } else {
        bind_inputs(witness, inputs, k - 1).update(inputs[k - 1].1 as int, inputs[k - 1].0)
    }
}

/// What a gate puts on its output wire, given the witness before it.
pub open spec fn gate_value(n: u32, g: Gate, witness: Seq<u32>) -> u32 {
    match g.gate_type {
        GateType::Addition => fadd(n, witness[g.left_index as int], witness[g.right_index as int]),
        GateType::Multiplication => fmul(
            n,
            witness[g.left_index as int],
            witness[g.right_index as int],
        ),
    }
}

/// The witness after the first `k` gates have run, in order of insertion.
pub open spec fn run_gates(n: u32, gates: Seq<Gate>, witness: Seq<u32>, k: int) -> Seq<u32>
    decreases k,
{
    if k <= 0 {
        witness
    } else {
        let before = run_gates(n, gates, witness, k - 1);
        before.update(gates[k - 1].output_index as int, gate_value(n, gates[k - 1], before))
    }
}

/// For each gate, the value on the given wire.
pub open spec fn wire_values(gates: Seq<Gate>, witness: Seq<u32>, wire: Wire) -> Seq<u32> {
    Seq::new(gates.len(), |i: int| witness[wire_index(gates[i], wire) as int])
}

/// For each gate, 1 where it is of the given type and 0 where it is not.
pub open spec fn type_selectors(gates: Seq<Gate>, gate_type: GateType) -> Seq<u32> {
    Seq::new(
        gates.len(),
        |i: int|
            if gates[i].gate_type == gate_type {
                1u32
            } else {
                0u32
            },
    )
}

/// For each gate, `-1`.
pub open spec fn output_selectors(n: u32, gates: Seq<Gate>) -> Seq<u32> {
    Seq::new(gates.len(), |i: int| fneg(n, 1))
}

/// The coefficients of `X^len - 1`, the polynomial that vanishes on a domain
/// of `len` roots of unity.
pub open spec fn vanishing(n: u32, len: nat) -> Seq<u32> {
    Seq::new(
        len + 1,
        |i: int|
            if i == len {
                fone(n)
            } else if i == 0 {
                fneg(n, 1)
            } else {
                0u32
            },
    )
}

/// The polynomial through the points `(roots_i, y_i)`, as far as both reach.
pub open spec fn interpolate_on(n: u32, roots: Seq<u32>, y_vals: Seq<u32>) -> Result<
    Seq<u32>,
    PlonkError,
> {
    let len = if y_vals.len() <= roots.len() {
        y_vals.len() as int
    } else {
        roots.len() as int
    };
    interpolate(n, roots.take(len), y_vals.take(len))
}

/// `p` is the polynomial over `field` that interpolates `y_vals` on `roots`.
pub open spec fn interpolates(p: Polynomial, field: Field, roots: Seq<u32>, y_vals: Seq<u32>) -> bool {
    &&& p.wf()
    &&& p.degree == 3
    &&& p.field == field
    &&& interpolate_on(field.order, roots, y_vals) == Ok::<_, PlonkError>(p@)
}

/// `x` shifted and blinded by the challenges: `w + beta * x + gamma`.
pub open spec fn challenge_term(n: u32, w: u32, x: u32, beta: u32, gamma: u32) -> u32 {
    fadd(n, w, fadd(n, fmul(n, beta, x), gamma))
}

/// The product of the three challenge terms of one gate.
pub open spec fn challenge_product(
    n: u32,
    a: u32,
    b: u32,
    c: u32,
    xa: u32,
    xb: u32,
    xc: u32,
    beta: u32,
    gamma: u32,
) -> u32 {
    fmul(
        n,
        fmul(n, challenge_term(n, a, xa, beta, gamma), challenge_term(n, b, xb, beta, gamma)),
        challenge_term(n, c, xc, beta, gamma),
    )
}

/// The gates and the domain with its cosets: what fixes which slots of the
/// circuit share a place of the witness.
pub struct Wiring {
    pub gates: Seq<Gate>,
    pub roots: Seq<u32>,
    pub coset1: Seq<u32>,
    pub coset2: Seq<u32>,
}

/// What the scan for the partners of wire `wire` of gate `i` records at gate
/// `k`: the domain element of a slot of gate `k` that names the same place of
/// the witness. The slots are tried in a fixed order that depends on `wire`,
/// only the first match counts, and the slot itself never does.
pub open spec fn copy_partner(w: Wiring, wire: Wire, i: int, k: int) -> Option<u32> {
    let idx = wire_index(w.gates[i], wire);
    let g = w.gates[k];
    match wire {
        Wire::Left => if g.right_index == idx {
            Some(w.coset1[k])
        } else if g.output_index == idx {
            Some(w.coset2[k])
        } else if g.left_index == idx && k != i {
            Some(w.roots[k])
        } else {
            None
        },
        Wire::Right => if g.left_index == idx {
            Some(w.roots[k])
        } else if g.right_index == idx {
            if k != i {
                Some(w.coset1[k])
            } else {
                None
            }
        } else if g.output_index == idx {
            Some(w.coset2[k])
        } else {
            None
        },
        Wire::Output => if g.left_index == idx {
            Some(w.roots[k])
        } else if g.right_index == idx {
            Some(w.coset1[k])
        } else if g.output_index == idx && k != i {
            Some(w.coset2[k])
        } else {
            None
        },
    }
}

/// The partners of wire `wire` of gate `i` among the first `k` gates.
pub open spec fn copy_scan(w: Wiring, wire: Wire, i: int, k: int) -> Seq<u32>
    decreases k,
{
    if k <= 0 {
        Seq::empty()
    } else {
        match copy_partner(w, wire, i, k - 1) {
            Some(v) => copy_scan(w, wire, i, k - 1).push(v),
            None => copy_scan(w, wire, i, k - 1),
        }
    }
}

/// The partners of wire `wire` of the first `i` gates, gate after gate.
pub open spec fn copy_upto(w: Wiring, wire: Wire, i: int) -> Seq<u32>
    decreases i,
{
    if i <= 0 {
        Seq::empty()
    } else {
        copy_upto(w, wire, i - 1) + copy_scan(w, wire, i - 1, w.gates.len() as int)
    }
}

/// What the grand product accumulator is computed from: the field's order,
/// the wiring, the witness and the three copy constraint polynomials.
pub struct Permutation {
    pub n: u32,
    pub wiring: Wiring,
    pub witness: Seq<u32>,
    pub left_copy: Seq<u32>,
    pub right_copy: Seq<u32>,
    pub output_copy: Seq<u32>,
}

/// The factor by which the accumulator grows at a gate: the challenge terms
/// on the domain elements themselves, over the challenge terms on the values
/// of the copy constraints there.
pub open spec fn acc_factor(p: Permutation, round: int, beta: u32, gamma: u32) -> Result<u32, PlonkError> {
    let a = wire_values(p.wiring.gates, p.witness, Wire::Left)[round];
    let b = wire_values(p.wiring.gates, p.witness, Wire::Right)[round];
    let c = wire_values(p.wiring.gates, p.witness, Wire::Output)[round];
    let root = p.wiring.roots[round];
    fdiv(
        p.n,
        challenge_product(p.n, a, b, c, root, p.wiring.coset1[round], p.wiring.coset2[round], beta, gamma),
        challenge_product(
            p.n,
            a,
            b,
            c,
            peval(p.n, p.left_copy, root),
            peval(p.n, p.right_copy, root),
            peval(p.n, p.output_copy, root),
            beta,
            gamma,
        ),
    )
}

/// The accumulator's values at the first `k + 1` domain elements: 1, and then
/// each value times the factor of its gate. Fails where a factor cannot be
/// formed.
pub open spec fn acc_values(p: Permutation, k: nat, beta: u32, gamma: u32) -> Result<Seq<u32>, PlonkError>
    decreases k,
{
    if k == 0 {
        Ok(seq![1u32])
    } else {
        match acc_values(p, (k - 1) as nat, beta, gamma) {
            Err(e) => Err(e),
            Ok(prev) => match acc_factor(p, k - 1, beta, gamma) {
                Err(e) => Err(e),
                Ok(f) => Ok(prev.push(fmul(p.n, prev[k - 1], f))),
            },
        }
    }
}

/// A failure among the accumulator's values is the failure of all longer runs.
pub proof fn lemma_acc_error_persists(p: Permutation, k: nat, longer: nat, beta: u32, gamma: u32)
    requires
        k <= longer,
        acc_values(p, k, beta, gamma) is Err,
    ensures
        acc_values(p, longer, beta, gamma) == acc_values(p, k, beta, gamma),
    decreases longer,
{
    if k < longer {
        lemma_acc_error_persists(p, k, (longer - 1) as nat, beta, gamma);
    }
}

/// The results of the seven interpolations that depend on the gates alone:
/// the selectors of the left input, the right input, the output and the
/// product, and the copy constraints of the left, right and output wires.
pub open spec fn gate_interpolations(n: u32, w: Wiring) -> Seq<Result<Seq<u32>, PlonkError>> {
    seq![
        interpolate_on(n, w.roots, type_selectors(w.gates, GateType::Addition)),
        interpolate_on(n, w.roots, type_selectors(w.gates, GateType::Addition)),
        interpolate_on(n, w.roots, output_selectors(n, w.gates)),
        interpolate_on(n, w.roots, type_selectors(w.gates, GateType::Multiplication)),
        interpolate_on(n, w.roots, copy_upto(w, Wire::Left, w.gates.len() as int)),
        interpolate_on(n, w.roots, copy_upto(w, Wire::Right, w.gates.len() as int)),
        interpolate_on(n, w.roots, copy_upto(w, Wire::Output, w.gates.len() as int)),
    ]
}

/// The results of the three interpolations of the values on the wires.
pub open spec fn witness_interpolations(n: u32, w: Wiring, witness: Seq<u32>) -> Seq<
    Result<Seq<u32>, PlonkError>,
> {
    seq![
        interpolate_on(n, w.roots, wire_values(w.gates, witness, Wire::Left)),
        interpolate_on(n, w.roots, wire_values(w.gates, witness, Wire::Right)),
        interpolate_on(n, w.roots, wire_values(w.gates, witness, Wire::Output)),
    ]
}

/// The first error among the results, if any of them is one.
pub open spec fn first_error<T>(results: Seq<Result<T, PlonkError>>) -> Option<PlonkError>
    decreases results.len(),
{
    if results.len() == 0 {
        None
    } else {
        match results[0] {
            Err(e) => Some(e),
            Ok(_) => first_error(results.subrange(1, results.len() as int)),
        }
    }
}

impl Default for CircuitPolynomials {
    /// Twelve placeholders for polynomials that are not built yet.
    fn default() -> (r: CircuitPolynomials)
        ensures
            r.wires_unbuilt(),
            r.fixed_unbuilt(),
            r.acc.unbuilt(),
    {
        CircuitPolynomials {
            left: Polynomial::default(),
            right: Polynomial::default(),
            output: Polynomial::default(),
            left_selector: Polynomial::default(),
            right_selector: Polynomial::default(),
            output_selector: Polynomial::default(),
            multiply_selector: Polynomial::default(),
            left_copy: Polynomial::default(),
            right_copy: Polynomial::default(),
            output_copy: Polynomial::default(),
            z_h: Polynomial::default(),
            acc: Polynomial::default(),
        }
    }
}

impl CircuitPolynomials {
    /// The three wire polynomials are placeholders.
    pub open spec fn wires_unbuilt(&self) -> bool {
        self.left.unbuilt() && self.right.unbuilt() && self.output.unbuilt()
    }

    /// The polynomials that depend on the gates alone are placeholders.
    pub open spec fn fixed_unbuilt(&self) -> bool {
        &&& self.left_selector.unbuilt() && self.right_selector.unbuilt()
        &&& self.output_selector.unbuilt() && self.multiply_selector.unbuilt()
        &&& self.left_copy.unbuilt() && self.right_copy.unbuilt() && self.output_copy.unbuilt()
        &&& self.z_h.unbuilt()
    }

    /// The polynomials that depend on the gates alone are the same in both.
    pub open spec fn same_fixed(&self, other: &CircuitPolynomials) -> bool {
        &&& self.left_selector == other.left_selector
        &&& self.right_selector == other.right_selector
        &&& self.output_selector == other.output_selector
        &&& self.multiply_selector == other.multiply_selector
        &&& self.left_copy == other.left_copy
        &&& self.right_copy == other.right_copy
        &&& self.output_copy == other.output_copy
        &&& self.z_h == other.z_h
    }

    /// The three wire polynomials are the same in both.
    pub open spec fn same_wires(&self, other: &CircuitPolynomials) -> bool {
        &&& self.left == other.left
        &&& self.right == other.right
        &&& self.output == other.output
    }
}

impl Circuit {
    /// Every wire of every gate names a place of the witness.
    pub open spec fn gates_fit(&self) -> bool {
        forall|i: int| 0 <= i < self.gates@.len() ==> gate_fits(#[trigger] self.gates@[i], self.witness@.len())
    }

    /// The domain and both cosets have an element for each gate.
    pub open spec fn domain_covers(&self, len: nat) -> bool {
        len <= self.roots@.len() && len <= self.coset1@.len() && len <= self.coset2@.len()
    }

    /// Gates, inputs, witness, field and domain are the same in both circuits.
    pub open spec fn same_wiring(&self, other: &Circuit) -> bool {
        &&& self.gates == other.gates
        &&& self.inputs == other.inputs
        &&& self.witness == other.witness
        &&& self.same_domain(other)
    }

    /// Field and domain are the same in both circuits.
    pub open spec fn same_domain(&self, other: &Circuit) -> bool {
        &&& self.field == other.field
        &&& self.coset1 == other.coset1
        &&& self.coset2 == other.coset2
        &&& self.roots == other.roots
    }

    /// The gates and the domain, which fix the permutation of the wires.
    pub open spec fn wiring(&self) -> Wiring {
        Wiring {
            gates: self.gates@,
            roots: self.roots@,
            coset1: self.coset1@,
            coset2: self.coset2@,
        }
    }

    /// The values on the given wire of all gates.
    pub open spec fn wire(&self, wire: Wire) -> Seq<u32> {
        wire_values(self.gates@, self.witness@, wire)
    }

    /// The copy constraints of a wire.
    pub open spec fn copy_constraints(&self, wire: Wire) -> Seq<u32> {
        copy_upto(self.wiring(), wire, self.gates@.len() as int)
    }

    /// What the accumulator is computed from.
    pub open spec fn permutation(&self) -> Permutation {
        Permutation {
            n: self.field.order,
            wiring: self.wiring(),
            witness: self.witness@,
            left_copy: self.circuit_polys.left_copy@,
            right_copy: self.circuit_polys.right_copy@,
            output_copy: self.circuit_polys.output_copy@,
        }
    }

    /// The three copy constraint polynomials are well formed over the
    /// circuit's field.
    pub open spec fn copies_wf(&self) -> bool {
        let p = self.circuit_polys;
        &&& p.left_copy.wf() && p.left_copy.field == self.field
        &&& p.right_copy.wf() && p.right_copy.field == self.field
        &&& p.output_copy.wf() && p.output_copy.field == self.field
    }

    /// The results of the seven interpolations that depend on the gates alone.
    pub open spec fn fixed_interpolations(&self) -> Seq<Result<Seq<u32>, PlonkError>> {
        gate_interpolations(self.field.order, self.wiring())
    }

    /// The results of the three interpolations of the wire values.
    pub open spec fn wire_interpolations(&self) -> Seq<Result<Seq<u32>, PlonkError>> {
        witness_interpolations(self.field.order, self.wiring(), self.witness@)
    }

    /// Selectors, copy constraints and `z_h` are built from the gates.
    pub open spec fn fixed_built(&self) -> bool {
        let n = self.field.order;
        let p = self.circuit_polys;
        &&& interpolates(p.left_selector, self.field, self.roots@, type_selectors(self.gates@, GateType::Addition))
        &&& interpolates(p.right_selector, self.field, self.roots@, type_selectors(self.gates@, GateType::Addition))
        &&& interpolates(p.output_selector, self.field, self.roots@, output_selectors(n, self.gates@))
        &&& interpolates(
            p.multiply_selector,
            self.field,
            self.roots@,
            type_selectors(self.gates@, GateType::Multiplication),
        )
        &&& interpolates(p.left_copy, self.field, self.roots@, self.copy_constraints(Wire::Left))
        &&& interpolates(p.right_copy, self.field, self.roots@, self.copy_constraints(Wire::Right))
        &&& interpolates(p.output_copy, self.field, self.roots@, self.copy_constraints(Wire::Output))
        &&& p.z_h@ == vanishing(n, self.roots@.len())
        &&& p.z_h.degree == self.roots@.len()
        &&& p.z_h.field == self.field
        &&& p.z_h.wf()
    }

    /// The wire polynomials are built from the witness.
    pub open spec fn wires_built(&self) -> bool {
        let p = self.circuit_polys;
        &&& interpolates(p.left, self.field, self.roots@, self.wire(Wire::Left))
        &&& interpolates(p.right, self.field, self.roots@, self.wire(Wire::Right))
        &&& interpolates(p.output, self.field, self.roots@, self.wire(Wire::Output))
    }

    /// The accumulator's polynomial is built for the two challenges.
    pub open spec fn acc_built(&self, beta: u32, gamma: u32) -> bool {
        let values = acc_values(self.permutation(), self.circuit_polys.left.degree as nat, beta, gamma);
        &&& values is Ok
        &&& interpolates(self.circuit_polys.acc, self.field, self.roots@, values.unwrap())
    }

    /// What building the accumulator comes to: its polynomial, or the first failure.
    pub open spec fn acc_result(&self, beta: u32, gamma: u32) -> Result<Seq<u32>, PlonkError> {
        match acc_values(self.permutation(), self.circuit_polys.left.degree as nat, beta, gamma) {
            Err(e) => Err(e),
            Ok(values) => interpolate_on(self.field.order, self.roots@, values),
        }
    }

    /// Appends a gate.
    pub fn insert_gate(&mut self, gate: Gate)
        ensures
            final(self).gates@ == old(self).gates@.push(gate),
            final(self).inputs == old(self).inputs,
            final(self).witness == old(self).witness,
            final(self).same_domain(old(self)),
            final(self).circuit_polys == old(self).circuit_polys,
    {
        self.gates.push(gate);
    }

    /// Binds places of the witness to the given values, in order.
    pub fn set_inputs(&mut self, inputs: Vec<(u32, usize)>)
        requires
            forall|i: int| 0 <= i < inputs@.len() ==> (#[trigger] inputs@[i]).1 < old(self).witness@.len(),
        ensures
            final(self).inputs == inputs,
            final(self).witness@ == bind_inputs(old(self).witness@, inputs@, inputs@.len() as int),
            final(self).witness@.len() == old(self).witness@.len(),
            final(self).gates == old(self).gates,
            final(self).same_domain(old(self)),
            final(self).circuit_polys == old(self).circuit_polys,
    {
        let ghost start = self.witness@;
        let mut i: usize = 0;
        while i < inputs.len()
            invariant
                i <= inputs.len(),
                forall|j: int| 0 <= j < inputs@.len() ==> (#[trigger] inputs@[j]).1 < start.len(),
                self.witness@ == bind_inputs(start, inputs@, i as int),
                self.witness@.len() == start.len(),
                self.gates == old(self).gates,
                self.same_domain(old(self)),
                self.circuit_polys == old(self).circuit_polys,
            decreases inputs.len() - i,
        {
            let (val, index) = inputs[i];
            self.witness.set(index, val);
            i = i + 1;
        }
        self.inputs = inputs;
    }

    /// Runs the gates in order of insertion, each writing its output wire.
    pub fn compute_witness(&mut self)
        requires
            old(self).gates_fit(),
            old(self).field.order > 0,
        ensures
            final(self).witness@ == run_gates(
                old(self).field.order,
                old(self).gates@,
                old(self).witness@,
                old(self).gates@.len() as int,
            ),
            final(self).witness@.len() == old(self).witness@.len(),
            final(self).gates == old(self).gates,
            final(self).inputs == old(self).inputs,
            final(self).same_domain(old(self)),
            final(self).circuit_polys == old(self).circuit_polys,
    {
        let ghost start = self.witness@;
        let mut i: usize = 0;
        while i < self.gates.len()
            invariant
                i <= self.gates.len(),
                self.field.order > 0,
                forall|j: int|
                    0 <= j < self.gates@.len() ==> gate_fits(#[trigger] self.gates@[j], start.len()),
                self.witness@ == run_gates(self.field.order, self.gates@, start, i as int),
                self.witness@.len() == start.len(),
                self.gates == old(self).gates,
                self.inputs == old(self).inputs,
                self.same_domain(old(self)),
                self.circuit_polys == old(self).circuit_polys,
            decreases self.gates.len() - i,
        {
            let gate = self.gates[i];
            assert(gate_fits(self.gates@[i as int], start.len()));
            let left_val = self.witness[gate.left_index];
            let right_val = self.witness[gate.right_index];
            let value = match gate.gate_type {
                GateType::Addition => self.field.add(left_val, right_val),
                GateType::Multiplication => self.field.multiply(left_val, right_val),
            };
            self.witness.set(gate.output_index, value);
            i = i + 1;
        }
    }

    /// Builds the three wire polynomials from the witness. Nothing is changed
    /// where an interpolation fails.
    pub fn build_polynomials_with_input(&mut self) -> (res: Result<(), PlonkError>)
        requires
            old(self).gates_fit(),
            old(self).field.order > 0,
        ensures
            final(self).same_wiring(old(self)),
            final(self).circuit_polys.same_fixed(&old(self).circuit_polys),
            final(self).circuit_polys.acc == old(self).circuit_polys.acc,
            match res {
                Ok(()) => final(self).wires_built(),
                Err(e) => first_error(old(self).wire_interpolations()) == Some(e) && *final(self) == *old(
                    self,
                ),
            },
    {
        proof {
            reveal_with_fuel(first_error, 4);
        }
        let left = self.build_poly(self.get_left_inputs())?;
        let right = self.build_poly(self.get_right_inputs())?;
        let output = self.build_poly(self.get_outputs())?;
        self.circuit_polys.left = left;
        self.circuit_polys.right = right;
        self.circuit_polys.output = output;
        Ok(())
    }

    /// Builds the selector and copy constraint polynomials and `z_h` from the
    /// gates. Nothing is changed where an interpolation fails.
    pub fn build_polynomials(&mut self) -> (res: Result<(), PlonkError>)
        requires
            old(self).domain_covers(old(self).gates@.len()),
            old(self).field.order > 0,
            old(self).roots@.len() < u32::MAX,
        ensures
            final(self).same_wiring(old(self)),
            final(self).circuit_polys.same_wires(&old(self).circuit_polys),
            final(self).circuit_polys.acc == old(self).circuit_polys.acc,
            match res {
                Ok(()) => final(self).fixed_built(),
                Err(e) => first_error(old(self).fixed_interpolations()) == Some(e) && *final(self) == *old(
                    self,
                ),
            },
    {
        proof {
            reveal_with_fuel(first_error, 8);
        }
        let left_selector = self.build_poly(self.get_left_selectors())?;
        let right_selector = self.build_poly(self.get_right_selectors())?;
        let output_selector = self.build_poly(self.get_output_selectors())?;
        let multiply_selector = self.build_poly(self.get_multiply_selectors())?;
        let left_copy = self.build_poly(self.get_left_copy_constraints())?;
        let right_copy = self.build_poly(self.get_right_copy_constraints())?;
        let output_copy = self.build_poly(self.get_output_copy_constraints())?;
        let z_h = self.get_z_h();
        self.circuit_polys.left_selector = left_selector;
        self.circuit_polys.right_selector = right_selector;
        self.circuit_polys.output_selector = output_selector;
        self.circuit_polys.multiply_selector = multiply_selector;
        self.circuit_polys.left_copy = left_copy;
        self.circuit_polys.right_copy = right_copy;
        self.circuit_polys.output_copy = output_copy;
        self.circuit_polys.z_h = z_h;
        Ok(())
    }

    /// Builds the accumulator's polynomial for the two challenges, from as
    /// many gates as the left wire polynomial has degrees. Nothing is changed
    /// where a division or the interpolation fails.
    pub fn build_accumulator(&mut self, beta: u32, gamma: u32) -> (res: Result<(), PlonkError>)
        requires
            old(self).gates_fit(),
            old(self).field.order > 0,
            old(self).circuit_polys.left.degree <= old(self).gates@.len(),
            old(self).domain_covers(old(self).circuit_polys.left.degree as nat),
            old(self).copies_wf(),
        ensures
            final(self).same_wiring(old(self)),
            final(self).circuit_polys.same_fixed(&old(self).circuit_polys),
            final(self).circuit_polys.same_wires(&old(self).circuit_polys),
            match res {
                Ok(()) => final(self).acc_built(beta, gamma),
                Err(e) => old(self).acc_result(beta, gamma) == Err::<Seq<u32>, _>(e) && *final(self) == *old(
                    self,
                ),
            },
    {
        let values = self.get_accumulator_values(self.circuit_polys.left.degree, beta, gamma)?;
        let acc = self.build_poly(values)?;
        self.circuit_polys.acc = acc;
        Ok(())
    }

    /// The polynomial through the values on the domain, one point per value
    /// as far as the domain reaches.
    pub fn build_poly(&self, y_vals: Vec<u32>) -> (res: Result<Polynomial, PlonkError>)
        requires
            self.field.order > 0,
        ensures
            match res {
                Ok(p) => interpolates(p, self.field, self.roots@, y_vals@),
                Err(e) => interpolate_on(self.field.order, self.roots@, y_vals@) == Err::<Seq<u32>, _>(e),
            },
    {
        let len = if y_vals.len() <= self.roots.len() {
            y_vals.len()
        } else {
            self.roots.len()
        };
        let mut points: Vec<Point> = Vec::new();
        let mut i: usize = 0;
        while i < len
            invariant
                len <= y_vals.len(),
                len <= self.roots.len(),
                i <= len,
                points@.len() == i,
                forall|j: int| 0 <= j < i ==> (#[trigger] points@[j]).x == self.roots@[j],
                forall|j: int| 0 <= j < i ==> (#[trigger] points@[j]).y == y_vals@[j],
            decreases len - i,
        {
            points.push(Point { x: self.roots[i], y: y_vals[i] });
            i = i + 1;
        }
        proof {
            assert(xs_of(points@) =~= self.roots@.take(len as int));
            assert(ys_of(points@) =~= y_vals@.take(len as int));
        }
        Polynomial::create_poly_from_points(points, &self.field)
    }

    /// The polynomial `X^len - 1` that vanishes on the domain of `len` roots.
    pub fn get_z_h(&self) -> (r: Polynomial)
        requires
            self.field.order > 0,
            self.roots@.len() < u32::MAX,
        ensures
            r@ == vanishing(self.field.order, self.roots@.len()),
            r.degree == self.roots@.len(),
            r.field == self.field,
            r.wf(),
    {
        let degree = self.roots.len() as u32;
        let len: usize = self.roots.len() + 1;
        let mut coefficients: Vec<u32> = vec![0u32; len];
        coefficients.set(0, self.field.additive_inverse(1));
        coefficients.set(degree as usize, 1 % self.field.order);
        proof {
            assert(coefficients@ =~= vanishing(self.field.order, self.roots@.len()));
        }
        Polynomial { degree, coefficients, field: self.field }
    }

    /// The values on the given wire of all gates.
    fn wire_values(&self, wire: Wire) -> (r: Vec<u32>)
        requires
            self.gates_fit(),
        ensures
            r@ == self.wire(wire),
    {
        let mut values: Vec<u32> = Vec::new();
        let mut i: usize = 0;
        while i < self.gates.len()
            invariant
                self.gates_fit(),
                i <= self.gates.len(),
                values@.len() == i,
                forall|j: int|
                    0 <= j < i ==> (#[trigger] values@[j]) == self.witness@[wire_index(
                        self.gates@[j],
                        wire,
                    ) as int],
            decreases self.gates.len() - i,
        {
            let gate = self.gates[i];
            assert(gate_fits(self.gates@[i as int], self.witness@.len()));
            let index = match wire {
                Wire::Left => gate.left_index,
                Wire::Right => gate.right_index,
                Wire::Output => gate.output_index,
            };
            values.push(self.witness[index]);
            i = i + 1;
        }
        proof {
            assert(values@ =~= self.wire(wire));
        }
        values
    }

    /// The values on the left wires of the gates.
    pub fn get_left_inputs(&self) -> (r: Vec<u32>)
        requires
            self.gates_fit(),
        ensures
            r@ == self.wire(Wire::Left),
    {
        self.wire_values(Wire::Left)
    }

    /// The values on the right wires of the gates.
    pub fn get_right_inputs(&self) -> (r: Vec<u32>)
        requires
            self.gates_fit(),
        ensures
            r@ == self.wire(Wire::Right),
    {
        self.wire_values(Wire::Right)
    }

    /// The values on the output wires of the gates.
    pub fn get_outputs(&self) -> (r: Vec<u32>)
        requires
            self.gates_fit(),
        ensures
            r@ == self.wire(Wire::Output),
    {
        self.wire_values(Wire::Output)
    }

    /// For each gate, whether it is of the given type.
    fn selectors_of(&self, gate_type: GateType) -> (r: Vec<u32>)
        ensures
            r@ == type_selectors(self.gates@, gate_type),
    {
        let mut values: Vec<u32> = Vec::new();
        let mut i: usize = 0;
        while i < self.gates.len()
            invariant
                i <= self.gates.len(),
                values@.len() == i,
                forall|j: int|
                    0 <= j < i ==> (#[trigger] values@[j]) == (if self.gates@[j].gate_type == gate_type {
                        1u32
                    } else {
                        0u32
                    }),
            decreases self.gates.len() - i,
        {
            let selected: u32 = if self.gates[i].gate_type == gate_type {
                1
            } else {
                0
            };
            values.push(selected);
            i = i + 1;
        }
        proof {
            assert(values@ =~= type_selectors(self.gates@, gate_type));
        }
        values
    }

    /// The selector of the left input: 1 at the addition gates.
    pub fn get_left_selectors(&self) -> (r: Vec<u32>)
        ensures
            r@ == type_selectors(self.gates@, GateType::Addition),
    {
        self.selectors_of(GateType::Addition)
    }

    /// The selector of the right input: 1 at the addition gates.
    pub fn get_right_selectors(&self) -> (r: Vec<u32>)
        ensures
            r@ == type_selectors(self.gates@, GateType::Addition),
    {
        self.selectors_of(GateType::Addition)
    }

    /// The selector of the output: `-1` at every gate.
    pub fn get_output_selectors(&self) -> (r: Vec<u32>)
        requires
            self.field.order > 0,
        ensures
            r@ == output_selectors(self.field.order, self.gates@),
    {
        let mut values: Vec<u32> = Vec::new();
        let mut i: usize = 0;
        while i < self.gates.len()
            invariant
                self.field.order > 0,
                i <= self.gates.len(),
                values@.len() == i,
                forall|j: int| 0 <= j < i ==> (#[trigger] values@[j]) == fneg(self.field.order, 1),
            decreases self.gates.len() - i,
        {
            values.push(self.field.additive_inverse(1));
            i = i + 1;
        }
        proof {
            assert(values@ =~= output_selectors(self.field.order, self.gates@));
        }
        values
    }

    /// The selector of the product: 1 at the multiplication gates.
    pub fn get_multiply_selectors(&self) -> (r: Vec<u32>)
        ensures
            r@ == type_selectors(self.gates@, GateType::Multiplication),
    {
        self.selectors_of(GateType::Multiplication)
    }

    /// The copy constraints of one wire.
    fn copy_constraints_of(&self, wire: Wire) -> (r: Vec<u32>)
        requires
            self.domain_covers(self.gates@.len()),
        ensures
            r@ == self.copy_constraints(wire),
    {
        let mut result: Vec<u32> = Vec::new();
        let len = self.gates.len();
        let mut i: usize = 0;
        while i < len
            invariant
                self.domain_covers(self.gates@.len()),
                len == self.gates@.len(),
                i <= len,
                result@ == copy_upto(self.wiring(), wire, i as int),
            decreases len - i,
        {
            let index = match wire {
                Wire::Left => self.gates[i].left_index,
                Wire::Right => self.gates[i].right_index,
                Wire::Output => self.gates[i].output_index,
            };
            let ghost before = result@;
            let mut k: usize = 0;
            while k < len
                invariant
                    self.domain_covers(self.gates@.len()),
                    len == self.gates@.len(),
                    i < len,
                    k <= len,
                    index == wire_index(self.gates@[i as int], wire),
                    result@ == before + copy_scan(self.wiring(), wire, i as int, k as int),
                decreases len - k,
            {
                let g = self.gates[k];
                let partner: Option<u32> = match wire {
                    Wire::Left => if g.right_index == index {
                        Some(self.coset1[k])
                    } else if g.output_index == index {
                        Some(self.coset2[k])
                    } else if g.left_index == index && k != i {
                        Some(self.roots[k])
                    } else {
                        None
                    },
                    Wire::Right => if g.left_index == index {
                        Some(self.roots[k])
                    } else if g.right_index == index {
                        if k != i {
                            Some(self.coset1[k])
                        } else {
                            None
                        }
                    } else if g.output_index == index {
                        Some(self.coset2[k])
                    } else {
                        None
                    },
                    Wire::Output => if g.left_index == index {
                        Some(self.roots[k])
                    } else if g.right_index == index {
                        Some(self.coset1[k])
                    } else if g.output_index == index && k != i {
                        Some(self.coset2[k])
                    } else {
                        None
                    },
                };
                assert(partner == copy_partner(self.wiring(), wire, i as int, k as int));
                match partner {
                    Some(v) => {
                        result.push(v);
                        proof {
                            assert(result@ =~= before + copy_scan(self.wiring(), wire, i as int, k + 1));
                        }
                    },
                    None => {},
                }
                k = k + 1;
            }
            i = i + 1;
        }
        result
    }

    /// The copy constraints of the left wires.
    pub fn get_left_copy_constraints(&self) -> (r: Vec<u32>)
        requires
            self.domain_covers(self.gates@.len()),
        ensures
            r@ == self.copy_constraints(Wire::Left),
    {
        self.copy_constraints_of(Wire::Left)
    }

    /// The copy constraints of the right wires.
    pub fn get_right_copy_constraints(&self) -> (r: Vec<u32>)
        requires
            self.domain_covers(self.gates@.len()),
        ensures
            r@ == self.copy_constraints(Wire::Right),
    {
        self.copy_constraints_of(Wire::Right)
    }

    /// The copy constraints of the output wires.
    pub fn get_output_copy_constraints(&self) -> (r: Vec<u32>)
        requires
            self.domain_covers(self.gates@.len()),
        ensures
            r@ == self.copy_constraints(Wire::Output),
    {
        self.copy_constraints_of(Wire::Output)
    }

    /// `w + beta * x + gamma` in the field.
    fn challenge_term(&self, w: u32, x: u32, beta: u32, gamma: u32) -> (r: u32)
        requires
            self.field.order > 0,
        ensures
            r == challenge_term(self.field.order, w, x, beta, gamma),
    {
        self.field.add(w, self.field.add(self.field.multiply(beta, x), gamma))
    }

    /// The values of the grand product accumulator at the first `degree + 1`
    /// elements of the domain.
    pub fn get_accumulator_values(&self, degree: u32, beta: u32, gamma: u32) -> (res: Result<
        Vec<u32>,
        PlonkError,
    >)
        requires
            self.gates_fit(),
            self.field.order > 0,
            degree <= self.gates@.len(),
            self.domain_covers(degree as nat),
            self.copies_wf(),
        ensures
            match res {
                Ok(values) => acc_values(self.permutation(), degree as nat, beta, gamma) == Ok::<
                    _,
                    PlonkError,
                >(values@),
                Err(e) => acc_values(self.permutation(), degree as nat, beta, gamma) == Err::<Seq<u32>, _>(e),
            },
    {
        let mut res: Vec<u32> = Vec::new();
        let a = self.get_left_inputs();
        let b = self.get_right_inputs();
        let c = self.get_outputs();
        res.push(1);
        let mut round: usize = 0;
        while round < degree as usize
            invariant
                self.gates_fit(),
                self.field.order > 0,
                degree <= self.gates@.len(),
                self.domain_covers(degree as nat),
                self.copies_wf(),
                a@ == self.wire(Wire::Left),
                b@ == self.wire(Wire::Right),
                c@ == self.wire(Wire::Output),
                round <= degree,
                res@.len() == round + 1,
                acc_values(self.permutation(), round as nat, beta, gamma) == Ok::<_, PlonkError>(res@),
            decreases degree - round,
        {
            let root = self.roots[round];
            let numerator = self.field.multiply(
                self.field.multiply(
                    self.challenge_term(a[round], root, beta, gamma),
                    self.challenge_term(b[round], self.coset1[round], beta, gamma),
                ),
                self.challenge_term(c[round], self.coset2[round], beta, gamma),
            );
            let denominator = self.field.multiply(
                self.field.multiply(
                    self.challenge_term(a[round], self.circuit_polys.left_copy.eval(root), beta, gamma),
                    self.challenge_term(b[round], self.circuit_polys.right_copy.eval(root), beta, gamma),
                ),
                self.challenge_term(c[round], self.circuit_polys.output_copy.eval(root), beta, gamma),
            );
            let acc_i = match self.field.divide(numerator, denominator) {
                Ok(f) => f,
                Err(e) => {
                    proof {
                        lemma_acc_error_persists(
                            self.permutation(),
                            (round + 1) as nat,
                            degree as nat,
                            beta,
                            gamma,
                        );
                    }
                    return Err(e);
                },
            };
            res.push(self.field.multiply(res[round], acc_i));
            round = round + 1;
        }
        Ok(res)
    }
}

} // verus!
