use crate::error::PlonkError;
use crate::math::field::Field;
use crate::math::roots_of_unity::{
    coset, get_coset, get_roots_of_unity, lemma_fewer_roots_than_residues, roots_below,
    roots_of_unity,
};
use crate::protocol::circuit::{
    bind_inputs, first_error, gate_interpolations, run_gates, witness_interpolations, Circuit,
    CircuitPolynomials, Gate, GateType, Wiring,
};
use vstd::prelude::*;

verus! {

/// The circuit of `x^2 + y^2 = z^2`: three squarings and one addition.
pub struct PythagoreanCircuit {
    pub circuit: Circuit,
}

/// The four gates of the circuit: `X_0 * X_0 = X_1`, `X_2 * X_2 = X_3`,
/// `X_4 * X_4 = X_5` and `X_1 + X_3 = X_5`.
pub open spec fn pythagorean_gates() -> Seq<Gate> {
    seq![
        Gate { left_index: 0, right_index: 0, output_index: 1, gate_type: GateType::Multiplication },
        Gate { left_index: 2, right_index: 2, output_index: 3, gate_type: GateType::Multiplication },
        Gate { left_index: 4, right_index: 4, output_index: 5, gate_type: GateType::Multiplication },
        Gate { left_index: 1, right_index: 3, output_index: 5, gate_type: GateType::Addition },
    ]
}

/// The bindings of the three inputs to the places 0, 2 and 4 of the witness.
pub open spec fn pythagorean_inputs(inputs: Seq<u32>) -> Seq<(u32, usize)> {
    seq![(inputs[0], 0usize), (inputs[1], 2usize), (inputs[2], 4usize)]
}

/// The field has a domain for the circuit: at least four fourth roots of unity.
pub open spec fn has_domain(field: Field) -> bool {
    field.order > 0 && roots_below(field.order, 4, field.order as int).len() >= 4
}

/// The wiring of the circuit over the field: its four gates on the domain of
/// the fourth roots of unity, with the cosets by 2 and by 3.
pub open spec fn template_wiring(field: Field) -> Wiring {
    let roots = roots_of_unity(field.order, 4);
    Wiring {
        gates: pythagorean_gates(),
        roots,
        coset1: coset(field.order, 2, roots),
        coset2: coset(field.order, 3, roots),
    }
}

/// The witness of the circuit for three inputs: six places, of which the
/// inputs take three and the gates fill the others.
pub open spec fn template_witness(field: Field, inputs: Seq<u32>) -> Seq<u32> {
    run_gates(
        field.order,
        pythagorean_gates(),
        bind_inputs(Seq::new(6, |i: int| 0u32), pythagorean_inputs(inputs), 3),
        4,
    )
}

/// The first interpolation to fail when the circuit is built for three inputs
/// over the field, if one does: those of the gates come first.
pub open spec fn template_error(field: Field, inputs: Seq<u32>) -> Option<PlonkError> {
    match first_error(gate_interpolations(field.order, template_wiring(field))) {
        Some(e) => Some(e),
        None => first_error(
            witness_interpolations(field.order, template_wiring(field), template_witness(field, inputs)),
        ),
    }
}

impl PythagoreanCircuit {
    /// The circuit holds no gates yet, a witness of six zeros, the domain of
    /// the fourth roots of unity with its cosets by 2 and by 3, and
    /// placeholders for its polynomials.
    pub open spec fn fresh(&self, field: Field) -> bool {
        let c = self.circuit;
        &&& c.gates@.len() == 0
        &&& c.inputs@.len() == 0
        &&& c.witness@ == Seq::new(6, |i: int| 0u32)
        &&& c.field == field
        &&& c.roots@ == roots_of_unity(field.order, 4)
        &&& c.coset1@ == coset(field.order, 2, c.roots@)
        &&& c.coset2@ == coset(field.order, 3, c.roots@)
        &&& 4 <= c.roots@.len() < u32::MAX
        &&& c.circuit_polys.wires_unbuilt()
        &&& c.circuit_polys.fixed_unbuilt()
        &&& c.circuit_polys.acc.unbuilt()
    }

    /// The circuit can take the four gates: its field is one, its witness has
    /// six places at least, its domain reaches over the gates it holds and
    /// four more, and the gates it holds fit its witness.
    pub open spec fn takes_gates(&self) -> bool {
        let c = self.circuit;
        &&& c.field.order > 0
        &&& c.witness@.len() >= 6
        &&& c.domain_covers(c.gates@.len() + 4)
        &&& c.roots@.len() < u32::MAX
        &&& c.gates_fit()
    }

    /// A circuit without gates over the field.
    pub fn new(field: Field) -> (r: PythagoreanCircuit)
        requires
            has_domain(field),
        ensures
            r.fresh(field),
            r.takes_gates(),
    {
        let roots = get_roots_of_unity(4, &field);
        proof {
            lemma_fewer_roots_than_residues(field.order, 4, field.order as int);
        }
        let coset1 = get_coset(2, &roots, &field);
        let coset2 = get_coset(3, &roots, &field);
        let witness: Vec<u32> = vec![0u32; 6];
        proof {
            assert(witness@ =~= Seq::new(6, |i: int| 0u32));
        }
        PythagoreanCircuit {
            circuit: Circuit {
                gates: Vec::new(),
                inputs: Vec::new(),
                witness,
                field,
                coset1,
                coset2,
                roots,
                circuit_polys: CircuitPolynomials::default(),
            },
        }
    }

    /// Binds the three inputs, inserts the gates, builds the polynomials of
    /// the gates, computes the witness and builds the wire polynomials.
    /// Where an interpolation fails, the steps before it stay done.
    pub fn build_circuit_with_inputs(&mut self, inputs: Vec<u32>) -> (res: Result<(), PlonkError>)
        requires
            old(self).takes_gates(),
            inputs@.len() >= 3,
        ensures
            final(self).circuit.same_domain(&old(self).circuit),
            final(self).circuit.gates@ == old(self).circuit.gates@ + pythagorean_gates(),
            final(self).circuit.inputs@ == pythagorean_inputs(inputs@),
            final(self).circuit.witness@.len() == old(self).circuit.witness@.len(),
            final(self).circuit.gates_fit(),
            final(self).circuit.circuit_polys.acc == old(self).circuit.circuit_polys.acc,
            match res {
                Ok(()) => {
                    &&& final(self).circuit.fixed_built()
                    &&& final(self).circuit.wires_built()
                    &&& final(self).circuit.witness@ == run_gates(
                        old(self).circuit.field.order,
                        final(self).circuit.gates@,
                        bind_inputs(old(self).circuit.witness@, pythagorean_inputs(inputs@), 3),
                        final(self).circuit.gates@.len() as int,
                    )
                },
                Err(e) => {
                    ||| {
                        &&& first_error(final(self).circuit.fixed_interpolations()) == Some(e)
                        &&& final(self).circuit.circuit_polys == old(self).circuit.circuit_polys
                        &&& final(self).circuit.witness@ == bind_inputs(
                            old(self).circuit.witness@,
                            pythagorean_inputs(inputs@),
                            3,
                        )
                    }
                    ||| {
                        &&& first_error(final(self).circuit.fixed_interpolations()) is None
                        &&& first_error(final(self).circuit.wire_interpolations()) == Some(e)
                        &&& final(self).circuit.fixed_built()
                        &&& final(self).circuit.circuit_polys.same_wires(&old(self).circuit.circuit_polys)
                        &&& final(self).circuit.witness@ == run_gates(
                            old(self).circuit.field.order,
                            final(self).circuit.gates@,
                            bind_inputs(old(self).circuit.witness@, pythagorean_inputs(inputs@), 3),
                            final(self).circuit.gates@.len() as int,
                        )
                    }
                },
            },
    {
        // inputs[0]: X_0, inputs[1]: X_2, inputs[2]: X_4
        let mut bindings: Vec<(u32, usize)> = Vec::new();
        bindings.push((inputs[0], 0));
        bindings.push((inputs[1], 2));
        bindings.push((inputs[2], 4));
        proof {
            assert(bindings@ =~= pythagorean_inputs(inputs@));
        }
        self.circuit.set_inputs(bindings);
        self.build_circuit()?;
        self.circuit.compute_witness();
        // private polynomials
        match self.circuit.build_polynomials_with_input() {
            Ok(()) => {
                proof {
                    reveal_with_fuel(first_error, 8);
                }
                Ok(())
            },
            Err(e) => {
                proof {
                    reveal_with_fuel(first_error, 8);
                }
                Err(e)
            },
        }
    }

    /// Inserts the four gates and builds the polynomials that depend on the
    /// gates alone. Where an interpolation fails, the gates stay inserted.
    pub fn build_circuit(&mut self) -> (res: Result<(), PlonkError>)
        requires
            old(self).takes_gates(),
        ensures
            final(self).circuit.same_domain(&old(self).circuit),
            final(self).circuit.gates@ == old(self).circuit.gates@ + pythagorean_gates(),
            final(self).circuit.inputs == old(self).circuit.inputs,
            final(self).circuit.witness == old(self).circuit.witness,
            final(self).circuit.gates_fit(),
            final(self).circuit.circuit_polys.same_wires(&old(self).circuit.circuit_polys),
            final(self).circuit.circuit_polys.acc == old(self).circuit.circuit_polys.acc,
            match res {
                Ok(()) => final(self).circuit.fixed_built(),
                Err(e) => {
                    &&& first_error(final(self).circuit.fixed_interpolations()) == Some(e)
                    &&& final(self).circuit.circuit_polys == old(self).circuit.circuit_polys
                },
            },
    {
        // X_0 * X_0 = X_1
        self.circuit.insert_gate(
            Gate { left_index: 0, right_index: 0, output_index: 1, gate_type: GateType::Multiplication },
        );
        // X_2 * X_2 = X_3
        self.circuit.insert_gate(
            Gate { left_index: 2, right_index: 2, output_index: 3, gate_type: GateType::Multiplication },
        );
        // X_4 * X_4 = X_5
        self.circuit.insert_gate(
            Gate { left_index: 4, right_index: 4, output_index: 5, gate_type: GateType::Multiplication },
        );
        // X_1 + X_3 = X_5
        self.circuit.insert_gate(
            Gate { left_index: 1, right_index: 3, output_index: 5, gate_type: GateType::Addition },
        );
        proof {
            assert(self.circuit.gates@ =~= old(self).circuit.gates@ + pythagorean_gates());
        }
        // public polynomials
        self.circuit.build_polynomials()
    }

    /// Builds the accumulator's polynomial for the two challenges.
    pub fn build_acc(&mut self, beta: u32, gamma: u32) -> (res: Result<(), PlonkError>)
        requires
            old(self).circuit.gates_fit(),
            old(self).circuit.field.order > 0,
            old(self).circuit.circuit_polys.left.degree <= old(self).circuit.gates@.len(),
            old(self).circuit.domain_covers(old(self).circuit.circuit_polys.left.degree as nat),
            old(self).circuit.copies_wf(),
        ensures
            final(self).circuit.same_wiring(&old(self).circuit),
            final(self).circuit.circuit_polys.same_fixed(&old(self).circuit.circuit_polys),
            final(self).circuit.circuit_polys.same_wires(&old(self).circuit.circuit_polys),
            match res {
                Ok(()) => final(self).circuit.acc_built(beta, gamma),
                Err(e) => {
                    &&& old(self).circuit.acc_result(beta, gamma) == Err::<Seq<u32>, _>(e)
                    &&& *final(self) == *old(self)
                },
            },
    {
        self.circuit.build_accumulator(beta, gamma)
    }
}

} // verus!
