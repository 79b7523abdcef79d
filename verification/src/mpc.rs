//! The MPC simulation driver: the two-party cryptographic protocol of the
//! tandem engine, run to completion in process against a built circuit.
//!
//! tandem 0.3.0 itself compiles only against curve25519-dalek 4.0.0-pre.1 and
//! needs serde's `derive` feature enabled somewhere in the build; the manifest
//! names both crates directly for that resolution alone, and nothing here
//! calls them.

use vstd::prelude::*;

verus! {

use crate::circuit::BoolCircuit;
use crate::circuit::Gate;

#[verifier::external_type_specification]
#[verifier::external_body]
pub struct ExTandemError(tandem::Error);

/// What the MPC driver can report.
#[derive(Debug)]
pub enum MpcError {
    /// The protocol returned a bit vector of the wrong width.
    WidthMismatch,
    /// Contributor and evaluator disagree on the number of rounds. The engine
    /// enforces the equality itself (both of its round counts are the same
    /// constant), so the driver never observes this.
    ProtocolStepMismatch,
    /// A protocol round-trip rejected a message; surfaced as-is.
    Protocol(tandem::Error),
}

/// Relies on tandem's `simulate`: the full cryptographic two-party protocol
/// (contributor and evaluator stepped in lockstep, each fed exactly the
/// message the other just produced), run over this circuit with the gates
/// mapped one variant to one and the operands unchanged. The engine's
/// documentation promises that on success the evaluator recovers the
/// plain-text output of the circuit on the two parties' inputs — its own
/// doc example asserts the output of an AND circuit on `true` and `false` is
/// `vec![false]` — which for a well-formed circuit (inputs first, contributor
/// before evaluator) is the reference evaluation of the concatenated
/// assignment. Invalid circuits and wrongly sized inputs are rejected with an
/// error; the engine's internal round-count assertion compares two equal
/// constants and cannot fire.
#[verifier::external_body]
fn engine_simulate(
    circuit: &BoolCircuit,
    input_contributor: &Vec<bool>,
    input_evaluator: &Vec<bool>,
) -> (r: Result<Vec<bool>, tandem::Error>)
    requires
        circuit.wf(),
    ensures
        r matches Ok(bits) ==> bits@ == circuit.outputs_on(input_contributor@ + input_evaluator@),
{
    let gates = circuit
        .gates
        .iter()
        .map(
            |g| match g {
                Gate::InContrib => tandem::Gate::InContrib,
                Gate::InEval => tandem::Gate::InEval,
                Gate::Xor(a, b) => tandem::Gate::Xor(*a, *b),
                Gate::And(a, b) => tandem::Gate::And(*a, *b),
                Gate::Not(a) => tandem::Gate::Not(*a),
            },
        )
        .collect();
    let engine_circuit = tandem::Circuit::new(gates, circuit.output_wires.clone());
    tandem::simulate(&engine_circuit, input_contributor, input_evaluator)
}

/// Simulates the local execution of the circuit using a two-party MPC
/// protocol. The full cryptographic protocol of the contributor and the
/// evaluator runs in process, with each round's messages handed over locally,
/// as if under ideal network conditions. On success the returned bits are the
/// circuit's reference evaluation of the concatenated inputs; any
/// protocol-layer failure is surfaced as an error.
pub fn simulate(
    circuit: &BoolCircuit,
    input_contributor: &Vec<bool>,
    input_evaluator: &Vec<bool>,
) -> (r: Result<Vec<bool>, MpcError>)
    requires
        circuit.wf(),
    ensures
        r matches Ok(bits) ==> bits@ == circuit.outputs_on(input_contributor@ + input_evaluator@),
{
    match engine_simulate(circuit, input_contributor, input_evaluator) {
        Ok(bits) => Ok(bits),
        Err(e) => Err(MpcError::Protocol(e)),
    }
}

/// Accepts a returned bit vector exactly when it has one bit per output wire;
/// anything else is a width mismatch.
fn check_width(circuit: &BoolCircuit, bits: Vec<bool>) -> (r: Result<Vec<bool>, MpcError>)
    ensures
        bits@.len() == circuit.output_wires@.len() ==> (r matches Ok(b) && b@ == bits@),
        bits@.len() != circuit.output_wires@.len() ==> (r matches Err(e) && e is WidthMismatch),
{
    if bits.len() == circuit.output_wires.len() {
        Ok(bits)
    } else {
        Err(MpcError::WidthMismatch)
    }
}

/// Runs the MPC protocol and checks the returned width: on success the bits
/// are the circuit's reference evaluation of the concatenated inputs, one bit
/// per output wire.
pub fn execute(
    circuit: &BoolCircuit,
    input_contributor: &Vec<bool>,
    input_evaluator: &Vec<bool>,
) -> (r: Result<Vec<bool>, MpcError>)
    requires
        circuit.wf(),
    ensures
        r matches Ok(bits) ==> bits@ == circuit.outputs_on(input_contributor@ + input_evaluator@),
        r matches Ok(bits) ==> bits@.len() == circuit.output_wires@.len(),
{
    match simulate(circuit, input_contributor, input_evaluator) {
        Ok(bits) => check_width(circuit, bits),
        Err(e) => Err(e),
    }
}

} // verus!
