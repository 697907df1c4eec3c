pub mod circuit;
pub mod constants;
pub mod proof_record;
pub mod prover;
pub mod public_coin;
pub mod pythagorean_circuit_builder;
pub mod structured_reference_string;
pub mod verification;
