//! Bit-blasted arithmetic over Boolean circuits for garbled-circuit two-party
//! computation: fixed-width integers as LSB-first bit vectors, a circuit
//! builder that lowers arithmetic, bitwise, comparison, shift and multiplexer
//! operations to AND/XOR/NOT gates with verified contracts, a reference
//! evaluator giving each circuit its plain meaning, and a driver that runs the
//! cryptographic MPC protocol over a built circuit.

pub mod bits;
pub mod builder;
pub mod circuit;
pub mod codec;
pub mod laws;
pub mod mpc;
pub mod ops;
pub mod signed;
pub mod uint;
