//! A quantum-circuit simulator core.
//!
//! The library holds what a simulator decides and keeps track of: the Pauli and
//! stabilizer algebra with the tableau of a stabilizer state, a catalogue of gates
//! with their Clifford conjugation rules and their texts in OpenQasm and c-Qasm,
//! the matrices of the Clifford gates in whole complex numbers, to which the
//! conjugation rules are held, with the laws that a tableau goes on describing the
//! state through its operations, the bit permutation and layout of a dense state,
//! and the classical side of a circuit: its operations, its classical register,
//! the work that each operation asks of a quantum engine, and the histograms of
//! the results.
//!
//! The amplitudes of a dense state are floating-point numbers; the library places
//! and moves them and leaves the arithmetic on them to the engine that uses it.

pub mod arithmetic;
pub mod bit_order;
pub mod circuit;
pub mod error;
pub mod export;
pub mod gates;
pub mod independence;
pub mod layout;
pub mod normal_form;
pub mod permutation;
pub mod qasm;
pub mod register;
pub mod stabilizer;
pub mod states;
pub mod tensor;
pub mod text;
pub mod unitary;
