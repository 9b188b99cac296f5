//! The errors that the simulator core reports.

use vstd::prelude::*;

verus! {

/// What can go wrong in the simulator core.
#[derive(Debug, PartialEq)]
pub enum Error {
    /// The named gate has no Clifford conjugation for the operators it was given.
    NotAStabilizer(String),
    /// A result was asked for before the circuit was executed.
    NotExecuted,
    /// The named operation cannot be written in the named export format.
    ExportUnsupported(String, String),
    /// A gate was given a number of bits other than the number it acts on.
    InvalidBitCount,
    /// Arithmetic on a parameter that is a reference is not available.
    ReferenceArithmetic,
    /// The named operation is not available for the named gate.
    OpNotImplemented(String, String),
}

} // verus!
