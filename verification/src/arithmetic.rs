//! Arithmetic on gates.

use vstd::prelude::*;
use crate::error::Error;
use crate::gates::Gate;

verus! {

/// A gate whose square may be had as a gate again.
pub trait Square: Gate {
    /// The type of the square.
    type SqType: Gate;

    /// Whether the square of this gate is available.
    spec fn has_square(&self) -> bool;

    /// Whether `sq` is the square of this gate.
    spec fn is_square(&self, sq: Self::SqType) -> bool;

    /// The square of a gate acts on as many qubits as that gate.
    proof fn lemma_square_arity(&self, sq: Self::SqType)
        ensures
            self.has_square() && self.is_square(sq) ==> sq.arity() == self.arity(),
    ;

    /// The square of this gate: this gate applied twice. Where it is not available,
    /// the error names the operation `square` and this gate.
    fn square(&self) -> (r: Result<Self::SqType, Error>)
        ensures
            self.has_square() ==> (r matches Ok(sq) && self.is_square(sq)),
            !self.has_square() ==> (r matches Err(Error::OpNotImplemented(op, d)) && op@
                == "square"@ && d@ == self.name()),
    ;
}

} // verus!
