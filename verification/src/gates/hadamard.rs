//! The Hadamard gate.

use vstd::prelude::*;
use crate::arithmetic::Square;
use crate::error::Error;
use crate::export::conditional_c_instruction;
use crate::export::conditional_c_text;
use crate::export::conditional_open_instruction;
use crate::export::conditional_open_text;
use crate::export::CQasm;
use crate::export::instruction;
use crate::export::instruction_text;
use crate::export::OpenQasm;
use crate::export::Refusal;
use crate::gates::Gate;
use crate::gates::I;
use crate::stabilizer::all_identity;
use crate::stabilizer::lemma_parity_single;
use crate::stabilizer::lemma_product_single;
use crate::stabilizer::PauliOp;

verus! {

/// The Hadamard gate.
///
/// The Hadamard gate maps the zero state |0> to the symmetric combination of |0>
/// and |1>, and the |1> state to the antisymmetric combination.
pub struct H {}

impl H {
    /// Create a new Hadamard gate.
    pub fn new() -> (g: Self)
        ensures
            g == (H {  }),
    {
        H {  }
    }

    /// The image of one Pauli operator under conjugation with this gate, and whether
    /// its sign flips.
    pub open spec fn image(op: PauliOp) -> (PauliOp, bool) {
        match op {
            PauliOp::I => (PauliOp::I, false),
            PauliOp::Z => (PauliOp::X, false),
            PauliOp::X => (PauliOp::Z, false),
            PauliOp::Y => (PauliOp::Y, true),
        }
    }

    /// Conjugate one Pauli operator with this gate.
    pub fn conjugate_op(op: PauliOp) -> (r: (PauliOp, bool))
        ensures
            r == H::image(op),
    {
        match op {
            PauliOp::I => (PauliOp::I, false),
            PauliOp::Z => (PauliOp::X, false),
            PauliOp::X => (PauliOp::Z, false),
            PauliOp::Y => (PauliOp::Y, true),
        }
    }
}

impl Gate for H {
    open spec fn arity(&self) -> nat {
        1
    }

    open spec fn name(&self) -> Seq<char> {
        "H"@
    }

    open spec fn clifford(&self) -> bool {
        true
    }

    open spec fn conjugation(&self, ops: Seq<PauliOp>) -> Option<(Seq<PauliOp>, bool)> {
        Some((seq![H::image(ops[0]).0], H::image(ops[0]).1))
    }

    open spec fn culprit(&self, ops: Seq<PauliOp>) -> Seq<char> {
        self.name()
    }

    proof fn lemma_clifford(&self) {
    }

    proof fn lemma_conjugation_keeps_commutation(&self, p: Seq<PauliOp>, q: Seq<PauliOp>) {
        lemma_parity_single(p, q);
        lemma_parity_single(self.conjugation(p).unwrap().0, self.conjugation(q).unwrap().0);
    }

    proof fn lemma_conjugation_respects_products(&self, p: Seq<PauliOp>, q: Seq<PauliOp>) {
        lemma_product_single(p, q);
        lemma_product_single(self.conjugation(p).unwrap().0, self.conjugation(q).unwrap().0);
    }

    proof fn lemma_conjugation_kernel(&self, p: Seq<PauliOp>) {
        if all_identity(self.conjugation(p).unwrap().0) {
            assert(self.conjugation(p).unwrap().0[0] == PauliOp::I);
        }
    }

    fn description(&self) -> (s: &str) {
        "H"
    }

    fn nr_affected_bits(&self) -> (n: usize) {
        1
    }

    fn is_stabilizer(&self) -> (b: bool) {
        true
    }

    fn conjugate(&self, ops: &mut [PauliOp]) -> (r: Result<bool, Error>) {
        if ops.len() != 1 {
            return Err(Error::InvalidBitCount);
        }
        let image: (PauliOp, bool) = H::conjugate_op(ops[0]);
        ops[0] = image.0;
        assert(ops@ =~= seq![image.0]);
        Ok(image.1)
    }
}

impl OpenQasm for H {
    open spec fn open_qasm_text(&self, bit_names: Seq<Seq<char>>, bits: Seq<usize>) -> Result<
        Seq<char>,
        Refusal,
    > {
        Ok(instruction("h"@, bit_names, bits))
    }

    open spec fn conditional_open_qasm_text(
        &self,
        condition: Seq<char>,
        bit_names: Seq<Seq<char>>,
        bits: Seq<usize>,
    ) -> Result<Seq<char>, Refusal> {
        Ok(conditional_open_instruction(condition, "h"@, bit_names, bits))
    }

    fn open_qasm(&self, bit_names: &[String], bits: &[usize]) -> (r: Result<String, Error>) {
        Ok(instruction_text("h", bit_names, bits))
    }

    fn conditional_open_qasm(&self, condition: &str, bit_names: &[String], bits: &[usize]) -> (r:
        Result<String, Error>) {
        Ok(conditional_open_text(condition, "h", bit_names, bits))
    }
}

impl CQasm for H {
    open spec fn c_qasm_text(&self, bit_names: Seq<Seq<char>>, bits: Seq<usize>) -> Result<
        Seq<char>,
        Refusal,
    > {
        Ok(instruction("h"@, bit_names, bits))
    }

    open spec fn conditional_c_qasm_text(
        &self,
        condition: Seq<char>,
        bit_names: Seq<Seq<char>>,
        bits: Seq<usize>,
    ) -> Result<Seq<char>, Refusal> {
        Ok(conditional_c_instruction(condition, "h"@, bit_names, bits))
    }

    fn c_qasm(&self, bit_names: &[String], bits: &[usize]) -> (r: Result<String, Error>) {
        Ok(instruction_text("h", bit_names, bits))
    }

    fn conditional_c_qasm(&self, condition: &str, bit_names: &[String], bits: &[usize]) -> (r:
        Result<String, Error>) {
        Ok(conditional_c_text(condition, "h", bit_names, bits))
    }
}

/// The square of this gate is the `I` gate.
impl Square for H {
    type SqType = I;

    open spec fn has_square(&self) -> bool {
        true
    }

    open spec fn is_square(&self, sq: I) -> bool {
        true
    }

    proof fn lemma_square_arity(&self, sq: I) {
    }

    fn square(&self) -> (r: Result<I, Error>) {
        Ok(I::new())
    }
}

} // verus!
