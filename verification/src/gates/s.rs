//! The S gate and its conjugate.

use vstd::prelude::*;
use crate::arithmetic::Square;
use crate::error::Error;
use crate::export::conditional_c_instruction;
use crate::export::conditional_c_text;
use crate::export::conditional_open_instruction;
use crate::export::conditional_open_text;
use crate::export::CQasm;
use crate::export::instruction;
use crate::export::instruction_text;
use crate::export::OpenQasm;
use crate::export::Refusal;
use crate::gates::Gate;
use crate::gates::Z;
use crate::stabilizer::all_identity;
use crate::stabilizer::lemma_parity_single;
use crate::stabilizer::lemma_product_single;
use crate::stabilizer::PauliOp;

verus! {

/// The Clifford `S` gate.
///
/// The `S` gate rotates the state over pi/2 radians around the `z` axis of the
/// Bloch sphere. It is the square root of the `Z` gate.
pub struct S {}

impl S {
    /// Create a new `S` gate.
    pub fn new() -> (g: Self)
        ensures
            g == (S {  }),
    {
        S {  }
    }

    /// The image of one Pauli operator under conjugation with this gate, and whether
    /// its sign flips.
    pub open spec fn image(op: PauliOp) -> (PauliOp, bool) {
        match op {
            PauliOp::I => (PauliOp::I, false),
            PauliOp::Z => (PauliOp::Z, false),
            PauliOp::X => (PauliOp::Y, false),
            PauliOp::Y => (PauliOp::X, true),
        }
    }

    /// Conjugate one Pauli operator with this gate.
    pub fn conjugate_op(op: PauliOp) -> (r: (PauliOp, bool))
        ensures
            r == S::image(op),
    {
        match op {
            PauliOp::I => (PauliOp::I, false),
            PauliOp::Z => (PauliOp::Z, false),
            PauliOp::X => (PauliOp::Y, false),
            PauliOp::Y => (PauliOp::X, true),
        }
    }
}

impl Gate for S {
    open spec fn arity(&self) -> nat {
        1
    }

    open spec fn name(&self) -> Seq<char> {
        "S"@
    }

    open spec fn clifford(&self) -> bool {
        true
    }

    open spec fn conjugation(&self, ops: Seq<PauliOp>) -> Option<(Seq<PauliOp>, bool)> {
        Some((seq![S::image(ops[0]).0], S::image(ops[0]).1))
    }

    open spec fn culprit(&self, ops: Seq<PauliOp>) -> Seq<char> {
        self.name()
    }

    proof fn lemma_clifford(&self) {
    }

    proof fn lemma_conjugation_keeps_commutation(&self, p: Seq<PauliOp>, q: Seq<PauliOp>) {
        lemma_parity_single(p, q);
        lemma_parity_single(self.conjugation(p).unwrap().0, self.conjugation(q).unwrap().0);
    }

    proof fn lemma_conjugation_respects_products(&self, p: Seq<PauliOp>, q: Seq<PauliOp>) {
        lemma_product_single(p, q);
        lemma_product_single(self.conjugation(p).unwrap().0, self.conjugation(q).unwrap().0);
    }

    proof fn lemma_conjugation_kernel(&self, p: Seq<PauliOp>) {
        if all_identity(self.conjugation(p).unwrap().0) {
            assert(self.conjugation(p).unwrap().0[0] == PauliOp::I);
        }
    }

    fn description(&self) -> (s: &str) {
        "S"
    }

    fn nr_affected_bits(&self) -> (n: usize) {
        1
    }

    fn is_stabilizer(&self) -> (b: bool) {
        true
    }

    fn conjugate(&self, ops: &mut [PauliOp]) -> (r: Result<bool, Error>) {
        if ops.len() != 1 {
            return Err(Error::InvalidBitCount);
        }
        let image: (PauliOp, bool) = S::conjugate_op(ops[0]);
        ops[0] = image.0;
        assert(ops@ =~= seq![image.0]);
        Ok(image.1)
    }
}

impl OpenQasm for S {
    open spec fn open_qasm_text(&self, bit_names: Seq<Seq<char>>, bits: Seq<usize>) -> Result<
        Seq<char>,
        Refusal,
    > {
        Ok(instruction("s"@, bit_names, bits))
    }

    open spec fn conditional_open_qasm_text(
        &self,
        condition: Seq<char>,
        bit_names: Seq<Seq<char>>,
        bits: Seq<usize>,
    ) -> Result<Seq<char>, Refusal> {
        Ok(conditional_open_instruction(condition, "s"@, bit_names, bits))
    }

    fn open_qasm(&self, bit_names: &[String], bits: &[usize]) -> (r: Result<String, Error>) {
        Ok(instruction_text("s", bit_names, bits))
    }

    fn conditional_open_qasm(&self, condition: &str, bit_names: &[String], bits: &[usize]) -> (r:
        Result<String, Error>) {
        Ok(conditional_open_text(condition, "s", bit_names, bits))
    }
}

impl CQasm for S {
    open spec fn c_qasm_text(&self, bit_names: Seq<Seq<char>>, bits: Seq<usize>) -> Result<
        Seq<char>,
        Refusal,
    > {
        Ok(instruction("s"@, bit_names, bits))
    }

    open spec fn conditional_c_qasm_text(
        &self,
        condition: Seq<char>,
        bit_names: Seq<Seq<char>>,
        bits: Seq<usize>,
    ) -> Result<Seq<char>, Refusal> {
        Ok(conditional_c_instruction(condition, "s"@, bit_names, bits))
    }

    fn c_qasm(&self, bit_names: &[String], bits: &[usize]) -> (r: Result<String, Error>) {
        Ok(instruction_text("s", bit_names, bits))
    }

    fn conditional_c_qasm(&self, condition: &str, bit_names: &[String], bits: &[usize]) -> (r:
        Result<String, Error>) {
        Ok(conditional_c_text(condition, "s", bit_names, bits))
    }
}

/// The conjugate of the `S` gate.
///
/// The conjugate `S` gate rotates the state over -pi/2 radians around the `z`
/// axis of the Bloch sphere.
pub struct Sdg {}

impl Sdg {
    /// Create a new conjugate `S` gate.
    pub fn new() -> (g: Self)
        ensures
            g == (Sdg {  }),
    {
        Sdg {  }
    }

    /// The image of one Pauli operator under conjugation with this gate, and whether
    /// its sign flips.
    pub open spec fn image(op: PauliOp) -> (PauliOp, bool) {
        match op {
            PauliOp::I => (PauliOp::I, false),
            PauliOp::Z => (PauliOp::Z, false),
            PauliOp::X => (PauliOp::Y, true),
            PauliOp::Y => (PauliOp::X, false),
        }
    }

    /// Conjugate one Pauli operator with this gate.
    pub fn conjugate_op(op: PauliOp) -> (r: (PauliOp, bool))
        ensures
            r == Sdg::image(op),
    {
        match op {
            PauliOp::I => (PauliOp::I, false),
            PauliOp::Z => (PauliOp::Z, false),
            PauliOp::X => (PauliOp::Y, true),
            PauliOp::Y => (PauliOp::X, false),
        }
    }
}

impl Gate for Sdg {
    open spec fn arity(&self) -> nat {
        1
    }

    open spec fn name(&self) -> Seq<char> {
        "S†"@
    }

    open spec fn clifford(&self) -> bool {
        true
    }

    open spec fn conjugation(&self, ops: Seq<PauliOp>) -> Option<(Seq<PauliOp>, bool)> {
        Some((seq![Sdg::image(ops[0]).0], Sdg::image(ops[0]).1))
    }

    open spec fn culprit(&self, ops: Seq<PauliOp>) -> Seq<char> {
        self.name()
    }

    proof fn lemma_clifford(&self) {
    }

    proof fn lemma_conjugation_keeps_commutation(&self, p: Seq<PauliOp>, q: Seq<PauliOp>) {
        lemma_parity_single(p, q);
        lemma_parity_single(self.conjugation(p).unwrap().0, self.conjugation(q).unwrap().0);
    }

    proof fn lemma_conjugation_respects_products(&self, p: Seq<PauliOp>, q: Seq<PauliOp>) {
        lemma_product_single(p, q);
        lemma_product_single(self.conjugation(p).unwrap().0, self.conjugation(q).unwrap().0);
    }

    proof fn lemma_conjugation_kernel(&self, p: Seq<PauliOp>) {
        if all_identity(self.conjugation(p).unwrap().0) {
            assert(self.conjugation(p).unwrap().0[0] == PauliOp::I);
        }
    }

    fn description(&self) -> (s: &str) {
        "S†"
    }

    fn nr_affected_bits(&self) -> (n: usize) {
        1
    }

    fn is_stabilizer(&self) -> (b: bool) {
        true
    }

    fn conjugate(&self, ops: &mut [PauliOp]) -> (r: Result<bool, Error>) {
        if ops.len() != 1 {
            return Err(Error::InvalidBitCount);
        }
        let image: (PauliOp, bool) = Sdg::conjugate_op(ops[0]);
        ops[0] = image.0;
        assert(ops@ =~= seq![image.0]);
        Ok(image.1)
    }
}

impl OpenQasm for Sdg {
    open spec fn open_qasm_text(&self, bit_names: Seq<Seq<char>>, bits: Seq<usize>) -> Result<
        Seq<char>,
        Refusal,
    > {
        Ok(instruction("sdg"@, bit_names, bits))
    }

    open spec fn conditional_open_qasm_text(
        &self,
        condition: Seq<char>,
        bit_names: Seq<Seq<char>>,
        bits: Seq<usize>,
    ) -> Result<Seq<char>, Refusal> {
        Ok(conditional_open_instruction(condition, "sdg"@, bit_names, bits))
    }

    fn open_qasm(&self, bit_names: &[String], bits: &[usize]) -> (r: Result<String, Error>) {
        Ok(instruction_text("sdg", bit_names, bits))
    }

    fn conditional_open_qasm(&self, condition: &str, bit_names: &[String], bits: &[usize]) -> (r:
        Result<String, Error>) {
        Ok(conditional_open_text(condition, "sdg", bit_names, bits))
    }
}

impl CQasm for Sdg {
    open spec fn c_qasm_text(&self, bit_names: Seq<Seq<char>>, bits: Seq<usize>) -> Result<
        Seq<char>,
        Refusal,
    > {
        Ok(instruction("sdag"@, bit_names, bits))
    }

    open spec fn conditional_c_qasm_text(
        &self,
        condition: Seq<char>,
        bit_names: Seq<Seq<char>>,
        bits: Seq<usize>,
    ) -> Result<Seq<char>, Refusal> {
        Ok(conditional_c_instruction(condition, "sdag"@, bit_names, bits))
    }

    fn c_qasm(&self, bit_names: &[String], bits: &[usize]) -> (r: Result<String, Error>) {
        Ok(instruction_text("sdag", bit_names, bits))
    }

    fn conditional_c_qasm(&self, condition: &str, bit_names: &[String], bits: &[usize]) -> (r:
        Result<String, Error>) {
        Ok(conditional_c_text(condition, "sdag", bit_names, bits))
    }
}

/// The square of this gate is the `Z` gate.
impl Square for S {
    type SqType = Z;

    open spec fn has_square(&self) -> bool {
        true
    }

    open spec fn is_square(&self, sq: Z) -> bool {
        true
    }

    proof fn lemma_square_arity(&self, sq: Z) {
    }

    fn square(&self) -> (r: Result<Z, Error>) {
        Ok(Z::new())
    }
}

/// The square of this gate is the `Z` gate.
impl Square for Sdg {
    type SqType = Z;

    open spec fn has_square(&self) -> bool {
        true
    }

    open spec fn is_square(&self, sq: Z) -> bool {
        true
    }

    proof fn lemma_square_arity(&self, sq: Z) {
    }

    fn square(&self) -> (r: Result<Z, Error>) {
        Ok(Z::new())
    }
}

} // verus!
