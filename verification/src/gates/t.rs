//! The T gate and its conjugate.

use vstd::prelude::*;
use crate::arithmetic::Square;
use crate::error::Error;
use crate::export::conditional_c_instruction;
use crate::export::conditional_c_text;
use crate::export::conditional_open_instruction;
use crate::export::conditional_open_text;
use crate::export::CQasm;
use crate::export::instruction;
use crate::export::instruction_text;
use crate::export::OpenQasm;
use crate::export::Refusal;
use crate::gates::Gate;
use crate::gates::S;
use crate::gates::Sdg;
use crate::stabilizer::PauliOp;

verus! {

/// The `T` gate.
///
/// The `T` gate rotates the state over pi/4 radians around the `z` axis of the
/// Bloch sphere. It is the square root of the `S` gate, and no Clifford gate: it
/// has no conjugation rule.
pub struct T {}

impl T {
    /// Create a new `T` gate.
    pub fn new() -> (g: Self)
        ensures
            g == (T {  }),
    {
        T {  }
    }
}

impl Gate for T {
    open spec fn arity(&self) -> nat {
        1
    }

    open spec fn name(&self) -> Seq<char> {
        "T"@
    }

    open spec fn clifford(&self) -> bool {
        false
    }

    open spec fn conjugation(&self, ops: Seq<PauliOp>) -> Option<(Seq<PauliOp>, bool)> {
        None
    }

    open spec fn culprit(&self, ops: Seq<PauliOp>) -> Seq<char> {
        self.name()
    }

    proof fn lemma_clifford(&self) {
        let p = Seq::new(1, |j: int| PauliOp::I);
        assert(p.len() == self.arity() && self.conjugation(p) is None);
    }

    proof fn lemma_conjugation_keeps_commutation(&self, p: Seq<PauliOp>, q: Seq<PauliOp>) {
    }

    proof fn lemma_conjugation_respects_products(&self, p: Seq<PauliOp>, q: Seq<PauliOp>) {
    }

    proof fn lemma_conjugation_kernel(&self, p: Seq<PauliOp>) {
    }

    fn description(&self) -> (s: &str) {
        "T"
    }

    fn nr_affected_bits(&self) -> (n: usize) {
        1
    }

    fn is_stabilizer(&self) -> (b: bool) {
        false
    }

    fn conjugate(&self, ops: &mut [PauliOp]) -> (r: Result<bool, Error>) {
        if ops.len() != 1 {
            return Err(Error::InvalidBitCount);
        }
        Err(Error::NotAStabilizer(String::from_str("T")))
    }
}

impl OpenQasm for T {
    open spec fn open_qasm_text(&self, bit_names: Seq<Seq<char>>, bits: Seq<usize>) -> Result<
        Seq<char>,
        Refusal,
    > {
        Ok(instruction("t"@, bit_names, bits))
    }

    open spec fn conditional_open_qasm_text(
        &self,
        condition: Seq<char>,
        bit_names: Seq<Seq<char>>,
        bits: Seq<usize>,
    ) -> Result<Seq<char>, Refusal> {
        Ok(conditional_open_instruction(condition, "t"@, bit_names, bits))
    }

    fn open_qasm(&self, bit_names: &[String], bits: &[usize]) -> (r: Result<String, Error>) {
        Ok(instruction_text("t", bit_names, bits))
    }

    fn conditional_open_qasm(&self, condition: &str, bit_names: &[String], bits: &[usize]) -> (r:
        Result<String, Error>) {
        Ok(conditional_open_text(condition, "t", bit_names, bits))
    }
}

impl CQasm for T {
    open spec fn c_qasm_text(&self, bit_names: Seq<Seq<char>>, bits: Seq<usize>) -> Result<
        Seq<char>,
        Refusal,
    > {
        Ok(instruction("t"@, bit_names, bits))
    }

    open spec fn conditional_c_qasm_text(
        &self,
        condition: Seq<char>,
        bit_names: Seq<Seq<char>>,
        bits: Seq<usize>,
    ) -> Result<Seq<char>, Refusal> {
        Ok(conditional_c_instruction(condition, "t"@, bit_names, bits))
    }

    fn c_qasm(&self, bit_names: &[String], bits: &[usize]) -> (r: Result<String, Error>) {
        Ok(instruction_text("t", bit_names, bits))
    }

    fn conditional_c_qasm(&self, condition: &str, bit_names: &[String], bits: &[usize]) -> (r:
        Result<String, Error>) {
        Ok(conditional_c_text(condition, "t", bit_names, bits))
    }
}

/// The conjugate of the `T` gate.
///
/// The conjugate `T` gate rotates the state over -pi/4 radians around the `z`
/// axis of the Bloch sphere. It is no Clifford gate: it has no conjugation rule.
pub struct Tdg {}

impl Tdg {
    /// Create a new conjugate `T` gate.
    pub fn new() -> (g: Self)
        ensures
            g == (Tdg {  }),
    {
        Tdg {  }
    }
}

impl Gate for Tdg {
    open spec fn arity(&self) -> nat {
        1
    }

    open spec fn name(&self) -> Seq<char> {
        "T†"@
    }

    open spec fn clifford(&self) -> bool {
        false
    }

    open spec fn conjugation(&self, ops: Seq<PauliOp>) -> Option<(Seq<PauliOp>, bool)> {
        None
    }

    open spec fn culprit(&self, ops: Seq<PauliOp>) -> Seq<char> {
        self.name()
    }

    proof fn lemma_clifford(&self) {
        let p = Seq::new(1, |j: int| PauliOp::I);
        assert(p.len() == self.arity() && self.conjugation(p) is None);
    }

    proof fn lemma_conjugation_keeps_commutation(&self, p: Seq<PauliOp>, q: Seq<PauliOp>) {
    }

    proof fn lemma_conjugation_respects_products(&self, p: Seq<PauliOp>, q: Seq<PauliOp>) {
    }

    proof fn lemma_conjugation_kernel(&self, p: Seq<PauliOp>) {
    }

    fn description(&self) -> (s: &str) {
        "T†"
    }

    fn nr_affected_bits(&self) -> (n: usize) {
        1
    }

    fn is_stabilizer(&self) -> (b: bool) {
        false
    }

    fn conjugate(&self, ops: &mut [PauliOp]) -> (r: Result<bool, Error>) {
        if ops.len() != 1 {
            return Err(Error::InvalidBitCount);
        }
        Err(Error::NotAStabilizer(String::from_str("T†")))
    }
}

impl OpenQasm for Tdg {
    open spec fn open_qasm_text(&self, bit_names: Seq<Seq<char>>, bits: Seq<usize>) -> Result<
        Seq<char>,
        Refusal,
    > {
        Ok(instruction("tdg"@, bit_names, bits))
    }

    open spec fn conditional_open_qasm_text(
        &self,
        condition: Seq<char>,
        bit_names: Seq<Seq<char>>,
        bits: Seq<usize>,
    ) -> Result<Seq<char>, Refusal> {
        Ok(conditional_open_instruction(condition, "tdg"@, bit_names, bits))
    }

    fn open_qasm(&self, bit_names: &[String], bits: &[usize]) -> (r: Result<String, Error>) {
        Ok(instruction_text("tdg", bit_names, bits))
    }

    fn conditional_open_qasm(&self, condition: &str, bit_names: &[String], bits: &[usize]) -> (r:
        Result<String, Error>) {
        Ok(conditional_open_text(condition, "tdg", bit_names, bits))
    }
}

impl CQasm for Tdg {
    open spec fn c_qasm_text(&self, bit_names: Seq<Seq<char>>, bits: Seq<usize>) -> Result<
        Seq<char>,
        Refusal,
    > {
        Ok(instruction("tdag"@, bit_names, bits))
    }

    open spec fn conditional_c_qasm_text(
        &self,
        condition: Seq<char>,
        bit_names: Seq<Seq<char>>,
        bits: Seq<usize>,
    ) -> Result<Seq<char>, Refusal> {
        Ok(conditional_c_instruction(condition, "tdag"@, bit_names, bits))
    }

    fn c_qasm(&self, bit_names: &[String], bits: &[usize]) -> (r: Result<String, Error>) {
        Ok(instruction_text("tdag", bit_names, bits))
    }

    fn conditional_c_qasm(&self, condition: &str, bit_names: &[String], bits: &[usize]) -> (r:
        Result<String, Error>) {
        Ok(conditional_c_text(condition, "tdag", bit_names, bits))
    }
}

/// The square of this gate is the `S` gate.
impl Square for T {
    type SqType = S;

    open spec fn has_square(&self) -> bool {
        true
    }

    open spec fn is_square(&self, sq: S) -> bool {
        true
    }

    proof fn lemma_square_arity(&self, sq: S) {
    }

    fn square(&self) -> (r: Result<S, Error>) {
        Ok(S::new())
    }
}

/// The square of this gate is the `Sdg` gate.
impl Square for Tdg {
    type SqType = Sdg;

    open spec fn has_square(&self) -> bool {
        true
    }

    open spec fn is_square(&self, sq: Sdg) -> bool {
        true
    }

    proof fn lemma_square_arity(&self, sq: Sdg) {
    }

    fn square(&self) -> (r: Result<Sdg, Error>) {
        Ok(Sdg::new())
    }
}

} // verus!
