//! Controlled gates: the controlled Pauli gates with their own conjugation tables,
//! and the controlled form of any gate.

use vstd::prelude::*;
use crate::error::Error;
use crate::export::conditional_c_instruction;
use crate::export::conditional_c_text;
use crate::export::conditional_open_instruction;
use crate::export::conditional_open_text;
use crate::export::CQasm;
use crate::export::instruction;
use crate::export::instruction_text;
use crate::export::OpenQasm;
use crate::export::Refusal;
use crate::gates::Gate;
use crate::gates::H;
use crate::layout::swap_blocks;
use crate::stabilizer::all_identity;
use crate::stabilizer::lemma_parity_concat;
use crate::stabilizer::lemma_parity_pair;
use crate::stabilizer::lemma_parity_single;
use crate::stabilizer::lemma_phase_parity;
use crate::stabilizer::lemma_product_concat;
use crate::stabilizer::lemma_product_pair;
use crate::stabilizer::lemma_product_single;
use crate::stabilizer::PauliOp;
use crate::stabilizer::string_times;

verus! {

/// The controlled `X` gate.
///
/// The first qubit is the control, the second the target: `X` acts on the target
/// where the control is |1>.
pub struct CX {}

impl CX {
    /// Create a new controlled `X` gate.
    pub fn new() -> (g: Self)
        ensures
            g == (CX {  }),
    {
        CX {  }
    }

    /// The image of the Pauli string `control`, `target` under conjugation with this
    /// gate: the operator on the control, the operator on the target, and whether
    /// the sign flips.
    pub open spec fn image(control: PauliOp, target: PauliOp) -> (PauliOp, PauliOp, bool) {
        match (control, target) {
            (PauliOp::I, PauliOp::I) => (PauliOp::I, PauliOp::I, false),
            (PauliOp::I, PauliOp::Z) => (PauliOp::Z, PauliOp::Z, false),
            (PauliOp::I, PauliOp::X) => (PauliOp::I, PauliOp::X, false),
            (PauliOp::I, PauliOp::Y) => (PauliOp::Z, PauliOp::Y, false),
            (PauliOp::Z, PauliOp::I) => (PauliOp::Z, PauliOp::I, false),
            (PauliOp::Z, PauliOp::Z) => (PauliOp::I, PauliOp::Z, false),
            (PauliOp::Z, PauliOp::X) => (PauliOp::Z, PauliOp::X, false),
            (PauliOp::Z, PauliOp::Y) => (PauliOp::I, PauliOp::Y, false),
            (PauliOp::X, PauliOp::I) => (PauliOp::X, PauliOp::X, false),
            (PauliOp::X, PauliOp::Z) => (PauliOp::Y, PauliOp::Y, true),
            (PauliOp::X, PauliOp::X) => (PauliOp::X, PauliOp::I, false),
            (PauliOp::X, PauliOp::Y) => (PauliOp::Y, PauliOp::Z, false),
            (PauliOp::Y, PauliOp::I) => (PauliOp::Y, PauliOp::X, false),
            (PauliOp::Y, PauliOp::Z) => (PauliOp::X, PauliOp::Y, false),
            (PauliOp::Y, PauliOp::X) => (PauliOp::Y, PauliOp::I, false),
            (PauliOp::Y, PauliOp::Y) => (PauliOp::X, PauliOp::Z, true),
        }
    }

    /// Apply this gate to a state slice: exchange its last two quarters, the
    /// amplitudes where the control is 1 and the target is 0, and those where both
    /// are 1.
    pub fn transform<A: Copy>(state: &mut [A])
        requires
            old(state)@.len() % 4 == 0,
        ensures
            final(state)@ == old(state)@.take(old(state)@.len() as int / 2) + old(state)@.skip(
                3 * (old(state)@.len() as int / 4),
            ) + old(state)@.subrange(
                old(state)@.len() as int / 2,
                3 * (old(state)@.len() as int / 4),
            ),
    {
        let ghost before = state@;
        swap_blocks(state, 4, 2, 3);
        proof {
            let n = before.len() as int;
            let q = n / 4;
            let want = before.take(n / 2) + before.skip(3 * q) + before.subrange(n / 2, 3 * q);
            assert(state@.len() == want.len());
            assert forall|row: int| 0 <= row < n implies state@[row] == want[row] by {
                if q > 0 {
                    assert((row / q == 2) == (2 * q <= row < 3 * q)) by (nonlinear_arith)
                        requires
                            q > 0,
                            row >= 0,
                    ;
                    assert((row / q == 3) == (3 * q <= row < 4 * q)) by (nonlinear_arith)
                        requires
                            q > 0,
                            row >= 0,
                    ;
                }
            }
            assert(state@ =~= want);
        }
    }

    /// Conjugate the Pauli string `control`, `target` with this gate.
    pub fn conjugate_ops(control: PauliOp, target: PauliOp) -> (r: (PauliOp, PauliOp, bool))
        ensures
            r == CX::image(control, target),
    {
        match (control, target) {
            (PauliOp::I, PauliOp::I) => (PauliOp::I, PauliOp::I, false),
            (PauliOp::I, PauliOp::Z) => (PauliOp::Z, PauliOp::Z, false),
            (PauliOp::I, PauliOp::X) => (PauliOp::I, PauliOp::X, false),
            (PauliOp::I, PauliOp::Y) => (PauliOp::Z, PauliOp::Y, false),
            (PauliOp::Z, PauliOp::I) => (PauliOp::Z, PauliOp::I, false),
            (PauliOp::Z, PauliOp::Z) => (PauliOp::I, PauliOp::Z, false),
            (PauliOp::Z, PauliOp::X) => (PauliOp::Z, PauliOp::X, false),
            (PauliOp::Z, PauliOp::Y) => (PauliOp::I, PauliOp::Y, false),
            (PauliOp::X, PauliOp::I) => (PauliOp::X, PauliOp::X, false),
            (PauliOp::X, PauliOp::Z) => (PauliOp::Y, PauliOp::Y, true),
            (PauliOp::X, PauliOp::X) => (PauliOp::X, PauliOp::I, false),
            (PauliOp::X, PauliOp::Y) => (PauliOp::Y, PauliOp::Z, false),
            (PauliOp::Y, PauliOp::I) => (PauliOp::Y, PauliOp::X, false),
            (PauliOp::Y, PauliOp::Z) => (PauliOp::X, PauliOp::Y, false),
            (PauliOp::Y, PauliOp::X) => (PauliOp::Y, PauliOp::I, false),
            (PauliOp::Y, PauliOp::Y) => (PauliOp::X, PauliOp::Z, true),
        }
    }
}

impl Gate for CX {
    open spec fn arity(&self) -> nat {
        2
    }

    open spec fn name(&self) -> Seq<char> {
        "CX"@
    }

    open spec fn clifford(&self) -> bool {
        true
    }

    open spec fn conjugation(&self, ops: Seq<PauliOp>) -> Option<(Seq<PauliOp>, bool)> {
        let image = CX::image(ops[0], ops[1]);
        Some((seq![image.0, image.1], image.2))
    }

    open spec fn culprit(&self, ops: Seq<PauliOp>) -> Seq<char> {
        self.name()
    }

    proof fn lemma_clifford(&self) {
    }

    proof fn lemma_conjugation_keeps_commutation(&self, p: Seq<PauliOp>, q: Seq<PauliOp>) {
        lemma_parity_pair(p, q);
        lemma_parity_pair(self.conjugation(p).unwrap().0, self.conjugation(q).unwrap().0);
    }

    proof fn lemma_conjugation_respects_products(&self, p: Seq<PauliOp>, q: Seq<PauliOp>) {
        lemma_product_pair(p, q);
        lemma_product_pair(self.conjugation(p).unwrap().0, self.conjugation(q).unwrap().0);
    }

    proof fn lemma_conjugation_kernel(&self, p: Seq<PauliOp>) {
        if all_identity(self.conjugation(p).unwrap().0) {
            assert(self.conjugation(p).unwrap().0[0] == PauliOp::I);
            assert(self.conjugation(p).unwrap().0[1] == PauliOp::I);
        }
    }

    fn description(&self) -> (s: &str) {
        "CX"
    }

    fn nr_affected_bits(&self) -> (n: usize) {
        2
    }

    fn is_stabilizer(&self) -> (b: bool) {
        true
    }

    fn conjugate(&self, ops: &mut [PauliOp]) -> (r: Result<bool, Error>) {
        if ops.len() != 2 {
            return Err(Error::InvalidBitCount);
        }
        let image: (PauliOp, PauliOp, bool) = CX::conjugate_ops(ops[0], ops[1]);
        ops[0] = image.0;
        ops[1] = image.1;
        assert(ops@ =~= seq![image.0, image.1]);
        Ok(image.2)
    }
}

impl OpenQasm for CX {
    open spec fn open_qasm_text(&self, bit_names: Seq<Seq<char>>, bits: Seq<usize>) -> Result<
        Seq<char>,
        Refusal,
    > {
        Ok(instruction("cx"@, bit_names, bits))
    }

    open spec fn conditional_open_qasm_text(
        &self,
        condition: Seq<char>,
        bit_names: Seq<Seq<char>>,
        bits: Seq<usize>,
    ) -> Result<Seq<char>, Refusal> {
        Ok(conditional_open_instruction(condition, "cx"@, bit_names, bits))
    }

    fn open_qasm(&self, bit_names: &[String], bits: &[usize]) -> (r: Result<String, Error>) {
        Ok(instruction_text("cx", bit_names, bits))
    }

    fn conditional_open_qasm(&self, condition: &str, bit_names: &[String], bits: &[usize]) -> (r:
        Result<String, Error>) {
        Ok(conditional_open_text(condition, "cx", bit_names, bits))
    }
}

impl CQasm for CX {
    open spec fn c_qasm_text(&self, bit_names: Seq<Seq<char>>, bits: Seq<usize>) -> Result<
        Seq<char>,
        Refusal,
    > {
        Ok(instruction("cnot"@, bit_names, bits))
    }

    open spec fn conditional_c_qasm_text(
        &self,
        condition: Seq<char>,
        bit_names: Seq<Seq<char>>,
        bits: Seq<usize>,
    ) -> Result<Seq<char>, Refusal> {
        Ok(conditional_c_instruction(condition, "cnot"@, bit_names, bits))
    }

    fn c_qasm(&self, bit_names: &[String], bits: &[usize]) -> (r: Result<String, Error>) {
        Ok(instruction_text("cnot", bit_names, bits))
    }

    fn conditional_c_qasm(&self, condition: &str, bit_names: &[String], bits: &[usize]) -> (r:
        Result<String, Error>) {
        Ok(conditional_c_text(condition, "cnot", bit_names, bits))
    }
}

/// The controlled `Y` gate.
///
/// The first qubit is the control, the second the target: `Y` acts on the target
/// where the control is |1>.
pub struct CY {}

impl CY {
    /// Create a new controlled `Y` gate.
    pub fn new() -> (g: Self)
        ensures
            g == (CY {  }),
    {
        CY {  }
    }

    /// The image of the Pauli string `control`, `target` under conjugation with this
    /// gate: the operator on the control, the operator on the target, and whether
    /// the sign flips.
    pub open spec fn image(control: PauliOp, target: PauliOp) -> (PauliOp, PauliOp, bool) {
        match (control, target) {
            (PauliOp::I, PauliOp::I) => (PauliOp::I, PauliOp::I, false),
            (PauliOp::I, PauliOp::Z) => (PauliOp::Z, PauliOp::Z, false),
            (PauliOp::I, PauliOp::X) => (PauliOp::Z, PauliOp::X, false),
            (PauliOp::I, PauliOp::Y) => (PauliOp::I, PauliOp::Y, false),
            (PauliOp::Z, PauliOp::I) => (PauliOp::Z, PauliOp::I, false),
            (PauliOp::Z, PauliOp::Z) => (PauliOp::I, PauliOp::Z, false),
            (PauliOp::Z, PauliOp::X) => (PauliOp::I, PauliOp::X, false),
            (PauliOp::Z, PauliOp::Y) => (PauliOp::Z, PauliOp::Y, false),
            (PauliOp::X, PauliOp::I) => (PauliOp::X, PauliOp::Y, false),
            (PauliOp::X, PauliOp::Z) => (PauliOp::Y, PauliOp::X, false),
            (PauliOp::X, PauliOp::X) => (PauliOp::Y, PauliOp::Z, true),
            (PauliOp::X, PauliOp::Y) => (PauliOp::X, PauliOp::I, false),
            (PauliOp::Y, PauliOp::I) => (PauliOp::Y, PauliOp::Y, false),
            (PauliOp::Y, PauliOp::Z) => (PauliOp::X, PauliOp::X, true),
            (PauliOp::Y, PauliOp::X) => (PauliOp::X, PauliOp::Z, false),
            (PauliOp::Y, PauliOp::Y) => (PauliOp::Y, PauliOp::I, false),
        }
    }

    /// Conjugate the Pauli string `control`, `target` with this gate.
    pub fn conjugate_ops(control: PauliOp, target: PauliOp) -> (r: (PauliOp, PauliOp, bool))
        ensures
            r == CY::image(control, target),
    {
        match (control, target) {
            (PauliOp::I, PauliOp::I) => (PauliOp::I, PauliOp::I, false),
            (PauliOp::I, PauliOp::Z) => (PauliOp::Z, PauliOp::Z, false),
            (PauliOp::I, PauliOp::X) => (PauliOp::Z, PauliOp::X, false),
            (PauliOp::I, PauliOp::Y) => (PauliOp::I, PauliOp::Y, false),
            (PauliOp::Z, PauliOp::I) => (PauliOp::Z, PauliOp::I, false),
            (PauliOp::Z, PauliOp::Z) => (PauliOp::I, PauliOp::Z, false),
            (PauliOp::Z, PauliOp::X) => (PauliOp::I, PauliOp::X, false),
            (PauliOp::Z, PauliOp::Y) => (PauliOp::Z, PauliOp::Y, false),
            (PauliOp::X, PauliOp::I) => (PauliOp::X, PauliOp::Y, false),
            (PauliOp::X, PauliOp::Z) => (PauliOp::Y, PauliOp::X, false),
            (PauliOp::X, PauliOp::X) => (PauliOp::Y, PauliOp::Z, true),
            (PauliOp::X, PauliOp::Y) => (PauliOp::X, PauliOp::I, false),
            (PauliOp::Y, PauliOp::I) => (PauliOp::Y, PauliOp::Y, false),
            (PauliOp::Y, PauliOp::Z) => (PauliOp::X, PauliOp::X, true),
            (PauliOp::Y, PauliOp::X) => (PauliOp::X, PauliOp::Z, false),
            (PauliOp::Y, PauliOp::Y) => (PauliOp::Y, PauliOp::I, false),
        }
    }
}

impl Gate for CY {
    open spec fn arity(&self) -> nat {
        2
    }

    open spec fn name(&self) -> Seq<char> {
        "CY"@
    }

    open spec fn clifford(&self) -> bool {
        true
    }

    open spec fn conjugation(&self, ops: Seq<PauliOp>) -> Option<(Seq<PauliOp>, bool)> {
        let image = CY::image(ops[0], ops[1]);
        Some((seq![image.0, image.1], image.2))
    }

    open spec fn culprit(&self, ops: Seq<PauliOp>) -> Seq<char> {
        self.name()
    }

    proof fn lemma_clifford(&self) {
    }

    proof fn lemma_conjugation_keeps_commutation(&self, p: Seq<PauliOp>, q: Seq<PauliOp>) {
        lemma_parity_pair(p, q);
        lemma_parity_pair(self.conjugation(p).unwrap().0, self.conjugation(q).unwrap().0);
    }

    proof fn lemma_conjugation_respects_products(&self, p: Seq<PauliOp>, q: Seq<PauliOp>) {
        lemma_product_pair(p, q);
        lemma_product_pair(self.conjugation(p).unwrap().0, self.conjugation(q).unwrap().0);
    }

    proof fn lemma_conjugation_kernel(&self, p: Seq<PauliOp>) {
        if all_identity(self.conjugation(p).unwrap().0) {
            assert(self.conjugation(p).unwrap().0[0] == PauliOp::I);
            assert(self.conjugation(p).unwrap().0[1] == PauliOp::I);
        }
    }

    fn description(&self) -> (s: &str) {
        "CY"
    }

    fn nr_affected_bits(&self) -> (n: usize) {
        2
    }

    fn is_stabilizer(&self) -> (b: bool) {
        true
    }

    fn conjugate(&self, ops: &mut [PauliOp]) -> (r: Result<bool, Error>) {
        if ops.len() != 2 {
            return Err(Error::InvalidBitCount);
        }
        let image: (PauliOp, PauliOp, bool) = CY::conjugate_ops(ops[0], ops[1]);
        ops[0] = image.0;
        ops[1] = image.1;
        assert(ops@ =~= seq![image.0, image.1]);
        Ok(image.2)
    }
}

impl OpenQasm for CY {
    open spec fn open_qasm_text(&self, bit_names: Seq<Seq<char>>, bits: Seq<usize>) -> Result<
        Seq<char>,
        Refusal,
    > {
        Ok(instruction("cy"@, bit_names, bits))
    }

    open spec fn conditional_open_qasm_text(
        &self,
        condition: Seq<char>,
        bit_names: Seq<Seq<char>>,
        bits: Seq<usize>,
    ) -> Result<Seq<char>, Refusal> {
        Ok(conditional_open_instruction(condition, "cy"@, bit_names, bits))
    }

    fn open_qasm(&self, bit_names: &[String], bits: &[usize]) -> (r: Result<String, Error>) {
        Ok(instruction_text("cy", bit_names, bits))
    }

    fn conditional_open_qasm(&self, condition: &str, bit_names: &[String], bits: &[usize]) -> (r:
        Result<String, Error>) {
        Ok(conditional_open_text(condition, "cy", bit_names, bits))
    }
}

/// The controlled `Z` gate.
///
/// The first qubit is the control, the second the target: `Z` acts on the target
/// where the control is |1>.
pub struct CZ {}

impl CZ {
    /// Create a new controlled `Z` gate.
    pub fn new() -> (g: Self)
        ensures
            g == (CZ {  }),
    {
        CZ {  }
    }

    /// The image of the Pauli string `control`, `target` under conjugation with this
    /// gate: the operator on the control, the operator on the target, and whether
    /// the sign flips.
    pub open spec fn image(control: PauliOp, target: PauliOp) -> (PauliOp, PauliOp, bool) {
        match (control, target) {
            (PauliOp::I, PauliOp::I) => (PauliOp::I, PauliOp::I, false),
            (PauliOp::I, PauliOp::Z) => (PauliOp::I, PauliOp::Z, false),
            (PauliOp::I, PauliOp::X) => (PauliOp::Z, PauliOp::X, false),
            (PauliOp::I, PauliOp::Y) => (PauliOp::Z, PauliOp::Y, false),
            (PauliOp::Z, PauliOp::I) => (PauliOp::Z, PauliOp::I, false),
            (PauliOp::Z, PauliOp::Z) => (PauliOp::Z, PauliOp::Z, false),
            (PauliOp::Z, PauliOp::X) => (PauliOp::I, PauliOp::X, false),
            (PauliOp::Z, PauliOp::Y) => (PauliOp::I, PauliOp::Y, false),
            (PauliOp::X, PauliOp::I) => (PauliOp::X, PauliOp::Z, false),
            (PauliOp::X, PauliOp::Z) => (PauliOp::X, PauliOp::I, false),
            (PauliOp::X, PauliOp::X) => (PauliOp::Y, PauliOp::Y, false),
            (PauliOp::X, PauliOp::Y) => (PauliOp::Y, PauliOp::X, true),
            (PauliOp::Y, PauliOp::I) => (PauliOp::Y, PauliOp::Z, false),
            (PauliOp::Y, PauliOp::Z) => (PauliOp::Y, PauliOp::I, false),
            (PauliOp::Y, PauliOp::X) => (PauliOp::X, PauliOp::Y, true),
            (PauliOp::Y, PauliOp::Y) => (PauliOp::X, PauliOp::X, false),
        }
    }

    /// Conjugate the Pauli string `control`, `target` with this gate.
    pub fn conjugate_ops(control: PauliOp, target: PauliOp) -> (r: (PauliOp, PauliOp, bool))
        ensures
            r == CZ::image(control, target),
    {
        match (control, target) {
            (PauliOp::I, PauliOp::I) => (PauliOp::I, PauliOp::I, false),
            (PauliOp::I, PauliOp::Z) => (PauliOp::I, PauliOp::Z, false),
            (PauliOp::I, PauliOp::X) => (PauliOp::Z, PauliOp::X, false),
            (PauliOp::I, PauliOp::Y) => (PauliOp::Z, PauliOp::Y, false),
            (PauliOp::Z, PauliOp::I) => (PauliOp::Z, PauliOp::I, false),
            (PauliOp::Z, PauliOp::Z) => (PauliOp::Z, PauliOp::Z, false),
            (PauliOp::Z, PauliOp::X) => (PauliOp::I, PauliOp::X, false),
            (PauliOp::Z, PauliOp::Y) => (PauliOp::I, PauliOp::Y, false),
            (PauliOp::X, PauliOp::I) => (PauliOp::X, PauliOp::Z, false),
            (PauliOp::X, PauliOp::Z) => (PauliOp::X, PauliOp::I, false),
            (PauliOp::X, PauliOp::X) => (PauliOp::Y, PauliOp::Y, false),
            (PauliOp::X, PauliOp::Y) => (PauliOp::Y, PauliOp::X, true),
            (PauliOp::Y, PauliOp::I) => (PauliOp::Y, PauliOp::Z, false),
            (PauliOp::Y, PauliOp::Z) => (PauliOp::Y, PauliOp::I, false),
            (PauliOp::Y, PauliOp::X) => (PauliOp::X, PauliOp::Y, true),
            (PauliOp::Y, PauliOp::Y) => (PauliOp::X, PauliOp::X, false),
        }
    }
}

impl Gate for CZ {
    open spec fn arity(&self) -> nat {
        2
    }

    open spec fn name(&self) -> Seq<char> {
        "CZ"@
    }

    open spec fn clifford(&self) -> bool {
        true
    }

    open spec fn conjugation(&self, ops: Seq<PauliOp>) -> Option<(Seq<PauliOp>, bool)> {
        let image = CZ::image(ops[0], ops[1]);
        Some((seq![image.0, image.1], image.2))
    }

    open spec fn culprit(&self, ops: Seq<PauliOp>) -> Seq<char> {
        self.name()
    }

    proof fn lemma_clifford(&self) {
    }

    proof fn lemma_conjugation_keeps_commutation(&self, p: Seq<PauliOp>, q: Seq<PauliOp>) {
        lemma_parity_pair(p, q);
        lemma_parity_pair(self.conjugation(p).unwrap().0, self.conjugation(q).unwrap().0);
    }

    proof fn lemma_conjugation_respects_products(&self, p: Seq<PauliOp>, q: Seq<PauliOp>) {
        lemma_product_pair(p, q);
        lemma_product_pair(self.conjugation(p).unwrap().0, self.conjugation(q).unwrap().0);
    }

    proof fn lemma_conjugation_kernel(&self, p: Seq<PauliOp>) {
        if all_identity(self.conjugation(p).unwrap().0) {
            assert(self.conjugation(p).unwrap().0[0] == PauliOp::I);
            assert(self.conjugation(p).unwrap().0[1] == PauliOp::I);
        }
    }

    fn description(&self) -> (s: &str) {
        "CZ"
    }

    fn nr_affected_bits(&self) -> (n: usize) {
        2
    }

    fn is_stabilizer(&self) -> (b: bool) {
        true
    }

    fn conjugate(&self, ops: &mut [PauliOp]) -> (r: Result<bool, Error>) {
        if ops.len() != 2 {
            return Err(Error::InvalidBitCount);
        }
        let image: (PauliOp, PauliOp, bool) = CZ::conjugate_ops(ops[0], ops[1]);
        ops[0] = image.0;
        ops[1] = image.1;
        assert(ops@ =~= seq![image.0, image.1]);
        Ok(image.2)
    }
}

impl OpenQasm for CZ {
    open spec fn open_qasm_text(&self, bit_names: Seq<Seq<char>>, bits: Seq<usize>) -> Result<
        Seq<char>,
        Refusal,
    > {
        Ok(instruction("cz"@, bit_names, bits))
    }

    open spec fn conditional_open_qasm_text(
        &self,
        condition: Seq<char>,
        bit_names: Seq<Seq<char>>,
        bits: Seq<usize>,
    ) -> Result<Seq<char>, Refusal> {
        Ok(conditional_open_instruction(condition, "cz"@, bit_names, bits))
    }

    fn open_qasm(&self, bit_names: &[String], bits: &[usize]) -> (r: Result<String, Error>) {
        Ok(instruction_text("cz", bit_names, bits))
    }

    fn conditional_open_qasm(&self, condition: &str, bit_names: &[String], bits: &[usize]) -> (r:
        Result<String, Error>) {
        Ok(conditional_open_text(condition, "cz", bit_names, bits))
    }
}

impl CQasm for CZ {
    open spec fn c_qasm_text(&self, bit_names: Seq<Seq<char>>, bits: Seq<usize>) -> Result<
        Seq<char>,
        Refusal,
    > {
        Ok(instruction("cz"@, bit_names, bits))
    }

    open spec fn conditional_c_qasm_text(
        &self,
        condition: Seq<char>,
        bit_names: Seq<Seq<char>>,
        bits: Seq<usize>,
    ) -> Result<Seq<char>, Refusal> {
        Ok(conditional_c_instruction(condition, "cz"@, bit_names, bits))
    }

    fn c_qasm(&self, bit_names: &[String], bits: &[usize]) -> (r: Result<String, Error>) {
        Ok(instruction_text("cz", bit_names, bits))
    }

    fn conditional_c_qasm(&self, condition: &str, bit_names: &[String], bits: &[usize]) -> (r:
        Result<String, Error>) {
        Ok(conditional_c_text(condition, "cz", bit_names, bits))
    }
}

/// The controlled form of a gate: that gate acts on the target qubits where the
/// control qubit, which comes first, is |1>.
///
/// Its conjugation rule follows from the operator on the control and from what the
/// target gate does to the operators on the targets. Where the target gate keeps
/// the target operators up to a sign, an `I` or `Z` on the control has an image:
/// the control operator stays where the sign stays, and `I` and `Z` change places
/// where the sign flips. With `X` or `Y` on the control the image depends on the
/// phase of the target gate itself, which its conjugation rule does not show: for
/// those strings there is no rule here, and `CX`, `CY` and `CZ` carry their own
/// tables.
pub struct C<G: Gate> {
    gate: G,
    desc: String,
}

/// The controlled Hadamard gate.
pub type CH = C<H>;

/// The doubly controlled `X` gate.
pub type CCX = C<CX>;

/// The doubly controlled `Z` gate.
pub type CCZ = C<CZ>;

impl<G: Gate> C<G> {
    #[verifier::type_invariant]
    spec fn inv(self) -> bool {
        &&& self.gate.arity() < usize::MAX
        &&& self.desc@ == "C"@ + self.gate.name()
    }

    /// The target gate: what acts on the target qubits.
    pub closed spec fn target(&self) -> G {
        self.gate
    }

    /// The description: a `C` before the description of the target gate.
    pub closed spec fn text(&self) -> Seq<char> {
        self.desc@
    }

    /// The target gate.
    pub fn gate(&self) -> (g: &G)
        ensures
            *g == self.target(),
    {
        &self.gate
    }

    /// Create the controlled form of `gate`.
    pub fn new(gate: G) -> (c: Self)
        requires
            gate.arity() < usize::MAX,
        ensures
            c.target() == gate,
            c.text() == "C"@ + gate.name(),
    {
        let mut desc = String::from_str("C");
        desc.append(gate.description());
        C { gate: gate, desc: desc }
    }

    /// The operator that an `I` or `Z` on the control becomes when the sign of the
    /// target operators flips.
    pub open spec fn exchanged(control: PauliOp) -> PauliOp {
        if control == PauliOp::I {
            PauliOp::Z
        } else {
            PauliOp::I
        }
    }
}

impl<G: Gate> Gate for C<G> {
    open spec fn arity(&self) -> nat {
        self.target().arity() + 1
    }

    open spec fn name(&self) -> Seq<char> {
        self.text()
    }

    open spec fn clifford(&self) -> bool {
        false
    }

    open spec fn conjugation(&self, ops: Seq<PauliOp>) -> Option<(Seq<PauliOp>, bool)> {
        let control = ops[0];
        let target = ops.skip(1);
        match self.target().conjugation(target) {
            Some(image) => if image.0 == target && (control == PauliOp::I || control
                == PauliOp::Z) {
                Some(
                    (
                        seq![if image.1 { Self::exchanged(control) } else { control }] + target,
                        false,
                    ),
                )
            } else {
                None
            },
            None => None,
        }
    }

    open spec fn culprit(&self, ops: Seq<PauliOp>) -> Seq<char> {
        match self.target().conjugation(ops.skip(1)) {
            Some(image) => self.name(),
            None => self.target().culprit(ops.skip(1)),
        }
    }

    proof fn lemma_clifford(&self) {
        // With X on the control there is no image.
        let p = seq![PauliOp::X] + Seq::new(self.target().arity(), |j: int| PauliOp::I);
        assert(p.len() == self.arity());
        assert(p[0] == PauliOp::X);
        assert(self.conjugation(p) is None);
    }

    proof fn lemma_conjugation_keeps_commutation(&self, p: Seq<PauliOp>, q: Seq<PauliOp>) {
        if self.conjugation(p) is Some && self.conjugation(q) is Some {
            let ip = self.conjugation(p).unwrap().0;
            let iq = self.conjugation(q).unwrap().0;
            let tp = p.skip(1);
            let tq = q.skip(1);
            assert(p =~= seq![p[0]] + tp);
            assert(q =~= seq![q[0]] + tq);
            lemma_parity_concat(seq![p[0]], tp, seq![q[0]], tq);
            lemma_parity_concat(seq![ip[0]], tp, seq![iq[0]], tq);
            lemma_parity_single(seq![p[0]], seq![q[0]]);
            lemma_parity_single(seq![ip[0]], seq![iq[0]]);
            assert(ip =~= seq![ip[0]] + tp);
            assert(iq =~= seq![iq[0]] + tq);
        }
    }

    proof fn lemma_conjugation_respects_products(&self, p: Seq<PauliOp>, q: Seq<PauliOp>) {
        if self.conjugation(p) is Some && self.conjugation(q) is Some {
            let tp = p.skip(1);
            let tq = q.skip(1);
            let r = string_times(p, q);
            self.target().lemma_conjugation_respects_products(tp, tq);
            assert(p =~= seq![p[0]] + tp);
            assert(q =~= seq![q[0]] + tq);
            lemma_product_concat(seq![p[0]], tp, seq![q[0]], tq);
            lemma_product_single(seq![p[0]], seq![q[0]]);
            assert(r.skip(1) =~= string_times(tp, tq));
            assert(r[0] == p[0].times(q[0]));
            let ip = self.conjugation(p).unwrap().0;
            let iq = self.conjugation(q).unwrap().0;
            assert(ip =~= seq![ip[0]] + tp);
            assert(iq =~= seq![iq[0]] + tq);
            lemma_product_concat(seq![ip[0]], tp, seq![iq[0]], tq);
            lemma_product_single(seq![ip[0]], seq![iq[0]]);
            lemma_phase_parity(tp, tq);
            let ir = self.conjugation(r).unwrap().0;
            assert(ir =~= string_times(ip, iq));
        }
    }

    proof fn lemma_conjugation_kernel(&self, p: Seq<PauliOp>) {
        if self.conjugation(p) is Some && all_identity(self.conjugation(p).unwrap().0) {
            let tp = p.skip(1);
            let ip = self.conjugation(p).unwrap().0;
            assert(ip =~= seq![ip[0]] + tp);
            assert forall|j: int| 0 <= j < tp.len() implies #[trigger] tp[j] == PauliOp::I by {
                assert(ip[j + 1] == tp[j]);
            }
            // The identity on the targets keeps its sign, so the operator on the
            // control stays.
            self.target().lemma_conjugation_respects_products(tp, tp);
            lemma_phase_parity(tp, tp);
            assert(string_times(tp, tp) =~= tp);
            let it = self.target().conjugation(tp).unwrap();
            assert(it.0 == tp);
            assert(!it.1);
            assert(ip[0] == p[0]);
            assert forall|j: int| 0 <= j < p.len() implies #[trigger] p[j] == PauliOp::I by {
                if j > 0 {
                    assert(tp[j - 1] == p[j]);
                }
            }
        }
    }

    fn description(&self) -> (s: &str) {
        self.desc.as_str()
    }

    fn nr_affected_bits(&self) -> (n: usize) {
        proof {
            use_type_invariant(self);
        }
        self.gate.nr_affected_bits() + 1
    }

    fn is_stabilizer(&self) -> (b: bool) {
        false
    }

    fn conjugate(&self, ops: &mut [PauliOp]) -> (r: Result<bool, Error>) {
        proof {
            use_type_invariant(self);
        }
        let n: usize = ops.len();
        if n != self.nr_affected_bits() {
            return Err(Error::InvalidBitCount);
        }
        let ghost before = ops@;
        let mut target: Vec<PauliOp> = Vec::new();
        let mut k: usize = 1;
        while k < n
            invariant
                1 <= k <= n,
                n == ops@.len(),
                ops@ == before,
                target@ == before.subrange(1, k as int),
            decreases n - k,
        {
            target.push(ops[k]);
            assert(target@ =~= before.subrange(1, k + 1));
            k += 1;
        }
        assert(target@ =~= before.skip(1));
        let flip: bool = match self.gate.conjugate(target.as_mut_slice()) {
            Ok(flip) => flip,
            Err(e) => {
                return Err(e);
            },
        };
        let mut same: bool = true;
        let mut k: usize = 1;
        assert(target@.take(0) =~= before.skip(1).take(0));
        while k < n
            invariant
                1 <= k <= n,
                n == ops@.len(),
                ops@ == before,
                target@.len() == n - 1,
                same == (target@.take(k - 1) == before.skip(1).take(k - 1)),
            decreases n - k,
        {
            let ghost a = target@.take(k - 1);
            let ghost b = before.skip(1).take(k - 1);
            let ghost a1 = target@.take(k as int);
            let ghost b1 = before.skip(1).take(k as int);
            if target[k - 1] != ops[k] {
                same = false;
                assert(a1[k - 1] != b1[k - 1]);
            } else {
                proof {
                    if a == b {
                        assert forall|j: int| 0 <= j < k implies a1[j] == b1[j] by {
                            if j < k - 1 {
                                assert(a1[j] == a[j]);
                                assert(b1[j] == b[j]);
                            }
                        }
                        assert(a1 =~= b1);
                    } else {
                        assert(a1.take(k - 1) =~= a);
                        assert(b1.take(k - 1) =~= b);
                    }
                }
            }
            k += 1;
        }
        assert(target@.take(n - 1) =~= target@);
        assert(before.skip(1).take(n - 1) =~= before.skip(1));
        let control: PauliOp = ops[0];
        if !same || control == PauliOp::X || control == PauliOp::Y {
            return Err(Error::NotAStabilizer(self.desc.clone()));
        }
        if flip {
            ops[0] = match control {
                PauliOp::I => PauliOp::Z,
                _ => PauliOp::I,
            };
        }
        assert(ops@ =~= seq![ops@[0]] + before.skip(1));
        Ok(false)
    }
}

} // verus!
