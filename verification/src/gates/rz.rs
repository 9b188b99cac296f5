//! Rotation around the `z` axis.

use vstd::prelude::*;
use crate::error::Error;
use crate::export::CQasm;
use crate::export::names;
use crate::export::OpenQasm;
use crate::export::Refusal;
use crate::gates::Gate;
use crate::gates::Parameter;
use crate::stabilizer::PauliOp;

verus! {

/// Rotation around `z` axis.
///
/// The `RZ(lambda)` gate rotates the qubit around the `z` axis of the Bloch sphere
/// over an angle `lambda`. The associated matrix is
/// ```text
/// | exp(-i lambda/2)               0 |
/// |                0  exp(i lambda/2) |
/// ```
/// Whether the angle is a multiple of a quarter turn, which makes the rotation a
/// Clifford gate, is a question about the value of the angle, with which the
/// library does not compute: it has no conjugation rule.
pub struct RZ<P> {
    lambda: Parameter<P>,
    desc: String,
}

impl<P> RZ<P> {
    #[verifier::type_invariant]
    spec fn inv(self) -> bool {
        self.desc@ == "RZ("@ + self.lambda.fixed_view() + ")"@
    }

    /// The angle of the rotation.
    pub closed spec fn spec_lambda(&self) -> Parameter<P> {
        self.lambda
    }

    /// The description: `RZ(` and `)` around the angle with four digits after the
    /// decimal point.
    pub closed spec fn text(&self) -> Seq<char> {
        self.desc@
    }

    /// The angle of the rotation.
    pub fn lambda(&self) -> (p: &Parameter<P>)
        ensures
            *p == self.spec_lambda(),
    {
        &self.lambda
    }
}

impl<P: core::fmt::Display> RZ<P> {
    /// Create a new `RZ` gate.
    pub fn new(lambda: P) -> (g: Self)
        ensures
            g.spec_lambda().spec_value() == lambda,
            g.text() == "RZ("@ + g.spec_lambda().fixed_view() + ")"@,
    {
        let param = Parameter::new(lambda);
        let mut desc = String::from_str("RZ(");
        desc.append(param.fixed());
        desc.append(")");
        RZ { lambda: param, desc: desc }
    }
}

impl<P> Gate for RZ<P> {
    open spec fn arity(&self) -> nat {
        1
    }

    open spec fn name(&self) -> Seq<char> {
        self.text()
    }

    open spec fn clifford(&self) -> bool {
        false
    }

    open spec fn conjugation(&self, ops: Seq<PauliOp>) -> Option<(Seq<PauliOp>, bool)> {
        None
    }

    open spec fn culprit(&self, ops: Seq<PauliOp>) -> Seq<char> {
        self.name()
    }

    proof fn lemma_clifford(&self) {
        let p = Seq::new(1, |j: int| PauliOp::I);
        assert(p.len() == self.arity() && self.conjugation(p) is None);
    }

    proof fn lemma_conjugation_keeps_commutation(&self, p: Seq<PauliOp>, q: Seq<PauliOp>) {
    }

    proof fn lemma_conjugation_respects_products(&self, p: Seq<PauliOp>, q: Seq<PauliOp>) {
    }

    proof fn lemma_conjugation_kernel(&self, p: Seq<PauliOp>) {
    }

    fn description(&self) -> (s: &str) {
        self.desc.as_str()
    }

    fn nr_affected_bits(&self) -> (n: usize) {
        1
    }

    fn is_stabilizer(&self) -> (b: bool) {
        false
    }

    fn conjugate(&self, ops: &mut [PauliOp]) -> (r: Result<bool, Error>) {
        if ops.len() != 1 {
            return Err(Error::InvalidBitCount);
        }
        Err(Error::NotAStabilizer(self.desc.clone()))
    }
}

impl<P> OpenQasm for RZ<P> {
    open spec fn open_qasm_text(&self, bit_names: Seq<Seq<char>>, bits: Seq<usize>) -> Result<
        Seq<char>,
        Refusal,
    > {
        Ok("rz("@ + self.spec_lambda().plain_view() + ") "@ + bit_names[bits[0] as int])
    }

    open spec fn conditional_open_qasm_text(
        &self,
        condition: Seq<char>,
        bit_names: Seq<Seq<char>>,
        bits: Seq<usize>,
    ) -> Result<Seq<char>, Refusal> {
        Ok("if ("@ + condition + ") "@ + self.open_qasm_text(bit_names, bits)->Ok_0)
    }

    fn open_qasm(&self, bit_names: &[String], bits: &[usize]) -> (r: Result<String, Error>) {
        let mut text = String::from_str("rz(");
        text.append(self.lambda.plain());
        text.append(") ");
        text.append(bit_names[bits[0]].as_str());
        Ok(text)
    }

    fn conditional_open_qasm(&self, condition: &str, bit_names: &[String], bits: &[usize]) -> (r:
        Result<String, Error>) {
        let mut text = String::from_str("if (");
        text.append(condition);
        text.append(") ");
        text.append("rz(");
        text.append(self.lambda.plain());
        text.append(") ");
        text.append(bit_names[bits[0]].as_str());
        assert(text@ =~= "if ("@ + condition@ + ") "@ + self.open_qasm_text(
            names(bit_names@),
            bits@,
        )->Ok_0);
        Ok(text)
    }
}

impl<P> CQasm for RZ<P> {
    open spec fn c_qasm_text(&self, bit_names: Seq<Seq<char>>, bits: Seq<usize>) -> Result<
        Seq<char>,
        Refusal,
    > {
        Ok("rz "@ + bit_names[bits[0] as int] + ", "@ + self.spec_lambda().plain_view())
    }

    open spec fn conditional_c_qasm_text(
        &self,
        condition: Seq<char>,
        bit_names: Seq<Seq<char>>,
        bits: Seq<usize>,
    ) -> Result<Seq<char>, Refusal> {
        Ok(
            "c-rz "@ + condition + ", "@ + bit_names[bits[0] as int] + ", "@
                + self.spec_lambda().plain_view(),
        )
    }

    fn c_qasm(&self, bit_names: &[String], bits: &[usize]) -> (r: Result<String, Error>) {
        let mut text = String::from_str("rz ");
        text.append(bit_names[bits[0]].as_str());
        text.append(", ");
        text.append(self.lambda.plain());
        Ok(text)
    }

    fn conditional_c_qasm(&self, condition: &str, bit_names: &[String], bits: &[usize]) -> (r:
        Result<String, Error>) {
        let mut text = String::from_str("c-rz ");
        text.append(condition);
        text.append(", ");
        text.append(bit_names[bits[0]].as_str());
        text.append(", ");
        text.append(self.lambda.plain());
        Ok(text)
    }
}

} // verus!
