//! A quarter turn between two phase shifts.

use vstd::prelude::*;
use crate::error::Error;
use crate::export::names;
use crate::export::OpenQasm;
use crate::export::Refusal;
use crate::gates::Gate;
use crate::gates::Parameter;
use crate::stabilizer::PauliOp;

verus! {

/// U2 gate.
///
/// The `U2(phi, lambda)` gate is the general single-qubit gate with its first
/// angle fixed at a quarter turn. It transforms a qubit by the matrix
/// ```text
/// |          1/sqrt(2)        -exp(i lambda)/sqrt(2) |
/// | exp(i phi)/sqrt(2)   exp(i (lambda+phi))/sqrt(2) |
/// ```
/// For general angles it is no Clifford gate: it has no conjugation rule.
pub struct U2<P> {
    phi: Parameter<P>,
    lambda: Parameter<P>,
    desc: String,
}

impl<P> U2<P> {
    #[verifier::type_invariant]
    spec fn inv(self) -> bool {
        self.desc@ == "U2("@ + self.phi.fixed_view() + ", "@ + self.lambda.fixed_view() + ")"@
    }

    /// The angle `phi`.
    pub closed spec fn spec_phi(&self) -> Parameter<P> {
        self.phi
    }

    /// The angle `lambda`.
    pub closed spec fn spec_lambda(&self) -> Parameter<P> {
        self.lambda
    }

    /// The description: `U2(` and `)` around the two angles, each with four digits
    /// after the decimal point, separated by a comma and a space.
    pub closed spec fn text(&self) -> Seq<char> {
        self.desc@
    }

    /// The angle `phi`.
    pub fn phi(&self) -> (p: &Parameter<P>)
        ensures
            *p == self.spec_phi(),
    {
        &self.phi
    }

    /// The angle `lambda`.
    pub fn lambda(&self) -> (p: &Parameter<P>)
        ensures
            *p == self.spec_lambda(),
    {
        &self.lambda
    }
}

impl<P: core::fmt::Display> U2<P> {
    /// Create a new `U2` gate.
    pub fn new(phi: P, lambda: P) -> (g: Self)
        ensures
            g.spec_phi().spec_value() == phi,
            g.spec_lambda().spec_value() == lambda,
            g.text() == "U2("@ + g.spec_phi().fixed_view() + ", "@ + g.spec_lambda().fixed_view()
                + ")"@,
    {
        let pphi = Parameter::new(phi);
        let plambda = Parameter::new(lambda);
        let mut desc = String::from_str("U2(");
        desc.append(pphi.fixed());
        desc.append(", ");
        desc.append(plambda.fixed());
        desc.append(")");
        U2 { phi: pphi, lambda: plambda, desc: desc }
    }
}

impl<P> Gate for U2<P> {
    open spec fn arity(&self) -> nat {
        1
    }

    open spec fn name(&self) -> Seq<char> {
        self.text()
    }

    open spec fn clifford(&self) -> bool {
        false
    }

    open spec fn conjugation(&self, ops: Seq<PauliOp>) -> Option<(Seq<PauliOp>, bool)> {
        None
    }

    open spec fn culprit(&self, ops: Seq<PauliOp>) -> Seq<char> {
        self.name()
    }

    proof fn lemma_clifford(&self) {
        let p = Seq::new(1, |j: int| PauliOp::I);
        assert(p.len() == self.arity() && self.conjugation(p) is None);
    }

    proof fn lemma_conjugation_keeps_commutation(&self, p: Seq<PauliOp>, q: Seq<PauliOp>) {
    }

    proof fn lemma_conjugation_respects_products(&self, p: Seq<PauliOp>, q: Seq<PauliOp>) {
    }

    proof fn lemma_conjugation_kernel(&self, p: Seq<PauliOp>) {
    }

    fn description(&self) -> (s: &str) {
        self.desc.as_str()
    }

    fn nr_affected_bits(&self) -> (n: usize) {
        1
    }

    fn is_stabilizer(&self) -> (b: bool) {
        false
    }

    fn conjugate(&self, ops: &mut [PauliOp]) -> (r: Result<bool, Error>) {
        if ops.len() != 1 {
            return Err(Error::InvalidBitCount);
        }
        Err(Error::NotAStabilizer(self.desc.clone()))
    }
}

impl<P> OpenQasm for U2<P> {
    open spec fn open_qasm_text(&self, bit_names: Seq<Seq<char>>, bits: Seq<usize>) -> Result<
        Seq<char>,
        Refusal,
    > {
        Ok(
            "u2("@ + self.spec_phi().plain_view() + ", "@ + self.spec_lambda().plain_view() + ") "@
                + bit_names[bits[0] as int],
        )
    }

    open spec fn conditional_open_qasm_text(
        &self,
        condition: Seq<char>,
        bit_names: Seq<Seq<char>>,
        bits: Seq<usize>,
    ) -> Result<Seq<char>, Refusal> {
        Ok("if ("@ + condition + ") "@ + self.open_qasm_text(bit_names, bits)->Ok_0)
    }

    fn open_qasm(&self, bit_names: &[String], bits: &[usize]) -> (r: Result<String, Error>) {
        let mut text = String::from_str("u2(");
        text.append(self.phi.plain());
        text.append(", ");
        text.append(self.lambda.plain());
        text.append(") ");
        text.append(bit_names[bits[0]].as_str());
        Ok(text)
    }

    fn conditional_open_qasm(&self, condition: &str, bit_names: &[String], bits: &[usize]) -> (r:
        Result<String, Error>) {
        let mut text = String::from_str("if (");
        text.append(condition);
        text.append(") ");
        text.append("u2(");
        text.append(self.phi.plain());
        text.append(", ");
        text.append(self.lambda.plain());
        text.append(") ");
        text.append(bit_names[bits[0]].as_str());
        assert(text@ =~= "if ("@ + condition@ + ") "@ + self.open_qasm_text(
            names(bit_names@),
            bits@,
        )->Ok_0);
        Ok(text)
    }
}

} // verus!
