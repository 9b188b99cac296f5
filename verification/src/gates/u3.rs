//! The general single-qubit gate.

use vstd::prelude::*;
use crate::arithmetic::Square;
use crate::error::Error;
use crate::export::CQasm;
use crate::export::names;
use crate::export::OpenQasm;
use crate::export::Refusal;
use crate::gates::Gate;
use crate::gates::Parameter;
use crate::stabilizer::PauliOp;

verus! {

/// U3 gate.
///
/// The `U3(theta, phi, lambda)` gate is the universal single-qubit transformation:
/// all unary gates can be written in terms of it. It transforms a qubit by the
/// matrix
/// ```text
/// |          cos(theta/2)       -exp(i lambda) sin(theta/2) |
/// | exp(i phi) sin(theta/2)  exp(i (lambda+phi)) cos(theta/2) |
/// ```
/// For general angles it is no Clifford gate: it has no conjugation rule.
pub struct U3<P> {
    theta: Parameter<P>,
    phi: Parameter<P>,
    lambda: Parameter<P>,
    desc: String,
}

impl<P> U3<P> {
    #[verifier::type_invariant]
    spec fn inv(self) -> bool {
        self.desc@ == "U3("@ + self.theta.fixed_view() + ", "@ + self.phi.fixed_view() + ", "@
            + self.lambda.fixed_view() + ")"@
    }

    /// The angle `theta`.
    pub closed spec fn spec_theta(&self) -> Parameter<P> {
        self.theta
    }

    /// The angle `phi`.
    pub closed spec fn spec_phi(&self) -> Parameter<P> {
        self.phi
    }

    /// The angle `lambda`.
    pub closed spec fn spec_lambda(&self) -> Parameter<P> {
        self.lambda
    }

    /// The description: `U3(` and `)` around the three angles, each with four digits
    /// after the decimal point, separated by a comma and a space.
    pub closed spec fn text(&self) -> Seq<char> {
        self.desc@
    }

    /// The angle `theta`.
    pub fn theta(&self) -> (p: &Parameter<P>)
        ensures
            *p == self.spec_theta(),
    {
        &self.theta
    }

    /// The angle `phi`.
    pub fn phi(&self) -> (p: &Parameter<P>)
        ensures
            *p == self.spec_phi(),
    {
        &self.phi
    }

    /// The angle `lambda`.
    pub fn lambda(&self) -> (p: &Parameter<P>)
        ensures
            *p == self.spec_lambda(),
    {
        &self.lambda
    }
}

impl<P: core::fmt::Display> U3<P> {
    /// Create a new `U3` gate.
    pub fn new(theta: P, phi: P, lambda: P) -> (g: Self)
        ensures
            g.spec_theta().spec_value() == theta,
            g.spec_phi().spec_value() == phi,
            g.spec_lambda().spec_value() == lambda,
            g.text() == "U3("@ + g.spec_theta().fixed_view() + ", "@ + g.spec_phi().fixed_view()
                + ", "@ + g.spec_lambda().fixed_view() + ")"@,
    {
        let ptheta = Parameter::new(theta);
        let pphi = Parameter::new(phi);
        let plambda = Parameter::new(lambda);
        let mut desc = String::from_str("U3(");
        desc.append(ptheta.fixed());
        desc.append(", ");
        desc.append(pphi.fixed());
        desc.append(", ");
        desc.append(plambda.fixed());
        desc.append(")");
        U3 { theta: ptheta, phi: pphi, lambda: plambda, desc: desc }
    }
}

impl<P> Gate for U3<P> {
    open spec fn arity(&self) -> nat {
        1
    }

    open spec fn name(&self) -> Seq<char> {
        self.text()
    }

    open spec fn clifford(&self) -> bool {
        false
    }

    open spec fn conjugation(&self, ops: Seq<PauliOp>) -> Option<(Seq<PauliOp>, bool)> {
        None
    }

    open spec fn culprit(&self, ops: Seq<PauliOp>) -> Seq<char> {
        self.name()
    }

    proof fn lemma_clifford(&self) {
        let p = Seq::new(1, |j: int| PauliOp::I);
        assert(p.len() == self.arity() && self.conjugation(p) is None);
    }

    proof fn lemma_conjugation_keeps_commutation(&self, p: Seq<PauliOp>, q: Seq<PauliOp>) {
    }

    proof fn lemma_conjugation_respects_products(&self, p: Seq<PauliOp>, q: Seq<PauliOp>) {
    }

    proof fn lemma_conjugation_kernel(&self, p: Seq<PauliOp>) {
    }

    fn description(&self) -> (s: &str) {
        self.desc.as_str()
    }

    fn nr_affected_bits(&self) -> (n: usize) {
        1
    }

    fn is_stabilizer(&self) -> (b: bool) {
        false
    }

    fn conjugate(&self, ops: &mut [PauliOp]) -> (r: Result<bool, Error>) {
        if ops.len() != 1 {
            return Err(Error::InvalidBitCount);
        }
        Err(Error::NotAStabilizer(self.desc.clone()))
    }
}

impl<P> OpenQasm for U3<P> {
    open spec fn open_qasm_text(&self, bit_names: Seq<Seq<char>>, bits: Seq<usize>) -> Result<
        Seq<char>,
        Refusal,
    > {
        Ok(
            "u3("@ + self.spec_theta().plain_view() + ", "@ + self.spec_phi().plain_view() + ", "@
                + self.spec_lambda().plain_view() + ") "@ + bit_names[bits[0] as int],
        )
    }

    open spec fn conditional_open_qasm_text(
        &self,
        condition: Seq<char>,
        bit_names: Seq<Seq<char>>,
        bits: Seq<usize>,
    ) -> Result<Seq<char>, Refusal> {
        Ok("if ("@ + condition + ") "@ + self.open_qasm_text(bit_names, bits)->Ok_0)
    }

    fn open_qasm(&self, bit_names: &[String], bits: &[usize]) -> (r: Result<String, Error>) {
        let mut text = String::from_str("u3(");
        text.append(self.theta.plain());
        text.append(", ");
        text.append(self.phi.plain());
        text.append(", ");
        text.append(self.lambda.plain());
        text.append(") ");
        text.append(bit_names[bits[0]].as_str());
        Ok(text)
    }

    fn conditional_open_qasm(&self, condition: &str, bit_names: &[String], bits: &[usize]) -> (r:
        Result<String, Error>) {
        let mut text = String::from_str("if (");
        text.append(condition);
        text.append(") ");
        text.append("u3(");
        text.append(self.theta.plain());
        text.append(", ");
        text.append(self.phi.plain());
        text.append(", ");
        text.append(self.lambda.plain());
        text.append(") ");
        text.append(bit_names[bits[0]].as_str());
        assert(text@ =~= "if ("@ + condition@ + ") "@ + self.open_qasm_text(
            names(bit_names@),
            bits@,
        )->Ok_0);
        Ok(text)
    }
}

impl<P> CQasm for U3<P> {
    /// In c-Qasm this gate is written as three rotations, one per line: around `z`
    /// over `lambda`, around `y` over `theta`, and around `z` over `phi`.
    open spec fn c_qasm_text(&self, bit_names: Seq<Seq<char>>, bits: Seq<usize>) -> Result<
        Seq<char>,
        Refusal,
    > {
        let name = bit_names[bits[0] as int];
        Ok(
            "rz "@ + name + ", "@ + self.spec_lambda().plain_view() + "\nry "@ + name + ", "@
                + self.spec_theta().plain_view() + "\n; rz "@ + name + " "@
                + self.spec_phi().plain_view(),
        )
    }

    open spec fn conditional_c_qasm_text(
        &self,
        condition: Seq<char>,
        bit_names: Seq<Seq<char>>,
        bits: Seq<usize>,
    ) -> Result<Seq<char>, Refusal> {
        Err((Refusal { op: "conditional U3"@, format: "c-Qasm"@ }))
    }

    fn c_qasm(&self, bit_names: &[String], bits: &[usize]) -> (r: Result<String, Error>) {
        let name: &str = bit_names[bits[0]].as_str();
        let mut text = String::from_str("rz ");
        text.append(name);
        text.append(", ");
        text.append(self.lambda.plain());
        text.append("\nry ");
        text.append(name);
        text.append(", ");
        text.append(self.theta.plain());
        text.append("\n; rz ");
        text.append(name);
        text.append(" ");
        text.append(self.phi.plain());
        Ok(text)
    }

    /// In c-Qasm a condition goes with one instruction, and this gate is written as
    /// three: under a condition it has no text, and the error names the
    /// conditional `U3` and the format.
    fn conditional_c_qasm(&self, condition: &str, bit_names: &[String], bits: &[usize]) -> (r:
        Result<String, Error>)
        ensures
            r matches Err(Error::ExportUnsupported(op, format)) && op@ == "conditional U3"@
                && format@ == "c-Qasm"@,
    {
        Err(
            Error::ExportUnsupported(
                String::from_str("conditional U3"),
                String::from_str("c-Qasm"),
            ),
        )
    }
}

impl<P> Square for U3<P> {
    type SqType = U3<P>;

    open spec fn has_square(&self) -> bool {
        false
    }

    open spec fn is_square(&self, sq: U3<P>) -> bool {
        false
    }

    proof fn lemma_square_arity(&self, sq: U3<P>) {
    }

    fn square(&self) -> (r: Result<U3<P>, Error>) {
        Err(Error::OpNotImplemented(String::from_str("square"), self.desc.clone()))
    }
}

} // verus!
