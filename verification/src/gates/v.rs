//! The V gate and its conjugate.

use vstd::prelude::*;
use crate::arithmetic::Square;
use crate::error::Error;
use crate::gates::Gate;
use crate::gates::X;
use crate::stabilizer::all_identity;
use crate::stabilizer::lemma_parity_single;
use crate::stabilizer::lemma_product_single;
use crate::stabilizer::PauliOp;

verus! {

/// The `V` gate.
///
/// The `V` gate is the square root of the `X` gate: it rotates the state over
/// pi/2 radians around the `x` axis of the Bloch sphere.
pub struct V {}

impl V {
    /// Create a new `V` gate.
    pub fn new() -> (g: Self)
        ensures
            g == (V {  }),
    {
        V {  }
    }

    /// The image of one Pauli operator under conjugation with this gate, and whether
    /// its sign flips.
    pub open spec fn image(op: PauliOp) -> (PauliOp, bool) {
        match op {
            PauliOp::I => (PauliOp::I, false),
            PauliOp::Z => (PauliOp::Y, true),
            PauliOp::X => (PauliOp::X, false),
            PauliOp::Y => (PauliOp::Z, false),
        }
    }

    /// Conjugate one Pauli operator with this gate.
    pub fn conjugate_op(op: PauliOp) -> (r: (PauliOp, bool))
        ensures
            r == V::image(op),
    {
        match op {
            PauliOp::I => (PauliOp::I, false),
            PauliOp::Z => (PauliOp::Y, true),
            PauliOp::X => (PauliOp::X, false),
            PauliOp::Y => (PauliOp::Z, false),
        }
    }
}

impl Gate for V {
    open spec fn arity(&self) -> nat {
        1
    }

    open spec fn name(&self) -> Seq<char> {
        "V"@
    }

    open spec fn clifford(&self) -> bool {
        true
    }

    open spec fn conjugation(&self, ops: Seq<PauliOp>) -> Option<(Seq<PauliOp>, bool)> {
        Some((seq![V::image(ops[0]).0], V::image(ops[0]).1))
    }

    open spec fn culprit(&self, ops: Seq<PauliOp>) -> Seq<char> {
        self.name()
    }

    proof fn lemma_clifford(&self) {
    }

    proof fn lemma_conjugation_keeps_commutation(&self, p: Seq<PauliOp>, q: Seq<PauliOp>) {
        lemma_parity_single(p, q);
        lemma_parity_single(self.conjugation(p).unwrap().0, self.conjugation(q).unwrap().0);
    }

    proof fn lemma_conjugation_respects_products(&self, p: Seq<PauliOp>, q: Seq<PauliOp>) {
        lemma_product_single(p, q);
        lemma_product_single(self.conjugation(p).unwrap().0, self.conjugation(q).unwrap().0);
    }

    proof fn lemma_conjugation_kernel(&self, p: Seq<PauliOp>) {
        if all_identity(self.conjugation(p).unwrap().0) {
            assert(self.conjugation(p).unwrap().0[0] == PauliOp::I);
        }
    }

    fn description(&self) -> (s: &str) {
        "V"
    }

    fn nr_affected_bits(&self) -> (n: usize) {
        1
    }

    fn is_stabilizer(&self) -> (b: bool) {
        true
    }

    fn conjugate(&self, ops: &mut [PauliOp]) -> (r: Result<bool, Error>) {
        if ops.len() != 1 {
            return Err(Error::InvalidBitCount);
        }
        let image: (PauliOp, bool) = V::conjugate_op(ops[0]);
        ops[0] = image.0;
        assert(ops@ =~= seq![image.0]);
        Ok(image.1)
    }
}

/// The conjugate of the `V` gate.
///
/// The conjugate `V` gate rotates the state over -pi/2 radians around the `x`
/// axis of the Bloch sphere.
pub struct Vdg {}

impl Vdg {
    /// Create a new conjugate `V` gate.
    pub fn new() -> (g: Self)
        ensures
            g == (Vdg {  }),
    {
        Vdg {  }
    }

    /// The image of one Pauli operator under conjugation with this gate, and whether
    /// its sign flips.
    pub open spec fn image(op: PauliOp) -> (PauliOp, bool) {
        match op {
            PauliOp::I => (PauliOp::I, false),
            PauliOp::Z => (PauliOp::Y, false),
            PauliOp::X => (PauliOp::X, false),
            PauliOp::Y => (PauliOp::Z, true),
        }
    }

    /// Conjugate one Pauli operator with this gate.
    pub fn conjugate_op(op: PauliOp) -> (r: (PauliOp, bool))
        ensures
            r == Vdg::image(op),
    {
        match op {
            PauliOp::I => (PauliOp::I, false),
            PauliOp::Z => (PauliOp::Y, false),
            PauliOp::X => (PauliOp::X, false),
            PauliOp::Y => (PauliOp::Z, true),
        }
    }
}

impl Gate for Vdg {
    open spec fn arity(&self) -> nat {
        1
    }

    open spec fn name(&self) -> Seq<char> {
        "V†"@
    }

    open spec fn clifford(&self) -> bool {
        true
    }

    open spec fn conjugation(&self, ops: Seq<PauliOp>) -> Option<(Seq<PauliOp>, bool)> {
        Some((seq![Vdg::image(ops[0]).0], Vdg::image(ops[0]).1))
    }

    open spec fn culprit(&self, ops: Seq<PauliOp>) -> Seq<char> {
        self.name()
    }

    proof fn lemma_clifford(&self) {
    }

    proof fn lemma_conjugation_keeps_commutation(&self, p: Seq<PauliOp>, q: Seq<PauliOp>) {
        lemma_parity_single(p, q);
        lemma_parity_single(self.conjugation(p).unwrap().0, self.conjugation(q).unwrap().0);
    }

    proof fn lemma_conjugation_respects_products(&self, p: Seq<PauliOp>, q: Seq<PauliOp>) {
        lemma_product_single(p, q);
        lemma_product_single(self.conjugation(p).unwrap().0, self.conjugation(q).unwrap().0);
    }

    proof fn lemma_conjugation_kernel(&self, p: Seq<PauliOp>) {
        if all_identity(self.conjugation(p).unwrap().0) {
            assert(self.conjugation(p).unwrap().0[0] == PauliOp::I);
        }
    }

    fn description(&self) -> (s: &str) {
        "V†"
    }

    fn nr_affected_bits(&self) -> (n: usize) {
        1
    }

    fn is_stabilizer(&self) -> (b: bool) {
        true
    }

    fn conjugate(&self, ops: &mut [PauliOp]) -> (r: Result<bool, Error>) {
        if ops.len() != 1 {
            return Err(Error::InvalidBitCount);
        }
        let image: (PauliOp, bool) = Vdg::conjugate_op(ops[0]);
        ops[0] = image.0;
        assert(ops@ =~= seq![image.0]);
        Ok(image.1)
    }
}

/// The square of this gate is the `X` gate.
impl Square for V {
    type SqType = X;

    open spec fn has_square(&self) -> bool {
        true
    }

    open spec fn is_square(&self, sq: X) -> bool {
        true
    }

    proof fn lemma_square_arity(&self, sq: X) {
    }

    fn square(&self) -> (r: Result<X, Error>) {
        Ok(X::new())
    }
}

/// The square of this gate is the `X` gate.
impl Square for Vdg {
    type SqType = X;

    open spec fn has_square(&self) -> bool {
        true
    }

    open spec fn is_square(&self, sq: X) -> bool {
        true
    }

    proof fn lemma_square_arity(&self, sq: X) {
    }

    fn square(&self) -> (r: Result<X, Error>) {
        Ok(X::new())
    }
}

} // verus!
