//! One type for the gates that have a name of their own.

use vstd::prelude::*;
use crate::error::Error;
use crate::export::CQasm;
use crate::export::OpenQasm;
use crate::export::Refusal;
use crate::gates::Gate;
use crate::gates::CCX;
use crate::gates::CCZ;
use crate::gates::CH;
use crate::gates::CX;
use crate::gates::CY;
use crate::gates::CZ;
use crate::gates::H;
use crate::gates::I;
use crate::gates::RX;
use crate::gates::RY;
use crate::gates::RZ;
use crate::gates::S;
use crate::gates::Sdg;
use crate::gates::T;
use crate::gates::Tdg;
use crate::gates::U1;
use crate::gates::U2;
use crate::gates::U3;
use crate::gates::V;
use crate::gates::Vdg;
use crate::gates::X;
use crate::gates::Y;
use crate::gates::Z;
use crate::stabilizer::PauliOp;

verus! {

/// Any of the gates that have a name of their own, so that one value can stand for
/// gates of different kinds. `P` is the type of the angles of the parametrized
/// gates.
pub enum NamedGate<P> {
    /// The identity gate
    I(I),
    /// The Pauli X gate
    X(X),
    /// The Pauli Y gate
    Y(Y),
    /// The Pauli Z gate
    Z(Z),
    /// The Hadamard gate
    H(H),
    /// The `S` gate
    S(S),
    /// The conjugate of the `S` gate
    Sdg(Sdg),
    /// The `T` gate
    T(T),
    /// The conjugate of the `T` gate
    Tdg(Tdg),
    /// The `V` gate
    V(V),
    /// The conjugate of the `V` gate
    Vdg(Vdg),
    /// The controlled `X` gate
    CX(CX),
    /// The controlled `Y` gate
    CY(CY),
    /// The controlled `Z` gate
    CZ(CZ),
    /// The controlled Hadamard gate
    CH(CH),
    /// The doubly controlled `X` gate
    CCX(CCX),
    /// The doubly controlled `Z` gate
    CCZ(CCZ),
    /// The rotation around the `x` axis
    RX(RX<P>),
    /// The rotation around the `y` axis
    RY(RY<P>),
    /// The rotation around the `z` axis
    RZ(RZ<P>),
    /// The phase gate
    U1(U1<P>),
    /// The general single-qubit gate with its first angle a quarter turn
    U2(U2<P>),
    /// The general single-qubit gate
    U3(U3<P>),
}

impl<P> Gate for NamedGate<P> {
    open spec fn arity(&self) -> nat {
        match self {
            NamedGate::I(g) => g.arity(),
            NamedGate::X(g) => g.arity(),
            NamedGate::Y(g) => g.arity(),
            NamedGate::Z(g) => g.arity(),
            NamedGate::H(g) => g.arity(),
            NamedGate::S(g) => g.arity(),
            NamedGate::Sdg(g) => g.arity(),
            NamedGate::T(g) => g.arity(),
            NamedGate::Tdg(g) => g.arity(),
            NamedGate::V(g) => g.arity(),
            NamedGate::Vdg(g) => g.arity(),
            NamedGate::CX(g) => g.arity(),
            NamedGate::CY(g) => g.arity(),
            NamedGate::CZ(g) => g.arity(),
            NamedGate::CH(g) => g.arity(),
            NamedGate::CCX(g) => g.arity(),
            NamedGate::CCZ(g) => g.arity(),
            NamedGate::RX(g) => g.arity(),
            NamedGate::RY(g) => g.arity(),
            NamedGate::RZ(g) => g.arity(),
            NamedGate::U1(g) => g.arity(),
            NamedGate::U2(g) => g.arity(),
            NamedGate::U3(g) => g.arity(),
        }
    }

    open spec fn name(&self) -> Seq<char> {
        match self {
            NamedGate::I(g) => g.name(),
            NamedGate::X(g) => g.name(),
            NamedGate::Y(g) => g.name(),
            NamedGate::Z(g) => g.name(),
            NamedGate::H(g) => g.name(),
            NamedGate::S(g) => g.name(),
            NamedGate::Sdg(g) => g.name(),
            NamedGate::T(g) => g.name(),
            NamedGate::Tdg(g) => g.name(),
            NamedGate::V(g) => g.name(),
            NamedGate::Vdg(g) => g.name(),
            NamedGate::CX(g) => g.name(),
            NamedGate::CY(g) => g.name(),
            NamedGate::CZ(g) => g.name(),
            NamedGate::CH(g) => g.name(),
            NamedGate::CCX(g) => g.name(),
            NamedGate::CCZ(g) => g.name(),
            NamedGate::RX(g) => g.name(),
            NamedGate::RY(g) => g.name(),
            NamedGate::RZ(g) => g.name(),
            NamedGate::U1(g) => g.name(),
            NamedGate::U2(g) => g.name(),
            NamedGate::U3(g) => g.name(),
        }
    }

    open spec fn clifford(&self) -> bool {
        match self {
            NamedGate::I(g) => g.clifford(),
            NamedGate::X(g) => g.clifford(),
            NamedGate::Y(g) => g.clifford(),
            NamedGate::Z(g) => g.clifford(),
            NamedGate::H(g) => g.clifford(),
            NamedGate::S(g) => g.clifford(),
            NamedGate::Sdg(g) => g.clifford(),
            NamedGate::T(g) => g.clifford(),
            NamedGate::Tdg(g) => g.clifford(),
            NamedGate::V(g) => g.clifford(),
            NamedGate::Vdg(g) => g.clifford(),
            NamedGate::CX(g) => g.clifford(),
            NamedGate::CY(g) => g.clifford(),
            NamedGate::CZ(g) => g.clifford(),
            NamedGate::CH(g) => g.clifford(),
            NamedGate::CCX(g) => g.clifford(),
            NamedGate::CCZ(g) => g.clifford(),
            NamedGate::RX(g) => g.clifford(),
            NamedGate::RY(g) => g.clifford(),
            NamedGate::RZ(g) => g.clifford(),
            NamedGate::U1(g) => g.clifford(),
            NamedGate::U2(g) => g.clifford(),
            NamedGate::U3(g) => g.clifford(),
        }
    }

    open spec fn conjugation(&self, ops: Seq<PauliOp>) -> Option<(Seq<PauliOp>, bool)> {
        match self {
            NamedGate::I(g) => g.conjugation(ops),
            NamedGate::X(g) => g.conjugation(ops),
            NamedGate::Y(g) => g.conjugation(ops),
            NamedGate::Z(g) => g.conjugation(ops),
            NamedGate::H(g) => g.conjugation(ops),
            NamedGate::S(g) => g.conjugation(ops),
            NamedGate::Sdg(g) => g.conjugation(ops),
            NamedGate::T(g) => g.conjugation(ops),
            NamedGate::Tdg(g) => g.conjugation(ops),
            NamedGate::V(g) => g.conjugation(ops),
            NamedGate::Vdg(g) => g.conjugation(ops),
            NamedGate::CX(g) => g.conjugation(ops),
            NamedGate::CY(g) => g.conjugation(ops),
            NamedGate::CZ(g) => g.conjugation(ops),
            NamedGate::CH(g) => g.conjugation(ops),
            NamedGate::CCX(g) => g.conjugation(ops),
            NamedGate::CCZ(g) => g.conjugation(ops),
            NamedGate::RX(g) => g.conjugation(ops),
            NamedGate::RY(g) => g.conjugation(ops),
            NamedGate::RZ(g) => g.conjugation(ops),
            NamedGate::U1(g) => g.conjugation(ops),
            NamedGate::U2(g) => g.conjugation(ops),
            NamedGate::U3(g) => g.conjugation(ops),
        }
    }

    open spec fn culprit(&self, ops: Seq<PauliOp>) -> Seq<char> {
        match self {
            NamedGate::I(g) => g.culprit(ops),
            NamedGate::X(g) => g.culprit(ops),
            NamedGate::Y(g) => g.culprit(ops),
            NamedGate::Z(g) => g.culprit(ops),
            NamedGate::H(g) => g.culprit(ops),
            NamedGate::S(g) => g.culprit(ops),
            NamedGate::Sdg(g) => g.culprit(ops),
            NamedGate::T(g) => g.culprit(ops),
            NamedGate::Tdg(g) => g.culprit(ops),
            NamedGate::V(g) => g.culprit(ops),
            NamedGate::Vdg(g) => g.culprit(ops),
            NamedGate::CX(g) => g.culprit(ops),
            NamedGate::CY(g) => g.culprit(ops),
            NamedGate::CZ(g) => g.culprit(ops),
            NamedGate::CH(g) => g.culprit(ops),
            NamedGate::CCX(g) => g.culprit(ops),
            NamedGate::CCZ(g) => g.culprit(ops),
            NamedGate::RX(g) => g.culprit(ops),
            NamedGate::RY(g) => g.culprit(ops),
            NamedGate::RZ(g) => g.culprit(ops),
            NamedGate::U1(g) => g.culprit(ops),
            NamedGate::U2(g) => g.culprit(ops),
            NamedGate::U3(g) => g.culprit(ops),
        }
    }

    proof fn lemma_clifford(&self) {
        match self {
            NamedGate::I(g) => {
                g.lemma_clifford();
                if g.clifford() {
                    assert forall|p: Seq<PauliOp>| p.len() == self.arity() implies #[trigger] self.conjugation(
                        p,
                    ) is Some by {
                        assert(g.conjugation(p) is Some);
                    }
                } else {
                    let p = choose|p: Seq<PauliOp>|
                        p.len() == g.arity() && #[trigger] g.conjugation(p) is None;
                    assert(p.len() == self.arity() && self.conjugation(p) is None);
                }
            },
            NamedGate::X(g) => {
                g.lemma_clifford();
                if g.clifford() {
                    assert forall|p: Seq<PauliOp>| p.len() == self.arity() implies #[trigger] self.conjugation(
                        p,
                    ) is Some by {
                        assert(g.conjugation(p) is Some);
                    }
                } else {
                    let p = choose|p: Seq<PauliOp>|
                        p.len() == g.arity() && #[trigger] g.conjugation(p) is None;
                    assert(p.len() == self.arity() && self.conjugation(p) is None);
                }
            },
            NamedGate::Y(g) => {
                g.lemma_clifford();
                if g.clifford() {
                    assert forall|p: Seq<PauliOp>| p.len() == self.arity() implies #[trigger] self.conjugation(
                        p,
                    ) is Some by {
                        assert(g.conjugation(p) is Some);
                    }
                } else {
                    let p = choose|p: Seq<PauliOp>|
                        p.len() == g.arity() && #[trigger] g.conjugation(p) is None;
                    assert(p.len() == self.arity() && self.conjugation(p) is None);
                }
            },
            NamedGate::Z(g) => {
                g.lemma_clifford();
                if g.clifford() {
                    assert forall|p: Seq<PauliOp>| p.len() == self.arity() implies #[trigger] self.conjugation(
                        p,
                    ) is Some by {
                        assert(g.conjugation(p) is Some);
                    }
                } else {
                    let p = choose|p: Seq<PauliOp>|
                        p.len() == g.arity() && #[trigger] g.conjugation(p) is None;
                    assert(p.len() == self.arity() && self.conjugation(p) is None);
                }
            },
            NamedGate::H(g) => {
                g.lemma_clifford();
                if g.clifford() {
                    assert forall|p: Seq<PauliOp>| p.len() == self.arity() implies #[trigger] self.conjugation(
                        p,
                    ) is Some by {
                        assert(g.conjugation(p) is Some);
                    }
                } else {
                    let p = choose|p: Seq<PauliOp>|
                        p.len() == g.arity() && #[trigger] g.conjugation(p) is None;
                    assert(p.len() == self.arity() && self.conjugation(p) is None);
                }
            },
            NamedGate::S(g) => {
                g.lemma_clifford();
                if g.clifford() {
                    assert forall|p: Seq<PauliOp>| p.len() == self.arity() implies #[trigger] self.conjugation(
                        p,
                    ) is Some by {
                        assert(g.conjugation(p) is Some);
                    }
                } else {
                    let p = choose|p: Seq<PauliOp>|
                        p.len() == g.arity() && #[trigger] g.conjugation(p) is None;
                    assert(p.len() == self.arity() && self.conjugation(p) is None);
                }
            },
            NamedGate::Sdg(g) => {
                g.lemma_clifford();
                if g.clifford() {
                    assert forall|p: Seq<PauliOp>| p.len() == self.arity() implies #[trigger] self.conjugation(
                        p,
                    ) is Some by {
                        assert(g.conjugation(p) is Some);
                    }
                } else {
                    let p = choose|p: Seq<PauliOp>|
                        p.len() == g.arity() && #[trigger] g.conjugation(p) is None;
                    assert(p.len() == self.arity() && self.conjugation(p) is None);
                }
            },
            NamedGate::T(g) => {
                g.lemma_clifford();
                if g.clifford() {
                    assert forall|p: Seq<PauliOp>| p.len() == self.arity() implies #[trigger] self.conjugation(
                        p,
                    ) is Some by {
                        assert(g.conjugation(p) is Some);
                    }
                } else {
                    let p = choose|p: Seq<PauliOp>|
                        p.len() == g.arity() && #[trigger] g.conjugation(p) is None;
                    assert(p.len() == self.arity() && self.conjugation(p) is None);
                }
            },
            NamedGate::Tdg(g) => {
                g.lemma_clifford();
                if g.clifford() {
                    assert forall|p: Seq<PauliOp>| p.len() == self.arity() implies #[trigger] self.conjugation(
                        p,
                    ) is Some by {
                        assert(g.conjugation(p) is Some);
                    }
                } else {
                    let p = choose|p: Seq<PauliOp>|
                        p.len() == g.arity() && #[trigger] g.conjugation(p) is None;
                    assert(p.len() == self.arity() && self.conjugation(p) is None);
                }
            },
            NamedGate::V(g) => {
                g.lemma_clifford();
                if g.clifford() {
                    assert forall|p: Seq<PauliOp>| p.len() == self.arity() implies #[trigger] self.conjugation(
                        p,
                    ) is Some by {
                        assert(g.conjugation(p) is Some);
                    }
                } else {
                    let p = choose|p: Seq<PauliOp>|
                        p.len() == g.arity() && #[trigger] g.conjugation(p) is None;
                    assert(p.len() == self.arity() && self.conjugation(p) is None);
                }
            },
            NamedGate::Vdg(g) => {
                g.lemma_clifford();
                if g.clifford() {
                    assert forall|p: Seq<PauliOp>| p.len() == self.arity() implies #[trigger] self.conjugation(
                        p,
                    ) is Some by {
                        assert(g.conjugation(p) is Some);
                    }
                } else {
                    let p = choose|p: Seq<PauliOp>|
                        p.len() == g.arity() && #[trigger] g.conjugation(p) is None;
                    assert(p.len() == self.arity() && self.conjugation(p) is None);
                }
            },
            NamedGate::CX(g) => {
                g.lemma_clifford();
                if g.clifford() {
                    assert forall|p: Seq<PauliOp>| p.len() == self.arity() implies #[trigger] self.conjugation(
                        p,
                    ) is Some by {
                        assert(g.conjugation(p) is Some);
                    }
                } else {
                    let p = choose|p: Seq<PauliOp>|
                        p.len() == g.arity() && #[trigger] g.conjugation(p) is None;
                    assert(p.len() == self.arity() && self.conjugation(p) is None);
                }
            },
            NamedGate::CY(g) => {
                g.lemma_clifford();
                if g.clifford() {
                    assert forall|p: Seq<PauliOp>| p.len() == self.arity() implies #[trigger] self.conjugation(
                        p,
                    ) is Some by {
                        assert(g.conjugation(p) is Some);
                    }
                } else {
                    let p = choose|p: Seq<PauliOp>|
                        p.len() == g.arity() && #[trigger] g.conjugation(p) is None;
                    assert(p.len() == self.arity() && self.conjugation(p) is None);
                }
            },
            NamedGate::CZ(g) => {
                g.lemma_clifford();
                if g.clifford() {
                    assert forall|p: Seq<PauliOp>| p.len() == self.arity() implies #[trigger] self.conjugation(
                        p,
                    ) is Some by {
                        assert(g.conjugation(p) is Some);
                    }
                } else {
                    let p = choose|p: Seq<PauliOp>|
                        p.len() == g.arity() && #[trigger] g.conjugation(p) is None;
                    assert(p.len() == self.arity() && self.conjugation(p) is None);
                }
            },
            NamedGate::CH(g) => {
                g.lemma_clifford();
                if g.clifford() {
                    assert forall|p: Seq<PauliOp>| p.len() == self.arity() implies #[trigger] self.conjugation(
                        p,
                    ) is Some by {
                        assert(g.conjugation(p) is Some);
                    }
                } else {
                    let p = choose|p: Seq<PauliOp>|
                        p.len() == g.arity() && #[trigger] g.conjugation(p) is None;
                    assert(p.len() == self.arity() && self.conjugation(p) is None);
                }
            },
            NamedGate::CCX(g) => {
                g.lemma_clifford();
                if g.clifford() {
                    assert forall|p: Seq<PauliOp>| p.len() == self.arity() implies #[trigger] self.conjugation(
                        p,
                    ) is Some by {
                        assert(g.conjugation(p) is Some);
                    }
                } else {
                    let p = choose|p: Seq<PauliOp>|
                        p.len() == g.arity() && #[trigger] g.conjugation(p) is None;
                    assert(p.len() == self.arity() && self.conjugation(p) is None);
                }
            },
            NamedGate::CCZ(g) => {
                g.lemma_clifford();
                if g.clifford() {
                    assert forall|p: Seq<PauliOp>| p.len() == self.arity() implies #[trigger] self.conjugation(
                        p,
                    ) is Some by {
                        assert(g.conjugation(p) is Some);
                    }
                } else {
                    let p = choose|p: Seq<PauliOp>|
                        p.len() == g.arity() && #[trigger] g.conjugation(p) is None;
                    assert(p.len() == self.arity() && self.conjugation(p) is None);
                }
            },
            NamedGate::RX(g) => {
                g.lemma_clifford();
                if g.clifford() {
                    assert forall|p: Seq<PauliOp>| p.len() == self.arity() implies #[trigger] self.conjugation(
                        p,
                    ) is Some by {
                        assert(g.conjugation(p) is Some);
                    }
                } else {
                    let p = choose|p: Seq<PauliOp>|
                        p.len() == g.arity() && #[trigger] g.conjugation(p) is None;
                    assert(p.len() == self.arity() && self.conjugation(p) is None);
                }
            },
            NamedGate::RY(g) => {
                g.lemma_clifford();
                if g.clifford() {
                    assert forall|p: Seq<PauliOp>| p.len() == self.arity() implies #[trigger] self.conjugation(
                        p,
                    ) is Some by {
                        assert(g.conjugation(p) is Some);
                    }
                } else {
                    let p = choose|p: Seq<PauliOp>|
                        p.len() == g.arity() && #[trigger] g.conjugation(p) is None;
                    assert(p.len() == self.arity() && self.conjugation(p) is None);
                }
            },
            NamedGate::RZ(g) => {
                g.lemma_clifford();
                if g.clifford() {
                    assert forall|p: Seq<PauliOp>| p.len() == self.arity() implies #[trigger] self.conjugation(
                        p,
                    ) is Some by {
                        assert(g.conjugation(p) is Some);
                    }
                } else {
                    let p = choose|p: Seq<PauliOp>|
                        p.len() == g.arity() && #[trigger] g.conjugation(p) is None;
                    assert(p.len() == self.arity() && self.conjugation(p) is None);
                }
            },
            NamedGate::U1(g) => {
                g.lemma_clifford();
                if g.clifford() {
                    assert forall|p: Seq<PauliOp>| p.len() == self.arity() implies #[trigger] self.conjugation(
                        p,
                    ) is Some by {
                        assert(g.conjugation(p) is Some);
                    }
                } else {
                    let p = choose|p: Seq<PauliOp>|
                        p.len() == g.arity() && #[trigger] g.conjugation(p) is None;
                    assert(p.len() == self.arity() && self.conjugation(p) is None);
                }
            },
            NamedGate::U2(g) => {
                g.lemma_clifford();
                if g.clifford() {
                    assert forall|p: Seq<PauliOp>| p.len() == self.arity() implies #[trigger] self.conjugation(
                        p,
                    ) is Some by {
                        assert(g.conjugation(p) is Some);
                    }
                } else {
                    let p = choose|p: Seq<PauliOp>|
                        p.len() == g.arity() && #[trigger] g.conjugation(p) is None;
                    assert(p.len() == self.arity() && self.conjugation(p) is None);
                }
            },
            NamedGate::U3(g) => {
                g.lemma_clifford();
                if g.clifford() {
                    assert forall|p: Seq<PauliOp>| p.len() == self.arity() implies #[trigger] self.conjugation(
                        p,
                    ) is Some by {
                        assert(g.conjugation(p) is Some);
                    }
                } else {
                    let p = choose|p: Seq<PauliOp>|
                        p.len() == g.arity() && #[trigger] g.conjugation(p) is None;
                    assert(p.len() == self.arity() && self.conjugation(p) is None);
                }
            },
        }
    }

    proof fn lemma_conjugation_keeps_commutation(&self, p: Seq<PauliOp>, q: Seq<PauliOp>) {
        match self {
            NamedGate::I(g) => g.lemma_conjugation_keeps_commutation(p, q),
            NamedGate::X(g) => g.lemma_conjugation_keeps_commutation(p, q),
            NamedGate::Y(g) => g.lemma_conjugation_keeps_commutation(p, q),
            NamedGate::Z(g) => g.lemma_conjugation_keeps_commutation(p, q),
            NamedGate::H(g) => g.lemma_conjugation_keeps_commutation(p, q),
            NamedGate::S(g) => g.lemma_conjugation_keeps_commutation(p, q),
            NamedGate::Sdg(g) => g.lemma_conjugation_keeps_commutation(p, q),
            NamedGate::T(g) => g.lemma_conjugation_keeps_commutation(p, q),
            NamedGate::Tdg(g) => g.lemma_conjugation_keeps_commutation(p, q),
            NamedGate::V(g) => g.lemma_conjugation_keeps_commutation(p, q),
            NamedGate::Vdg(g) => g.lemma_conjugation_keeps_commutation(p, q),
            NamedGate::CX(g) => g.lemma_conjugation_keeps_commutation(p, q),
            NamedGate::CY(g) => g.lemma_conjugation_keeps_commutation(p, q),
            NamedGate::CZ(g) => g.lemma_conjugation_keeps_commutation(p, q),
            NamedGate::CH(g) => g.lemma_conjugation_keeps_commutation(p, q),
            NamedGate::CCX(g) => g.lemma_conjugation_keeps_commutation(p, q),
            NamedGate::CCZ(g) => g.lemma_conjugation_keeps_commutation(p, q),
            NamedGate::RX(g) => g.lemma_conjugation_keeps_commutation(p, q),
            NamedGate::RY(g) => g.lemma_conjugation_keeps_commutation(p, q),
            NamedGate::RZ(g) => g.lemma_conjugation_keeps_commutation(p, q),
            NamedGate::U1(g) => g.lemma_conjugation_keeps_commutation(p, q),
            NamedGate::U2(g) => g.lemma_conjugation_keeps_commutation(p, q),
            NamedGate::U3(g) => g.lemma_conjugation_keeps_commutation(p, q),
        }
    }

    proof fn lemma_conjugation_respects_products(&self, p: Seq<PauliOp>, q: Seq<PauliOp>) {
        match self {
            NamedGate::I(g) => g.lemma_conjugation_respects_products(p, q),
            NamedGate::X(g) => g.lemma_conjugation_respects_products(p, q),
            NamedGate::Y(g) => g.lemma_conjugation_respects_products(p, q),
            NamedGate::Z(g) => g.lemma_conjugation_respects_products(p, q),
            NamedGate::H(g) => g.lemma_conjugation_respects_products(p, q),
            NamedGate::S(g) => g.lemma_conjugation_respects_products(p, q),
            NamedGate::Sdg(g) => g.lemma_conjugation_respects_products(p, q),
            NamedGate::T(g) => g.lemma_conjugation_respects_products(p, q),
            NamedGate::Tdg(g) => g.lemma_conjugation_respects_products(p, q),
            NamedGate::V(g) => g.lemma_conjugation_respects_products(p, q),
            NamedGate::Vdg(g) => g.lemma_conjugation_respects_products(p, q),
            NamedGate::CX(g) => g.lemma_conjugation_respects_products(p, q),
            NamedGate::CY(g) => g.lemma_conjugation_respects_products(p, q),
            NamedGate::CZ(g) => g.lemma_conjugation_respects_products(p, q),
            NamedGate::CH(g) => g.lemma_conjugation_respects_products(p, q),
            NamedGate::CCX(g) => g.lemma_conjugation_respects_products(p, q),
            NamedGate::CCZ(g) => g.lemma_conjugation_respects_products(p, q),
            NamedGate::RX(g) => g.lemma_conjugation_respects_products(p, q),
            NamedGate::RY(g) => g.lemma_conjugation_respects_products(p, q),
            NamedGate::RZ(g) => g.lemma_conjugation_respects_products(p, q),
            NamedGate::U1(g) => g.lemma_conjugation_respects_products(p, q),
            NamedGate::U2(g) => g.lemma_conjugation_respects_products(p, q),
            NamedGate::U3(g) => g.lemma_conjugation_respects_products(p, q),
        }
    }

    proof fn lemma_conjugation_kernel(&self, p: Seq<PauliOp>) {
        match self {
            NamedGate::I(g) => g.lemma_conjugation_kernel(p),
            NamedGate::X(g) => g.lemma_conjugation_kernel(p),
            NamedGate::Y(g) => g.lemma_conjugation_kernel(p),
            NamedGate::Z(g) => g.lemma_conjugation_kernel(p),
            NamedGate::H(g) => g.lemma_conjugation_kernel(p),
            NamedGate::S(g) => g.lemma_conjugation_kernel(p),
            NamedGate::Sdg(g) => g.lemma_conjugation_kernel(p),
            NamedGate::T(g) => g.lemma_conjugation_kernel(p),
            NamedGate::Tdg(g) => g.lemma_conjugation_kernel(p),
            NamedGate::V(g) => g.lemma_conjugation_kernel(p),
            NamedGate::Vdg(g) => g.lemma_conjugation_kernel(p),
            NamedGate::CX(g) => g.lemma_conjugation_kernel(p),
            NamedGate::CY(g) => g.lemma_conjugation_kernel(p),
            NamedGate::CZ(g) => g.lemma_conjugation_kernel(p),
            NamedGate::CH(g) => g.lemma_conjugation_kernel(p),
            NamedGate::CCX(g) => g.lemma_conjugation_kernel(p),
            NamedGate::CCZ(g) => g.lemma_conjugation_kernel(p),
            NamedGate::RX(g) => g.lemma_conjugation_kernel(p),
            NamedGate::RY(g) => g.lemma_conjugation_kernel(p),
            NamedGate::RZ(g) => g.lemma_conjugation_kernel(p),
            NamedGate::U1(g) => g.lemma_conjugation_kernel(p),
            NamedGate::U2(g) => g.lemma_conjugation_kernel(p),
            NamedGate::U3(g) => g.lemma_conjugation_kernel(p),
        }
    }

    fn description(&self) -> (s: &str) {
        match self {
            NamedGate::I(g) => g.description(),
            NamedGate::X(g) => g.description(),
            NamedGate::Y(g) => g.description(),
            NamedGate::Z(g) => g.description(),
            NamedGate::H(g) => g.description(),
            NamedGate::S(g) => g.description(),
            NamedGate::Sdg(g) => g.description(),
            NamedGate::T(g) => g.description(),
            NamedGate::Tdg(g) => g.description(),
            NamedGate::V(g) => g.description(),
            NamedGate::Vdg(g) => g.description(),
            NamedGate::CX(g) => g.description(),
            NamedGate::CY(g) => g.description(),
            NamedGate::CZ(g) => g.description(),
            NamedGate::CH(g) => g.description(),
            NamedGate::CCX(g) => g.description(),
            NamedGate::CCZ(g) => g.description(),
            NamedGate::RX(g) => g.description(),
            NamedGate::RY(g) => g.description(),
            NamedGate::RZ(g) => g.description(),
            NamedGate::U1(g) => g.description(),
            NamedGate::U2(g) => g.description(),
            NamedGate::U3(g) => g.description(),
        }
    }

    fn nr_affected_bits(&self) -> (n: usize) {
        match self {
            NamedGate::I(g) => g.nr_affected_bits(),
            NamedGate::X(g) => g.nr_affected_bits(),
            NamedGate::Y(g) => g.nr_affected_bits(),
            NamedGate::Z(g) => g.nr_affected_bits(),
            NamedGate::H(g) => g.nr_affected_bits(),
            NamedGate::S(g) => g.nr_affected_bits(),
            NamedGate::Sdg(g) => g.nr_affected_bits(),
            NamedGate::T(g) => g.nr_affected_bits(),
            NamedGate::Tdg(g) => g.nr_affected_bits(),
            NamedGate::V(g) => g.nr_affected_bits(),
            NamedGate::Vdg(g) => g.nr_affected_bits(),
            NamedGate::CX(g) => g.nr_affected_bits(),
            NamedGate::CY(g) => g.nr_affected_bits(),
            NamedGate::CZ(g) => g.nr_affected_bits(),
            NamedGate::CH(g) => g.nr_affected_bits(),
            NamedGate::CCX(g) => g.nr_affected_bits(),
            NamedGate::CCZ(g) => g.nr_affected_bits(),
            NamedGate::RX(g) => g.nr_affected_bits(),
            NamedGate::RY(g) => g.nr_affected_bits(),
            NamedGate::RZ(g) => g.nr_affected_bits(),
            NamedGate::U1(g) => g.nr_affected_bits(),
            NamedGate::U2(g) => g.nr_affected_bits(),
            NamedGate::U3(g) => g.nr_affected_bits(),
        }
    }

    fn is_stabilizer(&self) -> (b: bool) {
        match self {
            NamedGate::I(g) => g.is_stabilizer(),
            NamedGate::X(g) => g.is_stabilizer(),
            NamedGate::Y(g) => g.is_stabilizer(),
            NamedGate::Z(g) => g.is_stabilizer(),
            NamedGate::H(g) => g.is_stabilizer(),
            NamedGate::S(g) => g.is_stabilizer(),
            NamedGate::Sdg(g) => g.is_stabilizer(),
            NamedGate::T(g) => g.is_stabilizer(),
            NamedGate::Tdg(g) => g.is_stabilizer(),
            NamedGate::V(g) => g.is_stabilizer(),
            NamedGate::Vdg(g) => g.is_stabilizer(),
            NamedGate::CX(g) => g.is_stabilizer(),
            NamedGate::CY(g) => g.is_stabilizer(),
            NamedGate::CZ(g) => g.is_stabilizer(),
            NamedGate::CH(g) => g.is_stabilizer(),
            NamedGate::CCX(g) => g.is_stabilizer(),
            NamedGate::CCZ(g) => g.is_stabilizer(),
            NamedGate::RX(g) => g.is_stabilizer(),
            NamedGate::RY(g) => g.is_stabilizer(),
            NamedGate::RZ(g) => g.is_stabilizer(),
            NamedGate::U1(g) => g.is_stabilizer(),
            NamedGate::U2(g) => g.is_stabilizer(),
            NamedGate::U3(g) => g.is_stabilizer(),
        }
    }

    fn conjugate(&self, ops: &mut [PauliOp]) -> (r: Result<bool, Error>) {
        match self {
            NamedGate::I(g) => g.conjugate(ops),
            NamedGate::X(g) => g.conjugate(ops),
            NamedGate::Y(g) => g.conjugate(ops),
            NamedGate::Z(g) => g.conjugate(ops),
            NamedGate::H(g) => g.conjugate(ops),
            NamedGate::S(g) => g.conjugate(ops),
            NamedGate::Sdg(g) => g.conjugate(ops),
            NamedGate::T(g) => g.conjugate(ops),
            NamedGate::Tdg(g) => g.conjugate(ops),
            NamedGate::V(g) => g.conjugate(ops),
            NamedGate::Vdg(g) => g.conjugate(ops),
            NamedGate::CX(g) => g.conjugate(ops),
            NamedGate::CY(g) => g.conjugate(ops),
            NamedGate::CZ(g) => g.conjugate(ops),
            NamedGate::CH(g) => g.conjugate(ops),
            NamedGate::CCX(g) => g.conjugate(ops),
            NamedGate::CCZ(g) => g.conjugate(ops),
            NamedGate::RX(g) => g.conjugate(ops),
            NamedGate::RY(g) => g.conjugate(ops),
            NamedGate::RZ(g) => g.conjugate(ops),
            NamedGate::U1(g) => g.conjugate(ops),
            NamedGate::U2(g) => g.conjugate(ops),
            NamedGate::U3(g) => g.conjugate(ops),
        }
    }
}

impl<P> NamedGate<P> {
    /// The error of a gate that the format `format` has no text for.
    fn unsupported(&self, format: &str) -> (e: Error)
        ensures
            e matches Error::ExportUnsupported(op, f) && op@ == self.name() && f@ == format@,
    {
        Error::ExportUnsupported(String::from_str(self.description()), String::from_str(format))
    }
}

/// The `V` gate, its conjugate, and the controlled Hadamard gate and the doubly
/// controlled gates have no text in OpenQasm.
impl<P> OpenQasm for NamedGate<P> {
    open spec fn open_qasm_text(&self, bit_names: Seq<Seq<char>>, bits: Seq<usize>) -> Result<
        Seq<char>,
        Refusal,
    > {
        match self {
            NamedGate::I(g) => g.open_qasm_text(bit_names, bits),
            NamedGate::X(g) => g.open_qasm_text(bit_names, bits),
            NamedGate::Y(g) => g.open_qasm_text(bit_names, bits),
            NamedGate::Z(g) => g.open_qasm_text(bit_names, bits),
            NamedGate::H(g) => g.open_qasm_text(bit_names, bits),
            NamedGate::S(g) => g.open_qasm_text(bit_names, bits),
            NamedGate::Sdg(g) => g.open_qasm_text(bit_names, bits),
            NamedGate::T(g) => g.open_qasm_text(bit_names, bits),
            NamedGate::Tdg(g) => g.open_qasm_text(bit_names, bits),
            NamedGate::CX(g) => g.open_qasm_text(bit_names, bits),
            NamedGate::CY(g) => g.open_qasm_text(bit_names, bits),
            NamedGate::CZ(g) => g.open_qasm_text(bit_names, bits),
            NamedGate::RX(g) => g.open_qasm_text(bit_names, bits),
            NamedGate::RY(g) => g.open_qasm_text(bit_names, bits),
            NamedGate::RZ(g) => g.open_qasm_text(bit_names, bits),
            NamedGate::U1(g) => g.open_qasm_text(bit_names, bits),
            NamedGate::U2(g) => g.open_qasm_text(bit_names, bits),
            NamedGate::U3(g) => g.open_qasm_text(bit_names, bits),
            _ => Err((Refusal { op: self.name(), format: "OpenQasm"@ })),
        }
    }

    open spec fn conditional_open_qasm_text(
        &self,
        condition: Seq<char>,
        bit_names: Seq<Seq<char>>,
        bits: Seq<usize>,
    ) -> Result<Seq<char>, Refusal> {
        match self {
            NamedGate::I(g) => g.conditional_open_qasm_text(condition, bit_names, bits),
            NamedGate::X(g) => g.conditional_open_qasm_text(condition, bit_names, bits),
            NamedGate::Y(g) => g.conditional_open_qasm_text(condition, bit_names, bits),
            NamedGate::Z(g) => g.conditional_open_qasm_text(condition, bit_names, bits),
            NamedGate::H(g) => g.conditional_open_qasm_text(condition, bit_names, bits),
            NamedGate::S(g) => g.conditional_open_qasm_text(condition, bit_names, bits),
            NamedGate::Sdg(g) => g.conditional_open_qasm_text(condition, bit_names, bits),
            NamedGate::T(g) => g.conditional_open_qasm_text(condition, bit_names, bits),
            NamedGate::Tdg(g) => g.conditional_open_qasm_text(condition, bit_names, bits),
            NamedGate::CX(g) => g.conditional_open_qasm_text(condition, bit_names, bits),
            NamedGate::CY(g) => g.conditional_open_qasm_text(condition, bit_names, bits),
            NamedGate::CZ(g) => g.conditional_open_qasm_text(condition, bit_names, bits),
            NamedGate::RX(g) => g.conditional_open_qasm_text(condition, bit_names, bits),
            NamedGate::RY(g) => g.conditional_open_qasm_text(condition, bit_names, bits),
            NamedGate::RZ(g) => g.conditional_open_qasm_text(condition, bit_names, bits),
            NamedGate::U1(g) => g.conditional_open_qasm_text(condition, bit_names, bits),
            NamedGate::U2(g) => g.conditional_open_qasm_text(condition, bit_names, bits),
            NamedGate::U3(g) => g.conditional_open_qasm_text(condition, bit_names, bits),
            _ => Err((Refusal { op: self.name(), format: "OpenQasm"@ })),
        }
    }

    fn open_qasm(&self, bit_names: &[String], bits: &[usize]) -> (r: Result<String, Error>) {
        match self {
            NamedGate::I(g) => g.open_qasm(bit_names, bits),
            NamedGate::X(g) => g.open_qasm(bit_names, bits),
            NamedGate::Y(g) => g.open_qasm(bit_names, bits),
            NamedGate::Z(g) => g.open_qasm(bit_names, bits),
            NamedGate::H(g) => g.open_qasm(bit_names, bits),
            NamedGate::S(g) => g.open_qasm(bit_names, bits),
            NamedGate::Sdg(g) => g.open_qasm(bit_names, bits),
            NamedGate::T(g) => g.open_qasm(bit_names, bits),
            NamedGate::Tdg(g) => g.open_qasm(bit_names, bits),
            NamedGate::CX(g) => g.open_qasm(bit_names, bits),
            NamedGate::CY(g) => g.open_qasm(bit_names, bits),
            NamedGate::CZ(g) => g.open_qasm(bit_names, bits),
            NamedGate::RX(g) => g.open_qasm(bit_names, bits),
            NamedGate::RY(g) => g.open_qasm(bit_names, bits),
            NamedGate::RZ(g) => g.open_qasm(bit_names, bits),
            NamedGate::U1(g) => g.open_qasm(bit_names, bits),
            NamedGate::U2(g) => g.open_qasm(bit_names, bits),
            NamedGate::U3(g) => g.open_qasm(bit_names, bits),
            _ => Err(self.unsupported("OpenQasm")),
        }
    }

    fn conditional_open_qasm(&self, condition: &str, bit_names: &[String], bits: &[usize]) -> (r:
        Result<String, Error>) {
        match self {
            NamedGate::I(g) => g.conditional_open_qasm(condition, bit_names, bits),
            NamedGate::X(g) => g.conditional_open_qasm(condition, bit_names, bits),
            NamedGate::Y(g) => g.conditional_open_qasm(condition, bit_names, bits),
            NamedGate::Z(g) => g.conditional_open_qasm(condition, bit_names, bits),
            NamedGate::H(g) => g.conditional_open_qasm(condition, bit_names, bits),
            NamedGate::S(g) => g.conditional_open_qasm(condition, bit_names, bits),
            NamedGate::Sdg(g) => g.conditional_open_qasm(condition, bit_names, bits),
            NamedGate::T(g) => g.conditional_open_qasm(condition, bit_names, bits),
            NamedGate::Tdg(g) => g.conditional_open_qasm(condition, bit_names, bits),
            NamedGate::CX(g) => g.conditional_open_qasm(condition, bit_names, bits),
            NamedGate::CY(g) => g.conditional_open_qasm(condition, bit_names, bits),
            NamedGate::CZ(g) => g.conditional_open_qasm(condition, bit_names, bits),
            NamedGate::RX(g) => g.conditional_open_qasm(condition, bit_names, bits),
            NamedGate::RY(g) => g.conditional_open_qasm(condition, bit_names, bits),
            NamedGate::RZ(g) => g.conditional_open_qasm(condition, bit_names, bits),
            NamedGate::U1(g) => g.conditional_open_qasm(condition, bit_names, bits),
            NamedGate::U2(g) => g.conditional_open_qasm(condition, bit_names, bits),
            NamedGate::U3(g) => g.conditional_open_qasm(condition, bit_names, bits),
            _ => Err(self.unsupported("OpenQasm")),
        }
    }
}

/// The `V` gate, its conjugate, the controlled `Y` gate, the `U2` gate, and the
/// controlled Hadamard gate and the doubly controlled gates have no text in c-Qasm.
impl<P> CQasm for NamedGate<P> {
    open spec fn c_qasm_text(&self, bit_names: Seq<Seq<char>>, bits: Seq<usize>) -> Result<
        Seq<char>,
        Refusal,
    > {
        match self {
            NamedGate::I(g) => g.c_qasm_text(bit_names, bits),
            NamedGate::X(g) => g.c_qasm_text(bit_names, bits),
            NamedGate::Y(g) => g.c_qasm_text(bit_names, bits),
            NamedGate::Z(g) => g.c_qasm_text(bit_names, bits),
            NamedGate::H(g) => g.c_qasm_text(bit_names, bits),
            NamedGate::S(g) => g.c_qasm_text(bit_names, bits),
            NamedGate::Sdg(g) => g.c_qasm_text(bit_names, bits),
            NamedGate::T(g) => g.c_qasm_text(bit_names, bits),
            NamedGate::Tdg(g) => g.c_qasm_text(bit_names, bits),
            NamedGate::CX(g) => g.c_qasm_text(bit_names, bits),
            NamedGate::CZ(g) => g.c_qasm_text(bit_names, bits),
            NamedGate::RX(g) => g.c_qasm_text(bit_names, bits),
            NamedGate::RY(g) => g.c_qasm_text(bit_names, bits),
            NamedGate::RZ(g) => g.c_qasm_text(bit_names, bits),
            NamedGate::U1(g) => g.c_qasm_text(bit_names, bits),
            NamedGate::U3(g) => g.c_qasm_text(bit_names, bits),
            _ => Err((Refusal { op: self.name(), format: "c-Qasm"@ })),
        }
    }

    open spec fn conditional_c_qasm_text(
        &self,
        condition: Seq<char>,
        bit_names: Seq<Seq<char>>,
        bits: Seq<usize>,
    ) -> Result<Seq<char>, Refusal> {
        match self {
            NamedGate::I(g) => g.conditional_c_qasm_text(condition, bit_names, bits),
            NamedGate::X(g) => g.conditional_c_qasm_text(condition, bit_names, bits),
            NamedGate::Y(g) => g.conditional_c_qasm_text(condition, bit_names, bits),
            NamedGate::Z(g) => g.conditional_c_qasm_text(condition, bit_names, bits),
            NamedGate::H(g) => g.conditional_c_qasm_text(condition, bit_names, bits),
            NamedGate::S(g) => g.conditional_c_qasm_text(condition, bit_names, bits),
            NamedGate::Sdg(g) => g.conditional_c_qasm_text(condition, bit_names, bits),
            NamedGate::T(g) => g.conditional_c_qasm_text(condition, bit_names, bits),
            NamedGate::Tdg(g) => g.conditional_c_qasm_text(condition, bit_names, bits),
            NamedGate::CX(g) => g.conditional_c_qasm_text(condition, bit_names, bits),
            NamedGate::CZ(g) => g.conditional_c_qasm_text(condition, bit_names, bits),
            NamedGate::RX(g) => g.conditional_c_qasm_text(condition, bit_names, bits),
            NamedGate::RY(g) => g.conditional_c_qasm_text(condition, bit_names, bits),
            NamedGate::RZ(g) => g.conditional_c_qasm_text(condition, bit_names, bits),
            NamedGate::U1(g) => g.conditional_c_qasm_text(condition, bit_names, bits),
            NamedGate::U3(g) => g.conditional_c_qasm_text(condition, bit_names, bits),
            _ => Err((Refusal { op: self.name(), format: "c-Qasm"@ })),
        }
    }

    fn c_qasm(&self, bit_names: &[String], bits: &[usize]) -> (r: Result<String, Error>) {
        match self {
            NamedGate::I(g) => g.c_qasm(bit_names, bits),
            NamedGate::X(g) => g.c_qasm(bit_names, bits),
            NamedGate::Y(g) => g.c_qasm(bit_names, bits),
            NamedGate::Z(g) => g.c_qasm(bit_names, bits),
            NamedGate::H(g) => g.c_qasm(bit_names, bits),
            NamedGate::S(g) => g.c_qasm(bit_names, bits),
            NamedGate::Sdg(g) => g.c_qasm(bit_names, bits),
            NamedGate::T(g) => g.c_qasm(bit_names, bits),
            NamedGate::Tdg(g) => g.c_qasm(bit_names, bits),
            NamedGate::CX(g) => g.c_qasm(bit_names, bits),
            NamedGate::CZ(g) => g.c_qasm(bit_names, bits),
            NamedGate::RX(g) => g.c_qasm(bit_names, bits),
            NamedGate::RY(g) => g.c_qasm(bit_names, bits),
            NamedGate::RZ(g) => g.c_qasm(bit_names, bits),
            NamedGate::U1(g) => g.c_qasm(bit_names, bits),
            NamedGate::U3(g) => g.c_qasm(bit_names, bits),
            _ => Err(self.unsupported("c-Qasm")),
        }
    }

    fn conditional_c_qasm(&self, condition: &str, bit_names: &[String], bits: &[usize]) -> (r:
        Result<String, Error>) {
        match self {
            NamedGate::I(g) => g.conditional_c_qasm(condition, bit_names, bits),
            NamedGate::X(g) => g.conditional_c_qasm(condition, bit_names, bits),
            NamedGate::Y(g) => g.conditional_c_qasm(condition, bit_names, bits),
            NamedGate::Z(g) => g.conditional_c_qasm(condition, bit_names, bits),
            NamedGate::H(g) => g.conditional_c_qasm(condition, bit_names, bits),
            NamedGate::S(g) => g.conditional_c_qasm(condition, bit_names, bits),
            NamedGate::Sdg(g) => g.conditional_c_qasm(condition, bit_names, bits),
            NamedGate::T(g) => g.conditional_c_qasm(condition, bit_names, bits),
            NamedGate::Tdg(g) => g.conditional_c_qasm(condition, bit_names, bits),
            NamedGate::CX(g) => g.conditional_c_qasm(condition, bit_names, bits),
            NamedGate::CZ(g) => g.conditional_c_qasm(condition, bit_names, bits),
            NamedGate::RX(g) => g.conditional_c_qasm(condition, bit_names, bits),
            NamedGate::RY(g) => g.conditional_c_qasm(condition, bit_names, bits),
            NamedGate::RZ(g) => g.conditional_c_qasm(condition, bit_names, bits),
            NamedGate::U1(g) => g.conditional_c_qasm(condition, bit_names, bits),
            NamedGate::U3(g) => g.conditional_c_qasm(condition, bit_names, bits),
            _ => Err(self.unsupported("c-Qasm")),
        }
    }
}

} // verus!
