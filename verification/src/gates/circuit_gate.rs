//! One type for the gates that a circuit can hold.

use vstd::prelude::*;
use crate::error::Error;
use crate::export::CQasm;
use crate::export::OpenQasm;
use crate::export::Refusal;
use crate::gates::Gate;
use crate::gates::C;
use crate::gates::CCX;
use crate::gates::CCZ;
use crate::gates::CH;
use crate::gates::Kron;
use crate::gates::NamedGate;
use crate::gates::CX;
use crate::gates::CY;
use crate::gates::CZ;
use crate::gates::H;
use crate::gates::I;
use crate::gates::RX;
use crate::gates::RY;
use crate::gates::RZ;
use crate::gates::S;
use crate::gates::Sdg;
use crate::gates::T;
use crate::gates::Tdg;
use crate::gates::U1;
use crate::gates::U2;
use crate::gates::U3;
use crate::gates::V;
use crate::gates::Vdg;
use crate::gates::X;
use crate::gates::Y;
use crate::gates::Z;
use crate::stabilizer::PauliOp;

verus! {

/// Any gate that a circuit can hold: one of the gates that have a name of their own,
/// a gate under one more control qubit, or two gates side by side. `P` is the type
/// of the angles of the parametrized gates, `G` the type of the gates inside the
/// last two: the named gates, or this type again for gates made in several steps.
pub enum CircuitGate<P, G: Gate = NamedGate<P>> {
    /// The identity gate
    I(I),
    /// The Pauli X gate
    X(X),
    /// The Pauli Y gate
    Y(Y),
    /// The Pauli Z gate
    Z(Z),
    /// The Hadamard gate
    H(H),
    /// The `S` gate
    S(S),
    /// The conjugate of the `S` gate
    Sdg(Sdg),
    /// The `T` gate
    T(T),
    /// The conjugate of the `T` gate
    Tdg(Tdg),
    /// The `V` gate
    V(V),
    /// The conjugate of the `V` gate
    Vdg(Vdg),
    /// The controlled `X` gate
    CX(CX),
    /// The controlled `Y` gate
    CY(CY),
    /// The controlled `Z` gate
    CZ(CZ),
    /// The controlled Hadamard gate
    CH(CH),
    /// The doubly controlled `X` gate
    CCX(CCX),
    /// The doubly controlled `Z` gate
    CCZ(CCZ),
    /// The rotation around the `x` axis
    RX(RX<P>),
    /// The rotation around the `y` axis
    RY(RY<P>),
    /// The rotation around the `z` axis
    RZ(RZ<P>),
    /// The phase gate
    U1(U1<P>),
    /// The general single-qubit gate with its first angle a quarter turn
    U2(U2<P>),
    /// The general single-qubit gate
    U3(U3<P>),
    /// A gate under one more control qubit
    Controlled(C<G>),
    /// Two gates side by side, each on qubits of its own
    Kron(Kron<G, G>),
}

impl<P, G: Gate> Gate for CircuitGate<P, G> {
    open spec fn arity(&self) -> nat {
        match self {
            CircuitGate::I(g) => g.arity(),
            CircuitGate::X(g) => g.arity(),
            CircuitGate::Y(g) => g.arity(),
            CircuitGate::Z(g) => g.arity(),
            CircuitGate::H(g) => g.arity(),
            CircuitGate::S(g) => g.arity(),
            CircuitGate::Sdg(g) => g.arity(),
            CircuitGate::T(g) => g.arity(),
            CircuitGate::Tdg(g) => g.arity(),
            CircuitGate::V(g) => g.arity(),
            CircuitGate::Vdg(g) => g.arity(),
            CircuitGate::CX(g) => g.arity(),
            CircuitGate::CY(g) => g.arity(),
            CircuitGate::CZ(g) => g.arity(),
            CircuitGate::CH(g) => g.arity(),
            CircuitGate::CCX(g) => g.arity(),
            CircuitGate::CCZ(g) => g.arity(),
            CircuitGate::RX(g) => g.arity(),
            CircuitGate::RY(g) => g.arity(),
            CircuitGate::RZ(g) => g.arity(),
            CircuitGate::U1(g) => g.arity(),
            CircuitGate::U2(g) => g.arity(),
            CircuitGate::U3(g) => g.arity(),
            CircuitGate::Controlled(g) => g.arity(),
            CircuitGate::Kron(g) => g.arity(),
        }
    }

    open spec fn name(&self) -> Seq<char> {
        match self {
            CircuitGate::I(g) => g.name(),
            CircuitGate::X(g) => g.name(),
            CircuitGate::Y(g) => g.name(),
            CircuitGate::Z(g) => g.name(),
            CircuitGate::H(g) => g.name(),
            CircuitGate::S(g) => g.name(),
            CircuitGate::Sdg(g) => g.name(),
            CircuitGate::T(g) => g.name(),
            CircuitGate::Tdg(g) => g.name(),
            CircuitGate::V(g) => g.name(),
            CircuitGate::Vdg(g) => g.name(),
            CircuitGate::CX(g) => g.name(),
            CircuitGate::CY(g) => g.name(),
            CircuitGate::CZ(g) => g.name(),
            CircuitGate::CH(g) => g.name(),
            CircuitGate::CCX(g) => g.name(),
            CircuitGate::CCZ(g) => g.name(),
            CircuitGate::RX(g) => g.name(),
            CircuitGate::RY(g) => g.name(),
            CircuitGate::RZ(g) => g.name(),
            CircuitGate::U1(g) => g.name(),
            CircuitGate::U2(g) => g.name(),
            CircuitGate::U3(g) => g.name(),
            CircuitGate::Controlled(g) => g.name(),
            CircuitGate::Kron(g) => g.name(),
        }
    }

    open spec fn clifford(&self) -> bool {
        match self {
            CircuitGate::I(g) => g.clifford(),
            CircuitGate::X(g) => g.clifford(),
            CircuitGate::Y(g) => g.clifford(),
            CircuitGate::Z(g) => g.clifford(),
            CircuitGate::H(g) => g.clifford(),
            CircuitGate::S(g) => g.clifford(),
            CircuitGate::Sdg(g) => g.clifford(),
            CircuitGate::T(g) => g.clifford(),
            CircuitGate::Tdg(g) => g.clifford(),
            CircuitGate::V(g) => g.clifford(),
            CircuitGate::Vdg(g) => g.clifford(),
            CircuitGate::CX(g) => g.clifford(),
            CircuitGate::CY(g) => g.clifford(),
            CircuitGate::CZ(g) => g.clifford(),
            CircuitGate::CH(g) => g.clifford(),
            CircuitGate::CCX(g) => g.clifford(),
            CircuitGate::CCZ(g) => g.clifford(),
            CircuitGate::RX(g) => g.clifford(),
            CircuitGate::RY(g) => g.clifford(),
            CircuitGate::RZ(g) => g.clifford(),
            CircuitGate::U1(g) => g.clifford(),
            CircuitGate::U2(g) => g.clifford(),
            CircuitGate::U3(g) => g.clifford(),
            CircuitGate::Controlled(g) => g.clifford(),
            CircuitGate::Kron(g) => g.clifford(),
        }
    }

    open spec fn conjugation(&self, ops: Seq<PauliOp>) -> Option<(Seq<PauliOp>, bool)> {
        match self {
            CircuitGate::I(g) => g.conjugation(ops),
            CircuitGate::X(g) => g.conjugation(ops),
            CircuitGate::Y(g) => g.conjugation(ops),
            CircuitGate::Z(g) => g.conjugation(ops),
            CircuitGate::H(g) => g.conjugation(ops),
            CircuitGate::S(g) => g.conjugation(ops),
            CircuitGate::Sdg(g) => g.conjugation(ops),
            CircuitGate::T(g) => g.conjugation(ops),
            CircuitGate::Tdg(g) => g.conjugation(ops),
            CircuitGate::V(g) => g.conjugation(ops),
            CircuitGate::Vdg(g) => g.conjugation(ops),
            CircuitGate::CX(g) => g.conjugation(ops),
            CircuitGate::CY(g) => g.conjugation(ops),
            CircuitGate::CZ(g) => g.conjugation(ops),
            CircuitGate::CH(g) => g.conjugation(ops),
            CircuitGate::CCX(g) => g.conjugation(ops),
            CircuitGate::CCZ(g) => g.conjugation(ops),
            CircuitGate::RX(g) => g.conjugation(ops),
            CircuitGate::RY(g) => g.conjugation(ops),
            CircuitGate::RZ(g) => g.conjugation(ops),
            CircuitGate::U1(g) => g.conjugation(ops),
            CircuitGate::U2(g) => g.conjugation(ops),
            CircuitGate::U3(g) => g.conjugation(ops),
            CircuitGate::Controlled(g) => g.conjugation(ops),
            CircuitGate::Kron(g) => g.conjugation(ops),
        }
    }

    open spec fn culprit(&self, ops: Seq<PauliOp>) -> Seq<char> {
        match self {
            CircuitGate::I(g) => g.culprit(ops),
            CircuitGate::X(g) => g.culprit(ops),
            CircuitGate::Y(g) => g.culprit(ops),
            CircuitGate::Z(g) => g.culprit(ops),
            CircuitGate::H(g) => g.culprit(ops),
            CircuitGate::S(g) => g.culprit(ops),
            CircuitGate::Sdg(g) => g.culprit(ops),
            CircuitGate::T(g) => g.culprit(ops),
            CircuitGate::Tdg(g) => g.culprit(ops),
            CircuitGate::V(g) => g.culprit(ops),
            CircuitGate::Vdg(g) => g.culprit(ops),
            CircuitGate::CX(g) => g.culprit(ops),
            CircuitGate::CY(g) => g.culprit(ops),
            CircuitGate::CZ(g) => g.culprit(ops),
            CircuitGate::CH(g) => g.culprit(ops),
            CircuitGate::CCX(g) => g.culprit(ops),
            CircuitGate::CCZ(g) => g.culprit(ops),
            CircuitGate::RX(g) => g.culprit(ops),
            CircuitGate::RY(g) => g.culprit(ops),
            CircuitGate::RZ(g) => g.culprit(ops),
            CircuitGate::U1(g) => g.culprit(ops),
            CircuitGate::U2(g) => g.culprit(ops),
            CircuitGate::U3(g) => g.culprit(ops),
            CircuitGate::Controlled(g) => g.culprit(ops),
            CircuitGate::Kron(g) => g.culprit(ops),
        }
    }

    proof fn lemma_clifford(&self) {
        match self {
            CircuitGate::I(g) => {
                g.lemma_clifford();
                if g.clifford() {
                    assert forall|p: Seq<PauliOp>| p.len() == self.arity() implies #[trigger] self.conjugation(
                        p,
                    ) is Some by {
                        assert(g.conjugation(p) is Some);
                    }
                } else {
                    let p = choose|p: Seq<PauliOp>|
                        p.len() == g.arity() && #[trigger] g.conjugation(p) is None;
                    assert(p.len() == self.arity() && self.conjugation(p) is None);
                }
            },
            CircuitGate::X(g) => {
                g.lemma_clifford();
                if g.clifford() {
                    assert forall|p: Seq<PauliOp>| p.len() == self.arity() implies #[trigger] self.conjugation(
                        p,
                    ) is Some by {
                        assert(g.conjugation(p) is Some);
                    }
                } else {
                    let p = choose|p: Seq<PauliOp>|
                        p.len() == g.arity() && #[trigger] g.conjugation(p) is None;
                    assert(p.len() == self.arity() && self.conjugation(p) is None);
                }
            },
            CircuitGate::Y(g) => {
                g.lemma_clifford();
                if g.clifford() {
                    assert forall|p: Seq<PauliOp>| p.len() == self.arity() implies #[trigger] self.conjugation(
                        p,
                    ) is Some by {
                        assert(g.conjugation(p) is Some);
                    }
                } else {
                    let p = choose|p: Seq<PauliOp>|
                        p.len() == g.arity() && #[trigger] g.conjugation(p) is None;
                    assert(p.len() == self.arity() && self.conjugation(p) is None);
                }
            },
            CircuitGate::Z(g) => {
                g.lemma_clifford();
                if g.clifford() {
                    assert forall|p: Seq<PauliOp>| p.len() == self.arity() implies #[trigger] self.conjugation(
                        p,
                    ) is Some by {
                        assert(g.conjugation(p) is Some);
                    }
                } else {
                    let p = choose|p: Seq<PauliOp>|
                        p.len() == g.arity() && #[trigger] g.conjugation(p) is None;
                    assert(p.len() == self.arity() && self.conjugation(p) is None);
                }
            },
            CircuitGate::H(g) => {
                g.lemma_clifford();
                if g.clifford() {
                    assert forall|p: Seq<PauliOp>| p.len() == self.arity() implies #[trigger] self.conjugation(
                        p,
                    ) is Some by {
                        assert(g.conjugation(p) is Some);
                    }
                } else {
                    let p = choose|p: Seq<PauliOp>|
                        p.len() == g.arity() && #[trigger] g.conjugation(p) is None;
                    assert(p.len() == self.arity() && self.conjugation(p) is None);
                }
            },
            CircuitGate::S(g) => {
                g.lemma_clifford();
                if g.clifford() {
                    assert forall|p: Seq<PauliOp>| p.len() == self.arity() implies #[trigger] self.conjugation(
                        p,
                    ) is Some by {
                        assert(g.conjugation(p) is Some);
                    }
                } else {
                    let p = choose|p: Seq<PauliOp>|
                        p.len() == g.arity() && #[trigger] g.conjugation(p) is None;
                    assert(p.len() == self.arity() && self.conjugation(p) is None);
                }
            },
            CircuitGate::Sdg(g) => {
                g.lemma_clifford();
                if g.clifford() {
                    assert forall|p: Seq<PauliOp>| p.len() == self.arity() implies #[trigger] self.conjugation(
                        p,
                    ) is Some by {
                        assert(g.conjugation(p) is Some);
                    }
                } else {
                    let p = choose|p: Seq<PauliOp>|
                        p.len() == g.arity() && #[trigger] g.conjugation(p) is None;
                    assert(p.len() == self.arity() && self.conjugation(p) is None);
                }
            },
            CircuitGate::T(g) => {
                g.lemma_clifford();
                if g.clifford() {
                    assert forall|p: Seq<PauliOp>| p.len() == self.arity() implies #[trigger] self.conjugation(
                        p,
                    ) is Some by {
                        assert(g.conjugation(p) is Some);
                    }
                } else {
                    let p = choose|p: Seq<PauliOp>|
                        p.len() == g.arity() && #[trigger] g.conjugation(p) is None;
                    assert(p.len() == self.arity() && self.conjugation(p) is None);
                }
            },
            CircuitGate::Tdg(g) => {
                g.lemma_clifford();
                if g.clifford() {
                    assert forall|p: Seq<PauliOp>| p.len() == self.arity() implies #[trigger] self.conjugation(
                        p,
                    ) is Some by {
                        assert(g.conjugation(p) is Some);
                    }
                } else {
                    let p = choose|p: Seq<PauliOp>|
                        p.len() == g.arity() && #[trigger] g.conjugation(p) is None;
                    assert(p.len() == self.arity() && self.conjugation(p) is None);
                }
            },
            CircuitGate::V(g) => {
                g.lemma_clifford();
                if g.clifford() {
                    assert forall|p: Seq<PauliOp>| p.len() == self.arity() implies #[trigger] self.conjugation(
                        p,
                    ) is Some by {
                        assert(g.conjugation(p) is Some);
                    }
                } else {
                    let p = choose|p: Seq<PauliOp>|
                        p.len() == g.arity() && #[trigger] g.conjugation(p) is None;
                    assert(p.len() == self.arity() && self.conjugation(p) is None);
                }
            },
            CircuitGate::Vdg(g) => {
                g.lemma_clifford();
                if g.clifford() {
                    assert forall|p: Seq<PauliOp>| p.len() == self.arity() implies #[trigger] self.conjugation(
                        p,
                    ) is Some by {
                        assert(g.conjugation(p) is Some);
                    }
                } else {
                    let p = choose|p: Seq<PauliOp>|
                        p.len() == g.arity() && #[trigger] g.conjugation(p) is None;
                    assert(p.len() == self.arity() && self.conjugation(p) is None);
                }
            },
            CircuitGate::CX(g) => {
                g.lemma_clifford();
                if g.clifford() {
                    assert forall|p: Seq<PauliOp>| p.len() == self.arity() implies #[trigger] self.conjugation(
                        p,
                    ) is Some by {
                        assert(g.conjugation(p) is Some);
                    }
                } else {
                    let p = choose|p: Seq<PauliOp>|
                        p.len() == g.arity() && #[trigger] g.conjugation(p) is None;
                    assert(p.len() == self.arity() && self.conjugation(p) is None);
                }
            },
            CircuitGate::CY(g) => {
                g.lemma_clifford();
                if g.clifford() {
                    assert forall|p: Seq<PauliOp>| p.len() == self.arity() implies #[trigger] self.conjugation(
                        p,
                    ) is Some by {
                        assert(g.conjugation(p) is Some);
                    }
                } else {
                    let p = choose|p: Seq<PauliOp>|
                        p.len() == g.arity() && #[trigger] g.conjugation(p) is None;
                    assert(p.len() == self.arity() && self.conjugation(p) is None);
                }
            },
            CircuitGate::CZ(g) => {
                g.lemma_clifford();
                if g.clifford() {
                    assert forall|p: Seq<PauliOp>| p.len() == self.arity() implies #[trigger] self.conjugation(
                        p,
                    ) is Some by {
                        assert(g.conjugation(p) is Some);
                    }
                } else {
                    let p = choose|p: Seq<PauliOp>|
                        p.len() == g.arity() && #[trigger] g.conjugation(p) is None;
                    assert(p.len() == self.arity() && self.conjugation(p) is None);
                }
            },
            CircuitGate::CH(g) => {
                g.lemma_clifford();
                if g.clifford() {
                    assert forall|p: Seq<PauliOp>| p.len() == self.arity() implies #[trigger] self.conjugation(
                        p,
                    ) is Some by {
                        assert(g.conjugation(p) is Some);
                    }
                } else {
                    let p = choose|p: Seq<PauliOp>|
                        p.len() == g.arity() && #[trigger] g.conjugation(p) is None;
                    assert(p.len() == self.arity() && self.conjugation(p) is None);
                }
            },
            CircuitGate::CCX(g) => {
                g.lemma_clifford();
                if g.clifford() {
                    assert forall|p: Seq<PauliOp>| p.len() == self.arity() implies #[trigger] self.conjugation(
                        p,
                    ) is Some by {
                        assert(g.conjugation(p) is Some);
                    }
                } else {
                    let p = choose|p: Seq<PauliOp>|
                        p.len() == g.arity() && #[trigger] g.conjugation(p) is None;
                    assert(p.len() == self.arity() && self.conjugation(p) is None);
                }
            },
            CircuitGate::CCZ(g) => {
                g.lemma_clifford();
                if g.clifford() {
                    assert forall|p: Seq<PauliOp>| p.len() == self.arity() implies #[trigger] self.conjugation(
                        p,
                    ) is Some by {
                        assert(g.conjugation(p) is Some);
                    }
                } else {
                    let p = choose|p: Seq<PauliOp>|
                        p.len() == g.arity() && #[trigger] g.conjugation(p) is None;
                    assert(p.len() == self.arity() && self.conjugation(p) is None);
                }
            },
            CircuitGate::RX(g) => {
                g.lemma_clifford();
                if g.clifford() {
                    assert forall|p: Seq<PauliOp>| p.len() == self.arity() implies #[trigger] self.conjugation(
                        p,
                    ) is Some by {
                        assert(g.conjugation(p) is Some);
                    }
                } else {
                    let p = choose|p: Seq<PauliOp>|
                        p.len() == g.arity() && #[trigger] g.conjugation(p) is None;
                    assert(p.len() == self.arity() && self.conjugation(p) is None);
                }
            },
            CircuitGate::RY(g) => {
                g.lemma_clifford();
                if g.clifford() {
                    assert forall|p: Seq<PauliOp>| p.len() == self.arity() implies #[trigger] self.conjugation(
                        p,
                    ) is Some by {
                        assert(g.conjugation(p) is Some);
                    }
                } else {
                    let p = choose|p: Seq<PauliOp>|
                        p.len() == g.arity() && #[trigger] g.conjugation(p) is None;
                    assert(p.len() == self.arity() && self.conjugation(p) is None);
                }
            },
            CircuitGate::RZ(g) => {
                g.lemma_clifford();
                if g.clifford() {
                    assert forall|p: Seq<PauliOp>| p.len() == self.arity() implies #[trigger] self.conjugation(
                        p,
                    ) is Some by {
                        assert(g.conjugation(p) is Some);
                    }
                } else {
                    let p = choose|p: Seq<PauliOp>|
                        p.len() == g.arity() && #[trigger] g.conjugation(p) is None;
                    assert(p.len() == self.arity() && self.conjugation(p) is None);
                }
            },
            CircuitGate::U1(g) => {
                g.lemma_clifford();
                if g.clifford() {
                    assert forall|p: Seq<PauliOp>| p.len() == self.arity() implies #[trigger] self.conjugation(
                        p,
                    ) is Some by {
                        assert(g.conjugation(p) is Some);
                    }
                } else {
                    let p = choose|p: Seq<PauliOp>|
                        p.len() == g.arity() && #[trigger] g.conjugation(p) is None;
                    assert(p.len() == self.arity() && self.conjugation(p) is None);
                }
            },
            CircuitGate::U2(g) => {
                g.lemma_clifford();
                if g.clifford() {
                    assert forall|p: Seq<PauliOp>| p.len() == self.arity() implies #[trigger] self.conjugation(
                        p,
                    ) is Some by {
                        assert(g.conjugation(p) is Some);
                    }
                } else {
                    let p = choose|p: Seq<PauliOp>|
                        p.len() == g.arity() && #[trigger] g.conjugation(p) is None;
                    assert(p.len() == self.arity() && self.conjugation(p) is None);
                }
            },
            CircuitGate::U3(g) => {
                g.lemma_clifford();
                if g.clifford() {
                    assert forall|p: Seq<PauliOp>| p.len() == self.arity() implies #[trigger] self.conjugation(
                        p,
                    ) is Some by {
                        assert(g.conjugation(p) is Some);
                    }
                } else {
                    let p = choose|p: Seq<PauliOp>|
                        p.len() == g.arity() && #[trigger] g.conjugation(p) is None;
                    assert(p.len() == self.arity() && self.conjugation(p) is None);
                }
            },
            CircuitGate::Controlled(g) => {
                g.lemma_clifford();
                if g.clifford() {
                    assert forall|p: Seq<PauliOp>| p.len() == self.arity() implies #[trigger] self.conjugation(
                        p,
                    ) is Some by {
                        assert(g.conjugation(p) is Some);
                    }
                } else {
                    let p = choose|p: Seq<PauliOp>|
                        p.len() == g.arity() && #[trigger] g.conjugation(p) is None;
                    assert(p.len() == self.arity() && self.conjugation(p) is None);
                }
            },
            CircuitGate::Kron(g) => {
                g.lemma_clifford();
                if g.clifford() {
                    assert forall|p: Seq<PauliOp>| p.len() == self.arity() implies #[trigger] self.conjugation(
                        p,
                    ) is Some by {
                        assert(g.conjugation(p) is Some);
                    }
                } else {
                    let p = choose|p: Seq<PauliOp>|
                        p.len() == g.arity() && #[trigger] g.conjugation(p) is None;
                    assert(p.len() == self.arity() && self.conjugation(p) is None);
                }
            },
        }
    }

    proof fn lemma_conjugation_keeps_commutation(&self, p: Seq<PauliOp>, q: Seq<PauliOp>) {
        match self {
            CircuitGate::I(g) => g.lemma_conjugation_keeps_commutation(p, q),
            CircuitGate::X(g) => g.lemma_conjugation_keeps_commutation(p, q),
            CircuitGate::Y(g) => g.lemma_conjugation_keeps_commutation(p, q),
            CircuitGate::Z(g) => g.lemma_conjugation_keeps_commutation(p, q),
            CircuitGate::H(g) => g.lemma_conjugation_keeps_commutation(p, q),
            CircuitGate::S(g) => g.lemma_conjugation_keeps_commutation(p, q),
            CircuitGate::Sdg(g) => g.lemma_conjugation_keeps_commutation(p, q),
            CircuitGate::T(g) => g.lemma_conjugation_keeps_commutation(p, q),
            CircuitGate::Tdg(g) => g.lemma_conjugation_keeps_commutation(p, q),
            CircuitGate::V(g) => g.lemma_conjugation_keeps_commutation(p, q),
            CircuitGate::Vdg(g) => g.lemma_conjugation_keeps_commutation(p, q),
            CircuitGate::CX(g) => g.lemma_conjugation_keeps_commutation(p, q),
            CircuitGate::CY(g) => g.lemma_conjugation_keeps_commutation(p, q),
            CircuitGate::CZ(g) => g.lemma_conjugation_keeps_commutation(p, q),
            CircuitGate::CH(g) => g.lemma_conjugation_keeps_commutation(p, q),
            CircuitGate::CCX(g) => g.lemma_conjugation_keeps_commutation(p, q),
            CircuitGate::CCZ(g) => g.lemma_conjugation_keeps_commutation(p, q),
            CircuitGate::RX(g) => g.lemma_conjugation_keeps_commutation(p, q),
            CircuitGate::RY(g) => g.lemma_conjugation_keeps_commutation(p, q),
            CircuitGate::RZ(g) => g.lemma_conjugation_keeps_commutation(p, q),
            CircuitGate::U1(g) => g.lemma_conjugation_keeps_commutation(p, q),
            CircuitGate::U2(g) => g.lemma_conjugation_keeps_commutation(p, q),
            CircuitGate::U3(g) => g.lemma_conjugation_keeps_commutation(p, q),
            CircuitGate::Controlled(g) => g.lemma_conjugation_keeps_commutation(p, q),
            CircuitGate::Kron(g) => g.lemma_conjugation_keeps_commutation(p, q),
        }
    }

    proof fn lemma_conjugation_respects_products(&self, p: Seq<PauliOp>, q: Seq<PauliOp>) {
        match self {
            CircuitGate::I(g) => g.lemma_conjugation_respects_products(p, q),
            CircuitGate::X(g) => g.lemma_conjugation_respects_products(p, q),
            CircuitGate::Y(g) => g.lemma_conjugation_respects_products(p, q),
            CircuitGate::Z(g) => g.lemma_conjugation_respects_products(p, q),
            CircuitGate::H(g) => g.lemma_conjugation_respects_products(p, q),
            CircuitGate::S(g) => g.lemma_conjugation_respects_products(p, q),
            CircuitGate::Sdg(g) => g.lemma_conjugation_respects_products(p, q),
            CircuitGate::T(g) => g.lemma_conjugation_respects_products(p, q),
            CircuitGate::Tdg(g) => g.lemma_conjugation_respects_products(p, q),
            CircuitGate::V(g) => g.lemma_conjugation_respects_products(p, q),
            CircuitGate::Vdg(g) => g.lemma_conjugation_respects_products(p, q),
            CircuitGate::CX(g) => g.lemma_conjugation_respects_products(p, q),
            CircuitGate::CY(g) => g.lemma_conjugation_respects_products(p, q),
            CircuitGate::CZ(g) => g.lemma_conjugation_respects_products(p, q),
            CircuitGate::CH(g) => g.lemma_conjugation_respects_products(p, q),
            CircuitGate::CCX(g) => g.lemma_conjugation_respects_products(p, q),
            CircuitGate::CCZ(g) => g.lemma_conjugation_respects_products(p, q),
            CircuitGate::RX(g) => g.lemma_conjugation_respects_products(p, q),
            CircuitGate::RY(g) => g.lemma_conjugation_respects_products(p, q),
            CircuitGate::RZ(g) => g.lemma_conjugation_respects_products(p, q),
            CircuitGate::U1(g) => g.lemma_conjugation_respects_products(p, q),
            CircuitGate::U2(g) => g.lemma_conjugation_respects_products(p, q),
            CircuitGate::U3(g) => g.lemma_conjugation_respects_products(p, q),
            CircuitGate::Controlled(g) => g.lemma_conjugation_respects_products(p, q),
            CircuitGate::Kron(g) => g.lemma_conjugation_respects_products(p, q),
        }
    }

    proof fn lemma_conjugation_kernel(&self, p: Seq<PauliOp>) {
        match self {
            CircuitGate::I(g) => g.lemma_conjugation_kernel(p),
            CircuitGate::X(g) => g.lemma_conjugation_kernel(p),
            CircuitGate::Y(g) => g.lemma_conjugation_kernel(p),
            CircuitGate::Z(g) => g.lemma_conjugation_kernel(p),
            CircuitGate::H(g) => g.lemma_conjugation_kernel(p),
            CircuitGate::S(g) => g.lemma_conjugation_kernel(p),
            CircuitGate::Sdg(g) => g.lemma_conjugation_kernel(p),
            CircuitGate::T(g) => g.lemma_conjugation_kernel(p),
            CircuitGate::Tdg(g) => g.lemma_conjugation_kernel(p),
            CircuitGate::V(g) => g.lemma_conjugation_kernel(p),
            CircuitGate::Vdg(g) => g.lemma_conjugation_kernel(p),
            CircuitGate::CX(g) => g.lemma_conjugation_kernel(p),
            CircuitGate::CY(g) => g.lemma_conjugation_kernel(p),
            CircuitGate::CZ(g) => g.lemma_conjugation_kernel(p),
            CircuitGate::CH(g) => g.lemma_conjugation_kernel(p),
            CircuitGate::CCX(g) => g.lemma_conjugation_kernel(p),
            CircuitGate::CCZ(g) => g.lemma_conjugation_kernel(p),
            CircuitGate::RX(g) => g.lemma_conjugation_kernel(p),
            CircuitGate::RY(g) => g.lemma_conjugation_kernel(p),
            CircuitGate::RZ(g) => g.lemma_conjugation_kernel(p),
            CircuitGate::U1(g) => g.lemma_conjugation_kernel(p),
            CircuitGate::U2(g) => g.lemma_conjugation_kernel(p),
            CircuitGate::U3(g) => g.lemma_conjugation_kernel(p),
            CircuitGate::Controlled(g) => g.lemma_conjugation_kernel(p),
            CircuitGate::Kron(g) => g.lemma_conjugation_kernel(p),
        }
    }

    fn description(&self) -> (s: &str) {
        match self {
            CircuitGate::I(g) => g.description(),
            CircuitGate::X(g) => g.description(),
            CircuitGate::Y(g) => g.description(),
            CircuitGate::Z(g) => g.description(),
            CircuitGate::H(g) => g.description(),
            CircuitGate::S(g) => g.description(),
            CircuitGate::Sdg(g) => g.description(),
            CircuitGate::T(g) => g.description(),
            CircuitGate::Tdg(g) => g.description(),
            CircuitGate::V(g) => g.description(),
            CircuitGate::Vdg(g) => g.description(),
            CircuitGate::CX(g) => g.description(),
            CircuitGate::CY(g) => g.description(),
            CircuitGate::CZ(g) => g.description(),
            CircuitGate::CH(g) => g.description(),
            CircuitGate::CCX(g) => g.description(),
            CircuitGate::CCZ(g) => g.description(),
            CircuitGate::RX(g) => g.description(),
            CircuitGate::RY(g) => g.description(),
            CircuitGate::RZ(g) => g.description(),
            CircuitGate::U1(g) => g.description(),
            CircuitGate::U2(g) => g.description(),
            CircuitGate::U3(g) => g.description(),
            CircuitGate::Controlled(g) => g.description(),
            CircuitGate::Kron(g) => g.description(),
        }
    }

    fn nr_affected_bits(&self) -> (n: usize) {
        match self {
            CircuitGate::I(g) => g.nr_affected_bits(),
            CircuitGate::X(g) => g.nr_affected_bits(),
            CircuitGate::Y(g) => g.nr_affected_bits(),
            CircuitGate::Z(g) => g.nr_affected_bits(),
            CircuitGate::H(g) => g.nr_affected_bits(),
            CircuitGate::S(g) => g.nr_affected_bits(),
            CircuitGate::Sdg(g) => g.nr_affected_bits(),
            CircuitGate::T(g) => g.nr_affected_bits(),
            CircuitGate::Tdg(g) => g.nr_affected_bits(),
            CircuitGate::V(g) => g.nr_affected_bits(),
            CircuitGate::Vdg(g) => g.nr_affected_bits(),
            CircuitGate::CX(g) => g.nr_affected_bits(),
            CircuitGate::CY(g) => g.nr_affected_bits(),
            CircuitGate::CZ(g) => g.nr_affected_bits(),
            CircuitGate::CH(g) => g.nr_affected_bits(),
            CircuitGate::CCX(g) => g.nr_affected_bits(),
            CircuitGate::CCZ(g) => g.nr_affected_bits(),
            CircuitGate::RX(g) => g.nr_affected_bits(),
            CircuitGate::RY(g) => g.nr_affected_bits(),
            CircuitGate::RZ(g) => g.nr_affected_bits(),
            CircuitGate::U1(g) => g.nr_affected_bits(),
            CircuitGate::U2(g) => g.nr_affected_bits(),
            CircuitGate::U3(g) => g.nr_affected_bits(),
            CircuitGate::Controlled(g) => g.nr_affected_bits(),
            CircuitGate::Kron(g) => g.nr_affected_bits(),
        }
    }

    fn is_stabilizer(&self) -> (b: bool) {
        match self {
            CircuitGate::I(g) => g.is_stabilizer(),
            CircuitGate::X(g) => g.is_stabilizer(),
            CircuitGate::Y(g) => g.is_stabilizer(),
            CircuitGate::Z(g) => g.is_stabilizer(),
            CircuitGate::H(g) => g.is_stabilizer(),
            CircuitGate::S(g) => g.is_stabilizer(),
            CircuitGate::Sdg(g) => g.is_stabilizer(),
            CircuitGate::T(g) => g.is_stabilizer(),
            CircuitGate::Tdg(g) => g.is_stabilizer(),
            CircuitGate::V(g) => g.is_stabilizer(),
            CircuitGate::Vdg(g) => g.is_stabilizer(),
            CircuitGate::CX(g) => g.is_stabilizer(),
            CircuitGate::CY(g) => g.is_stabilizer(),
            CircuitGate::CZ(g) => g.is_stabilizer(),
            CircuitGate::CH(g) => g.is_stabilizer(),
            CircuitGate::CCX(g) => g.is_stabilizer(),
            CircuitGate::CCZ(g) => g.is_stabilizer(),
            CircuitGate::RX(g) => g.is_stabilizer(),
            CircuitGate::RY(g) => g.is_stabilizer(),
            CircuitGate::RZ(g) => g.is_stabilizer(),
            CircuitGate::U1(g) => g.is_stabilizer(),
            CircuitGate::U2(g) => g.is_stabilizer(),
            CircuitGate::U3(g) => g.is_stabilizer(),
            CircuitGate::Controlled(g) => g.is_stabilizer(),
            CircuitGate::Kron(g) => g.is_stabilizer(),
        }
    }

    fn conjugate(&self, ops: &mut [PauliOp]) -> (r: Result<bool, Error>) {
        match self {
            CircuitGate::I(g) => g.conjugate(ops),
            CircuitGate::X(g) => g.conjugate(ops),
            CircuitGate::Y(g) => g.conjugate(ops),
            CircuitGate::Z(g) => g.conjugate(ops),
            CircuitGate::H(g) => g.conjugate(ops),
            CircuitGate::S(g) => g.conjugate(ops),
            CircuitGate::Sdg(g) => g.conjugate(ops),
            CircuitGate::T(g) => g.conjugate(ops),
            CircuitGate::Tdg(g) => g.conjugate(ops),
            CircuitGate::V(g) => g.conjugate(ops),
            CircuitGate::Vdg(g) => g.conjugate(ops),
            CircuitGate::CX(g) => g.conjugate(ops),
            CircuitGate::CY(g) => g.conjugate(ops),
            CircuitGate::CZ(g) => g.conjugate(ops),
            CircuitGate::CH(g) => g.conjugate(ops),
            CircuitGate::CCX(g) => g.conjugate(ops),
            CircuitGate::CCZ(g) => g.conjugate(ops),
            CircuitGate::RX(g) => g.conjugate(ops),
            CircuitGate::RY(g) => g.conjugate(ops),
            CircuitGate::RZ(g) => g.conjugate(ops),
            CircuitGate::U1(g) => g.conjugate(ops),
            CircuitGate::U2(g) => g.conjugate(ops),
            CircuitGate::U3(g) => g.conjugate(ops),
            CircuitGate::Controlled(g) => g.conjugate(ops),
            CircuitGate::Kron(g) => g.conjugate(ops),
        }
    }
}

impl<P, G: Gate> CircuitGate<P, G> {
    /// The error of a gate that the format `format` has no text for.
    fn unsupported(&self, format: &str) -> (e: Error)
        ensures
            e matches Error::ExportUnsupported(op, f) && op@ == self.name() && f@ == format@,
    {
        Error::ExportUnsupported(String::from_str(self.description()), String::from_str(format))
    }
}

/// The `V` gate, its conjugate, and the controlled gates made from a target gate
/// have no text in OpenQasm. Two gates side by side have one where both have.
impl<P, G: OpenQasm> OpenQasm for CircuitGate<P, G> {
    open spec fn open_qasm_text(&self, bit_names: Seq<Seq<char>>, bits: Seq<usize>) -> Result<
        Seq<char>,
        Refusal,
    > {
        match self {
            CircuitGate::I(g) => g.open_qasm_text(bit_names, bits),
            CircuitGate::X(g) => g.open_qasm_text(bit_names, bits),
            CircuitGate::Y(g) => g.open_qasm_text(bit_names, bits),
            CircuitGate::Z(g) => g.open_qasm_text(bit_names, bits),
            CircuitGate::H(g) => g.open_qasm_text(bit_names, bits),
            CircuitGate::S(g) => g.open_qasm_text(bit_names, bits),
            CircuitGate::Sdg(g) => g.open_qasm_text(bit_names, bits),
            CircuitGate::T(g) => g.open_qasm_text(bit_names, bits),
            CircuitGate::Tdg(g) => g.open_qasm_text(bit_names, bits),
            CircuitGate::CX(g) => g.open_qasm_text(bit_names, bits),
            CircuitGate::CY(g) => g.open_qasm_text(bit_names, bits),
            CircuitGate::CZ(g) => g.open_qasm_text(bit_names, bits),
            CircuitGate::RX(g) => g.open_qasm_text(bit_names, bits),
            CircuitGate::RY(g) => g.open_qasm_text(bit_names, bits),
            CircuitGate::RZ(g) => g.open_qasm_text(bit_names, bits),
            CircuitGate::U1(g) => g.open_qasm_text(bit_names, bits),
            CircuitGate::U2(g) => g.open_qasm_text(bit_names, bits),
            CircuitGate::U3(g) => g.open_qasm_text(bit_names, bits),
            CircuitGate::Kron(g) => g.open_qasm_text(bit_names, bits),
            _ => Err((Refusal { op: self.name(), format: "OpenQasm"@ })),
        }
    }

    open spec fn conditional_open_qasm_text(
        &self,
        condition: Seq<char>,
        bit_names: Seq<Seq<char>>,
        bits: Seq<usize>,
    ) -> Result<Seq<char>, Refusal> {
        match self {
            CircuitGate::I(g) => g.conditional_open_qasm_text(condition, bit_names, bits),
            CircuitGate::X(g) => g.conditional_open_qasm_text(condition, bit_names, bits),
            CircuitGate::Y(g) => g.conditional_open_qasm_text(condition, bit_names, bits),
            CircuitGate::Z(g) => g.conditional_open_qasm_text(condition, bit_names, bits),
            CircuitGate::H(g) => g.conditional_open_qasm_text(condition, bit_names, bits),
            CircuitGate::S(g) => g.conditional_open_qasm_text(condition, bit_names, bits),
            CircuitGate::Sdg(g) => g.conditional_open_qasm_text(condition, bit_names, bits),
            CircuitGate::T(g) => g.conditional_open_qasm_text(condition, bit_names, bits),
            CircuitGate::Tdg(g) => g.conditional_open_qasm_text(condition, bit_names, bits),
            CircuitGate::CX(g) => g.conditional_open_qasm_text(condition, bit_names, bits),
            CircuitGate::CY(g) => g.conditional_open_qasm_text(condition, bit_names, bits),
            CircuitGate::CZ(g) => g.conditional_open_qasm_text(condition, bit_names, bits),
            CircuitGate::RX(g) => g.conditional_open_qasm_text(condition, bit_names, bits),
            CircuitGate::RY(g) => g.conditional_open_qasm_text(condition, bit_names, bits),
            CircuitGate::RZ(g) => g.conditional_open_qasm_text(condition, bit_names, bits),
            CircuitGate::U1(g) => g.conditional_open_qasm_text(condition, bit_names, bits),
            CircuitGate::U2(g) => g.conditional_open_qasm_text(condition, bit_names, bits),
            CircuitGate::U3(g) => g.conditional_open_qasm_text(condition, bit_names, bits),
            CircuitGate::Kron(g) => g.conditional_open_qasm_text(condition, bit_names, bits),
            _ => Err((Refusal { op: self.name(), format: "OpenQasm"@ })),
        }
    }

    fn open_qasm(&self, bit_names: &[String], bits: &[usize]) -> (r: Result<String, Error>) {
        match self {
            CircuitGate::I(g) => g.open_qasm(bit_names, bits),
            CircuitGate::X(g) => g.open_qasm(bit_names, bits),
            CircuitGate::Y(g) => g.open_qasm(bit_names, bits),
            CircuitGate::Z(g) => g.open_qasm(bit_names, bits),
            CircuitGate::H(g) => g.open_qasm(bit_names, bits),
            CircuitGate::S(g) => g.open_qasm(bit_names, bits),
            CircuitGate::Sdg(g) => g.open_qasm(bit_names, bits),
            CircuitGate::T(g) => g.open_qasm(bit_names, bits),
            CircuitGate::Tdg(g) => g.open_qasm(bit_names, bits),
            CircuitGate::CX(g) => g.open_qasm(bit_names, bits),
            CircuitGate::CY(g) => g.open_qasm(bit_names, bits),
            CircuitGate::CZ(g) => g.open_qasm(bit_names, bits),
            CircuitGate::RX(g) => g.open_qasm(bit_names, bits),
            CircuitGate::RY(g) => g.open_qasm(bit_names, bits),
            CircuitGate::RZ(g) => g.open_qasm(bit_names, bits),
            CircuitGate::U1(g) => g.open_qasm(bit_names, bits),
            CircuitGate::U2(g) => g.open_qasm(bit_names, bits),
            CircuitGate::U3(g) => g.open_qasm(bit_names, bits),
            CircuitGate::Kron(g) => g.open_qasm(bit_names, bits),
            _ => Err(self.unsupported("OpenQasm")),
        }
    }

    fn conditional_open_qasm(&self, condition: &str, bit_names: &[String], bits: &[usize]) -> (r:
        Result<String, Error>) {
        match self {
            CircuitGate::I(g) => g.conditional_open_qasm(condition, bit_names, bits),
            CircuitGate::X(g) => g.conditional_open_qasm(condition, bit_names, bits),
            CircuitGate::Y(g) => g.conditional_open_qasm(condition, bit_names, bits),
            CircuitGate::Z(g) => g.conditional_open_qasm(condition, bit_names, bits),
            CircuitGate::H(g) => g.conditional_open_qasm(condition, bit_names, bits),
            CircuitGate::S(g) => g.conditional_open_qasm(condition, bit_names, bits),
            CircuitGate::Sdg(g) => g.conditional_open_qasm(condition, bit_names, bits),
            CircuitGate::T(g) => g.conditional_open_qasm(condition, bit_names, bits),
            CircuitGate::Tdg(g) => g.conditional_open_qasm(condition, bit_names, bits),
            CircuitGate::CX(g) => g.conditional_open_qasm(condition, bit_names, bits),
            CircuitGate::CY(g) => g.conditional_open_qasm(condition, bit_names, bits),
            CircuitGate::CZ(g) => g.conditional_open_qasm(condition, bit_names, bits),
            CircuitGate::RX(g) => g.conditional_open_qasm(condition, bit_names, bits),
            CircuitGate::RY(g) => g.conditional_open_qasm(condition, bit_names, bits),
            CircuitGate::RZ(g) => g.conditional_open_qasm(condition, bit_names, bits),
            CircuitGate::U1(g) => g.conditional_open_qasm(condition, bit_names, bits),
            CircuitGate::U2(g) => g.conditional_open_qasm(condition, bit_names, bits),
            CircuitGate::U3(g) => g.conditional_open_qasm(condition, bit_names, bits),
            CircuitGate::Kron(g) => g.conditional_open_qasm(condition, bit_names, bits),
            _ => Err(self.unsupported("OpenQasm")),
        }
    }
}

/// The `V` gate, its conjugate, the controlled `Y` gate, the `U2` gate, and the
/// controlled gates made from a target gate have no text in c-Qasm. Two gates side
/// by side have one where both have.
impl<P, G: CQasm> CQasm for CircuitGate<P, G> {
    open spec fn c_qasm_text(&self, bit_names: Seq<Seq<char>>, bits: Seq<usize>) -> Result<
        Seq<char>,
        Refusal,
    > {
        match self {
            CircuitGate::I(g) => g.c_qasm_text(bit_names, bits),
            CircuitGate::X(g) => g.c_qasm_text(bit_names, bits),
            CircuitGate::Y(g) => g.c_qasm_text(bit_names, bits),
            CircuitGate::Z(g) => g.c_qasm_text(bit_names, bits),
            CircuitGate::H(g) => g.c_qasm_text(bit_names, bits),
            CircuitGate::S(g) => g.c_qasm_text(bit_names, bits),
            CircuitGate::Sdg(g) => g.c_qasm_text(bit_names, bits),
            CircuitGate::T(g) => g.c_qasm_text(bit_names, bits),
            CircuitGate::Tdg(g) => g.c_qasm_text(bit_names, bits),
            CircuitGate::CX(g) => g.c_qasm_text(bit_names, bits),
            CircuitGate::CZ(g) => g.c_qasm_text(bit_names, bits),
            CircuitGate::RX(g) => g.c_qasm_text(bit_names, bits),
            CircuitGate::RY(g) => g.c_qasm_text(bit_names, bits),
            CircuitGate::RZ(g) => g.c_qasm_text(bit_names, bits),
            CircuitGate::U1(g) => g.c_qasm_text(bit_names, bits),
            CircuitGate::U3(g) => g.c_qasm_text(bit_names, bits),
            CircuitGate::Kron(g) => g.c_qasm_text(bit_names, bits),
            _ => Err((Refusal { op: self.name(), format: "c-Qasm"@ })),
        }
    }

    open spec fn conditional_c_qasm_text(
        &self,
        condition: Seq<char>,
        bit_names: Seq<Seq<char>>,
        bits: Seq<usize>,
    ) -> Result<Seq<char>, Refusal> {
        match self {
            CircuitGate::I(g) => g.conditional_c_qasm_text(condition, bit_names, bits),
            CircuitGate::X(g) => g.conditional_c_qasm_text(condition, bit_names, bits),
            CircuitGate::Y(g) => g.conditional_c_qasm_text(condition, bit_names, bits),
            CircuitGate::Z(g) => g.conditional_c_qasm_text(condition, bit_names, bits),
            CircuitGate::H(g) => g.conditional_c_qasm_text(condition, bit_names, bits),
            CircuitGate::S(g) => g.conditional_c_qasm_text(condition, bit_names, bits),
            CircuitGate::Sdg(g) => g.conditional_c_qasm_text(condition, bit_names, bits),
            CircuitGate::T(g) => g.conditional_c_qasm_text(condition, bit_names, bits),
            CircuitGate::Tdg(g) => g.conditional_c_qasm_text(condition, bit_names, bits),
            CircuitGate::CX(g) => g.conditional_c_qasm_text(condition, bit_names, bits),
            CircuitGate::CZ(g) => g.conditional_c_qasm_text(condition, bit_names, bits),
            CircuitGate::RX(g) => g.conditional_c_qasm_text(condition, bit_names, bits),
            CircuitGate::RY(g) => g.conditional_c_qasm_text(condition, bit_names, bits),
            CircuitGate::RZ(g) => g.conditional_c_qasm_text(condition, bit_names, bits),
            CircuitGate::U1(g) => g.conditional_c_qasm_text(condition, bit_names, bits),
            CircuitGate::U3(g) => g.conditional_c_qasm_text(condition, bit_names, bits),
            CircuitGate::Kron(g) => g.conditional_c_qasm_text(condition, bit_names, bits),
            _ => Err((Refusal { op: self.name(), format: "c-Qasm"@ })),
        }
    }

    fn c_qasm(&self, bit_names: &[String], bits: &[usize]) -> (r: Result<String, Error>) {
        match self {
            CircuitGate::I(g) => g.c_qasm(bit_names, bits),
            CircuitGate::X(g) => g.c_qasm(bit_names, bits),
            CircuitGate::Y(g) => g.c_qasm(bit_names, bits),
            CircuitGate::Z(g) => g.c_qasm(bit_names, bits),
            CircuitGate::H(g) => g.c_qasm(bit_names, bits),
            CircuitGate::S(g) => g.c_qasm(bit_names, bits),
            CircuitGate::Sdg(g) => g.c_qasm(bit_names, bits),
            CircuitGate::T(g) => g.c_qasm(bit_names, bits),
            CircuitGate::Tdg(g) => g.c_qasm(bit_names, bits),
            CircuitGate::CX(g) => g.c_qasm(bit_names, bits),
            CircuitGate::CZ(g) => g.c_qasm(bit_names, bits),
            CircuitGate::RX(g) => g.c_qasm(bit_names, bits),
            CircuitGate::RY(g) => g.c_qasm(bit_names, bits),
            CircuitGate::RZ(g) => g.c_qasm(bit_names, bits),
            CircuitGate::U1(g) => g.c_qasm(bit_names, bits),
            CircuitGate::U3(g) => g.c_qasm(bit_names, bits),
            CircuitGate::Kron(g) => g.c_qasm(bit_names, bits),
            _ => Err(self.unsupported("c-Qasm")),
        }
    }

    fn conditional_c_qasm(&self, condition: &str, bit_names: &[String], bits: &[usize]) -> (r:
        Result<String, Error>) {
        match self {
            CircuitGate::I(g) => g.conditional_c_qasm(condition, bit_names, bits),
            CircuitGate::X(g) => g.conditional_c_qasm(condition, bit_names, bits),
            CircuitGate::Y(g) => g.conditional_c_qasm(condition, bit_names, bits),
            CircuitGate::Z(g) => g.conditional_c_qasm(condition, bit_names, bits),
            CircuitGate::H(g) => g.conditional_c_qasm(condition, bit_names, bits),
            CircuitGate::S(g) => g.conditional_c_qasm(condition, bit_names, bits),
            CircuitGate::Sdg(g) => g.conditional_c_qasm(condition, bit_names, bits),
            CircuitGate::T(g) => g.conditional_c_qasm(condition, bit_names, bits),
            CircuitGate::Tdg(g) => g.conditional_c_qasm(condition, bit_names, bits),
            CircuitGate::CX(g) => g.conditional_c_qasm(condition, bit_names, bits),
            CircuitGate::CZ(g) => g.conditional_c_qasm(condition, bit_names, bits),
            CircuitGate::RX(g) => g.conditional_c_qasm(condition, bit_names, bits),
            CircuitGate::RY(g) => g.conditional_c_qasm(condition, bit_names, bits),
            CircuitGate::RZ(g) => g.conditional_c_qasm(condition, bit_names, bits),
            CircuitGate::U1(g) => g.conditional_c_qasm(condition, bit_names, bits),
            CircuitGate::U3(g) => g.conditional_c_qasm(condition, bit_names, bits),
            CircuitGate::Kron(g) => g.conditional_c_qasm(condition, bit_names, bits),
            _ => Err(self.unsupported("c-Qasm")),
        }
    }
}

} // verus!
