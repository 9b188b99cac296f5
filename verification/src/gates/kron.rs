//! The Kronecker product of two gates.

use vstd::prelude::*;
use vstd::slice::slice_subrange;
use crate::arithmetic::Square;
use crate::error::Error;
use crate::export::CQasm;
use crate::export::OpenQasm;
use crate::export::Refusal;
use crate::gates::Gate;
use crate::stabilizer::all_identity;
use crate::stabilizer::lemma_parity_concat;
use crate::stabilizer::lemma_phase_parity;
use crate::stabilizer::lemma_product_concat;
use crate::stabilizer::PauliOp;
use crate::stabilizer::string_times;

verus! {

/// Gate describing the Kronecker product of two other gates operating on
/// different qubits: the first gate works on the first qubits, the second gate on
/// the qubits after them.
pub struct Kron<G0: Gate, G1: Gate> {
    g0: G0,
    g1: G1,
    desc: String,
}

/// The operators of `ops` from position `from` up to `to`, copied.
fn copy_range(ops: &[PauliOp], from: usize, to: usize) -> (part: Vec<PauliOp>)
    requires
        from <= to <= ops@.len(),
    ensures
        part@ == ops@.subrange(from as int, to as int),
{
    let mut part: Vec<PauliOp> = Vec::new();
    let mut k: usize = from;
    while k < to
        invariant
            from <= k <= to,
            to <= ops@.len(),
            part@ == ops@.subrange(from as int, k as int),
        decreases to - k,
    {
        part.push(ops[k]);
        assert(part@ =~= ops@.subrange(from as int, k + 1));
        k += 1;
    }
    part
}

/// Write `part` into `ops` from position `from` on.
fn write_range(ops: &mut [PauliOp], from: usize, part: &Vec<PauliOp>)
    requires
        from + part@.len() <= old(ops)@.len(),
    ensures
        final(ops)@ == old(ops)@.take(from as int) + part@ + old(ops)@.skip(
            from + part@.len() as int,
        ),
{
    let ghost before = ops@;
    let n: usize = ops.len();
    let mut k: usize = 0;
    while k < part.len()
        invariant
            k <= part@.len(),
            before.len() == n,
            from + part@.len() <= before.len(),
            ops@.len() == before.len(),
            ops@ == before.take(from as int) + part@.take(k as int) + before.skip(from + k as int),
        decreases part.len() - k,
    {
        ops[from + k] = part[k];
        assert(ops@ =~= before.take(from as int) + part@.take(k + 1) + before.skip(from + k + 1));
        k += 1;
    }
    assert(part@.take(part@.len() as int) =~= part@);
}

impl<G0: Gate, G1: Gate> Kron<G0, G1> {
    #[verifier::type_invariant]
    spec fn inv(self) -> bool {
        &&& self.g0.arity() + self.g1.arity() <= usize::MAX
        &&& self.desc@ == self.g0.name() + "⊗"@ + self.g1.name()
    }

    /// The factor that acts on the first qubits.
    pub closed spec fn first(&self) -> G0 {
        self.g0
    }

    /// The factor that acts on the qubits after those of the first.
    pub closed spec fn second(&self) -> G1 {
        self.g1
    }

    /// The description of the product: those of the two gates around the sign `⊗`.
    pub closed spec fn text(&self) -> Seq<char> {
        self.desc@
    }

    /// The factor that acts on the first qubits.
    pub fn g0(&self) -> (g: &G0)
        ensures
            *g == self.first(),
    {
        &self.g0
    }

    /// The factor that acts on the qubits after those of the first.
    pub fn g1(&self) -> (g: &G1)
        ensures
            *g == self.second(),
    {
        &self.g1
    }

    /// Create a new Kronecker product gate `g0` ⊗ `g1`.
    pub fn new(g0: G0, g1: G1) -> (g: Self)
        requires
            g0.arity() + g1.arity() <= usize::MAX,
        ensures
            g.first() == g0,
            g.second() == g1,
            g.text() == g0.name() + "⊗"@ + g1.name(),
    {
        let mut desc = String::from_str(g0.description());
        desc.append("⊗");
        desc.append(g1.description());
        Kron { g0: g0, g1: g1, desc: desc }
    }
}

impl<G0: Gate, G1: Gate> Gate for Kron<G0, G1> {
    open spec fn arity(&self) -> nat {
        self.first().arity() + self.second().arity()
    }

    open spec fn name(&self) -> Seq<char> {
        self.text()
    }

    open spec fn clifford(&self) -> bool {
        self.first().clifford() && self.second().clifford()
    }

    open spec fn conjugation(&self, ops: Seq<PauliOp>) -> Option<(Seq<PauliOp>, bool)> {
        let n0 = self.first().arity() as int;
        match self.first().conjugation(ops.take(n0)) {
            Some(head) => match self.second().conjugation(ops.skip(n0)) {
                Some(tail) => Some((head.0 + tail.0, head.1 != tail.1)),
                None => None,
            },
            None => None,
        }
    }

    open spec fn culprit(&self, ops: Seq<PauliOp>) -> Seq<char> {
        let n0 = self.first().arity() as int;
        match self.first().conjugation(ops.take(n0)) {
            Some(head) => self.second().culprit(ops.skip(n0)),
            None => self.first().culprit(ops.take(n0)),
        }
    }

    proof fn lemma_clifford(&self) {
        let n0 = self.first().arity();
        let n1 = self.second().arity();
        self.first().lemma_clifford();
        self.second().lemma_clifford();
        if forall|p: Seq<PauliOp>| p.len() == self.arity() ==> #[trigger] self.conjugation(p) is Some {
            assert forall|p_head: Seq<PauliOp>| p_head.len() == n0 implies #[trigger] self.first().conjugation(
                p_head,
            ) is Some by {
                let p = p_head + Seq::new(n1, |j: int| PauliOp::I);
                assert(self.conjugation(p) is Some);
                assert(p.take(n0 as int) =~= p_head);
            }
            assert forall|p_tail: Seq<PauliOp>| p_tail.len() == n1 implies #[trigger] self.second().conjugation(
                p_tail,
            ) is Some by {
                let p = Seq::new(n0, |j: int| PauliOp::I) + p_tail;
                assert(self.conjugation(p) is Some);
                assert(p.skip(n0 as int) =~= p_tail);
            }
        }
        if self.clifford() {
            assert forall|p: Seq<PauliOp>| p.len() == self.arity() implies #[trigger] self.conjugation(
                p,
            ) is Some by {
                assert(self.first().conjugation(p.take(n0 as int)) is Some);
                assert(self.second().conjugation(p.skip(n0 as int)) is Some);
            }
        }
    }

    proof fn lemma_conjugation_keeps_commutation(&self, p: Seq<PauliOp>, q: Seq<PauliOp>) {
        let n0 = self.first().arity() as int;
        let (p_head, p_tail) = (p.take(n0), p.skip(n0));
        let (q_head, q_tail) = (q.take(n0), q.skip(n0));
        self.first().lemma_conjugation_keeps_commutation(p_head, q_head);
        self.second().lemma_conjugation_keeps_commutation(p_tail, q_tail);
        if self.conjugation(p) is Some && self.conjugation(q) is Some {
            self.first().lemma_conjugation_keeps_commutation(q_head, p_head);
            self.second().lemma_conjugation_keeps_commutation(q_tail, p_tail);
            assert(p =~= p_head + p_tail);
            assert(q =~= q_head + q_tail);
            lemma_parity_concat(p_head, p_tail, q_head, q_tail);
            lemma_parity_concat(
                self.first().conjugation(p_head).unwrap().0,
                self.second().conjugation(p_tail).unwrap().0,
                self.first().conjugation(q_head).unwrap().0,
                self.second().conjugation(q_tail).unwrap().0,
            );
        }
    }

    proof fn lemma_conjugation_respects_products(&self, p: Seq<PauliOp>, q: Seq<PauliOp>) {
        let n0 = self.first().arity() as int;
        let (p_head, p_tail) = (p.take(n0), p.skip(n0));
        let (q_head, q_tail) = (q.take(n0), q.skip(n0));
        if self.conjugation(p) is Some && self.conjugation(q) is Some {
            self.first().lemma_conjugation_respects_products(p_head, q_head);
            self.second().lemma_conjugation_respects_products(p_tail, q_tail);
            self.first().lemma_conjugation_keeps_commutation(p_head, q_head);
            self.first().lemma_conjugation_keeps_commutation(q_head, p_head);
            self.second().lemma_conjugation_keeps_commutation(p_tail, q_tail);
            self.second().lemma_conjugation_keeps_commutation(q_tail, p_tail);
            let r = string_times(p, q);
            assert(p =~= p_head + p_tail);
            assert(q =~= q_head + q_tail);
            lemma_product_concat(p_head, p_tail, q_head, q_tail);
            assert(r.take(n0) =~= string_times(p_head, q_head));
            assert(r.skip(n0) =~= string_times(p_tail, q_tail));
            let ih = self.first().conjugation(p_head).unwrap();
            let it = self.second().conjugation(p_tail).unwrap();
            let jh = self.first().conjugation(q_head).unwrap();
            let jt = self.second().conjugation(q_tail).unwrap();
            lemma_product_concat(ih.0, it.0, jh.0, jt.0);
            lemma_phase_parity(p_head, q_head);
            lemma_phase_parity(p_tail, q_tail);
            lemma_phase_parity(ih.0, jh.0);
            lemma_phase_parity(it.0, jt.0);
        }
    }

    proof fn lemma_conjugation_kernel(&self, p: Seq<PauliOp>) {
        let n0 = self.first().arity() as int;
        let (p_head, p_tail) = (p.take(n0), p.skip(n0));
        self.first().lemma_conjugation_kernel(p_head);
        self.second().lemma_conjugation_kernel(p_tail);
        self.first().lemma_conjugation_keeps_commutation(p_head, p_head);
        if self.conjugation(p) is Some && all_identity(self.conjugation(p).unwrap().0) {
            let ih = self.first().conjugation(p_head).unwrap().0;
            let it = self.second().conjugation(p_tail).unwrap().0;
            let ip = self.conjugation(p).unwrap().0;
            assert forall|j: int| 0 <= j < ih.len() implies #[trigger] ih[j] == PauliOp::I by {
                assert(ip[j] == ih[j]);
            }
            assert forall|j: int| 0 <= j < it.len() implies #[trigger] it[j] == PauliOp::I by {
                assert(ip[n0 + j] == it[j]);
            }
            assert forall|j: int| 0 <= j < p.len() implies #[trigger] p[j] == PauliOp::I by {
                if j < n0 {
                    assert(p_head[j] == p[j]);
                } else {
                    assert(p_tail[j - n0] == p[j]);
                }
            }
        }
    }

    fn description(&self) -> (s: &str) {
        self.desc.as_str()
    }

    fn nr_affected_bits(&self) -> (n: usize) {
        proof {
            use_type_invariant(self);
        }
        self.g0.nr_affected_bits() + self.g1.nr_affected_bits()
    }

    fn is_stabilizer(&self) -> (b: bool) {
        self.g0.is_stabilizer() && self.g1.is_stabilizer()
    }

    fn conjugate(&self, ops: &mut [PauliOp]) -> (r: Result<bool, Error>) {
        proof {
            use_type_invariant(self);
        }
        let n: usize = ops.len();
        if n != self.nr_affected_bits() {
            return Err(Error::InvalidBitCount);
        }
        let ghost before = ops@;
        let n0: usize = self.g0.nr_affected_bits();
        let mut head: Vec<PauliOp> = copy_range(ops, 0, n0);
        let mut tail: Vec<PauliOp> = copy_range(ops, n0, n);
        assert(head@ =~= before.take(n0 as int));
        assert(tail@ =~= before.skip(n0 as int));
        let flip0: bool = match self.g0.conjugate(head.as_mut_slice()) {
            Ok(flip) => flip,
            Err(e) => {
                return Err(e);
            },
        };
        let flip1: bool = match self.g1.conjugate(tail.as_mut_slice()) {
            Ok(flip) => flip,
            Err(e) => {
                return Err(e);
            },
        };
        write_range(ops, 0, &head);
        write_range(ops, n0, &tail);
        assert(ops@ =~= head@ + tail@);
        Ok(flip0 != flip1)
    }
}

impl<G0: OpenQasm, G1: OpenQasm> OpenQasm for Kron<G0, G1> {
    open spec fn open_qasm_text(&self, bit_names: Seq<Seq<char>>, bits: Seq<usize>) -> Result<
        Seq<char>,
        Refusal,
    > {
        let n0 = self.first().arity() as int;
        match self.first().open_qasm_text(bit_names, bits.take(n0)) {
            Ok(op0) => match self.second().open_qasm_text(bit_names, bits.skip(n0)) {
                Ok(op1) => Ok(op0 + "; "@ + op1),
                Err(refusal) => Err(refusal),
            },
            Err(refusal) => Err(refusal),
        }
    }

    open spec fn conditional_open_qasm_text(
        &self,
        condition: Seq<char>,
        bit_names: Seq<Seq<char>>,
        bits: Seq<usize>,
    ) -> Result<Seq<char>, Refusal> {
        let n0 = self.first().arity() as int;
        match self.first().conditional_open_qasm_text(condition, bit_names, bits.take(n0)) {
            Ok(op0) => match self.second().conditional_open_qasm_text(
                condition,
                bit_names,
                bits.skip(n0),
            ) {
                Ok(op1) => Ok(op0 + "; "@ + op1),
                Err(refusal) => Err(refusal),
            },
            Err(refusal) => Err(refusal),
        }
    }

    fn open_qasm(&self, bit_names: &[String], bits: &[usize]) -> (r: Result<String, Error>) {
        proof {
            use_type_invariant(self);
        }
        let n0: usize = self.g0.nr_affected_bits();
        let bits0 = slice_subrange(bits, 0, n0);
        let bits1 = slice_subrange(bits, n0, bits.len());
        assert(bits0@ =~= bits@.take(n0 as int));
        assert(bits1@ =~= bits@.skip(n0 as int));
        let mut text: String = match self.g0.open_qasm(bit_names, bits0) {
            Ok(op0) => op0,
            Err(e) => {
                return Err(e);
            },
        };
        let op1: String = match self.g1.open_qasm(bit_names, bits1) {
            Ok(op1) => op1,
            Err(e) => {
                return Err(e);
            },
        };
        text.append("; ");
        text.append(op1.as_str());
        Ok(text)
    }

    fn conditional_open_qasm(&self, condition: &str, bit_names: &[String], bits: &[usize]) -> (r:
        Result<String, Error>) {
        proof {
            use_type_invariant(self);
        }
        let n0: usize = self.g0.nr_affected_bits();
        let bits0 = slice_subrange(bits, 0, n0);
        let bits1 = slice_subrange(bits, n0, bits.len());
        assert(bits0@ =~= bits@.take(n0 as int));
        assert(bits1@ =~= bits@.skip(n0 as int));
        let mut text: String = match self.g0.conditional_open_qasm(condition, bit_names, bits0) {
            Ok(op0) => op0,
            Err(e) => {
                return Err(e);
            },
        };
        let op1: String = match self.g1.conditional_open_qasm(condition, bit_names, bits1) {
            Ok(op1) => op1,
            Err(e) => {
                return Err(e);
            },
        };
        text.append("; ");
        text.append(op1.as_str());
        Ok(text)
    }
}

impl<G0: CQasm, G1: CQasm> CQasm for Kron<G0, G1> {
    open spec fn c_qasm_text(&self, bit_names: Seq<Seq<char>>, bits: Seq<usize>) -> Result<
        Seq<char>,
        Refusal,
    > {
        let n0 = self.first().arity() as int;
        match self.first().c_qasm_text(bit_names, bits.take(n0)) {
            Ok(op0) => match self.second().c_qasm_text(bit_names, bits.skip(n0)) {
                Ok(op1) => Ok("{ "@ + op0 + " | "@ + op1 + " }"@),
                Err(refusal) => Err(refusal),
            },
            Err(refusal) => Err(refusal),
        }
    }

    open spec fn conditional_c_qasm_text(
        &self,
        condition: Seq<char>,
        bit_names: Seq<Seq<char>>,
        bits: Seq<usize>,
    ) -> Result<Seq<char>, Refusal> {
        let n0 = self.first().arity() as int;
        match self.first().conditional_c_qasm_text(condition, bit_names, bits.take(n0)) {
            Ok(op0) => match self.second().conditional_c_qasm_text(
                condition,
                bit_names,
                bits.skip(n0),
            ) {
                Ok(op1) => Ok(op0 + "\n"@ + op1),
                Err(refusal) => Err(refusal),
            },
            Err(refusal) => Err(refusal),
        }
    }

    fn c_qasm(&self, bit_names: &[String], bits: &[usize]) -> (r: Result<String, Error>) {
        proof {
            use_type_invariant(self);
        }
        let n0: usize = self.g0.nr_affected_bits();
        let bits0 = slice_subrange(bits, 0, n0);
        let bits1 = slice_subrange(bits, n0, bits.len());
        assert(bits0@ =~= bits@.take(n0 as int));
        assert(bits1@ =~= bits@.skip(n0 as int));
        let op0: String = match self.g0.c_qasm(bit_names, bits0) {
            Ok(op0) => op0,
            Err(e) => {
                return Err(e);
            },
        };
        let op1: String = match self.g1.c_qasm(bit_names, bits1) {
            Ok(op1) => op1,
            Err(e) => {
                return Err(e);
            },
        };
        let mut text = String::from_str("{ ");
        text.append(op0.as_str());
        text.append(" | ");
        text.append(op1.as_str());
        text.append(" }");
        Ok(text)
    }

    fn conditional_c_qasm(&self, condition: &str, bit_names: &[String], bits: &[usize]) -> (r:
        Result<String, Error>) {
        proof {
            use_type_invariant(self);
        }
        let n0: usize = self.g0.nr_affected_bits();
        let bits0 = slice_subrange(bits, 0, n0);
        let bits1 = slice_subrange(bits, n0, bits.len());
        assert(bits0@ =~= bits@.take(n0 as int));
        assert(bits1@ =~= bits@.skip(n0 as int));
        let mut text: String = match self.g0.conditional_c_qasm(condition, bit_names, bits0) {
            Ok(op0) => op0,
            Err(e) => {
                return Err(e);
            },
        };
        let op1: String = match self.g1.conditional_c_qasm(condition, bit_names, bits1) {
            Ok(op1) => op1,
            Err(e) => {
                return Err(e);
            },
        };
        text.append("\n");
        text.append(op1.as_str());
        Ok(text)
    }
}

/// The square of a product is the product of the squares, where both are
/// available.
impl<G0: Square, G1: Square> Square for Kron<G0, G1> {
    type SqType = Kron<G0::SqType, G1::SqType>;

    open spec fn has_square(&self) -> bool {
        self.first().has_square() && self.second().has_square()
    }

    open spec fn is_square(&self, sq: Kron<G0::SqType, G1::SqType>) -> bool {
        &&& self.first().is_square(sq.first())
        &&& self.second().is_square(sq.second())
        &&& sq.text() == sq.first().name() + "⊗"@ + sq.second().name()
    }

    proof fn lemma_square_arity(&self, sq: Kron<G0::SqType, G1::SqType>) {
        self.first().lemma_square_arity(sq.first());
        self.second().lemma_square_arity(sq.second());
    }

    fn square(&self) -> (r: Result<Kron<G0::SqType, G1::SqType>, Error>) {
        proof {
            use_type_invariant(self);
        }
        if let Ok(g0sq) = self.g0.square() {
            if let Ok(g1sq) = self.g1.square() {
                proof {
                    self.g0.lemma_square_arity(g0sq);
                    self.g1.lemma_square_arity(g1sq);
                }
                return Ok(Kron::new(g0sq, g1sq));
            }
        }
        Err(Error::OpNotImplemented(String::from_str("square"), self.desc.clone()))
    }
}

} // verus!
