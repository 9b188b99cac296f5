//! Circuits as programs in OpenQasm and in c-Qasm.

use vstd::prelude::*;
use crate::circuit::all_below;
use crate::circuit::Basis;
use crate::circuit::check_all_below;
use crate::circuit::Circuit;
use crate::circuit::CircuitOp;
use crate::circuit::op_valid;
use crate::error::Error;
use crate::export::bit_list;
use crate::export::CQasm;
use crate::export::join_bit_names;
use crate::export::names;
use crate::export::OpenQasm;
use crate::export::refused;
use crate::export::Refusal;
use crate::gates::Gate;
use crate::permutation::is_permutation;
use crate::permutation::Permutation;
use crate::register::bit_of;
use crate::stabilizer::covers;
use crate::text::decimal;
use crate::text::decimal_text;

verus! {

/// The name of bit `i` of the register `register`: the index in square brackets
/// after the name of the register.
pub open spec fn bit_name(register: Seq<char>, i: nat) -> Seq<char> {
    register + "["@ + decimal(i) + "]"@
}

/// The names of the bits of the register `register` of `n` bits.
pub open spec fn bit_names(register: Seq<char>, n: nat) -> Seq<Seq<char>> {
    Seq::new(n, |i: int| bit_name(register, i as nat))
}

/// The names of the bits of the register `register` of `n` bits.
pub fn make_bit_names(register: &str, n: usize) -> (v: Vec<String>)
    ensures
        names(v@) == bit_names(register@, n as nat),
{
    let mut v: Vec<String> = Vec::new();
    let mut i: usize = 0;
    while i < n
        invariant
            i <= n,
            v@.len() == i,
            forall|k: int| 0 <= k < i ==> (#[trigger] v@[k])@ == bit_name(register@, k as nat),
        decreases n - i,
    {
        let mut name = String::from_str(register);
        name.append("[");
        let index = decimal_text(i as u64);
        name.append(index.as_str());
        name.append("]");
        v.push(name);
        i += 1;
    }
    assert(names(v@) =~= bit_names(register@, n as nat));
    v
}

/// The control list names every classical bit of the register once, in any order.
pub open spec fn full_register(control: Seq<usize>, nr_cbits: nat) -> bool {
    control.len() == nr_cbits && is_permutation(control)
}

/// Whether the control list names every classical bit of the register once.
pub fn is_full_register(control: &[usize], nr_cbits: usize) -> (full: bool)
    ensures
        full == full_register(control@, nr_cbits as nat),
{
    if control.len() != nr_cbits {
        return false;
    }
    let copy: Vec<usize> = vstd::slice::slice_to_vec(control);
    Permutation::new(copy).is_some()
}

/// Whether `idxs` is the list `0, 1, .., n - 1`.
pub open spec fn in_order(idxs: Seq<usize>, n: nat) -> bool {
    idxs.len() == n && forall|i: int| 0 <= i < n ==> #[trigger] idxs[i] == i
}

/// Whether `idxs` is the list `0, 1, .., n - 1`.
pub fn is_in_order(idxs: &[usize], n: usize) -> (ok: bool)
    ensures
        ok == in_order(idxs@, n as nat),
{
    if idxs.len() != n {
        return false;
    }
    let mut i: usize = 0;
    while i < n
        invariant
            i <= n,
            n == idxs@.len(),
            forall|k: int| 0 <= k < i ==> #[trigger] idxs@[k] == k,
        decreases n - i,
    {
        if idxs[i] != i {
            return false;
        }
        i += 1;
    }
    true
}

/// OpenQasm can only test the whole classical register against a number: a
/// condition on part of the register has no text.
pub fn check_open_qasm_condition_bits(control: &[usize], nr_cbits: usize) -> (r: Result<
    (),
    Error,
>)
    ensures
        full_register(control@, nr_cbits as nat) ==> r is Ok,
        !full_register(control@, nr_cbits as nat) ==> (r matches Err(
            Error::ExportUnsupported(op, format),
        ) && op@ == "condition on part of the classical register"@ && format@ == "OpenQasm"@),
{
    if !is_full_register(control, nr_cbits) {
        Err(
            Error::ExportUnsupported(
                String::from_str("condition on part of the classical register"),
                String::from_str("OpenQasm"),
            ),
        )
    } else {
        Ok(())
    }
}

/// In c-Qasm no classical register can be named: a measurement goes to the
/// classical bit with the index of the qubit.
pub fn check_c_qasm_measurement(qbit: usize, cbit: usize) -> (r: Result<(), Error>)
    ensures
        qbit == cbit ==> r is Ok,
        qbit != cbit ==> (r matches Err(Error::ExportUnsupported(op, format)) && op@
            == "measurement into the classical bit of another index"@ && format@ == "c-Qasm"@),
{
    if qbit != cbit {
        Err(c_qasm_measurement_error())
    } else {
        Ok(())
    }
}

/// The error for a measurement that c-Qasm cannot express.
fn c_qasm_measurement_error() -> (e: Error)
    ensures
        e matches Error::ExportUnsupported(op, format) && op@
            == "measurement into the classical bit of another index"@ && format@ == "c-Qasm"@,
{
    Error::ExportUnsupported(
        String::from_str("measurement into the classical bit of another index"),
        String::from_str("c-Qasm"),
    )
}

/// The target word of a condition, written for the register in its natural
/// order: bit `control[k]` of the result is bit `k` of `target`.
pub open spec fn register_target(target: u64, control: Seq<usize>) -> u64
    decreases control.len(),
{
    if control.len() == 0 {
        0
    } else {
        register_target(target, control.drop_last()) | (((target >> ((control.len() - 1) as u64))
            & 1) << (control.last() as u64))
    }
}

proof fn lemma_or_bit(x: u64, b: u64, s: u64, k: u64)
    by (bit_vector)
    requires
        b <= 1,
        s < 64,
        k < 64,
    ensures
        ((x | (b << s)) >> k) & 1 == (if k == s {
            ((x >> k) & 1) | b
        } else {
            (x >> k) & 1
        }),
        (0u64 >> k) & 1 == 0,
        (x >> s) & 1 <= 1,
        0 | b == b,
{
}

/// Where no classical bit is named twice, bit `control[k]` of the rewritten target
/// is bit `k` of the target, and the bits that the control list does not name are
/// 0.
pub proof fn lemma_register_target_bits(target: u64, control: Seq<usize>)
    requires
        control.len() <= 64,
        all_below(control, 64),
        control.no_duplicates(),
    ensures
        forall|k: int|
            0 <= k < control.len() ==> bit_of(
                register_target(target, control),
                #[trigger] control[k],
            ) == bit_of(target, k as usize),
        forall|pos: usize|
            pos < 64 && !covers(control, pos as int) ==> !#[trigger] bit_of(
                register_target(target, control),
                pos,
            ),
    decreases control.len(),
{
    if control.len() == 0 {
        assert forall|pos: usize| pos < 64 implies !#[trigger] bit_of(
            register_target(target, control),
            pos,
        ) by {
            lemma_or_bit(0, 0, 0, pos as u64);
        }
    } else {
        let less = control.drop_last();
        let last = control.last();
        let s = (control.len() - 1) as u64;
        lemma_register_target_bits(target, less);
        let before = register_target(target, less);
        let b = (target >> s) & 1;
        lemma_or_bit(target, 0, s, s);
        assert(!covers(less, last as int)) by {
            if covers(less, last as int) {
                let k = choose|k: int| 0 <= k < less.len() && #[trigger] less[k] == last;
                assert(control[k] == control[control.len() - 1]);
            }
        }
        assert forall|k: int| 0 <= k < control.len() implies bit_of(
            register_target(target, control),
            #[trigger] control[k],
        ) == bit_of(target, k as usize) by {
            lemma_or_bit(before, b, last as u64, control[k] as u64);
            if k < less.len() {
                assert(less[k] == control[k]);
                assert(control[k] != control[control.len() - 1]);
            } else {
                assert(!bit_of(before, last));
            }
        }
        assert forall|pos: usize| pos < 64 && !covers(control, pos as int) implies !#[trigger] bit_of(
            register_target(target, control),
            pos,
        ) by {
            lemma_or_bit(before, b, last as u64, pos as u64);
            if pos == last {
                assert(control[control.len() - 1] == pos);
                assert(covers(control, pos as int));
            }
            if covers(less, pos as int) {
                let k = choose|k: int| 0 <= k < less.len() && #[trigger] less[k] == pos;
                assert(control[k] == pos);
                assert(covers(control, pos as int));
            }
            assert(!bit_of(before, pos));
        }
    }
}

/// The target word of a condition, written for the register in its natural order.
pub fn rewrite_target(target: u64, control: &[usize]) -> (starget: u64)
    requires
        control@.len() <= 64,
        all_below(control@, 64),
    ensures
        starget == register_target(target, control@),
{
    let mut starget: u64 = 0;
    let mut tshift: usize = 0;
    while tshift < control.len()
        invariant
            tshift <= control@.len(),
            control@.len() <= 64,
            all_below(control@, 64),
            starget == register_target(target, control@.take(tshift as int)),
        decreases control.len() - tshift,
    {
        let sshift: usize = control[tshift];
        starget = starget | (((target >> tshift) & 0x01) << sshift);
        proof {
            let now = control@.take(tshift + 1);
            assert(now.drop_last() =~= control@.take(tshift as int));
        }
        tshift += 1;
    }
    assert(control@.take(control@.len() as int) =~= control@);
    starget
}

/// The OpenQasm lines that change the basis `basis` of the qubit named `name` to
/// the `Z` basis.
pub open spec fn open_basis_lines(basis: Basis, name: Seq<char>) -> Seq<char> {
    match basis {
        Basis::X => "h "@ + name + ";\n"@,
        Basis::Y => "sdg "@ + name + ";\n"@ + "h "@ + name + ";\n"@,
        Basis::Z => Seq::empty(),
    }
}

/// The c-Qasm lines that change the basis `basis` of the qubit named `name` to the
/// `Z` basis.
pub open spec fn c_basis_lines(basis: Basis, name: Seq<char>) -> Seq<char> {
    match basis {
        Basis::X => "h "@ + name + "\n"@,
        Basis::Y => "sdag "@ + name + "\n"@ + "h "@ + name + "\n"@,
        Basis::Z => Seq::empty(),
    }
}

/// One line per qubit below `upto`, qubit by qubit: `line(i)` for qubit `i`.
pub open spec fn per_qubit(line: spec_fn(int) -> Seq<char>, upto: int) -> Seq<char>
    decreases upto,
{
    if upto <= 0 {
        Seq::empty()
    } else {
        per_qubit(line, upto - 1) + line(upto - 1)
    }
}

/// The OpenQasm line that measures qubit `qbit` into the classical bit `cbit`.
pub open spec fn open_measure_line(qbit: nat, cbit: nat) -> Seq<char> {
    "measure "@ + bit_name("q"@, qbit) + " -> "@ + bit_name("b"@, cbit) + ";\n"@
}

/// The declarations of an OpenQasm program for `nr_qbits` qubits and `nr_cbits`
/// classical bits: the quantum register `q` and the classical register `b`, each
/// where it has bits.
pub open spec fn open_qasm_declarations(nr_qbits: nat, nr_cbits: nat) -> Seq<char> {
    (if nr_qbits > 0 {
        "qreg q["@ + decimal(nr_qbits) + "];\n"@
    } else {
        Seq::empty()
    }) + (if nr_cbits > 0 {
        "creg b["@ + decimal(nr_cbits) + "];\n"@
    } else {
        Seq::empty()
    })
}

/// The first lines of every OpenQasm program: the version and the standard gates.
pub open spec fn open_qasm_header() -> Seq<char> {
    "OPENQASM 2.0;\ninclude \"qelib1.inc\";\n"@
}

/// The OpenQasm text of the operation `op` in a circuit of `nr_qbits` qubits and
/// `nr_cbits` classical bits, or the refusal where it has none: a sample without
/// collapse, a condition on part of the classical register, or a gate without
/// text.
///
/// A condition on the whole register is written as a test of the register
/// against the target word in the natural order of the bits. A measurement in
/// another basis than `Z` comes after the basis change, which for a measurement
/// of all qubits is written qubit by qubit. A measurement of all qubits into the
/// classical bits of the same indices, and a barrier on all qubits in order, name
/// the registers in place of the bits.
pub open spec fn open_qasm_op<G: OpenQasm>(op: CircuitOp<G>, nr_qbits: nat, nr_cbits: nat) -> Result<
    Seq<char>,
    Refusal,
> {
    let q = bit_names("q"@, nr_qbits);
    match op {
        CircuitOp::Gate(gate, bits) => match gate.open_qasm_text(q, bits@) {
            Ok(text) => Ok(text + ";\n"@),
            Err(refusal) => Err(refusal),
        },
        CircuitOp::ConditionalGate(control, target, gate, bits) => if control@.len() == 0 {
            match gate.open_qasm_text(q, bits@) {
                Ok(text) => Ok(text + ";\n"@),
                Err(refusal) => Err(refusal),
            }
        } else if !full_register(control@, nr_cbits) {
            Err((Refusal { op: "condition on part of the classical register"@, format: "OpenQasm"@ }))
        } else {
            match gate.conditional_open_qasm_text(
                "b == "@ + decimal(register_target(target, control@) as nat),
                q,
                bits@,
            ) {
                Ok(text) => Ok(text + ";\n"@),
                Err(refusal) => Err(refusal),
            }
        },
        CircuitOp::Reset(qbit) => Ok("reset "@ + bit_name("q"@, qbit as nat) + ";\n"@),
        CircuitOp::ResetAll => Ok("reset q;\n"@),
        CircuitOp::Measure(qbit, cbit, basis) => Ok(
            open_basis_lines(basis, bit_name("q"@, qbit as nat)) + open_measure_line(
                qbit as nat,
                cbit as nat,
            ),
        ),
        CircuitOp::MeasureAll(cbits, basis) => Ok(
            per_qubit(|i: int| open_basis_lines(basis, bit_name("q"@, i as nat)), nr_qbits as int)
                + (if in_order(cbits@, nr_cbits) {
                "measure q -> b;\n"@
            } else {
                per_qubit(
                    |i: int| open_measure_line(i as nat, cbits@[i] as nat),
                    cbits@.len() as int,
                )
            }),
        ),
        CircuitOp::PeekAll(cbits) => Err((Refusal { op: "peek"@, format: "OpenQasm"@ })),
        CircuitOp::Barrier(bits) => Ok(
            if in_order(bits@, nr_qbits) {
                "barrier q;\n"@
            } else {
                "barrier "@ + bit_list(q, bits@) + ";\n"@
            },
        ),
    }
}

/// The OpenQasm text of the first `k` operations of `ops`, or the refusal of the
/// first of them that has none.
pub open spec fn open_qasm_ops<G: OpenQasm>(
    ops: Seq<CircuitOp<G>>,
    nr_qbits: nat,
    nr_cbits: nat,
    k: int,
) -> Result<Seq<char>, Refusal>
    decreases k,
{
    if k <= 0 {
        Ok(Seq::empty())
    } else {
        match open_qasm_ops(ops, nr_qbits, nr_cbits, k - 1) {
            Ok(text) => match open_qasm_op(ops[k - 1], nr_qbits, nr_cbits) {
                Ok(line) => Ok(text + line),
                Err(refusal) => Err(refusal),
            },
            Err(refusal) => Err(refusal),
        }
    }
}

/// The operation can be written, or refused, in OpenQasm for a circuit of `nr_qbits`
/// qubits and `nr_cbits` classical bits: a gate has as many qubits as it acts on,
/// the qubits and classical bits that are named exist, and a condition on the
/// whole classical register fits the 64 bits of a target word.
pub open spec fn open_qasm_ready<G: Gate>(op: CircuitOp<G>, nr_qbits: nat, nr_cbits: nat) -> bool {
    match op {
        CircuitOp::Gate(gate, bits) => bits@.len() == gate.arity() && all_below(bits@, nr_qbits),
        CircuitOp::ConditionalGate(control, target, gate, bits) => {
            &&& bits@.len() == gate.arity()
            &&& all_below(bits@, nr_qbits)
            &&& full_register(control@, nr_cbits) ==> nr_cbits <= 64
        },
        CircuitOp::Reset(qbit) => qbit < nr_qbits,
        CircuitOp::ResetAll => true,
        CircuitOp::Measure(qbit, cbit, basis) => qbit < nr_qbits && cbit < nr_cbits,
        CircuitOp::MeasureAll(cbits, basis) => cbits@.len() <= nr_qbits && all_below(
            cbits@,
            nr_cbits,
        ),
        CircuitOp::PeekAll(cbits) => true,
        CircuitOp::Barrier(bits) => all_below(bits@, nr_qbits),
    }
}

/// An operation that can run on a circuit can be written, or refused, in
/// OpenQasm.
pub proof fn lemma_valid_open_qasm_ready<G: Gate>(op: CircuitOp<G>, nr_qbits: nat, nr_cbits: nat)
    requires
        op_valid(op, nr_qbits, nr_cbits),
        nr_cbits <= 64,
    ensures
        open_qasm_ready(op, nr_qbits, nr_cbits),
{
}

/// The lines that change the basis of one qubit before a measurement, in OpenQasm.
fn open_basis_text(basis: Basis, name: &str) -> (s: String)
    ensures
        s@ == open_basis_lines(basis, name@),
{
    let mut s = String::new();
    match basis {
        Basis::X => {
            s.append("h ");
            s.append(name);
            s.append(";\n");
        },
        Basis::Y => {
            s.append("sdg ");
            s.append(name);
            s.append(";\n");
            s.append("h ");
            s.append(name);
            s.append(";\n");
        },
        Basis::Z => {},
    }
    assert(s@ =~= open_basis_lines(basis, name@));
    s
}

/// The lines that change the basis of one qubit before a measurement, in c-Qasm.
fn c_basis_text(basis: Basis, name: &str) -> (s: String)
    ensures
        s@ == c_basis_lines(basis, name@),
{
    let mut s = String::new();
    match basis {
        Basis::X => {
            s.append("h ");
            s.append(name);
            s.append("\n");
        },
        Basis::Y => {
            s.append("sdag ");
            s.append(name);
            s.append("\n");
            s.append("h ");
            s.append(name);
            s.append("\n");
        },
        Basis::Z => {},
    }
    assert(s@ =~= c_basis_lines(basis, name@));
    s
}

/// The line that measures a qubit into a classical bit, in OpenQasm.
fn open_measure_text(qnames: &Vec<String>, cnames: &Vec<String>, qbit: usize, cbit: usize) -> (s:
    String)
    requires
        qbit < qnames@.len(),
        cbit < cnames@.len(),
        names(qnames@) == bit_names("q"@, qnames@.len()),
        names(cnames@) == bit_names("b"@, cnames@.len()),
    ensures
        s@ == open_measure_line(qbit as nat, cbit as nat),
{
    let mut s = String::from_str("measure ");
    s.append(qnames[qbit].as_str());
    s.append(" -> ");
    s.append(cnames[cbit].as_str());
    s.append(";\n");
    proof {
        assert(names(qnames@)[qbit as int] == qnames@[qbit as int]@);
        assert(names(cnames@)[cbit as int] == cnames@[cbit as int]@);
        assert(s@ =~= open_measure_line(qbit as nat, cbit as nat));
    }
    s
}

impl<G: OpenQasm> Circuit<G> {
    /// The OpenQasm text of the operation at position `k`.
    ///
    /// A sample without collapse and a condition on part of the classical register
    /// cannot be written in OpenQasm: for these the error says so. Where the
    /// operation's gate has no text, its error is returned.
    pub fn open_qasm_op(&self, k: usize, qnames: &Vec<String>, cnames: &Vec<String>) -> (r: Result<
        String,
        Error,
    >)
        requires
            k < self.spec_ops().len(),
            open_qasm_ready(self.spec_ops()[k as int], self.spec_nr_qbits(), self.spec_nr_cbits()),
            qnames@.len() == self.spec_nr_qbits(),
            cnames@.len() == self.spec_nr_cbits(),
            names(qnames@) == bit_names("q"@, self.spec_nr_qbits()),
            names(cnames@) == bit_names("b"@, self.spec_nr_cbits()),
        ensures
            match open_qasm_op(
                self.spec_ops()[k as int],
                self.spec_nr_qbits(),
                self.spec_nr_cbits(),
            ) {
                Ok(text) => r matches Ok(s) && s@ == text,
                Err(refusal) => r matches Err(e) && refused(e, refusal),
            },
    {
        let nr_qbits: usize = self.nr_qbits();
        let nr_cbits: usize = self.nr_cbits();
        match self.op(k) {
            CircuitOp::Gate(gate, bits) => {
                let mut text: String = match gate.open_qasm(qnames.as_slice(), bits.as_slice()) {
                    Ok(text) => text,
                    Err(e) => {
                        return Err(e);
                    },
                };
                text.append(";\n");
                Ok(text)
            },
            CircuitOp::ConditionalGate(control, target, gate, bits) => {
                if control.len() == 0 {
                    let mut text: String = match gate.open_qasm(
                        qnames.as_slice(),
                        bits.as_slice(),
                    ) {
                        Ok(text) => text,
                        Err(e) => {
                            return Err(e);
                        },
                    };
                    text.append(";\n");
                    Ok(text)
                } else {
                    // The control bits must span the entire classical register, but
                    // not necessarily in the order 0..#bits.
                    match check_open_qasm_condition_bits(control.as_slice(), nr_cbits) {
                        Ok(()) => {},
                        Err(e) => {
                            return Err(e);
                        },
                    }
                    assert(all_below(control@, 64));
                    let starget: u64 = rewrite_target(*target, control.as_slice());
                    let mut condition = String::from_str("b == ");
                    let number = decimal_text(starget);
                    condition.append(number.as_str());
                    let mut text: String = match gate.conditional_open_qasm(
                        condition.as_str(),
                        qnames.as_slice(),
                        bits.as_slice(),
                    ) {
                        Ok(text) => text,
                        Err(e) => {
                            return Err(e);
                        },
                    };
                    text.append(";\n");
                    Ok(text)
                }
            },
            CircuitOp::Reset(qbit) => {
                let mut text = String::from_str("reset ");
                text.append(qnames[*qbit].as_str());
                text.append(";\n");
                proof {
                    assert(names(qnames@)[*qbit as int] == qnames@[*qbit as int]@);
                }
                Ok(text)
            },
            CircuitOp::ResetAll => Ok(String::from_str("reset q;\n")),
            CircuitOp::Measure(qbit, cbit, basis) => {
                proof {
                    assert(names(qnames@)[*qbit as int] == qnames@[*qbit as int]@);
                }
                let mut text: String = open_basis_text(*basis, qnames[*qbit].as_str());
                let line = open_measure_text(qnames, cnames, *qbit, *cbit);
                text.append(line.as_str());
                Ok(text)
            },
            CircuitOp::MeasureAll(cbits, basis) => {
                let mut text = String::new();
                let ghost basis_line = |i: int| open_basis_lines(*basis, bit_name("q"@, i as nat));
                let mut i: usize = 0;
                while i < nr_qbits
                    invariant
                        i <= nr_qbits,
                        nr_qbits == qnames@.len(),
                        names(qnames@) == bit_names("q"@, nr_qbits as nat),
                        basis_line == |i: int| open_basis_lines(*basis, bit_name("q"@, i as nat)),
                        text@ == per_qubit(basis_line, i as int),
                    decreases nr_qbits - i,
                {
                    proof {
                        assert(names(qnames@)[i as int] == qnames@[i as int]@);
                    }
                    let lines = open_basis_text(*basis, qnames[i].as_str());
                    text.append(lines.as_str());
                    i += 1;
                }
                if is_in_order(cbits.as_slice(), nr_cbits) {
                    text.append("measure q -> b;\n");
                } else {
                    let ghost start = text@;
                    let ghost measure_line = |i: int|
                        open_measure_line(i as nat, cbits@[i] as nat);
                    let mut qbit: usize = 0;
                    while qbit < cbits.len()
                        invariant
                            qbit <= cbits@.len(),
                            cbits@.len() <= nr_qbits,
                            nr_qbits == qnames@.len(),
                            nr_cbits == cnames@.len(),
                            all_below(cbits@, nr_cbits as nat),
                            names(qnames@) == bit_names("q"@, qnames@.len()),
                            names(cnames@) == bit_names("b"@, cnames@.len()),
                            measure_line == |i: int| open_measure_line(i as nat, cbits@[i] as nat),
                            text@ == start + per_qubit(measure_line, qbit as int),
                        decreases cbits.len() - qbit,
                    {
                        let line = open_measure_text(qnames, cnames, qbit, cbits[qbit]);
                        text.append(line.as_str());
                        assert(text@ =~= start + per_qubit(measure_line, qbit + 1));
                        qbit += 1;
                    }
                }
                Ok(text)
            },
            CircuitOp::PeekAll(cbits) => Err(
                Error::ExportUnsupported(String::from_str("peek"), String::from_str("OpenQasm")),
            ),
            CircuitOp::Barrier(bits) => {
                if is_in_order(bits.as_slice(), nr_qbits) {
                    Ok(String::from_str("barrier q;\n"))
                } else {
                    let mut text = String::from_str("barrier ");
                    let list = join_bit_names(qnames.as_slice(), bits.as_slice());
                    text.append(list.as_str());
                    text.append(";\n");
                    Ok(text)
                }
            },
        }
    }
}

/// Where one of the first `k` operations has no OpenQasm text, the first `n` are
/// refused as the first `k` are: the first operation without text decides.
pub proof fn lemma_open_qasm_ops_refused<G: OpenQasm>(
    ops: Seq<CircuitOp<G>>,
    nr_qbits: nat,
    nr_cbits: nat,
    k: int,
    n: int,
)
    requires
        0 <= k <= n,
        open_qasm_ops(ops, nr_qbits, nr_cbits, k) is Err,
    ensures
        open_qasm_ops(ops, nr_qbits, nr_cbits, n) == open_qasm_ops(ops, nr_qbits, nr_cbits, k),
    decreases n - k,
{
    if k < n {
        lemma_open_qasm_ops_refused(ops, nr_qbits, nr_cbits, k, n - 1);
    }
}

impl<G: Gate> Circuit<G> {
    /// Every operation of this circuit can be written, or refused, in OpenQasm: see
    /// `open_qasm_ready`.
    pub open spec fn open_qasm_valid(&self) -> bool {
        forall|k: int|
            0 <= k < self.spec_ops().len() ==> open_qasm_ready(
                #[trigger] self.spec_ops()[k],
                self.spec_nr_qbits(),
                self.spec_nr_cbits(),
            )
    }

    /// Whether every operation of this circuit can be written, or refused, in
    /// OpenQasm.
    pub fn is_open_qasm_valid(&self) -> (ok: bool)
        ensures
            ok == self.open_qasm_valid(),
    {
        let nr_qbits: usize = self.nr_qbits();
        let nr_cbits: usize = self.nr_cbits();
        let n: usize = self.nr_ops();
        let mut k: usize = 0;
        while k < n
            invariant
                k <= n,
                n == self.spec_ops().len(),
                nr_qbits == self.spec_nr_qbits(),
                nr_cbits == self.spec_nr_cbits(),
                forall|j: int|
                    0 <= j < k ==> open_qasm_ready(
                        #[trigger] self.spec_ops()[j],
                        nr_qbits as nat,
                        nr_cbits as nat,
                    ),
            decreases n - k,
        {
            let ok: bool = match self.op(k) {
                CircuitOp::Gate(gate, bits) => bits.len() == gate.nr_affected_bits()
                    && check_all_below(bits.as_slice(), nr_qbits),
                CircuitOp::ConditionalGate(control, target, gate, bits) => bits.len()
                    == gate.nr_affected_bits() && check_all_below(bits.as_slice(), nr_qbits) && (
                nr_cbits <= 64 || !is_full_register(control.as_slice(), nr_cbits)),
                CircuitOp::Reset(qbit) => *qbit < nr_qbits,
                CircuitOp::ResetAll => true,
                CircuitOp::Measure(qbit, cbit, basis) => *qbit < nr_qbits && *cbit < nr_cbits,
                CircuitOp::MeasureAll(cbits, basis) => cbits.len() <= nr_qbits && check_all_below(
                    cbits.as_slice(),
                    nr_cbits,
                ),
                CircuitOp::PeekAll(cbits) => true,
                CircuitOp::Barrier(bits) => check_all_below(bits.as_slice(), nr_qbits),
            };
            if !ok {
                return false;
            }
            k += 1;
        }
        true
    }

    /// Every operation of this circuit can be written, or refused, in c-Qasm: see
    /// `c_qasm_ready`.
    pub open spec fn c_qasm_valid(&self) -> bool {
        forall|k: int|
            0 <= k < self.spec_ops().len() ==> c_qasm_ready(
                #[trigger] self.spec_ops()[k],
                self.spec_nr_qbits(),
            )
    }

    /// Whether every operation of this circuit can be written, or refused, in
    /// c-Qasm.
    pub fn is_c_qasm_valid(&self) -> (ok: bool)
        ensures
            ok == self.c_qasm_valid(),
    {
        let nr_qbits: usize = self.nr_qbits();
        let n: usize = self.nr_ops();
        let mut k: usize = 0;
        while k < n
            invariant
                k <= n,
                n == self.spec_ops().len(),
                nr_qbits == self.spec_nr_qbits(),
                forall|j: int|
                    0 <= j < k ==> c_qasm_ready(#[trigger] self.spec_ops()[j], nr_qbits as nat),
            decreases n - k,
        {
            let ok: bool = match self.op(k) {
                CircuitOp::Gate(gate, bits) => bits.len() == gate.nr_affected_bits()
                    && check_all_below(bits.as_slice(), nr_qbits),
                CircuitOp::ConditionalGate(control, target, gate, bits) => bits.len()
                    == gate.nr_affected_bits() && check_all_below(bits.as_slice(), nr_qbits)
                    && control.len() <= 64 && check_all_below(control.as_slice(), nr_qbits),
                CircuitOp::Reset(qbit) => *qbit < nr_qbits,
                _ => true,
            };
            if !ok {
                return false;
            }
            k += 1;
        }
        true
    }
}

impl<G: OpenQasm> Circuit<G> {
    /// Export to OpenQasm
    ///
    /// Export this circuit to a program in OpenQasm format. On a successful
    /// conversion, the result is `Ok` with the program text: the header, the
    /// declarations of the registers, and the text of the operations in order.
    /// When an operation has no text in OpenQasm, the error of the first such
    /// operation is returned.
    pub fn open_qasm(&self) -> (r: Result<String, Error>)
        requires
            self.open_qasm_valid(),
        ensures
            match open_qasm_ops(
                self.spec_ops(),
                self.spec_nr_qbits(),
                self.spec_nr_cbits(),
                self.spec_ops().len() as int,
            ) {
                Ok(body) => r matches Ok(s) && s@ == open_qasm_header() + open_qasm_declarations(
                    self.spec_nr_qbits(),
                    self.spec_nr_cbits(),
                ) + body,
                Err(refusal) => r matches Err(e) && refused(e, refusal),
            },
    {
        let nr_qbits: usize = self.nr_qbits();
        let nr_cbits: usize = self.nr_cbits();
        let mut res = String::from_str("OPENQASM 2.0;\ninclude \"qelib1.inc\";\n");
        if nr_qbits > 0 {
            res.append("qreg q[");
            let number = decimal_text(nr_qbits as u64);
            res.append(number.as_str());
            res.append("];\n");
        }
        if nr_cbits > 0 {
            res.append("creg b[");
            let number = decimal_text(nr_cbits as u64);
            res.append(number.as_str());
            res.append("];\n");
        }
        let ghost start = res@;
        assert(start =~= open_qasm_header() + open_qasm_declarations(
            nr_qbits as nat,
            nr_cbits as nat,
        ));
        let qnames: Vec<String> = make_bit_names("q", nr_qbits);
        let cnames: Vec<String> = make_bit_names("b", nr_cbits);
        assert(qnames@.len() == nr_qbits) by {
            assert(names(qnames@).len() == qnames@.len());
        }
        assert(cnames@.len() == nr_cbits) by {
            assert(names(cnames@).len() == cnames@.len());
        }
        let n: usize = self.nr_ops();
        let ghost ops = self.spec_ops();
        let mut k: usize = 0;
        while k < n
            invariant
                k <= n,
                n == ops.len(),
                ops == self.spec_ops(),
                self.open_qasm_valid(),
                nr_qbits == self.spec_nr_qbits(),
                nr_cbits == self.spec_nr_cbits(),
                qnames@.len() == nr_qbits,
                cnames@.len() == nr_cbits,
                names(qnames@) == bit_names("q"@, nr_qbits as nat),
                names(cnames@) == bit_names("b"@, nr_cbits as nat),
                open_qasm_ops(ops, nr_qbits as nat, nr_cbits as nat, k as int) matches Ok(body)
                    && res@ == start + body,
            decreases n - k,
        {
            let line: String = match self.open_qasm_op(k, &qnames, &cnames) {
                Ok(line) => line,
                Err(e) => {
                    proof {
                        lemma_open_qasm_ops_refused(
                            ops,
                            nr_qbits as nat,
                            nr_cbits as nat,
                            k + 1,
                            n as int,
                        );
                    }
                    return Err(e);
                },
            };
            let ghost body = open_qasm_ops(ops, nr_qbits as nat, nr_cbits as nat, k as int)->Ok_0;
            res.append(line.as_str());
            assert(res@ =~= start + (body + line@));
            k += 1;
        }
        Ok(res)
    }
}

/// The c-Qasm lines that invert the classical bits that a condition wants to be 0:
/// for each of the first `upto` control bits whose bit in `target` is 0, a `not`
/// on the classical bit.
pub open spec fn not_lines(target: u64, control: Seq<usize>, upto: int) -> Seq<char>
    decreases upto,
{
    if upto <= 0 {
        Seq::empty()
    } else {
        not_lines(target, control, upto - 1) + (if target & (1u64 << ((upto - 1) as u64)) == 0 {
            "not "@ + bit_name("b"@, control[upto - 1] as nat) + "\n"@
        } else {
            Seq::empty()
        })
    }
}

/// The name of the c-Qasm measurement in the basis `basis`.
pub open spec fn c_measure_name(basis: Basis) -> Seq<char> {
    match basis {
        Basis::X => "measure_x"@,
        Basis::Y => "measure_y"@,
        Basis::Z => "measure"@,
    }
}

/// The c-Qasm text of the operation `op` in a circuit of `nr_qbits` qubits, or
/// the refusal where it has none: a sample without collapse, a measurement into the
/// classical bit of another index than the qubit's, or a gate without text.
///
/// A condition is written as a conditional gate on the classical bits of the
/// control list; the bits that the target word wants to be 0 are inverted before
/// it and again after it. A measurement of all qubits in another basis than `Z`
/// comes after the basis change of every qubit. A barrier has no text.
pub open spec fn c_qasm_op<G: CQasm>(op: CircuitOp<G>, nr_qbits: nat) -> Result<Seq<char>, Refusal> {
    let q = bit_names("q"@, nr_qbits);
    let b = bit_names("b"@, nr_qbits);
    match op {
        CircuitOp::Gate(gate, bits) => match gate.c_qasm_text(q, bits@) {
            Ok(text) => Ok(text + "\n"@),
            Err(refusal) => Err(refusal),
        },
        CircuitOp::ConditionalGate(control, target, gate, bits) => if control@.len() == 0 {
            match gate.c_qasm_text(q, bits@) {
                Ok(text) => Ok(text + "\n"@),
                Err(refusal) => Err(refusal),
            }
        } else {
            match gate.conditional_c_qasm_text(bit_list(b, control@), q, bits@) {
                Ok(text) => Ok(
                    not_lines(target, control@, control@.len() as int) + text + "\n"@ + not_lines(
                        target,
                        control@,
                        control@.len() as int,
                    ),
                ),
                Err(refusal) => Err(refusal),
            }
        },
        CircuitOp::Reset(qbit) => Ok("prep_z "@ + bit_name("q"@, qbit as nat) + "\n"@),
        CircuitOp::ResetAll => Ok(
            per_qubit(|i: int| "prep_z "@ + bit_name("q"@, i as nat) + "\n"@, nr_qbits as int),
        ),
        CircuitOp::Measure(qbit, cbit, basis) => if qbit != cbit {
            Err((Refusal { op: "measurement into the classical bit of another index"@, format: "c-Qasm"@ }))
        } else {
            Ok(c_measure_name(basis) + " "@ + bit_name("q"@, qbit as nat) + "\n"@)
        },
        CircuitOp::MeasureAll(cbits, basis) => if !in_order(cbits@, cbits@.len()) {
            Err((Refusal { op: "measurement into the classical bit of another index"@, format: "c-Qasm"@ }))
        } else {
            Ok(
                per_qubit(|i: int| c_basis_lines(basis, bit_name("q"@, i as nat)), nr_qbits as int)
                    + "measure_all\n"@,
            )
        },
        CircuitOp::PeekAll(cbits) => Err((Refusal { op: "peek"@, format: "c-Qasm"@ })),
        CircuitOp::Barrier(bits) => Ok(Seq::empty()),
    }
}

/// The operation can be written, or refused, in c-Qasm for a circuit of `nr_qbits`
/// qubits: a gate has as many qubits as it acts on, the qubits that are named
/// exist, and a condition reads at most 64 classical bits, each with a qubit of
/// the same index, the only ones that c-Qasm knows.
pub open spec fn c_qasm_ready<G: Gate>(op: CircuitOp<G>, nr_qbits: nat) -> bool {
    match op {
        CircuitOp::Gate(gate, bits) => bits@.len() == gate.arity() && all_below(bits@, nr_qbits),
        CircuitOp::ConditionalGate(control, target, gate, bits) => {
            &&& bits@.len() == gate.arity()
            &&& all_below(bits@, nr_qbits)
            &&& control@.len() <= 64
            &&& all_below(control@, nr_qbits)
        },
        CircuitOp::Reset(qbit) => qbit < nr_qbits,
        _ => true,
    }
}

/// The c-Qasm text of the first `k` operations of `ops`, or the refusal of the
/// first of them that has none.
pub open spec fn c_qasm_ops<G: CQasm>(ops: Seq<CircuitOp<G>>, nr_qbits: nat, k: int) -> Result<
    Seq<char>,
    Refusal,
>
    decreases k,
{
    if k <= 0 {
        Ok(Seq::empty())
    } else {
        match c_qasm_ops(ops, nr_qbits, k - 1) {
            Ok(text) => match c_qasm_op(ops[k - 1], nr_qbits) {
                Ok(line) => Ok(text + line),
                Err(refusal) => Err(refusal),
            },
            Err(refusal) => Err(refusal),
        }
    }
}

/// Where one of the first `k` operations has no c-Qasm text, the first `n` are
/// refused as the first `k` are: the first operation without text decides.
pub proof fn lemma_c_qasm_ops_refused<G: CQasm>(ops: Seq<CircuitOp<G>>, nr_qbits: nat, k: int, n: int)
    requires
        0 <= k <= n,
        c_qasm_ops(ops, nr_qbits, k) is Err,
    ensures
        c_qasm_ops(ops, nr_qbits, n) == c_qasm_ops(ops, nr_qbits, k),
    decreases n - k,
{
    if k < n {
        lemma_c_qasm_ops_refused(ops, nr_qbits, k, n - 1);
    }
}

/// The first lines of a c-Qasm program for `nr_qbits` qubits: the version, and the
/// number of qubits where there are any.
pub open spec fn c_qasm_header(nr_qbits: nat) -> Seq<char> {
    "version 1.0\n"@ + (if nr_qbits > 0 {
        "qubits "@ + decimal(nr_qbits) + "\n"@
    } else {
        Seq::empty()
    })
}

/// The `not` lines around a conditional gate in c-Qasm.
fn not_text(target: u64, control: &[usize], cnames: &Vec<String>) -> (s: String)
    requires
        control@.len() <= 64,
        all_below(control@, cnames@.len()),
        names(cnames@) == bit_names("b"@, cnames@.len()),
    ensures
        s@ == not_lines(target, control@, control@.len() as int),
{
    let mut s = String::new();
    let mut shift: usize = 0;
    while shift < control.len()
        invariant
            shift <= control@.len(),
            control@.len() <= 64,
            all_below(control@, cnames@.len()),
            names(cnames@) == bit_names("b"@, cnames@.len()),
            s@ == not_lines(target, control@, shift as int),
        decreases control.len() - shift,
    {
        let idx: usize = control[shift];
        if target & (1u64 << shift) == 0 {
            proof {
                assert(names(cnames@)[idx as int] == cnames@[idx as int]@);
            }
            let ghost before = s@;
            s.append("not ");
            s.append(cnames[idx].as_str());
            s.append("\n");
            assert(s@ =~= before + ("not "@ + bit_name("b"@, idx as nat) + "\n"@));
        }
        shift += 1;
    }
    s
}

impl<G: CQasm> Circuit<G> {
    /// The c-Qasm text of the operation at position `k`.
    ///
    /// A sample without collapse and a measurement into a classical bit of another
    /// index than the qubit's cannot be written in c-Qasm: for these the error
    /// says so. Where the operation's gate has no text, its error is returned.
    pub fn c_qasm_op(&self, k: usize, qnames: &Vec<String>, cnames: &Vec<String>) -> (r: Result<
        String,
        Error,
    >)
        requires
            k < self.spec_ops().len(),
            c_qasm_ready(self.spec_ops()[k as int], self.spec_nr_qbits()),
            qnames@.len() == self.spec_nr_qbits(),
            cnames@.len() == self.spec_nr_qbits(),
            names(qnames@) == bit_names("q"@, self.spec_nr_qbits()),
            names(cnames@) == bit_names("b"@, self.spec_nr_qbits()),
        ensures
            match c_qasm_op(self.spec_ops()[k as int], self.spec_nr_qbits()) {
                Ok(text) => r matches Ok(s) && s@ == text,
                Err(refusal) => r matches Err(e) && refused(e, refusal),
            },
    {
        let nr_qbits: usize = self.nr_qbits();
        match self.op(k) {
            CircuitOp::Gate(gate, bits) => {
                let mut text: String = match gate.c_qasm(qnames.as_slice(), bits.as_slice()) {
                    Ok(text) => text,
                    Err(e) => {
                        return Err(e);
                    },
                };
                text.append("\n");
                Ok(text)
            },
            CircuitOp::ConditionalGate(control, target, gate, bits) => {
                if control.len() == 0 {
                    let mut text: String = match gate.c_qasm(qnames.as_slice(), bits.as_slice()) {
                        Ok(text) => text,
                        Err(e) => {
                            return Err(e);
                        },
                    };
                    text.append("\n");
                    Ok(text)
                } else {
                    let condition: String = join_bit_names(cnames.as_slice(), control.as_slice());
                    let gate_qasm: String = match gate.conditional_c_qasm(
                        condition.as_str(),
                        qnames.as_slice(),
                        bits.as_slice(),
                    ) {
                        Ok(text) => text,
                        Err(e) => {
                            return Err(e);
                        },
                    };
                    let mut text: String = not_text(*target, control.as_slice(), cnames);
                    let nots: String = not_text(*target, control.as_slice(), cnames);
                    text.append(gate_qasm.as_str());
                    text.append("\n");
                    text.append(nots.as_str());
                    Ok(text)
                }
            },
            CircuitOp::Reset(qbit) => {
                let mut text = String::from_str("prep_z ");
                text.append(qnames[*qbit].as_str());
                text.append("\n");
                proof {
                    assert(names(qnames@)[*qbit as int] == qnames@[*qbit as int]@);
                }
                Ok(text)
            },
            CircuitOp::ResetAll => {
                let mut text = String::new();
                let ghost line = |i: int| "prep_z "@ + bit_name("q"@, i as nat) + "\n"@;
                let mut i: usize = 0;
                while i < nr_qbits
                    invariant
                        i <= nr_qbits,
                        nr_qbits == qnames@.len(),
                        names(qnames@) == bit_names("q"@, nr_qbits as nat),
                        line == |i: int| "prep_z "@ + bit_name("q"@, i as nat) + "\n"@,
                        text@ == per_qubit(line, i as int),
                    decreases nr_qbits - i,
                {
                    proof {
                        assert(names(qnames@)[i as int] == qnames@[i as int]@);
                    }
                    let ghost before = text@;
                    text.append("prep_z ");
                    text.append(qnames[i].as_str());
                    text.append("\n");
                    assert(text@ =~= before + line(i as int));
                    i += 1;
                }
                Ok(text)
            },
            CircuitOp::Measure(qbit, cbit, basis) => {
                match check_c_qasm_measurement(*qbit, *cbit) {
                    Ok(()) => {},
                    Err(e) => {
                        return Err(e);
                    },
                }
                let mut text = String::from_str(
                    match basis {
                        Basis::X => "measure_x",
                        Basis::Y => "measure_y",
                        Basis::Z => "measure",
                    },
                );
                text.append(" q[");
                let index = decimal_text(*qbit as u64);
                text.append(index.as_str());
                text.append("]\n");
                assert(text@ =~= c_measure_name(*basis) + " "@ + bit_name("q"@, *qbit as nat)
                    + "\n"@) by {
                    reveal_strlit(" q[");
                    reveal_strlit(" ");
                    reveal_strlit("q");
                    reveal_strlit("[");
                    reveal_strlit("]\n");
                    reveal_strlit("]");
                    reveal_strlit("\n");
                }
                Ok(text)
            },
            CircuitOp::MeasureAll(cbits, basis) => {
                if !is_in_order(cbits.as_slice(), cbits.len()) {
                    return Err(c_qasm_measurement_error());
                }
                let mut text = String::new();
                let ghost line = |i: int| c_basis_lines(*basis, bit_name("q"@, i as nat));
                let mut bit: usize = 0;
                while bit < nr_qbits
                    invariant
                        bit <= nr_qbits,
                        nr_qbits == qnames@.len(),
                        names(qnames@) == bit_names("q"@, nr_qbits as nat),
                        line == |i: int| c_basis_lines(*basis, bit_name("q"@, i as nat)),
                        text@ == per_qubit(line, bit as int),
                    decreases nr_qbits - bit,
                {
                    proof {
                        assert(names(qnames@)[bit as int] == qnames@[bit as int]@);
                    }
                    let lines = c_basis_text(*basis, qnames[bit].as_str());
                    text.append(lines.as_str());
                    bit += 1;
                }
                text.append("measure_all\n");
                Ok(text)
            },
            CircuitOp::PeekAll(cbits) => Err(
                Error::ExportUnsupported(String::from_str("peek"), String::from_str("c-Qasm")),
            ),
            CircuitOp::Barrier(bits) => Ok(String::new()),
        }
    }

    /// Export to c-Qasm
    ///
    /// Export this circuit to a program in c-Qasm format. On a successful
    /// conversion, the result is `Ok` with the program text: the header and the
    /// text of the operations in order. When an operation has no text in c-Qasm,
    /// the error of the first such operation is returned.
    pub fn c_qasm(&self) -> (r: Result<String, Error>)
        requires
            self.c_qasm_valid(),
        ensures
            match c_qasm_ops(self.spec_ops(), self.spec_nr_qbits(), self.spec_ops().len() as int) {
                Ok(body) => r matches Ok(s) && s@ == c_qasm_header(self.spec_nr_qbits()) + body,
                Err(refusal) => r matches Err(e) && refused(e, refusal),
            },
    {
        let nr_qbits: usize = self.nr_qbits();
        let mut res = String::from_str("version 1.0\n");
        if nr_qbits > 0 {
            res.append("qubits ");
            let number = decimal_text(nr_qbits as u64);
            res.append(number.as_str());
            res.append("\n");
        }
        let ghost start = res@;
        assert(start =~= c_qasm_header(nr_qbits as nat));
        let qnames: Vec<String> = make_bit_names("q", nr_qbits);
        let cnames: Vec<String> = make_bit_names("b", nr_qbits);
        assert(qnames@.len() == nr_qbits) by {
            assert(names(qnames@).len() == qnames@.len());
        }
        assert(cnames@.len() == nr_qbits) by {
            assert(names(cnames@).len() == cnames@.len());
        }
        let n: usize = self.nr_ops();
        let ghost ops = self.spec_ops();
        let mut k: usize = 0;
        while k < n
            invariant
                k <= n,
                n == ops.len(),
                ops == self.spec_ops(),
                self.c_qasm_valid(),
                nr_qbits == self.spec_nr_qbits(),
                qnames@.len() == nr_qbits,
                cnames@.len() == nr_qbits,
                names(qnames@) == bit_names("q"@, nr_qbits as nat),
                names(cnames@) == bit_names("b"@, nr_qbits as nat),
                c_qasm_ops(ops, nr_qbits as nat, k as int) matches Ok(body) && res@ == start
                    + body,
            decreases n - k,
        {
            let line: String = match self.c_qasm_op(k, &qnames, &cnames) {
                Ok(line) => line,
                Err(e) => {
                    proof {
                        lemma_c_qasm_ops_refused(ops, nr_qbits as nat, k + 1, n as int);
                    }
                    return Err(e);
                },
            };
            let ghost body = c_qasm_ops(ops, nr_qbits as nat, k as int)->Ok_0;
            res.append(line.as_str());
            assert(res@ =~= start + (body + line@));
            k += 1;
        }
        Ok(res)
    }
}

} // verus!
