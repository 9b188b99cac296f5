//! Circuits: the list of operations, the classical register, and what the quantum
//! engine has to do for each operation.

use std::collections::HashMap;
use vstd::arithmetic::power2::pow2;
use vstd::bits::lemma_u64_pow2_no_overflow;
use vstd::bits::lemma_u64_shl_is_mul;
use vstd::bits::lemma_usize_pow2_no_overflow;
use vstd::bits::lemma_usize_shl_is_mul;
use vstd::prelude::*;
use vstd::slice::slice_to_vec;
use crate::error::Error;
use crate::gates::CircuitGate;
use crate::gates::CX;
use crate::gates::Gate;
use crate::gates::H;
use crate::gates::RX;
use crate::gates::RY;
use crate::gates::RZ;
use crate::gates::U1;
use crate::gates::U2;
use crate::gates::U3;
use crate::gates::X;
use crate::gates::Y;
use crate::gates::Z;
use crate::layout::is_qubit_set;
use crate::layout::qubit_set;
use crate::register::bit_of;
use crate::register::ClassicalRegister;
use crate::register::with_bit;
use crate::stabilizer::check_distinct_bits;
use crate::stabilizer::distinct_bits;
use crate::text::binary_padded;
use crate::text::bit_string;

verus! {

/// Basis in which to perform measurements
#[derive(Clone, Copy, Debug, PartialEq, Eq, Structural)]
pub enum Basis {
    /// Pauli `X` basis
    X,
    /// Pauli `Y` basis
    Y,
    /// Pauli `Z` basis
    Z,
}

/// A gate that changes the basis before a measurement.
#[derive(Clone, Copy, Debug, PartialEq, Eq, Structural)]
pub enum BasisGate {
    /// The Hadamard gate
    H,
    /// The conjugate of the `S` gate
    Sdg,
}

/// One piece of work that the quantum engine does for an operation of a circuit.
#[derive(Clone, Copy, Debug, PartialEq, Eq, Structural)]
pub enum Step {
    /// Apply the operation's gate to its qubits, in every shot.
    ApplyGate,
    /// Apply the operation's gate to its qubits, in the shots that the condition
    /// mask of the operation selects.
    ApplyGateWhere,
    /// Apply a basis change gate to one qubit, in every shot.
    ApplyUnary(BasisGate, usize),
    /// Apply a basis change gate to every qubit, in every shot.
    ApplyUnaryAll(BasisGate),
    /// Measure a qubit in the `Z` basis, the outcomes going to a classical bit.
    Measure(usize, usize),
    /// Sample every shot in the `Z` basis without collapsing the state.
    PeekAll,
    /// Reset a qubit to |0>.
    Reset(usize),
    /// Reset the quantum state to |00...0>.
    ResetAll,
}

/// A single operation in a circuit
pub enum CircuitOp<G> {
    /// Apply a gate to the state
    Gate(G, Vec<usize>),
    /// Conditionally apply a gate, depending on classical bits
    ConditionalGate(Vec<usize>, u64, G, Vec<usize>),
    /// Reset a qubit to |0>
    Reset(usize),
    /// Reset the quantum state to |00...0>
    ResetAll,
    /// Measure a qubit in a certain basis
    Measure(usize, usize, Basis),
    /// Measure all qubits
    MeasureAll(Vec<usize>, Basis),
    /// Measure all qubits in the `Z` basis without affecting state
    PeekAll(Vec<usize>),
    /// Prevent gate reordering on the associated bits across the barrier
    Barrier(Vec<usize>),
}

/// The gates that change the basis `basis` to the `Z` basis, in the order in which
/// they are applied: none for `Z`, the Hadamard gate for `X`, and the conjugate `S`
/// gate and then the Hadamard gate for `Y`.
pub open spec fn basis_change(basis: Basis) -> Seq<BasisGate> {
    match basis {
        Basis::X => seq![BasisGate::H],
        Basis::Y => seq![BasisGate::Sdg, BasisGate::H],
        Basis::Z => Seq::empty(),
    }
}

/// The word that a condition reads from the classical word `word`: its bit `k` is
/// the classical bit `control[k]`, so the first index in `control` gives the least
/// significant bit.
pub open spec fn assembled_word(word: u64, control: Seq<usize>) -> u64
    decreases control.len(),
{
    if control.len() == 0 {
        0
    } else {
        assembled_word(word, control.drop_last()) | (((word >> (control.last() as u64)) & 1) << ((
        control.len() - 1) as u64))
    }
}

proof fn lemma_or_bit(x: u64, b: u64, s: u64, k: u64)
    by (bit_vector)
    requires
        b <= 1,
        s < 64,
        k < 64,
    ensures
        ((x | (b << s)) >> k) & 1 == (if k == s {
            ((x >> k) & 1) | b
        } else {
            (x >> k) & 1
        }),
        (0u64 >> k) & 1 == 0,
        (x >> s) & 1 <= 1,
        ((x >> k) & 1) | 0 == (x >> k) & 1,
        0 | b == b,
{
}

/// Bit `k` of the word that a condition reads is the classical bit `control[k]`,
/// and the bits beyond the control list are 0.
pub proof fn lemma_assembled_word_bits(word: u64, control: Seq<usize>, k: usize)
    requires
        control.len() <= 64,
        all_below(control, 64),
        k < 64,
    ensures
        bit_of(assembled_word(word, control), k) == (k < control.len() && bit_of(
            word,
            control[k as int],
        )),
    decreases control.len(),
{
    if control.len() == 0 {
        lemma_or_bit(0, 0, 0, k as u64);
    } else {
        let less = control.drop_last();
        let s = (control.len() - 1) as u64;
        lemma_assembled_word_bits(word, less, k);
        let b = (word >> (control.last() as u64)) & 1;
        lemma_or_bit(word, 0, control.last() as u64, control.last() as u64);
        lemma_or_bit(assembled_word(word, less), b, s, k as u64);
        if k < less.len() {
            assert(less[k as int] == control[k as int]);
        }
    }
}

/// Every index in `idxs` is below `n`.
pub open spec fn all_below(idxs: Seq<usize>, n: nat) -> bool {
    forall|k: int| 0 <= k < idxs.len() ==> #[trigger] idxs[k] < n
}

/// The classical word `word` uses no bit from `nr_cbits` on.
pub open spec fn fits(word: u64, nr_cbits: nat) -> bool {
    nr_cbits >= 64 || word < (1u64 << (nr_cbits as u64))
}

/// The operation can run on a circuit with `nr_qbits` qubits and `nr_cbits`
/// classical bits: its indices are in range, a gate has as many qubits as it acts
/// on and no qubit twice, a condition reads at most 64 classical bits, and a
/// measurement of all qubits names one classical bit per qubit.
pub open spec fn op_valid<G: Gate>(op: CircuitOp<G>, nr_qbits: nat, nr_cbits: nat) -> bool {
    match op {
        CircuitOp::Gate(gate, bits) => bits@.len() == gate.arity() && distinct_bits(
            bits@,
            nr_qbits,
        ),
        CircuitOp::ConditionalGate(control, target, gate, bits) => {
            &&& bits@.len() == gate.arity()
            &&& distinct_bits(bits@, nr_qbits)
            &&& control@.len() <= 64
            &&& all_below(control@, nr_cbits)
        },
        CircuitOp::Reset(qbit) => qbit < nr_qbits,
        CircuitOp::ResetAll => true,
        CircuitOp::Measure(qbit, cbit, basis) => qbit < nr_qbits && cbit < nr_cbits,
        CircuitOp::MeasureAll(cbits, basis) => cbits@.len() == nr_qbits && all_below(
            cbits@,
            nr_cbits,
        ),
        CircuitOp::PeekAll(cbits) => cbits@.len() == nr_qbits && all_below(cbits@, nr_cbits),
        CircuitOp::Barrier(bits) => all_below(bits@, nr_qbits),
    }
}

/// The measurements of the qubits from `from` up to `nr_qbits`, qubit `i` going to
/// the classical bit `cbits[i]`.
pub open spec fn measurements(cbits: Seq<usize>, from: int, nr_qbits: int) -> Seq<Step>
    decreases nr_qbits - from,
{
    if from >= nr_qbits {
        Seq::empty()
    } else {
        seq![Step::Measure(from as usize, cbits[from])] + measurements(cbits, from + 1, nr_qbits)
    }
}

/// The work that the quantum engine does for the operation `op`, in order.
///
/// A gate is applied; a conditional gate is applied where its condition mask
/// holds, and everywhere when it has no control bits. A measurement in another
/// basis than `Z` comes after the gates that change the basis. A measurement of
/// all qubits is the measurement of qubit `i` into `cbits[i]` for every `i`, in
/// ascending order. A barrier is no work.
pub open spec fn plan_of<G>(op: CircuitOp<G>, nr_qbits: nat) -> Seq<Step> {
    match op {
        CircuitOp::Gate(gate, bits) => seq![Step::ApplyGate],
        CircuitOp::ConditionalGate(control, target, gate, bits) => if control@.len() == 0 {
            seq![Step::ApplyGate]
        } else {
            seq![Step::ApplyGateWhere]
        },
        CircuitOp::Reset(qbit) => seq![Step::Reset(qbit)],
        CircuitOp::ResetAll => seq![Step::ResetAll],
        CircuitOp::Measure(qbit, cbit, basis) => basis_change(basis).map_values(
            |g: BasisGate| Step::ApplyUnary(g, qbit),
        ) + seq![Step::Measure(qbit, cbit)],
        CircuitOp::MeasureAll(cbits, basis) => basis_change(basis).map_values(
            |g: BasisGate| Step::ApplyUnaryAll(g),
        ) + measurements(cbits@, 0, nr_qbits as int),
        CircuitOp::PeekAll(cbits) => seq![Step::PeekAll],
        CircuitOp::Barrier(bits) => Seq::empty(),
    }
}

/// The number of shots whose classical word is `key`.
pub open spec fn occurrences(words: Seq<u64>, key: u64) -> nat
    decreases words.len(),
{
    if words.len() == 0 {
        0
    } else {
        occurrences(words.drop_last(), key) + if words.last() == key {
            1nat
        } else {
            0nat
        }
    }
}

/// The different words of `words`, in the order in which they first occur.
pub open spec fn distinct_words(words: Seq<u64>) -> Seq<u64>
    decreases words.len(),
{
    if words.len() == 0 {
        Seq::empty()
    } else if distinct_words(words.drop_last()).contains(words.last()) {
        distinct_words(words.drop_last())
    } else {
        distinct_words(words.drop_last()).push(words.last())
    }
}

/// A word is among the different words exactly when it occurs, and no word is
/// there twice.
pub proof fn lemma_distinct_words(words: Seq<u64>)
    ensures
        distinct_words(words).no_duplicates(),
        forall|key: u64| distinct_words(words).contains(key) <==> occurrences(words, key) > 0,
    decreases words.len(),
{
    if words.len() > 0 {
        let less = distinct_words(words.drop_last());
        lemma_distinct_words(words.drop_last());
        let last = words.last();
        assert forall|key: u64| distinct_words(words).contains(key) <==> occurrences(words, key)
            > 0 by {
            if less.contains(last) {
            } else {
                let more = less.push(last);
                if more.contains(key) {
                    let i = choose|i: int| 0 <= i < more.len() && more[i] == key;
                    if i < less.len() {
                        assert(less[i] == key);
                    }
                }
                if less.contains(key) {
                    let i = choose|i: int| 0 <= i < less.len() && less[i] == key;
                    assert(more[i] == key);
                }
                if key == last {
                    assert(more[less.len() as int] == key);
                }
            }
        }
    }
}

/// The sum of the counts in `counts`.
pub open spec fn total(counts: Seq<usize>) -> nat
    decreases counts.len(),
{
    if counts.len() == 0 {
        0
    } else {
        total(counts.drop_last()) + counts.last() as nat
    }
}

/// `hist` is the histogram of `words`: it has a key for each word that occurs, with
/// the number of shots that gave it.
pub open spec fn is_histogram(words: Seq<u64>, hist: Map<u64, usize>) -> bool {
    forall|key: u64|
        (#[trigger] hist.contains_key(key) <==> occurrences(words, key) > 0) && (hist.contains_key(
            key,
        ) ==> hist[key] == occurrences(words, key))
}

/// `counts` is the histogram of `words` as a vector: the entry at index `key` is
/// the number of shots that gave the word `key`.
pub open spec fn is_histogram_vec(words: Seq<u64>, counts: Seq<usize>) -> bool {
    forall|key: int| 0 <= key < counts.len() ==> #[trigger] counts[key] == occurrences(words, key as u64)
}

/// No word occurs more often than there are shots.
pub proof fn lemma_occurrences_bound(words: Seq<u64>, key: u64)
    ensures
        occurrences(words, key) <= words.len(),
    decreases words.len(),
{
    if words.len() > 0 {
        lemma_occurrences_bound(words.drop_last(), key);
    }
}

/// Raising one count by one raises the sum by one.
pub proof fn lemma_total_update(counts: Seq<usize>, k: int, v: usize)
    requires
        0 <= k < counts.len(),
    ensures
        total(counts.update(k, v)) == total(counts) - counts[k] + v,
    decreases counts.len(),
{
    if k == counts.len() - 1 {
        assert(counts.update(k, v).drop_last() =~= counts.drop_last());
    } else {
        lemma_total_update(counts.drop_last(), k, v);
        assert(counts.update(k, v).drop_last() =~= counts.drop_last().update(k, v));
    }
}

/// A vector of zeros sums to zero.
pub proof fn lemma_total_zeros(counts: Seq<usize>)
    requires
        forall|k: int| 0 <= k < counts.len() ==> counts[k] == 0,
    ensures
        total(counts) == 0,
    decreases counts.len(),
{
    if counts.len() > 0 {
        lemma_total_zeros(counts.drop_last());
    }
}

/// The two histograms of one register agree key by key: the vector holds at each
/// index the count that the map holds for that key, and zero where the map has no
/// such key.
pub proof fn lemma_histograms_agree(words: Seq<u64>, hist: Map<u64, usize>, counts: Seq<usize>)
    requires
        is_histogram(words, hist),
        is_histogram_vec(words, counts),
    ensures
        forall|key: int|
            0 <= key < counts.len() ==> #[trigger] counts[key] == (if hist.contains_key(key as u64) {
                hist[key as u64]
            } else {
                0
            }),
{
    assert forall|key: int| 0 <= key < counts.len() implies #[trigger] counts[key] == (
    if hist.contains_key(key as u64) {
        hist[key as u64]
    } else {
        0
    }) by {
        assert(hist.contains_key(key as u64) <==> occurrences(words, key as u64) > 0);
    }
}

proof fn lemma_fits_with_bit(word: u64, n: u64, c: u64, v: u64)
    by (bit_vector)
    requires
        n < 64,
        c < n,
        v <= 1,
        word < (1u64 << n),
    ensures
        ((word & !(1u64 << c)) | (v << c)) < (1u64 << n),
{
}

/// A word that fits `n` classical bits, with `n` below the width of an index, is an
/// index below two to `n`, the number of bins.
proof fn lemma_fits_index(word: u64, n: usize)
    requires
        n < usize::BITS,
    ensures
        (1usize << n) == pow2(n as nat),
        fits(word, n as nat) ==> word < pow2(n as nat),
        pow2(n as nat) <= usize::MAX,
{
    lemma_usize_pow2_no_overflow(n as nat);
    lemma_u64_pow2_no_overflow(n as nat);
    assert(1 * pow2(n as nat) <= usize::MAX);
    lemma_usize_shl_is_mul(1, n);
    lemma_u64_shl_is_mul(1, n as u64);
}

/// The sum of the counts that the histogram `hist` holds for the keys in `keys`.
pub open spec fn total_of(hist: Map<u64, usize>, keys: Seq<u64>) -> nat
    decreases keys.len(),
{
    if keys.len() == 0 {
        0
    } else {
        total_of(hist, keys.drop_last()) + hist[keys.last()] as nat
    }
}

/// The sum of the numbers of shots that gave the words in `keys`.
pub open spec fn counted(words: Seq<u64>, keys: Seq<u64>) -> nat
    decreases keys.len(),
{
    if keys.len() == 0 {
        0
    } else {
        counted(words, keys.drop_last()) + occurrences(words, keys.last())
    }
}

/// One more shot raises the sum over keys that are all different by one where its
/// word is among the keys, and leaves it where it is not.
proof fn lemma_counted_push(words: Seq<u64>, keys: Seq<u64>)
    requires
        words.len() > 0,
        keys.no_duplicates(),
    ensures
        counted(words, keys) == counted(words.drop_last(), keys) + (if keys.contains(
            words.last(),
        ) {
            1nat
        } else {
            0nat
        }),
    decreases keys.len(),
{
    if keys.len() > 0 {
        let fewer = keys.drop_last();
        let key = keys.last();
        lemma_counted_push(words, fewer);
        if fewer.contains(words.last()) {
            let k = choose|k: int| 0 <= k < fewer.len() && fewer[k] == words.last();
            assert(keys[k] == words.last());
            assert(key != words.last());
            assert(keys.contains(words.last()));
        } else if key == words.last() {
            assert(keys[keys.len() - 1] == words.last());
        } else {
            assert(!keys.contains(words.last())) by {
                if keys.contains(words.last()) {
                    let k = choose|k: int| 0 <= k < keys.len() && keys[k] == words.last();
                    assert(fewer[k] == words.last());
                }
            }
        }
    }
}

/// The numbers of shots of the different words add up to the number of shots.
pub proof fn lemma_counted_total(words: Seq<u64>)
    ensures
        counted(words, distinct_words(words)) == words.len(),
    decreases words.len(),
{
    if words.len() > 0 {
        let less = words.drop_last();
        let keys = distinct_words(less);
        lemma_counted_total(less);
        lemma_distinct_words(less);
        lemma_counted_push(words, keys);
        if !keys.contains(words.last()) {
            assert(distinct_words(words).drop_last() =~= keys);
            assert(occurrences(less, words.last()) == 0);
        }
    }
}

/// The counts of a histogram add up to the number of shots: its keys are the
/// different words of the register, each once, and the sum of its values over
/// them is the number of shots.
pub proof fn lemma_histogram_map_total(words: Seq<u64>, hist: Map<u64, usize>)
    requires
        is_histogram(words, hist),
    ensures
        distinct_words(words).no_duplicates(),
        forall|key: u64| hist.contains_key(key) <==> distinct_words(words).contains(key),
        total_of(hist, distinct_words(words)) == words.len(),
{
    lemma_distinct_words(words);
    lemma_counted_total(words);
    let keys = distinct_words(words);
    assert forall|k: int| 0 <= k < keys.len() implies occurrences(words, #[trigger] keys[k])
        > 0 by {
        assert(keys.contains(keys[k]));
    }
    lemma_total_of_counted(words, hist, keys);
    assert forall|key: u64| hist.contains_key(key) <==> distinct_words(words).contains(key) by {
        assert(hist.contains_key(key) <==> occurrences(words, key) > 0);
    }
}

/// Over keys that occur, the values of a histogram are the numbers of shots.
proof fn lemma_total_of_counted(words: Seq<u64>, hist: Map<u64, usize>, keys: Seq<u64>)
    requires
        is_histogram(words, hist),
        forall|k: int| 0 <= k < keys.len() ==> occurrences(words, #[trigger] keys[k]) > 0,
    ensures
        total_of(hist, keys) == counted(words, keys),
    decreases keys.len(),
{
    if keys.len() > 0 {
        lemma_total_of_counted(words, hist, keys.drop_last());
        let key = keys[keys.len() - 1];
        assert(hist.contains_key(key) <==> occurrences(words, key) > 0);
    }
}

/// The histogram vector of a register adds up to the number of shots, where every
/// word of the register has a bin.
pub proof fn lemma_histogram_total(words: Seq<u64>, counts: Seq<usize>)
    requires
        is_histogram_vec(words, counts),
        counts.len() <= u64::MAX,
        forall|s: int| 0 <= s < words.len() ==> #[trigger] words[s] < counts.len(),
    ensures
        total(counts) == words.len(),
    decreases words.len(),
{
    if words.len() == 0 {
        lemma_total_zeros(counts);
    } else {
        let less = words.drop_last();
        let key = words.last() as int;
        lemma_occurrences_bound(less, words.last());
        let fewer = counts.update(key, (counts[key] - 1) as usize);
        assert forall|k: int| 0 <= k < fewer.len() implies #[trigger] fewer[k] == occurrences(
            less,
            k as u64,
        ) by {
            assert(counts[k] == occurrences(words, k as u64));
        }
        assert forall|s: int| 0 <= s < less.len() implies #[trigger] less[s] < fewer.len() by {
            assert(less[s] == words[s]);
        }
        lemma_histogram_total(less, fewer);
        lemma_total_update(counts, key, (counts[key] - 1) as usize);
    }
}

/// Setting one of the classical bits of a circuit keeps a word within them.
pub proof fn lemma_with_bit_fits(word: u64, nr_cbits: nat, cbit: usize, bit: bool)
    requires
        fits(word, nr_cbits),
        cbit < nr_cbits,
        cbit < 64,
    ensures
        fits(with_bit(word, cbit, bit), nr_cbits),
{
    if nr_cbits < 64 {
        lemma_fits_with_bit(word, nr_cbits as u64, cbit as u64, if bit { 1u64 } else { 0u64 });
    }
}

/// Whether every index in `idxs` is below `n`.
pub fn check_all_below(idxs: &[usize], n: usize) -> (ok: bool)
    ensures
        ok == all_below(idxs@, n as nat),
{
    let mut k: usize = 0;
    while k < idxs.len()
        invariant
            k <= idxs@.len(),
            forall|a: int| 0 <= a < k ==> #[trigger] idxs@[a] < n,
        decreases idxs.len() - k,
    {
        if idxs[k] >= n {
            return false;
        }
        k += 1;
    }
    true
}

/// The classical word `word` after a sample of all qubits is recorded: for each
/// qubit `i` below `upto`, the classical bit `cbits[i]` takes the bit of qubit `i`
/// in the sampled basis state `sample`. Qubit 0 is the most significant of the
/// `nr_qbits` bits of a basis state.
pub open spec fn peeked(word: u64, sample: usize, cbits: Seq<usize>, nr_qbits: usize, upto: int) -> u64
    decreases upto,
{
    if upto <= 0 {
        word
    } else {
        with_bit(
            peeked(word, sample, cbits, nr_qbits, upto - 1),
            cbits[upto - 1],
            qubit_set(sample, nr_qbits, (upto - 1) as usize),
        )
    }
}

/// A quantum circuit
///
/// Struct Circuit represents a quantum circuit: the operations to be performed on
/// a quantum state, and the classical register that takes the results of the
/// measurements. The quantum state itself lives with the engine that does the
/// work.
pub struct Circuit<G> {
    /// The number of quantum bits in the system
    nr_qbits: usize,
    /// The number of classical bit in the system
    nr_cbits: usize,
    /// The classial state of the system
    c_state: Option<ClassicalRegister>,
    /// The operations to perform on the state
    ops: Vec<CircuitOp<G>>,
}

impl<G> Circuit<G> {
    /// The number of quantum bits in this circuit
    pub closed spec fn spec_nr_qbits(&self) -> nat {
        self.nr_qbits as nat
    }

    /// The number of classical bits in this circuit
    pub closed spec fn spec_nr_cbits(&self) -> nat {
        self.nr_cbits as nat
    }

    /// The operations of this circuit, in order.
    pub closed spec fn spec_ops(&self) -> Seq<CircuitOp<G>> {
        self.ops@
    }

    /// The words of the classical register, or `None` before the first run.
    pub closed spec fn spec_cstate(&self) -> Option<Seq<u64>> {
        match self.c_state {
            Some(reg) => Some(reg@),
            None => None,
        }
    }

    /// The words of the classical register use the classical bits of this circuit
    /// and no others.
    pub open spec fn wf(&self) -> bool {
        self.spec_cstate() matches Some(words) ==> forall|s: int|
            0 <= s < words.len() ==> fits(#[trigger] words[s], self.spec_nr_cbits())
    }

    /// Create a new circuit.
    ///
    /// Create a new (empty) quantum circuit, with `nr_qbits` quantum bits and
    /// `nr_cbits` classical bits.
    pub fn new(nr_qbits: usize, nr_cbits: usize) -> (c: Self)
        ensures
            c.wf(),
            c.spec_nr_qbits() == nr_qbits,
            c.spec_nr_cbits() == nr_cbits,
            c.spec_ops() == Seq::<CircuitOp<G>>::empty(),
            c.spec_cstate() is None,
    {
        Circuit { nr_qbits: nr_qbits, nr_cbits: nr_cbits, c_state: None, ops: Vec::new() }
    }

    /// The number of quantum bits in this circuit
    pub fn nr_qbits(&self) -> (n: usize)
        ensures
            n == self.spec_nr_qbits(),
    {
        self.nr_qbits
    }

    /// The number of classical bits in this circuit
    pub fn nr_cbits(&self) -> (n: usize)
        ensures
            n == self.spec_nr_cbits(),
    {
        self.nr_cbits
    }

    /// The classical register.
    ///
    /// Return a reference to the classical bit register, containing the results
    /// of any measurements made on the system. If no experiment has been run
    /// yet, `None` is returned.
    pub fn cstate(&self) -> (r: Option<&ClassicalRegister>)
        ensures
            match r {
                Some(reg) => self.spec_cstate() == Some(reg@),
                None => self.spec_cstate() is None,
            },
    {
        self.c_state.as_ref()
    }

    /// The number of operations in this circuit.
    pub fn nr_ops(&self) -> (n: usize)
        ensures
            n == self.spec_ops().len(),
    {
        self.ops.len()
    }

    /// The operation at position `k`.
    pub fn op(&self, k: usize) -> (op: &CircuitOp<G>)
        requires
            k < self.spec_ops().len(),
        ensures
            *op == self.spec_ops()[k as int],
    {
        &self.ops[k]
    }

    /// Append the operation `op` to this circuit.
    pub fn add_op(&mut self, op: CircuitOp<G>)
        ensures
            final(self).spec_ops() == old(self).spec_ops().push(op),
            final(self).spec_nr_qbits() == old(self).spec_nr_qbits(),
            final(self).spec_nr_cbits() == old(self).spec_nr_cbits(),
            final(self).spec_cstate() == old(self).spec_cstate(),
    {
        self.ops.push(op);
    }

    /// Add a gate.
    ///
    /// Append a `n`-ary gate `gate`, operating on the `n` qubits in `bits`, to
    /// this circuit.
    pub fn add_gate(&mut self, gate: G, bits: &[usize])
        ensures
            final(self).spec_ops().drop_last() == old(self).spec_ops(),
            final(self).spec_ops().len() == old(self).spec_ops().len() + 1,
            final(self).spec_ops().last() matches CircuitOp::Gate(g, b) && g == gate && b@
                == bits@,
            final(self).spec_nr_qbits() == old(self).spec_nr_qbits(),
            final(self).spec_nr_cbits() == old(self).spec_nr_cbits(),
            final(self).spec_cstate() == old(self).spec_cstate(),
    {
        let ghost before = self.ops@;
        self.add_op(CircuitOp::Gate(gate, slice_to_vec(bits)));
        assert(self.ops@.drop_last() =~= before);
    }

    /// Add a conditional gate.
    ///
    /// Append a `n`-ary gate `gate`, that will operate on the `n` qubits in
    /// `bits` to this circuit. It will only be applied when the classical
    /// bits with indices from `control` form the target word `target`. The bit at
    /// the position of the first index in `control` is interpreted as the least
    /// significant bit to check.
    pub fn add_conditional_gate(&mut self, control: &[usize], target: u64, gate: G, bits: &[usize])
        ensures
            final(self).spec_ops().drop_last() == old(self).spec_ops(),
            final(self).spec_ops().len() == old(self).spec_ops().len() + 1,
            final(self).spec_ops().last() matches CircuitOp::ConditionalGate(c, t, g, b) && c@
                == control@ && t == target && g == gate && b@ == bits@,
            final(self).spec_nr_qbits() == old(self).spec_nr_qbits(),
            final(self).spec_nr_cbits() == old(self).spec_nr_cbits(),
            final(self).spec_cstate() == old(self).spec_cstate(),
    {
        let ghost before = self.ops@;
        self.add_op(
            CircuitOp::ConditionalGate(slice_to_vec(control), target, gate, slice_to_vec(bits)),
        );
        assert(self.ops@.drop_last() =~= before);
    }

    /// Add a measurement
    ///
    /// Add measurement of qubit `qbit` in basis `basis`, into classical bit
    /// `cbit`, to this circuit.
    pub fn measure_basis(&mut self, qbit: usize, cbit: usize, basis: Basis)
        ensures
            final(self).spec_ops() == old(self).spec_ops().push(
                CircuitOp::Measure(qbit, cbit, basis),
            ),
            final(self).spec_nr_qbits() == old(self).spec_nr_qbits(),
            final(self).spec_nr_cbits() == old(self).spec_nr_cbits(),
            final(self).spec_cstate() == old(self).spec_cstate(),
    {
        self.add_op(CircuitOp::Measure(qbit, cbit, basis));
    }

    /// Add a measurement.
    ///
    /// Add measurement of qubit `qbit` in the Pauli `X` basis, into classical
    /// bit `cbit` to this circuit.
    pub fn measure_x(&mut self, qbit: usize, cbit: usize)
        ensures
            final(self).spec_ops() == old(self).spec_ops().push(
                CircuitOp::Measure(qbit, cbit, Basis::X),
            ),
            final(self).spec_nr_qbits() == old(self).spec_nr_qbits(),
            final(self).spec_nr_cbits() == old(self).spec_nr_cbits(),
            final(self).spec_cstate() == old(self).spec_cstate(),
    {
        self.measure_basis(qbit, cbit, Basis::X);
    }

    /// Add a measurement.
    ///
    /// Add measurement of qubit `qbit` in the Pauli `Y` basis, into classical
    /// bit `cbit` to this circuit.
    pub fn measure_y(&mut self, qbit: usize, cbit: usize)
        ensures
            final(self).spec_ops() == old(self).spec_ops().push(
                CircuitOp::Measure(qbit, cbit, Basis::Y),
            ),
            final(self).spec_nr_qbits() == old(self).spec_nr_qbits(),
            final(self).spec_nr_cbits() == old(self).spec_nr_cbits(),
            final(self).spec_cstate() == old(self).spec_cstate(),
    {
        self.measure_basis(qbit, cbit, Basis::Y);
    }

    /// Add a measurement.
    ///
    /// Add measurement of qubit `qbit` in the Pauli `Z` basis, into classical
    /// bit `cbit` to this circuit.
    pub fn measure_z(&mut self, qbit: usize, cbit: usize)
        ensures
            final(self).spec_ops() == old(self).spec_ops().push(
                CircuitOp::Measure(qbit, cbit, Basis::Z),
            ),
            final(self).spec_nr_qbits() == old(self).spec_nr_qbits(),
            final(self).spec_nr_cbits() == old(self).spec_nr_cbits(),
            final(self).spec_cstate() == old(self).spec_cstate(),
    {
        self.measure_basis(qbit, cbit, Basis::Z);
    }

    /// Add a measurement.
    ///
    /// Add measurement of qubit `qbit` into classical bit `cbit` to this circuit.
    /// This is an alias for `measure_z()`.
    pub fn measure(&mut self, qbit: usize, cbit: usize)
        ensures
            final(self).spec_ops() == old(self).spec_ops().push(
                CircuitOp::Measure(qbit, cbit, Basis::Z),
            ),
            final(self).spec_nr_qbits() == old(self).spec_nr_qbits(),
            final(self).spec_nr_cbits() == old(self).spec_nr_cbits(),
            final(self).spec_cstate() == old(self).spec_cstate(),
    {
        self.measure_basis(qbit, cbit, Basis::Z);
    }

    /// Add a measurement.
    ///
    /// Add the measurement of all qubits in the quantum state into the classical
    /// bits `cbits`. Measurement is done in basis `basis`.
    pub fn measure_all_basis(&mut self, cbits: &[usize], basis: Basis)
        ensures
            final(self).spec_ops().drop_last() == old(self).spec_ops(),
            final(self).spec_ops().len() == old(self).spec_ops().len() + 1,
            final(self).spec_ops().last() matches CircuitOp::MeasureAll(c, b) && c@ == cbits@ && b
                == basis,
            final(self).spec_nr_qbits() == old(self).spec_nr_qbits(),
            final(self).spec_nr_cbits() == old(self).spec_nr_cbits(),
            final(self).spec_cstate() == old(self).spec_cstate(),
    {
        let ghost before = self.ops@;
        self.add_op(CircuitOp::MeasureAll(slice_to_vec(cbits), basis));
        assert(self.ops@.drop_last() =~= before);
    }

    /// Add a measurement.
    ///
    /// Add the measurement of all qubits in the quantum state into the classical
    /// bits `cbits`. Measurement is done in the Pauli `Z` basis.
    pub fn measure_all(&mut self, cbits: &[usize])
        ensures
            final(self).spec_ops().drop_last() == old(self).spec_ops(),
            final(self).spec_ops().len() == old(self).spec_ops().len() + 1,
            final(self).spec_ops().last() matches CircuitOp::MeasureAll(c, b) && c@ == cbits@ && b
                == Basis::Z,
            final(self).spec_nr_qbits() == old(self).spec_nr_qbits(),
            final(self).spec_nr_cbits() == old(self).spec_nr_cbits(),
            final(self).spec_cstate() == old(self).spec_cstate(),
    {
        self.measure_all_basis(cbits, Basis::Z);
    }

    /// Add a measurement.
    ///
    /// Add the measurement of all qubits in the quantum state into the classical
    /// bits `cbits`. Measurement is done in the Pauli `Z` basis, without
    /// collapsing the quantum state.
    /// NOTE: this is not a physical process, and cannot be reproduced on a real
    /// quantum computer.
    pub fn peek_all(&mut self, cbits: &[usize])
        ensures
            final(self).spec_ops().drop_last() == old(self).spec_ops(),
            final(self).spec_ops().len() == old(self).spec_ops().len() + 1,
            final(self).spec_ops().last() matches CircuitOp::PeekAll(c) && c@ == cbits@,
            final(self).spec_nr_qbits() == old(self).spec_nr_qbits(),
            final(self).spec_nr_cbits() == old(self).spec_nr_cbits(),
            final(self).spec_cstate() == old(self).spec_cstate(),
    {
        let ghost before = self.ops@;
        self.add_op(CircuitOp::PeekAll(slice_to_vec(cbits)));
        assert(self.ops@.drop_last() =~= before);
    }

    /// Reset a qubit
    ///
    /// Reset the qubit `qbit` to |0>. This is done by measuring the bit, and
    /// flipping it if the result is `1`, so this is potentially an expensive
    /// operation.
    pub fn reset(&mut self, qbit: usize)
        ensures
            final(self).spec_ops() == old(self).spec_ops().push(CircuitOp::Reset(qbit)),
            final(self).spec_nr_qbits() == old(self).spec_nr_qbits(),
            final(self).spec_nr_cbits() == old(self).spec_nr_cbits(),
            final(self).spec_cstate() == old(self).spec_cstate(),
    {
        self.add_op(CircuitOp::Reset(qbit));
    }

    /// Reset all qubits
    ///
    /// Reset the entire quantum state of the circuit to |00...0>. The classical
    /// register is not affected.
    pub fn reset_all(&mut self)
        ensures
            final(self).spec_ops() == old(self).spec_ops().push(CircuitOp::ResetAll),
            final(self).spec_nr_qbits() == old(self).spec_nr_qbits(),
            final(self).spec_nr_cbits() == old(self).spec_nr_cbits(),
            final(self).spec_cstate() == old(self).spec_cstate(),
    {
        self.add_op(CircuitOp::ResetAll);
    }

    /// Add a barrier
    ///
    /// Add a barrier on the bits in `bits`. No transformations on these bits
    /// are allowed across this barrier.
    pub fn barrier(&mut self, bits: &[usize])
        ensures
            final(self).spec_ops().drop_last() == old(self).spec_ops(),
            final(self).spec_ops().len() == old(self).spec_ops().len() + 1,
            final(self).spec_ops().last() matches CircuitOp::Barrier(b) && b@ == bits@,
            final(self).spec_nr_qbits() == old(self).spec_nr_qbits(),
            final(self).spec_nr_cbits() == old(self).spec_nr_cbits(),
            final(self).spec_cstate() == old(self).spec_cstate(),
    {
        let ghost before = self.ops@;
        self.add_op(CircuitOp::Barrier(slice_to_vec(bits)));
        assert(self.ops@.drop_last() =~= before);
    }

    /// The work that the quantum engine does for the operation at position `k`, in
    /// order.
    pub fn plan(&self, k: usize) -> (steps: Vec<Step>)
        requires
            k < self.spec_ops().len(),
            self.spec_ops()[k as int] matches CircuitOp::MeasureAll(cbits, basis) ==> cbits@.len()
                == self.spec_nr_qbits(),
        ensures
            steps@ == plan_of(self.spec_ops()[k as int], self.spec_nr_qbits()),
    {
        let mut steps: Vec<Step> = Vec::new();
        match &self.ops[k] {
            CircuitOp::Gate(gate, bits) => {
                steps.push(Step::ApplyGate);
            },
            CircuitOp::ConditionalGate(control, target, gate, bits) => {
                if control.len() == 0 {
                    steps.push(Step::ApplyGate);
                } else {
                    steps.push(Step::ApplyGateWhere);
                }
            },
            CircuitOp::Reset(qbit) => {
                steps.push(Step::Reset(*qbit));
            },
            CircuitOp::ResetAll => {
                steps.push(Step::ResetAll);
            },
            CircuitOp::Measure(qbit, cbit, basis) => {
                match basis {
                    Basis::X => {
                        steps.push(Step::ApplyUnary(BasisGate::H, *qbit));
                    },
                    Basis::Y => {
                        steps.push(Step::ApplyUnary(BasisGate::Sdg, *qbit));
                        steps.push(Step::ApplyUnary(BasisGate::H, *qbit));
                    },
                    Basis::Z => {},
                }
                steps.push(Step::Measure(*qbit, *cbit));
            },
            CircuitOp::MeasureAll(cbits, basis) => {
                match basis {
                    Basis::X => {
                        steps.push(Step::ApplyUnaryAll(BasisGate::H));
                    },
                    Basis::Y => {
                        steps.push(Step::ApplyUnaryAll(BasisGate::Sdg));
                        steps.push(Step::ApplyUnaryAll(BasisGate::H));
                    },
                    Basis::Z => {},
                }
                let ghost prefix = steps@;
                let n: usize = self.nr_qbits;
                assert(prefix =~= basis_change(*basis).map_values(
                    |g: BasisGate| Step::ApplyUnaryAll(g),
                ));
                let mut i: usize = 0;
                while i < n
                    invariant
                        i <= n,
                        n == cbits@.len(),
                        steps@ + measurements(cbits@, i as int, n as int) == prefix + measurements(
                            cbits@,
                            0,
                            n as int,
                        ),
                    decreases n - i,
                {
                    let ghost before = steps@;
                    steps.push(Step::Measure(i, cbits[i]));
                    assert(steps@ + measurements(cbits@, i + 1, n as int) =~= before
                        + measurements(cbits@, i as int, n as int));
                    i += 1;
                }
                assert(steps@ =~= steps@ + measurements(cbits@, n as int, n as int));
            },
            CircuitOp::PeekAll(cbits) => {
                steps.push(Step::PeekAll);
            },
            CircuitOp::Barrier(bits) => {},
        }
        assert(steps@ =~= plan_of(self.spec_ops()[k as int], self.spec_nr_qbits()));
        steps
    }

    /// Begin a run of `nr_shots` shots: the classical register gets one word per
    /// shot, with every classical bit 0. This clears any previous classical state.
    pub fn start(&mut self, nr_shots: usize)
        requires
            8 * nr_shots <= isize::MAX,
        ensures
            final(self).wf(),
            final(self).spec_cstate() == Some(Seq::new(nr_shots as nat, |s: int| 0u64)),
            final(self).spec_ops() == old(self).spec_ops(),
            final(self).spec_nr_qbits() == old(self).spec_nr_qbits(),
            final(self).spec_nr_cbits() == old(self).spec_nr_cbits(),
    {
        let reg = ClassicalRegister::new(nr_shots);
        assert(reg@ =~= Seq::new(nr_shots as nat, |s: int| 0u64));
        assert forall|s: int| 0 <= s < reg@.len() implies fits(
            #[trigger] reg@[s],
            self.nr_cbits as nat,
        ) by {
            if self.nr_cbits < 64 {
                let n = self.nr_cbits as u64;
                assert(0u64 < (1u64 << n)) by (bit_vector)
                    requires
                        n < 64,
                ;
            }
        }
        self.c_state = Some(reg);
    }

    /// Replace the classical register by one that holds `words`, one word per shot.
    /// Returns whether this was done: it is not where a word uses a bit that is no
    /// classical bit of this circuit.
    pub fn load_cstate(&mut self, words: Vec<u64>) -> (done: bool)
        requires
            old(self).wf(),
        ensures
            final(self).wf(),
            done == (forall|s: int|
                0 <= s < words@.len() ==> fits(#[trigger] words@[s], old(self).spec_nr_cbits())),
            final(self).spec_cstate() == (if done {
                Some(words@)
            } else {
                old(self).spec_cstate()
            }),
            final(self).spec_ops() == old(self).spec_ops(),
            final(self).spec_nr_qbits() == old(self).spec_nr_qbits(),
            final(self).spec_nr_cbits() == old(self).spec_nr_cbits(),
    {
        if self.nr_cbits < 64 {
            let limit: u64 = 1u64 << (self.nr_cbits as u64);
            let mut s: usize = 0;
            while s < words.len()
                invariant
                    s <= words@.len(),
                    self.nr_cbits < 64,
                    self.wf(),
                    self.spec_cstate() == old(self).spec_cstate(),
                    self.spec_ops() == old(self).spec_ops(),
                    self.spec_nr_qbits() == old(self).spec_nr_qbits(),
                    self.spec_nr_cbits() == old(self).spec_nr_cbits(),
                    limit == 1u64 << (self.nr_cbits as u64),
                    forall|t: int| 0 <= t < s ==> fits(#[trigger] words@[t], self.nr_cbits as nat),
                decreases words.len() - s,
            {
                if words[s] >= limit {
                    assert(!fits(words@[s as int], self.nr_cbits as nat));
                    return false;
                }
                s += 1;
            }
        }
        self.c_state = Some(ClassicalRegister::from_vec(words));
        true
    }

    /// For each shot, whether the condition of the conditional gate at position `k`
    /// holds: whether the classical bits with the indices in its control list,
    /// the first one least significant, make up its target word.
    pub fn condition_mask(&self, k: usize) -> (r: Result<Vec<bool>, Error>)
        requires
            k < self.spec_ops().len(),
            self.spec_ops()[k as int] matches CircuitOp::ConditionalGate(control, target, gate, bits)
                && control@.len() <= 64 && all_below(control@, 64),
        ensures
            match self.spec_cstate() {
                Some(words) => r matches Ok(mask) && mask@.len() == words.len() && forall|s: int|
                    0 <= s < words.len() ==> #[trigger] mask@[s] == (assembled_word(
                        words[s],
                        self.spec_ops()[k as int]->ConditionalGate_0@,
                    ) == self.spec_ops()[k as int]->ConditionalGate_1),
                None => r == Err::<Vec<bool>, Error>(Error::NotExecuted),
            },
    {
        let reg: &ClassicalRegister = match &self.c_state {
            Some(reg) => reg,
            None => {
                return Err(Error::NotExecuted);
            },
        };
        match &self.ops[k] {
            CircuitOp::ConditionalGate(control, target, gate, bits) => {
                let n: usize = reg.len();
                let mut mask: Vec<bool> = Vec::new();
                let mut s: usize = 0;
                while s < n
                    invariant
                        s <= n,
                        n == reg@.len(),
                        mask@.len() == s,
                        control@.len() <= 64,
                        all_below(control@, 64),
                        forall|t: int|
                            0 <= t < s ==> #[trigger] mask@[t] == (assembled_word(
                                reg@[t],
                                control@,
                            ) == *target),
                    decreases n - s,
                {
                    let word: u64 = reg.word(s);
                    let mut read: u64 = 0;
                    let mut idst: usize = 0;
                    while idst < control.len()
                        invariant
                            idst <= control@.len(),
                            control@.len() <= 64,
                            all_below(control@, 64),
                            read == assembled_word(word, control@.take(idst as int)),
                        decreases control.len() - idst,
                    {
                        let isrc: usize = control[idst];
                        read = read | (((word >> isrc) & 1) << idst);
                        proof {
                            let now = control@.take(idst + 1);
                            assert(now.drop_last() =~= control@.take(idst as int));
                        }
                        idst += 1;
                    }
                    assert(control@.take(control@.len() as int) =~= control@);
                    mask.push(read == *target);
                    s += 1;
                }
                Ok(mask)
            },
            _ => Err(Error::NotExecuted),
        }
    }

    /// Record the outcomes of a measurement: classical bit `cbit` of every shot `s`
    /// becomes `outcomes[s]`, and the other classical bits stay as they are.
    pub fn store_measurement(&mut self, cbit: usize, outcomes: &[bool]) -> (r: Result<(), Error>)
        requires
            old(self).wf(),
            cbit < old(self).spec_nr_cbits(),
            cbit < 64,
            old(self).spec_cstate() matches Some(words) ==> outcomes@.len() == words.len(),
        ensures
            final(self).wf(),
            final(self).spec_ops() == old(self).spec_ops(),
            final(self).spec_nr_qbits() == old(self).spec_nr_qbits(),
            final(self).spec_nr_cbits() == old(self).spec_nr_cbits(),
            match old(self).spec_cstate() {
                Some(words) => r is Ok && (final(self).spec_cstate() matches Some(after)
                    && after.len() == words.len() && forall|s: int|
                    0 <= s < words.len() ==> #[trigger] after[s] == with_bit(
                        words[s],
                        cbit,
                        outcomes@[s],
                    )),
                None => r == Err::<(), Error>(Error::NotExecuted) && final(self).spec_cstate()
                    is None,
            },
    {
        let ghost before = self.spec_cstate();
        let ghost nr_cbits = self.nr_cbits as nat;
        match &mut self.c_state {
            Some(reg) => {
                reg.store_bit(cbit, outcomes);
            },
            None => {
                return Err(Error::NotExecuted);
            },
        }
        proof {
            let words = before.unwrap();
            let after = self.spec_cstate().unwrap();
            assert forall|s: int| 0 <= s < after.len() implies fits(
                #[trigger] after[s],
                nr_cbits,
            ) by {
                lemma_with_bit_fits(words[s], nr_cbits, cbit, outcomes@[s]);
            }
        }
        Ok(())
    }

    /// Create a histogram of measurements.
    ///
    /// Create a histogram of the measured classical bits. The `n` bits in the
    /// classical register are collected in a single `u64` integer value. The
    /// first bit in the classical register (at index 0) corresponds to the
    /// least significant bit in the key; the last classical bit (at index `n-1`)
    /// to the most significant bit in the key.
    pub fn histogram(&self) -> (r: Result<HashMap<u64, usize>, Error>)
        ensures
            match self.spec_cstate() {
                Some(words) => r matches Ok(hist) && is_histogram(words, hist@),
                None => r == Err::<HashMap<u64, usize>, Error>(Error::NotExecuted),
            },
    {
        broadcast use vstd::std_specs::hash::group_hash_axioms;

        let reg: &ClassicalRegister = match &self.c_state {
            Some(reg) => reg,
            None => {
                return Err(Error::NotExecuted);
            },
        };
        let n: usize = reg.len();
        let mut res: HashMap<u64, usize> = HashMap::new();
        let mut s: usize = 0;
        while s < n
            invariant
                s <= n,
                n == reg@.len(),
                is_histogram(reg@.take(s as int), res@),
            decreases n - s,
        {
            let key: u64 = reg.word(s);
            let ghost seen = reg@.take(s as int);
            let ghost now = reg@.take(s + 1);
            let ghost before = res@;
            proof {
                assert(now.drop_last() =~= seen);
                lemma_occurrences_bound(seen, key);
            }
            let count: usize = match res.get(&key) {
                Some(count) => *count,
                None => 0,
            };
            res.insert(key, count + 1);
            proof {
                assert forall|k: u64|
                    (#[trigger] res@.contains_key(k) <==> occurrences(now, k) > 0) && (
                    res@.contains_key(k) ==> res@[k] == occurrences(now, k)) by {
                    assert(before.contains_key(k) <==> occurrences(seen, k) > 0);
                }
            }
            s += 1;
        }
        assert(reg@.take(n as int) =~= reg@);
        Ok(res)
    }

    /// Create a histogram of measurements.
    ///
    /// Create a histogram of the measured classical bits. The `n` bits in the
    /// classical register are collected in a string key, with the last character
    /// in the key corresponding to the first bit (at index 0) in the classical
    /// register and vice versa. The histogram has one entry, a key and its count,
    /// for each word that occurs, in the order in which the words first occur.
    pub fn histogram_string(&self) -> (r: Result<Vec<(String, usize)>, Error>)
        ensures
            match self.spec_cstate() {
                Some(words) => r matches Ok(hist) && hist@.len() == distinct_words(words).len()
                    && forall|i: int|
                    0 <= i < hist@.len() ==> (#[trigger] hist@[i]).0@ == binary_padded(
                        distinct_words(words)[i] as nat,
                        self.spec_nr_cbits(),
                    ) && hist@[i].1 == occurrences(words, distinct_words(words)[i]),
                None => r == Err::<Vec<(String, usize)>, Error>(Error::NotExecuted),
            },
    {
        let reg: &ClassicalRegister = match &self.c_state {
            Some(reg) => reg,
            None => {
                return Err(Error::NotExecuted);
            },
        };
        let n: usize = reg.len();
        let mut keys: Vec<u64> = Vec::new();
        let mut counts: Vec<usize> = Vec::new();
        let mut s: usize = 0;
        while s < n
            invariant
                s <= n,
                n == reg@.len(),
                keys@ == distinct_words(reg@.take(s as int)),
                counts@.len() == keys@.len(),
                forall|i: int|
                    0 <= i < keys@.len() ==> #[trigger] counts@[i] == occurrences(
                        reg@.take(s as int),
                        keys@[i],
                    ),
            decreases n - s,
        {
            let key: u64 = reg.word(s);
            let ghost seen = reg@.take(s as int);
            let ghost now = reg@.take(s + 1);
            proof {
                assert(now.drop_last() =~= seen);
                lemma_distinct_words(seen);
            }
            let mut at: usize = 0;
            while at < keys.len() && keys[at] != key
                invariant
                    at <= keys@.len(),
                    forall|i: int| 0 <= i < at ==> keys@[i] != key,
                decreases keys.len() - at,
            {
                at += 1;
            }
            if at < keys.len() {
                proof {
                    assert(keys@.contains(key));
                    lemma_occurrences_bound(seen, key);
                }
                let count: usize = counts[at];
                counts[at] = count + 1;
            } else {
                proof {
                    assert(!keys@.contains(key));
                    assert(occurrences(seen, key) == 0);
                }
                keys.push(key);
                counts.push(1);
            }
            proof {
                assert(keys@ == distinct_words(now));
                assert forall|i: int| 0 <= i < keys@.len() implies #[trigger] counts@[i]
                    == occurrences(now, keys@[i]) by {
                    if i < distinct_words(seen).len() {
                        assert(keys@[i] == distinct_words(seen)[i]);
                        if keys@[i] == key {
                            assert(i == at);
                        }
                    }
                }
            }
            s += 1;
        }
        assert(reg@.take(n as int) =~= reg@);
        let mut res: Vec<(String, usize)> = Vec::new();
        let mut i: usize = 0;
        while i < keys.len()
            invariant
                i <= keys@.len(),
                counts@.len() == keys@.len(),
                res@.len() == i,
                forall|j: int|
                    0 <= j < i ==> (#[trigger] res@[j]).0@ == binary_padded(
                        keys@[j] as nat,
                        self.nr_cbits as nat,
                    ) && res@[j].1 == counts@[j],
            decreases keys.len() - i,
        {
            res.push((bit_string(keys[i], self.nr_cbits), counts[i]));
            i += 1;
        }
        Ok(res)
    }

    /// Create a histogram of measurements.
    ///
    /// Create a histogram of the measured classical bits. The `n` bits in the
    /// classical register are collected in a single `usize` integer value,
    /// which is used as an index in a vector. The bit order of the indices
    /// is the same as in the `histogram()` function. The vector is of length
    /// `2^n`, so use this function only for reasonably small numbers of `n`.
    /// The entries add up to the number of shots.
    pub fn histogram_vec(&self) -> (r: Result<Vec<usize>, Error>)
        requires
            self.wf(),
            self.spec_nr_cbits() < usize::BITS,
        ensures
            match self.spec_cstate() {
                Some(words) => r matches Ok(counts) && counts@.len() == pow2(self.spec_nr_cbits())
                    && is_histogram_vec(words, counts@) && total(counts@) == words.len(),
                None => r == Err::<Vec<usize>, Error>(Error::NotExecuted),
            },
    {
        let reg: &ClassicalRegister = match &self.c_state {
            Some(reg) => reg,
            None => {
                return Err(Error::NotExecuted);
            },
        };
        let n: usize = reg.len();
        let nr_cbits: usize = self.nr_cbits;
        proof {
            lemma_fits_index(0, nr_cbits);
        }
        let bins: usize = 1usize << nr_cbits;
        let mut res: Vec<usize> = vec![0; bins];
        proof {
            lemma_total_zeros(res@);
            assert(self.spec_cstate() == Some(reg@));
            assert forall|t: int| 0 <= t < n implies fits(#[trigger] reg@[t], nr_cbits as nat) by {
                assert(fits(self.spec_cstate().unwrap()[t], self.spec_nr_cbits()));
            }
        }
        let mut s: usize = 0;
        while s < n
            invariant
                s <= n,
                n == reg@.len(),
                res@.len() == bins,
                bins == pow2(nr_cbits as nat),
                nr_cbits < usize::BITS,
                forall|t: int| 0 <= t < n ==> fits(#[trigger] reg@[t], nr_cbits as nat),
                is_histogram_vec(reg@.take(s as int), res@),
                total(res@) == s,
            decreases n - s,
        {
            let key: u64 = reg.word(s);
            let ghost seen = reg@.take(s as int);
            let ghost now = reg@.take(s + 1);
            let ghost before = res@;
            proof {
                assert(now.drop_last() =~= seen);
                assert(fits(reg@[s as int], nr_cbits as nat));
                lemma_fits_index(key, nr_cbits);
                lemma_occurrences_bound(seen, key);
                lemma_total_update(before, key as int, (before[key as int] + 1) as usize);
            }
            let at: usize = key as usize;
            let count: usize = res[at];
            res[at] = count + 1;
            proof {
                assert forall|k: int| 0 <= k < res@.len() implies #[trigger] res@[k]
                    == occurrences(now, k as u64) by {
                    assert(before[k] == occurrences(seen, k as u64));
                }
            }
            s += 1;
        }
        assert(reg@.take(n as int) =~= reg@);
        Ok(res)
    }

    /// Record a sample of all qubits, taken without collapsing the state, for the
    /// operation at position `k`: in every shot `s`, the classical bit `cbits[i]`
    /// takes the bit of qubit `i` in the sampled basis state `samples[s]`.
    pub fn store_peek(&mut self, k: usize, samples: &[usize]) -> (r: Result<(), Error>)
        requires
            old(self).wf(),
            old(self).spec_nr_qbits() <= usize::BITS,
            old(self).spec_nr_cbits() <= 64,
            k < old(self).spec_ops().len(),
            old(self).spec_ops()[k as int] matches CircuitOp::PeekAll(cbits) && cbits@.len() == old(
                self,
            ).spec_nr_qbits() && all_below(cbits@, old(self).spec_nr_cbits()),
            old(self).spec_cstate() matches Some(words) ==> samples@.len() == words.len(),
        ensures
            final(self).wf(),
            final(self).spec_ops() == old(self).spec_ops(),
            final(self).spec_nr_qbits() == old(self).spec_nr_qbits(),
            final(self).spec_nr_cbits() == old(self).spec_nr_cbits(),
            match old(self).spec_cstate() {
                Some(words) => r is Ok && (final(self).spec_cstate() matches Some(after)
                    && after.len() == words.len() && forall|s: int|
                    0 <= s < words.len() ==> #[trigger] after[s] == peeked(
                        words[s],
                        samples@[s],
                        old(self).spec_ops()[k as int]->PeekAll_0@,
                        old(self).spec_nr_qbits() as usize,
                        old(self).spec_nr_qbits() as int,
                    )),
                None => r == Err::<(), Error>(Error::NotExecuted) && final(self).spec_cstate()
                    is None,
            },
    {
        if self.c_state.is_none() {
            return Err(Error::NotExecuted);
        }
        let n: usize = self.nr_qbits;
        let shots: usize = samples.len();
        let ghost before = self.spec_cstate().unwrap();
        let ghost cbits = self.spec_ops()[k as int]->PeekAll_0@;
        let mut i: usize = 0;
        while i < n
            invariant
                i <= n,
                n == self.nr_qbits,
                n <= usize::BITS,
                self.nr_cbits <= 64,
                self.wf(),
                self.spec_ops() == old(self).spec_ops(),
                self.spec_nr_qbits() == old(self).spec_nr_qbits(),
                self.spec_nr_cbits() == old(self).spec_nr_cbits(),
                k < self.ops@.len(),
                self.ops@[k as int] matches CircuitOp::PeekAll(c) && c@ == cbits,
                cbits.len() == n,
                all_below(cbits, self.nr_cbits as nat),
                shots == samples@.len(),
                before.len() == shots,
                self.spec_cstate() matches Some(now) && now.len() == shots && forall|s: int|
                    0 <= s < shots ==> #[trigger] now[s] == peeked(
                        before[s],
                        samples@[s],
                        cbits,
                        n,
                        i as int,
                    ),
            decreases n - i,
        {
            let cbit: usize = match &self.ops[k] {
                CircuitOp::PeekAll(c) => c[i],
                _ => 0,
            };
            let mut outcomes: Vec<bool> = Vec::new();
            let mut s: usize = 0;
            while s < shots
                invariant
                    s <= shots,
                    shots == samples@.len(),
                    i < n <= usize::BITS,
                    outcomes@.len() == s,
                    forall|t: int|
                        0 <= t < s ==> #[trigger] outcomes@[t] == qubit_set(samples@[t], n, i),
                decreases shots - s,
            {
                outcomes.push(is_qubit_set(samples[s], n, i));
                s += 1;
            }
            match self.store_measurement(cbit, outcomes.as_slice()) {
                Ok(()) => {},
                Err(e) => {
                    return Err(e);
                },
            }
            i += 1;
        }
        Ok(())
    }
}

impl<G: Gate> Circuit<G> {
    /// Every operation of this circuit can run on it, the classical bits fit in a
    /// classical word, and the basis states can be numbered.
    pub open spec fn valid(&self) -> bool {
        &&& self.spec_nr_cbits() <= 64
        &&& self.spec_nr_qbits() < usize::BITS
        &&& forall|k: int|
            0 <= k < self.spec_ops().len() ==> op_valid(
                #[trigger] self.spec_ops()[k],
                self.spec_nr_qbits(),
                self.spec_nr_cbits(),
            )
    }

    /// Whether the operation at position `k` can run on this circuit.
    pub fn is_valid_op(&self, k: usize) -> (ok: bool)
        requires
            k < self.spec_ops().len(),
        ensures
            ok == op_valid(self.spec_ops()[k as int], self.spec_nr_qbits(), self.spec_nr_cbits()),
    {
        match &self.ops[k] {
            CircuitOp::Gate(gate, bits) => bits.len() == gate.nr_affected_bits()
                && check_distinct_bits(bits.as_slice(), self.nr_qbits),
            CircuitOp::ConditionalGate(control, target, gate, bits) => bits.len()
                == gate.nr_affected_bits() && check_distinct_bits(bits.as_slice(), self.nr_qbits)
                && control.len() <= 64 && check_all_below(control.as_slice(), self.nr_cbits),
            CircuitOp::Reset(qbit) => *qbit < self.nr_qbits,
            CircuitOp::ResetAll => true,
            CircuitOp::Measure(qbit, cbit, basis) => *qbit < self.nr_qbits && *cbit
                < self.nr_cbits,
            CircuitOp::MeasureAll(cbits, basis) => cbits.len() == self.nr_qbits
                && check_all_below(cbits.as_slice(), self.nr_cbits),
            CircuitOp::PeekAll(cbits) => cbits.len() == self.nr_qbits && check_all_below(
                cbits.as_slice(),
                self.nr_cbits,
            ),
            CircuitOp::Barrier(bits) => check_all_below(bits.as_slice(), self.nr_qbits),
        }
    }

    /// Whether this circuit can be run: see `valid`.
    pub fn is_valid(&self) -> (ok: bool)
        ensures
            ok == self.valid(),
    {
        if self.nr_cbits > 64 || self.nr_qbits >= usize::BITS as usize {
            return false;
        }
        let mut k: usize = 0;
        while k < self.ops.len()
            invariant
                k <= self.ops@.len(),
                forall|j: int|
                    0 <= j < k ==> op_valid(
                        #[trigger] self.spec_ops()[j],
                        self.spec_nr_qbits(),
                        self.spec_nr_cbits(),
                    ),
            decreases self.ops.len() - k,
        {
            if !self.is_valid_op(k) {
                return false;
            }
            k += 1;
        }
        true
    }
}

impl<P> Circuit<CircuitGate<P>> {
    /// Add a Hadamard gate.
    ///
    /// Add a Hadamard gate operating on qubit `bit`, to this circuit.
    pub fn h(&mut self, bit: usize)
        ensures
            final(self).spec_ops().drop_last() == old(self).spec_ops(),
            final(self).spec_ops().len() == old(self).spec_ops().len() + 1,
            final(self).spec_ops().last() matches CircuitOp::Gate(g, b) && g is H && b@
                == seq![bit],
            final(self).spec_nr_qbits() == old(self).spec_nr_qbits(),
            final(self).spec_nr_cbits() == old(self).spec_nr_cbits(),
            final(self).spec_cstate() == old(self).spec_cstate(),
    {
        let bits: [usize; 1] = [bit];
        self.add_gate(CircuitGate::H(H::new()), bits.as_slice());
        assert(bits@ =~= seq![bit]);
    }

    /// Add a Pauli X gate.
    ///
    /// Add a Pauli X gate operating on qubit `bit`, to this circuit.
    pub fn x(&mut self, bit: usize)
        ensures
            final(self).spec_ops().drop_last() == old(self).spec_ops(),
            final(self).spec_ops().len() == old(self).spec_ops().len() + 1,
            final(self).spec_ops().last() matches CircuitOp::Gate(g, b) && g is X && b@
                == seq![bit],
            final(self).spec_nr_qbits() == old(self).spec_nr_qbits(),
            final(self).spec_nr_cbits() == old(self).spec_nr_cbits(),
            final(self).spec_cstate() == old(self).spec_cstate(),
    {
        let bits: [usize; 1] = [bit];
        self.add_gate(CircuitGate::X(X::new()), bits.as_slice());
        assert(bits@ =~= seq![bit]);
    }

    /// Add a Pauli Y gate.
    ///
    /// Add a Pauli Y gate operating on qubit `bit`, to this circuit.
    pub fn y(&mut self, bit: usize)
        ensures
            final(self).spec_ops().drop_last() == old(self).spec_ops(),
            final(self).spec_ops().len() == old(self).spec_ops().len() + 1,
            final(self).spec_ops().last() matches CircuitOp::Gate(g, b) && g is Y && b@
                == seq![bit],
            final(self).spec_nr_qbits() == old(self).spec_nr_qbits(),
            final(self).spec_nr_cbits() == old(self).spec_nr_cbits(),
            final(self).spec_cstate() == old(self).spec_cstate(),
    {
        let bits: [usize; 1] = [bit];
        self.add_gate(CircuitGate::Y(Y::new()), bits.as_slice());
        assert(bits@ =~= seq![bit]);
    }

    /// Add a Pauli Z gate.
    ///
    /// Add a Pauli Z gate operating on qubit `bit`, to this circuit.
    pub fn z(&mut self, bit: usize)
        ensures
            final(self).spec_ops().drop_last() == old(self).spec_ops(),
            final(self).spec_ops().len() == old(self).spec_ops().len() + 1,
            final(self).spec_ops().last() matches CircuitOp::Gate(g, b) && g is Z && b@
                == seq![bit],
            final(self).spec_nr_qbits() == old(self).spec_nr_qbits(),
            final(self).spec_nr_cbits() == old(self).spec_nr_cbits(),
            final(self).spec_cstate() == old(self).spec_cstate(),
    {
        let bits: [usize; 1] = [bit];
        self.add_gate(CircuitGate::Z(Z::new()), bits.as_slice());
        assert(bits@ =~= seq![bit]);
    }

    /// Add a controlled `X` gate.
    ///
    /// Add a controlled `X` gate, controlled by qubit `control` and operating on
    /// qubit `target`, to this circuit.
    pub fn cx(&mut self, control: usize, target: usize)
        ensures
            final(self).spec_ops().drop_last() == old(self).spec_ops(),
            final(self).spec_ops().len() == old(self).spec_ops().len() + 1,
            final(self).spec_ops().last() matches CircuitOp::Gate(g, b) && g is CX && b@
                == seq![control, target],
            final(self).spec_nr_qbits() == old(self).spec_nr_qbits(),
            final(self).spec_nr_cbits() == old(self).spec_nr_cbits(),
            final(self).spec_cstate() == old(self).spec_cstate(),
    {
        let bits: [usize; 2] = [control, target];
        self.add_gate(CircuitGate::CX(CX::new()), bits.as_slice());
        assert(bits@ =~= seq![control, target]);
    }
}

impl<P: core::fmt::Display> Circuit<CircuitGate<P>> {
    /// Add a `RX` gate.
    ///
    /// Add a `RX(theta)` gate operating on qubit `bit`, to this circuit.
    pub fn rx(&mut self, theta: P, bit: usize)
        ensures
            final(self).spec_ops().drop_last() == old(self).spec_ops(),
            final(self).spec_ops().len() == old(self).spec_ops().len() + 1,
            final(self).spec_ops().last() matches CircuitOp::Gate(g, b) && (g matches CircuitGate::RX(
                u,
            ) && u.spec_theta().spec_value() == theta) && b@ == seq![bit],
            final(self).spec_nr_qbits() == old(self).spec_nr_qbits(),
            final(self).spec_nr_cbits() == old(self).spec_nr_cbits(),
            final(self).spec_cstate() == old(self).spec_cstate(),
    {
        let bits: [usize; 1] = [bit];
        self.add_gate(CircuitGate::RX(RX::new(theta)), bits.as_slice());
        assert(bits@ =~= seq![bit]);
    }

    /// Add a `RY` gate.
    ///
    /// Add a `RY(theta)` gate operating on qubit `bit`, to this circuit.
    pub fn ry(&mut self, theta: P, bit: usize)
        ensures
            final(self).spec_ops().drop_last() == old(self).spec_ops(),
            final(self).spec_ops().len() == old(self).spec_ops().len() + 1,
            final(self).spec_ops().last() matches CircuitOp::Gate(g, b) && (g matches CircuitGate::RY(
                u,
            ) && u.spec_theta().spec_value() == theta) && b@ == seq![bit],
            final(self).spec_nr_qbits() == old(self).spec_nr_qbits(),
            final(self).spec_nr_cbits() == old(self).spec_nr_cbits(),
            final(self).spec_cstate() == old(self).spec_cstate(),
    {
        let bits: [usize; 1] = [bit];
        self.add_gate(CircuitGate::RY(RY::new(theta)), bits.as_slice());
        assert(bits@ =~= seq![bit]);
    }

    /// Add a `RZ` gate.
    ///
    /// Add a `RZ(lambda)` gate operating on qubit `bit`, to this circuit.
    pub fn rz(&mut self, lambda: P, bit: usize)
        ensures
            final(self).spec_ops().drop_last() == old(self).spec_ops(),
            final(self).spec_ops().len() == old(self).spec_ops().len() + 1,
            final(self).spec_ops().last() matches CircuitOp::Gate(g, b) && (g matches CircuitGate::RZ(
                u,
            ) && u.spec_lambda().spec_value() == lambda) && b@ == seq![bit],
            final(self).spec_nr_qbits() == old(self).spec_nr_qbits(),
            final(self).spec_nr_cbits() == old(self).spec_nr_cbits(),
            final(self).spec_cstate() == old(self).spec_cstate(),
    {
        let bits: [usize; 1] = [bit];
        self.add_gate(CircuitGate::RZ(RZ::new(lambda)), bits.as_slice());
        assert(bits@ =~= seq![bit]);
    }

    /// Add a `U1` gate.
    ///
    /// Add a `U1(lambda)` gate operating on qubit `bit`, to this circuit.
    pub fn u1(&mut self, lambda: P, bit: usize)
        ensures
            final(self).spec_ops().drop_last() == old(self).spec_ops(),
            final(self).spec_ops().len() == old(self).spec_ops().len() + 1,
            final(self).spec_ops().last() matches CircuitOp::Gate(g, b) && (g matches CircuitGate::U1(
                u,
            ) && u.spec_lambda().spec_value() == lambda) && b@ == seq![bit],
            final(self).spec_nr_qbits() == old(self).spec_nr_qbits(),
            final(self).spec_nr_cbits() == old(self).spec_nr_cbits(),
            final(self).spec_cstate() == old(self).spec_cstate(),
    {
        let bits: [usize; 1] = [bit];
        self.add_gate(CircuitGate::U1(U1::new(lambda)), bits.as_slice());
        assert(bits@ =~= seq![bit]);
    }

    /// Add a `U2` gate.
    ///
    /// Add a `U2(phi, lambda)` gate operating on qubit `bit`, to this circuit.
    pub fn u2(&mut self, phi: P, lambda: P, bit: usize)
        ensures
            final(self).spec_ops().drop_last() == old(self).spec_ops(),
            final(self).spec_ops().len() == old(self).spec_ops().len() + 1,
            final(self).spec_ops().last() matches CircuitOp::Gate(g, b) && (g matches CircuitGate::U2(
                u,
            ) && u.spec_phi().spec_value() == phi && u.spec_lambda().spec_value() == lambda)
                && b@ == seq![bit],
            final(self).spec_nr_qbits() == old(self).spec_nr_qbits(),
            final(self).spec_nr_cbits() == old(self).spec_nr_cbits(),
            final(self).spec_cstate() == old(self).spec_cstate(),
    {
        let bits: [usize; 1] = [bit];
        self.add_gate(CircuitGate::U2(U2::new(phi, lambda)), bits.as_slice());
        assert(bits@ =~= seq![bit]);
    }

    /// Add a `U3` gate.
    ///
    /// Add a `U3(theta, phi, lambda)` gate operating on qubit `bit`, to this
    /// circuit.
    pub fn u3(&mut self, theta: P, phi: P, lambda: P, bit: usize)
        ensures
            final(self).spec_ops().drop_last() == old(self).spec_ops(),
            final(self).spec_ops().len() == old(self).spec_ops().len() + 1,
            final(self).spec_ops().last() matches CircuitOp::Gate(g, b) && (g matches CircuitGate::U3(
                u,
            ) && u.spec_theta().spec_value() == theta && u.spec_phi().spec_value() == phi
                && u.spec_lambda().spec_value() == lambda) && b@ == seq![bit],
            final(self).spec_nr_qbits() == old(self).spec_nr_qbits(),
            final(self).spec_nr_cbits() == old(self).spec_nr_cbits(),
            final(self).spec_cstate() == old(self).spec_cstate(),
    {
        let bits: [usize; 1] = [bit];
        self.add_gate(CircuitGate::U3(U3::new(theta, phi, lambda)), bits.as_slice());
        assert(bits@ =~= seq![bit]);
    }
}

} // verus!
