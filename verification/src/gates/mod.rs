//! Gates: what every gate offers, and the catalogue of gates.

use vstd::prelude::*;
use crate::bit_order::affected_part;
use crate::bit_order::lemma_ordered_places;
use crate::bit_order::lemma_row_count;
use crate::bit_order::lemma_sort_key;
use crate::bit_order::place;
use crate::error::Error;
use crate::permutation::is_permutation;
use crate::permutation::Permutation;
use crate::stabilizer::all_identity;
use crate::stabilizer::anticommute_parity;
use crate::stabilizer::distinct_bits;
use crate::stabilizer::PauliOp;
use crate::stabilizer::string_phase_power;
use crate::stabilizer::string_times;

mod circuit_gate;
mod named_gate;
mod controlled;
mod hadamard;
mod identity;
mod kron;
mod parameter;
mod rx;
mod ry;
mod rz;
mod s;
mod t;
mod u1;
mod u2;
mod u3;
mod v;
mod x;
mod y;
mod z;

pub use self::circuit_gate::CircuitGate;
pub use self::named_gate::NamedGate;
pub use self::controlled::C;
pub use self::controlled::CCX;
pub use self::controlled::CCZ;
pub use self::controlled::CH;
pub use self::controlled::CX;
pub use self::controlled::CY;
pub use self::controlled::CZ;
pub use self::hadamard::H;
pub use self::identity::I;
pub use self::kron::Kron;
pub use self::parameter::Parameter;
pub use self::rx::RX;
pub use self::ry::RY;
pub use self::rz::RZ;
pub use self::s::S;
pub use self::s::Sdg;
pub use self::t::T;
pub use self::t::Tdg;
pub use self::u1::U1;
pub use self::u2::U2;
pub use self::u3::U3;
pub use self::v::V;
pub use self::v::Vdg;
pub use self::x::X;
pub use self::y::Y;
pub use self::z::Z;

verus! {

/// Whether the images `ip`, `iq` and `ir` of the Pauli strings `p`, `q` and their
/// product respect the product, phases included: the image of the product is the
/// product of the images, and its sign flips as the flips of the factors and the
/// change of the phase of the product say.
pub open spec fn respects_product(
    p: Seq<PauliOp>,
    q: Seq<PauliOp>,
    ip: (Seq<PauliOp>, bool),
    iq: (Seq<PauliOp>, bool),
    ir: (Seq<PauliOp>, bool),
) -> bool {
    let change = (string_phase_power(ip.0, iq.0) + 4 - string_phase_power(p, q)) % 4;
    &&& ir.0 == string_times(ip.0, iq.0)
    &&& change == 0 || change == 2
    &&& ir.1 == ((ip.1 != iq.1) != (change == 2))
}

/// A quantum gate: a named unitary on a fixed number of qubits, with the rule by
/// which it conjugates Pauli strings where it has one.
pub trait Gate {
    /// The number of qubits that this gate acts on.
    spec fn arity(&self) -> nat;

    /// The short description of this gate.
    spec fn name(&self) -> Seq<char>;

    /// Whether this gate conjugates every Pauli string to a Pauli string.
    spec fn clifford(&self) -> bool;

    /// The image of the Pauli string `ops` under conjugation `G * ops * G^-1`: the
    /// image string and whether its sign flips, or `None` where this gate has no
    /// rule for `ops`.
    spec fn conjugation(&self, ops: Seq<PauliOp>) -> Option<(Seq<PauliOp>, bool)>;

    /// The description that the error carries when this gate has no rule for `ops`.
    spec fn culprit(&self, ops: Seq<PauliOp>) -> Seq<char>;

    /// A gate is a Clifford gate exactly when it has an image for every Pauli string
    /// of its length.
    proof fn lemma_clifford(&self)
        ensures
            self.clifford() <==> (forall|p: Seq<PauliOp>|
                p.len() == self.arity() ==> #[trigger] self.conjugation(p) is Some),
    ;

    /// Conjugation keeps the length of a Pauli string, and keeps two strings
    /// commuting or anticommuting as they were.
    proof fn lemma_conjugation_keeps_commutation(&self, p: Seq<PauliOp>, q: Seq<PauliOp>)
        requires
            p.len() == self.arity(),
            q.len() == self.arity(),
        ensures
            self.conjugation(p) is Some ==> self.conjugation(p).unwrap().0.len() == self.arity(),
            self.conjugation(p) is Some && self.conjugation(q) is Some ==> anticommute_parity(
                self.conjugation(p).unwrap().0,
                self.conjugation(q).unwrap().0,
            ) == anticommute_parity(p, q),
    ;

    /// Conjugation respects products: where two strings have images, so has their
    /// product, and its image is the product of the images, phases included.
    proof fn lemma_conjugation_respects_products(&self, p: Seq<PauliOp>, q: Seq<PauliOp>)
        requires
            p.len() == self.arity(),
            q.len() == self.arity(),
        ensures
            self.conjugation(p) is Some && self.conjugation(q) is Some ==> self.conjugation(
                string_times(p, q),
            ) is Some && respects_product(
                p,
                q,
                self.conjugation(p).unwrap(),
                self.conjugation(q).unwrap(),
                self.conjugation(string_times(p, q)).unwrap(),
            ),
    ;

    /// Conjugation sends no string to the identity but the identity.
    proof fn lemma_conjugation_kernel(&self, p: Seq<PauliOp>)
        requires
            p.len() == self.arity(),
        ensures
            self.conjugation(p) is Some && all_identity(self.conjugation(p).unwrap().0)
                ==> all_identity(p),
    ;

    /// A short description of this gate: its name, or the way it was put together.
    fn description(&self) -> (s: &str)
        ensures
            s@ == self.name(),
    ;

    /// The number of qubits that this gate acts on.
    fn nr_affected_bits(&self) -> (n: usize)
        ensures
            n == self.arity(),
    ;

    /// Whether this gate can be used on a stabilizer state whatever the state is.
    fn is_stabilizer(&self) -> (b: bool)
        ensures
            b == self.clifford(),
    ;

    /// Conjugate the Pauli string `ops` with this gate, in place, and return whether
    /// the sign flips. Where this fails, the string is left as it was.
    fn conjugate(&self, ops: &mut [PauliOp]) -> (r: Result<bool, Error>)
        ensures
            final(ops)@.len() == old(ops)@.len(),
            r is Err ==> final(ops)@ == old(ops)@,
            old(ops)@.len() != self.arity() ==> r == Err::<bool, Error>(Error::InvalidBitCount),
            old(ops)@.len() == self.arity() ==> match self.conjugation(old(ops)@) {
                Some(image) => r == Ok::<bool, Error>(image.1) && final(ops)@ == image.0,
                None => r matches Err(Error::NotAStabilizer(d)) && d@ == self.culprit(old(ops)@),
            },
    ;
}

/// The sort key of row `idx` in a system of `nr_bits` qubits, for an operation on
/// the qubits in `affected_bits`: the bits of `idx` that belong to these qubits, the
/// first of them most significant. Qubit 0 is the most significant bit of a row
/// number.
pub open spec fn sort_key(idx: usize, nr_bits: usize, affected_bits: Seq<usize>) -> usize
    decreases affected_bits.len(),
{
    if affected_bits.len() == 0 {
        0
    } else {
        let shift = (nr_bits - affected_bits.last() - 1) as usize;
        (sort_key(idx, nr_bits, affected_bits.drop_last()) << 1) | ((idx >> shift) & 1)
    }
}

/// Whether row `i` comes before row `j` when rows are ordered by sort key and rows
/// with one key keep their order.
pub open spec fn sorts_before(i: usize, j: usize, nr_bits: usize, affected_bits: Seq<usize>) -> bool {
    let ki = sort_key(i, nr_bits, affected_bits);
    let kj = sort_key(j, nr_bits, affected_bits);
    ki < kj || (ki == kj && i < j)
}

/// Generates the sort key for the row that initially was at number `idx`, in a
/// system of `nr_bits` qubits, in which a gate is operating on the qubits in
/// `affected_bits`.
pub fn get_sort_key(idx: usize, nr_bits: usize, affected_bits: &[usize]) -> (res: usize)
    requires
        nr_bits <= usize::BITS,
        forall|k: int| 0 <= k < affected_bits@.len() ==> #[trigger] affected_bits@[k] < nr_bits,
    ensures
        res == sort_key(idx, nr_bits, affected_bits@),
        affected_bits@.len() < usize::BITS ==> res == affected_part(
            idx as nat,
            nr_bits as nat,
            affected_bits@,
        ),
{
    proof {
        if affected_bits@.len() < usize::BITS {
            lemma_sort_key(idx, nr_bits, affected_bits@);
        }
    }
    let mut res: usize = 0;
    let mut k: usize = 0;
    while k < affected_bits.len()
        invariant
            k <= affected_bits@.len(),
            nr_bits <= usize::BITS,
            forall|k: int| 0 <= k < affected_bits@.len() ==> #[trigger] affected_bits@[k] < nr_bits,
            res == sort_key(idx, nr_bits, affected_bits@.take(k as int)),
        decreases affected_bits.len() - k,
    {
        let b: usize = affected_bits[k];
        let s: usize = nr_bits - b - 1;
        res = (res << 1) | ((idx >> s) & 1);
        proof {
            let now = affected_bits@.take(k + 1);
            assert(now.drop_last() =~= affected_bits@.take(k as int));
        }
        k += 1;
    }
    assert(affected_bits@.take(affected_bits@.len() as int) =~= affected_bits@);
    res
}

/// Order the row numbers in `idxs` by their sort key, rows with one key keeping
/// their order.
///
/// Calls `sort_by_key` of the standard library, which is documented as a stable
/// sort: the result holds the elements that were there, in ascending order of the
/// key, and elements with equal keys in the order in which they stood.
#[verifier::external_body]
fn sort_by_sort_key(idxs: &mut Vec<usize>, nr_bits: usize, affected_bits: &[usize])
    requires
        nr_bits <= usize::BITS,
        forall|k: int| 0 <= k < affected_bits@.len() ==> #[trigger] affected_bits@[k] < nr_bits,
    ensures
        final(idxs)@.to_multiset() == old(idxs)@.to_multiset(),
        forall|a: int, b: int|
            0 <= a < b < final(idxs)@.len() ==> sort_key(
                #[trigger] final(idxs)@[a],
                nr_bits,
                affected_bits@,
            ) <= sort_key(#[trigger] final(idxs)@[b], nr_bits, affected_bits@),
        forall|a: int, b: int|
            0 <= a < b < final(idxs)@.len() && sort_key(
                #[trigger] final(idxs)@[a],
                nr_bits,
                affected_bits@,
            ) == sort_key(#[trigger] final(idxs)@[b], nr_bits, affected_bits@) ==> exists|
                c: int,
                d: int,
            |
                0 <= c < d < old(idxs)@.len() && #[trigger] old(idxs)@[c] == final(idxs)@[a]
                    && #[trigger] old(idxs)@[d] == final(idxs)@[b],
{
    idxs.sort_by_key(|&i| get_sort_key(i, nr_bits, affected_bits));
}

/// Reorder bits.
///
/// When applying multi-bit gates, the rows in the state are shuffled such that:
/// * The first half of the rows correspond to components with the first affected
///   bit being 0, the second half to those with this bit being 1.
/// * Within each of these two blocks, the first half corresponds to components
///   with the second bit 0, the second half to those with the second bit 1.
/// * And so on, for each affected bit.
///
/// This function returns the permutation that sends each row number to its place
/// after the shuffle: rows are placed in the order of their sort keys, and rows
/// with one key in the order of their numbers. Where no qubit is named twice, the
/// place of a row is the number whose most significant bits are the bits of the
/// affected qubits, in their order, followed by the bits of the other qubits in
/// ascending order.
pub fn bit_permutation(nr_bits: usize, affected_bits: &[usize]) -> (p: Permutation)
    requires
        nr_bits < usize::BITS,
        forall|k: int| 0 <= k < affected_bits@.len() ==> #[trigger] affected_bits@[k] < nr_bits,
    ensures
        p@.len() == 1usize << nr_bits,
        p@.len() == vstd::arithmetic::power2::pow2(nr_bits as nat),
        is_permutation(p@),
        forall|i: int, j: int|
            0 <= i < p@.len() && 0 <= j < p@.len() ==> (#[trigger] p@[i] < #[trigger] p@[j]
                <==> sorts_before(i as usize, j as usize, nr_bits, affected_bits@)),
        distinct_bits(affected_bits@, nr_bits as nat) ==> forall|i: int|
            0 <= i < p@.len() ==> #[trigger] p@[i] == place(
                i as nat,
                nr_bits as nat,
                affected_bits@,
            ),
{
    let size: usize = 1usize << nr_bits;
    let mut idxs: Vec<usize> = Vec::new();
    let mut i: usize = 0;
    while i < size
        invariant
            i <= size,
            idxs@.len() == i,
            forall|k: int| 0 <= k < i ==> #[trigger] idxs@[k] == k,
        decreases size - i,
    {
        idxs.push(i);
        i += 1;
    }
    let ghost ident = idxs@;
    sort_by_sort_key(&mut idxs, nr_bits, affected_bits);
    let ghost sorted = idxs@;
    proof {
        broadcast use vstd::seq_lib::to_multiset_contains;

        vstd::seq_lib::to_multiset_len(sorted);
        vstd::seq_lib::to_multiset_len(ident);
        assert(sorted.len() == size);
        ident.lemma_multiset_has_no_duplicates();
        sorted.lemma_multiset_has_no_duplicates_conv();
        assert forall|a: int| 0 <= a < size implies #[trigger] sorted[a] < size by {
            assert(sorted.contains(sorted[a]));
            assert(sorted.to_multiset().count(sorted[a]) > 0);
            assert(ident.contains(sorted[a]));
        }
        assert(is_permutation(sorted));
    }
    let forward: Permutation = Permutation::new(idxs).unwrap();
    let p: Permutation = forward.inverse();
    proof {
        assert forall|i: int, j: int| 0 <= i < size && 0 <= j < size && p@[i] < p@[j] implies sorts_before(
            i as usize,
            j as usize,
            nr_bits,
            affected_bits@,
        ) by {
            let a = p@[i] as int;
            let b = p@[j] as int;
            assert(sorted[a] == i);
            assert(sorted[b] == j);
            if sort_key(sorted[a], nr_bits, affected_bits@) == sort_key(
                sorted[b],
                nr_bits,
                affected_bits@,
            ) {
                let (c, d) = choose|c: int, d: int|
                    0 <= c < d < ident.len() && #[trigger] ident[c] == sorted[a]
                        && #[trigger] ident[d] == sorted[b];
                assert(ident[c] == c);
                assert(ident[d] == d);
            }
        }
        assert forall|i: int, j: int|
            0 <= i < size && 0 <= j < size && sorts_before(
                i as usize,
                j as usize,
                nr_bits,
                affected_bits@,
            ) implies #[trigger] p@[i] < #[trigger] p@[j] by {
            if p@[i] == p@[j] {
                assert(sorted[p@[i] as int] == i);
                assert(sorted[p@[j] as int] == j);
            } else if p@[j] < p@[i] {
                assert(sorts_before(j as usize, i as usize, nr_bits, affected_bits@));
            }
        }
        lemma_row_count(nr_bits);
        if distinct_bits(affected_bits@, nr_bits as nat) {
            lemma_ordered_places(p@, nr_bits, affected_bits@);
        }
    }
    p
}

} // verus!
