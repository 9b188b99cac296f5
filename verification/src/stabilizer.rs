//! Pauli operators and the stabilizer tableau.

use vstd::prelude::*;
use crate::error::Error;
use crate::gates::Gate;
use crate::independence::independent;
use crate::independence::lemma_conjugated_independent;
use crate::independence::lemma_initial_independent;
use crate::independence::lemma_multiplied_independent;
use crate::independence::lemma_normalized_independent;
use crate::independence::lemma_swapped_independent;
use crate::normal_form::canonical;
use crate::normal_form::lemma_normalized_canonical;

verus! {

/// The Pauli spin operators on one qubit.
#[derive(Copy, Clone, Debug, PartialEq, Eq, Structural)]
pub enum PauliOp {
    /// Identity
    I,
    /// Pauli Z
    Z,
    /// Pauli X
    X,
    /// Pauli Y
    Y,
}

impl PauliOp {
    /// The canonical two-bit encoding: bit 0 is the Z content, bit 1 the X content.
    pub open spec fn code(self) -> u64 {
        match self {
            PauliOp::I => 0,
            PauliOp::Z => 1,
            PauliOp::X => 2,
            PauliOp::Y => 3,
        }
    }

    /// The operator encoded by the two lowest bits of `bits`.
    pub open spec fn decode(bits: u64) -> PauliOp {
        let c = bits % 4;
        if c == 0 {
            PauliOp::I
        } else if c == 1 {
            PauliOp::Z
        } else if c == 2 {
            PauliOp::X
        } else {
            PauliOp::Y
        }
    }

    /// Whether the operator has an X component (X or Y).
    pub open spec fn has_x(self) -> bool {
        self == PauliOp::X || self == PauliOp::Y
    }

    /// Whether the operator has a Z component (Z or Y).
    pub open spec fn has_z(self) -> bool {
        self == PauliOp::Z || self == PauliOp::Y
    }

    /// The operator with the given X and Z components.
    pub open spec fn from_xz(x: bool, z: bool) -> PauliOp {
        if x {
            if z {
                PauliOp::Y
            } else {
                PauliOp::X
            }
        } else {
            if z {
                PauliOp::Z
            } else {
                PauliOp::I
            }
        }
    }

    /// The product `self * other` with its phase dropped.
    pub open spec fn times(self, other: PauliOp) -> PauliOp {
        PauliOp::from_xz(self.has_x() != other.has_x(), self.has_z() != other.has_z())
    }

    /// Whether `self` and `other` anticommute.
    pub open spec fn anticommutes(self, other: PauliOp) -> bool {
        self != PauliOp::I && other != PauliOp::I && self != other
    }

    /// The power of `i` in the product: `self * other == i^k * self.times(other)`.
    pub open spec fn phase_power(self, other: PauliOp) -> nat {
        match (self, other) {
            (PauliOp::Z, PauliOp::X) => 1,
            (PauliOp::Z, PauliOp::Y) => 3,
            (PauliOp::X, PauliOp::Z) => 3,
            (PauliOp::X, PauliOp::Y) => 1,
            (PauliOp::Y, PauliOp::Z) => 1,
            (PauliOp::Y, PauliOp::X) => 3,
            _ => 0,
        }
    }

    /// Decode the two lowest bits of `bits`.
    pub fn from_bits(bits: u64) -> (op: PauliOp)
        ensures
            op == PauliOp::decode(bits),
    {
        let c: u64 = bits & 0x03;
        assert(bits & 0x03 == bits % 4) by (bit_vector);
        if c == 0 {
            PauliOp::I
        } else if c == 1 {
            PauliOp::Z
        } else if c == 2 {
            PauliOp::X
        } else {
            PauliOp::Y
        }
    }

    /// The canonical two-bit encoding.
    pub fn to_bits(self) -> (bits: u64)
        ensures
            bits == self.code(),
            PauliOp::decode(bits) == self,
    {
        match self {
            PauliOp::I => 0,
            PauliOp::Z => 1,
            PauliOp::X => 2,
            PauliOp::Y => 3,
        }
    }

    /// The letter that names the operator.
    pub open spec fn letter(self) -> char {
        match self {
            PauliOp::I => 'I',
            PauliOp::Z => 'Z',
            PauliOp::X => 'X',
            PauliOp::Y => 'Y',
        }
    }

    /// The name of the operator as text: one of `I`, `Z`, `X`, `Y`.
    pub fn to_string(&self) -> (s: String)
        ensures
            s@ == seq![self.letter()],
    {
        proof {
            reveal_strlit("I");
            reveal_strlit("Z");
            reveal_strlit("X");
            reveal_strlit("Y");
        }
        let s = match *self {
            PauliOp::I => String::from_str("I"),
            PauliOp::Z => String::from_str("Z"),
            PauliOp::X => String::from_str("X"),
            PauliOp::Y => String::from_str("Y"),
        };
        assert(s@ =~= seq![self.letter()]);
        s
    }
}


/// Whether the Pauli string holds the identity at every position.
pub open spec fn all_identity(p: Seq<PauliOp>) -> bool {
    forall|j: int| 0 <= j < p.len() ==> #[trigger] p[j] == PauliOp::I
}

/// Whether an odd number of positions of the Pauli strings `p` and `q` anticommute.
pub open spec fn anticommute_parity(p: Seq<PauliOp>, q: Seq<PauliOp>) -> bool
    decreases p.len(),
{
    if p.len() == 0 {
        false
    } else {
        anticommute_parity(p.drop_last(), q.drop_last()) != p.last().anticommutes(q.last())
    }
}

/// Two Pauli strings commute when an even number of their positions anticommute.
pub open spec fn strings_commute(p: Seq<PauliOp>, q: Seq<PauliOp>) -> bool {
    !anticommute_parity(p, q)
}

/// The position-wise product of two Pauli strings, with its phase dropped.
pub open spec fn string_times(p: Seq<PauliOp>, q: Seq<PauliOp>) -> Seq<PauliOp> {
    Seq::new(p.len(), |j: int| p[j].times(q[j]))
}

/// The power of `i`, modulo 4, that the position-wise product of `p` and `q` carries.
pub open spec fn string_phase_power(p: Seq<PauliOp>, q: Seq<PauliOp>) -> nat
    decreases p.len(),
{
    if p.len() == 0 {
        0
    } else {
        (string_phase_power(p.drop_last(), q.drop_last()) + p.last().phase_power(q.last())) % 4
    }
}

/// The phase of a product is real exactly when the two strings commute.
pub proof fn lemma_phase_parity(p: Seq<PauliOp>, q: Seq<PauliOp>)
    requires
        p.len() == q.len(),
    ensures
        string_phase_power(p, q) < 4,
        (string_phase_power(p, q) % 2 == 1) == anticommute_parity(p, q),
    decreases p.len(),
{
    if p.len() > 0 {
        lemma_phase_parity(p.drop_last(), q.drop_last());
    }
}

/// Anticommutation is symmetric.
pub proof fn lemma_parity_symmetric(p: Seq<PauliOp>, q: Seq<PauliOp>)
    requires
        p.len() == q.len(),
    ensures
        anticommute_parity(p, q) == anticommute_parity(q, p),
    decreases p.len(),
{
    if p.len() > 0 {
        lemma_parity_symmetric(p.drop_last(), q.drop_last());
    }
}

/// Every Pauli string commutes with itself.
pub proof fn lemma_parity_self(p: Seq<PauliOp>)
    ensures
        !anticommute_parity(p, p),
    decreases p.len(),
{
    if p.len() > 0 {
        lemma_parity_self(p.drop_last());
    }
}

/// Anticommutation with `r` is additive over products.
pub proof fn lemma_parity_times(p: Seq<PauliOp>, q: Seq<PauliOp>, r: Seq<PauliOp>)
    requires
        p.len() == q.len(),
        p.len() == r.len(),
    ensures
        anticommute_parity(string_times(p, q), r) == (anticommute_parity(p, r)
            != anticommute_parity(q, r)),
    decreases p.len(),
{
    if p.len() > 0 {
        lemma_parity_times(p.drop_last(), q.drop_last(), r.drop_last());
        assert(string_times(p, q).drop_last() =~= string_times(p.drop_last(), q.drop_last()));
    }
}

/// On strings of one operator, the parity is whether the two operators anticommute.
pub proof fn lemma_parity_single(p: Seq<PauliOp>, q: Seq<PauliOp>)
    requires
        p.len() == 1,
        q.len() == 1,
    ensures
        anticommute_parity(p, q) == p[0].anticommutes(q[0]),
{
    assert(!anticommute_parity(p.drop_last(), q.drop_last()));
}

/// On strings of two operators, the parity adds up over the two positions.
pub proof fn lemma_parity_pair(p: Seq<PauliOp>, q: Seq<PauliOp>)
    requires
        p.len() == 2,
        q.len() == 2,
    ensures
        anticommute_parity(p, q) == (p[0].anticommutes(q[0]) != p[1].anticommutes(q[1])),
{
    lemma_parity_single(p.drop_last(), q.drop_last());
}

/// Replacing one position in both strings changes the parity by what that position
/// held and by what it holds now.
pub proof fn lemma_parity_update(
    p: Seq<PauliOp>,
    q: Seq<PauliOp>,
    b: int,
    x: PauliOp,
    y: PauliOp,
)
    requires
        p.len() == q.len(),
        0 <= b < p.len(),
    ensures
        anticommute_parity(p.update(b, x), q.update(b, y)) == ((anticommute_parity(p, q)
            != p[b].anticommutes(q[b])) != x.anticommutes(y)),
    decreases p.len(),
{
    let pu = p.update(b, x);
    let qu = q.update(b, y);
    if b == p.len() - 1 {
        assert(pu.drop_last() =~= p.drop_last());
        assert(qu.drop_last() =~= q.drop_last());
    } else {
        lemma_parity_update(p.drop_last(), q.drop_last(), b, x, y);
        assert(pu.drop_last() =~= p.drop_last().update(b, x));
        assert(qu.drop_last() =~= q.drop_last().update(b, y));
    }
}

/// The parity of two strings put end to end adds up over the parts.
pub proof fn lemma_parity_concat(
    p_head: Seq<PauliOp>,
    p_tail: Seq<PauliOp>,
    q_head: Seq<PauliOp>,
    q_tail: Seq<PauliOp>,
)
    requires
        p_head.len() == q_head.len(),
        p_tail.len() == q_tail.len(),
    ensures
        anticommute_parity(p_head + p_tail, q_head + q_tail) == (anticommute_parity(p_head, q_head)
            != anticommute_parity(p_tail, q_tail)),
    decreases p_tail.len(),
{
    if p_tail.len() == 0 {
        assert(p_head + p_tail =~= p_head);
        assert(q_head + q_tail =~= q_head);
    } else {
        lemma_parity_concat(p_head, p_tail.drop_last(), q_head, q_tail.drop_last());
        assert((p_head + p_tail).drop_last() =~= p_head + p_tail.drop_last());
        assert((q_head + q_tail).drop_last() =~= q_head + q_tail.drop_last());
    }
}

/// The qubit indices in `bits` are below `n` and no index occurs twice.
pub open spec fn distinct_bits(bits: Seq<usize>, n: nat) -> bool {
    &&& forall|k: int| 0 <= k < bits.len() ==> #[trigger] bits[k] < n
    &&& forall|k: int, l: int| 0 <= k < bits.len() && 0 <= l < bits.len() && k != l ==> bits[k] != bits[l]
}

/// Whether the qubit indices in `bits` are below `n` and no index occurs twice.
pub fn check_distinct_bits(bits: &[usize], n: usize) -> (ok: bool)
    ensures
        ok == distinct_bits(bits@, n as nat),
{
    let mut k: usize = 0;
    while k < bits.len()
        invariant
            k <= bits@.len(),
            forall|a: int| 0 <= a < k ==> #[trigger] bits@[a] < n,
            forall|a: int, b: int| 0 <= a < k && 0 <= b < k && a != b ==> bits@[a] != bits@[b],
        decreases bits.len() - k,
    {
        if bits[k] >= n {
            return false;
        }
        let mut l: usize = 0;
        while l < k
            invariant
                l <= k,
                k < bits@.len(),
                forall|a: int| 0 <= a < l ==> bits@[a] != bits@[k as int],
            decreases k - l,
        {
            if bits[l] == bits[k] {
                return false;
            }
            l += 1;
        }
        k += 1;
    }
    true
}

/// Whether `j` is one of the indices in `bits`.
pub open spec fn covers(bits: Seq<usize>, j: int) -> bool {
    exists|k: int| 0 <= k < bits.len() && #[trigger] bits[k] == j
}

/// The operators of `row` at the positions `bits`, in the order of `bits`.
pub open spec fn extract(row: Seq<PauliOp>, bits: Seq<usize>) -> Seq<PauliOp> {
    Seq::new(bits.len(), |k: int| row[bits[k] as int])
}

/// The string `row` with `ops[k]` written at position `bits[k]`, for each `k` in turn.
pub open spec fn scattered(row: Seq<PauliOp>, bits: Seq<usize>, ops: Seq<PauliOp>) -> Seq<
    PauliOp,
>
    decreases bits.len(),
{
    if bits.len() == 0 {
        row
    } else {
        scattered(row, bits.drop_last(), ops.drop_last()).update(bits.last() as int, ops.last())
    }
}

/// The string `row` with the identity at every position in `bits`.
pub open spec fn masked(row: Seq<PauliOp>, bits: Seq<usize>) -> Seq<PauliOp> {
    Seq::new(row.len(), |j: int| if covers(bits, j) { PauliOp::I } else { row[j] })
}

/// With distinct positions, writing puts each operator at its position and leaves
/// the other positions alone.
pub proof fn lemma_scattered(row: Seq<PauliOp>, bits: Seq<usize>, ops: Seq<PauliOp>)
    requires
        distinct_bits(bits, row.len()),
        ops.len() == bits.len(),
    ensures
        scattered(row, bits, ops).len() == row.len(),
        forall|k: int| 0 <= k < bits.len() ==> scattered(row, bits, ops)[#[trigger] bits[k] as int] == ops[k],
        forall|j: int| 0 <= j < row.len() && !covers(bits, j) ==> #[trigger] scattered(row, bits, ops)[j] == row[j],
        extract(scattered(row, bits, ops), bits) == ops,
        masked(scattered(row, bits, ops), bits) == masked(row, bits),
    decreases bits.len(),
{
    let s = scattered(row, bits, ops);
    if bits.len() > 0 {
        let bits1 = bits.drop_last();
        let ops1 = ops.drop_last();
        lemma_scattered(row, bits1, ops1);
        let s1 = scattered(row, bits1, ops1);
        assert forall|k: int| 0 <= k < bits.len() implies s[#[trigger] bits[k] as int]
            == ops[k] by {
            if k < bits.len() - 1 {
                assert(bits1[k] == bits[k]);
                assert(bits[k] != bits[bits.len() - 1]);
            }
        }
        assert forall|j: int| 0 <= j < row.len() && !covers(bits, j) implies #[trigger] s[j]
            == row[j] by {
            assert(bits[bits.len() - 1] != j);
            if covers(bits1, j) {
                let k = choose|k: int| 0 <= k < bits1.len() && #[trigger] bits1[k] == j;
                assert(bits[k] == j);
            }
        }
    }
    assert(extract(s, bits) =~= ops);
    assert(masked(s, bits) =~= masked(row, bits));
}

/// The parity of two strings splits into the parity at the positions `bits` and
/// the parity at all other positions.
pub proof fn lemma_parity_split(p: Seq<PauliOp>, q: Seq<PauliOp>, bits: Seq<usize>)
    requires
        p.len() == q.len(),
        distinct_bits(bits, p.len()),
    ensures
        anticommute_parity(p, q) == (anticommute_parity(extract(p, bits), extract(q, bits))
            != anticommute_parity(masked(p, bits), masked(q, bits))),
    decreases bits.len(),
{
    if bits.len() == 0 {
        assert(masked(p, bits) =~= p);
        assert(masked(q, bits) =~= q);
    } else {
        let bits1 = bits.drop_last();
        let b = bits.last() as int;
        lemma_parity_split(p, q, bits1);
        assert(extract(p, bits).drop_last() =~= extract(p, bits1));
        assert(extract(q, bits).drop_last() =~= extract(q, bits1));
        assert(!covers(bits1, b)) by {
            if covers(bits1, b) {
                let k = choose|k: int| 0 <= k < bits1.len() && #[trigger] bits1[k] == b;
                assert(bits[k] == bits[bits.len() - 1]);
            }
        }
        assert forall|j: int| 0 <= j < p.len() && j != b implies covers(bits, j) == covers(
            bits1,
            j,
        ) by {
            if covers(bits, j) {
                let k = choose|k: int| 0 <= k < bits.len() && #[trigger] bits[k] == j;
                assert(bits1[k] == j);
            }
            if covers(bits1, j) {
                let k = choose|k: int| 0 <= k < bits1.len() && #[trigger] bits1[k] == j;
                assert(bits[k] == j);
            }
        }
        assert(covers(bits, b)) by {
            assert(bits[bits.len() - 1] == b);
        }
        assert(masked(p, bits) =~= masked(p, bits1).update(b, PauliOp::I));
        assert(masked(q, bits) =~= masked(q, bits1).update(b, PauliOp::I));
        lemma_parity_update(masked(p, bits1), masked(q, bits1), b, PauliOp::I, PauliOp::I);
    }
}

/// Strings that hold no other operators than I and Z commute.
pub proof fn lemma_parity_diagonal(p: Seq<PauliOp>, q: Seq<PauliOp>)
    requires
        p.len() == q.len(),
        forall|j: int| 0 <= j < p.len() ==> !(#[trigger] p[j]).has_x(),
        forall|j: int| 0 <= j < q.len() ==> !(#[trigger] q[j]).has_x(),
    ensures
        !anticommute_parity(p, q),
    decreases p.len(),
{
    if p.len() > 0 {
        lemma_parity_diagonal(p.drop_last(), q.drop_last());
        assert(!p.last().has_x());
        assert(!q.last().has_x());
    }
}

/// On strings of one operator, product and phase are those of the two operators.
pub proof fn lemma_product_single(p: Seq<PauliOp>, q: Seq<PauliOp>)
    requires
        p.len() == 1,
        q.len() == 1,
    ensures
        string_times(p, q) == seq![p[0].times(q[0])],
        string_phase_power(p, q) == p[0].phase_power(q[0]),
{
    assert(string_times(p, q) =~= seq![p[0].times(q[0])]);
    assert(string_phase_power(p.drop_last(), q.drop_last()) == 0);
}

/// On strings of two operators, the product is taken position by position and the
/// phases add up.
pub proof fn lemma_product_pair(p: Seq<PauliOp>, q: Seq<PauliOp>)
    requires
        p.len() == 2,
        q.len() == 2,
    ensures
        string_times(p, q) == seq![p[0].times(q[0]), p[1].times(q[1])],
        string_phase_power(p, q) == (p[0].phase_power(q[0]) + p[1].phase_power(q[1])) % 4,
{
    assert(string_times(p, q) =~= seq![p[0].times(q[0]), p[1].times(q[1])]);
    lemma_product_single(p.drop_last(), q.drop_last());
}

/// The product and the phase of two strings put end to end are made up of those
/// of the parts.
pub proof fn lemma_product_concat(
    p_head: Seq<PauliOp>,
    p_tail: Seq<PauliOp>,
    q_head: Seq<PauliOp>,
    q_tail: Seq<PauliOp>,
)
    requires
        p_head.len() == q_head.len(),
        p_tail.len() == q_tail.len(),
    ensures
        string_times(p_head + p_tail, q_head + q_tail) == string_times(p_head, q_head)
            + string_times(p_tail, q_tail),
        string_phase_power(p_head + p_tail, q_head + q_tail) == (string_phase_power(
            p_head,
            q_head,
        ) + string_phase_power(p_tail, q_tail)) % 4,
    decreases p_tail.len(),
{
    assert(string_times(p_head + p_tail, q_head + q_tail) =~= string_times(p_head, q_head)
        + string_times(p_tail, q_tail));
    if p_tail.len() == 0 {
        assert(p_head + p_tail =~= p_head);
        assert(q_head + q_tail =~= q_head);
        lemma_phase_parity(p_head, q_head);
    } else {
        lemma_product_concat(p_head, p_tail.drop_last(), q_head, q_tail.drop_last());
        assert((p_head + p_tail).drop_last() =~= p_head + p_tail.drop_last());
        assert((q_head + q_tail).drop_last() =~= q_head + q_tail.drop_last());
    }
}

/// The mathematical content of a stabilizer tableau: one Pauli string and one
/// sign per generator.
pub struct Tableau {
    /// `rows[i][j]` is the operator of generator `i` on qubit `j`.
    pub rows: Seq<Seq<PauliOp>>,
    /// `signs[i]` holds when generator `i` carries a minus sign.
    pub signs: Seq<bool>,
}

impl Tableau {
    /// The tableau has `n` generators over `n` qubits.
    pub open spec fn square(self, n: nat) -> bool {
        &&& self.rows.len() == n
        &&& self.signs.len() == n
        &&& forall|i: int| 0 <= i < n ==> (#[trigger] self.rows[i]).len() == n
    }

    /// The tableau of the state |0...0>: generator `i` is +Z on qubit `i`.
    pub open spec fn initial(n: nat) -> Tableau {
        Tableau {
            rows: Seq::new(
                n,
                |i: int| Seq::new(n, |j: int| if i == j { PauliOp::Z } else { PauliOp::I }),
            ),
            signs: Seq::new(n, |i: int| false),
        }
    }

    /// The tableau with the operator of generator `i` on qubit `j` replaced.
    pub open spec fn with_op(self, i: int, j: int, op: PauliOp) -> Tableau {
        Tableau { rows: self.rows.update(i, self.rows[i].update(j, op)), signs: self.signs }
    }

    /// The tableau with the sign of generator `i` replaced.
    pub open spec fn with_sign(self, i: int, minus: bool) -> Tableau {
        Tableau { rows: self.rows, signs: self.signs.update(i, minus) }
    }

    /// Every two generators commute.
    pub open spec fn commuting(self) -> bool {
        forall|a: int, b: int|
            0 <= a < self.rows.len() && 0 <= b < self.rows.len() ==> strings_commute(
                #[trigger] self.rows[a],
                #[trigger] self.rows[b],
            )
    }

    /// The tableau with generators `a` and `b` exchanged, signs included.
    pub open spec fn swapped(self, a: int, b: int) -> Tableau {
        Tableau {
            rows: self.rows.update(a, self.rows[b]).update(b, self.rows[a]),
            signs: self.signs.update(a, self.signs[b]).update(b, self.signs[a]),
        }
    }

    /// The tableau with generator `m` multiplied by generator `i`, as signed
    /// operators: the operators are multiplied position by position, and the sign
    /// of the product is made of the signs of the two generators and of the phase
    /// `i^2` where the product of the operators carries it.
    pub open spec fn multiplied(self, m: int, i: int) -> Tableau {
        Tableau {
            rows: self.rows.update(m, string_times(self.rows[m], self.rows[i])),
            signs: self.signs.update(
                m,
                (self.signs[m] != self.signs[i]) != (string_phase_power(
                    self.rows[m],
                    self.rows[i],
                ) == 2),
            ),
        }
    }

    /// Whether generator `i` has an X component (`x_part`) or a Z component on qubit `j`.
    pub open spec fn has(self, x_part: bool, i: int, j: int) -> bool {
        if x_part {
            self.rows[i][j].has_x()
        } else {
            self.rows[i][j].has_z()
        }
    }

    /// The first generator at or after `from` with the component on qubit `j`, or `n`
    /// when there is none.
    pub open spec fn pivot_from(self, n: nat, x_part: bool, j: int, from: int) -> int
        decreases n - from,
    {
        if from >= n {
            n as int
        } else if self.has(x_part, from, j) {
            from
        } else {
            self.pivot_from(n, x_part, j, from + 1)
        }
    }

    /// Generator `i` multiplied into every other generator, from `m` on, that has the
    /// component on qubit `j`.
    pub open spec fn cleared_from(self, n: nat, x_part: bool, i: int, j: int, m: int) -> Tableau
        decreases n - m,
    {
        if m >= n {
            self
        } else if m != i && self.has(x_part, m, j) {
            self.multiplied(m, i).cleared_from(n, x_part, i, j, m + 1)
        } else {
            self.cleared_from(n, x_part, i, j, m + 1)
        }
    }

    /// Row reduction on one component over the qubits from `j` on, with `i` pivot
    /// generators already in place: for each qubit, the first generator from `i` on
    /// with the component moves to position `i`, is multiplied into all others that
    /// have it, and `i` advances. Gives the reduced tableau and the pivot count.
    pub open spec fn reduced_from(self, n: nat, x_part: bool, j: int, i: int) -> (Tableau, int)
        decreases n - j,
    {
        if j >= n {
            (self, i)
        } else {
            let k = self.pivot_from(n, x_part, j, i);
            if k < n {
                self.swapped(i, k).cleared_from(n, x_part, i, j, 0).reduced_from(
                    n,
                    x_part,
                    j + 1,
                    i + 1,
                )
            } else {
                self.reduced_from(n, x_part, j + 1, i)
            }
        }
    }

    /// The canonical form: row reduction on the X components, then on the Z
    /// components with the generators that are left.
    pub open spec fn normalized(self) -> Tableau {
        let n = self.rows.len();
        let first = self.reduced_from(n, true, 0, 0);
        first.0.reduced_from(n, false, 0, first.1).0
    }

    /// The line that shows generator `i`: its sign, then one letter per qubit.
    pub open spec fn line(self, i: int) -> Seq<char> {
        seq![if self.signs[i] { '-' } else { '+' }] + Seq::new(
            self.rows[i].len(),
            |j: int| self.rows[i][j].letter(),
        )
    }

    /// The lines of the first `k` generators, with a line break between one line and
    /// the next.
    pub open spec fn lines(self, k: int) -> Seq<char>
        decreases k,
    {
        if k <= 0 {
            Seq::empty()
        } else if k == 1 {
            self.line(0)
        } else {
            self.lines(k - 1) + seq!['\n'] + self.line(k - 1)
        }
    }

    /// The tableau as text: one line per generator.
    pub open spec fn text(self) -> Seq<char> {
        self.lines(self.rows.len() as int)
    }

    /// Whether `gate` on the qubits `bits` has no image for generator `i`: the number
    /// of qubits is not that of `gate`, or `gate` has no rule for the operators there.
    pub open spec fn row_fails<G: Gate>(self, gate: &G, bits: Seq<usize>, i: int) -> bool {
        bits.len() != gate.arity() || gate.conjugation(extract(self.rows[i], bits)) is None
    }

    /// The first generator at or after `from` for which `gate` fails, or the number
    /// of generators when it fails for none.
    pub open spec fn first_failure<G: Gate>(self, gate: &G, bits: Seq<usize>, from: int) -> int
        decreases self.rows.len() - from,
    {
        if from >= self.rows.len() {
            self.rows.len() as int
        } else if self.row_fails(gate, bits, from) {
            from
        } else {
            self.first_failure(gate, bits, from + 1)
        }
    }

    /// Generator `i` conjugated with `gate` on the qubits `bits`.
    pub open spec fn conjugated_row<G: Gate>(self, gate: &G, bits: Seq<usize>, i: int) -> Seq<
        PauliOp,
    > {
        scattered(self.rows[i], bits, gate.conjugation(extract(self.rows[i], bits)).unwrap().0)
    }

    /// The tableau with the generators before `k` conjugated with `gate` on the qubits
    /// `bits`, each sign flipped where the conjugation says so.
    pub open spec fn conjugated_upto<G: Gate>(self, gate: &G, bits: Seq<usize>, k: int) -> Tableau {
        Tableau {
            rows: Seq::new(
                self.rows.len(),
                |i: int| if i < k { self.conjugated_row(gate, bits, i) } else { self.rows[i] },
            ),
            signs: Seq::new(
                self.signs.len(),
                |i: int|
                    if i < k {
                        self.signs[i] != gate.conjugation(extract(self.rows[i], bits)).unwrap().1
                    } else {
                        self.signs[i]
                    },
            ),
        }
    }

    /// A gate that succeeds on every generator keeps a commuting tableau commuting.
    pub proof fn lemma_conjugated_commuting<G: Gate>(self, n: nat, gate: &G, bits: Seq<usize>)
        requires
            self.square(n),
            self.commuting(),
            distinct_bits(bits, n),
            self.first_failure(gate, bits, 0) >= n,
        ensures
            self.conjugated_upto(gate, bits, n as int).square(n),
            self.conjugated_upto(gate, bits, n as int).commuting(),
    {
        let t = self.conjugated_upto(gate, bits, n as int);
        self.lemma_no_failure(gate, bits, 0);
        assert forall|i: int| 0 <= i < n implies (#[trigger] t.rows[i]).len() == n by {
            let e = extract(self.rows[i], bits);
            assert(!self.row_fails(gate, bits, i));
            gate.lemma_conjugation_keeps_commutation(e, e);
            lemma_scattered(self.rows[i], bits, gate.conjugation(e).unwrap().0);
        }
        assert forall|a: int, b: int| 0 <= a < n && 0 <= b < n implies strings_commute(
            #[trigger] t.rows[a],
            #[trigger] t.rows[b],
        ) by {
            let p = self.rows[a];
            let q = self.rows[b];
            let ep = extract(p, bits);
            let eq = extract(q, bits);
            assert(!self.row_fails(gate, bits, a));
            assert(!self.row_fails(gate, bits, b));
            gate.lemma_conjugation_keeps_commutation(ep, eq);
            gate.lemma_conjugation_keeps_commutation(eq, ep);
            let ip = gate.conjugation(ep).unwrap().0;
            let iq = gate.conjugation(eq).unwrap().0;
            lemma_scattered(p, bits, ip);
            lemma_scattered(q, bits, iq);
            lemma_parity_split(p, q, bits);
            lemma_parity_split(t.rows[a], t.rows[b], bits);
            assert(strings_commute(p, q));
        }
    }

    /// Where the first failure lies at the end, no generator from `from` on fails.
    pub proof fn lemma_no_failure<G: Gate>(self, gate: &G, bits: Seq<usize>, from: int)
        requires
            0 <= from,
            self.first_failure(gate, bits, from) >= self.rows.len(),
        ensures
            forall|i: int| from <= i < self.rows.len() ==> !self.row_fails(gate, bits, i),
        decreases self.rows.len() - from,
    {
        if from < self.rows.len() {
            self.lemma_no_failure(gate, bits, from + 1);
        }
    }

    /// The generators of the state |0...0> commute.
    pub proof fn lemma_initial_commuting(n: nat)
        ensures
            Tableau::initial(n).square(n),
            Tableau::initial(n).commuting(),
    {
        let t = Tableau::initial(n);
        assert forall|a: int, b: int| 0 <= a < n && 0 <= b < n implies strings_commute(
            #[trigger] t.rows[a],
            #[trigger] t.rows[b],
        ) by {
            lemma_parity_diagonal(t.rows[a], t.rows[b]);
        }
    }

    /// Exchanging two generators keeps a commuting tableau commuting.
    pub proof fn lemma_swapped_commuting(self, n: nat, a: int, b: int)
        requires
            self.square(n),
            self.commuting(),
            0 <= a < n,
            0 <= b < n,
        ensures
            self.swapped(a, b).square(n),
            self.swapped(a, b).commuting(),
    {
        let t = self.swapped(a, b);
        assert forall|c: int, d: int| 0 <= c < n && 0 <= d < n implies strings_commute(
            #[trigger] t.rows[c],
            #[trigger] t.rows[d],
        ) by {
            let c0 = if c == b { a } else if c == a { b } else { c };
            let d0 = if d == b { a } else if d == a { b } else { d };
            assert(t.rows[c] == self.rows[c0]);
            assert(t.rows[d] == self.rows[d0]);
        }
    }

    /// Multiplying one generator by another keeps a commuting tableau commuting.
    pub proof fn lemma_multiplied_commuting(self, n: nat, m: int, i: int)
        requires
            self.square(n),
            self.commuting(),
            0 <= m < n,
            0 <= i < n,
        ensures
            self.multiplied(m, i).square(n),
            self.multiplied(m, i).commuting(),
    {
        let t = self.multiplied(m, i);
        let prod = string_times(self.rows[m], self.rows[i]);
        assert forall|c: int, d: int| 0 <= c < n && 0 <= d < n implies strings_commute(
            #[trigger] t.rows[c],
            #[trigger] t.rows[d],
        ) by {
            if c == m && d == m {
                lemma_parity_self(prod);
            } else if c == m {
                assert(t.rows[d] == self.rows[d]);
                lemma_parity_times(self.rows[m], self.rows[i], self.rows[d]);
                assert(strings_commute(self.rows[m], self.rows[d]));
                assert(strings_commute(self.rows[i], self.rows[d]));
            } else if d == m {
                assert(t.rows[c] == self.rows[c]);
                lemma_parity_times(self.rows[m], self.rows[i], self.rows[c]);
                lemma_parity_symmetric(prod, self.rows[c]);
                assert(strings_commute(self.rows[m], self.rows[c]));
                assert(strings_commute(self.rows[i], self.rows[c]));
            } else {
                assert(t.rows[c] == self.rows[c]);
                assert(t.rows[d] == self.rows[d]);
            }
        }
    }
}

/// The two-bit field of `words` that starts at bit `pos`.
pub open spec fn field_at(words: Seq<u64>, pos: int) -> u64 {
    (words[pos / 64] >> ((pos % 64) as u64)) & 3
}

/// The bit of `words` at position `pos`.
pub open spec fn bit_at(words: Seq<u64>, pos: int) -> bool {
    (words[pos / 64] >> ((pos % 64) as u64)) & 1 == 1
}

/// The bits of `words` from position `from` on are 0.
pub open spec fn clear_from(words: Seq<u64>, from: int) -> bool {
    forall|pos: int| from <= pos < 64 * words.len() ==> !#[trigger] bit_at(words, pos)
}

proof fn lemma_bit_beside_field(w: u64, b: u64, v: u64, c: u64)
    by (bit_vector)
    requires
        b <= 62,
        c < 64,
        c != b,
        c != b + 1,
    ensures
        (((w & !(3u64 << b)) | ((v & 3) << b)) >> c) & 1 == (w >> c) & 1,
{
}

proof fn lemma_field_of_zero(b: u64)
    by (bit_vector)
    requires
        b < 64,
    ensures
        (0u64 >> b) & 3 == 0,
        (0u64 >> b) & 1 == 0,
{
}

proof fn lemma_field_stored(w: u64, b: u64, v: u64)
    by (bit_vector)
    requires
        b <= 62,
    ensures
        (((w & !(3u64 << b)) | ((v & 3) << b)) >> b) & 3 == v & 3,
        (v & 3) % 4 == v % 4,
{
}

proof fn lemma_field_kept(w: u64, b: u64, v: u64, c: u64)
    by (bit_vector)
    requires
        b <= 62,
        c <= 62,
        b % 2 == 0,
        c % 2 == 0,
        b != c,
    ensures
        (((w & !(3u64 << b)) | ((v & 3) << b)) >> c) & 3 == (w >> c) & 3,
{
}

proof fn lemma_field_parts(w: u64, b: u64)
    by (bit_vector)
    requires
        b <= 62,
    ensures
        (w & (1u64 << b) != 0) == (((w >> b) & 3) % 4 == 1 || ((w >> b) & 3) % 4 == 3),
        (w & (2u64 << b) != 0) == (((w >> b) & 3) % 4 == 2 || ((w >> b) & 3) % 4 == 3),
        (w >> b) & 3 < 4,
{
}

proof fn lemma_xor_codes(a: u64, b: u64)
    by (bit_vector)
    requires
        a < 4,
        b < 4,
    ensures
        (a ^ b) < 4,
        ((a ^ b) & 1 == 1) == ((a & 1 == 1) != (b & 1 == 1)),
        ((a ^ b) & 2 == 2) == ((a & 2 == 2) != (b & 2 == 2)),
        (a & 1 == 1) == (a == 1 || a == 3),
        (a & 2 == 2) == (a == 2 || a == 3),
        (b & 1 == 1) == (b == 1 || b == 3),
        (b & 2 == 2) == (b == 2 || b == 3),
        ((a ^ b) & 1 == 1) == ((a ^ b) == 1 || (a ^ b) == 3),
        ((a ^ b) & 2 == 2) == ((a ^ b) == 2 || (a ^ b) == 3),
{
}

proof fn lemma_bit_read(w: u64, b: u64)
    by (bit_vector)
    requires
        b < 64,
    ensures
        (w & (1u64 << b) != 0) == ((w >> b) & 1 == 1),
{
}

proof fn lemma_bit_stored(w: u64, b: u64, v: u64)
    by (bit_vector)
    requires
        b < 64,
        v <= 1,
    ensures
        (((w & !(1u64 << b)) | (v << b)) >> b) & 1 == v,
        ((w ^ (1u64 << b)) >> b) & 1 == 1 - ((w >> b) & 1),
{
}

proof fn lemma_bit_kept(w: u64, b: u64, v: u64, c: u64)
    by (bit_vector)
    requires
        b < 64,
        c < 64,
        v <= 1,
        b != c,
    ensures
        (((w & !(1u64 << b)) | (v << b)) >> c) & 1 == (w >> c) & 1,
        ((w ^ (1u64 << b)) >> c) & 1 == (w >> c) & 1,
{
}

/// The cell of generator `i` and qubit `j` lies inside an `n` by `n` grid.
proof fn lemma_cell_bound(n: int, i: int, j: int)
    by (nonlinear_arith)
    requires
        0 <= i < n,
        0 <= j < n,
    ensures
        0 <= i * n + j < n * n,
        0 <= i * n,
{
}

/// Distinct cells of the grid have distinct numbers.
proof fn lemma_cell_distinct(n: int, i: int, j: int, a: int, b: int)
    by (nonlinear_arith)
    requires
        0 <= i < n,
        0 <= j < n,
        0 <= a < n,
        0 <= b < n,
        i != a || j != b,
    ensures
        i * n + j != a * n + b,
{
}

/// A stabilizer state on `nr_bits` qubits, stored as a packed tableau.
pub struct StabilizerMatrix {
    /// The number of qubits in the state
    nr_bits: usize,
    /// Generators of the stabilizer group, two bits per generator and qubit
    xz: Vec<u64>,
    /// Signs of the generators, one bit each
    phase: Vec<u64>,
}

impl View for StabilizerMatrix {
    type V = Tableau;

    closed spec fn view(&self) -> Tableau {
        Tableau {
            rows: Seq::new(
                self.nr_bits as nat,
                |i: int| Seq::new(self.nr_bits as nat, |j: int| self.op_at(i, j)),
            ),
            signs: Seq::new(self.nr_bits as nat, |i: int| self.sign_at(i)),
        }
    }
}

impl StabilizerMatrix {
    /// The number of qubits.
    pub closed spec fn dim(&self) -> nat {
        self.nr_bits as nat
    }

    /// The packed words are as long as the tableau needs, and the bits in them
    /// beyond the tableau are 0.
    pub closed spec fn wf(&self) -> bool {
        &&& 2 * (self.nr_bits * self.nr_bits) + 63 <= usize::MAX
        &&& self.xz@.len() == (2 * (self.nr_bits * self.nr_bits) + 63) / 64
        &&& self.phase@.len() == (self.nr_bits + 63) / 64
        &&& clear_from(self.xz@, 2 * (self.nr_bits * self.nr_bits))
        &&& clear_from(self.phase@, self.nr_bits as int)
    }

    /// The packed operator words: two bits per generator and qubit, row by row.
    pub closed spec fn xz_words(&self) -> Seq<u64> {
        self.xz@
    }

    /// The packed sign words: one bit per generator.
    pub closed spec fn phase_words(&self) -> Seq<u64> {
        self.phase@
    }

    /// The packed words hold the tableau and nothing else: there are as many words
    /// as the cells and the signs need, each cell holds the code of its operator,
    /// each sign bit the sign of its generator, and all bits beyond are 0.
    pub open spec fn packed(&self) -> bool {
        let n = self.dim() as int;
        &&& self.xz_words().len() == (2 * (n * n) + 63) / 64
        &&& self.phase_words().len() == (n + 63) / 64
        &&& forall|i: int, j: int|
            0 <= i < n && 0 <= j < n ==> field_at(self.xz_words(), 2 * (i * n + j))
                == (#[trigger] self@.rows[i][j]).code()
        &&& forall|i: int| 0 <= i < n ==> bit_at(self.phase_words(), i) == #[trigger] self@.signs[i]
        &&& clear_from(self.xz_words(), 2 * (n * n))
        &&& clear_from(self.phase_words(), n)
    }

    /// A well-formed matrix is packed.
    pub proof fn lemma_packed(&self)
        requires
            self.wf(),
        ensures
            self.packed(),
    {
        let n = self.dim() as int;
        assert forall|i: int, j: int| 0 <= i < n && 0 <= j < n implies field_at(
            self.xz_words(),
            2 * (i * n + j),
        ) == (#[trigger] self@.rows[i][j]).code() by {
            self.lemma_cell_in_words(i, j);
            let pos = self.cell(i, j);
            lemma_field_parts(self.xz@[pos / 64], (pos % 64) as u64);
            assert(self@.rows[i][j] == self.op_at(i, j));
        }
    }

    /// The start bit of the cell of generator `i` and qubit `j`.
    pub closed spec fn cell(&self, i: int, j: int) -> int {
        2 * (i * self.nr_bits + j)
    }

    /// The operator of generator `i` on qubit `j`.
    pub closed spec fn op_at(&self, i: int, j: int) -> PauliOp {
        PauliOp::decode(field_at(self.xz@, self.cell(i, j)))
    }

    /// Whether generator `i` carries a minus sign.
    pub closed spec fn sign_at(&self, i: int) -> bool {
        bit_at(self.phase@, i)
    }

    /// The view is a square tableau whose entries are the cells.
    pub proof fn lemma_view(&self)
        ensures
            self@.square(self.dim()),
            forall|i: int, j: int|
                0 <= i < self.dim() && 0 <= j < self.dim() ==> #[trigger] self@.rows[i][j]
                    == self.op_at(i, j),
            forall|i: int| 0 <= i < self.dim() ==> #[trigger] self@.signs[i] == self.sign_at(i),
    {
    }

    proof fn lemma_cell_in_words(&self, i: int, j: int)
        requires
            self.wf(),
            0 <= i < self.nr_bits,
            0 <= j < self.nr_bits,
        ensures
            0 <= self.cell(i, j),
            self.cell(i, j) + 1 < 2 * (self.nr_bits * self.nr_bits),
            0 <= self.cell(i, j) / 64 < self.xz@.len(),
            self.cell(i, j) % 64 <= 62,
            (self.cell(i, j) % 64) % 2 == 0,
            0 <= i * self.nr_bits + j < self.nr_bits * self.nr_bits,
    {
        lemma_cell_bound(self.nr_bits as int, i, j);
    }

    /// The number of qubits.
    pub fn nr_bits(&self) -> (n: usize)
        ensures
            n == self.dim(),
    {
        self.nr_bits
    }

    /// The packed operator words: two bits per generator and qubit, row by row.
    pub fn xz(&self) -> (words: &Vec<u64>)
        requires
            self.wf(),
        ensures
            words@ == self.xz_words(),
            self.packed(),
    {
        proof {
            self.lemma_packed();
        }
        &self.xz
    }

    /// The packed sign words: one bit per generator.
    pub fn phase(&self) -> (words: &Vec<u64>)
        requires
            self.wf(),
        ensures
            words@ == self.phase_words(),
            self.packed(),
    {
        proof {
            self.lemma_packed();
        }
        &self.phase
    }

    /// The tableau of the state |0...0> on `nr_bits` qubits.
    pub fn new(nr_bits: usize) -> (m: StabilizerMatrix)
        requires
            2 * (nr_bits * nr_bits) + 63 <= usize::MAX,
        ensures
            m.wf(),
            m.dim() == nr_bits,
            m@ == Tableau::initial(nr_bits as nat),
            m@.commuting(),
            independent(m@),
            m.packed(),
    {
        proof {
            Tableau::lemma_initial_commuting(nr_bits as nat);
            lemma_initial_independent(nr_bits as nat);
        }
        assert(nr_bits * nr_bits >= 0) by (nonlinear_arith);
        assert(nr_bits <= nr_bits * nr_bits) by (nonlinear_arith);
        let xz_size: usize = (2 * (nr_bits * nr_bits) + 0x3f) / 64;
        let phase_size: usize = (nr_bits + 0x3f) / 64;
        let mut res = StabilizerMatrix {
            nr_bits: nr_bits,
            xz: vec![0; xz_size],
            phase: vec![0; phase_size],
        };
        assert forall|pos: int| 0 <= pos < 64 * res.xz@.len() implies !#[trigger] bit_at(
            res.xz@,
            pos,
        ) by {
            lemma_field_of_zero((pos % 64) as u64);
        }
        assert forall|pos: int| 0 <= pos < 64 * res.phase@.len() implies !#[trigger] bit_at(
            res.phase@,
            pos,
        ) by {
            lemma_field_of_zero((pos % 64) as u64);
        }
        assert forall|a: int, b: int| 0 <= a < nr_bits && 0 <= b < nr_bits implies res.op_at(a, b)
            == PauliOp::I by {
            res.lemma_cell_in_words(a, b);
            lemma_field_of_zero((res.cell(a, b) % 64) as u64);
        }
        assert forall|a: int| 0 <= a < nr_bits implies !res.sign_at(a) by {
            lemma_field_of_zero((a % 64) as u64);
        }

        let mut i: usize = 0;
        while i < nr_bits
            invariant
                i <= nr_bits,
                res.wf(),
                res.nr_bits == nr_bits,
                forall|a: int| 0 <= a < nr_bits ==> !res.sign_at(a),
                forall|a: int, b: int|
                    0 <= a < nr_bits && 0 <= b < nr_bits ==> #[trigger] res.op_at(a, b) == (if a
                        == b && a < i {
                        PauliOp::Z
                    } else {
                        PauliOp::I
                    }),
            decreases nr_bits - i,
        {
            let ghost before = res;
            res.set(i, i, PauliOp::Z);
            proof {
                before.lemma_view();
                res.lemma_view();
                assert forall|a: int| 0 <= a < nr_bits implies !res.sign_at(a) by {
                    assert(res@.signs[a] == before@.signs[a]);
                }
                assert forall|a: int, b: int| 0 <= a < nr_bits && 0 <= b < nr_bits implies (
                #[trigger] res.op_at(a, b)) == (if a == b && a < i + 1 {
                    PauliOp::Z
                } else {
                    PauliOp::I
                }) by {
                    assert(res@.rows[a][b] == res.op_at(a, b));
                    assert(before@.rows[a][b] == before.op_at(a, b));
                }
            }
            i += 1;
        }
        proof {
            res.lemma_view();
        }
        assert(res@.rows =~~= Tableau::initial(nr_bits as nat).rows);
        assert(res@.signs =~~= Tableau::initial(nr_bits as nat).signs);
        proof {
            res.lemma_packed();
        }
        res
    }

    /// Where the cell of generator `i` and qubit `j` lies in the packed operator
    /// words: the index of the word, and the bit in it at which the cell starts.
    pub fn bit_indices(&self, i: usize, j: usize) -> (at: (usize, usize))
        requires
            self.wf(),
            i < self.dim(),
            j < self.dim(),
        ensures
            at.0 == 2 * (i * self.dim() + j) / 64,
            at.1 == 2 * (i * self.dim() + j) % 64,
            at.0 == self.cell(i as int, j as int) / 64,
            at.1 == self.cell(i as int, j as int) % 64,
    {
        proof {
            self.lemma_cell_in_words(i as int, j as int);
        }
        let idx: usize = 2 * (i * self.nr_bits + j);
        (idx / 64, idx % 64)
    }

    /// The two-bit code of the operator of generator `i` on qubit `j`.
    pub fn get_bits(&self, i: usize, j: usize) -> (bits: u64)
        requires
            self.wf(),
            i < self.dim(),
            j < self.dim(),
        ensures
            bits == self@.rows[i as int][j as int].code(),
            bits < 4,
    {
        proof {
            self.lemma_cell_in_words(i as int, j as int);
            let pos = self.cell(i as int, j as int);
            lemma_field_parts(self.xz@[pos / 64], (pos % 64) as u64);
        }
        let (word, shift) = self.bit_indices(i, j);
        (self.xz[word] >> shift) & 0x03
    }

    /// The operator of generator `i` on qubit `j`.
    pub fn get(&self, i: usize, j: usize) -> (op: PauliOp)
        requires
            self.wf(),
            i < self.dim(),
            j < self.dim(),
        ensures
            op == self@.rows[i as int][j as int],
    {
        PauliOp::from_bits(self.get_bits(i, j))
    }

    /// Whether generator `i` has a Z component on qubit `j`.
    pub fn get_z(&self, i: usize, j: usize) -> (z: bool)
        requires
            self.wf(),
            i < self.dim(),
            j < self.dim(),
        ensures
            z == self@.rows[i as int][j as int].has_z(),
    {
        proof {
            self.lemma_cell_in_words(i as int, j as int);
            let pos = self.cell(i as int, j as int);
            lemma_field_parts(self.xz@[pos / 64], (pos % 64) as u64);
        }
        let (word, shift) = self.bit_indices(i, j);
        self.xz[word] & (1u64 << shift) != 0
    }

    /// Whether generator `i` has an X component on qubit `j`.
    pub fn get_x(&self, i: usize, j: usize) -> (x: bool)
        requires
            self.wf(),
            i < self.dim(),
            j < self.dim(),
        ensures
            x == self@.rows[i as int][j as int].has_x(),
    {
        proof {
            self.lemma_cell_in_words(i as int, j as int);
            let pos = self.cell(i as int, j as int);
            lemma_field_parts(self.xz@[pos / 64], (pos % 64) as u64);
        }
        let (word, shift) = self.bit_indices(i, j);
        self.xz[word] & (2u64 << shift) != 0
    }

    /// Store the operator with code `op & 3` for generator `i` on qubit `j`.
    pub fn set_bits(&mut self, i: usize, j: usize, op: u64)
        requires
            old(self).wf(),
            i < old(self).dim(),
            j < old(self).dim(),
        ensures
            final(self).wf(),
            final(self).packed(),
            final(self).dim() == old(self).dim(),
            final(self)@ == old(self)@.with_op(i as int, j as int, PauliOp::decode(op)),
    {
        proof {
            self.lemma_cell_in_words(i as int, j as int);
        }
        let (word, shift) = self.bit_indices(i, j);
        let before: u64 = self.xz[word];
        let after: u64 = (before & !(0x03u64 << shift)) | ((op & 0x03) << shift);
        self.xz[word] = after;
        proof {
            let n = self.nr_bits as int;
            lemma_field_stored(before, shift as u64, op);
            assert(self.op_at(i as int, j as int) == PauliOp::decode(op));
            assert forall|a: int, b: int|
                0 <= a < n && 0 <= b < n && (a != i || b != j) implies self.op_at(a, b) == old(
                self,
            ).op_at(a, b) by {
                old(self).lemma_cell_in_words(a, b);
                lemma_cell_distinct(n, i as int, j as int, a, b);
                let pos = self.cell(a, b);
                if pos / 64 == word {
                    lemma_field_kept(before, shift as u64, op, (pos % 64) as u64);
                }
            }
            assert forall|a: int| 0 <= a < n implies self.sign_at(a) == old(self).sign_at(a) by {}
            assert(self@.rows =~~= old(self)@.with_op(
                i as int,
                j as int,
                PauliOp::decode(op),
            ).rows);
            assert(self@.signs =~~= old(self)@.signs);
            assert forall|pos: int| 2 * (n * n) <= pos < 64 * self.xz@.len() implies !#[trigger] bit_at(
                self.xz@,
                pos,
            ) by {
                assert(!bit_at(old(self).xz@, pos));
                if pos / 64 == word {
                    lemma_bit_beside_field(before, shift as u64, op, (pos % 64) as u64);
                }
            }
            self.lemma_packed();
        }
    }

    /// Store `op` for generator `i` on qubit `j`.
    pub fn set(&mut self, i: usize, j: usize, op: PauliOp)
        requires
            old(self).wf(),
            i < old(self).dim(),
            j < old(self).dim(),
        ensures
            final(self).wf(),
            final(self).packed(),
            final(self).dim() == old(self).dim(),
            final(self)@ == old(self)@.with_op(i as int, j as int, op),
    {
        self.set_bits(i, j, op.to_bits());
    }

    /// Whether generator `i` carries a minus sign.
    pub fn get_phase(&self, i: usize) -> (minus: bool)
        requires
            self.wf(),
            i < self.dim(),
        ensures
            minus == self@.signs[i as int],
    {
        let word: usize = i / 64;
        let shift: usize = i % 64;
        proof {
            lemma_bit_read(self.phase@[word as int], shift as u64);
        }
        (self.phase[word] & (1u64 << shift)) != 0
    }

    /// Set the sign of generator `i`: minus when `p` holds.
    pub fn set_phase(&mut self, i: usize, p: bool)
        requires
            old(self).wf(),
            i < old(self).dim(),
        ensures
            final(self).wf(),
            final(self).packed(),
            final(self).dim() == old(self).dim(),
            final(self)@ == old(self)@.with_sign(i as int, p),
    {
        let word: usize = i / 64;
        let shift: usize = i % 64;
        let before: u64 = self.phase[word];
        let v: u64 = if p { 1 } else { 0 };
        let after: u64 = (before & !(1u64 << shift)) | (v << shift);
        self.phase[word] = after;
        proof {
            let n = self.nr_bits as int;
            lemma_bit_stored(before, shift as u64, v);
            assert forall|a: int| 0 <= a < n && a != i implies self.sign_at(a) == old(
                self,
            ).sign_at(a) by {
                if a / 64 == word {
                    lemma_bit_kept(before, shift as u64, v, (a % 64) as u64);
                }
            }
            assert forall|a: int, b: int| 0 <= a < n && 0 <= b < n implies self.op_at(a, b)
                == old(self).op_at(a, b) by {}
            assert(self@.rows =~~= old(self)@.rows);
            assert(self@.signs =~~= old(self)@.signs.update(i as int, p));
            assert forall|pos: int| n <= pos < 64 * self.phase@.len() implies !#[trigger] bit_at(
                self.phase@,
                pos,
            ) by {
                assert(!bit_at(old(self).phase@, pos));
                if pos / 64 == word {
                    lemma_bit_kept(before, shift as u64, v, (pos % 64) as u64);
                }
            }
            self.lemma_packed();
        }
    }

    /// Flip the sign of generator `i` when `p` holds.
    pub fn xor_phase(&mut self, i: usize, p: bool)
        requires
            old(self).wf(),
            i < old(self).dim(),
        ensures
            final(self).wf(),
            final(self).packed(),
            final(self).dim() == old(self).dim(),
            final(self)@ == old(self)@.with_sign(i as int, old(self)@.signs[i as int] != p),
    {
        if p {
            let word: usize = i / 64;
            let shift: usize = i % 64;
            let before: u64 = self.phase[word];
            self.phase[word] = before ^ (1u64 << shift);
            proof {
                let n = self.nr_bits as int;
                lemma_bit_stored(before, shift as u64, 0);
                assert forall|a: int| 0 <= a < n && a != i implies self.sign_at(a) == old(
                    self,
                ).sign_at(a) by {
                    if a / 64 == word {
                        lemma_bit_kept(before, shift as u64, 0, (a % 64) as u64);
                    }
                }
                assert forall|a: int, b: int| 0 <= a < n && 0 <= b < n implies self.op_at(a, b)
                    == old(self).op_at(a, b) by {}
                assert(self@.rows =~~= old(self)@.rows);
                assert(self@.signs =~~= old(self)@.signs.update(
                    i as int,
                    old(self)@.signs[i as int] != p,
                ));
                assert forall|pos: int| n <= pos < 64 * self.phase@.len() implies !#[trigger] bit_at(
                    self.phase@,
                    pos,
                ) by {
                    assert(!bit_at(old(self).phase@, pos));
                    if pos / 64 == word {
                        lemma_bit_kept(before, shift as u64, 0, (pos % 64) as u64);
                    }
                }
                self.lemma_packed();
            }
        } else {
            assert(self@.signs =~~= old(self)@.signs.update(
                i as int,
                old(self)@.signs[i as int] != p,
            ));
            proof {
                self.lemma_packed();
            }
        }
    }

    /// Whether generators `i0` and `i1` commute.
    pub fn rows_commute(&self, i0: usize, i1: usize) -> (ok: bool)
        requires
            self.wf(),
            i0 < self.dim(),
            i1 < self.dim(),
        ensures
            ok == strings_commute(self@.rows[i0 as int], self@.rows[i1 as int]),
    {
        let n: usize = self.nr_bits;
        proof {
            self.lemma_view();
        }
        let mut odd: bool = false;
        let mut j: usize = 0;
        while j < n
            invariant
                j <= n,
                self.wf(),
                self.nr_bits == n,
                i0 < n,
                i1 < n,
                self@.square(n as nat),
                odd == anticommute_parity(
                    self@.rows[i0 as int].take(j as int),
                    self@.rows[i1 as int].take(j as int),
                ),
            decreases n - j,
        {
            let a: PauliOp = self.get(i0, j);
            let b: PauliOp = self.get(i1, j);
            let anti: bool = a != PauliOp::I && b != PauliOp::I && a != b;
            odd = odd != anti;
            proof {
                let p = self@.rows[i0 as int].take(j + 1);
                let q = self@.rows[i1 as int].take(j + 1);
                assert(p.drop_last() =~= self@.rows[i0 as int].take(j as int));
                assert(q.drop_last() =~= self@.rows[i1 as int].take(j as int));
            }
            j += 1;
        }
        proof {
            assert(self@.rows[i0 as int].take(n as int) =~= self@.rows[i0 as int]);
            assert(self@.rows[i1 as int].take(n as int) =~= self@.rows[i1 as int]);
        }
        !odd
    }

    /// Whether every two generators commute.
    pub fn is_commuting(&self) -> (ok: bool)
        requires
            self.wf(),
        ensures
            ok == self@.commuting(),
    {
        let n: usize = self.nr_bits;
        proof {
            self.lemma_view();
        }
        let mut a: usize = 0;
        while a < n
            invariant
                a <= n,
                self.wf(),
                self.nr_bits == n,
                self@.square(n as nat),
                forall|c: int, d: int|
                    0 <= c < a && 0 <= d < n ==> strings_commute(
                        #[trigger] self@.rows[c],
                        #[trigger] self@.rows[d],
                    ),
            decreases n - a,
        {
            let mut b: usize = 0;
            while b < n
                invariant
                    b <= n,
                    a < n,
                    self.wf(),
                    self.nr_bits == n,
                    self@.square(n as nat),
                    forall|d: int|
                        0 <= d < b ==> strings_commute(self@.rows[a as int], #[trigger] self@.rows[d]),
                decreases n - b,
            {
                if !self.rows_commute(a, b) {
                    return false;
                }
                b += 1;
            }
            a += 1;
        }
        true
    }

    /// Exchange generators `i0` and `i1`, signs included.
    pub fn swap_rows(&mut self, i0: usize, i1: usize)
        requires
            old(self).wf(),
            i0 < old(self).dim(),
            i1 < old(self).dim(),
        ensures
            final(self).wf(),
            final(self).dim() == old(self).dim(),
            final(self)@ == old(self)@.swapped(i0 as int, i1 as int),
            independent(old(self)@) ==> independent(final(self)@),
    {
        let n: usize = self.nr_bits;
        let ghost t0 = self@;
        proof {
            self.lemma_view();
            if independent(t0) {
                lemma_swapped_independent(t0, n as nat, i0 as int, i1 as int);
            }
        }
        let mut j: usize = 0;
        while j < n
            invariant
                j <= n,
                self.wf(),
                self.nr_bits == n,
                i0 < n,
                i1 < n,
                t0.square(n as nat),
                self@.square(n as nat),
                self@.signs == t0.signs,
                forall|a: int| 0 <= a < n && a != i0 && a != i1 ==> self@.rows[a] == t0.rows[a],
                forall|c: int|
                    0 <= c < n ==> #[trigger] self@.rows[i0 as int][c] == (if c < j {
                        t0.rows[i1 as int][c]
                    } else {
                        t0.rows[i0 as int][c]
                    }),
                forall|c: int|
                    0 <= c < n ==> #[trigger] self@.rows[i1 as int][c] == (if c < j {
                        t0.rows[i0 as int][c]
                    } else {
                        t0.rows[i1 as int][c]
                    }),
            decreases n - j,
        {
            let b: u64 = self.get_bits(i0, j);
            let c: u64 = self.get_bits(i1, j);
            self.set_bits(i0, j, c);
            self.set_bits(i1, j, b);
            proof {
                self.lemma_view();
            }
            j += 1;
        }
        let p: bool = self.get_phase(i0);
        let q: bool = self.get_phase(i1);
        self.set_phase(i0, q);
        self.set_phase(i1, p);
        proof {
            self.lemma_view();
            let want = t0.swapped(i0 as int, i1 as int);
            assert forall|a: int| 0 <= a < n implies self@.rows[a] =~= want.rows[a] by {}
            assert(self@.rows =~= want.rows);
            assert(self@.signs =~= want.signs);
        }
    }

    /// Multiply generator `i0` by generator `i1`.
    ///
    /// The two generators must commute: the product of their operators then
    /// carries a real phase, which goes into the sign of `i0` together with the
    /// sign of `i1`.
    pub fn multiply_row(&mut self, i0: usize, i1: usize)
        requires
            old(self).wf(),
            i0 < old(self).dim(),
            i1 < old(self).dim(),
            strings_commute(old(self)@.rows[i0 as int], old(self)@.rows[i1 as int]),
        ensures
            final(self).wf(),
            final(self).dim() == old(self).dim(),
            final(self)@ == old(self)@.multiplied(i0 as int, i1 as int),
            i0 != i1 && independent(old(self)@) ==> independent(final(self)@),
    {
        let n: usize = self.nr_bits;
        let ghost t0 = self@;
        proof {
            self.lemma_view();
            if i0 != i1 && independent(t0) {
                lemma_multiplied_independent(t0, n as nat, i0 as int, i1 as int);
            }
        }
        let sign1: bool = self.get_phase(i1);
        let mut i_pow: u8 = 0;
        let mut j: usize = 0;
        while j < n
            invariant
                j <= n,
                self.wf(),
                self.nr_bits == n,
                i0 < n,
                i1 < n,
                t0.square(n as nat),
                self@.square(n as nat),
                self@.signs == t0.signs,
                forall|a: int| 0 <= a < n && a != i0 ==> self@.rows[a] == t0.rows[a],
                forall|c: int|
                    0 <= c < n ==> #[trigger] self@.rows[i0 as int][c] == (if c < j {
                        t0.rows[i0 as int][c].times(t0.rows[i1 as int][c])
                    } else {
                        t0.rows[i0 as int][c]
                    }),
                i_pow == string_phase_power(
                    t0.rows[i0 as int].take(j as int),
                    t0.rows[i1 as int].take(j as int),
                ),
                i_pow < 4,
            decreases n - j,
        {
            let xz0: u64 = self.get_bits(i0, j);
            let xz1: u64 = self.get_bits(i1, j);
            let ghost left = t0.rows[i0 as int][j as int];
            let ghost right = t0.rows[i1 as int][j as int];
            assert(xz0 == left.code());
            assert(xz1 == right.code());
            proof {
                lemma_xor_codes(xz0, xz1);
                assert((xz0 ^ xz1) % 4 == (xz0 ^ xz1));
                assert(PauliOp::decode(xz0 ^ xz1) == left.times(right));
            }
            self.set_bits(i0, j, xz0 ^ xz1);
            let f: u8 = phase_factor(PauliOp::from_bits(xz0), PauliOp::from_bits(xz1));
            i_pow = (i_pow + f) % 4;
            proof {
                self.lemma_view();
                let a = t0.rows[i0 as int].take(j + 1);
                let b = t0.rows[i1 as int].take(j + 1);
                assert(a.drop_last() =~= t0.rows[i0 as int].take(j as int));
                assert(b.drop_last() =~= t0.rows[i1 as int].take(j as int));
            }
            j += 1;
        }
        proof {
            assert(t0.rows[i0 as int].take(n as int) =~= t0.rows[i0 as int]);
            assert(t0.rows[i1 as int].take(n as int) =~= t0.rows[i1 as int]);
            lemma_phase_parity(t0.rows[i0 as int], t0.rows[i1 as int]);
        }
        assert(i_pow == 0 || i_pow == 2);
        self.xor_phase(i0, (i_pow == 2) != sign1);
        proof {
            self.lemma_view();
            let want = t0.multiplied(i0 as int, i1 as int);
            assert forall|a: int| 0 <= a < n implies self@.rows[a] =~= want.rows[a] by {}
            assert(self@.rows =~= want.rows);
            assert(self@.signs =~= want.signs);
        }
    }

    /// Whether generator `i` has an X component (`x_part`) or a Z component on qubit `j`.
    fn has_part(&self, x_part: bool, i: usize, j: usize) -> (b: bool)
        requires
            self.wf(),
            i < self.dim(),
            j < self.dim(),
        ensures
            b == self@.has(x_part, i as int, j as int),
    {
        if x_part {
            self.get_x(i, j)
        } else {
            self.get_z(i, j)
        }
    }

    /// Row reduction on one component, with `start` pivot generators already in place.
    /// Returns the number of pivot generators afterwards.
    fn reduce(&mut self, x_part: bool, start: usize) -> (count: usize)
        requires
            old(self).wf(),
            old(self)@.commuting(),
            start <= old(self).dim(),
        ensures
            final(self).wf(),
            final(self).dim() == old(self).dim(),
            final(self)@.commuting(),
            (final(self)@, count as int) == old(self)@.reduced_from(
                old(self).dim(),
                x_part,
                0,
                start as int,
            ),
            start <= count <= old(self).dim(),
    {
        let n: usize = self.nr_bits;
        let ghost t0 = self@;
        proof {
            self.lemma_view();
        }
        let mut i: usize = start;
        let mut j: usize = 0;
        while j < n
            invariant
                j <= n,
                start <= i <= n,
                self.wf(),
                self.nr_bits == n,
                self@.square(n as nat),
                self@.commuting(),
                t0.reduced_from(n as nat, x_part, 0, start as int) == self@.reduced_from(
                    n as nat,
                    x_part,
                    j as int,
                    i as int,
                ),
            decreases n - j,
        {
            let ghost t1 = self@;
            let mut k: usize = i;
            while k < n && !self.has_part(x_part, k, j)
                invariant
                    i <= k <= n,
                    j < n,
                    self.wf(),
                    self.nr_bits == n,
                    self@ == t1,
                    t1.pivot_from(n as nat, x_part, j as int, i as int) == t1.pivot_from(
                        n as nat,
                        x_part,
                        j as int,
                        k as int,
                    ),
                decreases n - k,
            {
                k += 1;
            }
            assert(t1.pivot_from(n as nat, x_part, j as int, i as int) == k);
            if k < n {
                self.swap_rows(i, k);
                proof {
                    t1.lemma_swapped_commuting(n as nat, i as int, k as int);
                }
                let ghost t2 = self@;
                let mut m: usize = 0;
                while m < n
                    invariant
                        m <= n,
                        i < n,
                        j < n,
                        self.wf(),
                        self.nr_bits == n,
                        self@.square(n as nat),
                        self@.commuting(),
                        t2.cleared_from(n as nat, x_part, i as int, j as int, 0)
                            == self@.cleared_from(
                            n as nat,
                            x_part,
                            i as int,
                            j as int,
                            m as int,
                        ),
                    decreases n - m,
                {
                    if m != i && self.has_part(x_part, m, j) {
                        proof {
                            self@.lemma_multiplied_commuting(n as nat, m as int, i as int);
                        }
                        self.multiply_row(m, i);
                    }
                    m += 1;
                }
                i += 1;
            }
            j += 1;
        }
        i
    }

    /// Bring the tableau into its canonical form by row reduction: first on the X
    /// components, qubit by qubit, then on the Z components with the generators
    /// that are left.
    pub fn normalize(&mut self)
        requires
            old(self).wf(),
            old(self)@.commuting(),
        ensures
            final(self).wf(),
            final(self).dim() == old(self).dim(),
            final(self)@.commuting(),
            final(self)@ == old(self)@.normalized(),
            canonical(final(self)@, final(self).dim()),
            independent(old(self)@) ==> independent(final(self)@),
    {
        proof {
            self.lemma_view();
            lemma_normalized_canonical(self@, self.dim());
            if independent(self@) {
                lemma_normalized_independent(self@, self.dim());
            }
        }
        let i: usize = self.reduce(true, 0);
        let _ = self.reduce(false, i);
    }

    /// The tableau as text: one line per generator, the sign and then one letter in
    /// `I`, `Z`, `X`, `Y` per qubit.
    pub fn to_string(&self) -> (s: String)
        requires
            self.wf(),
        ensures
            s@ == self@.text(),
    {
        let n: usize = self.nr_bits;
        proof {
            self.lemma_view();
            reveal_strlit("\n");
            reveal_strlit("+");
            reveal_strlit("-");
        }
        let mut s = String::new();
        let mut i: usize = 0;
        while i < n
            invariant
                i <= n,
                self.wf(),
                self.nr_bits == n,
                self@.square(n as nat),
                s@ == self@.lines(i as int),
            decreases n - i,
        {
            let ghost done = s@;
            if i > 0 {
                s.append("\n");
            }
            if self.get_phase(i) {
                s.append("-");
            } else {
                s.append("+");
            }
            let ghost start = s@;
            let ghost sign = seq![if self@.signs[i as int] { '-' } else { '+' }];
            assert(start =~= (if i > 0 { done + seq!['\n'] } else { done }) + sign) by {
                reveal_strlit("\n");
                reveal_strlit("+");
                reveal_strlit("-");
            }
            let mut j: usize = 0;
            while j < n
                invariant
                    j <= n,
                    i < n,
                    self.wf(),
                    self.nr_bits == n,
                    self@.square(n as nat),
                    s@ == start + Seq::new(j as nat, |c: int| self@.rows[i as int][c].letter()),
                decreases n - j,
            {
                let op: PauliOp = self.get(i, j);
                let text: String = op.to_string();
                s.append(text.as_str());
                assert(s@ =~= start + Seq::new(
                    (j + 1) as nat,
                    |c: int| self@.rows[i as int][c].letter(),
                ));
                j += 1;
            }
            assert(s@ =~= self@.lines(i + 1)) by {
                assert(s@ =~= (if i > 0 { done + seq!['\n'] } else { done }) + self@.line(
                    i as int,
                ));
            }
            i += 1;
        }
        s
    }

    /// Apply `gate` on the qubits `bits` of this state.
    ///
    /// Every generator is conjugated with it in turn; the tableau is then
    /// brought into its canonical form. Where `gate` has no image for a generator,
    /// its error is returned and the generators from that one on stay as they were.
    pub fn apply_gate<G: Gate>(&mut self, gate: &G, bits: &[usize]) -> (r: Result<(), Error>)
        requires
            old(self).wf(),
            old(self)@.commuting(),
            distinct_bits(bits@, old(self).dim()),
        ensures
            final(self).wf(),
            final(self).dim() == old(self).dim(),
            ({
                let n = old(self).dim() as int;
                let first = old(self)@.first_failure(gate, bits@, 0);
                if first >= n {
                    &&& r is Ok
                    &&& final(self)@ == old(self)@.conjugated_upto(gate, bits@, n).normalized()
                    &&& final(self)@.commuting()
                    &&& canonical(final(self)@, final(self).dim())
                    &&& independent(old(self)@) ==> independent(final(self)@)
                } else {
                    &&& final(self)@ == old(self)@.conjugated_upto(gate, bits@, first)
                    &&& if bits@.len() != gate.arity() {
                        r == Err::<(), Error>(Error::InvalidBitCount)
                    } else {
                        r matches Err(Error::NotAStabilizer(d)) && d@ == gate.culprit(
                            extract(old(self)@.rows[first], bits@),
                        )
                    }
                }
            }),
    {
        let n: usize = self.nr_bits;
        let ghost t0 = self@;
        proof {
            self.lemma_view();
        }
        let mut ops: Vec<PauliOp> = Vec::new();
        let mut i: usize = 0;
        proof {
            let want = t0.conjugated_upto(gate, bits@, 0);
            assert(self@.rows =~= want.rows);
            assert(self@.signs =~= want.signs);
        }
        while i < n
            invariant
                i <= n,
                self.wf(),
                self.nr_bits == n,
                old(self).dim() == n,
                old(self)@ == t0,
                t0.square(n as nat),
                distinct_bits(bits@, n as nat),
                self@ == t0.conjugated_upto(gate, bits@, i as int),
                t0.first_failure(gate, bits@, 0) == t0.first_failure(gate, bits@, i as int),
            decreases n - i,
        {
            let ghost row = t0.rows[i as int];
            proof {
                self.lemma_view();
                assert(self@.rows[i as int] == row);
            }
            ops.clear();
            let mut k: usize = 0;
            while k < bits.len()
                invariant
                    k <= bits.len(),
                    i < n,
                    self.wf(),
                    self.nr_bits == n,
                    distinct_bits(bits@, n as nat),
                    self@.rows[i as int] == row,
                    self@.square(n as nat),
                    ops@ == extract(row, bits@).take(k as int),
                decreases bits.len() - k,
            {
                let op: PauliOp = self.get(i, bits[k]);
                ops.push(op);
                assert(ops@ =~= extract(row, bits@).take(k + 1));
                k += 1;
            }
            assert(ops@ =~= extract(row, bits@));
            let flip: bool = match gate.conjugate(ops.as_mut_slice()) {
                Ok(flip) => flip,
                Err(e) => {
                    return Err(e);
                },
            };
            let ghost image = gate.conjugation(extract(row, bits@)).unwrap().0;
            proof {
                gate.lemma_conjugation_keeps_commutation(
                    extract(row, bits@),
                    extract(row, bits@),
                );
            }
            let ghost t1 = self@;
            let mut k: usize = 0;
            while k < bits.len()
                invariant
                    k <= bits.len(),
                    i < n,
                    self.wf(),
                    self.nr_bits == n,
                    distinct_bits(bits@, n as nat),
                    ops@ == image,
                    image.len() == bits.len(),
                    t1.square(n as nat),
                    self@.square(n as nat),
                    self@.signs == t1.signs,
                    forall|a: int| 0 <= a < n && a != i ==> self@.rows[a] == t1.rows[a],
                    self@.rows[i as int] == scattered(
                        row,
                        bits@.take(k as int),
                        image.take(k as int),
                    ),
                    t1.rows[i as int] == row,
                decreases bits.len() - k,
            {
                self.set(i, bits[k], ops[k]);
                proof {
                    self.lemma_view();
                    assert(bits@.take(k + 1).drop_last() =~= bits@.take(k as int));
                    assert(image.take(k + 1).drop_last() =~= image.take(k as int));
                }
                k += 1;
            }
            self.xor_phase(i, flip);
            proof {
                self.lemma_view();
                assert(bits@.take(bits.len() as int) =~= bits@);
                assert(image.take(bits.len() as int) =~= image);
                let want = t0.conjugated_upto(gate, bits@, i + 1);
                assert(!t0.row_fails(gate, bits@, i as int));
                assert forall|a: int| 0 <= a < n implies self@.rows[a] == want.rows[a] by {
                    if a == i {
                        assert(want.rows[a] == t0.conjugated_row(gate, bits@, a));
                    } else {
                        assert(self@.rows[a] == t1.rows[a]);
                    }
                }
                assert forall|a: int| 0 <= a < n implies self@.signs[a] == want.signs[a] by {
                    if a != i {
                        assert(self@.signs[a] == t1.signs[a]);
                    }
                }
                assert(self@.rows =~= want.rows);
                assert(self@.signs =~= want.signs);
            }
            i += 1;
        }
        proof {
            t0.lemma_conjugated_commuting(n as nat, gate, bits@);
            if independent(t0) {
                lemma_conjugated_independent(t0, n as nat, gate, bits@);
            }
        }
        self.normalize();
        Ok(())
    }
}

/// The power of `i` that the product `a * b` of two Pauli operators carries.
pub fn phase_factor(a: PauliOp, b: PauliOp) -> (k: u8)
    ensures
        k == a.phase_power(b),
{
    match (a, b) {
        (PauliOp::Z, PauliOp::X) => 1,
        (PauliOp::Z, PauliOp::Y) => 3,
        (PauliOp::X, PauliOp::Z) => 3,
        (PauliOp::X, PauliOp::Y) => 1,
        (PauliOp::Y, PauliOp::Z) => 1,
        (PauliOp::Y, PauliOp::X) => 3,
        _ => 0,
    }
}

} // verus!
