//! Where a row of the state goes when the affected qubits are brought to the front:
//! the bits of the affected qubits first, then the bits of the other qubits in
//! ascending order.

use vstd::arithmetic::div_mod::lemma_div_denominator;
use vstd::arithmetic::div_mod::lemma_div_is_ordered;
use vstd::arithmetic::div_mod::lemma_fundamental_div_mod;
use vstd::arithmetic::power2::lemma_pow2_pos;
use vstd::arithmetic::power2::lemma_pow2_unfold;
use vstd::arithmetic::power2::pow2;
use vstd::bits::lemma_usize_pow2_no_overflow;
use vstd::bits::lemma_usize_shl_is_mul;
use vstd::bits::lemma_usize_shr_is_div;
use vstd::prelude::*;
use crate::gates::sort_key;
use crate::gates::sorts_before;
use crate::permutation::is_permutation;
use crate::permutation::lemma_permutation_onto;
use crate::permutation::takes;
use crate::stabilizer::covers;
use crate::stabilizer::distinct_bits;

verus! {

/// The value of qubit `q` in the basis state of row `i`, in a system of `n` qubits.
/// Qubit 0 is the most significant bit of a row number.
pub open spec fn qubit_value(i: nat, n: nat, q: nat) -> nat {
    (i / pow2((n - 1 - q) as nat)) % 2
}

/// The bits of the qubits in `bits` in row `i`, the first most significant.
pub open spec fn affected_part(i: nat, n: nat, bits: Seq<usize>) -> nat
    decreases bits.len(),
{
    if bits.len() == 0 {
        0
    } else {
        2 * affected_part(i, n, bits.drop_last()) + qubit_value(i, n, bits.last() as nat)
    }
}

/// The bits in row `i` of the qubits below `q` that are not in `bits`, in ascending
/// order of the qubits, the first most significant.
pub open spec fn other_part(i: nat, n: nat, bits: Seq<usize>, q: nat) -> nat
    decreases q,
{
    if q == 0 {
        0
    } else if covers(bits, q - 1) {
        other_part(i, n, bits, (q - 1) as nat)
    } else {
        2 * other_part(i, n, bits, (q - 1) as nat) + qubit_value(i, n, (q - 1) as nat)
    }
}

/// The number of qubits below `q` that are not in `bits`.
pub open spec fn others_below(bits: Seq<usize>, q: nat) -> nat
    decreases q,
{
    if q == 0 {
        0
    } else {
        others_below(bits, (q - 1) as nat) + if covers(bits, q - 1) {
            0nat
        } else {
            1nat
        }
    }
}

/// The place of row `i` when the qubits in `bits` are brought to the front: the
/// number whose most significant bits are the bits of these qubits in row `i`, in
/// their order, followed by the bits of the other qubits in ascending order.
pub open spec fn place(i: nat, n: nat, bits: Seq<usize>) -> nat {
    affected_part(i, n, bits) * pow2(others_below(bits, n)) + other_part(i, n, bits, n)
}

/// The first `q` qubits of row `i` as a number.
pub open spec fn leading_part(i: nat, n: nat, q: nat) -> nat {
    i / pow2((n - q) as nat)
}

/// One more qubit doubles the leading part and adds the value of the qubit.
pub proof fn lemma_leading_part(i: nat, n: nat, q: nat)
    requires
        q < n,
    ensures
        leading_part(i, n, q + 1) == 2 * leading_part(i, n, q) + qubit_value(i, n, q),
        qubit_value(i, n, q) <= 1,
{
    let s = (n - 1 - q) as nat;
    lemma_pow2_pos(s);
    lemma_pow2_unfold(s + 1);
    let x = i as int / pow2(s) as int;
    lemma_div_denominator(i as int, pow2(s) as int, 2);
    assert(pow2(s) * 2 == pow2(s + 1));
    assert(x / 2 == i as int / pow2(s + 1) as int);
    lemma_fundamental_div_mod(x, 2);
    assert((n - q) as nat == s + 1);
    assert((n - (q + 1)) as nat == s);
}

/// The other part is below two to the number of the other qubits.
pub proof fn lemma_other_part_bound(i: nat, n: nat, bits: Seq<usize>, q: nat)
    requires
        q <= n,
    ensures
        other_part(i, n, bits, q) < pow2(others_below(bits, q)),
    decreases q,
{
    if q == 0 {
        lemma_pow2_pos(0);
    } else {
        lemma_other_part_bound(i, n, bits, (q - 1) as nat);
        if !covers(bits, q - 1) {
            lemma_leading_part(i, n, (q - 1) as nat);
            lemma_pow2_unfold(others_below(bits, q));
        }
    }
}

/// The affected part is below two to the number of the affected qubits.
pub proof fn lemma_affected_part_bound(i: nat, n: nat, bits: Seq<usize>)
    requires
        forall|k: int| 0 <= k < bits.len() ==> #[trigger] bits[k] < n,
    ensures
        affected_part(i, n, bits) < pow2(bits.len()),
    decreases bits.len(),
{
    if bits.len() == 0 {
        lemma_pow2_pos(0);
    } else {
        lemma_affected_part_bound(i, n, bits.drop_last());
        lemma_leading_part(i, n, bits.last() as nat);
        lemma_pow2_unfold(bits.len());
    }
}

/// Taking one more qubit into `bits` leaves one qubit less among the others below
/// `q`, where that qubit lies below `q`.
proof fn lemma_others_below_push(bits: Seq<usize>, b: usize, q: nat)
    requires
        !covers(bits, b as int),
    ensures
        others_below(bits.push(b), q) + (if b < q {
            1nat
        } else {
            0nat
        }) == others_below(bits, q),
    decreases q,
{
    if q > 0 {
        lemma_others_below_push(bits, b, (q - 1) as nat);
        let more = bits.push(b);
        if q - 1 == b {
            assert(more[bits.len() as int] == b);
            assert(covers(more, q - 1));
        } else {
            if covers(bits, q - 1) {
                let k = choose|k: int| 0 <= k < bits.len() && #[trigger] bits[k] == q - 1;
                assert(more[k] == q - 1);
            }
            if covers(more, q - 1) {
                let k = choose|k: int| 0 <= k < more.len() && #[trigger] more[k] == q - 1;
                assert(bits[k] == q - 1);
            }
        }
    }
}

/// Without affected qubits, all qubits are other qubits.
proof fn lemma_others_below_none(q: nat)
    ensures
        others_below(Seq::<usize>::empty(), q) == q,
    decreases q,
{
    if q > 0 {
        lemma_others_below_none((q - 1) as nat);
    }
}

/// Distinct affected qubits and the other qubits make up all qubits.
pub proof fn lemma_others_count(bits: Seq<usize>, n: nat)
    requires
        distinct_bits(bits, n),
    ensures
        others_below(bits, n) + bits.len() == n,
    decreases bits.len(),
{
    if bits.len() == 0 {
        assert(bits =~= Seq::<usize>::empty());
        lemma_others_below_none(n);
    } else {
        let less = bits.drop_last();
        let b = bits.last();
        lemma_others_count(less, n);
        assert(!covers(less, b as int)) by {
            if covers(less, b as int) {
                let k = choose|k: int| 0 <= k < less.len() && #[trigger] less[k] == b;
                assert(bits[k] == bits[bits.len() - 1]);
            }
        }
        assert(less.push(b) =~= bits);
        lemma_others_below_push(less, b, n);
    }
}

/// Rows with one affected part have the same value at every affected qubit.
pub proof fn lemma_affected_part_equal(i: nat, j: nat, n: nat, bits: Seq<usize>)
    requires
        forall|k: int| 0 <= k < bits.len() ==> #[trigger] bits[k] < n,
        affected_part(i, n, bits) == affected_part(j, n, bits),
    ensures
        forall|k: int|
            0 <= k < bits.len() ==> qubit_value(i, n, #[trigger] bits[k] as nat) == qubit_value(
                j,
                n,
                bits[k] as nat,
            ),
    decreases bits.len(),
{
    if bits.len() > 0 {
        let less = bits.drop_last();
        let b = bits.last() as nat;
        lemma_leading_part(i, n, b);
        lemma_leading_part(j, n, b);
        lemma_affected_part_equal(i, j, n, less);
        assert forall|k: int| 0 <= k < bits.len() implies qubit_value(
            i,
            n,
            #[trigger] bits[k] as nat,
        ) == qubit_value(j, n, bits[k] as nat) by {
            if k < bits.len() - 1 {
                assert(less[k] == bits[k]);
            }
        }
    }
}

/// Of two rows that agree at the affected qubits, the earlier has the smaller
/// other part: up to qubit `q`, the leading parts and the other parts are equal,
/// or both are smaller for the earlier row.
proof fn lemma_other_part_ordered(i: nat, j: nat, n: nat, bits: Seq<usize>, q: nat)
    requires
        i < j < pow2(n),
        q <= n,
        forall|k: int|
            0 <= k < bits.len() ==> qubit_value(i, n, #[trigger] bits[k] as nat) == qubit_value(
                j,
                n,
                bits[k] as nat,
            ),
    ensures
        leading_part(i, n, q) <= leading_part(j, n, q),
        leading_part(i, n, q) == leading_part(j, n, q) ==> other_part(i, n, bits, q) == other_part(
            j,
            n,
            bits,
            q,
        ),
        leading_part(i, n, q) < leading_part(j, n, q) ==> other_part(i, n, bits, q) < other_part(
            j,
            n,
            bits,
            q,
        ),
    decreases q,
{
    lemma_pow2_pos((n - q) as nat);
    lemma_div_is_ordered(i as int, j as int, pow2((n - q) as nat) as int);
    if q > 0 {
        let r = (q - 1) as nat;
        lemma_other_part_ordered(i, j, n, bits, r);
        lemma_leading_part(i, n, r);
        lemma_leading_part(j, n, r);
        if covers(bits, r as int) {
            let k = choose|k: int| 0 <= k < bits.len() && #[trigger] bits[k] == r;
            assert(qubit_value(i, n, bits[k] as nat) == qubit_value(j, n, bits[k] as nat));
        }
    } else {
        vstd::arithmetic::div_mod::lemma_basic_div(i as int, pow2(n) as int);
        vstd::arithmetic::div_mod::lemma_basic_div(j as int, pow2(n) as int);
    }
}

/// No bits of a row lie above its leading `n` qubits.
proof fn lemma_leading_all(i: nat, n: nat)
    ensures
        leading_part(i, n, n) == i,
{
    assert(pow2(0) == 1) by {
        vstd::arithmetic::power2::lemma2_to64();
    }
    assert(i as int / 1 == i);
}

/// The place of a row keeps the order of the rows by affected part and, among
/// rows with one affected part, by row number.
pub proof fn lemma_place_ordered(i: nat, j: nat, n: nat, bits: Seq<usize>)
    requires
        i < pow2(n),
        j < pow2(n),
        forall|k: int| 0 <= k < bits.len() ==> #[trigger] bits[k] < n,
        affected_part(i, n, bits) < affected_part(j, n, bits) || (affected_part(i, n, bits)
            == affected_part(j, n, bits) && i < j),
    ensures
        place(i, n, bits) < place(j, n, bits),
{
    let m = pow2(others_below(bits, n));
    lemma_other_part_bound(i, n, bits, n);
    lemma_other_part_bound(j, n, bits, n);
    let a = affected_part(i, n, bits);
    let b = affected_part(j, n, bits);
    if a < b {
        assert(a * m + m <= b * m) by (nonlinear_arith)
            requires
                a < b,
                m >= 0,
        ;
    } else {
        lemma_affected_part_equal(i, j, n, bits);
        lemma_other_part_ordered(i, j, n, bits, n);
        lemma_leading_all(i, n);
        lemma_leading_all(j, n);
    }
}

/// The place of a row lies among the rows.
pub proof fn lemma_place_bound(i: nat, n: nat, bits: Seq<usize>)
    requires
        distinct_bits(bits, n),
    ensures
        place(i, n, bits) < pow2(n),
{
    let m = pow2(others_below(bits, n));
    let a = affected_part(i, n, bits);
    lemma_other_part_bound(i, n, bits, n);
    lemma_affected_part_bound(i, n, bits);
    lemma_others_count(bits, n);
    vstd::arithmetic::power2::lemma_pow2_adds(bits.len(), others_below(bits, n));
    let top = pow2(bits.len());
    assert(a * m + m <= top * m) by (nonlinear_arith)
        requires
            a < top,
            m >= 0,
    ;
}

/// A strictly ascending list of `len` numbers below `len` holds each index at its
/// own position.
pub proof fn lemma_ascending_is_identity(g: Seq<nat>)
    requires
        forall|a: int| 0 <= a < g.len() ==> #[trigger] g[a] < g.len(),
        forall|a: int, b: int| 0 <= a < b < g.len() ==> g[a] < g[b],
    ensures
        forall|a: int| 0 <= a < g.len() ==> #[trigger] g[a] == a,
{
    let len = g.len() as int;
    assert forall|a: int| 0 <= a < len implies #[trigger] g[a] == a by {
        lemma_ascending_from_below(g, a);
        lemma_ascending_from_above(g, a);
    }
}

proof fn lemma_ascending_from_below(g: Seq<nat>, a: int)
    requires
        0 <= a < g.len(),
        forall|a: int, b: int| 0 <= a < b < g.len() ==> g[a] < g[b],
    ensures
        g[a] >= a,
    decreases a,
{
    if a > 0 {
        lemma_ascending_from_below(g, a - 1);
        assert(g[a - 1] < g[a]);
    }
}

proof fn lemma_ascending_from_above(g: Seq<nat>, a: int)
    requires
        0 <= a < g.len(),
        forall|a: int| 0 <= a < g.len() ==> #[trigger] g[a] < g.len(),
        forall|a: int, b: int| 0 <= a < b < g.len() ==> g[a] < g[b],
    ensures
        g[a] <= a,
    decreases g.len() - a,
{
    if a < g.len() - 1 {
        lemma_ascending_from_above(g, a + 1);
        assert(g[a] < g[a + 1]);
    }
}

proof fn lemma_low_bit(x: usize)
    by (bit_vector)
    ensures
        x & 1 == x % 2,
{
}

proof fn lemma_append_bit(y: usize, b: usize)
    by (bit_vector)
    requires
        y % 2 == 0,
        b <= 1,
    ensures
        (y | b) == y + b,
{
}

/// Shifting a row to the right and taking the lowest bit gives the value of a qubit.
pub proof fn lemma_qubit_value(row: usize, nr_bits: usize, qbit: usize)
    requires
        qbit < nr_bits <= usize::BITS,
    ensures
        (row >> ((nr_bits - qbit - 1) as usize)) & 1 == qubit_value(
            row as nat,
            nr_bits as nat,
            qbit as nat,
        ),
        qubit_value(row as nat, nr_bits as nat, qbit as nat) <= 1,
{
    let shift = (nr_bits - qbit - 1) as usize;
    lemma_usize_shr_is_div(row, shift);
    lemma_low_bit(row >> shift);
}

/// The sort key of a row is its affected part.
pub proof fn lemma_sort_key(idx: usize, nr_bits: usize, bits: Seq<usize>)
    requires
        nr_bits <= usize::BITS,
        bits.len() < usize::BITS,
        forall|k: int| 0 <= k < bits.len() ==> #[trigger] bits[k] < nr_bits,
    ensures
        sort_key(idx, nr_bits, bits) == affected_part(idx as nat, nr_bits as nat, bits),
    decreases bits.len(),
{
    if bits.len() > 0 {
        let less = bits.drop_last();
        let b = bits.last();
        lemma_sort_key(idx, nr_bits, less);
        lemma_affected_part_bound(idx as nat, nr_bits as nat, less);
        let a = sort_key(idx, nr_bits, less);
        let shift = (nr_bits - b - 1) as usize;
        lemma_usize_shr_is_div(idx, shift);
        lemma_low_bit(idx >> shift);
        let v = (idx >> shift) & 1;
        assert(v == qubit_value(idx as nat, nr_bits as nat, b as nat));
        assert(v <= 1);
        // Twice the key so far still fits.
        lemma_usize_pow2_no_overflow(bits.len());
        lemma_pow2_unfold(bits.len());
        vstd::arithmetic::power2::lemma2_to64();
        assert(a * pow2(1) <= usize::MAX);
        lemma_usize_shl_is_mul(a, 1);
        let y = a << 1;
        assert(y == 2 * a);
        lemma_append_bit(y, v);
    }
}

/// The rows of a system of `nr_bits` qubits are numbered below two to `nr_bits`.
pub proof fn lemma_row_count(nr_bits: usize)
    requires
        nr_bits < usize::BITS,
    ensures
        (1usize << nr_bits) == pow2(nr_bits as nat),
{
    lemma_usize_pow2_no_overflow(nr_bits as nat);
    assert(1 * pow2(nr_bits as nat) <= usize::MAX);
    lemma_usize_shl_is_mul(1, nr_bits);
}

/// The row that the permutation `p` sends to position `a`.
pub open spec fn row_at(p: Seq<usize>, a: int) -> int {
    choose|i: int| 0 <= i < p.len() && #[trigger] p[i] == a
}

/// A permutation that orders the rows by sort key, and rows with one key by their
/// numbers, sends every row to its place.
pub proof fn lemma_ordered_places(p: Seq<usize>, nr_bits: usize, bits: Seq<usize>)
    requires
        nr_bits < usize::BITS,
        distinct_bits(bits, nr_bits as nat),
        is_permutation(p),
        p.len() == pow2(nr_bits as nat),
        forall|i: int, j: int|
            0 <= i < p.len() && 0 <= j < p.len() ==> (#[trigger] p[i] < #[trigger] p[j]
                <==> sorts_before(i as usize, j as usize, nr_bits, bits)),
    ensures
        forall|i: int|
            0 <= i < p.len() ==> #[trigger] p[i] == place(i as nat, nr_bits as nat, bits),
{
    let n = nr_bits as nat;
    let len = p.len() as int;
    lemma_permutation_onto(p);
    lemma_others_count(bits, n);
    lemma_usize_pow2_no_overflow(n);
    let g = Seq::new(len as nat, |a: int| place(row_at(p, a) as nat, n, bits));
    assert forall|a: int| 0 <= a < len implies 0 <= #[trigger] row_at(p, a) < len && p[row_at(
        p,
        a,
    )] == a by {
        assert(takes(p, a));
    }
    assert forall|a: int| 0 <= a < g.len() implies #[trigger] g[a] < g.len() by {
        assert(0 <= row_at(p, a) < len);
        lemma_place_bound(row_at(p, a) as nat, n, bits);
    }
    assert forall|a: int, b: int| 0 <= a < b < g.len() implies g[a] < g[b] by {
        let i = row_at(p, a);
        let j = row_at(p, b);
        assert(0 <= i < len && p[i] == a);
        assert(0 <= j < len && p[j] == b);
        assert(p[i] < p[j]);
        assert(sorts_before(i as usize, j as usize, nr_bits, bits));
        lemma_sort_key(i as usize, nr_bits, bits);
        lemma_sort_key(j as usize, nr_bits, bits);
        lemma_place_ordered(i as nat, j as nat, n, bits);
    }
    lemma_ascending_is_identity(g);
    assert forall|i: int| 0 <= i < len implies #[trigger] p[i] == place(i as nat, n, bits) by {
        let a = p[i] as int;
        assert(g[a] == a);
        assert(0 <= row_at(p, a) < len && p[row_at(p, a)] == p[i]);
    }
}

/// The matrix of a gate with the entries `gate`, followed by the identity on `m`
/// more basis states: the entry in row `a` and column `b`.
pub open spec fn with_identity<A>(gate: spec_fn(int, int) -> A, m: int, zero: A, a: int, b: int) -> A {
    if a % m == b % m {
        gate(a / m, b / m)
    } else {
        zero
    }
}

/// The matrix of a gate with the entries `gate` on the qubits `bits` of a system of
/// `n` qubits, as the product of tensors gives it: the entry in row `i` and column
/// `j` is the entry of `gate` for the affected qubits of `i` and `j` where the
/// other qubits agree, and zero where they do not.
pub open spec fn on_qubits<A>(
    gate: spec_fn(int, int) -> A,
    n: nat,
    bits: Seq<usize>,
    zero: A,
    i: int,
    j: int,
) -> A {
    if other_part(i as nat, n, bits, n) == other_part(j as nat, n, bits, n) {
        gate(affected_part(i as nat, n, bits) as int, affected_part(j as nat, n, bits) as int)
    } else {
        zero
    }
}

/// Bringing the qubits in `bits` to the front carries the matrix of a gate on the
/// first qubits to the matrix of that gate on its qubits, in a system of however
/// many qubits: the entry of the first at the places of the rows `i` and `j` is the
/// entry of the second at `i` and `j`.
pub proof fn lemma_expanded_places<A>(
    gate: spec_fn(int, int) -> A,
    zero: A,
    n: nat,
    bits: Seq<usize>,
    i: nat,
    j: nat,
)
    requires
        distinct_bits(bits, n),
    ensures
        with_identity(
            gate,
            pow2((n - bits.len()) as nat) as int,
            zero,
            place(i, n, bits) as int,
            place(j, n, bits) as int,
        ) == on_qubits(gate, n, bits, zero, i as int, j as int),
{
    lemma_others_count(bits, n);
    let m = pow2(others_below(bits, n)) as int;
    lemma_pow2_pos(others_below(bits, n));
    lemma_other_part_bound(i, n, bits, n);
    lemma_other_part_bound(j, n, bits, n);
    let ai = affected_part(i, n, bits) as int;
    let aj = affected_part(j, n, bits) as int;
    let oi = other_part(i, n, bits, n) as int;
    let oj = other_part(j, n, bits, n) as int;
    let pi = place(i, n, bits) as int;
    let pj = place(j, n, bits) as int;
    assert(pi == ai * m + oi);
    assert(pj == aj * m + oj);
    vstd::arithmetic::div_mod::lemma_fundamental_div_mod_converse_mod(pi, m, ai, oi);
    vstd::arithmetic::div_mod::lemma_fundamental_div_mod_converse_div(pi, m, ai, oi);
    vstd::arithmetic::div_mod::lemma_fundamental_div_mod_converse_mod(pj, m, aj, oj);
    vstd::arithmetic::div_mod::lemma_fundamental_div_mod_converse_div(pj, m, aj, oj);
}

/// The same of a permutation that orders the rows by sort key, and rows with one
/// key by their numbers, as the bit permutation of a system that fits the machine
/// does: the entry of the matrix on the first qubits at `p[i]` and `p[j]` is the
/// entry of the matrix on the qubits `bits` at `i` and `j`.
pub proof fn lemma_expanded_matrix<A>(
    gate: spec_fn(int, int) -> A,
    zero: A,
    p: Seq<usize>,
    nr_bits: usize,
    bits: Seq<usize>,
    i: int,
    j: int,
)
    requires
        nr_bits < usize::BITS,
        distinct_bits(bits, nr_bits as nat),
        is_permutation(p),
        p.len() == pow2(nr_bits as nat),
        forall|i: int, j: int|
            0 <= i < p.len() && 0 <= j < p.len() ==> (#[trigger] p[i] < #[trigger] p[j]
                <==> sorts_before(i as usize, j as usize, nr_bits, bits)),
        0 <= i < p.len(),
        0 <= j < p.len(),
    ensures
        with_identity(
            gate,
            pow2((nr_bits - bits.len()) as nat) as int,
            zero,
            p[i] as int,
            p[j] as int,
        ) == on_qubits(gate, nr_bits as nat, bits, zero, i, j),
{
    lemma_ordered_places(p, nr_bits, bits);
    lemma_expanded_places(gate, zero, nr_bits as nat, bits, i as nat, j as nat);
}

} // verus!
