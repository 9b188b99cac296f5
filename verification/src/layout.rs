//! The layout of a dense state: which amplitude stands where in a column.
//!
//! A column holds the `2^nr_bits` amplitudes of one shot, one per basis state. The
//! row number of a basis state has one bit per qubit, qubit 0 being the most
//! significant. The functions here move amplitudes and never compute with them:
//! they work for any type of amplitude.

use vstd::prelude::*;
use crate::bit_order::lemma_qubit_value;
use crate::bit_order::qubit_value;

verus! {

/// Whether qubit `qbit` is 1 in the basis state of row `row`, in a system of
/// `nr_bits` qubits.
pub open spec fn qubit_set(row: usize, nr_bits: usize, qbit: usize) -> bool {
    qubit_value(row as nat, nr_bits as nat, qbit as nat) == 1
}

/// Whether qubit `qbit` is 1 in the basis state of row `row`.
pub fn is_qubit_set(row: usize, nr_bits: usize, qbit: usize) -> (set: bool)
    requires
        qbit < nr_bits <= usize::BITS,
    ensures
        set == qubit_set(row, nr_bits, qbit),
{
    proof {
        lemma_qubit_value(row, nr_bits, qbit);
    }
    (row >> (nr_bits - qbit - 1)) & 1 == 1
}

/// The column of the state |00...0> on `nr_bits` qubits: the amplitude `one` in
/// the first row and `zero` in all others.
pub fn basis_column<A: Copy>(nr_bits: usize, zero: A, one: A) -> (column: Vec<A>)
    requires
        nr_bits < usize::BITS,
    ensures
        column@.len() == 1usize << nr_bits,
        column@.len() >= 1,
        column@[0] == one,
        forall|row: int| 1 <= row < column@.len() ==> column@[row] == zero,
{
    let size: usize = 1usize << nr_bits;
    assert(size >= 1) by (bit_vector)
        requires
            size == 1usize << nr_bits,
            nr_bits < usize::BITS,
    ;
    let mut column: Vec<A> = Vec::new();
    column.push(one);
    let mut row: usize = 1;
    while row < size
        invariant
            1 <= row <= size,
            column@.len() == row,
            column@[0] == one,
            forall|r: int| 1 <= r < row ==> column@[r] == zero,
        decreases size - row,
    {
        column.push(zero);
        row += 1;
    }
    column
}

/// Keep the part of a column in which qubit `qbit` has the value `outcome`, and
/// put `zero` in the rows of the other part.
pub fn project<A: Copy>(column: &mut [A], nr_bits: usize, qbit: usize, outcome: bool, zero: A)
    requires
        qbit < nr_bits <= usize::BITS,
    ensures
        final(column)@.len() == old(column)@.len(),
        forall|row: int|
            0 <= row < old(column)@.len() ==> #[trigger] final(column)@[row] == (if qubit_set(
                row as usize,
                nr_bits,
                qbit,
            ) == outcome {
                old(column)@[row]
            } else {
                zero
            }),
{
    let n: usize = column.len();
    let ghost before = column@;
    let mut row: usize = 0;
    while row < n
        invariant
            row <= n,
            n == before.len(),
            column@.len() == n,
            qbit < nr_bits <= usize::BITS,
            forall|r: int|
                0 <= r < row ==> #[trigger] column@[r] == (if qubit_set(r as usize, nr_bits, qbit)
                    == outcome {
                    before[r]
                } else {
                    zero
                }),
            forall|r: int| row <= r < n ==> #[trigger] column@[r] == before[r],
        decreases n - row,
    {
        if is_qubit_set(row, nr_bits, qbit) != outcome {
            column[row] = zero;
        }
        row += 1;
    }
}

/// Exchange the blocks `a` and `b` of a column that is cut into `blocks` blocks of
/// equal length.
pub fn swap_blocks<A: Copy>(column: &mut [A], blocks: usize, a: usize, b: usize)
    requires
        blocks > 0,
        a < blocks,
        b < blocks,
        old(column)@.len() as int % (blocks as int) == 0,
    ensures
        final(column)@.len() == old(column)@.len(),
        forall|row: int|
            0 <= row < old(column)@.len() ==> #[trigger] final(column)@[row] == ({
                let len = old(column)@.len() as int / (blocks as int);
                if row / len == a {
                    old(column)@[row - a * len + b * len]
                } else if row / len == b {
                    old(column)@[row - b * len + a * len]
                } else {
                    old(column)@[row]
                }
            }),
{
    let n: usize = column.len();
    let len: usize = n / blocks;
    let ghost before = column@;
    proof {
        lemma_blocks(n as int, blocks as int, a as int);
        lemma_blocks(n as int, blocks as int, b as int);
    }
    if a == b || len == 0 {
        return ;
    }
    let from: usize = a * len;
    let to: usize = b * len;
    assert(from + len <= to || to + len <= from) by (nonlinear_arith)
        requires
            a != b,
            from == a * len,
            to == b * len,
    ;
    let mut i: usize = 0;
    while i < len
        invariant
            i <= len,
            len > 0,
            a != b,
            n == before.len(),
            column@.len() == n,
            from == a * len,
            to == b * len,
            from + len <= n,
            to + len <= n,
            from + len <= to || to + len <= from,
            forall|r: int|
                0 <= r < n ==> #[trigger] column@[r] == (if from <= r < from + i {
                    before[r - from + to]
                } else if to <= r < to + i {
                    before[r - to + from]
                } else {
                    before[r]
                }),
        decreases len - i,
    {
        let low: A = column[from + i];
        let high: A = column[to + i];
        column[from + i] = high;
        column[to + i] = low;
        i += 1;
    }
    proof {
        assert forall|row: int| 0 <= row < n implies #[trigger] column@[row] == (if row / (
        len as int) == a {
            before[row - a * len + b * len]
        } else if row / (len as int) == b {
            before[row - b * len + a * len]
        } else {
            before[row]
        }) by {
            lemma_block_of(row, len as int, a as int);
            lemma_block_of(row, len as int, b as int);
        }
    }
}

/// Block `a` of `blocks` equal blocks lies inside the column.
proof fn lemma_blocks(n: int, blocks: int, a: int)
    by (nonlinear_arith)
    requires
        blocks > 0,
        0 <= a < blocks,
        n >= 0,
        n % blocks == 0,
    ensures
        a * (n / blocks) + (n / blocks) <= n,
        a * (n / blocks) >= 0,
        n / blocks >= 0,
{
}

/// A row lies in block `a` exactly when it lies between the ends of that block.
proof fn lemma_block_of(row: int, len: int, a: int)
    by (nonlinear_arith)
    requires
        row >= 0,
        len > 0,
        a >= 0,
    ensures
        (row / len == a) == (a * len <= row < a * len + len),
{
}

} // verus!
