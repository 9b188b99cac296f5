//! Independent generators: no selection of them, but the empty one, multiplies to
//! the identity.

use vstd::prelude::*;
use crate::gates::Gate;
use crate::normal_form::reduced_upto;
use crate::stabilizer::all_identity;
use crate::stabilizer::covers;
use crate::stabilizer::distinct_bits;
use crate::stabilizer::extract;
use crate::stabilizer::lemma_scattered;
use crate::stabilizer::PauliOp;
use crate::stabilizer::string_times;
use crate::stabilizer::Tableau;

verus! {

/// Whether the operator has an X component (`x_part`) or a Z component.
pub open spec fn has_part(op: PauliOp, x_part: bool) -> bool {
    if x_part {
        op.has_x()
    } else {
        op.has_z()
    }
}

/// The share of string `m` in the product of the selected strings at position `j`:
/// whether it is selected and has the component there.
pub open spec fn share(rows: Seq<Seq<PauliOp>>, sel: Seq<bool>, x_part: bool, j: int, m: int) -> bool {
    sel[m] && has_part(rows[m][j], x_part)
}

/// Whether an odd number of the selected strings among the first `k` of `rows` have
/// the component at position `j`: whether their product has it there.
pub open spec fn selected_parity(
    rows: Seq<Seq<PauliOp>>,
    sel: Seq<bool>,
    x_part: bool,
    j: int,
    k: int,
) -> bool
    decreases k,
{
    if k <= 0 {
        false
    } else {
        selected_parity(rows, sel, x_part, j, k - 1) != share(rows, sel, x_part, j, k - 1)
    }
}

/// The product of the selected strings is the identity: it has no component at
/// any of the first `width` positions.
pub open spec fn multiplies_to_identity(rows: Seq<Seq<PauliOp>>, sel: Seq<bool>, width: nat) -> bool {
    forall|x_part: bool, j: int|
        0 <= j < width ==> !#[trigger] selected_parity(rows, sel, x_part, j, rows.len() as int)
}

/// Nothing is selected.
pub open spec fn none_selected(sel: Seq<bool>) -> bool {
    forall|k: int| 0 <= k < sel.len() ==> !#[trigger] sel[k]
}

/// The strings `rows`, of `width` operators each, are independent: no selection of
/// them, but the empty one, multiplies to the identity.
pub open spec fn independent_strings(rows: Seq<Seq<PauliOp>>, width: nat) -> bool {
    forall|sel: Seq<bool>|
        sel.len() == rows.len() && #[trigger] multiplies_to_identity(rows, sel, width)
            ==> none_selected(sel)
}

/// The generators of the tableau are independent.
pub open spec fn independent(t: Tableau) -> bool {
    independent_strings(t.rows, t.rows.len())
}

/// The parity is made of the shares of the first `k` strings and of nothing else.
pub proof fn lemma_parity_congruent(
    rows: Seq<Seq<PauliOp>>,
    sel: Seq<bool>,
    other_rows: Seq<Seq<PauliOp>>,
    other_sel: Seq<bool>,
    x_part: bool,
    j: int,
    other_j: int,
    k: int,
)
    requires
        forall|m: int|
            0 <= m < k ==> #[trigger] share(rows, sel, x_part, j, m) == share(
                other_rows,
                other_sel,
                x_part,
                other_j,
                m,
            ),
    ensures
        selected_parity(rows, sel, x_part, j, k) == selected_parity(
            other_rows,
            other_sel,
            x_part,
            other_j,
            k,
        ),
    decreases k,
{
    if k > 0 {
        lemma_parity_congruent(rows, sel, other_rows, other_sel, x_part, j, other_j, k - 1);
        assert(share(rows, sel, x_part, j, k - 1) == share(
            other_rows,
            other_sel,
            x_part,
            other_j,
            k - 1,
        ));
    }
}

/// Replacing string `m` and its selection takes the old share of `m` out of the
/// parity and puts the new one in.
pub proof fn lemma_parity_replace(
    rows: Seq<Seq<PauliOp>>,
    sel: Seq<bool>,
    x_part: bool,
    j: int,
    k: int,
    m: int,
    row: Seq<PauliOp>,
    chosen: bool,
)
    requires
        0 <= m < rows.len(),
        rows.len() == sel.len(),
        0 <= k <= rows.len(),
    ensures
        selected_parity(rows.update(m, row), sel.update(m, chosen), x_part, j, k) == (if m < k {
            (selected_parity(rows, sel, x_part, j, k) != share(rows, sel, x_part, j, m)) != (
            chosen && has_part(row[j], x_part))
        } else {
            selected_parity(rows, sel, x_part, j, k)
        }),
    decreases k,
{
    if k > 0 {
        lemma_parity_replace(rows, sel, x_part, j, k - 1, m, row, chosen);
    }
}

/// Where string `m` alone among the first `k` has a share, the parity is that
/// share.
pub proof fn lemma_parity_of_one(
    rows: Seq<Seq<PauliOp>>,
    sel: Seq<bool>,
    x_part: bool,
    j: int,
    k: int,
    m: int,
)
    requires
        0 <= m,
        forall|r: int| 0 <= r < k && r != m ==> !#[trigger] share(rows, sel, x_part, j, r),
    ensures
        selected_parity(rows, sel, x_part, j, k) == (m < k && share(rows, sel, x_part, j, m)),
    decreases k,
{
    if k > 0 {
        lemma_parity_of_one(rows, sel, x_part, j, k - 1, m);
        if k - 1 != m {
            assert(!share(rows, sel, x_part, j, k - 1));
        }
    }
}

/// The generators of the state |0...0> are independent.
pub proof fn lemma_initial_independent(n: nat)
    ensures
        independent(Tableau::initial(n)),
{
    let t = Tableau::initial(n);
    assert forall|sel: Seq<bool>|
        sel.len() == t.rows.len() && #[trigger] multiplies_to_identity(
            t.rows,
            sel,
            t.rows.len(),
        ) implies none_selected(sel) by {
        assert forall|k: int| 0 <= k < sel.len() implies !#[trigger] sel[k] by {
            assert forall|r: int| 0 <= r < n && r != k implies !#[trigger] share(
                t.rows,
                sel,
                false,
                k,
                r,
            ) by {
                assert(t.rows[r][k] == PauliOp::I);
            }
            lemma_parity_of_one(t.rows, sel, false, k, n as int, k);
            assert(!selected_parity(t.rows, sel, false, k, n as int));
            assert(t.rows[k][k] == PauliOp::Z);
        }
    }
}

/// Exchanging two generators keeps independent generators independent.
pub proof fn lemma_swapped_independent(t: Tableau, n: nat, a: int, b: int)
    requires
        t.square(n),
        independent(t),
        0 <= a < n,
        0 <= b < n,
    ensures
        independent(t.swapped(a, b)),
{
    let s = t.swapped(a, b);
    assert forall|sel: Seq<bool>|
        sel.len() == s.rows.len() && #[trigger] multiplies_to_identity(
            s.rows,
            sel,
            s.rows.len(),
        ) implies none_selected(sel) by {
        let back = sel.update(a, sel[b]).update(b, sel[a]);
        assert forall|x_part: bool, j: int| 0 <= j < n implies !#[trigger] selected_parity(
            t.rows,
            back,
            x_part,
            j,
            n as int,
        ) by {
            assert(!selected_parity(s.rows, sel, x_part, j, n as int));
            let rows1 = t.rows.update(a, t.rows[b]);
            let sel1 = back.update(a, back[b]);
            lemma_parity_replace(t.rows, back, x_part, j, n as int, a, t.rows[b], back[b]);
            lemma_parity_replace(rows1, sel1, x_part, j, n as int, b, t.rows[a], back[a]);
            assert(rows1.update(b, t.rows[a]) =~= s.rows);
            assert(sel1.update(b, back[a]) =~= sel);
        }
        assert(multiplies_to_identity(t.rows, back, n));
        assert(none_selected(back));
        assert forall|k: int| 0 <= k < sel.len() implies !#[trigger] sel[k] by {
            let k0 = if k == a {
                b
            } else if k == b {
                a
            } else {
                k
            };
            assert(!back[k0]);
        }
    }
}

/// Multiplying one generator by another keeps independent generators
/// independent.
pub proof fn lemma_multiplied_independent(t: Tableau, n: nat, m: int, i: int)
    requires
        t.square(n),
        independent(t),
        0 <= m < n,
        0 <= i < n,
        m != i,
    ensures
        independent(t.multiplied(m, i)),
{
    let s = t.multiplied(m, i);
    assert forall|sel: Seq<bool>|
        sel.len() == s.rows.len() && #[trigger] multiplies_to_identity(
            s.rows,
            sel,
            s.rows.len(),
        ) implies none_selected(sel) by {
        // A selection of the old generators with the same product: where `m` is
        // selected, the selection of `i` is turned over.
        let back = if sel[m] {
            sel.update(i, !sel[i])
        } else {
            sel
        };
        assert forall|x_part: bool, j: int| 0 <= j < n implies !#[trigger] selected_parity(
            t.rows,
            back,
            x_part,
            j,
            n as int,
        ) by {
            assert(!selected_parity(s.rows, sel, x_part, j, n as int));
            let prod = string_times(t.rows[m], t.rows[i]);
            assert(has_part(prod[j], x_part) == (has_part(t.rows[m][j], x_part) != has_part(
                t.rows[i][j],
                x_part,
            )));
            lemma_parity_replace(t.rows, sel, x_part, j, n as int, m, prod, sel[m]);
            assert(sel.update(m, sel[m]) =~= sel);
            if sel[m] {
                lemma_parity_replace(t.rows, sel, x_part, j, n as int, i, t.rows[i], !sel[i]);
                assert(t.rows.update(i, t.rows[i]) =~= t.rows);
            }
        }
        assert(multiplies_to_identity(t.rows, back, n));
        assert(none_selected(back));
        assert forall|k: int| 0 <= k < sel.len() implies !#[trigger] sel[k] by {
            assert(!back[m]);
            assert(!back[k]);
        }
    }
}

/// Clearing a column keeps independent generators independent.
pub proof fn lemma_cleared_independent(t: Tableau, n: nat, x_part: bool, i: int, j: int, m: int)
    requires
        t.square(n),
        independent(t),
        0 <= i < n,
        0 <= m <= n,
    ensures
        t.cleared_from(n, x_part, i, j, m).square(n),
        independent(t.cleared_from(n, x_part, i, j, m)),
    decreases n - m,
{
    if m < n {
        if m != i && t.has(x_part, m, j) {
            lemma_multiplied_independent(t, n, m, i);
            lemma_cleared_independent(t.multiplied(m, i), n, x_part, i, j, m + 1);
        } else {
            lemma_cleared_independent(t, n, x_part, i, j, m + 1);
        }
    }
}

/// Row reduction keeps independent generators independent.
pub proof fn lemma_reduced_independent(t: Tableau, n: nat, x_part: bool, j: int, i: int)
    requires
        t.square(n),
        independent(t),
        0 <= j,
        0 <= i <= n,
    ensures
        t.reduced_from(n, x_part, j, i).0.square(n),
        independent(t.reduced_from(n, x_part, j, i).0),
        i <= t.reduced_from(n, x_part, j, i).1 <= n,
    decreases n - j,
{
    if j < n {
        crate::normal_form::lemma_pivot_from(t, n, x_part, j, i);
        let k = t.pivot_from(n, x_part, j, i);
        if k < n {
            lemma_swapped_independent(t, n, i, k);
            lemma_cleared_independent(t.swapped(i, k), n, x_part, i, j, 0);
            lemma_reduced_independent(
                t.swapped(i, k).cleared_from(n, x_part, i, j, 0),
                n,
                x_part,
                j + 1,
                i + 1,
            );
        } else {
            lemma_reduced_independent(t, n, x_part, j + 1, i);
        }
    }
}

/// The canonical form of independent generators is independent.
pub proof fn lemma_normalized_independent(t: Tableau, n: nat)
    requires
        t.square(n),
        independent(t),
    ensures
        independent(t.normalized()),
{
    lemma_reduced_independent(t, n, true, 0, 0);
    let first = t.reduced_from(n, true, 0, 0);
    lemma_reduced_independent(first.0, n, false, 0, first.1);
}

/// The string of `width` identities.
pub open spec fn identity_string(width: nat) -> Seq<PauliOp> {
    Seq::new(width, |j: int| PauliOp::I)
}

/// The product of the selected strings among the first `k` of `rows`, phases
/// dropped.
pub open spec fn combination(rows: Seq<Seq<PauliOp>>, sel: Seq<bool>, width: nat, k: int) -> Seq<
    PauliOp,
>
    decreases k,
{
    if k <= 0 {
        identity_string(width)
    } else if sel[k - 1] {
        string_times(combination(rows, sel, width, k - 1), rows[k - 1])
    } else {
        combination(rows, sel, width, k - 1)
    }
}

/// The product of the selected strings has a component where an odd number of
/// them have it.
pub proof fn lemma_combination(
    rows: Seq<Seq<PauliOp>>,
    sel: Seq<bool>,
    width: nat,
    k: int,
    x_part: bool,
    j: int,
)
    requires
        0 <= k <= rows.len(),
        0 <= j < width,
        forall|m: int| 0 <= m < rows.len() ==> (#[trigger] rows[m]).len() == width,
    ensures
        combination(rows, sel, width, k).len() == width,
        has_part(combination(rows, sel, width, k)[j], x_part) == selected_parity(
            rows,
            sel,
            x_part,
            j,
            k,
        ),
    decreases k,
{
    if k > 0 {
        lemma_combination(rows, sel, width, k - 1, x_part, j);
        assert(rows[k - 1].len() == width);
    }
}

/// The operators of the generators at the qubits `bits`.
pub open spec fn extracts(t: Tableau, bits: Seq<usize>) -> Seq<Seq<PauliOp>> {
    Seq::new(t.rows.len(), |k: int| extract(t.rows[k], bits))
}

/// The images of the operators of the generators at the qubits `bits`.
pub open spec fn images<G: Gate>(t: Tableau, gate: &G, bits: Seq<usize>) -> Seq<Seq<PauliOp>> {
    Seq::new(t.rows.len(), |k: int| gate.conjugation(extract(t.rows[k], bits)).unwrap().0)
}

/// The image of a product of strings that have images is the product of the
/// images.
pub proof fn lemma_combination_image<G: Gate>(
    t: Tableau,
    gate: &G,
    bits: Seq<usize>,
    sel: Seq<bool>,
    k: int,
)
    requires
        t.rows.len() >= 1,
        0 <= k <= t.rows.len(),
        bits.len() == gate.arity(),
        forall|m: int| 0 <= m < t.rows.len() ==> !#[trigger] t.row_fails(gate, bits, m),
    ensures
        combination(extracts(t, bits), sel, bits.len(), k).len() == bits.len(),
        gate.conjugation(combination(extracts(t, bits), sel, bits.len(), k)) is Some,
        gate.conjugation(combination(extracts(t, bits), sel, bits.len(), k)).unwrap().0
            == combination(images(t, gate, bits), sel, bits.len(), k),
    decreases k,
{
    let width = bits.len();
    let from = extracts(t, bits);
    let to = images(t, gate, bits);
    if k <= 0 {
        // The identity is the square of any string.
        let e = extract(t.rows[0], bits);
        assert(!t.row_fails(gate, bits, 0));
        gate.lemma_conjugation_respects_products(e, e);
        gate.lemma_conjugation_keeps_commutation(e, e);
        let image = gate.conjugation(e).unwrap().0;
        assert(string_times(e, e) =~= identity_string(width));
        assert(string_times(image, image) =~= identity_string(width));
    } else {
        lemma_combination_image(t, gate, bits, sel, k - 1);
        if sel[k - 1] {
            let c = combination(from, sel, width, k - 1);
            let e = extract(t.rows[k - 1], bits);
            assert(!t.row_fails(gate, bits, k - 1));
            assert(from[k - 1] == e);
            assert(to[k - 1] == gate.conjugation(e).unwrap().0);
            gate.lemma_conjugation_respects_products(c, e);
        }
    }
}

/// A gate that has an image for every generator keeps independent generators
/// independent.
pub proof fn lemma_conjugated_independent<G: Gate>(t: Tableau, n: nat, gate: &G, bits: Seq<usize>)
    requires
        t.square(n),
        independent(t),
        distinct_bits(bits, n),
        t.first_failure(gate, bits, 0) >= n,
    ensures
        independent(t.conjugated_upto(gate, bits, n as int)),
{
    let after = t.conjugated_upto(gate, bits, n as int);
    t.lemma_no_failure(gate, bits, 0);
    if n >= 1 {
        assert(!t.row_fails(gate, bits, 0));
        let width = bits.len();
        let from = extracts(t, bits);
        let to = images(t, gate, bits);
        assert forall|m: int| 0 <= m < n implies (#[trigger] to[m]).len() == width
            && after.rows[m].len() == n && extract(after.rows[m], bits) == to[m] by {
            let e = extract(t.rows[m], bits);
            assert(!t.row_fails(gate, bits, m));
            gate.lemma_conjugation_keeps_commutation(e, e);
            lemma_scattered(t.rows[m], bits, gate.conjugation(e).unwrap().0);
        }
        assert forall|sel: Seq<bool>|
            sel.len() == after.rows.len() && #[trigger] multiplies_to_identity(
                after.rows,
                sel,
                after.rows.len(),
            ) implies none_selected(sel) by {
            lemma_combination_image(t, gate, bits, sel, n as int);
            let c = combination(from, sel, width, n as int);
            let d = combination(to, sel, width, n as int);
            gate.lemma_conjugation_keeps_commutation(c, c);
            assert(d.len() == width);
            // The product of the images is the identity.
            assert forall|l: int| 0 <= l < d.len() implies #[trigger] d[l] == PauliOp::I by {
                let j = bits[l] as int;
                assert forall|x_part: bool| !has_part(d[l], x_part) by {
                    lemma_combination(to, sel, width, n as int, x_part, l);
                    assert forall|m: int| 0 <= m < n implies #[trigger] share(
                        to,
                        sel,
                        x_part,
                        l,
                        m,
                    ) == share(after.rows, sel, x_part, j, m) by {
                        assert(extract(after.rows[m], bits)[l] == after.rows[m][j]);
                    }
                    lemma_parity_congruent(to, sel, after.rows, sel, x_part, l, j, n as int);
                    assert(!selected_parity(after.rows, sel, x_part, j, n as int));
                }
                assert(!has_part(d[l], true));
                assert(!has_part(d[l], false));
            }
            assert(all_identity(d));
            gate.lemma_conjugation_kernel(c);
            assert(all_identity(c));
            // So the product of the generators was the identity before.
            assert forall|x_part: bool, j: int| 0 <= j < n implies !#[trigger] selected_parity(
                t.rows,
                sel,
                x_part,
                j,
                n as int,
            ) by {
                if covers(bits, j) {
                    let l = choose|l: int| 0 <= l < bits.len() && #[trigger] bits[l] == j;
                    lemma_combination(from, sel, width, n as int, x_part, l);
                    assert forall|m: int| 0 <= m < n implies #[trigger] share(
                        from,
                        sel,
                        x_part,
                        l,
                        m,
                    ) == share(t.rows, sel, x_part, j, m) by {
                        assert(from[m][l] == t.rows[m][j]);
                    }
                    lemma_parity_congruent(from, sel, t.rows, sel, x_part, l, j, n as int);
                    assert(c[l] == PauliOp::I);
                } else {
                    assert forall|m: int| 0 <= m < n implies #[trigger] share(
                        t.rows,
                        sel,
                        x_part,
                        j,
                        m,
                    ) == share(after.rows, sel, x_part, j, m) by {
                        let e = extract(t.rows[m], bits);
                        assert(!t.row_fails(gate, bits, m));
                        gate.lemma_conjugation_keeps_commutation(e, e);
                        lemma_scattered(t.rows[m], bits, gate.conjugation(e).unwrap().0);
                        assert(after.rows[m][j] == t.rows[m][j]);
                    }
                    lemma_parity_congruent(t.rows, sel, after.rows, sel, x_part, j, j, n as int);
                    assert(!selected_parity(after.rows, sel, x_part, j, n as int));
                }
            }
            assert(multiplies_to_identity(t.rows, sel, n));
        }
    } else {
        assert forall|sel: Seq<bool>|
            sel.len() == after.rows.len() && #[trigger] multiplies_to_identity(
                after.rows,
                sel,
                after.rows.len(),
            ) implies none_selected(sel) by {}
    }
}

/// In the canonical form of independent generators every generator is a pivot
/// generator: none is the identity.
pub proof fn lemma_canonical_full(t: Tableau, n: nat, xcols: Seq<int>, zcols: Seq<int>)
    requires
        t.square(n),
        independent(t),
        reduced_upto(t, n, true, 0, xcols, n as int),
        reduced_upto(t, n, false, xcols.len() as int, zcols, n as int),
    ensures
        xcols.len() + zcols.len() == n,
{
    let r = (xcols.len() + zcols.len()) as int;
    if r < n {
        let sel = Seq::new(n, |k: int| k == r);
        assert forall|x_part: bool, j: int| 0 <= j < n implies !#[trigger] selected_parity(
            t.rows,
            sel,
            x_part,
            j,
            n as int,
        ) by {
            assert(!t.has(x_part, r, j));
            lemma_parity_of_one(t.rows, sel, x_part, j, n as int, r);
        }
        assert(multiplies_to_identity(t.rows, sel, n));
        assert(none_selected(sel));
        assert(sel[r]);
    }
}

} // verus!
