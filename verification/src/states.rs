//! What the tableau says of a state: the product of two Pauli strings as a matrix,
//! vectors with whole complex entries, and the laws that the operations on a
//! tableau keep it a tableau of stabilizers of the state.

use vstd::prelude::*;
use vstd::arithmetic::power2::lemma_pow2_pos;
use vstd::arithmetic::power2::lemma_pow2_unfold;
use vstd::arithmetic::power2::pow2;
use crate::gates::CX;
use crate::gates::Gate;
use crate::gates::H;
use crate::stabilizer::distinct_bits;
use crate::stabilizer::extract;
use crate::stabilizer::lemma_phase_parity;
use crate::stabilizer::lemma_scattered;
use crate::stabilizer::scattered;
use crate::stabilizer::PauliOp;
use crate::stabilizer::string_phase_power;
use crate::stabilizer::strings_commute;
use crate::stabilizer::Tableau;
use crate::stabilizer::string_times;
use crate::tensor::identity_matrix;
use crate::tensor::kron;
use crate::tensor::lemma_identity_product;
use crate::tensor::lemma_kron_carries;
use crate::tensor::lemma_mixed_product;
use crate::tensor::lemma_product_same;
use crate::tensor::lemma_signed_times;
use crate::tensor::lemma_times_associates;
use crate::tensor::lemma_times_distributes;
use crate::tensor::lemma_times_zero_one;
use crate::unitary::carries;
use crate::unitary::matrix_cx;
use crate::unitary::matrix_h;
use crate::unitary::Gauss;
use crate::unitary::lemma_cx_matrix;
use crate::unitary::lemma_h_matrix;
use crate::unitary::lemma_product_two;
use crate::unitary::lemma_unit_products;
use crate::unitary::pauli_entry;
use crate::unitary::product_entry;
use crate::unitary::string_entry;
use crate::unitary::string_matrix;
use crate::unitary::whole;

verus! {

/// The number `x` times the power `k` of i: `x` turned by `k` quarter turns.
pub open spec fn turned(x: Gauss, k: nat) -> Gauss {
    if k % 4 == 0 {
        x
    } else if k % 4 == 1 {
        Gauss { re: -x.im, im: x.re }
    } else if k % 4 == 2 {
        x.negated()
    } else {
        Gauss { re: x.im, im: -x.re }
    }
}

/// The products of a whole number and its opposite.
proof fn lemma_sign_products(a: int, b: int)
    ensures
        (-a) * b == -(a * b),
        a * (-b) == -(a * b),
        (-a) * (-b) == a * b,
{
    assert((-a) * b == -(a * b)) by (nonlinear_arith);
    assert(a * (-b) == -(a * b)) by (nonlinear_arith);
    assert((-a) * (-b) == a * b) by (nonlinear_arith);
}

/// The product of two turned numbers is the product of the numbers, turned by the
/// sum of the turns.
pub proof fn lemma_turned_times(x: Gauss, y: Gauss, k: nat, l: nat)
    ensures
        turned(x, k).times(turned(y, l)) == turned(x.times(y), k + l),
{
    lemma_sign_products(x.re, y.re);
    lemma_sign_products(x.re, y.im);
    lemma_sign_products(x.im, y.re);
    lemma_sign_products(x.im, y.im);
    assert(x.re * y.im == y.im * x.re && x.im * y.re == y.re * x.im && x.re * y.re == y.re * x.re
        && x.im * y.im == y.im * x.im) by (nonlinear_arith);
}

/// The matrix of the Pauli operator `op`.
pub open spec fn pauli_matrix(op: PauliOp) -> spec_fn(int, int) -> Gauss {
    |i: int, j: int| pauli_entry(op, i, j)
}

/// The product of the matrices of two Pauli operators is the matrix of their
/// product, turned by the power of i that the product carries.
pub proof fn lemma_pauli_product(a: PauliOp, b: PauliOp, i: int, j: int)
    requires
        0 <= i < 2,
        0 <= j < 2,
    ensures
        product_entry(pauli_matrix(a), pauli_matrix(b), i, j, 2) == turned(
            pauli_entry(a.times(b), i, j),
            a.phase_power(b),
        ),
{
    lemma_unit_products();
    lemma_product_two(pauli_matrix(a), pauli_matrix(b));
}

/// The product of the matrices of two Pauli strings is the matrix of their
/// position-wise product, turned by the power of i that this product carries.
pub proof fn lemma_string_product(p: Seq<PauliOp>, q: Seq<PauliOp>, i: int, j: int)
    requires
        p.len() == q.len(),
        0 <= i < pow2(p.len()),
        0 <= j < pow2(p.len()),
    ensures
        product_entry(string_matrix(p), string_matrix(q), i, j, pow2(p.len())) == turned(
            string_entry(string_times(p, q), i, j),
            string_phase_power(p, q),
        ),
    decreases p.len(),
{
    let n = p.len();
    if n == 0 {
        assert(pow2(0) == 1) by {
            vstd::arithmetic::power2::lemma2_to64();
        }
        reveal_with_fuel(product_entry, 2);
        lemma_unit_products();
    } else {
        let p1 = p.drop_last();
        let q1 = q.drop_last();
        let x = p.last();
        let y = q.last();
        let half = pow2((n - 1) as nat);
        lemma_pow2_pos((n - 1) as nat);
        lemma_pow2_unfold(n);
        assert(pow2(n) == half * 2);
        let kp = kron(string_matrix(p1), pauli_matrix(x), 2);
        let kq = kron(string_matrix(q1), pauli_matrix(y), 2);
        assert forall|c: int| 0 <= c < pow2(n) implies #[trigger] string_matrix(p)(i, c) == kp(
            i,
            c,
        ) by {}
        assert forall|c: int| 0 <= c < pow2(n) implies #[trigger] string_matrix(q)(c, j) == kq(
            c,
            j,
        ) by {}
        lemma_product_same(string_matrix(p), string_matrix(q), kp, kq, i, j, pow2(n));
        lemma_mixed_product(
            string_matrix(p1),
            string_matrix(q1),
            pauli_matrix(x),
            pauli_matrix(y),
            2,
            i,
            j,
            half,
        );
        lemma_string_product(p1, q1, i / 2, j / 2);
        lemma_pauli_product(x, y, i % 2, j % 2);
        let r = string_times(p, q);
        assert(r.drop_last() =~= string_times(p1, q1));
        assert(r.last() == x.times(y));
        lemma_turned_times(
            string_entry(string_times(p1, q1), i / 2, j / 2),
            pauli_entry(x.times(y), i % 2, j % 2),
            string_phase_power(p1, q1),
            x.phase_power(y),
        );
    }
}

/// The sum of the products of the first `k` entries of row `i` of the matrix `a`
/// with the first `k` entries of the vector `psi`; with `k` the dimension, entry
/// `i` of `a` applied to `psi`.
pub open spec fn applied_entry(
    a: spec_fn(int, int) -> Gauss,
    psi: spec_fn(int) -> Gauss,
    i: int,
    k: nat,
) -> Gauss
    decreases k,
{
    if k == 0 {
        whole(0)
    } else {
        applied_entry(a, psi, i, (k - 1) as nat).plus(a(i, k - 1).times(psi(k - 1)))
    }
}

/// The matrix `a` of dimension `dim` applied to the vector `psi`.
pub open spec fn applied(a: spec_fn(int, int) -> Gauss, psi: spec_fn(int) -> Gauss, dim: nat)
    -> spec_fn(int) -> Gauss {
    |i: int| applied_entry(a, psi, i, dim)
}

/// The product of the matrices `a` and `b`, summed over the first `k` columns of
/// `a`; with `k` the dimension, their product.
pub open spec fn product(a: spec_fn(int, int) -> Gauss, b: spec_fn(int, int) -> Gauss, k: nat)
    -> spec_fn(int, int) -> Gauss {
    |i: int, j: int| product_entry(a, b, i, j, k)
}

/// The vector `psi` with the opposite sign where `flip` holds.
pub open spec fn signed_vector(psi: spec_fn(int) -> Gauss, flip: bool) -> spec_fn(int) -> Gauss {
    |i: int| psi(i).signed(flip)
}

/// The matrix `a` with the opposite sign where `flip` holds.
pub open spec fn signed_matrix(a: spec_fn(int, int) -> Gauss, flip: bool) -> spec_fn(
    int,
    int,
) -> Gauss {
    |i: int, j: int| a(i, j).signed(flip)
}

/// A matrix applied to a vector rests on one row of the matrix and on the entries
/// of the vector as far as the sum goes.
pub proof fn lemma_applied_same(
    a: spec_fn(int, int) -> Gauss,
    psi: spec_fn(int) -> Gauss,
    a2: spec_fn(int, int) -> Gauss,
    psi2: spec_fn(int) -> Gauss,
    i: int,
    k: nat,
)
    requires
        forall|c: int| 0 <= c < k ==> #[trigger] a(i, c) == a2(i, c),
        forall|c: int| 0 <= c < k ==> #[trigger] psi(c) == psi2(c),
    ensures
        applied_entry(a, psi, i, k) == applied_entry(a2, psi2, i, k),
    decreases k,
{
    if k > 0 {
        lemma_applied_same(a, psi, a2, psi2, i, (k - 1) as nat);
        assert(a(i, k - 1) == a2(i, k - 1));
        assert(psi(k - 1) == psi2(k - 1));
    }
}

/// A sign on the matrix or on the vector comes out of the product.
pub proof fn lemma_applied_signed(
    a: spec_fn(int, int) -> Gauss,
    psi: spec_fn(int) -> Gauss,
    flip: bool,
    i: int,
    k: nat,
)
    ensures
        applied_entry(a, signed_vector(psi, flip), i, k) == applied_entry(a, psi, i, k).signed(
            flip,
        ),
        applied_entry(signed_matrix(a, flip), psi, i, k) == applied_entry(a, psi, i, k).signed(
            flip,
        ),
    decreases k,
{
    if k > 0 {
        lemma_applied_signed(a, psi, flip, i, (k - 1) as nat);
        lemma_signed_times(a(i, k - 1), psi(k - 1), false, flip);
        lemma_signed_times(a(i, k - 1), psi(k - 1), flip, false);
    }
}

/// One more column of the first matrix in a product adds, to the product applied
/// to a vector, the entry of that column times the matching entry of the second
/// matrix applied to the vector.
proof fn lemma_applied_product_column(
    a: spec_fn(int, int) -> Gauss,
    b: spec_fn(int, int) -> Gauss,
    psi: spec_fn(int) -> Gauss,
    i: int,
    k: nat,
    l: nat,
)
    ensures
        applied_entry(product(a, b, k + 1), psi, i, l) == applied_entry(
            product(a, b, k),
            psi,
            i,
            l,
        ).plus(a(i, k as int).times(applied_entry(b, psi, k as int, l))),
    decreases l,
{
    let x = a(i, k as int);
    if l == 0 {
        lemma_times_zero_one(x);
    } else {
        let l1 = (l - 1) as nat;
        lemma_applied_product_column(a, b, psi, i, k, l1);
        let y = b(k as int, l1 as int);
        let z = psi(l1 as int);
        let before = product_entry(a, b, i, l1 as int, k);
        assert(product(a, b, k + 1)(i, l1 as int) == before.plus(x.times(y)));
        assert(product(a, b, k)(i, l1 as int) == before);
        lemma_times_distributes(z, before, x.times(y));
        lemma_times_associates(x, y, z);
        lemma_times_distributes(x, applied_entry(b, psi, k as int, l1), y.times(z));
    }
}

/// The product of no columns applied to a vector is zero.
proof fn lemma_applied_product_none(
    a: spec_fn(int, int) -> Gauss,
    b: spec_fn(int, int) -> Gauss,
    psi: spec_fn(int) -> Gauss,
    i: int,
    l: nat,
)
    ensures
        applied_entry(product(a, b, 0), psi, i, l) == whole(0),
    decreases l,
{
    if l > 0 {
        lemma_applied_product_none(a, b, psi, i, (l - 1) as nat);
        lemma_times_zero_one(psi(l - 1));
    }
}

/// A product of matrices applied to a vector is the first applied to what the
/// second makes of the vector.
pub proof fn lemma_applied_product(
    a: spec_fn(int, int) -> Gauss,
    b: spec_fn(int, int) -> Gauss,
    psi: spec_fn(int) -> Gauss,
    i: int,
    k: nat,
    l: nat,
)
    ensures
        applied_entry(product(a, b, k), psi, i, l) == applied_entry(a, applied(b, psi, l), i, k),
    decreases k,
{
    if k == 0 {
        lemma_applied_product_none(a, b, psi, i, l);
    } else {
        lemma_applied_product(a, b, psi, i, (k - 1) as nat, l);
        lemma_applied_product_column(a, b, psi, i, (k - 1) as nat, l);
    }
}

/// The Pauli string `p` with the sign `sign` stabilises the vector `psi`: the
/// matrix of `p` maps `psi` to itself, with the opposite sign where `sign` holds.
pub open spec fn stabilises(p: Seq<PauliOp>, sign: bool, psi: spec_fn(int) -> Gauss) -> bool {
    forall|i: int|
        0 <= i < pow2(p.len()) ==> #[trigger] applied_entry(string_matrix(p), psi, i, pow2(p.len()))
            == psi(i).signed(sign)
}

/// The product of two commuting stabilisers of a vector stabilises it, with the
/// sign that is the product of their signs and of the sign that the product of the
/// strings carries.
pub proof fn lemma_product_stabilises(
    p: Seq<PauliOp>,
    sign_p: bool,
    q: Seq<PauliOp>,
    sign_q: bool,
    psi: spec_fn(int) -> Gauss,
)
    requires
        p.len() == q.len(),
        strings_commute(p, q),
        stabilises(p, sign_p, psi),
        stabilises(q, sign_q, psi),
    ensures
        stabilises(
            string_times(p, q),
            (sign_p != sign_q) != (string_phase_power(p, q) == 2),
            psi,
        ),
{
    let n = p.len();
    let dim = pow2(n);
    let r = string_times(p, q);
    let turn = string_phase_power(p, q) == 2;
    lemma_phase_parity(p, q);
    let sp = string_matrix(p);
    let sq = string_matrix(q);
    let pq = product(sp, sq, dim);
    assert forall|i: int| 0 <= i < dim implies #[trigger] applied_entry(
        string_matrix(r),
        psi,
        i,
        dim,
    ) == psi(i).signed((sign_p != sign_q) != turn) by {
        // The matrix of the product is the product of the matrices, with its sign.
        assert forall|c: int| 0 <= c < dim implies #[trigger] string_matrix(r)(i, c)
            == signed_matrix(pq, turn)(i, c) by {
            lemma_string_product(p, q, i, c);
        }
        lemma_applied_same(string_matrix(r), psi, signed_matrix(pq, turn), psi, i, dim);
        lemma_applied_signed(pq, psi, turn, i, dim);
        lemma_applied_product(sp, sq, psi, i, dim, dim);
        // The second string leaves the vector, with its sign; so does the first.
        assert forall|c: int| 0 <= c < dim implies #[trigger] applied(sq, psi, dim)(c)
            == signed_vector(psi, sign_q)(c) by {}
        lemma_applied_same(sp, applied(sq, psi, dim), sp, signed_vector(psi, sign_q), i, dim);
        lemma_applied_signed(sp, psi, sign_q, i, dim);
    }
}

/// A gate carries the stabilisers of a vector to stabilisers of its image: where
/// the Pauli string `p` with the sign `sign` stabilises `psi`, and conjugation with
/// the matrix `m` carries `p` to `image` with the sign `flip`, the string `image`
/// stabilises `m` applied to `psi`, with the sign `sign` times `flip`.
pub proof fn lemma_image_stabilises(
    m: spec_fn(int, int) -> Gauss,
    p: Seq<PauliOp>,
    sign: bool,
    image: Seq<PauliOp>,
    flip: bool,
    psi: spec_fn(int) -> Gauss,
)
    requires
        image.len() == p.len(),
        carries(m, pow2(p.len()), p, image, flip),
        stabilises(p, sign, psi),
    ensures
        stabilises(image, sign != flip, applied(m, psi, pow2(p.len()))),
{
    let dim = pow2(p.len());
    let sp = string_matrix(p);
    let si = string_matrix(image);
    let moved = applied(m, psi, dim);
    assert forall|i: int| 0 <= i < dim implies #[trigger] applied_entry(si, moved, i, dim)
        == moved(i).signed(sign != flip) by {
        lemma_applied_product(si, m, psi, i, dim, dim);
        // The image times the matrix is the matrix times the string, with the sign.
        assert forall|c: int| 0 <= c < dim implies #[trigger] product(si, m, dim)(i, c)
            == signed_matrix(product(m, sp, dim), flip)(i, c) by {
            assert(product_entry(m, sp, i, c, dim) == product_entry(si, m, i, c, dim).signed(
                flip,
            ));
        }
        lemma_applied_same(
            product(si, m, dim),
            psi,
            signed_matrix(product(m, sp, dim), flip),
            psi,
            i,
            dim,
        );
        lemma_applied_signed(product(m, sp, dim), psi, flip, i, dim);
        lemma_applied_product(m, sp, psi, i, dim, dim);
        assert forall|c: int| 0 <= c < dim implies #[trigger] applied(sp, psi, dim)(c)
            == signed_vector(psi, sign)(c) by {}
        lemma_applied_same(m, applied(sp, psi, dim), m, signed_vector(psi, sign), i, dim);
        lemma_applied_signed(m, psi, sign, i, dim);
    }
}

/// The tableau `t` describes the vector `psi`: every generator of `t`, with its
/// sign, stabilises `psi`.
pub open spec fn describes(t: Tableau, psi: spec_fn(int) -> Gauss) -> bool {
    forall|r: int| 0 <= r < t.rows.len() ==> stabilises(#[trigger] t.rows[r], t.signs[r], psi)
}

/// Exchanging two generators leaves a tableau a description of the same vector.
pub proof fn lemma_swapped_describes(
    t: Tableau,
    n: nat,
    a: int,
    b: int,
    psi: spec_fn(int) -> Gauss,
)
    requires
        t.square(n),
        describes(t, psi),
        0 <= a < n,
        0 <= b < n,
    ensures
        describes(t.swapped(a, b), psi),
{
    let s = t.swapped(a, b);
    assert forall|r: int| 0 <= r < s.rows.len() implies stabilises(
        #[trigger] s.rows[r],
        s.signs[r],
        psi,
    ) by {
        let from = if r == b {
            a
        } else if r == a {
            b
        } else {
            r
        };
        assert(s.rows[r] == t.rows[from] && s.signs[r] == t.signs[from]);
    }
}

/// Multiplying one generator by another leaves a commuting tableau a description
/// of the same vector: the signed product of two stabilisers is a stabiliser.
pub proof fn lemma_multiplied_describes(
    t: Tableau,
    n: nat,
    m: int,
    i: int,
    psi: spec_fn(int) -> Gauss,
)
    requires
        t.square(n),
        t.commuting(),
        describes(t, psi),
        0 <= m < n,
        0 <= i < n,
    ensures
        describes(t.multiplied(m, i), psi),
{
    let s = t.multiplied(m, i);
    assert forall|r: int| 0 <= r < s.rows.len() implies stabilises(
        #[trigger] s.rows[r],
        s.signs[r],
        psi,
    ) by {
        if r == m {
            assert(strings_commute(t.rows[m], t.rows[i]));
            lemma_product_stabilises(t.rows[m], t.signs[m], t.rows[i], t.signs[i], psi);
        } else {
            assert(s.rows[r] == t.rows[r] && s.signs[r] == t.signs[r]);
        }
    }
}

/// Clearing a column leaves a commuting tableau a description of the same vector.
pub proof fn lemma_cleared_describes(
    t: Tableau,
    n: nat,
    x_part: bool,
    i: int,
    j: int,
    m: int,
    psi: spec_fn(int) -> Gauss,
)
    requires
        t.square(n),
        t.commuting(),
        describes(t, psi),
        0 <= i < n,
        0 <= m <= n,
    ensures
        t.cleared_from(n, x_part, i, j, m).square(n),
        t.cleared_from(n, x_part, i, j, m).commuting(),
        describes(t.cleared_from(n, x_part, i, j, m), psi),
    decreases n - m,
{
    if m < n {
        if m != i && t.has(x_part, m, j) {
            t.lemma_multiplied_commuting(n, m, i);
            lemma_multiplied_describes(t, n, m, i, psi);
            lemma_cleared_describes(t.multiplied(m, i), n, x_part, i, j, m + 1, psi);
        } else {
            lemma_cleared_describes(t, n, x_part, i, j, m + 1, psi);
        }
    }
}

/// Row reduction leaves a commuting tableau a description of the same vector.
pub proof fn lemma_reduced_describes(
    t: Tableau,
    n: nat,
    x_part: bool,
    j: int,
    i: int,
    psi: spec_fn(int) -> Gauss,
)
    requires
        t.square(n),
        t.commuting(),
        describes(t, psi),
        0 <= j,
        0 <= i <= n,
    ensures
        t.reduced_from(n, x_part, j, i).0.square(n),
        t.reduced_from(n, x_part, j, i).0.commuting(),
        describes(t.reduced_from(n, x_part, j, i).0, psi),
        i <= t.reduced_from(n, x_part, j, i).1 <= n,
    decreases n - j,
{
    if j < n {
        crate::normal_form::lemma_pivot_from(t, n, x_part, j, i);
        let k = t.pivot_from(n, x_part, j, i);
        if k < n {
            t.lemma_swapped_commuting(n, i, k);
            lemma_swapped_describes(t, n, i, k, psi);
            lemma_cleared_describes(t.swapped(i, k), n, x_part, i, j, 0, psi);
            lemma_reduced_describes(
                t.swapped(i, k).cleared_from(n, x_part, i, j, 0),
                n,
                x_part,
                j + 1,
                i + 1,
                psi,
            );
        } else {
            lemma_reduced_describes(t, n, x_part, j + 1, i, psi);
        }
    }
}

/// The canonical form of a commuting tableau describes the vectors that the
/// tableau describes.
pub proof fn lemma_normalized_describes(t: Tableau, n: nat, psi: spec_fn(int) -> Gauss)
    requires
        t.square(n),
        t.commuting(),
        describes(t, psi),
    ensures
        describes(t.normalized(), psi),
{
    lemma_reduced_describes(t, n, true, 0, 0, psi);
    let first = t.reduced_from(n, true, 0, 0);
    lemma_reduced_describes(first.0, n, false, 0, first.1, psi);
}

/// The vector of the state |0...0>: 1 in row 0 and 0 in every other row.
pub open spec fn ground() -> spec_fn(int) -> Gauss {
    |i: int|
        if i == 0 {
            whole(1)
        } else {
            whole(0)
        }
}

/// A matrix applied to the vector of |0...0> gives its first column.
pub proof fn lemma_applied_ground(a: spec_fn(int, int) -> Gauss, i: int, k: nat)
    ensures
        applied_entry(a, ground(), i, k) == (if k > 0 {
            a(i, 0)
        } else {
            whole(0)
        }),
    decreases k,
{
    if k > 0 {
        lemma_applied_ground(a, i, (k - 1) as nat);
        lemma_times_zero_one(a(i, k - 1));
    }
}

/// The first column of the matrix of a string of `I` and `Z` is the vector of
/// |0...0>.
pub proof fn lemma_diagonal_column(p: Seq<PauliOp>, i: int)
    requires
        0 <= i,
        forall|j: int| 0 <= j < p.len() ==> #[trigger] p[j] == PauliOp::I || p[j] == PauliOp::Z,
    ensures
        string_entry(p, i, 0) == ground()(i),
    decreases p.len(),
{
    if p.len() > 0 {
        lemma_diagonal_column(p.drop_last(), i / 2);
        assert(p.last() == p[p.len() - 1]);
        lemma_unit_products();
    }
}

/// The tableau of the state |0...0> describes its vector.
pub proof fn lemma_initial_describes(n: nat)
    ensures
        describes(Tableau::initial(n), ground()),
{
    let t = Tableau::initial(n);
    assert forall|r: int| 0 <= r < t.rows.len() implies stabilises(
        #[trigger] t.rows[r],
        t.signs[r],
        ground(),
    ) by {
        let p = t.rows[r];
        lemma_pow2_pos(p.len());
        assert forall|i: int| 0 <= i < pow2(p.len()) implies #[trigger] applied_entry(
            string_matrix(p),
            ground(),
            i,
            pow2(p.len()),
        ) == ground()(i).signed(false) by {
            lemma_applied_ground(string_matrix(p), i, pow2(p.len()));
            lemma_diagonal_column(p, i);
        }
    }
}

/// A gate on the first qubits of a register leaves the operators on the others: where
/// conjugation with the matrix `m` carries the string `p` to `image`, conjugation
/// with `m` beside the identity on the qubits of `rest` carries `p` followed by
/// `rest` to `image` followed by `rest`, with the same sign.
pub proof fn lemma_front_carries(
    m: spec_fn(int, int) -> Gauss,
    p: Seq<PauliOp>,
    image: Seq<PauliOp>,
    flip: bool,
    rest: Seq<PauliOp>,
)
    requires
        image.len() == p.len(),
        carries(m, pow2(p.len()), p, image, flip),
    ensures
        carries(
            kron(m, identity_matrix(), pow2(rest.len())),
            pow2(p.len() + rest.len()),
            p + rest,
            image + rest,
            flip,
        ),
{
    let dim = pow2(rest.len());
    assert forall|i: int, j: int| 0 <= i < dim && 0 <= j < dim implies #[trigger] product_entry(
        identity_matrix(),
        string_matrix(rest),
        i,
        j,
        dim,
    ) == product_entry(string_matrix(rest), identity_matrix(), i, j, dim).signed(false) by {
        lemma_identity_product(string_matrix(rest), i, j, dim);
    }
    lemma_kron_carries(m, p, image, flip, identity_matrix(), rest, rest, false);
}

/// A gate on the last qubits of a register leaves the operators on the others: where
/// conjugation with the matrix `m` carries the string `p` to `image`, conjugation
/// with the identity on the qubits of `rest` beside `m` carries `rest` followed by
/// `p` to `rest` followed by `image`, with the same sign.
pub proof fn lemma_back_carries(
    m: spec_fn(int, int) -> Gauss,
    p: Seq<PauliOp>,
    image: Seq<PauliOp>,
    flip: bool,
    rest: Seq<PauliOp>,
)
    requires
        image.len() == p.len(),
        carries(m, pow2(p.len()), p, image, flip),
    ensures
        carries(
            kron(identity_matrix(), m, pow2(p.len())),
            pow2(rest.len() + p.len()),
            rest + p,
            rest + image,
            flip,
        ),
{
    let dim = pow2(rest.len());
    assert forall|i: int, j: int| 0 <= i < dim && 0 <= j < dim implies #[trigger] product_entry(
        identity_matrix(),
        string_matrix(rest),
        i,
        j,
        dim,
    ) == product_entry(string_matrix(rest), identity_matrix(), i, j, dim).signed(false) by {
        lemma_identity_product(string_matrix(rest), i, j, dim);
    }
    lemma_kron_carries(identity_matrix(), rest, rest, false, m, p, image, flip);
}

/// A gate on neighbouring qubits of a register leaves the operators on the others:
/// where conjugation with the matrix `m` carries the string `p` to `image`,
/// conjugation with `m` between the identity on the qubits of `before` and the
/// identity on those of `after` carries `before`, `p`, `after` to `before`,
/// `image`, `after`, with the same sign.
pub proof fn lemma_window_carries(
    m: spec_fn(int, int) -> Gauss,
    p: Seq<PauliOp>,
    image: Seq<PauliOp>,
    flip: bool,
    before: Seq<PauliOp>,
    after: Seq<PauliOp>,
)
    requires
        image.len() == p.len(),
        carries(m, pow2(p.len()), p, image, flip),
    ensures
        carries(
            kron(kron(identity_matrix(), m, pow2(p.len())), identity_matrix(), pow2(after.len())),
            pow2(before.len() + p.len() + after.len()),
            before + p + after,
            before + image + after,
            flip,
        ),
{
    lemma_back_carries(m, p, image, flip, before);
    lemma_front_carries(
        kron(identity_matrix(), m, pow2(p.len())),
        before + p,
        before + image,
        flip,
        after,
    );
}

/// The qubits in `bits` are neighbours in ascending order, from the qubit `first`
/// on.
pub open spec fn neighbours(bits: Seq<usize>, first: nat) -> bool {
    forall|k: int| 0 <= k < bits.len() ==> #[trigger] bits[k] == first + k
}

/// The matrix `m` of a gate on `width` qubits, on the neighbouring qubits from
/// `first` on in a register of `n` qubits: `m` between the identity on the qubits
/// before and the identity on the qubits after.
pub open spec fn on_neighbours(m: spec_fn(int, int) -> Gauss, first: nat, width: nat, n: nat)
    -> spec_fn(int, int) -> Gauss {
    kron(
        kron(identity_matrix(), m, pow2(width)),
        identity_matrix(),
        pow2((n - first - width) as nat),
    )
}

/// A gate on neighbouring qubits takes a tableau that describes a vector to one
/// that describes what the matrix of that gate makes of the vector: where the
/// conjugation rule of `gate` is conjugation with the matrix `m` and has an image
/// for every generator, the generators conjugated with `gate` on the qubits `bits`,
/// brought to canonical form, stabilise `m` on those qubits applied to `psi`.
pub proof fn lemma_gate_describes<G: Gate>(
    t: Tableau,
    n: nat,
    gate: &G,
    bits: Seq<usize>,
    first: nat,
    m: spec_fn(int, int) -> Gauss,
    psi: spec_fn(int) -> Gauss,
)
    requires
        t.square(n),
        t.commuting(),
        describes(t, psi),
        neighbours(bits, first),
        first + bits.len() <= n,
        t.first_failure(gate, bits, 0) >= n,
        forall|p: Seq<PauliOp>|
            p.len() == gate.arity() ==> (#[trigger] gate.conjugation(p) matches Some(image)
                ==> image.0.len() == p.len() && carries(m, pow2(p.len()), p, image.0, image.1)),
    ensures
        describes(
            t.conjugated_upto(gate, bits, n as int).normalized(),
            applied(on_neighbours(m, first, bits.len(), n), psi, pow2(n)),
        ),
{
    let width = bits.len();
    let full = on_neighbours(m, first, width, n);
    let moved = applied(full, psi, pow2(n));
    let u = t.conjugated_upto(gate, bits, n as int);
    assert(distinct_bits(bits, n));
    t.lemma_conjugated_commuting(n, gate, bits);
    t.lemma_no_failure(gate, bits, 0);
    assert forall|r: int| 0 <= r < u.rows.len() implies stabilises(
        #[trigger] u.rows[r],
        u.signs[r],
        moved,
    ) by {
        let row = t.rows[r];
        assert(row.len() == n);
        assert(!t.row_fails(gate, bits, r));
        let part = extract(row, bits);
        let image = gate.conjugation(part).unwrap();
        let before = row.take(first as int);
        let after = row.skip((first + width) as int);
        assert(part =~= row.subrange(first as int, (first + width) as int));
        assert(row =~= before + part + after);
        lemma_scattered(row, bits, image.0);
        let next = scattered(row, bits, image.0);
        assert(next.len() == (before + image.0 + after).len());
        assert forall|j: int| 0 <= j < next.len() implies next[j] == (before + image.0 + after)[j] by {
            if first <= j < first + width {
                assert(bits[j - first] == j);
            } else {
                assert(!crate::stabilizer::covers(bits, j));
            }
        }
        assert(next =~= before + image.0 + after);
        lemma_window_carries(m, part, image.0, image.1, before, after);
        assert(before.len() + part.len() + after.len() == n);
        lemma_image_stabilises(full, row, t.signs[r], next, image.1, psi);
    }
    lemma_normalized_describes(u, n, moved);
}

/// A Clifford gate on as many qubits as it acts on has an image for every
/// generator.
pub proof fn lemma_clifford_never_fails<G: Gate>(t: Tableau, gate: &G, bits: Seq<usize>, from: int)
    requires
        gate.clifford(),
        bits.len() == gate.arity(),
        0 <= from,
    ensures
        t.first_failure(gate, bits, from) >= t.rows.len(),
    decreases t.rows.len() - from,
{
    if from < t.rows.len() {
        gate.lemma_clifford();
        assert(gate.conjugation(extract(t.rows[from], bits)) is Some);
        lemma_clifford_never_fails(t, gate, bits, from + 1);
    }
}

/// The Hadamard gate on a qubit takes a tableau that describes a vector to one that
/// describes what its matrix on that qubit makes of the vector.
pub proof fn lemma_h_describes(t: Tableau, n: nat, qubit: usize, psi: spec_fn(int) -> Gauss)
    requires
        t.square(n),
        t.commuting(),
        describes(t, psi),
        qubit < n,
    ensures
        describes(
            t.conjugated_upto(&(H {  }), seq![qubit], n as int).normalized(),
            applied(on_neighbours(matrix_h(), qubit as nat, 1, n), psi, pow2(n)),
        ),
{
    let gate = H {  };
    assert(pow2(1) == 2) by {
        vstd::arithmetic::power2::lemma2_to64();
    }
    lemma_clifford_never_fails(t, &gate, seq![qubit], 0);
    assert forall|p: Seq<PauliOp>| p.len() == gate.arity() implies (
    #[trigger] gate.conjugation(p) matches Some(image) ==> image.0.len() == p.len() && carries(
        matrix_h(),
        pow2(p.len()),
        p,
        image.0,
        image.1,
    )) by {
        lemma_h_matrix(p);
    }
    lemma_gate_describes(t, n, &gate, seq![qubit], qubit as nat, matrix_h(), psi);
}

/// The controlled `X` gate on a qubit and the next takes a tableau that describes a
/// vector to one that describes what its matrix on these qubits makes of the
/// vector.
pub proof fn lemma_cx_describes(
    t: Tableau,
    n: nat,
    control: usize,
    target: usize,
    psi: spec_fn(int) -> Gauss,
)
    requires
        t.square(n),
        t.commuting(),
        describes(t, psi),
        target == control + 1,
        target < n,
    ensures
        describes(
            t.conjugated_upto(&(CX {  }), seq![control, target], n as int).normalized(),
            applied(on_neighbours(matrix_cx(), control as nat, 2, n), psi, pow2(n)),
        ),
{
    let gate = CX {  };
    let bits = seq![control, target];
    assert(pow2(2) == 4) by {
        vstd::arithmetic::power2::lemma2_to64();
    }
    lemma_clifford_never_fails(t, &gate, bits, 0);
    assert forall|p: Seq<PauliOp>| p.len() == gate.arity() implies (
    #[trigger] gate.conjugation(p) matches Some(image) ==> image.0.len() == p.len() && carries(
        matrix_cx(),
        pow2(p.len()),
        p,
        image.0,
        image.1,
    )) by {
        lemma_cx_matrix(p);
    }
    lemma_gate_describes(t, n, &gate, bits, control as nat, matrix_cx(), psi);
}

} // verus!
