//! Gates side by side and gates under a control as matrices: the tensor product of
//! two matrices and the matrix under a control, with the laws that they carry the
//! Pauli strings as the conjugation rules of such gates say.

use vstd::prelude::*;
use vstd::arithmetic::div_mod::lemma_breakdown;
use vstd::arithmetic::div_mod::lemma_div_denominator;
use vstd::arithmetic::div_mod::lemma_fundamental_div_mod;
use vstd::arithmetic::div_mod::lemma_fundamental_div_mod_converse;
use vstd::arithmetic::power2::lemma_pow2_adds;
use vstd::arithmetic::power2::lemma_pow2_pos;
use vstd::arithmetic::power2::lemma_pow2_unfold;
use vstd::arithmetic::power2::pow2;
use crate::gates::C;
use crate::gates::Gate;
use crate::gates::Kron;
use crate::stabilizer::PauliOp;
use crate::unitary::adjoint;
use crate::unitary::carries;
use crate::unitary::lemma_product_two;
use crate::unitary::lemma_unit_products;
use crate::unitary::Gauss;
use crate::unitary::pauli_entry;
use crate::unitary::product_entry;
use crate::unitary::scaled_unitary;
use crate::unitary::string_entry;
use crate::unitary::string_matrix;
use crate::unitary::whole;

verus! {

/// The product of whole numbers does not depend on their order or grouping, and
/// distributes over sums.
proof fn lemma_whole_products(a: int, b: int, c: int)
    ensures
        a * b == b * a,
        (a * b) * c == a * (b * c),
        a * (b + c) == a * b + a * c,
        a * (b - c) == a * b - a * c,
        (b + c) * a == b * a + c * a,
        (b - c) * a == b * a - c * a,
{
    assert(a * b == b * a) by (nonlinear_arith);
    assert((a * b) * c == a * (b * c)) by (nonlinear_arith);
    assert(a * (b + c) == a * b + a * c) by (nonlinear_arith);
    assert(a * (b - c) == a * b - a * c) by (nonlinear_arith);
    assert((b + c) * a == b * a + c * a) by (nonlinear_arith);
    assert((b - c) * a == b * a - c * a) by (nonlinear_arith);
}

/// The product of two numbers does not depend on their order.
pub proof fn lemma_times_commutes(x: Gauss, y: Gauss)
    ensures
        x.times(y) == y.times(x),
{
    lemma_whole_products(x.re, y.re, 0);
    lemma_whole_products(x.im, y.im, 0);
    lemma_whole_products(x.re, y.im, 0);
    lemma_whole_products(x.im, y.re, 0);
}

/// The product of three numbers does not depend on their grouping.
pub proof fn lemma_times_associates(x: Gauss, y: Gauss, z: Gauss)
    ensures
        x.times(y).times(z) == x.times(y.times(z)),
{
    let (a, b, c, d, e, f) = (x.re, x.im, y.re, y.im, z.re, z.im);
    lemma_whole_products(e, a * c, b * d);
    lemma_whole_products(f, a * c, b * d);
    lemma_whole_products(e, a * d, b * c);
    lemma_whole_products(f, a * d, b * c);
    lemma_whole_products(a, c, e);
    lemma_whole_products(a, c, f);
    lemma_whole_products(a, d, e);
    lemma_whole_products(a, d, f);
    lemma_whole_products(b, c, e);
    lemma_whole_products(b, c, f);
    lemma_whole_products(b, d, e);
    lemma_whole_products(b, d, f);
    lemma_whole_products(a, c * e, d * f);
    lemma_whole_products(a, c * f, d * e);
    lemma_whole_products(b, c * e, d * f);
    lemma_whole_products(b, c * f, d * e);
}

/// The product distributes over the sum.
pub proof fn lemma_times_distributes(x: Gauss, y: Gauss, z: Gauss)
    ensures
        x.times(y.plus(z)) == x.times(y).plus(x.times(z)),
        y.plus(z).times(x) == y.times(x).plus(z.times(x)),
{
    let (a, b, c, d, e, f) = (x.re, x.im, y.re, y.im, z.re, z.im);
    assert(a * (c + e) - b * (d + f) == (a * c - b * d) + (a * e - b * f)) by (nonlinear_arith);
    assert(a * (d + f) + b * (c + e) == (a * d + b * c) + (a * f + b * e)) by (nonlinear_arith);
    assert((c + e) * a - (d + f) * b == (c * a - d * b) + (e * a - f * b)) by (nonlinear_arith);
    assert((c + e) * b + (d + f) * a == (c * b + d * a) + (e * b + f * a)) by (nonlinear_arith);
}

/// The products with 0 and with 1.
pub proof fn lemma_times_zero_one(x: Gauss)
    ensures
        x.times(whole(0)) == whole(0),
        whole(0).times(x) == whole(0),
        x.times(whole(1)) == x,
        whole(1).times(x) == x,
{
    assert(x.re * 0 == 0 && x.im * 0 == 0 && 0 * x.re == 0 && 0 * x.im == 0) by (nonlinear_arith);
    assert(x.re * 1 == x.re && x.im * 1 == x.im && 1 * x.re == x.re && 1 * x.im == x.im)
        by (nonlinear_arith);
}

/// The product of two products, regrouped: the first factors together, and the
/// second.
pub proof fn lemma_times_interchange(a: Gauss, b: Gauss, c: Gauss, d: Gauss)
    ensures
        a.times(b).times(c.times(d)) == a.times(c).times(b.times(d)),
{
    lemma_times_associates(a, b, c.times(d));
    lemma_times_associates(b, c, d);
    lemma_times_commutes(b, c);
    lemma_times_associates(c, b, d);
    lemma_times_associates(a, c, b.times(d));
}

/// The tensor product of the matrix `a` with the matrix `b` of dimension `dim`: the
/// entry in row `i` and column `j` is the entry of `a` for the leading parts of `i`
/// and `j` times the entry of `b` for their last parts.
pub open spec fn kron(
    a: spec_fn(int, int) -> Gauss,
    b: spec_fn(int, int) -> Gauss,
    dim: nat,
) -> spec_fn(int, int) -> Gauss {
    |i: int, j: int| a(i / dim as int, j / dim as int).times(b(i % dim as int, j % dim as int))
}

/// Within one block of columns, the product of two tensor products grows by the
/// product of the second parts, times the entry of the product of the first parts
/// for that block.
proof fn lemma_product_block(
    a0: spec_fn(int, int) -> Gauss,
    b0: spec_fn(int, int) -> Gauss,
    a1: spec_fn(int, int) -> Gauss,
    b1: spec_fn(int, int) -> Gauss,
    dim: nat,
    i: int,
    j: int,
    block: nat,
    k: nat,
)
    requires
        dim > 0,
        k <= dim,
    ensures
        product_entry(kron(a0, a1, dim), kron(b0, b1, dim), i, j, block * dim + k)
            == product_entry(kron(a0, a1, dim), kron(b0, b1, dim), i, j, block * dim).plus(
            a0(i / dim as int, block as int).times(b0(block as int, j / dim as int)).times(
                product_entry(a1, b1, i % dim as int, j % dim as int, k),
            ),
        ),
    decreases k,
{
    let a = kron(a0, a1, dim);
    let b = kron(b0, b1, dim);
    let d = dim as int;
    let c = a0(i / d, block as int).times(b0(block as int, j / d));
    let base = product_entry(a, b, i, j, block * dim);
    if k == 0 {
        lemma_times_zero_one(c);
    } else {
        let k1 = (k - 1) as nat;
        lemma_product_block(a0, b0, a1, b1, dim, i, j, block, k1);
        let col = block * dim + k1;
        lemma_fundamental_div_mod_converse(col as int, d, block as int, k1 as int);
        assert((block * dim + k - 1) as nat == col);
        let t1 = a1(i % d, k1 as int).times(b1(k1 as int, j % d));
        assert(a(i, col as int) == a0(i / d, block as int).times(a1(i % d, k1 as int)));
        assert(b(col as int, j) == b0(block as int, j / d).times(b1(k1 as int, j % d)));
        lemma_times_interchange(
            a0(i / d, block as int),
            a1(i % d, k1 as int),
            b0(block as int, j / d),
            b1(k1 as int, j % d),
        );
        assert(a(i, col as int).times(b(col as int, j)) == c.times(t1));
        let p1 = product_entry(a1, b1, i % d, j % d, k1);
        lemma_times_distributes(c, p1, t1);
        assert(product_entry(a1, b1, i % d, j % d, k) == p1.plus(t1));
        assert(product_entry(a, b, i, j, block * dim + k) == product_entry(
            a,
            b,
            i,
            j,
            col,
        ).plus(a(i, col as int).times(b(col as int, j))));
    }
}

/// The product of two tensor products is the tensor product of the products: the
/// entry of the first is the product of the entries of the products of the parts.
pub proof fn lemma_mixed_product(
    a0: spec_fn(int, int) -> Gauss,
    b0: spec_fn(int, int) -> Gauss,
    a1: spec_fn(int, int) -> Gauss,
    b1: spec_fn(int, int) -> Gauss,
    dim: nat,
    i: int,
    j: int,
    blocks: nat,
)
    requires
        dim > 0,
    ensures
        product_entry(kron(a0, a1, dim), kron(b0, b1, dim), i, j, blocks * dim) == product_entry(
            a0,
            b0,
            i / dim as int,
            j / dim as int,
            blocks,
        ).times(product_entry(a1, b1, i % dim as int, j % dim as int, dim)),
    decreases blocks,
{
    let d = dim as int;
    let p1 = product_entry(a1, b1, i % d, j % d, dim);
    if blocks == 0 {
        assert(blocks * dim == 0) by (nonlinear_arith)
            requires
                blocks == 0,
        ;
        lemma_times_zero_one(p1);
    } else {
        let less = (blocks - 1) as nat;
        lemma_mixed_product(a0, b0, a1, b1, dim, i, j, less);
        lemma_product_block(a0, b0, a1, b1, dim, i, j, less, dim);
        assert(less * dim + dim == blocks * dim) by (nonlinear_arith)
            requires
                less + 1 == blocks,
        ;
        let c = a0(i / d, less as int).times(b0(less as int, j / d));
        lemma_times_distributes(p1, product_entry(a0, b0, i / d, j / d, less), c);
    }
}

/// The matrix of two Pauli strings joined is the tensor product of their matrices.
pub proof fn lemma_string_concat(p0: Seq<PauliOp>, p1: Seq<PauliOp>, i: int, j: int)
    requires
        0 <= i,
        0 <= j,
    ensures
        string_entry(p0 + p1, i, j) == kron(
            string_matrix(p0),
            string_matrix(p1),
            pow2(p1.len()),
        )(i, j),
    decreases p1.len(),
{
    let d = pow2(p1.len()) as int;
    lemma_pow2_pos(p1.len());
    if p1.len() == 0 {
        assert(p0 + p1 =~= p0);
        assert(pow2(0) == 1) by {
            vstd::arithmetic::power2::lemma2_to64();
        }
        lemma_times_zero_one(string_entry(p0, i, j));
        assert(string_entry(p1, i % d, j % d) == whole(1));
    } else {
        let r = p1.drop_last();
        let x = p1.last();
        let dr = pow2(r.len()) as int;
        lemma_pow2_pos(r.len());
        lemma_pow2_unfold(p1.len());
        assert(d == 2 * dr);
        assert((p0 + p1).drop_last() =~= p0 + r);
        assert((p0 + p1).last() == x);
        lemma_string_concat(p0, r, i / 2, j / 2);
        lemma_div_denominator(i, 2, dr);
        lemma_div_denominator(j, 2, dr);
        lemma_breakdown(i, 2, dr);
        lemma_breakdown(j, 2, dr);
        let u = i % d;
        let v = j % d;
        assert(u == ((i / 2) % dr) * 2 + i % 2);
        assert(v == ((j / 2) % dr) * 2 + j % 2);
        lemma_fundamental_div_mod_converse(u, 2, (i / 2) % dr, i % 2);
        lemma_fundamental_div_mod_converse(v, 2, (j / 2) % dr, j % 2);
        let s0 = string_entry(p0, i / d, j / d);
        let sr = string_entry(r, (i / 2) % dr, (j / 2) % dr);
        let px = pauli_entry(x, i % 2, j % 2);
        assert(string_entry(p0 + r, i / 2, j / 2) == s0.times(sr));
        assert(string_entry(p0 + p1, i, j) == s0.times(sr).times(px));
        assert(string_entry(p1, u, v) == sr.times(px));
        lemma_times_associates(s0, sr, px);
    }
}

/// The entry of a product rests on the row of the first matrix and the column of
/// the second alone, as far as the sum goes.
pub proof fn lemma_product_same(
    a: spec_fn(int, int) -> Gauss,
    b: spec_fn(int, int) -> Gauss,
    a2: spec_fn(int, int) -> Gauss,
    b2: spec_fn(int, int) -> Gauss,
    i: int,
    j: int,
    k: nat,
)
    requires
        forall|c: int| 0 <= c < k ==> #[trigger] a(i, c) == a2(i, c),
        forall|c: int| 0 <= c < k ==> #[trigger] b(c, j) == b2(c, j),
    ensures
        product_entry(a, b, i, j, k) == product_entry(a2, b2, i, j, k),
    decreases k,
{
    if k > 0 {
        lemma_product_same(a, b, a2, b2, i, j, (k - 1) as nat);
        assert(a(i, k - 1) == a2(i, k - 1));
        assert(b(k - 1, j) == b2(k - 1, j));
    }
}

/// The product of two numbers with signs is the product of the numbers, with the
/// opposite sign where one of the signs is the opposite one.
pub proof fn lemma_signed_times(x: Gauss, y: Gauss, flip0: bool, flip1: bool)
    ensures
        x.signed(flip0).times(y.signed(flip1)) == x.times(y).signed(flip0 != flip1),
{
    let (a, b, c, d) = (x.re, x.im, y.re, y.im);
    assert((-a) * c == -(a * c) && (-a) * d == -(a * d) && (-b) * c == -(b * c) && (-b) * d == -(b
        * d)) by (nonlinear_arith);
    assert(a * (-c) == -(a * c) && a * (-d) == -(a * d) && b * (-c) == -(b * c) && b * (-d) == -(b
        * d)) by (nonlinear_arith);
    assert((-a) * (-c) == a * c && (-a) * (-d) == a * d && (-b) * (-c) == b * c && (-b) * (-d) == b
        * d) by (nonlinear_arith);
}

/// Two matrices side by side carry two Pauli strings joined: where conjugation with
/// `m0` carries `p0` to `q0` and conjugation with `m1` carries `p1` to `q1`,
/// conjugation with the tensor product of `m0` and `m1` carries `p0` followed by
/// `p1` to `q0` followed by `q1`, with the opposite sign where one of the two has
/// it.
pub proof fn lemma_kron_carries(
    m0: spec_fn(int, int) -> Gauss,
    p0: Seq<PauliOp>,
    q0: Seq<PauliOp>,
    flip0: bool,
    m1: spec_fn(int, int) -> Gauss,
    p1: Seq<PauliOp>,
    q1: Seq<PauliOp>,
    flip1: bool,
)
    requires
        q0.len() == p0.len(),
        q1.len() == p1.len(),
        carries(m0, pow2(p0.len()), p0, q0, flip0),
        carries(m1, pow2(p1.len()), p1, q1, flip1),
    ensures
        carries(
            kron(m0, m1, pow2(p1.len())),
            pow2(p0.len() + p1.len()),
            p0 + p1,
            q0 + q1,
            flip0 != flip1,
        ),
{
    let d0 = pow2(p0.len());
    let d1 = pow2(p1.len());
    let d = d1 as int;
    let dim = pow2(p0.len() + p1.len());
    lemma_pow2_pos(p0.len());
    lemma_pow2_pos(p1.len());
    lemma_pow2_adds(p0.len(), p1.len());
    assert(dim == d0 * d1);
    let m = kron(m0, m1, d1);
    let sp = kron(string_matrix(p0), string_matrix(p1), d1);
    let sq = kron(string_matrix(q0), string_matrix(q1), d1);
    assert forall|i: int, j: int| 0 <= i < dim && 0 <= j < dim implies #[trigger] product_entry(
        m,
        string_matrix(p0 + p1),
        i,
        j,
        dim,
    ) == product_entry(string_matrix(q0 + q1), m, i, j, dim).signed(flip0 != flip1) by {
        assert(0 <= i / d < d0 && 0 <= i % d < d1) by (nonlinear_arith)
            requires
                0 <= i < d0 * d1,
                d == d1,
                d1 > 0,
        ;
        assert(0 <= j / d < d0 && 0 <= j % d < d1) by (nonlinear_arith)
            requires
                0 <= j < d0 * d1,
                d == d1,
                d1 > 0,
        ;
        assert forall|c: int| 0 <= c < dim implies #[trigger] string_matrix(p0 + p1)(c, j) == sp(
            c,
            j,
        ) by {
            lemma_string_concat(p0, p1, c, j);
        }
        assert forall|c: int| 0 <= c < dim implies #[trigger] string_matrix(q0 + q1)(i, c) == sq(
            i,
            c,
        ) by {
            lemma_string_concat(q0, q1, i, c);
        }
        lemma_product_same(m, string_matrix(p0 + p1), m, sp, i, j, dim);
        lemma_product_same(string_matrix(q0 + q1), m, sq, m, i, j, dim);
        lemma_mixed_product(m0, string_matrix(p0), m1, string_matrix(p1), d1, i, j, d0);
        lemma_mixed_product(string_matrix(q0), m0, string_matrix(q1), m1, d1, i, j, d0);
        let left0 = product_entry(m0, string_matrix(p0), i / d, j / d, d0);
        let left1 = product_entry(m1, string_matrix(p1), i % d, j % d, d1);
        let right0 = product_entry(string_matrix(q0), m0, i / d, j / d, d0);
        let right1 = product_entry(string_matrix(q1), m1, i % d, j % d, d1);
        assert(left0 == right0.signed(flip0));
        assert(left1 == right1.signed(flip1));
        lemma_signed_times(right0, right1, flip0, flip1);
    }
}

/// The conjugate of a product is the product of the conjugates.
pub proof fn lemma_conjugate_times(x: Gauss, y: Gauss)
    ensures
        x.times(y).conjugate() == x.conjugate().times(y.conjugate()),
{
    let (a, b, c, d) = (x.re, x.im, y.re, y.im);
    assert((-b) * (-d) == b * d && a * (-d) == -(a * d) && (-b) * c == -(b * c))
        by (nonlinear_arith);
}

/// Two unitaries side by side are a unitary: where `m0` and `m1` are unitaries
/// times the square roots of `scale0` and `scale1`, their tensor product is one
/// times the square root of the product of the two.
pub proof fn lemma_kron_unitary(
    m0: spec_fn(int, int) -> Gauss,
    dim0: nat,
    scale0: int,
    m1: spec_fn(int, int) -> Gauss,
    dim1: nat,
    scale1: int,
)
    requires
        dim1 > 0,
        scaled_unitary(m0, dim0, scale0),
        scaled_unitary(m1, dim1, scale1),
    ensures
        scaled_unitary(kron(m0, m1, dim1), dim0 * dim1, scale0 * scale1),
{
    let d = dim1 as int;
    let dim = dim0 * dim1;
    let m = kron(m0, m1, dim1);
    let t = kron(adjoint(m0), adjoint(m1), dim1);
    assert(scale0 * scale1 > 0) by (nonlinear_arith)
        requires
            scale0 > 0,
            scale1 > 0,
    ;
    assert forall|i: int, j: int| 0 <= i < dim && 0 <= j < dim implies #[trigger] product_entry(
        m,
        adjoint(m),
        i,
        j,
        dim,
    ) == (if i == j {
        whole(scale0 * scale1)
    } else {
        whole(0)
    }) by {
        assert(0 <= i / d < dim0 && 0 <= i % d < dim1) by (nonlinear_arith)
            requires
                0 <= i < dim0 * dim1,
                d == dim1,
                dim1 > 0,
        ;
        assert(0 <= j / d < dim0 && 0 <= j % d < dim1) by (nonlinear_arith)
            requires
                0 <= j < dim0 * dim1,
                d == dim1,
                dim1 > 0,
        ;
        assert forall|c: int| 0 <= c < dim implies #[trigger] adjoint(m)(c, j) == t(c, j) by {
            lemma_conjugate_times(m0(j / d, c / d), m1(j % d, c % d));
        }
        lemma_product_same(m, adjoint(m), m, t, i, j, dim);
        lemma_mixed_product(m0, adjoint(m0), m1, adjoint(m1), dim1, i, j, dim0);
        let part0 = product_entry(m0, adjoint(m0), i / d, j / d, dim0);
        let part1 = product_entry(m1, adjoint(m1), i % d, j % d, dim1);
        lemma_fundamental_div_mod(i, d);
        lemma_fundamental_div_mod(j, d);
        lemma_times_zero_one(part0);
        lemma_times_zero_one(part1);
        assert(whole(scale0).times(whole(scale1)) == whole(scale0 * scale1)) by {
            assert(scale0 * 0 == 0 && 0 * scale1 == 0 && 0 * 0 == 0) by (nonlinear_arith);
        }
    }
}

/// The sum of two matrices.
pub open spec fn matrix_sum(a: spec_fn(int, int) -> Gauss, b: spec_fn(int, int) -> Gauss)
    -> spec_fn(int, int) -> Gauss {
    |i: int, j: int| a(i, j).plus(b(i, j))
}

/// The product with a sum of matrices, on either side, is the sum of the products.
pub proof fn lemma_product_of_sum(
    a: spec_fn(int, int) -> Gauss,
    b: spec_fn(int, int) -> Gauss,
    c: spec_fn(int, int) -> Gauss,
    i: int,
    j: int,
    k: nat,
)
    ensures
        product_entry(matrix_sum(a, b), c, i, j, k) == product_entry(a, c, i, j, k).plus(
            product_entry(b, c, i, j, k),
        ),
        product_entry(c, matrix_sum(a, b), i, j, k) == product_entry(c, a, i, j, k).plus(
            product_entry(c, b, i, j, k),
        ),
    decreases k,
{
    if k > 0 {
        lemma_product_of_sum(a, b, c, i, j, (k - 1) as nat);
        lemma_times_distributes(c(k - 1, j), a(i, k - 1), b(i, k - 1));
        lemma_times_distributes(c(i, k - 1), a(k - 1, j), b(k - 1, j));
    }
}

/// The identity matrix.
pub open spec fn identity_matrix() -> spec_fn(int, int) -> Gauss {
    |i: int, j: int|
        if i == j {
            whole(1)
        } else {
            whole(0)
        }
}

/// The product of the identity matrix with a matrix, on either side, is that
/// matrix, as far as the sum reaches its row or column.
pub proof fn lemma_identity_product(a: spec_fn(int, int) -> Gauss, i: int, j: int, k: nat)
    ensures
        product_entry(identity_matrix(), a, i, j, k) == (if 0 <= i < k {
            a(i, j)
        } else {
            whole(0)
        }),
        product_entry(a, identity_matrix(), i, j, k) == (if 0 <= j < k {
            a(i, j)
        } else {
            whole(0)
        }),
    decreases k,
{
    if k > 0 {
        lemma_identity_product(a, i, j, (k - 1) as nat);
        lemma_times_zero_one(a(k - 1, j));
        lemma_times_zero_one(a(i, k - 1));
    }
}

/// The matrix that keeps the part of a vector where the first qubit has the value
/// `value` and drops the other part.
pub open spec fn selector(value: int) -> spec_fn(int, int) -> Gauss {
    |i: int, j: int|
        if i == value && j == value {
            whole(1)
        } else {
            whole(0)
        }
}

/// The matrix `m` of dimension `dim` under a control: the identity where the
/// control qubit, the first, is 0, and `m` on the other qubits where it is 1.
pub open spec fn controlled(m: spec_fn(int, int) -> Gauss, dim: nat) -> spec_fn(int, int) -> Gauss {
    matrix_sum(kron(selector(0), identity_matrix(), dim), kron(selector(1), m, dim))
}

/// The operator on the control after a gate under it: of `I` and `Z`, the other one
/// where `flip` holds, the same where it does not.
pub open spec fn other_of(control: PauliOp, flip: bool) -> PauliOp {
    if !flip {
        control
    } else if control == PauliOp::I {
        PauliOp::Z
    } else {
        PauliOp::I
    }
}

/// A gate under a control keeps `I` and `Z` on the control where that gate keeps
/// the string on the targets: where conjugation with the matrix `m` carries the
/// string `target` to itself with the sign `flip`, conjugation with `m` under a
/// control carries `control` followed by `target`, for `control` one of `I` and
/// `Z`, to the same string, with the other of `I` and `Z` on the control where
/// `flip` holds, and never with the opposite sign.
pub proof fn lemma_controlled_carries(
    m: spec_fn(int, int) -> Gauss,
    control: PauliOp,
    target: Seq<PauliOp>,
    flip: bool,
)
    requires
        control == PauliOp::I || control == PauliOp::Z,
        carries(m, pow2(target.len()), target, target, flip),
    ensures
        carries(
            controlled(m, pow2(target.len())),
            pow2(1 + target.len()),
            seq![control] + target,
            seq![other_of(control, flip)] + target,
            false,
        ),
{
    let d1 = pow2(target.len());
    let d = d1 as int;
    let dim = pow2(1 + target.len());
    lemma_pow2_pos(target.len());
    lemma_pow2_adds(1, target.len());
    assert(pow2(1) == 2) by {
        vstd::arithmetic::power2::lemma2_to64();
    }
    assert(dim == 2 * d1);
    let other = other_of(control, flip);
    let p = seq![control] + target;
    let q = seq![other] + target;
    let sc = string_matrix(seq![control]);
    let so = string_matrix(seq![other]);
    let st = string_matrix(target);
    let kp = kron(sc, st, d1);
    let kq = kron(so, st, d1);
    let keep = kron(selector(0), identity_matrix(), d1);
    let act = kron(selector(1), m, d1);
    let cm = controlled(m, d1);
    lemma_unit_products();
    assert forall|i: int, j: int| 0 <= i < dim && 0 <= j < dim implies #[trigger] product_entry(
        cm,
        string_matrix(p),
        i,
        j,
        dim,
    ) == product_entry(string_matrix(q), cm, i, j, dim).signed(false) by {
        assert(0 <= i / d < 2 && 0 <= i % d < d1) by (nonlinear_arith)
            requires
                0 <= i < 2 * d1,
                d == d1,
                d1 > 0,
        ;
        assert(0 <= j / d < 2 && 0 <= j % d < d1) by (nonlinear_arith)
            requires
                0 <= j < 2 * d1,
                d == d1,
                d1 > 0,
        ;
        assert forall|c: int| 0 <= c < dim implies #[trigger] string_matrix(p)(c, j) == kp(
            c,
            j,
        ) by {
            lemma_string_concat(seq![control], target, c, j);
        }
        assert forall|c: int| 0 <= c < dim implies #[trigger] string_matrix(q)(i, c) == kq(
            i,
            c,
        ) by {
            lemma_string_concat(seq![other], target, i, c);
        }
        lemma_product_same(cm, string_matrix(p), cm, kp, i, j, dim);
        lemma_product_same(string_matrix(q), cm, kq, cm, i, j, dim);
        lemma_product_of_sum(keep, act, kp, i, j, dim);
        lemma_product_of_sum(keep, act, kq, i, j, dim);
        lemma_mixed_product(selector(0), sc, identity_matrix(), st, d1, i, j, 2);
        lemma_mixed_product(selector(1), sc, m, st, d1, i, j, 2);
        lemma_mixed_product(so, selector(0), st, identity_matrix(), d1, i, j, 2);
        lemma_mixed_product(so, selector(1), st, m, d1, i, j, 2);
        lemma_identity_product(st, i % d, j % d, d1);
        // The products of the selectors with the operator on the control.
        lemma_product_two(selector(0), sc);
        lemma_product_two(selector(1), sc);
        lemma_product_two(so, selector(0));
        lemma_product_two(so, selector(1));
        crate::unitary::lemma_string_entry_one(seq![control], 0, j / d);
        crate::unitary::lemma_string_entry_one(seq![control], 1, j / d);
        crate::unitary::lemma_string_entry_one(seq![other], i / d, 0);
        crate::unitary::lemma_string_entry_one(seq![other], i / d, 1);
        let keep_left = product_entry(selector(0), sc, i / d, j / d, 2);
        let act_left = product_entry(selector(1), sc, i / d, j / d, 2);
        let keep_right = product_entry(so, selector(0), i / d, j / d, 2);
        let act_right = product_entry(so, selector(1), i / d, j / d, 2);
        assert(keep_left == keep_right);
        assert(act_left == act_right.signed(flip));
        let moved_left = product_entry(m, st, i % d, j % d, d1);
        let moved_right = product_entry(st, m, i % d, j % d, d1);
        assert(moved_left == moved_right.signed(flip));
        lemma_signed_times(act_right, moved_right, flip, flip);
    }
}

/// The conjugation rule of two gates side by side is conjugation with the tensor
/// product of their matrices, where the rule of each of the two is conjugation with
/// its matrix: for a string `p` on which both rules have an image as long as their
/// part of `p`, carried by `m0` and `m1`, the image under the rule of the two gates
/// together is carried by the tensor product of `m0` and `m1`.
pub proof fn lemma_kron_matrix<G0: Gate, G1: Gate>(
    gate: Kron<G0, G1>,
    m0: spec_fn(int, int) -> Gauss,
    m1: spec_fn(int, int) -> Gauss,
    p: Seq<PauliOp>,
)
    requires
        p.len() == gate.arity(),
        gate.first().conjugation(p.take(gate.first().arity() as int)) matches Some(head)
            && head.0.len() == gate.first().arity() && carries(
            m0,
            pow2(gate.first().arity()),
            p.take(gate.first().arity() as int),
            head.0,
            head.1,
        ),
        gate.second().conjugation(p.skip(gate.first().arity() as int)) matches Some(tail)
            && tail.0.len() == gate.second().arity() && carries(
            m1,
            pow2(gate.second().arity()),
            p.skip(gate.first().arity() as int),
            tail.0,
            tail.1,
        ),
    ensures
        gate.conjugation(p) matches Some(image) && carries(
            kron(m0, m1, pow2(gate.second().arity())),
            pow2(gate.arity()),
            p,
            image.0,
            image.1,
        ),
{
    let n0 = gate.first().arity() as int;
    let head = gate.first().conjugation(p.take(n0)).unwrap();
    let tail = gate.second().conjugation(p.skip(n0)).unwrap();
    assert(p =~= p.take(n0) + p.skip(n0));
    lemma_kron_carries(m0, p.take(n0), head.0, head.1, m1, p.skip(n0), tail.0, tail.1);
}

/// The conjugation rule of a gate under a control is conjugation with the matrix of
/// that gate under a control, where the rule of that gate itself is conjugation
/// with its matrix: for a string `p` that has an image under the rule of the controlled
/// gate, with the part on the targets carried by `m`, the image is carried by `m`
/// under a control.
pub proof fn lemma_controlled_matrix<G: Gate>(
    gate: C<G>,
    m: spec_fn(int, int) -> Gauss,
    p: Seq<PauliOp>,
)
    requires
        p.len() == gate.arity(),
        gate.conjugation(p) is Some,
        gate.target().conjugation(p.skip(1)) matches Some(image) && carries(
            m,
            pow2(gate.target().arity()),
            p.skip(1),
            image.0,
            image.1,
        ),
    ensures
        gate.conjugation(p) matches Some(image) && carries(
            controlled(m, pow2(gate.target().arity())),
            pow2(gate.arity()),
            p,
            image.0,
            image.1,
        ),
{
    let target = p.skip(1);
    let moved = gate.target().conjugation(target).unwrap();
    assert(p =~= seq![p[0]] + target);
    lemma_controlled_carries(m, p[0], target, moved.1);
    assert(1 + target.len() == gate.arity());
}

} // verus!
