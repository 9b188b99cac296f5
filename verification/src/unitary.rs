//! The matrices of the Clifford gates, and the law that ties the conjugation rules
//! to them.
//!
//! Each matrix has whole complex entries and is the unitary of its gate times a
//! number other than zero: conjugation with a matrix and with a multiple of it are
//! the same. The gates with such a matrix are the Pauli gates, the Hadamard gate,
//! the `S` and `V` gates with their conjugates, and the controlled Pauli gates.

use vstd::prelude::*;
use crate::gates::CX;
use crate::gates::CY;
use crate::gates::CZ;
use crate::gates::Gate;
use crate::gates::H;
use crate::gates::I;
use crate::gates::S;
use crate::gates::Sdg;
use crate::gates::V;
use crate::gates::Vdg;
use crate::gates::X;
use crate::gates::Y;
use crate::gates::Z;
use crate::stabilizer::PauliOp;

verus! {

/// A complex number with whole parts.
pub struct Gauss {
    /// The real part
    pub re: int,
    /// The imaginary part
    pub im: int,
}

impl Gauss {
    /// The sum of two numbers.
    pub open spec fn plus(self, other: Gauss) -> Gauss {
        Gauss { re: self.re + other.re, im: self.im + other.im }
    }

    /// The product of two numbers.
    pub open spec fn times(self, other: Gauss) -> Gauss {
        Gauss {
            re: self.re * other.re - self.im * other.im,
            im: self.re * other.im + self.im * other.re,
        }
    }

    /// The number with the opposite sign.
    pub open spec fn negated(self) -> Gauss {
        Gauss { re: -self.re, im: -self.im }
    }

    /// The complex conjugate.
    pub open spec fn conjugate(self) -> Gauss {
        Gauss { re: self.re, im: -self.im }
    }

    /// The number with the opposite sign where `flip` holds, the number itself where
    /// it does not.
    pub open spec fn signed(self, flip: bool) -> Gauss {
        if flip {
            self.negated()
        } else {
            self
        }
    }
}

/// The real number `re`.
pub open spec fn whole(re: int) -> Gauss {
    Gauss { re: re, im: 0 }
}

/// The imaginary number `im` times i.
pub open spec fn imaginary(im: int) -> Gauss {
    Gauss { re: 0, im: im }
}

/// The entry in row `i` and column `j` of the matrix of the Pauli operator `op`.
pub open spec fn pauli_entry(op: PauliOp, i: int, j: int) -> Gauss {
    match op {
        PauliOp::I => if i == j {
            whole(1)
        } else {
            whole(0)
        },
        PauliOp::Z => if i != j {
            whole(0)
        } else if i == 0 {
            whole(1)
        } else {
            whole(-1)
        },
        PauliOp::X => if i != j {
            whole(1)
        } else {
            whole(0)
        },
        PauliOp::Y => if i == j {
            whole(0)
        } else if i == 0 {
            imaginary(-1)
        } else {
            imaginary(1)
        },
    }
}

/// The entry in row `i` and column `j` of the matrix of the Pauli string `ops`: the
/// tensor product of the matrices of its operators, with the first operator on the
/// most significant bit of the row and column numbers.
pub open spec fn string_entry(ops: Seq<PauliOp>, i: int, j: int) -> Gauss
    decreases ops.len(),
{
    if ops.len() == 0 {
        if i == j {
            whole(1)
        } else {
            whole(0)
        }
    } else {
        string_entry(ops.drop_last(), i / 2, j / 2).times(pauli_entry(ops.last(), i % 2, j % 2))
    }
}

/// The matrix of the Pauli string `ops`.
pub open spec fn string_matrix(ops: Seq<PauliOp>) -> spec_fn(int, int) -> Gauss {
    |i: int, j: int| string_entry(ops, i, j)
}

/// The conjugate transpose of the matrix `m`.
pub open spec fn adjoint(m: spec_fn(int, int) -> Gauss) -> spec_fn(int, int) -> Gauss {
    |i: int, j: int| m(j, i).conjugate()
}

/// The sum of the products of the first `k` entries of row `i` of `a` with the
/// first `k` entries of column `j` of `b`; with `k` the dimension, the entry of the
/// product of `a` and `b`.
pub open spec fn product_entry(
    a: spec_fn(int, int) -> Gauss,
    b: spec_fn(int, int) -> Gauss,
    i: int,
    j: int,
    k: nat,
) -> Gauss
    decreases k,
{
    if k == 0 {
        whole(0)
    } else {
        product_entry(a, b, i, j, (k - 1) as nat).plus(a(i, k - 1).times(b(k - 1, j)))
    }
}

/// The matrix `m` of dimension `dim` is a unitary times the square root of the
/// positive number `scale`: its product with its conjugate transpose is `scale`
/// times the identity.
pub open spec fn scaled_unitary(m: spec_fn(int, int) -> Gauss, dim: nat, scale: int) -> bool {
    &&& scale > 0
    &&& forall|i: int, j: int|
        0 <= i < dim && 0 <= j < dim ==> #[trigger] product_entry(m, adjoint(m), i, j, dim) == (
        if i == j {
            whole(scale)
        } else {
            whole(0)
        })
}

/// Conjugation with the matrix `m` of dimension `dim` carries the Pauli string `p`
/// to the string `image`, with the opposite sign where `flip` holds: `m` times the
/// matrix of `p` is the signed matrix of `image` times `m`.
pub open spec fn carries(
    m: spec_fn(int, int) -> Gauss,
    dim: nat,
    p: Seq<PauliOp>,
    image: Seq<PauliOp>,
    flip: bool,
) -> bool {
    forall|i: int, j: int|
        0 <= i < dim && 0 <= j < dim ==> #[trigger] product_entry(m, string_matrix(p), i, j, dim)
            == product_entry(string_matrix(image), m, i, j, dim).signed(flip)
}

/// The square of the matrix `m` of dimension `dim` is the matrix `square` times the
/// number `factor`, which is not zero.
pub open spec fn squares_to(
    m: spec_fn(int, int) -> Gauss,
    square: spec_fn(int, int) -> Gauss,
    dim: nat,
    factor: Gauss,
) -> bool {
    &&& factor != whole(0)
    &&& forall|i: int, j: int|
        0 <= i < dim && 0 <= j < dim ==> #[trigger] product_entry(m, m, i, j, dim) == square(
            i,
            j,
        ).times(factor)
}

/// The matrix of a string of one operator is the matrix of that operator.
pub proof fn lemma_string_entry_one(ops: Seq<PauliOp>, i: int, j: int)
    requires
        ops.len() == 1,
        0 <= i < 2,
        0 <= j < 2,
    ensures
        string_entry(ops, i, j) == pauli_entry(ops[0], i, j),
{
    let x = pauli_entry(ops[0], i, j);
    assert(ops.drop_last().len() == 0);
    assert(string_entry(ops.drop_last(), i / 2, j / 2) == whole(1));
    assert(string_entry(ops, i, j) == whole(1).times(pauli_entry(ops.last(), i % 2, j % 2)));
    lemma_small_product(1, x.re);
    lemma_small_product(0, x.im);
    lemma_small_product(1, x.im);
    lemma_small_product(0, x.re);
    assert(whole(1).times(x) == x);
}

/// The matrix of a string of two operators is the tensor product of their matrices.
pub proof fn lemma_string_entry_two(ops: Seq<PauliOp>, i: int, j: int)
    requires
        ops.len() == 2,
        0 <= i < 4,
        0 <= j < 4,
    ensures
        string_entry(ops, i, j) == pauli_entry(ops[0], i / 2, j / 2).times(
            pauli_entry(ops[1], i % 2, j % 2),
        ),
{
    lemma_string_entry_one(ops.drop_last(), i / 2, j / 2);
}

/// The product of a whole number that is 0, 1 or -1 with another.
proof fn lemma_small_product(a: int, b: int)
    ensures
        a == 0 ==> a * b == 0,
        a == 1 ==> a * b == b,
        a == -1 ==> a * b == -b,
{
    assert(a == 0 ==> a * b == 0) by (nonlinear_arith);
    assert(a == 1 ==> a * b == b) by (nonlinear_arith);
    assert(a == -1 ==> a * b == -b) by (nonlinear_arith);
}

/// The products of 0, 1, -1, i and -i with a number: nothing, the number, its
/// opposite, and its quarter turns to the left and to the right.
pub proof fn lemma_unit_products()
    ensures
        forall|x: Gauss, y: Gauss|
            #![trigger x.times(y)]
            {
                &&& x == whole(0) ==> x.times(y) == whole(0)
                &&& x == whole(1) ==> x.times(y) == y
                &&& x == whole(-1) ==> x.times(y) == y.negated()
                &&& x == imaginary(1) ==> x.times(y) == (Gauss { re: -y.im, im: y.re })
                &&& x == imaginary(-1) ==> x.times(y) == (Gauss { re: y.im, im: -y.re })
            },
{
    assert forall|x: Gauss, y: Gauss| #![trigger x.times(y)] {
        &&& x == whole(0) ==> x.times(y) == whole(0)
        &&& x == whole(1) ==> x.times(y) == y
        &&& x == whole(-1) ==> x.times(y) == y.negated()
        &&& x == imaginary(1) ==> x.times(y) == (Gauss { re: -y.im, im: y.re })
        &&& x == imaginary(-1) ==> x.times(y) == (Gauss { re: y.im, im: -y.re })
    } by {
        lemma_small_product(x.re, y.re);
        lemma_small_product(x.im, y.im);
        lemma_small_product(x.re, y.im);
        lemma_small_product(x.im, y.re);
    }
}

/// The entries of a product of matrices of dimension 2, written out.
pub proof fn lemma_product_two(a: spec_fn(int, int) -> Gauss, b: spec_fn(int, int) -> Gauss)
    ensures
        forall|i: int, j: int| #[trigger]
            product_entry(a, b, i, j, 2) == whole(0).plus(a(i, 0).times(b(0, j))).plus(
                a(i, 1).times(b(1, j)),
            ),
{
    reveal_with_fuel(product_entry, 3);
}

/// The entries of a product of matrices of dimension 4, written out.
pub proof fn lemma_product_four(a: spec_fn(int, int) -> Gauss, b: spec_fn(int, int) -> Gauss)
    ensures
        forall|i: int, j: int| #[trigger]
            product_entry(a, b, i, j, 4) == whole(0).plus(a(i, 0).times(b(0, j))).plus(
                a(i, 1).times(b(1, j)),
            ).plus(a(i, 2).times(b(2, j))).plus(a(i, 3).times(b(3, j))),
{
    reveal_with_fuel(product_entry, 5);
}

/// The matrix of the identity gate.
pub open spec fn matrix_i() -> spec_fn(int, int) -> Gauss {
    |i: int, j: int| pauli_entry(PauliOp::I, i, j)
}

/// The conjugation rule of the identity gate is conjugation with its matrix.
pub proof fn lemma_i_matrix(p: Seq<PauliOp>)
    requires
        p.len() == 1,
    ensures
        scaled_unitary(matrix_i(), 2, 1),
        (I {  }).conjugation(p) matches Some(image) && carries(
            matrix_i(),
            2,
            p,
            image.0,
            image.1,
        ),
{
    lemma_unit_products();
    let m = matrix_i();
    let image = (I {  }).conjugation(p).unwrap();
    let a = string_matrix(p);
    let b = string_matrix(image.0);
    lemma_product_two(m, adjoint(m));
    lemma_product_two(m, a);
    lemma_product_two(b, m);
    assert forall|i: int, j: int| 0 <= i < 2 && 0 <= j < 2 implies #[trigger] product_entry(
        m,
        a,
        i,
        j,
        2,
    ) == product_entry(b, m, i, j, 2).signed(image.1) by {
        lemma_string_entry_one(p, 0, j);
        lemma_string_entry_one(p, 1, j);
        lemma_string_entry_one(image.0, i, 0);
        lemma_string_entry_one(image.0, i, 1);
    }
}

/// The matrix of the `X` gate.
pub open spec fn matrix_x() -> spec_fn(int, int) -> Gauss {
    |i: int, j: int| pauli_entry(PauliOp::X, i, j)
}

/// The conjugation rule of the `X` gate is conjugation with its matrix.
pub proof fn lemma_x_matrix(p: Seq<PauliOp>)
    requires
        p.len() == 1,
    ensures
        scaled_unitary(matrix_x(), 2, 1),
        (X {  }).conjugation(p) matches Some(image) && carries(
            matrix_x(),
            2,
            p,
            image.0,
            image.1,
        ),
{
    lemma_unit_products();
    let m = matrix_x();
    let image = (X {  }).conjugation(p).unwrap();
    let a = string_matrix(p);
    let b = string_matrix(image.0);
    lemma_product_two(m, adjoint(m));
    lemma_product_two(m, a);
    lemma_product_two(b, m);
    assert forall|i: int, j: int| 0 <= i < 2 && 0 <= j < 2 implies #[trigger] product_entry(
        m,
        a,
        i,
        j,
        2,
    ) == product_entry(b, m, i, j, 2).signed(image.1) by {
        lemma_string_entry_one(p, 0, j);
        lemma_string_entry_one(p, 1, j);
        lemma_string_entry_one(image.0, i, 0);
        lemma_string_entry_one(image.0, i, 1);
    }
}

/// The matrix of the `Y` gate.
pub open spec fn matrix_y() -> spec_fn(int, int) -> Gauss {
    |i: int, j: int| pauli_entry(PauliOp::Y, i, j)
}

/// The conjugation rule of the `Y` gate is conjugation with its matrix.
pub proof fn lemma_y_matrix(p: Seq<PauliOp>)
    requires
        p.len() == 1,
    ensures
        scaled_unitary(matrix_y(), 2, 1),
        (Y {  }).conjugation(p) matches Some(image) && carries(
            matrix_y(),
            2,
            p,
            image.0,
            image.1,
        ),
{
    lemma_unit_products();
    let m = matrix_y();
    let image = (Y {  }).conjugation(p).unwrap();
    let a = string_matrix(p);
    let b = string_matrix(image.0);
    lemma_product_two(m, adjoint(m));
    lemma_product_two(m, a);
    lemma_product_two(b, m);
    assert forall|i: int, j: int| 0 <= i < 2 && 0 <= j < 2 implies #[trigger] product_entry(
        m,
        a,
        i,
        j,
        2,
    ) == product_entry(b, m, i, j, 2).signed(image.1) by {
        lemma_string_entry_one(p, 0, j);
        lemma_string_entry_one(p, 1, j);
        lemma_string_entry_one(image.0, i, 0);
        lemma_string_entry_one(image.0, i, 1);
    }
}

/// The matrix of the `Z` gate.
pub open spec fn matrix_z() -> spec_fn(int, int) -> Gauss {
    |i: int, j: int| pauli_entry(PauliOp::Z, i, j)
}

/// The conjugation rule of the `Z` gate is conjugation with its matrix.
pub proof fn lemma_z_matrix(p: Seq<PauliOp>)
    requires
        p.len() == 1,
    ensures
        scaled_unitary(matrix_z(), 2, 1),
        (Z {  }).conjugation(p) matches Some(image) && carries(
            matrix_z(),
            2,
            p,
            image.0,
            image.1,
        ),
{
    lemma_unit_products();
    let m = matrix_z();
    let image = (Z {  }).conjugation(p).unwrap();
    let a = string_matrix(p);
    let b = string_matrix(image.0);
    lemma_product_two(m, adjoint(m));
    lemma_product_two(m, a);
    lemma_product_two(b, m);
    assert forall|i: int, j: int| 0 <= i < 2 && 0 <= j < 2 implies #[trigger] product_entry(
        m,
        a,
        i,
        j,
        2,
    ) == product_entry(b, m, i, j, 2).signed(image.1) by {
        lemma_string_entry_one(p, 0, j);
        lemma_string_entry_one(p, 1, j);
        lemma_string_entry_one(image.0, i, 0);
        lemma_string_entry_one(image.0, i, 1);
    }
}

/// The matrix of the Hadamard gate, times the square root of 2.
pub open spec fn matrix_h() -> spec_fn(int, int) -> Gauss {
    |i: int, j: int|
        if i == 1 && j == 1 {
            whole(-1)
        } else {
            whole(1)
        }
}

/// The conjugation rule of the Hadamard gate is conjugation with its matrix.
pub proof fn lemma_h_matrix(p: Seq<PauliOp>)
    requires
        p.len() == 1,
    ensures
        scaled_unitary(matrix_h(), 2, 2),
        (H {  }).conjugation(p) matches Some(image) && carries(
            matrix_h(),
            2,
            p,
            image.0,
            image.1,
        ),
{
    lemma_unit_products();
    let m = matrix_h();
    let image = (H {  }).conjugation(p).unwrap();
    let a = string_matrix(p);
    let b = string_matrix(image.0);
    lemma_product_two(m, adjoint(m));
    lemma_product_two(m, a);
    lemma_product_two(b, m);
    assert forall|i: int, j: int| 0 <= i < 2 && 0 <= j < 2 implies #[trigger] product_entry(
        m,
        a,
        i,
        j,
        2,
    ) == product_entry(b, m, i, j, 2).signed(image.1) by {
        lemma_string_entry_one(p, 0, j);
        lemma_string_entry_one(p, 1, j);
        lemma_string_entry_one(image.0, i, 0);
        lemma_string_entry_one(image.0, i, 1);
    }
}

/// The matrix of the `S` gate.
pub open spec fn matrix_s() -> spec_fn(int, int) -> Gauss {
    |i: int, j: int|
        if i != j {
            whole(0)
        } else if i == 0 {
            whole(1)
        } else {
            imaginary(1)
        }
}

/// The conjugation rule of the `S` gate is conjugation with its matrix.
pub proof fn lemma_s_matrix(p: Seq<PauliOp>)
    requires
        p.len() == 1,
    ensures
        scaled_unitary(matrix_s(), 2, 1),
        (S {  }).conjugation(p) matches Some(image) && carries(
            matrix_s(),
            2,
            p,
            image.0,
            image.1,
        ),
{
    lemma_unit_products();
    let m = matrix_s();
    let image = (S {  }).conjugation(p).unwrap();
    let a = string_matrix(p);
    let b = string_matrix(image.0);
    lemma_product_two(m, adjoint(m));
    lemma_product_two(m, a);
    lemma_product_two(b, m);
    assert forall|i: int, j: int| 0 <= i < 2 && 0 <= j < 2 implies #[trigger] product_entry(
        m,
        a,
        i,
        j,
        2,
    ) == product_entry(b, m, i, j, 2).signed(image.1) by {
        lemma_string_entry_one(p, 0, j);
        lemma_string_entry_one(p, 1, j);
        lemma_string_entry_one(image.0, i, 0);
        lemma_string_entry_one(image.0, i, 1);
    }
}

/// The matrix of the conjugate of the `S` gate.
pub open spec fn matrix_sdg() -> spec_fn(int, int) -> Gauss {
    |i: int, j: int|
        if i != j {
            whole(0)
        } else if i == 0 {
            whole(1)
        } else {
            imaginary(-1)
        }
}

/// The conjugation rule of the conjugate of the `S` gate is conjugation with its matrix.
pub proof fn lemma_sdg_matrix(p: Seq<PauliOp>)
    requires
        p.len() == 1,
    ensures
        scaled_unitary(matrix_sdg(), 2, 1),
        (Sdg {  }).conjugation(p) matches Some(image) && carries(
            matrix_sdg(),
            2,
            p,
            image.0,
            image.1,
        ),
{
    lemma_unit_products();
    let m = matrix_sdg();
    let image = (Sdg {  }).conjugation(p).unwrap();
    let a = string_matrix(p);
    let b = string_matrix(image.0);
    lemma_product_two(m, adjoint(m));
    lemma_product_two(m, a);
    lemma_product_two(b, m);
    assert forall|i: int, j: int| 0 <= i < 2 && 0 <= j < 2 implies #[trigger] product_entry(
        m,
        a,
        i,
        j,
        2,
    ) == product_entry(b, m, i, j, 2).signed(image.1) by {
        lemma_string_entry_one(p, 0, j);
        lemma_string_entry_one(p, 1, j);
        lemma_string_entry_one(image.0, i, 0);
        lemma_string_entry_one(image.0, i, 1);
    }
}

/// The matrix of the `V` gate, times 1 - i.
pub open spec fn matrix_v() -> spec_fn(int, int) -> Gauss {
    |i: int, j: int|
        if i == j {
            whole(1)
        } else {
            imaginary(-1)
        }
}

/// The conjugation rule of the `V` gate is conjugation with its matrix.
pub proof fn lemma_v_matrix(p: Seq<PauliOp>)
    requires
        p.len() == 1,
    ensures
        scaled_unitary(matrix_v(), 2, 2),
        (V {  }).conjugation(p) matches Some(image) && carries(
            matrix_v(),
            2,
            p,
            image.0,
            image.1,
        ),
{
    lemma_unit_products();
    let m = matrix_v();
    let image = (V {  }).conjugation(p).unwrap();
    let a = string_matrix(p);
    let b = string_matrix(image.0);
    lemma_product_two(m, adjoint(m));
    lemma_product_two(m, a);
    lemma_product_two(b, m);
    assert forall|i: int, j: int| 0 <= i < 2 && 0 <= j < 2 implies #[trigger] product_entry(
        m,
        a,
        i,
        j,
        2,
    ) == product_entry(b, m, i, j, 2).signed(image.1) by {
        lemma_string_entry_one(p, 0, j);
        lemma_string_entry_one(p, 1, j);
        lemma_string_entry_one(image.0, i, 0);
        lemma_string_entry_one(image.0, i, 1);
    }
}

/// The matrix of the conjugate of the `V` gate, times 1 + i.
pub open spec fn matrix_vdg() -> spec_fn(int, int) -> Gauss {
    |i: int, j: int|
        if i == j {
            whole(1)
        } else {
            imaginary(1)
        }
}

/// The conjugation rule of the conjugate of the `V` gate is conjugation with its matrix.
pub proof fn lemma_vdg_matrix(p: Seq<PauliOp>)
    requires
        p.len() == 1,
    ensures
        scaled_unitary(matrix_vdg(), 2, 2),
        (Vdg {  }).conjugation(p) matches Some(image) && carries(
            matrix_vdg(),
            2,
            p,
            image.0,
            image.1,
        ),
{
    lemma_unit_products();
    let m = matrix_vdg();
    let image = (Vdg {  }).conjugation(p).unwrap();
    let a = string_matrix(p);
    let b = string_matrix(image.0);
    lemma_product_two(m, adjoint(m));
    lemma_product_two(m, a);
    lemma_product_two(b, m);
    assert forall|i: int, j: int| 0 <= i < 2 && 0 <= j < 2 implies #[trigger] product_entry(
        m,
        a,
        i,
        j,
        2,
    ) == product_entry(b, m, i, j, 2).signed(image.1) by {
        lemma_string_entry_one(p, 0, j);
        lemma_string_entry_one(p, 1, j);
        lemma_string_entry_one(image.0, i, 0);
        lemma_string_entry_one(image.0, i, 1);
    }
}

/// The square of the identity gate is the identity gate: the square of its matrix is a
/// multiple of the matrix of the identity gate.
pub proof fn lemma_i_square()
    ensures
        squares_to(matrix_i(), matrix_i(), 2, whole(1)),
{
    lemma_unit_products();
    lemma_product_two(matrix_i(), matrix_i());
}

/// The square of the `X` gate is the identity gate: the square of its matrix is a
/// multiple of the matrix of the identity gate.
pub proof fn lemma_x_square()
    ensures
        squares_to(matrix_x(), matrix_i(), 2, whole(1)),
{
    lemma_unit_products();
    lemma_product_two(matrix_x(), matrix_x());
}

/// The square of the `Y` gate is the identity gate: the square of its matrix is a
/// multiple of the matrix of the identity gate.
pub proof fn lemma_y_square()
    ensures
        squares_to(matrix_y(), matrix_i(), 2, whole(1)),
{
    lemma_unit_products();
    lemma_product_two(matrix_y(), matrix_y());
}

/// The square of the `Z` gate is the identity gate: the square of its matrix is a
/// multiple of the matrix of the identity gate.
pub proof fn lemma_z_square()
    ensures
        squares_to(matrix_z(), matrix_i(), 2, whole(1)),
{
    lemma_unit_products();
    lemma_product_two(matrix_z(), matrix_z());
}

/// The square of the Hadamard gate is the identity gate: the square of its matrix is a
/// multiple of the matrix of the identity gate.
pub proof fn lemma_h_square()
    ensures
        squares_to(matrix_h(), matrix_i(), 2, whole(2)),
{
    lemma_unit_products();
    lemma_product_two(matrix_h(), matrix_h());
}

/// The square of the `S` gate is the `Z` gate: the square of its matrix is a
/// multiple of the matrix of the `Z` gate.
pub proof fn lemma_s_square()
    ensures
        squares_to(matrix_s(), matrix_z(), 2, whole(1)),
{
    lemma_unit_products();
    lemma_product_two(matrix_s(), matrix_s());
}

/// The square of the conjugate of the `S` gate is the `Z` gate: the square of its matrix is a
/// multiple of the matrix of the `Z` gate.
pub proof fn lemma_sdg_square()
    ensures
        squares_to(matrix_sdg(), matrix_z(), 2, whole(1)),
{
    lemma_unit_products();
    lemma_product_two(matrix_sdg(), matrix_sdg());
}

/// The square of the `V` gate is the `X` gate: the square of its matrix is a
/// multiple of the matrix of the `X` gate.
pub proof fn lemma_v_square()
    ensures
        squares_to(matrix_v(), matrix_x(), 2, imaginary(-2)),
{
    lemma_unit_products();
    lemma_product_two(matrix_v(), matrix_v());
}

/// The square of the conjugate of the `V` gate is the `X` gate: the square of its matrix is a
/// multiple of the matrix of the `X` gate.
pub proof fn lemma_vdg_square()
    ensures
        squares_to(matrix_vdg(), matrix_x(), 2, imaginary(2)),
{
    lemma_unit_products();
    lemma_product_two(matrix_vdg(), matrix_vdg());
}

/// The matrix of the controlled `X` gate: the identity where the control is 0, the
/// `X` gate on the target where it is 1.
pub open spec fn matrix_cx() -> spec_fn(int, int) -> Gauss {
    |i: int, j: int|
        if i < 2 || j < 2 {
            if i == j {
                whole(1)
            } else {
                whole(0)
            }
        } else {
            pauli_entry(PauliOp::X, i - 2, j - 2)
        }
}

/// The matrix of the controlled `X` gate is unitary.
pub proof fn lemma_cx_unitary()
    ensures
        scaled_unitary(matrix_cx(), 4, 1),
{
    lemma_unit_products();
    let m = matrix_cx();
    lemma_product_four(m, adjoint(m));
    assert forall|i: int, j: int| 0 <= i < 4 && 0 <= j < 4 implies #[trigger] product_entry(
        m,
        adjoint(m),
        i,
        j,
        4,
    ) == (if i == j {
        whole(1)
    } else {
        whole(0)
    }) by {
        assert(i == 0 || i == 1 || i == 2 || i == 3);
        assert(j == 0 || j == 1 || j == 2 || j == 3);
    }
}

/// Row `i` and column `j` of what conjugation with the matrix of the controlled `X` gate
/// asks of a string with `I` on the control and of its image.
proof fn lemma_cx_entry_i(target: PauliOp, i: int, j: int)
    requires
        0 <= i < 4,
        0 <= j < 4,
    ensures
        product_entry(matrix_cx(), string_matrix(seq![PauliOp::I, target]), i, j, 4)
            == product_entry(
            string_matrix(
                seq![CX::image(PauliOp::I, target).0, CX::image(PauliOp::I, target).1],
            ),
            matrix_cx(),
            i,
            j,
            4,
        ).signed(CX::image(PauliOp::I, target).2),
{
    lemma_unit_products();
    let m = matrix_cx();
    let p = seq![PauliOp::I, target];
    let q = seq![CX::image(PauliOp::I, target).0, CX::image(PauliOp::I, target).1];
    let a = string_matrix(p);
    let b = string_matrix(q);
    lemma_product_four(m, a);
    lemma_product_four(b, m);
    lemma_string_entry_two(p, 0, j);
    lemma_string_entry_two(p, 1, j);
    lemma_string_entry_two(p, 2, j);
    lemma_string_entry_two(p, 3, j);
    lemma_string_entry_two(q, i, 0);
    lemma_string_entry_two(q, i, 1);
    lemma_string_entry_two(q, i, 2);
    lemma_string_entry_two(q, i, 3);
}

/// Row `i` and column `j` of what conjugation with the matrix of the controlled `X` gate
/// asks of a string with `Z` on the control and of its image.
proof fn lemma_cx_entry_z(target: PauliOp, i: int, j: int)
    requires
        0 <= i < 4,
        0 <= j < 4,
    ensures
        product_entry(matrix_cx(), string_matrix(seq![PauliOp::Z, target]), i, j, 4)
            == product_entry(
            string_matrix(
                seq![CX::image(PauliOp::Z, target).0, CX::image(PauliOp::Z, target).1],
            ),
            matrix_cx(),
            i,
            j,
            4,
        ).signed(CX::image(PauliOp::Z, target).2),
{
    lemma_unit_products();
    let m = matrix_cx();
    let p = seq![PauliOp::Z, target];
    let q = seq![CX::image(PauliOp::Z, target).0, CX::image(PauliOp::Z, target).1];
    let a = string_matrix(p);
    let b = string_matrix(q);
    lemma_product_four(m, a);
    lemma_product_four(b, m);
    lemma_string_entry_two(p, 0, j);
    lemma_string_entry_two(p, 1, j);
    lemma_string_entry_two(p, 2, j);
    lemma_string_entry_two(p, 3, j);
    lemma_string_entry_two(q, i, 0);
    lemma_string_entry_two(q, i, 1);
    lemma_string_entry_two(q, i, 2);
    lemma_string_entry_two(q, i, 3);
}

/// Row `i` and column `j` of what conjugation with the matrix of the controlled `X` gate
/// asks of a string with `X` on the control and of its image.
proof fn lemma_cx_entry_x(target: PauliOp, i: int, j: int)
    requires
        0 <= i < 4,
        0 <= j < 4,
    ensures
        product_entry(matrix_cx(), string_matrix(seq![PauliOp::X, target]), i, j, 4)
            == product_entry(
            string_matrix(
                seq![CX::image(PauliOp::X, target).0, CX::image(PauliOp::X, target).1],
            ),
            matrix_cx(),
            i,
            j,
            4,
        ).signed(CX::image(PauliOp::X, target).2),
{
    lemma_unit_products();
    let m = matrix_cx();
    let p = seq![PauliOp::X, target];
    let q = seq![CX::image(PauliOp::X, target).0, CX::image(PauliOp::X, target).1];
    let a = string_matrix(p);
    let b = string_matrix(q);
    lemma_product_four(m, a);
    lemma_product_four(b, m);
    lemma_string_entry_two(p, 0, j);
    lemma_string_entry_two(p, 1, j);
    lemma_string_entry_two(p, 2, j);
    lemma_string_entry_two(p, 3, j);
    lemma_string_entry_two(q, i, 0);
    lemma_string_entry_two(q, i, 1);
    lemma_string_entry_two(q, i, 2);
    lemma_string_entry_two(q, i, 3);
}

/// Row `i` and column `j` of what conjugation with the matrix of the controlled `X` gate
/// asks of a string with `Y` on the control and of its image.
proof fn lemma_cx_entry_y(target: PauliOp, i: int, j: int)
    requires
        0 <= i < 4,
        0 <= j < 4,
    ensures
        product_entry(matrix_cx(), string_matrix(seq![PauliOp::Y, target]), i, j, 4)
            == product_entry(
            string_matrix(
                seq![CX::image(PauliOp::Y, target).0, CX::image(PauliOp::Y, target).1],
            ),
            matrix_cx(),
            i,
            j,
            4,
        ).signed(CX::image(PauliOp::Y, target).2),
{
    lemma_unit_products();
    let m = matrix_cx();
    let p = seq![PauliOp::Y, target];
    let q = seq![CX::image(PauliOp::Y, target).0, CX::image(PauliOp::Y, target).1];
    let a = string_matrix(p);
    let b = string_matrix(q);
    lemma_product_four(m, a);
    lemma_product_four(b, m);
    lemma_string_entry_two(p, 0, j);
    lemma_string_entry_two(p, 1, j);
    lemma_string_entry_two(p, 2, j);
    lemma_string_entry_two(p, 3, j);
    lemma_string_entry_two(q, i, 0);
    lemma_string_entry_two(q, i, 1);
    lemma_string_entry_two(q, i, 2);
    lemma_string_entry_two(q, i, 3);
}

/// The conjugation rule of the controlled `X` gate is conjugation with its matrix.
pub proof fn lemma_cx_matrix(p: Seq<PauliOp>)
    requires
        p.len() == 2,
    ensures
        scaled_unitary(matrix_cx(), 4, 1),
        (CX {  }).conjugation(p) matches Some(image) && carries(
            matrix_cx(),
            4,
            p,
            image.0,
            image.1,
        ),
{
    lemma_cx_unitary();
    let image = (CX {  }).conjugation(p).unwrap();
    let q = seq![CX::image(p[0], p[1]).0, CX::image(p[0], p[1]).1];
    assert(p =~= seq![p[0], p[1]]);
    assert(image.0 =~= q);
    assert forall|i: int, j: int| 0 <= i < 4 && 0 <= j < 4 implies #[trigger] product_entry(
        matrix_cx(),
        string_matrix(p),
        i,
        j,
        4,
    ) == product_entry(string_matrix(image.0), matrix_cx(), i, j, 4).signed(image.1) by {
        match p[0] {
            PauliOp::I => {
                lemma_cx_entry_i(p[1], i, j);
            },
            PauliOp::Z => {
                lemma_cx_entry_z(p[1], i, j);
            },
            PauliOp::X => {
                lemma_cx_entry_x(p[1], i, j);
            },
            PauliOp::Y => {
                lemma_cx_entry_y(p[1], i, j);
            },
        }
    }
}

/// The matrix of the controlled `Y` gate: the identity where the control is 0, the
/// `Y` gate on the target where it is 1.
pub open spec fn matrix_cy() -> spec_fn(int, int) -> Gauss {
    |i: int, j: int|
        if i < 2 || j < 2 {
            if i == j {
                whole(1)
            } else {
                whole(0)
            }
        } else {
            pauli_entry(PauliOp::Y, i - 2, j - 2)
        }
}

/// The matrix of the controlled `Y` gate is unitary.
pub proof fn lemma_cy_unitary()
    ensures
        scaled_unitary(matrix_cy(), 4, 1),
{
    lemma_unit_products();
    let m = matrix_cy();
    lemma_product_four(m, adjoint(m));
    assert forall|i: int, j: int| 0 <= i < 4 && 0 <= j < 4 implies #[trigger] product_entry(
        m,
        adjoint(m),
        i,
        j,
        4,
    ) == (if i == j {
        whole(1)
    } else {
        whole(0)
    }) by {
        assert(i == 0 || i == 1 || i == 2 || i == 3);
        assert(j == 0 || j == 1 || j == 2 || j == 3);
    }
}

/// Row `i` and column `j` of what conjugation with the matrix of the controlled `Y` gate
/// asks of a string with `I` on the control and of its image.
proof fn lemma_cy_entry_i(target: PauliOp, i: int, j: int)
    requires
        0 <= i < 4,
        0 <= j < 4,
    ensures
        product_entry(matrix_cy(), string_matrix(seq![PauliOp::I, target]), i, j, 4)
            == product_entry(
            string_matrix(
                seq![CY::image(PauliOp::I, target).0, CY::image(PauliOp::I, target).1],
            ),
            matrix_cy(),
            i,
            j,
            4,
        ).signed(CY::image(PauliOp::I, target).2),
{
    lemma_unit_products();
    let m = matrix_cy();
    let p = seq![PauliOp::I, target];
    let q = seq![CY::image(PauliOp::I, target).0, CY::image(PauliOp::I, target).1];
    let a = string_matrix(p);
    let b = string_matrix(q);
    lemma_product_four(m, a);
    lemma_product_four(b, m);
    lemma_string_entry_two(p, 0, j);
    lemma_string_entry_two(p, 1, j);
    lemma_string_entry_two(p, 2, j);
    lemma_string_entry_two(p, 3, j);
    lemma_string_entry_two(q, i, 0);
    lemma_string_entry_two(q, i, 1);
    lemma_string_entry_two(q, i, 2);
    lemma_string_entry_two(q, i, 3);
}

/// Row `i` and column `j` of what conjugation with the matrix of the controlled `Y` gate
/// asks of a string with `Z` on the control and of its image.
proof fn lemma_cy_entry_z(target: PauliOp, i: int, j: int)
    requires
        0 <= i < 4,
        0 <= j < 4,
    ensures
        product_entry(matrix_cy(), string_matrix(seq![PauliOp::Z, target]), i, j, 4)
            == product_entry(
            string_matrix(
                seq![CY::image(PauliOp::Z, target).0, CY::image(PauliOp::Z, target).1],
            ),
            matrix_cy(),
            i,
            j,
            4,
        ).signed(CY::image(PauliOp::Z, target).2),
{
    lemma_unit_products();
    let m = matrix_cy();
    let p = seq![PauliOp::Z, target];
    let q = seq![CY::image(PauliOp::Z, target).0, CY::image(PauliOp::Z, target).1];
    let a = string_matrix(p);
    let b = string_matrix(q);
    lemma_product_four(m, a);
    lemma_product_four(b, m);
    lemma_string_entry_two(p, 0, j);
    lemma_string_entry_two(p, 1, j);
    lemma_string_entry_two(p, 2, j);
    lemma_string_entry_two(p, 3, j);
    lemma_string_entry_two(q, i, 0);
    lemma_string_entry_two(q, i, 1);
    lemma_string_entry_two(q, i, 2);
    lemma_string_entry_two(q, i, 3);
}

/// Row `i` and column `j` of what conjugation with the matrix of the controlled `Y` gate
/// asks of a string with `X` on the control and of its image.
proof fn lemma_cy_entry_x(target: PauliOp, i: int, j: int)
    requires
        0 <= i < 4,
        0 <= j < 4,
    ensures
        product_entry(matrix_cy(), string_matrix(seq![PauliOp::X, target]), i, j, 4)
            == product_entry(
            string_matrix(
                seq![CY::image(PauliOp::X, target).0, CY::image(PauliOp::X, target).1],
            ),
            matrix_cy(),
            i,
            j,
            4,
        ).signed(CY::image(PauliOp::X, target).2),
{
    lemma_unit_products();
    let m = matrix_cy();
    let p = seq![PauliOp::X, target];
    let q = seq![CY::image(PauliOp::X, target).0, CY::image(PauliOp::X, target).1];
    let a = string_matrix(p);
    let b = string_matrix(q);
    lemma_product_four(m, a);
    lemma_product_four(b, m);
    lemma_string_entry_two(p, 0, j);
    lemma_string_entry_two(p, 1, j);
    lemma_string_entry_two(p, 2, j);
    lemma_string_entry_two(p, 3, j);
    lemma_string_entry_two(q, i, 0);
    lemma_string_entry_two(q, i, 1);
    lemma_string_entry_two(q, i, 2);
    lemma_string_entry_two(q, i, 3);
}

/// Row `i` and column `j` of what conjugation with the matrix of the controlled `Y` gate
/// asks of a string with `Y` on the control and of its image.
proof fn lemma_cy_entry_y(target: PauliOp, i: int, j: int)
    requires
        0 <= i < 4,
        0 <= j < 4,
    ensures
        product_entry(matrix_cy(), string_matrix(seq![PauliOp::Y, target]), i, j, 4)
            == product_entry(
            string_matrix(
                seq![CY::image(PauliOp::Y, target).0, CY::image(PauliOp::Y, target).1],
            ),
            matrix_cy(),
            i,
            j,
            4,
        ).signed(CY::image(PauliOp::Y, target).2),
{
    lemma_unit_products();
    let m = matrix_cy();
    let p = seq![PauliOp::Y, target];
    let q = seq![CY::image(PauliOp::Y, target).0, CY::image(PauliOp::Y, target).1];
    let a = string_matrix(p);
    let b = string_matrix(q);
    lemma_product_four(m, a);
    lemma_product_four(b, m);
    lemma_string_entry_two(p, 0, j);
    lemma_string_entry_two(p, 1, j);
    lemma_string_entry_two(p, 2, j);
    lemma_string_entry_two(p, 3, j);
    lemma_string_entry_two(q, i, 0);
    lemma_string_entry_two(q, i, 1);
    lemma_string_entry_two(q, i, 2);
    lemma_string_entry_two(q, i, 3);
}

/// The conjugation rule of the controlled `Y` gate is conjugation with its matrix.
pub proof fn lemma_cy_matrix(p: Seq<PauliOp>)
    requires
        p.len() == 2,
    ensures
        scaled_unitary(matrix_cy(), 4, 1),
        (CY {  }).conjugation(p) matches Some(image) && carries(
            matrix_cy(),
            4,
            p,
            image.0,
            image.1,
        ),
{
    lemma_cy_unitary();
    let image = (CY {  }).conjugation(p).unwrap();
    let q = seq![CY::image(p[0], p[1]).0, CY::image(p[0], p[1]).1];
    assert(p =~= seq![p[0], p[1]]);
    assert(image.0 =~= q);
    assert forall|i: int, j: int| 0 <= i < 4 && 0 <= j < 4 implies #[trigger] product_entry(
        matrix_cy(),
        string_matrix(p),
        i,
        j,
        4,
    ) == product_entry(string_matrix(image.0), matrix_cy(), i, j, 4).signed(image.1) by {
        match p[0] {
            PauliOp::I => {
                lemma_cy_entry_i(p[1], i, j);
            },
            PauliOp::Z => {
                lemma_cy_entry_z(p[1], i, j);
            },
            PauliOp::X => {
                lemma_cy_entry_x(p[1], i, j);
            },
            PauliOp::Y => {
                lemma_cy_entry_y(p[1], i, j);
            },
        }
    }
}

/// The matrix of the controlled `Z` gate: the identity where the control is 0, the
/// `Z` gate on the target where it is 1.
pub open spec fn matrix_cz() -> spec_fn(int, int) -> Gauss {
    |i: int, j: int|
        if i < 2 || j < 2 {
            if i == j {
                whole(1)
            } else {
                whole(0)
            }
        } else {
            pauli_entry(PauliOp::Z, i - 2, j - 2)
        }
}

/// The matrix of the controlled `Z` gate is unitary.
pub proof fn lemma_cz_unitary()
    ensures
        scaled_unitary(matrix_cz(), 4, 1),
{
    lemma_unit_products();
    let m = matrix_cz();
    lemma_product_four(m, adjoint(m));
    assert forall|i: int, j: int| 0 <= i < 4 && 0 <= j < 4 implies #[trigger] product_entry(
        m,
        adjoint(m),
        i,
        j,
        4,
    ) == (if i == j {
        whole(1)
    } else {
        whole(0)
    }) by {
        assert(i == 0 || i == 1 || i == 2 || i == 3);
        assert(j == 0 || j == 1 || j == 2 || j == 3);
    }
}

/// Row `i` and column `j` of what conjugation with the matrix of the controlled `Z` gate
/// asks of a string with `I` on the control and of its image.
proof fn lemma_cz_entry_i(target: PauliOp, i: int, j: int)
    requires
        0 <= i < 4,
        0 <= j < 4,
    ensures
        product_entry(matrix_cz(), string_matrix(seq![PauliOp::I, target]), i, j, 4)
            == product_entry(
            string_matrix(
                seq![CZ::image(PauliOp::I, target).0, CZ::image(PauliOp::I, target).1],
            ),
            matrix_cz(),
            i,
            j,
            4,
        ).signed(CZ::image(PauliOp::I, target).2),
{
    lemma_unit_products();
    let m = matrix_cz();
    let p = seq![PauliOp::I, target];
    let q = seq![CZ::image(PauliOp::I, target).0, CZ::image(PauliOp::I, target).1];
    let a = string_matrix(p);
    let b = string_matrix(q);
    lemma_product_four(m, a);
    lemma_product_four(b, m);
    lemma_string_entry_two(p, 0, j);
    lemma_string_entry_two(p, 1, j);
    lemma_string_entry_two(p, 2, j);
    lemma_string_entry_two(p, 3, j);
    lemma_string_entry_two(q, i, 0);
    lemma_string_entry_two(q, i, 1);
    lemma_string_entry_two(q, i, 2);
    lemma_string_entry_two(q, i, 3);
}

/// Row `i` and column `j` of what conjugation with the matrix of the controlled `Z` gate
/// asks of a string with `Z` on the control and of its image.
proof fn lemma_cz_entry_z(target: PauliOp, i: int, j: int)
    requires
        0 <= i < 4,
        0 <= j < 4,
    ensures
        product_entry(matrix_cz(), string_matrix(seq![PauliOp::Z, target]), i, j, 4)
            == product_entry(
            string_matrix(
                seq![CZ::image(PauliOp::Z, target).0, CZ::image(PauliOp::Z, target).1],
            ),
            matrix_cz(),
            i,
            j,
            4,
        ).signed(CZ::image(PauliOp::Z, target).2),
{
    lemma_unit_products();
    let m = matrix_cz();
    let p = seq![PauliOp::Z, target];
    let q = seq![CZ::image(PauliOp::Z, target).0, CZ::image(PauliOp::Z, target).1];
    let a = string_matrix(p);
    let b = string_matrix(q);
    lemma_product_four(m, a);
    lemma_product_four(b, m);
    lemma_string_entry_two(p, 0, j);
    lemma_string_entry_two(p, 1, j);
    lemma_string_entry_two(p, 2, j);
    lemma_string_entry_two(p, 3, j);
    lemma_string_entry_two(q, i, 0);
    lemma_string_entry_two(q, i, 1);
    lemma_string_entry_two(q, i, 2);
    lemma_string_entry_two(q, i, 3);
}

/// Row `i` and column `j` of what conjugation with the matrix of the controlled `Z` gate
/// asks of a string with `X` on the control and of its image.
proof fn lemma_cz_entry_x(target: PauliOp, i: int, j: int)
    requires
        0 <= i < 4,
        0 <= j < 4,
    ensures
        product_entry(matrix_cz(), string_matrix(seq![PauliOp::X, target]), i, j, 4)
            == product_entry(
            string_matrix(
                seq![CZ::image(PauliOp::X, target).0, CZ::image(PauliOp::X, target).1],
            ),
            matrix_cz(),
            i,
            j,
            4,
        ).signed(CZ::image(PauliOp::X, target).2),
{
    lemma_unit_products();
    let m = matrix_cz();
    let p = seq![PauliOp::X, target];
    let q = seq![CZ::image(PauliOp::X, target).0, CZ::image(PauliOp::X, target).1];
    let a = string_matrix(p);
    let b = string_matrix(q);
    lemma_product_four(m, a);
    lemma_product_four(b, m);
    lemma_string_entry_two(p, 0, j);
    lemma_string_entry_two(p, 1, j);
    lemma_string_entry_two(p, 2, j);
    lemma_string_entry_two(p, 3, j);
    lemma_string_entry_two(q, i, 0);
    lemma_string_entry_two(q, i, 1);
    lemma_string_entry_two(q, i, 2);
    lemma_string_entry_two(q, i, 3);
}

/// Row `i` and column `j` of what conjugation with the matrix of the controlled `Z` gate
/// asks of a string with `Y` on the control and of its image.
proof fn lemma_cz_entry_y(target: PauliOp, i: int, j: int)
    requires
        0 <= i < 4,
        0 <= j < 4,
    ensures
        product_entry(matrix_cz(), string_matrix(seq![PauliOp::Y, target]), i, j, 4)
            == product_entry(
            string_matrix(
                seq![CZ::image(PauliOp::Y, target).0, CZ::image(PauliOp::Y, target).1],
            ),
            matrix_cz(),
            i,
            j,
            4,
        ).signed(CZ::image(PauliOp::Y, target).2),
{
    lemma_unit_products();
    let m = matrix_cz();
    let p = seq![PauliOp::Y, target];
    let q = seq![CZ::image(PauliOp::Y, target).0, CZ::image(PauliOp::Y, target).1];
    let a = string_matrix(p);
    let b = string_matrix(q);
    lemma_product_four(m, a);
    lemma_product_four(b, m);
    lemma_string_entry_two(p, 0, j);
    lemma_string_entry_two(p, 1, j);
    lemma_string_entry_two(p, 2, j);
    lemma_string_entry_two(p, 3, j);
    lemma_string_entry_two(q, i, 0);
    lemma_string_entry_two(q, i, 1);
    lemma_string_entry_two(q, i, 2);
    lemma_string_entry_two(q, i, 3);
}

/// The conjugation rule of the controlled `Z` gate is conjugation with its matrix.
pub proof fn lemma_cz_matrix(p: Seq<PauliOp>)
    requires
        p.len() == 2,
    ensures
        scaled_unitary(matrix_cz(), 4, 1),
        (CZ {  }).conjugation(p) matches Some(image) && carries(
            matrix_cz(),
            4,
            p,
            image.0,
            image.1,
        ),
{
    lemma_cz_unitary();
    let image = (CZ {  }).conjugation(p).unwrap();
    let q = seq![CZ::image(p[0], p[1]).0, CZ::image(p[0], p[1]).1];
    assert(p =~= seq![p[0], p[1]]);
    assert(image.0 =~= q);
    assert forall|i: int, j: int| 0 <= i < 4 && 0 <= j < 4 implies #[trigger] product_entry(
        matrix_cz(),
        string_matrix(p),
        i,
        j,
        4,
    ) == product_entry(string_matrix(image.0), matrix_cz(), i, j, 4).signed(image.1) by {
        match p[0] {
            PauliOp::I => {
                lemma_cz_entry_i(p[1], i, j);
            },
            PauliOp::Z => {
                lemma_cz_entry_z(p[1], i, j);
            },
            PauliOp::X => {
                lemma_cz_entry_x(p[1], i, j);
            },
            PauliOp::Y => {
                lemma_cz_entry_y(p[1], i, j);
            },
        }
    }
}

} // verus!
