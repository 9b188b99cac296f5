use num_complex::Complex64;
use qusim::arithmetic::Square;
use qusim::gates::{bit_permutation, Gate, Kron, H, I, X};

type Matrix = Vec<Vec<Complex64>>;

fn c(re: f64) -> Complex64
{
    Complex64::new(re, 0.0)
}

fn eye(n: usize) -> Matrix
{
    (0..n).map(|i| (0..n).map(|j| if i == j { c(1.0) } else { c(0.0) }).collect()).collect()
}

fn kron(a: &Matrix, b: &Matrix) -> Matrix
{
    let (n, m) = (a.len(), b.len());
    let mut res = vec![vec![c(0.0); n * m]; n * m];
    for i in 0..n
    {
        for j in 0..n
        {
            for k in 0..m
            {
                for l in 0..m
                {
                    res[i * m + k][j * m + l] = a[i][j] * b[k][l];
                }
            }
        }
    }
    res
}

fn dot(a: &Matrix, b: &Matrix) -> Matrix
{
    let n = a.len();
    let mut res = vec![vec![c(0.0); n]; n];
    for i in 0..n
    {
        for j in 0..n
        {
            for k in 0..n
            {
                res[i][j] += a[i][k] * b[k][j];
            }
        }
    }
    res
}

fn assert_complex_matrix_eq(a0: &Matrix, a1: &Matrix)
{
    assert_eq!(a0.len(), a1.len());
    for (r0, r1) in a0.iter().zip(a1.iter())
    {
        assert_eq!(r0.len(), r1.len());
        for (x, y) in r0.iter().zip(r1.iter())
        {
            assert!((x - y).norm() <= 1.0e-15, "x = {}, y = {}", x, y);
        }
    }
}

/// The matrices of the gates that these tests use.
trait Dense
{
    fn matrix(&self) -> Matrix;
}

impl Dense for I
{
    fn matrix(&self) -> Matrix { eye(2) }
}

impl Dense for X
{
    fn matrix(&self) -> Matrix { vec![vec![c(0.0), c(1.0)], vec![c(1.0), c(0.0)]] }
}

impl Dense for H
{
    fn matrix(&self) -> Matrix
    {
        let x = c(::std::f64::consts::FRAC_1_SQRT_2);
        vec![vec![x, x], vec![x, -x]]
    }
}

impl<G0: Gate + Dense, G1: Gate + Dense> Dense for Kron<G0, G1>
{
    fn matrix(&self) -> Matrix { kron(&self.g0().matrix(), &self.g1().matrix()) }
}

#[test]
fn kron_test_square()
{
    let gate = Kron::new(H::new(), X::new());
    let mat = gate.matrix();
    let sq_mat = dot(&mat, &mat);
    assert_complex_matrix_eq(&gate.square().unwrap().matrix(), &sq_mat);
    assert_eq!(gate.square().unwrap().description(), "I⊗I");
}

/// The matrix of `gate_mat` on the qubits `bits` of a system of `nr_bits` qubits:
/// the matrix on the first qubits, carried to its place by the bit permutation.
fn expanded(gate_mat: &Matrix, bits: &[usize], nr_bits: usize) -> Matrix
{
    let full = kron(gate_mat, &eye(1 << (nr_bits - bits.len())));
    let perm = bit_permutation(nr_bits, bits);
    let n = perm.size();
    (0..n).map(|i| (0..n).map(|j| full[perm.index(i)][perm.index(j)]).collect()).collect()
}

/// The same matrix from the bits of the row numbers: the entry is that of the
/// gate for the affected bits of row and column, where the other bits agree.
fn reference(gate_mat: &Matrix, bits: &[usize], nr_bits: usize) -> Matrix
{
    let n = 1usize << nr_bits;
    let bit = |row: usize, q: usize| (row >> (nr_bits - q - 1)) & 1;
    let part = |row: usize| bits.iter().fold(0, |acc, &q| (acc << 1) | bit(row, q));
    let rest = |row: usize| (0..nr_bits).filter(|q| !bits.contains(q))
        .fold(0, |acc, q| (acc << 1) | bit(row, q));
    (0..n).map(|i| (0..n).map(|j|
        if rest(i) == rest(j) { gate_mat[part(i)][part(j)] } else { c(0.0) }
    ).collect()).collect()
}

#[test]
fn test_bit_permutation_expands_one_qubit_gate()
{
    let g = vec![vec![c(1.0), c(2.0)], vec![c(3.0), c(4.0)]];
    for nr_bits in 1..5
    {
        for bit in 0..nr_bits
        {
            let tensor = kron(&eye(1 << bit), &kron(&g, &eye(1 << (nr_bits - bit - 1))));
            assert_complex_matrix_eq(&expanded(&g, &[bit], nr_bits), &tensor);
            assert_complex_matrix_eq(&reference(&g, &[bit], nr_bits), &tensor);
        }
    }
}

#[test]
fn test_bit_permutation_expands_two_qubit_gate()
{
    let g: Matrix = (0..4).map(|i| (0..4).map(|j| c((4 * i + j + 1) as f64)).collect()).collect();
    for nr_bits in 2..5
    {
        for a in 0..nr_bits
        {
            for b in 0..nr_bits
            {
                if a != b
                {
                    assert_complex_matrix_eq(&expanded(&g, &[a, b], nr_bits),
                        &reference(&g, &[a, b], nr_bits));
                }
            }
        }
    }
    // On neighbouring qubits in order, the matrix is the tensor product.
    let tensor = kron(&eye(2), &kron(&g, &eye(2)));
    assert_complex_matrix_eq(&expanded(&g, &[1, 2], 4), &tensor);
}
