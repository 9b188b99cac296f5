use num_complex::Complex64;
use qusim::error::Error;
use qusim::gates::{Gate, Kron, C, CX, CY, CZ, H, I, RX, S, Sdg, T, Tdg, V, Vdg, X, Y, Z};
use qusim::stabilizer::PauliOp;

const ZERO: Complex64 = Complex64 { re: 0.0, im: 0.0 };
const ONE: Complex64 = Complex64 { re: 1.0, im: 0.0 };
const IM: Complex64 = Complex64 { re: 0.0, im: 1.0 };

type Matrix = Vec<Vec<Complex64>>;

fn pauli_matrix(op: PauliOp) -> Matrix
{
    match op
    {
        PauliOp::I => vec![vec![ONE, ZERO], vec![ZERO, ONE]],
        PauliOp::Z => vec![vec![ONE, ZERO], vec![ZERO, -ONE]],
        PauliOp::X => vec![vec![ZERO, ONE], vec![ONE, ZERO]],
        PauliOp::Y => vec![vec![ZERO, -IM], vec![IM, ZERO]],
    }
}

fn kron(a: &Matrix, b: &Matrix) -> Matrix
{
    let (n, m) = (a.len(), b.len());
    let mut res = vec![vec![ZERO; n * m]; n * m];
    for i in 0..n
    {
        for j in 0..n
        {
            for k in 0..m
            {
                for l in 0..m
                {
                    res[i * m + k][j * m + l] = a[i][j] * b[k][l];
                }
            }
        }
    }
    res
}

fn product(a: &Matrix, b: &Matrix) -> Matrix
{
    let n = a.len();
    let mut res = vec![vec![ZERO; n]; n];
    for i in 0..n
    {
        for j in 0..n
        {
            for k in 0..n
            {
                res[i][j] += a[i][k] * b[k][j];
            }
        }
    }
    res
}

fn dagger(a: &Matrix) -> Matrix
{
    let n = a.len();
    let mut res = vec![vec![ZERO; n]; n];
    for i in 0..n
    {
        for j in 0..n
        {
            res[i][j] = a[j][i].conj();
        }
    }
    res
}

fn controlled(a: &Matrix) -> Matrix
{
    let n = a.len();
    let mut res = vec![vec![ZERO; 2 * n]; 2 * n];
    for i in 0..n
    {
        res[i][i] = ONE;
        for j in 0..n
        {
            res[n + i][n + j] = a[i][j];
        }
    }
    res
}

fn string_matrix(ops: &[PauliOp]) -> Matrix
{
    let mut res = vec![vec![ONE]];
    for &op in ops
    {
        res = kron(&res, &pauli_matrix(op));
    }
    res
}

fn equal(a: &Matrix, b: &Matrix, sign: f64) -> bool
{
    a.iter().zip(b.iter()).all(|(ra, rb)|
        ra.iter().zip(rb.iter()).all(|(x, y)| (x - sign * y).norm() < 1.0e-12))
}

fn all_strings(n: usize) -> Vec<Vec<PauliOp>>
{
    let ops = [PauliOp::I, PauliOp::Z, PauliOp::X, PauliOp::Y];
    let mut res: Vec<Vec<PauliOp>> = vec![vec![]];
    for _ in 0..n
    {
        res = res.iter()
            .flat_map(|s| ops.iter().map(move |&op| { let mut t = s.clone(); t.push(op); t }))
            .collect();
    }
    res
}

/// Whether some Pauli string, with a sign, is the matrix `m`.
fn is_signed_string(m: &Matrix, n: usize) -> bool
{
    all_strings(n).iter().any(|s| {
        let p = string_matrix(s);
        equal(m, &p, 1.0) || equal(m, &p, -1.0)
    })
}

/// Hold the conjugation rule of `gate` against its matrix `mat`: where the rule
/// gives an image and a sign flip, `mat * P * mat^-1` is that image with that sign;
/// where `total` holds, the rule has an image for every string.
fn check_gate<G: Gate>(gate: &G, mat: &Matrix, total: bool)
{
    let n = gate.nr_affected_bits();
    for ops in all_strings(n)
    {
        let conjugated = product(&product(mat, &string_matrix(&ops)), &dagger(mat));
        let mut image = ops.clone();
        match gate.conjugate(&mut image)
        {
            Ok(flip) => {
                let sign = if flip { -1.0 } else { 1.0 };
                assert!(equal(&conjugated, &string_matrix(&image), sign),
                    "{} on {:?} gives {:?}, flip {}", gate.description(), ops, image, flip);
            },
            Err(Error::NotAStabilizer(_)) => {
                assert!(!total, "{} has no image for {:?}", gate.description(), ops);
            },
            Err(e) => panic!("{} on {:?} fails with {:?}", gate.description(), ops, e),
        }
    }
    assert_eq!(gate.is_stabilizer(), total);
}

fn matrices() -> (Matrix, Matrix, Matrix, Matrix, Matrix, Matrix, Matrix, Matrix, Matrix)
{
    let x = Complex64::new(::std::f64::consts::FRAC_1_SQRT_2, 0.0);
    let h = Complex64::new(0.5, 0.0);
    let hi = Complex64::new(0.0, 0.5);
    (
        pauli_matrix(PauliOp::I),
        pauli_matrix(PauliOp::X),
        pauli_matrix(PauliOp::Y),
        pauli_matrix(PauliOp::Z),
        vec![vec![x, x], vec![x, -x]],
        vec![vec![ONE, ZERO], vec![ZERO, IM]],
        vec![vec![h + hi, h - hi], vec![h - hi, h + hi]],
        vec![vec![ONE, ZERO], vec![ZERO, Complex64::from_polar(1.0, ::std::f64::consts::FRAC_PI_4)]],
        vec![vec![ONE, ZERO], vec![ZERO, ONE]],
    )
}

#[test]
fn test_conjugate_against_matrices_one_qubit()
{
    let (mi, mx, my, mz, mh, ms, mv, _, _) = matrices();
    check_gate(&I::new(), &mi, true);
    check_gate(&X::new(), &mx, true);
    check_gate(&Y::new(), &my, true);
    check_gate(&Z::new(), &mz, true);
    check_gate(&H::new(), &mh, true);
    check_gate(&S::new(), &ms, true);
    check_gate(&Sdg::new(), &dagger(&ms), true);
    check_gate(&V::new(), &mv, true);
    check_gate(&Vdg::new(), &dagger(&mv), true);
}

#[test]
fn test_conjugate_against_matrices_two_qubits()
{
    let (_, mx, my, mz, mh, ms, _, _, _) = matrices();
    check_gate(&CX::new(), &controlled(&mx), true);
    check_gate(&CY::new(), &controlled(&my), true);
    check_gate(&CZ::new(), &controlled(&mz), true);
    check_gate(&Kron::new(H::new(), S::new()), &kron(&mh, &ms), true);
    check_gate(&Kron::new(X::new(), Kron::new(Y::new(), H::new())),
        &kron(&mx, &kron(&my, &mh)), true);
    check_gate(&Kron::new(CX::new(), Z::new()), &kron(&controlled(&mx), &mz), true);
}

#[test]
fn test_conjugate_of_controlled_gates()
{
    let (_, mx, _, mz, mh, ms, _, _, _) = matrices();
    // The controlled form has images where the control carries I or Z and the
    // target operators stay up to a sign; each image fits the matrix.
    check_gate(&C::new(X::new()), &controlled(&mx), false);
    check_gate(&C::new(Z::new()), &controlled(&mz), false);
    check_gate(&C::new(H::new()), &controlled(&mh), false);
    check_gate(&C::new(S::new()), &controlled(&ms), false);
    check_gate(&C::new(CX::new()), &controlled(&controlled(&mx)), false);

    let gate = C::new(X::new());
    let mut ops = [PauliOp::I, PauliOp::Z];
    assert_eq!(gate.conjugate(&mut ops), Ok(false));
    assert_eq!(ops, [PauliOp::Z, PauliOp::Z]);
    let mut ops = [PauliOp::Z, PauliOp::Y];
    assert_eq!(gate.conjugate(&mut ops), Ok(false));
    assert_eq!(ops, [PauliOp::I, PauliOp::Y]);
    let mut ops = [PauliOp::Z, PauliOp::X];
    assert_eq!(gate.conjugate(&mut ops), Ok(false));
    assert_eq!(ops, [PauliOp::Z, PauliOp::X]);
    let mut ops = [PauliOp::X, PauliOp::I];
    assert_eq!(gate.conjugate(&mut ops), Err(Error::NotAStabilizer(String::from("CX"))));
    assert_eq!(gate.description(), "CX");
    assert_eq!(gate.nr_affected_bits(), 2);
}

#[test]
fn test_gates_without_conjugation()
{
    let (_, _, _, _, _, _, _, mt, _) = matrices();
    // T keeps Z, but it has no rule at all.
    let conjugated = product(&product(&mt, &pauli_matrix(PauliOp::X)), &dagger(&mt));
    assert!(!is_signed_string(&conjugated, 1));
    let mut ops = [PauliOp::X];
    assert_eq!(T::new().conjugate(&mut ops), Err(Error::NotAStabilizer(String::from("T"))));
    let mut ops = [PauliOp::Z];
    assert_eq!(Tdg::new().conjugate(&mut ops), Err(Error::NotAStabilizer(String::from("T†"))));
    assert!(!T::new().is_stabilizer());
    let mut ops = [PauliOp::Z];
    assert_eq!(RX::new(0.5).conjugate(&mut ops),
        Err(Error::NotAStabilizer(String::from("RX(0.5000)"))));

    // The error of a product names the factor that has no rule.
    let gate = Kron::new(X::new(), T::new());
    let mut ops = [PauliOp::Z, PauliOp::Z];
    assert_eq!(gate.conjugate(&mut ops), Err(Error::NotAStabilizer(String::from("T"))));
    assert!(!gate.is_stabilizer());
}

#[test]
fn test_invalid_bit_count()
{
    let mut ops = [PauliOp::X, PauliOp::Z];
    assert_eq!(H::new().conjugate(&mut ops), Err(Error::InvalidBitCount));
    assert_eq!(ops, [PauliOp::X, PauliOp::Z]);
    let mut ops = [PauliOp::X];
    assert_eq!(CX::new().conjugate(&mut ops), Err(Error::InvalidBitCount));
    let mut ops = [PauliOp::X];
    assert_eq!(Kron::new(H::new(), H::new()).conjugate(&mut ops), Err(Error::InvalidBitCount));
    let mut ops = [PauliOp::X];
    assert_eq!(C::new(H::new()).conjugate(&mut ops), Err(Error::InvalidBitCount));
    let mut ops = [];
    assert_eq!(T::new().conjugate(&mut ops), Err(Error::InvalidBitCount));
}
