use qusim::arithmetic::Square;
use qusim::error::Error;
use qusim::gates::{Gate, Kron, CX, H, S, Sdg, T, Tdg, V, X, Z, U1};
use qusim::layout::{basis_column, is_qubit_set, project, swap_blocks};

#[test]
fn test_x_transform()
{
    let mut state = [1, 2, 3, 4, 5, 6];
    X::transform(&mut state);
    assert_eq!(state, [4, 5, 6, 1, 2, 3]);
    let mut state = ['a', 'b'];
    X::transform(&mut state);
    assert_eq!(state, ['b', 'a']);
    let mut state: [u8; 0] = [];
    X::transform(&mut state);
    assert_eq!(state, []);
}

#[test]
fn test_cx_transform()
{
    let mut state = [1, 2, 3, 4, 5, 6, 7, 8];
    CX::transform(&mut state);
    assert_eq!(state, [1, 2, 3, 4, 7, 8, 5, 6]);
    let mut state = ['a', 'b', 'c', 'd'];
    CX::transform(&mut state);
    assert_eq!(state, ['a', 'b', 'd', 'c']);
}

#[test]
fn test_swap_blocks()
{
    let mut column = [0, 1, 2, 3, 4, 5, 6, 7, 8];
    swap_blocks(&mut column, 3, 0, 2);
    assert_eq!(column, [6, 7, 8, 3, 4, 5, 0, 1, 2]);
    swap_blocks(&mut column, 3, 1, 1);
    assert_eq!(column, [6, 7, 8, 3, 4, 5, 0, 1, 2]);
    swap_blocks(&mut column, 9, 8, 0);
    assert_eq!(column, [2, 7, 8, 3, 4, 5, 0, 1, 6]);
}

#[test]
fn test_basis_column()
{
    assert_eq!(basis_column(0, 0, 1), vec![1]);
    assert_eq!(basis_column(1, 0, 1), vec![1, 0]);
    assert_eq!(basis_column(3, 'z', 'o'), vec!['o', 'z', 'z', 'z', 'z', 'z', 'z', 'z']);
}

#[test]
fn test_is_qubit_set()
{
    // Qubit 0 is the most significant bit of a row number.
    assert!(is_qubit_set(0b100, 3, 0));
    assert!(!is_qubit_set(0b100, 3, 1));
    assert!(!is_qubit_set(0b100, 3, 2));
    assert!(is_qubit_set(0b001, 3, 2));
    assert!(is_qubit_set(0b1, 1, 0));
    assert!(!is_qubit_set(0b0, 1, 0));
}

#[test]
fn test_project()
{
    let mut column = [1, 2, 3, 4, 5, 6, 7, 8];
    project(&mut column, 3, 1, true, 0);
    assert_eq!(column, [0, 0, 3, 4, 0, 0, 7, 8]);
    let mut column = [1, 2, 3, 4, 5, 6, 7, 8];
    project(&mut column, 3, 0, false, 0);
    assert_eq!(column, [1, 2, 3, 4, 0, 0, 0, 0]);
    let mut column = [1, 2, 3, 4, 5, 6, 7, 8];
    project(&mut column, 3, 2, false, -1);
    assert_eq!(column, [1, -1, 3, -1, 5, -1, 7, -1]);
}

#[test]
fn test_squares()
{
    assert_eq!(X::new().square().unwrap().description(), "I");
    assert_eq!(H::new().square().unwrap().description(), "I");
    assert_eq!(S::new().square().unwrap().description(), "Z");
    assert_eq!(Sdg::new().square().unwrap().description(), "Z");
    assert_eq!(T::new().square().unwrap().description(), "S");
    assert_eq!(Tdg::new().square().unwrap().description(), "S†");
    assert_eq!(V::new().square().unwrap().description(), "X");
    assert_eq!(Z::new().square().unwrap().description(), "I");
    assert_eq!(Kron::new(T::new(), V::new()).square().unwrap().description(), "S⊗X");
    assert_eq!(Kron::new(T::new(), V::new()).square().unwrap().nr_affected_bits(), 2);
}

#[test]
fn test_descriptions()
{
    assert_eq!(X::new().description(), "X");
    assert_eq!(Sdg::new().description(), "S†");
    assert_eq!(CX::new().description(), "CX");
    assert_eq!(CX::new().nr_affected_bits(), 2);
    assert_eq!(U1::new(1.5).nr_affected_bits(), 1);
    assert!(X::new().is_stabilizer());
    assert!(CX::new().is_stabilizer());
    assert!(!U1::new(0.0).is_stabilizer());
    assert!(Kron::new(H::new(), CX::new()).is_stabilizer());
    assert_eq!(Kron::new(H::new(), CX::new()).nr_affected_bits(), 3);
    let mut ops = [qusim::stabilizer::PauliOp::Z];
    assert_eq!(U1::new(0.25).conjugate(&mut ops),
        Err(Error::NotAStabilizer(String::from("U1(0.2500)"))));
}
