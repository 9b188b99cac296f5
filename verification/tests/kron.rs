use qusim::error::Error;
use qusim::export::{CQasm, OpenQasm};
use qusim::gates::{Gate, Kron, H, I, T, X};
use qusim::stabilizer::PauliOp;

#[test]
fn kron_test_description()
{
    let ih = Kron::new(I::new(), H::new());
    assert_eq!(ih.description(), "I⊗H");
    let hh = Kron::new(H::new(), H::new());
    assert_eq!(hh.description(), "H⊗H");
    let hih = Kron::new(H::new(), Kron::new(I::new(), H::new()));
    assert_eq!(hih.description(), "H⊗I⊗H");
}

#[test]
fn kron_test_open_qasm()
{
    let bit_names = [String::from("qb0"), String::from("qb1")];
    let qasm = Kron::new(H::new(), I::new()).open_qasm(&bit_names, &[0, 1]);
    assert_eq!(qasm, Ok(String::from("h qb0; id qb1")));
}

#[test]
fn test_conditional_open_qasm()
{
    let bit_names = [String::from("qb0"), String::from("qb1")];
    let qasm = Kron::new(H::new(), X::new())
        .conditional_open_qasm("b == 1", &bit_names, &[1, 0]);
    assert_eq!(qasm, Ok(String::from("if (b == 1) h qb1; if (b == 1) x qb0")));
}

#[test]
fn kron_test_c_qasm()
{
    let bit_names = [String::from("qb0"), String::from("qb1")];
    let qasm = Kron::new(H::new(), I::new()).c_qasm(&bit_names, &[0, 1]);
    assert_eq!(qasm, Ok(String::from("{ h qb0 | i qb1 }")));
}

#[test]
fn test_conditional_c_qasm()
{
    let bit_names = [String::from("qb0"), String::from("qb1")];
    let qasm = Kron::new(H::new(), X::new())
        .conditional_c_qasm("b == 1", &bit_names, &[1, 0]);
    assert_eq!(qasm, Ok(String::from(
r#"c-h b == 1, qb1
c-x b == 1, qb0"#)));
}

#[test]
fn test_conjugate()
{
    let gate = Kron::new(X::new(), H::new());
    let mut ops = [PauliOp::Z, PauliOp::Z];
    assert_eq!(gate.conjugate(&mut ops), Ok(true));
    assert_eq!(ops, [PauliOp::Z, PauliOp::X]);

    let gate = Kron::new(X::new(), T::new());
    let mut ops = [PauliOp::Z, PauliOp::Z];
    assert!(matches!(gate.conjugate(&mut ops), Err(Error::NotAStabilizer(_))));
}
