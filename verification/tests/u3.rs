use qusim::arithmetic::Square;
use qusim::error::Error;
use qusim::export::{CQasm, OpenQasm};
use qusim::gates::{Gate, U3};

#[test]
fn u3_test_description()
{
    let gate = U3::new(0.17, ::std::f64::consts::FRAC_PI_4, ::std::f64::consts::LN_2);
    assert_eq!(gate.description(), "U3(0.1700, 0.7854, 0.6931)");
}

#[test]
fn u3_test_open_qasm()
{
    let bit_names = [String::from("qb")];
    let qasm = U3::new(1.0, 2.25, 3.5).open_qasm(&bit_names, &[0]);
    assert_eq!(qasm, Ok(String::from("u3(1, 2.25, 3.5) qb")));
}

#[test]
fn u3_test_c_qasm()
{
    let bit_names = [String::from("qb")];
    let qasm = U3::new(1.0, 2.25, 3.5).c_qasm(&bit_names, &[0]);
    assert_eq!(qasm, Ok(String::from("rz qb, 3.5\nry qb, 1\n; rz qb 2.25")));
}

#[test]
fn u3_test_square()
{
    let gate = U3::new(::std::f64::consts::FRAC_PI_2, 12.0, -3.14);
    assert!(matches!(gate.square(), Err(Error::OpNotImplemented(_, _))));
}

#[test]
fn u3_test_conditional_c_qasm()
{
    let bit_names = [String::from("qb")];
    let qasm = U3::new(1.0, 2.25, 3.5).conditional_c_qasm("b[0]", &bit_names, &[0]);
    assert_eq!(qasm, Err(Error::ExportUnsupported(
        String::from("conditional U3"), String::from("c-Qasm"))));
}
