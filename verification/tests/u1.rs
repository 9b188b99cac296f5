use qusim::export::{CQasm, OpenQasm};
use qusim::gates::{Gate, U1};

#[test]
fn u1_test_description()
{
    let gate = U1::new(::std::f64::consts::FRAC_PI_4);
    assert_eq!(gate.description(), "U1(0.7854)");
}

#[test]
fn u1_test_open_qasm()
{
    let bit_names = [String::from("qb")];
    let qasm = U1::new(::std::f64::consts::PI).open_qasm(&bit_names, &[0]);
    assert_eq!(qasm, Ok(String::from("u1(3.141592653589793) qb")));
}

#[test]
fn u1_test_c_qasm()
{
    let bit_names = [String::from("qb")];
    let qasm = U1::new(::std::f64::consts::PI).c_qasm(&bit_names, &[0]);
    assert_eq!(qasm, Ok(String::from("rz qb, 3.141592653589793")));
}
