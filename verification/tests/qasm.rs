use qusim::circuit::{Basis, Circuit};
use qusim::error::Error;
use qusim::gates::{CircuitGate, X};
use qusim::qasm::{check_c_qasm_measurement, check_open_qasm_condition_bits, is_full_register,
    rewrite_target};
use qusim::text::{bit_string, decimal_text};

fn x_gate() -> CircuitGate<f64>
{
    CircuitGate::X(X::new())
}

#[test]
fn circuit_test_open_qasm()
{
    let mut circuit: Circuit<CircuitGate<f64>> = Circuit::new(2, 2);
    circuit.x(0);
    circuit.cx(0, 1);
    circuit.barrier(&[0, 1]);
    circuit.cx(1, 0);
    circuit.barrier(&[1]);
    circuit.cx(0, 1);
    circuit.barrier(&[1, 0]);
    circuit.measure_x(0, 0);
    circuit.measure_y(1, 1);
    assert_eq!(circuit.open_qasm(), Ok(String::from(
r#"OPENQASM 2.0;
include "qelib1.inc";
qreg q[2];
creg b[2];
x q[0];
cx q[0], q[1];
barrier q;
cx q[1], q[0];
barrier q[1];
cx q[0], q[1];
barrier q[1], q[0];
h q[0];
measure q[0] -> b[0];
sdg q[1];
h q[1];
measure q[1] -> b[1];
"#)));

    // Before a measurement of all qubits, the basis change is written for every
    // qubit by its name.
    let mut circuit: Circuit<CircuitGate<f64>> = Circuit::new(2, 2);
    circuit.x(0);
    circuit.measure_all(&[0, 1]);
    circuit.measure_all(&[1, 0]);
    circuit.measure_all_basis(&[0, 1], Basis::X);
    circuit.measure_all_basis(&[0, 1], Basis::Y);
    assert_eq!(circuit.open_qasm(), Ok(String::from(
r#"OPENQASM 2.0;
include "qelib1.inc";
qreg q[2];
creg b[2];
x q[0];
measure q -> b;
measure q[0] -> b[1];
measure q[1] -> b[0];
h q[0];
h q[1];
measure q -> b;
sdg q[0];
h q[0];
sdg q[1];
h q[1];
measure q -> b;
"#)));

    let mut circuit: Circuit<CircuitGate<f64>> = Circuit::new(2, 0);
    circuit.x(0);
    circuit.h(1);
    circuit.reset(0);
    circuit.x(0);
    circuit.reset_all();
    assert_eq!(circuit.open_qasm(), Ok(String::from(
r#"OPENQASM 2.0;
include "qelib1.inc";
qreg q[2];
x q[0];
h q[1];
reset q[0];
x q[0];
reset q;
"#)));

    let mut circuit: Circuit<CircuitGate<f64>> = Circuit::new(2, 2);
    circuit.x(0);
    circuit.measure_all(&[0, 1]);
    circuit.add_conditional_gate(&[0, 1], 1, x_gate(), &[0]);
    circuit.add_conditional_gate(&[], 1, x_gate(), &[1]);
    assert_eq!(circuit.open_qasm(), Ok(String::from(
r#"OPENQASM 2.0;
include "qelib1.inc";
qreg q[2];
creg b[2];
x q[0];
measure q -> b;
if (b == 1) x q[0];
x q[1];
"#)));

    let mut circuit: Circuit<CircuitGate<f64>> = Circuit::new(2, 2);
    circuit.add_conditional_gate(&[0], 1, x_gate(), &[0]);
    assert!(matches!(circuit.open_qasm(), Err(_)));

    let mut circuit: Circuit<CircuitGate<f64>> = Circuit::new(2, 2);
    circuit.add_conditional_gate(&[1, 2], 1, x_gate(), &[0]);
    assert!(matches!(circuit.open_qasm(), Err(_)));
}

#[test]
fn circuit_test_c_qasm()
{
    let mut circuit: Circuit<CircuitGate<f64>> = Circuit::new(3, 3);
    circuit.x(0);
    circuit.cx(0, 1);
    circuit.cx(1, 0);
    circuit.cx(0, 1);
    circuit.measure(0, 0);
    circuit.measure_x(1, 1);
    circuit.measure_y(2, 2);
    assert_eq!(circuit.c_qasm(), Ok(String::from(
r#"version 1.0
qubits 3
x q[0]
cnot q[0], q[1]
cnot q[1], q[0]
cnot q[0], q[1]
measure q[0]
measure_x q[1]
measure_y q[2]
"#)));

    let mut circuit: Circuit<CircuitGate<f64>> = Circuit::new(2, 2);
    circuit.x(0);
    circuit.h(1);
    circuit.measure_all(&[0, 1]);
    circuit.reset_all();
    circuit.measure_all_basis(&[0, 1], Basis::X);
    circuit.reset(1);
    circuit.measure_all_basis(&[0, 1], Basis::Y);
    assert_eq!(circuit.c_qasm(), Ok(String::from(
r#"version 1.0
qubits 2
x q[0]
h q[1]
measure_all
prep_z q[0]
prep_z q[1]
h q[0]
h q[1]
measure_all
prep_z q[1]
sdag q[0]
h q[0]
sdag q[1]
h q[1]
measure_all
"#)));

    let mut circuit: Circuit<CircuitGate<f64>> = Circuit::new(2, 2);
    circuit.x(0);
    circuit.measure_all(&[0, 1]);
    circuit.add_conditional_gate(&[0, 1], 1, x_gate(), &[0]);
    circuit.add_conditional_gate(&[], 1, x_gate(), &[1]);
    assert_eq!(circuit.c_qasm(), Ok(String::from(
r#"version 1.0
qubits 2
x q[0]
measure_all
not b[1]
c-x b[0], b[1], q[0]
not b[1]
x q[1]
"#)));

    let mut circuit: Circuit<CircuitGate<f64>> = Circuit::new(2, 2);
    circuit.measure(0, 1);
    // c-Qasm only allows for measuring to the classical bit with the same index
    assert!(matches!(circuit.c_qasm(), Err(_)));
}

#[test]
fn test_peek_is_not_exported()
{
    let mut circuit: Circuit<CircuitGate<f64>> = Circuit::new(1, 1);
    circuit.h(0);
    circuit.peek_all(&[0]);
    assert_eq!(circuit.open_qasm(),
        Err(Error::ExportUnsupported(String::from("peek"), String::from("OpenQasm"))));
    assert_eq!(circuit.c_qasm(),
        Err(Error::ExportUnsupported(String::from("peek"), String::from("c-Qasm"))));
}

#[test]
fn test_open_qasm_condition_in_register_order()
{
    // The control list [1, 0] reads classical bit 1 as the least significant bit
    // of the word: the target 0b01 asks for bit 1 set, which is the number 2.
    let mut circuit: Circuit<CircuitGate<f64>> = Circuit::new(1, 2);
    circuit.add_conditional_gate(&[1, 0], 0b01, x_gate(), &[0]);
    assert_eq!(circuit.open_qasm(), Ok(String::from(
r#"OPENQASM 2.0;
include "qelib1.inc";
qreg q[1];
creg b[2];
if (b == 2) x q[0];
"#)));
    assert_eq!(rewrite_target(0b01, &[1, 0]), 0b10);
    assert_eq!(rewrite_target(0b110, &[2, 0, 1]), 0b011);
    assert_eq!(rewrite_target(0b101, &[0, 1, 2]), 0b101);
    assert_eq!(rewrite_target(7, &[]), 0);
}

#[test]
fn test_export_checks()
{
    assert!(is_full_register(&[0, 1, 2], 3));
    assert!(is_full_register(&[2, 0, 1], 3));
    assert!(is_full_register(&[], 0));
    assert!(!is_full_register(&[0, 1], 3));
    assert!(!is_full_register(&[0, 1, 1], 3));
    assert!(!is_full_register(&[1, 2, 3], 3));

    assert_eq!(check_open_qasm_condition_bits(&[1, 0], 2), Ok(()));
    assert!(matches!(check_open_qasm_condition_bits(&[0], 2),
        Err(Error::ExportUnsupported(_, _))));
    assert_eq!(check_c_qasm_measurement(3, 3), Ok(()));
    assert!(matches!(check_c_qasm_measurement(0, 1), Err(Error::ExportUnsupported(_, _))));
}

#[test]
fn test_export_validity()
{
    let mut circuit: Circuit<CircuitGate<f64>> = Circuit::new(2, 2);
    circuit.cx(0, 1);
    circuit.add_conditional_gate(&[1, 2], 1, x_gate(), &[0]);
    assert!(circuit.is_open_qasm_valid());
    assert!(!circuit.is_c_qasm_valid());
    assert!(!circuit.is_valid());

    let mut circuit: Circuit<CircuitGate<f64>> = Circuit::new(2, 2);
    circuit.cx(0, 2);
    assert!(!circuit.is_open_qasm_valid());
    assert!(!circuit.is_c_qasm_valid());

    let mut circuit: Circuit<CircuitGate<f64>> = Circuit::new(2, 2);
    circuit.measure(0, 5);
    assert!(!circuit.is_open_qasm_valid());
    assert!(circuit.is_c_qasm_valid());
}

#[test]
fn test_parametrized_gates_in_a_circuit()
{
    let mut circuit: Circuit<CircuitGate<f64>> = Circuit::new(1, 0);
    circuit.u1(0.5, 0);
    circuit.u3(1.0, 2.25, 3.5, 0);
    assert_eq!(circuit.open_qasm(), Ok(String::from(
r#"OPENQASM 2.0;
include "qelib1.inc";
qreg q[1];
u1(0.5) q[0];
u3(1, 2.25, 3.5) q[0];
"#)));
}

#[test]
fn test_decimal_text()
{
    assert_eq!(decimal_text(0), "0");
    assert_eq!(decimal_text(7), "7");
    assert_eq!(decimal_text(10), "10");
    assert_eq!(decimal_text(1234567890), "1234567890");
    assert_eq!(decimal_text(u64::MAX), "18446744073709551615");
}

#[test]
fn test_bit_string()
{
    assert_eq!(bit_string(0, 2), "00");
    assert_eq!(bit_string(1, 2), "01");
    assert_eq!(bit_string(2, 2), "10");
    assert_eq!(bit_string(3, 2), "11");
    assert_eq!(bit_string(5, 6), "000101");
    assert_eq!(bit_string(0, 0), "0");
    assert_eq!(bit_string(0b1101, 2), "1101");
    assert_eq!(bit_string(u64::MAX, 64), "1".repeat(64));
}
