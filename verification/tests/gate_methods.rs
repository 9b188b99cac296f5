use num_complex::Complex64;
use qusim::circuit::{Circuit, CircuitOp};
use qusim::error::Error;
use qusim::export::{CQasm, OpenQasm};
use qusim::gates::{CircuitGate, Gate, Kron, NamedGate, C, CX, CY, CZ, H, S, V, X};
use qusim::stabilizer::PauliOp;

const ZERO: Complex64 = Complex64 { re: 0.0, im: 0.0 };
const ONE: Complex64 = Complex64 { re: 1.0, im: 0.0 };
const IM: Complex64 = Complex64 { re: 0.0, im: 1.0 };

type Matrix = Vec<Vec<Complex64>>;

/// The unitary matrix of a gate that a circuit holds, from its kind and the
/// angles that it was stored with.
fn matrix(gate: &CircuitGate<f64>) -> Matrix
{
    let x = Complex64::new(::std::f64::consts::FRAC_1_SQRT_2, 0.0);
    let phase = |angle: f64| Complex64::new(angle.cos(), angle.sin());
    match gate
    {
        CircuitGate::H(_) => vec![vec![x, x], vec![x, -x]],
        CircuitGate::X(_) => vec![vec![ZERO, ONE], vec![ONE, ZERO]],
        CircuitGate::Y(_) => vec![vec![ZERO, -IM], vec![IM, ZERO]],
        CircuitGate::Z(_) => vec![vec![ONE, ZERO], vec![ZERO, -ONE]],
        CircuitGate::RX(g) => {
            let half = 0.5 * *g.theta().value();
            let (c, s) = (Complex64::new(half.cos(), 0.0), Complex64::new(half.sin(), 0.0));
            vec![vec![c, -IM * s], vec![-IM * s, c]]
        },
        CircuitGate::RY(g) => {
            let half = 0.5 * *g.theta().value();
            let (c, s) = (Complex64::new(half.cos(), 0.0), Complex64::new(half.sin(), 0.0));
            vec![vec![c, -s], vec![s, c]]
        },
        CircuitGate::RZ(g) => {
            let half = 0.5 * *g.lambda().value();
            vec![vec![phase(-half), ZERO], vec![ZERO, phase(half)]]
        },
        CircuitGate::U1(g) => vec![vec![ONE, ZERO], vec![ZERO, phase(*g.lambda().value())]],
        CircuitGate::U2(g) => {
            let (phi, lambda) = (*g.phi().value(), *g.lambda().value());
            vec![vec![x, -x * phase(lambda)], vec![x * phase(phi), x * phase(phi + lambda)]]
        },
        CircuitGate::U3(g) => {
            let (phi, lambda) = (*g.phi().value(), *g.lambda().value());
            let half = 0.5 * *g.theta().value();
            let (c, s) = (Complex64::new(half.cos(), 0.0), Complex64::new(half.sin(), 0.0));
            vec![vec![c, -phase(lambda) * s], vec![phase(phi) * s, phase(phi + lambda) * c]]
        },
        CircuitGate::CX(_) => vec![
            vec![ONE, ZERO, ZERO, ZERO],
            vec![ZERO, ONE, ZERO, ZERO],
            vec![ZERO, ZERO, ZERO, ONE],
            vec![ZERO, ZERO, ONE, ZERO],
        ],
        _ => panic!("no matrix for {} in these tests", gate.description()),
    }
}

fn assert_complex_matrix_eq(a0: &Matrix, a1: &Matrix)
{
    assert_eq!(a0.len(), a1.len());
    for (r0, r1) in a0.iter().zip(a1.iter())
    {
        assert_eq!(r0.len(), r1.len());
        for (x0, x1) in r0.iter().zip(r1.iter())
        {
            assert!((x0 - x1).norm() < 1.0e-12, "{} differs from {}", x0, x1);
        }
    }
}

/// The operation that was added last.
fn last(circuit: &Circuit<CircuitGate<f64>>) -> Option<&CircuitOp<CircuitGate<f64>>>
{
    match circuit.nr_ops()
    {
        0 => None,
        n => Some(circuit.op(n - 1)),
    }
}

#[test]
fn test_gate_methods()
{
    let z = ZERO;
    let o = ONE;
    let x = Complex64::new(::std::f64::consts::FRAC_1_SQRT_2, 0.0);
    let i = IM;

    let mut circuit: Circuit<CircuitGate<f64>> = Circuit::new(2, 0);
    circuit.h(0);
    match last(&circuit)
    {
        Some(CircuitOp::Gate(gate, bits)) => {
            assert!(matches!(gate, CircuitGate::H(_)));
            assert_complex_matrix_eq(&matrix(gate), &vec![vec![x, x], vec![x, -x]]);
            assert_eq!(bits, &vec![0]);
        },
        Some(_) => panic!("Value added was not an H gate"),
        None => panic!("H gate was not added"),
    }
    assert_eq!(circuit.nr_ops(), 1);

    circuit.x(1);
    match last(&circuit)
    {
        Some(CircuitOp::Gate(gate, bits)) => {
            assert!(matches!(gate, CircuitGate::X(_)));
            assert_complex_matrix_eq(&matrix(gate), &vec![vec![z, o], vec![o, z]]);
            assert_eq!(bits, &vec![1]);
        },
        Some(_) => panic!("Value added was not an X gate"),
        None => panic!("X gate was not added"),
    }
    assert_eq!(circuit.nr_ops(), 2);

    circuit.y(0);
    match last(&circuit)
    {
        Some(CircuitOp::Gate(gate, bits)) => {
            assert!(matches!(gate, CircuitGate::Y(_)));
            assert_complex_matrix_eq(&matrix(gate), &vec![vec![z, -i], vec![i, z]]);
            assert_eq!(bits, &vec![0]);
        },
        Some(_) => panic!("Value added was not a Y gate"),
        None => panic!("Y gate was not added"),
    }
    assert_eq!(circuit.nr_ops(), 3);

    circuit.z(1);
    match last(&circuit)
    {
        Some(CircuitOp::Gate(gate, bits)) => {
            assert!(matches!(gate, CircuitGate::Z(_)));
            assert_complex_matrix_eq(&matrix(gate), &vec![vec![o, z], vec![z, -o]]);
            assert_eq!(bits, &vec![1]);
        },
        Some(_) => panic!("Value added was not a Z gate"),
        None => panic!("Z gate was not added"),
    }
    assert_eq!(circuit.nr_ops(), 4);

    circuit.rx(::std::f64::consts::PI, 1);
    match last(&circuit)
    {
        Some(CircuitOp::Gate(gate, bits)) => {
            assert!(matches!(gate,
                CircuitGate::RX(g) if *g.theta().value() == ::std::f64::consts::PI));
            assert_complex_matrix_eq(&matrix(gate), &vec![vec![z, -i], vec![-i, z]]);
            assert_eq!(bits, &vec![1]);
        },
        Some(_) => panic!("Value added was not an RX gate"),
        None => panic!("RX gate was not added"),
    }
    assert_eq!(circuit.nr_ops(), 5);

    circuit.ry(::std::f64::consts::PI, 0);
    match last(&circuit)
    {
        Some(CircuitOp::Gate(gate, bits)) => {
            assert!(matches!(gate,
                CircuitGate::RY(g) if *g.theta().value() == ::std::f64::consts::PI));
            assert_complex_matrix_eq(&matrix(gate), &vec![vec![z, -o], vec![o, z]]);
            assert_eq!(bits, &vec![0]);
        },
        Some(_) => panic!("Value added was not an RY gate"),
        None => panic!("RY gate was not added"),
    }
    assert_eq!(circuit.nr_ops(), 6);

    circuit.rz(::std::f64::consts::PI, 1);
    match last(&circuit)
    {
        Some(CircuitOp::Gate(gate, bits)) => {
            assert!(matches!(gate,
                CircuitGate::RZ(g) if *g.lambda().value() == ::std::f64::consts::PI));
            assert_complex_matrix_eq(&matrix(gate), &vec![vec![-i, z], vec![z, i]]);
            assert_eq!(bits, &vec![1]);
        },
        Some(_) => panic!("Value added was not an RZ gate"),
        None => panic!("RZ gate was not added"),
    }
    assert_eq!(circuit.nr_ops(), 7);

    circuit.u1(::std::f64::consts::FRAC_PI_4, 1);
    match last(&circuit)
    {
        Some(CircuitOp::Gate(gate, bits)) => {
            assert!(matches!(gate,
                CircuitGate::U1(g) if *g.lambda().value() == ::std::f64::consts::FRAC_PI_4));
            assert_complex_matrix_eq(&matrix(gate), &vec![vec![o, z], vec![z, x * (o + i)]]);
            assert_eq!(bits, &vec![1]);
        },
        Some(_) => panic!("Value added was not a U1 gate"),
        None => panic!("U1 gate was not added"),
    }
    assert_eq!(circuit.nr_ops(), 8);

    circuit.u2(::std::f64::consts::FRAC_PI_4, ::std::f64::consts::FRAC_PI_2, 0);
    match last(&circuit)
    {
        Some(CircuitOp::Gate(gate, bits)) => {
            assert!(matches!(gate,
                CircuitGate::U2(g) if *g.phi().value() == ::std::f64::consts::FRAC_PI_4
                    && *g.lambda().value() == ::std::f64::consts::FRAC_PI_2));
            assert_complex_matrix_eq(&matrix(gate), &vec![
                vec![x, -x * i],
                vec![0.5 * (o + i), 0.5 * (-o + i)],
            ]);
            assert_eq!(bits, &vec![0]);
        },
        Some(_) => panic!("Value added was not a U2 gate"),
        None => panic!("U2 gate was not added"),
    }
    assert_eq!(circuit.nr_ops(), 9);

    circuit.u3(::std::f64::consts::PI, ::std::f64::consts::FRAC_PI_4,
        ::std::f64::consts::FRAC_PI_2, 0);
    match last(&circuit)
    {
        Some(CircuitOp::Gate(gate, bits)) => {
            assert!(matches!(gate,
                CircuitGate::U3(g) if *g.theta().value() == ::std::f64::consts::PI
                    && *g.phi().value() == ::std::f64::consts::FRAC_PI_4
                    && *g.lambda().value() == ::std::f64::consts::FRAC_PI_2));
            assert_complex_matrix_eq(&matrix(gate), &vec![
                vec![z, -i],
                vec![x * (o + i), z],
            ]);
            assert_eq!(bits, &vec![0]);
        },
        Some(_) => panic!("Value added was not a U3 gate"),
        None => panic!("U3 gate was not added"),
    }
    assert_eq!(circuit.nr_ops(), 10);

    circuit.cx(1, 0);
    match last(&circuit)
    {
        Some(CircuitOp::Gate(gate, bits)) => {
            assert!(matches!(gate, CircuitGate::CX(_)));
            assert_complex_matrix_eq(&matrix(gate), &vec![
                vec![o, z, z, z],
                vec![z, o, z, z],
                vec![z, z, z, o],
                vec![z, z, o, z],
            ]);
            assert_eq!(bits, &vec![1, 0]);
        },
        Some(_) => panic!("Value added was not a CX gate"),
        None => panic!("CX gate was not added"),
    }
    assert_eq!(circuit.nr_ops(), 11);
}

#[test]
fn test_controlled_variants()
{
    let ch: CircuitGate<f64> = CircuitGate::CH(C::new(H::new()));
    assert_eq!(ch.description(), "CH");
    assert_eq!(ch.nr_affected_bits(), 2);
    assert!(!ch.is_stabilizer());

    let ccx: CircuitGate<f64> = CircuitGate::CCX(C::new(CX::new()));
    assert_eq!(ccx.description(), "CCX");
    assert_eq!(ccx.nr_affected_bits(), 3);

    let ccz: CircuitGate<f64> = CircuitGate::CCZ(C::new(CZ::new()));
    assert_eq!(ccz.description(), "CCZ");
    assert_eq!(ccz.nr_affected_bits(), 3);

    let cs: CircuitGate<f64> = CircuitGate::Controlled(C::new(NamedGate::S(S::new())));
    assert_eq!(cs.description(), "CS");
    assert_eq!(cs.nr_affected_bits(), 2);

    // Z on the target commutes with S: with I or Z on the control nothing changes.
    let mut ops = [PauliOp::Z, PauliOp::Z];
    assert_eq!(cs.conjugate(&mut ops), Ok(false));
    assert_eq!(ops, [PauliOp::Z, PauliOp::Z]);
    // With X on the control the image is no Pauli string.
    let mut ops = [PauliOp::X, PauliOp::Z];
    assert_eq!(cs.conjugate(&mut ops), Err(Error::NotAStabilizer(String::from("CS"))));
    assert_eq!(ops, [PauliOp::X, PauliOp::Z]);
    let mut ops = [PauliOp::Z];
    assert_eq!(cs.conjugate(&mut ops), Err(Error::InvalidBitCount));

    let names = [String::from("q0"), String::from("q1"), String::from("q2")];
    assert_eq!(ch.open_qasm(&names, &[0, 1]),
        Err(Error::ExportUnsupported(String::from("CH"), String::from("OpenQasm"))));
    assert_eq!(ccx.c_qasm(&names, &[0, 1, 2]),
        Err(Error::ExportUnsupported(String::from("CCX"), String::from("c-Qasm"))));
    assert_eq!(cs.conditional_open_qasm("b == 1", &names, &[0, 1]),
        Err(Error::ExportUnsupported(String::from("CS"), String::from("OpenQasm"))));
}

#[test]
fn test_kron_variant()
{
    let hx: CircuitGate<f64> = CircuitGate::Kron(
        Kron::new(NamedGate::H(H::new()), NamedGate::X(X::new())));
    assert_eq!(hx.description(), "H⊗X");
    assert_eq!(hx.nr_affected_bits(), 2);
    assert!(hx.is_stabilizer());

    // H turns Z into X; X turns Z into -Z.
    let mut ops = [PauliOp::Z, PauliOp::Z];
    assert_eq!(hx.conjugate(&mut ops), Ok(true));
    assert_eq!(ops, [PauliOp::X, PauliOp::Z]);

    let names = [String::from("qb0"), String::from("qb1")];
    assert_eq!(hx.open_qasm(&names, &[1, 0]), Ok(String::from("h qb1; x qb0")));
    assert_eq!(hx.c_qasm(&names, &[0, 1]), Ok(String::from("{ h qb0 | x qb1 }")));

    // The part without a text decides.
    let hv: CircuitGate<f64> = CircuitGate::Kron(
        Kron::new(NamedGate::H(H::new()), NamedGate::V(V::new())));
    assert_eq!(hv.open_qasm(&names, &[0, 1]),
        Err(Error::ExportUnsupported(String::from("V"), String::from("OpenQasm"))));

    let mut circuit: Circuit<CircuitGate<f64>> = Circuit::new(2, 0);
    circuit.add_gate(hx, &[0, 1]);
    assert!(circuit.is_valid());
    assert_eq!(circuit.open_qasm(), Ok(String::from(
        "OPENQASM 2.0;\ninclude \"qelib1.inc\";\nqreg q[2];\nh q[0]; x q[1];\n")));
}

#[test]
fn test_export_reports_first_operation_without_text()
{
    // The `V` gate comes before the sample without collapse: its error is returned.
    let mut circuit: Circuit<CircuitGate<f64>> = Circuit::new(2, 2);
    circuit.h(0);
    circuit.add_gate(CircuitGate::V(V::new()), &[1]);
    circuit.peek_all(&[0, 1]);
    assert_eq!(circuit.open_qasm(),
        Err(Error::ExportUnsupported(String::from("V"), String::from("OpenQasm"))));
    assert_eq!(circuit.c_qasm(),
        Err(Error::ExportUnsupported(String::from("V"), String::from("c-Qasm"))));

    // The other way round, the sample is refused first.
    let mut circuit: Circuit<CircuitGate<f64>> = Circuit::new(2, 2);
    circuit.peek_all(&[0, 1]);
    circuit.add_gate(CircuitGate::V(V::new()), &[1]);
    assert_eq!(circuit.open_qasm(),
        Err(Error::ExportUnsupported(String::from("peek"), String::from("OpenQasm"))));
    assert_eq!(circuit.c_qasm(),
        Err(Error::ExportUnsupported(String::from("peek"), String::from("c-Qasm"))));

    // A condition on one bit of two, then a gate without text.
    let mut circuit: Circuit<CircuitGate<f64>> = Circuit::new(2, 2);
    circuit.add_conditional_gate(&[1], 1, CircuitGate::X(X::new()), &[0]);
    circuit.add_gate(CircuitGate::V(V::new()), &[1]);
    assert_eq!(circuit.open_qasm(), Err(Error::ExportUnsupported(
        String::from("condition on part of the classical register"), String::from("OpenQasm"))));

    // A gate without text in c-Qasm, then a measurement into another index.
    let mut circuit: Circuit<CircuitGate<f64>> = Circuit::new(2, 2);
    circuit.add_gate(CircuitGate::CY(CY::new()), &[0, 1]);
    circuit.measure(0, 1);
    assert_eq!(circuit.c_qasm(),
        Err(Error::ExportUnsupported(String::from("CY"), String::from("c-Qasm"))));
    let mut circuit: Circuit<CircuitGate<f64>> = Circuit::new(2, 2);
    circuit.measure(0, 1);
    circuit.add_gate(CircuitGate::CY(CY::new()), &[0, 1]);
    assert_eq!(circuit.c_qasm(), Err(Error::ExportUnsupported(
        String::from("measurement into the classical bit of another index"),
        String::from("c-Qasm"))));
}

#[test]
fn test_gates_made_in_several_steps()
{
    // A control on two gates side by side: the inner gates are circuit gates
    // themselves.
    let hx: CircuitGate<f64> = CircuitGate::Kron(
        Kron::new(NamedGate::H(H::new()), NamedGate::X(X::new())));
    let chx: CircuitGate<f64, CircuitGate<f64>> = CircuitGate::Controlled(C::new(hx));
    assert_eq!(chx.description(), "CH⊗X");
    assert_eq!(chx.nr_affected_bits(), 3);
    assert!(!chx.is_stabilizer());

    // The identity on the targets stays, and so does Z on the control.
    let mut ops = [PauliOp::Z, PauliOp::I, PauliOp::I];
    assert_eq!(chx.conjugate(&mut ops), Ok(false));
    assert_eq!(ops, [PauliOp::Z, PauliOp::I, PauliOp::I]);
    // The targets change under the inner gates: no string is the image.
    let mut ops = [PauliOp::I, PauliOp::Z, PauliOp::I];
    assert_eq!(chx.conjugate(&mut ops), Err(Error::NotAStabilizer(String::from("CH⊗X"))));
    assert_eq!(ops, [PauliOp::I, PauliOp::Z, PauliOp::I]);

    // Two such gates side by side, one of them a plain one.
    let z: CircuitGate<f64> = CircuitGate::Z(qusim::gates::Z::new());
    let s: CircuitGate<f64> = CircuitGate::S(S::new());
    let zs: CircuitGate<f64, CircuitGate<f64>> = CircuitGate::Kron(Kron::new(z, s));
    assert_eq!(zs.description(), "Z⊗S");
    let mut ops = [PauliOp::X, PauliOp::X];
    assert_eq!(zs.conjugate(&mut ops), Ok(true));
    assert_eq!(ops, [PauliOp::X, PauliOp::Y]);
    let names = [String::from("q0"), String::from("q1")];
    assert_eq!(zs.open_qasm(&names, &[0, 1]), Ok(String::from("z q0; s q1")));

    let mut circuit: Circuit<CircuitGate<f64, CircuitGate<f64>>> = Circuit::new(3, 0);
    circuit.add_gate(chx, &[2, 0, 1]);
    circuit.add_gate(zs, &[1, 2]);
    assert!(circuit.is_valid());
    assert_eq!(circuit.nr_ops(), 2);
    assert_eq!(circuit.open_qasm(),
        Err(Error::ExportUnsupported(String::from("CH⊗X"), String::from("OpenQasm"))));
}
