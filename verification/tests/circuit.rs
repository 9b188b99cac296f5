use qusim::circuit::{Basis, BasisGate, Circuit, CircuitOp, Step};
use qusim::error::Error;
use qusim::gates::{CircuitGate, Gate, CX, H, X};

#[test]
fn test_new_circuit()
{
    let circuit: Circuit<X> = Circuit::new(3, 2);
    assert_eq!(circuit.nr_qbits(), 3);
    assert_eq!(circuit.nr_cbits(), 2);
    assert_eq!(circuit.nr_ops(), 0);
    assert!(circuit.cstate().is_none());
    assert!(circuit.is_valid());
}

#[test]
fn test_builders()
{
    let mut circuit = Circuit::new(2, 2);
    circuit.add_gate(X::new(), &[1]);
    circuit.add_conditional_gate(&[0, 1], 2, X::new(), &[0]);
    circuit.measure_x(0, 1);
    circuit.measure_y(1, 0);
    circuit.measure_z(0, 0);
    circuit.measure(1, 1);
    circuit.measure_all(&[1, 0]);
    circuit.measure_all_basis(&[0, 1], Basis::Y);
    circuit.peek_all(&[0, 1]);
    circuit.reset(1);
    circuit.reset_all();
    circuit.barrier(&[0]);
    assert_eq!(circuit.nr_ops(), 12);
    assert!(matches!(circuit.op(0), CircuitOp::Gate(_, bits) if *bits == vec![1]));
    assert!(matches!(circuit.op(1),
        CircuitOp::ConditionalGate(control, 2, _, bits) if *control == vec![0, 1] && *bits == vec![0]));
    assert!(matches!(circuit.op(2), CircuitOp::Measure(0, 1, Basis::X)));
    assert!(matches!(circuit.op(3), CircuitOp::Measure(1, 0, Basis::Y)));
    assert!(matches!(circuit.op(4), CircuitOp::Measure(0, 0, Basis::Z)));
    assert!(matches!(circuit.op(5), CircuitOp::Measure(1, 1, Basis::Z)));
    assert!(matches!(circuit.op(6), CircuitOp::MeasureAll(cbits, Basis::Z) if *cbits == vec![1, 0]));
    assert!(matches!(circuit.op(7), CircuitOp::MeasureAll(cbits, Basis::Y) if *cbits == vec![0, 1]));
    assert!(matches!(circuit.op(8), CircuitOp::PeekAll(cbits) if *cbits == vec![0, 1]));
    assert!(matches!(circuit.op(9), CircuitOp::Reset(1)));
    assert!(matches!(circuit.op(10), CircuitOp::ResetAll));
    assert!(matches!(circuit.op(11), CircuitOp::Barrier(bits) if *bits == vec![0]));
    assert!(circuit.is_valid());
}

#[test]
fn test_plan_gates()
{
    let mut circuit = Circuit::new(2, 2);
    circuit.add_gate(CX::new(), &[0, 1]);
    circuit.add_conditional_gate(&[0, 1], 1, CX::new(), &[1, 0]);
    circuit.add_conditional_gate(&[], 1, CX::new(), &[1, 0]);
    circuit.barrier(&[0, 1]);
    circuit.reset(1);
    circuit.reset_all();
    circuit.peek_all(&[0, 1]);
    assert_eq!(circuit.plan(0), vec![Step::ApplyGate]);
    assert_eq!(circuit.plan(1), vec![Step::ApplyGateWhere]);
    // With an empty control list nothing is tested: every shot gets its gate.
    assert_eq!(circuit.plan(2), vec![Step::ApplyGate]);
    assert_eq!(circuit.plan(3), vec![]);
    assert_eq!(circuit.plan(4), vec![Step::Reset(1)]);
    assert_eq!(circuit.plan(5), vec![Step::ResetAll]);
    assert_eq!(circuit.plan(6), vec![Step::PeekAll]);
}

#[test]
fn test_plan_measurements()
{
    let mut circuit: Circuit<H> = Circuit::new(3, 3);
    circuit.measure(2, 0);
    circuit.measure_x(1, 2);
    circuit.measure_y(0, 1);
    circuit.measure_all(&[2, 0, 1]);
    circuit.measure_all_basis(&[0, 1, 2], Basis::X);
    circuit.measure_all_basis(&[0, 1, 2], Basis::Y);
    assert_eq!(circuit.plan(0), vec![Step::Measure(2, 0)]);
    assert_eq!(circuit.plan(1), vec![Step::ApplyUnary(BasisGate::H, 1), Step::Measure(1, 2)]);
    assert_eq!(circuit.plan(2), vec![
        Step::ApplyUnary(BasisGate::Sdg, 0),
        Step::ApplyUnary(BasisGate::H, 0),
        Step::Measure(0, 1)
    ]);
    assert_eq!(circuit.plan(3), vec![
        Step::Measure(0, 2), Step::Measure(1, 0), Step::Measure(2, 1)
    ]);
    assert_eq!(circuit.plan(4), vec![
        Step::ApplyUnaryAll(BasisGate::H),
        Step::Measure(0, 0), Step::Measure(1, 1), Step::Measure(2, 2)
    ]);
    assert_eq!(circuit.plan(5), vec![
        Step::ApplyUnaryAll(BasisGate::Sdg),
        Step::ApplyUnaryAll(BasisGate::H),
        Step::Measure(0, 0), Step::Measure(1, 1), Step::Measure(2, 2)
    ]);
}

#[test]
fn test_condition_mask()
{
    let mut circuit = Circuit::new(2, 2);
    circuit.add_conditional_gate(&[0, 1], 1, X::new(), &[1]);
    circuit.add_conditional_gate(&[0, 1], 2, X::new(), &[1]);
    circuit.add_conditional_gate(&[1], 1, X::new(), &[0]);
    circuit.add_conditional_gate(&[1, 0], 1, X::new(), &[0]);
    assert_eq!(circuit.condition_mask(0), Err(Error::NotExecuted));

    assert!(circuit.load_cstate(vec![0b01, 0b10, 0b10, 0b11, 0b00]));
    assert_eq!(circuit.condition_mask(0), Ok(vec![true, false, false, false, false]));
    assert_eq!(circuit.condition_mask(1), Ok(vec![false, true, true, false, false]));
    assert_eq!(circuit.condition_mask(2), Ok(vec![false, true, true, true, false]));
    // The first control index is the least significant bit of the word.
    assert_eq!(circuit.condition_mask(3), Ok(vec![false, true, true, false, false]));

    circuit.start(3);
    assert_eq!(circuit.condition_mask(0), Ok(vec![false, false, false]));
}

#[test]
fn test_start()
{
    let mut circuit: Circuit<X> = Circuit::new(2, 2);
    circuit.start(5);
    assert_eq!(circuit.cstate().map(|r| r.to_vec()), Some(vec![0, 0, 0, 0, 0]));
    assert!(circuit.load_cstate(vec![1, 2]));
    circuit.start(3);
    assert_eq!(circuit.cstate().map(|r| r.to_vec()), Some(vec![0, 0, 0]));
}

#[test]
fn test_load_cstate()
{
    let mut circuit: Circuit<X> = Circuit::new(2, 2);
    assert!(!circuit.load_cstate(vec![0b01, 0b100]));
    assert!(circuit.cstate().is_none());
    assert!(circuit.load_cstate(vec![0b01, 0b11]));
    assert_eq!(circuit.cstate().map(|r| r.to_vec()), Some(vec![0b01, 0b11]));
    assert!(!circuit.load_cstate(vec![4]));
    assert_eq!(circuit.cstate().map(|r| r.to_vec()), Some(vec![0b01, 0b11]));

    let mut circuit: Circuit<X> = Circuit::new(2, 64);
    assert!(circuit.load_cstate(vec![u64::MAX]));
}

#[test]
fn test_store_measurement()
{
    let mut circuit: Circuit<X> = Circuit::new(2, 2);
    assert_eq!(circuit.store_measurement(0, &[true]), Err(Error::NotExecuted));
    circuit.start(4);
    assert_eq!(circuit.store_measurement(0, &[true, false, true, false]), Ok(()));
    assert_eq!(circuit.cstate().map(|r| r.to_vec()), Some(vec![0b01, 0b00, 0b01, 0b00]));
    assert_eq!(circuit.store_measurement(1, &[true, true, false, false]), Ok(()));
    assert_eq!(circuit.cstate().map(|r| r.to_vec()), Some(vec![0b11, 0b10, 0b01, 0b00]));
    // A later outcome replaces the bit that was there.
    assert_eq!(circuit.store_measurement(0, &[false, true, true, false]), Ok(()));
    assert_eq!(circuit.cstate().map(|r| r.to_vec()), Some(vec![0b10, 0b11, 0b01, 0b00]));
}

#[test]
fn test_store_peek()
{
    let mut circuit: Circuit<X> = Circuit::new(2, 4);
    circuit.peek_all(&[0, 1]);
    circuit.peek_all(&[3, 2]);
    assert_eq!(circuit.store_peek(0, &[0b10]), Err(Error::NotExecuted));
    circuit.start(4);
    // Qubit 0 is the most significant bit of a sampled basis state.
    assert_eq!(circuit.store_peek(0, &[0b00, 0b01, 0b10, 0b11]), Ok(()));
    assert_eq!(circuit.cstate().map(|r| r.to_vec()), Some(vec![0b00, 0b10, 0b01, 0b11]));
    assert_eq!(circuit.store_peek(1, &[0b10, 0b10, 0b01, 0b00]), Ok(()));
    assert_eq!(circuit.cstate().map(|r| r.to_vec()),
        Some(vec![0b1000, 0b1010, 0b0101, 0b0011]));
}

#[test]
fn test_histograms()
{
    let mut circuit: Circuit<X> = Circuit::new(2, 2);
    assert_eq!(circuit.histogram(), Err(Error::NotExecuted));
    assert_eq!(circuit.histogram_vec(), Err(Error::NotExecuted));

    assert!(circuit.load_cstate(vec![0b01, 0b10, 0b10, 0b11, 0b01, 0b10]));
    let hist = circuit.histogram().unwrap();
    let mut keys: Vec<&u64> = hist.keys().collect();
    keys.sort();
    assert_eq!(keys, vec![&1, &2, &3]);
    assert_eq!(hist[&1], 2);
    assert_eq!(hist[&2], 3);
    assert_eq!(hist[&3], 1);

    let hist_vec = circuit.histogram_vec().unwrap();
    assert_eq!(hist_vec, vec![0, 2, 3, 1]);
}

#[test]
fn test_histogram_vec_adds_up_to_shots()
{
    let words: Vec<u64> = (0..1000u64).map(|i| (i * i + 3 * i) % 8).collect();
    let mut circuit: Circuit<X> = Circuit::new(1, 3);
    assert!(circuit.load_cstate(words));
    let hist_vec = circuit.histogram_vec().unwrap();
    assert_eq!(hist_vec.len(), 8);
    assert_eq!(hist_vec.iter().sum::<usize>(), 1000);

    circuit.start(17);
    let hist_vec = circuit.histogram_vec().unwrap();
    assert_eq!(hist_vec, vec![17, 0, 0, 0, 0, 0, 0, 0]);
}

#[test]
fn test_histograms_agree()
{
    let words: Vec<u64> = (0..500u64).map(|i| (7 * i + i / 3) % 16).filter(|w| *w != 5).collect();
    let mut circuit: Circuit<X> = Circuit::new(1, 4);
    assert!(circuit.load_cstate(words));
    let hist = circuit.histogram().unwrap();
    let hist_vec = circuit.histogram_vec().unwrap();
    for key in 0..16u64
    {
        let count = hist.get(&key).copied().unwrap_or(0);
        assert_eq!(hist_vec[key as usize], count);
        assert_eq!(hist.contains_key(&key), count > 0);
    }
    assert!(!hist.contains_key(&5));
}

#[test]
fn test_is_valid()
{
    let mut circuit = Circuit::new(2, 2);
    circuit.add_gate(CX::new(), &[1, 0]);
    circuit.measure(1, 1);
    circuit.measure_all(&[1, 0]);
    assert!(circuit.is_valid());

    let mut circuit = Circuit::new(2, 2);
    circuit.add_gate(CX::new(), &[1]);
    assert!(!circuit.is_valid());

    let mut circuit = Circuit::new(2, 2);
    circuit.add_gate(CX::new(), &[1, 1]);
    assert!(!circuit.is_valid());

    let mut circuit = Circuit::new(2, 2);
    circuit.add_gate(CX::new(), &[0, 2]);
    assert!(!circuit.is_valid());

    let mut circuit: Circuit<CX> = Circuit::new(2, 2);
    circuit.measure(0, 2);
    assert!(!circuit.is_valid());

    let mut circuit: Circuit<CX> = Circuit::new(2, 2);
    circuit.measure_all(&[0]);
    assert!(!circuit.is_valid());

    let mut circuit = Circuit::new(2, 2);
    circuit.add_conditional_gate(&[0, 2], 1, CX::new(), &[0, 1]);
    assert!(!circuit.is_valid());

    let circuit: Circuit<CX> = Circuit::new(2, 65);
    assert!(!circuit.is_valid());
}

#[test]
fn test_histogram_string_entries()
{
    let mut circuit: Circuit<X> = Circuit::new(2, 3);
    assert_eq!(circuit.histogram_string(), Err(Error::NotExecuted));
    assert!(circuit.load_cstate(vec![0b001, 0b110, 0b001, 0b000, 0b110, 0b001]));
    // One entry per word, in the order in which the words first occur; the last
    // character of a key shows classical bit 0.
    assert_eq!(circuit.histogram_string(), Ok(vec![
        (String::from("001"), 3),
        (String::from("110"), 2),
        (String::from("000"), 1),
    ]));
}

#[test]
fn test_parametrized_builders()
{
    let mut circuit: Circuit<CircuitGate<f64>> = Circuit::new(2, 0);
    circuit.h(0);
    circuit.rx(0.5, 1);
    circuit.ry(1.5, 0);
    circuit.rz(2.5, 1);
    circuit.u1(0.25, 0);
    circuit.u2(0.5, 0.75, 1);
    circuit.u3(1.0, 2.0, 3.0, 0);
    circuit.y(1);
    circuit.z(0);
    circuit.cx(1, 0);
    assert_eq!(circuit.nr_ops(), 10);
    assert!(circuit.is_valid());
    let descriptions: Vec<String> = (0..circuit.nr_ops()).map(|k| match circuit.op(k)
    {
        CircuitOp::Gate(gate, _) => String::from(gate.description()),
        _ => String::new(),
    }).collect();
    assert_eq!(descriptions, vec!["H", "RX(0.5000)", "RY(1.5000)", "RZ(2.5000)", "U1(0.2500)",
        "U2(0.5000, 0.7500)", "U3(1.0000, 2.0000, 3.0000)", "Y", "Z", "CX"]);
    assert!(matches!(circuit.op(9), CircuitOp::Gate(CircuitGate::CX(_), bits) if *bits == vec![1, 0]));
    assert_eq!(circuit.open_qasm(), Ok(String::from(
        "OPENQASM 2.0;\ninclude \"qelib1.inc\";\nqreg q[2];\nh q[0];\nrx(0.5) q[1];\nry(1.5) q[0];\nrz(2.5) q[1];\nu1(0.25) q[0];\nu2(0.5, 0.75) q[1];\nu3(1, 2, 3) q[0];\ny q[1];\nz q[0];\ncx q[1], q[0];\n")));
}

#[test]
fn test_histogram_values_add_up_to_shots()
{
    // 40 classical bits: too many for a vector, but the map has a key for each
    // word that occurs, and its counts add up to the number of shots.
    let words: Vec<u64> = (0..300u64).map(|i| (i % 7) << 33 | (i % 3)).collect();
    let mut circuit: Circuit<X> = Circuit::new(1, 40);
    assert!(circuit.load_cstate(words.clone()));
    let hist = circuit.histogram().unwrap();
    assert_eq!(hist.values().sum::<usize>(), 300);
    assert_eq!(hist.len(), 21);
    for word in words
    {
        assert!(hist.contains_key(&word));
    }
    let hist_string = circuit.histogram_string().unwrap();
    assert_eq!(hist_string.iter().map(|entry| entry.1).sum::<usize>(), 300);
    assert_eq!(hist_string.len(), 21);
    assert!(hist_string.iter().all(|entry| entry.0.len() == 40));
}
