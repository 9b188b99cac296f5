use num_complex::Complex64;
use qusim::circuit::{Basis, BasisGate, Circuit, CircuitOp, Step};
use qusim::gates::{bit_permutation, CircuitGate, Gate, CX, CZ, H, S, Sdg, X, Y, Z};
use qusim::layout::{basis_column, is_qubit_set, project};
use qusim::stabilizer::{PauliOp, StabilizerMatrix};
use rand::rngs::StdRng;
use rand::{Rng, SeedableRng};

const ZERO: Complex64 = Complex64 { re: 0.0, im: 0.0 };
const ONE: Complex64 = Complex64 { re: 1.0, im: 0.0 };
const IM: Complex64 = Complex64 { re: 0.0, im: 1.0 };

type Matrix = Vec<Vec<Complex64>>;

/// A small dense state for the tests: one column of amplitudes per shot.
struct Dense
{
    nr_bits: usize,
    columns: Vec<Vec<Complex64>>,
    rng: StdRng,
}

fn matrix_of(gate: &CircuitGate<f64>) -> Matrix
{
    let x = Complex64::new(::std::f64::consts::FRAC_1_SQRT_2, 0.0);
    match gate
    {
        CircuitGate::I(_) => vec![vec![ONE, ZERO], vec![ZERO, ONE]],
        CircuitGate::X(_) => vec![vec![ZERO, ONE], vec![ONE, ZERO]],
        CircuitGate::Y(_) => vec![vec![ZERO, -IM], vec![IM, ZERO]],
        CircuitGate::Z(_) => vec![vec![ONE, ZERO], vec![ZERO, -ONE]],
        CircuitGate::H(_) => vec![vec![x, x], vec![x, -x]],
        CircuitGate::S(_) => vec![vec![ONE, ZERO], vec![ZERO, IM]],
        CircuitGate::Sdg(_) => vec![vec![ONE, ZERO], vec![ZERO, -IM]],
        CircuitGate::CX(_) => vec![
            vec![ONE, ZERO, ZERO, ZERO],
            vec![ZERO, ONE, ZERO, ZERO],
            vec![ZERO, ZERO, ZERO, ONE],
            vec![ZERO, ZERO, ONE, ZERO],
        ],
        CircuitGate::CZ(_) => vec![
            vec![ONE, ZERO, ZERO, ZERO],
            vec![ZERO, ONE, ZERO, ZERO],
            vec![ZERO, ZERO, ONE, ZERO],
            vec![ZERO, ZERO, ZERO, -ONE],
        ],
        _ => panic!("no matrix for {} in these tests", gate.description()),
    }
}

impl Dense
{
    fn new(nr_bits: usize, nr_shots: usize, seed: u64) -> Self
    {
        Dense {
            nr_bits: nr_bits,
            columns: vec![basis_column(nr_bits, ZERO, ONE); nr_shots],
            rng: StdRng::seed_from_u64(seed),
        }
    }

    fn apply(&mut self, gate: &CircuitGate<f64>, bits: &[usize], mask: Option<&[bool]>)
    {
        let perm = bit_permutation(self.nr_bits, bits);
        let mat = matrix_of(gate);
        let blocks = mat.len();
        for (shot, column) in self.columns.iter_mut().enumerate()
        {
            if mask.map_or(true, |m| m[shot])
            {
                let mut rows = perm.apply(column);
                match gate
                {
                    CircuitGate::X(_) => X::transform(&mut rows),
                    CircuitGate::CX(_) => CX::transform(&mut rows),
                    _ => {
                        let n = rows.len() / blocks;
                        let mut res = vec![ZERO; rows.len()];
                        for i in 0..blocks
                        {
                            for j in 0..blocks
                            {
                                for k in 0..n
                                {
                                    res[i * n + k] += mat[i][j] * rows[j * n + k];
                                }
                            }
                        }
                        rows = res;
                    },
                }
                *column = perm.apply_inverse(&rows);
            }
        }
    }

    fn measure(&mut self, qbit: usize) -> Vec<bool>
    {
        let mut outcomes = vec![];
        for column in self.columns.iter_mut()
        {
            let p_one: f64 = column.iter().enumerate()
                .filter(|(row, _)| is_qubit_set(*row, self.nr_bits, qbit))
                .map(|(_, x)| x.norm_sqr())
                .sum();
            let outcome = self.rng.gen::<f64>() < p_one;
            let p = if outcome { p_one } else { 1.0 - p_one };
            project(column, self.nr_bits, qbit, outcome, ZERO);
            for x in column.iter_mut()
            {
                *x /= p.sqrt();
            }
            outcomes.push(outcome);
        }
        outcomes
    }

    fn peek(&mut self) -> Vec<usize>
    {
        let mut samples = vec![];
        for column in self.columns.iter()
        {
            let u = self.rng.gen::<f64>();
            let mut total = 0.0;
            let mut sample = column.len() - 1;
            for (row, x) in column.iter().enumerate()
            {
                total += x.norm_sqr();
                if u < total
                {
                    sample = row;
                    break;
                }
            }
            samples.push(sample);
        }
        samples
    }

    fn norms_are_one(&self) -> bool
    {
        self.columns.iter().all(|column| {
            let norm: f64 = column.iter().map(|x| x.norm_sqr()).sum::<f64>().sqrt();
            (norm - 1.0).abs() < 1.0e-10
        })
    }
}

/// Run the operations of `circuit` on `state`, step by step as the circuit plans
/// them.
fn run(circuit: &mut Circuit<CircuitGate<f64>>, state: &mut Dense)
{
    assert!(circuit.is_valid());
    let h = CircuitGate::H(H::new());
    let sdg = CircuitGate::Sdg(Sdg::new());
    let x = CircuitGate::X(X::new());
    for k in 0..circuit.nr_ops()
    {
        for step in circuit.plan(k)
        {
            match step
            {
                Step::ApplyGate => match circuit.op(k)
                {
                    CircuitOp::Gate(gate, bits)
                    | CircuitOp::ConditionalGate(_, _, gate, bits) => state.apply(gate, bits, None),
                    _ => unreachable!(),
                },
                Step::ApplyGateWhere => {
                    let mask = circuit.condition_mask(k).unwrap();
                    match circuit.op(k)
                    {
                        CircuitOp::ConditionalGate(_, _, gate, bits) =>
                            state.apply(gate, bits, Some(&mask)),
                        _ => unreachable!(),
                    }
                },
                Step::ApplyUnary(BasisGate::H, qbit) => state.apply(&h, &[qbit], None),
                Step::ApplyUnary(BasisGate::Sdg, qbit) => state.apply(&sdg, &[qbit], None),
                Step::ApplyUnaryAll(gate) => {
                    for qbit in 0..circuit.nr_qbits()
                    {
                        match gate
                        {
                            BasisGate::H => state.apply(&h, &[qbit], None),
                            BasisGate::Sdg => state.apply(&sdg, &[qbit], None),
                        }
                    }
                },
                Step::Measure(qbit, cbit) => {
                    let outcomes = state.measure(qbit);
                    circuit.store_measurement(cbit, &outcomes).unwrap();
                },
                Step::PeekAll => {
                    let samples = state.peek();
                    circuit.store_peek(k, &samples).unwrap();
                },
                Step::Reset(qbit) => {
                    let outcomes = state.measure(qbit);
                    state.apply(&x, &[qbit], Some(&outcomes));
                },
                Step::ResetAll => {
                    let shots = state.columns.len();
                    state.columns = vec![basis_column(state.nr_bits, ZERO, ONE); shots];
                },
            }
            assert!(state.norms_are_one());
        }
    }
}

/// Whether a count of `count` out of `nr_shots` fits the probability `prob`: it
/// lies within five standard deviations of the expected count.
fn measurement_ok(count: usize, nr_shots: usize, prob: f64) -> bool
{
    let n = nr_shots as f64;
    let sigma = (n * prob * (1.0 - prob)).sqrt();
    (count as f64 - n * prob).abs() <= 5.0 * sigma
}

#[test]
fn test_execute()
{
    let nr_shots = 5;
    let mut circuit = Circuit::new(2, 2);
    circuit.add_gate(CircuitGate::X(X::new()), &[0]);
    circuit.add_gate(CircuitGate::X(X::new()), &[1]);
    circuit.add_gate(CircuitGate::CX(CX::new()), &[0, 1]);
    circuit.measure(0, 0);
    circuit.measure(1, 1);
    circuit.start(nr_shots);
    let mut state = Dense::new(2, nr_shots, 1);
    run(&mut circuit, &mut state);
    assert_eq!(circuit.cstate().map(|r| r.to_vec()), Some(vec![0b01, 0b01, 0b01, 0b01, 0b01]));
}

#[test]
fn test_histogram()
{
    let nr_shots = 4096;
    let mut circuit = Circuit::new(2, 2);
    circuit.add_gate(CircuitGate::H(H::new()), &[0]);
    circuit.add_gate(CircuitGate::H(H::new()), &[1]);
    circuit.measure(0, 0);
    circuit.measure(1, 1);
    circuit.start(nr_shots);
    let mut state = Dense::new(2, nr_shots, 2);
    run(&mut circuit, &mut state);

    let hist = circuit.histogram().unwrap();
    // With this many shots, we expect all keys to be present
    let mut keys: Vec<&u64> = hist.keys().collect();
    keys.sort();
    assert_eq!(keys, vec![&0, &1, &2, &3]);

    assert_eq!(hist.values().sum::<usize>(), nr_shots);
    assert!(hist.values().all(|&count| measurement_ok(count, nr_shots, 0.25)));
}

#[test]
fn test_histogram_vec()
{
    let nr_shots = 4096;
    let mut circuit = Circuit::new(2, 2);
    circuit.add_gate(CircuitGate::H(H::new()), &[0]);
    circuit.add_gate(CircuitGate::H(H::new()), &[1]);
    circuit.measure(0, 0);
    circuit.measure(1, 1);
    circuit.start(nr_shots);
    let mut state = Dense::new(2, nr_shots, 3);
    run(&mut circuit, &mut state);

    let hist = circuit.histogram_vec().unwrap();
    assert_eq!(hist.iter().sum::<usize>(), nr_shots);
    assert!(hist.iter().all(|&count| measurement_ok(count, nr_shots, 0.25)));
}

#[test]
fn test_histogram_string()
{
    let nr_shots = 4096;
    let mut circuit = Circuit::new(2, 2);
    circuit.add_gate(CircuitGate::H(H::new()), &[0]);
    circuit.add_gate(CircuitGate::H(H::new()), &[1]);
    circuit.measure(0, 0);
    circuit.measure(1, 1);
    circuit.start(nr_shots);
    let mut state = Dense::new(2, nr_shots, 4);
    run(&mut circuit, &mut state);

    let hist = circuit.histogram_string().unwrap();
    // With this many shots, we expect all keys to be present
    let mut keys: Vec<&String> = hist.iter().map(|(key, _)| key).collect();
    keys.sort();
    assert_eq!(keys, vec!["00", "01", "10", "11"]);

    assert_eq!(hist.iter().map(|(_, count)| *count).sum::<usize>(), nr_shots);
    assert!(hist.iter().all(|(_, count)| measurement_ok(*count, nr_shots, 0.25)));
}

#[test]
fn test_reset()
{
    let nr_shots = 1024;

    let mut circuit: Circuit<CircuitGate<f64>> = Circuit::new(2, 2);
    circuit.h(0);
    circuit.z(0);
    circuit.reset(0);
    circuit.measure(0, 0);
    circuit.measure(1, 1);
    circuit.start(nr_shots);
    run(&mut circuit, &mut Dense::new(2, nr_shots, 5));
    let hist = circuit.histogram_vec().unwrap();
    assert_eq!(hist, vec![nr_shots, 0, 0, 0]);

    let mut circuit: Circuit<CircuitGate<f64>> = Circuit::new(2, 2);
    circuit.h(0);
    circuit.z(0);
    circuit.x(1);
    circuit.reset(0);
    circuit.measure(0, 0);
    circuit.measure(1, 1);
    circuit.start(nr_shots);
    run(&mut circuit, &mut Dense::new(2, nr_shots, 6));
    let hist = circuit.histogram_vec().unwrap();
    assert_eq!(hist, vec![0, 0, nr_shots, 0]);

    let mut circuit: Circuit<CircuitGate<f64>> = Circuit::new(2, 2);
    circuit.h(0);
    circuit.z(0);
    circuit.h(1);
    circuit.reset(0);
    circuit.measure(0, 0);
    circuit.measure(1, 1);
    circuit.start(nr_shots);
    run(&mut circuit, &mut Dense::new(2, nr_shots, 7));
    let hist = circuit.histogram_vec().unwrap();
    assert!(measurement_ok(hist[0], nr_shots, 0.5));
    assert_eq!(hist[1], 0);
    assert!(measurement_ok(hist[2], nr_shots, 0.5));
    assert_eq!(hist[3], 0);
}

#[test]
fn test_reset_after_h_z_measure_all()
{
    let nr_shots = 1024;
    let mut circuit: Circuit<CircuitGate<f64>> = Circuit::new(2, 2);
    circuit.h(0);
    circuit.z(0);
    circuit.reset(0);
    circuit.x(1);
    circuit.measure_all(&[0, 1]);
    circuit.start(nr_shots);
    run(&mut circuit, &mut Dense::new(2, nr_shots, 8));
    assert_eq!(circuit.cstate().map(|r| r.to_vec()), Some(vec![0b10; 1024]));
}

#[test]
fn test_conditional()
{
    let x = || CircuitGate::X(X::new());

    let mut circuit = Circuit::new(2, 2);
    circuit.add_conditional_gate(&[0, 1], 1, x(), &[1]);
    circuit.measure_all(&[0, 1]);
    circuit.start(5);
    run(&mut circuit, &mut Dense::new(2, 5, 9));
    assert_eq!(circuit.cstate().map(|r| r.to_vec()), Some(vec![0b00, 0b00, 0b00, 0b00, 0b00]));

    let mut circuit = Circuit::new(2, 2);
    assert!(circuit.load_cstate(vec![0b01, 0b10, 0b10, 0b11, 0b00]));
    circuit.add_conditional_gate(&[0, 1], 1, x(), &[1]);
    circuit.measure_all(&[0, 1]);
    run(&mut circuit, &mut Dense::new(2, 5, 10));
    assert_eq!(circuit.cstate().map(|r| r.to_vec()), Some(vec![0b10, 0b00, 0b00, 0b00, 0b00]));

    let mut circuit = Circuit::new(2, 2);
    assert!(circuit.load_cstate(vec![0b01, 0b10, 0b10, 0b11, 0b00]));
    circuit.add_conditional_gate(&[0, 1], 2, x(), &[1]);
    circuit.measure_all(&[0, 1]);
    run(&mut circuit, &mut Dense::new(2, 5, 11));
    assert_eq!(circuit.cstate().map(|r| r.to_vec()), Some(vec![0b00, 0b10, 0b10, 0b00, 0b00]));

    let mut circuit = Circuit::new(2, 2);
    assert!(circuit.load_cstate(vec![0b01, 0b10, 0b10, 0b11, 0b00]));
    circuit.add_conditional_gate(&[1], 1, x(), &[0]);
    circuit.measure_all(&[0, 1]);
    run(&mut circuit, &mut Dense::new(2, 5, 12));
    assert_eq!(circuit.cstate().map(|r| r.to_vec()), Some(vec![0b00, 0b01, 0b01, 0b01, 0b00]));
}

#[test]
fn test_peek_all()
{
    let nr_shots = 1024;

    let mut circuit: Circuit<CircuitGate<f64>> = Circuit::new(1, 3);
    circuit.h(0);
    circuit.peek_all(&[0]);
    circuit.h(0);
    circuit.peek_all(&[1]);
    circuit.h(0);
    circuit.peek_all(&[2]);
    circuit.start(1024);
    run(&mut circuit, &mut Dense::new(1, nr_shots, 13));
    let hist = circuit.histogram_vec().unwrap();
    // Results of first and third measurement should be approximately equally
    // distributed over 0 and 1, second should be pure 0.
    let n00 = hist[0] + hist[2] + hist[4] + hist[6];
    assert!(measurement_ok(n00, nr_shots, 0.5));
    let n10 = hist[0] + hist[1] + hist[4] + hist[5];
    assert!(n10 == nr_shots);
    let n20 = hist[0] + hist[1] + hist[2] + hist[3];
    assert!(measurement_ok(n20, nr_shots, 0.5));

    let mut circuit: Circuit<CircuitGate<f64>> = Circuit::new(2, 6);
    circuit.h(0);
    circuit.h(1);
    circuit.peek_all(&[0, 1]);
    circuit.h(0);
    circuit.peek_all(&[2, 3]);
    circuit.h(0);
    circuit.peek_all(&[4, 5]);
    circuit.start(1024);
    run(&mut circuit, &mut Dense::new(2, nr_shots, 14));
    let hist = circuit.histogram().unwrap();
    let mut n0 = [0; 4];
    let mut n1 = [0; 4];
    let mut n2 = [0; 4];
    for (key, count) in hist
    {
        n0[key as usize & 0x03] += count;
        n1[(key as usize >> 2) & 0x03] += count;
        n2[(key as usize >> 4) & 0x03] += count;
    }
    assert!(n0.iter().all(|&count| measurement_ok(count, nr_shots, 0.25)));
    assert_eq!(n1[1], 0);
    assert_eq!(n1[3], 0);
    assert!(measurement_ok(n1[0], nr_shots, 0.5));
    assert!(measurement_ok(n1[2], nr_shots, 0.5));
    assert!(n2.iter().all(|&count| measurement_ok(count, nr_shots, 0.25)));
}

#[test]
fn test_measure()
{
    let nr_shots = 1024;

    let mut circuit: Circuit<CircuitGate<f64>> = Circuit::new(2, 2);
    circuit.x(0);
    circuit.measure(0, 0);
    circuit.measure(1, 1);
    circuit.start(nr_shots);
    run(&mut circuit, &mut Dense::new(2, nr_shots, 20));
    let hist = circuit.histogram_vec().unwrap();
    assert_eq!(hist, vec![0, nr_shots, 0, 0]);

    let mut circuit: Circuit<CircuitGate<f64>> = Circuit::new(2, 2);
    circuit.x(0);
    circuit.measure_x(0, 0);
    circuit.measure_x(1, 1);
    circuit.start(nr_shots);
    run(&mut circuit, &mut Dense::new(2, nr_shots, 21));
    let hist = circuit.histogram_vec().unwrap();
    assert!(hist.iter().all(|&count| measurement_ok(count, nr_shots, 0.25)));

    let mut circuit: Circuit<CircuitGate<f64>> = Circuit::new(2, 2);
    circuit.x(0);
    circuit.h(0);
    circuit.h(1);
    circuit.measure_x(0, 0);
    circuit.measure_x(1, 1);
    circuit.start(nr_shots);
    run(&mut circuit, &mut Dense::new(2, nr_shots, 22));
    let hist = circuit.histogram_vec().unwrap();
    assert_eq!(hist, vec![0, nr_shots, 0, 0]);

    let mut circuit: Circuit<CircuitGate<f64>> = Circuit::new(2, 2);
    circuit.x(0);
    circuit.measure_y(0, 0);
    circuit.measure_y(1, 1);
    circuit.start(nr_shots);
    run(&mut circuit, &mut Dense::new(2, nr_shots, 23));
    let hist = circuit.histogram_vec().unwrap();
    assert!(hist.iter().all(|&count| measurement_ok(count, nr_shots, 0.25)));
}

#[test]
fn test_measure_all()
{
    let nr_shots = 1024;

    let mut circuit: Circuit<CircuitGate<f64>> = Circuit::new(2, 2);
    circuit.x(0);
    circuit.measure_all(&[0, 1]);
    circuit.start(nr_shots);
    run(&mut circuit, &mut Dense::new(2, nr_shots, 24));
    let hist = circuit.histogram_vec().unwrap();
    assert_eq!(hist, vec![0, nr_shots, 0, 0]);

    let mut circuit: Circuit<CircuitGate<f64>> = Circuit::new(2, 2);
    circuit.x(0);
    circuit.measure_all(&[1, 0]);
    circuit.start(nr_shots);
    run(&mut circuit, &mut Dense::new(2, nr_shots, 25));
    let hist = circuit.histogram_vec().unwrap();
    assert_eq!(hist, vec![0, 0, nr_shots, 0]);

    let mut circuit: Circuit<CircuitGate<f64>> = Circuit::new(2, 2);
    circuit.h(0);
    circuit.h(1);
    circuit.measure_all(&[0, 1]);
    circuit.start(nr_shots);
    run(&mut circuit, &mut Dense::new(2, nr_shots, 26));
    let hist = circuit.histogram_vec().unwrap();
    assert!(hist.iter().all(|&count| measurement_ok(count, nr_shots, 0.25)));
}

#[test]
fn test_measure_all_basis()
{
    let nr_shots = 1024;

    let mut circuit: Circuit<CircuitGate<f64>> = Circuit::new(2, 2);
    circuit.h(0);
    circuit.h(1);
    circuit.measure_all_basis(&[0, 1], Basis::X);
    circuit.start(nr_shots);
    run(&mut circuit, &mut Dense::new(2, nr_shots, 15));
    let hist = circuit.histogram_vec().unwrap();
    assert_eq!(hist, vec![nr_shots, 0, 0, 0]);

    let mut circuit: Circuit<CircuitGate<f64>> = Circuit::new(2, 2);
    circuit.x(0);
    circuit.h(0);
    circuit.h(1);
    circuit.measure_all_basis(&[0, 1], Basis::X);
    circuit.start(nr_shots);
    run(&mut circuit, &mut Dense::new(2, nr_shots, 27));
    let hist = circuit.histogram_vec().unwrap();
    assert_eq!(hist, vec![0, nr_shots, 0, 0]);

    let mut circuit: Circuit<CircuitGate<f64>> = Circuit::new(2, 2);
    circuit.x(0);
    circuit.h(0);
    circuit.h(1);
    circuit.add_gate(CircuitGate::S(S::new()), &[0]);
    circuit.add_gate(CircuitGate::S(S::new()), &[1]);
    circuit.measure_all_basis(&[0, 1], Basis::Y);
    circuit.start(nr_shots);
    run(&mut circuit, &mut Dense::new(2, nr_shots, 16));
    let hist = circuit.histogram_vec().unwrap();
    assert_eq!(hist, vec![0, nr_shots, 0, 0]);

    let mut circuit: Circuit<CircuitGate<f64>> = Circuit::new(2, 2);
    circuit.measure_all_basis(&[0, 1], Basis::Y);
    circuit.start(nr_shots);
    run(&mut circuit, &mut Dense::new(2, nr_shots, 28));
    let hist = circuit.histogram_vec().unwrap();
    assert!(hist.iter().all(|&count| measurement_ok(count, nr_shots, 0.25)));
}

#[test]
fn test_reset_all()
{
    let nr_shots = 1024;

    let mut circuit: Circuit<CircuitGate<f64>> = Circuit::new(5, 5);
    circuit.h(0);
    circuit.z(0);
    circuit.x(4);
    circuit.h(3);
    circuit.reset_all();
    circuit.measure_all(&[0, 1, 2, 3, 4]);
    circuit.start(nr_shots);
    run(&mut circuit, &mut Dense::new(5, nr_shots, 29));
    let hist = circuit.histogram_vec().unwrap();
    assert_eq!(hist[0], nr_shots);
    assert!(hist[1..].iter().all(|&c| c == 0));
}

/// The matrix of one Pauli operator.
fn pauli_matrix(op: PauliOp) -> Matrix
{
    match op
    {
        PauliOp::I => vec![vec![ONE, ZERO], vec![ZERO, ONE]],
        PauliOp::Z => vec![vec![ONE, ZERO], vec![ZERO, -ONE]],
        PauliOp::X => vec![vec![ZERO, ONE], vec![ONE, ZERO]],
        PauliOp::Y => vec![vec![ZERO, -IM], vec![IM, ZERO]],
    }
}

/// Whether every generator of the tableau leaves the state as it is.
fn stabilizes(m: &StabilizerMatrix, state: &[Complex64]) -> bool
{
    let n = m.nr_bits();
    for i in 0..n
    {
        let mut image = state.to_vec();
        for j in 0..n
        {
            // Apply the operator on qubit j to the image.
            let mat = pauli_matrix(m.get(i, j));
            let perm = bit_permutation(n, &[j]);
            let rows = perm.apply(&image);
            let half = rows.len() / 2;
            let mut res = vec![ZERO; rows.len()];
            for a in 0..2
            {
                for b in 0..2
                {
                    for k in 0..half
                    {
                        res[a * half + k] += mat[a][b] * rows[b * half + k];
                    }
                }
            }
            image = perm.apply_inverse(&res);
        }
        let sign = if m.get_phase(i) { -ONE } else { ONE };
        if !image.iter().zip(state.iter()).all(|(x, y)| (sign * x - y).norm() < 1.0e-10)
        {
            return false;
        }
    }
    true
}

#[test]
fn test_stabilizer_agrees_with_dense_state()
{
    let gates: Vec<(CircuitGate<f64>, Vec<usize>)> = vec![
        (CircuitGate::H(H::new()), vec![0]),
        (CircuitGate::CX(CX::new()), vec![0, 2]),
        (CircuitGate::S(S::new()), vec![2]),
        (CircuitGate::H(H::new()), vec![1]),
        (CircuitGate::CZ(CZ::new()), vec![1, 2]),
        (CircuitGate::Y(Y::new()), vec![0]),
        (CircuitGate::Sdg(Sdg::new()), vec![1]),
        (CircuitGate::CX(CX::new()), vec![2, 1]),
        (CircuitGate::Z(Z::new()), vec![2]),
        (CircuitGate::X(X::new()), vec![1]),
        (CircuitGate::H(H::new()), vec![2]),
        (CircuitGate::CZ(CZ::new()), vec![0, 1]),
        (CircuitGate::CX(CX::new()), vec![1, 0]),
        (CircuitGate::S(S::new()), vec![0]),
        (CircuitGate::H(H::new()), vec![0]),
        (CircuitGate::CX(CX::new()), vec![0, 2]),
        (CircuitGate::Y(Y::new()), vec![2]),
    ];
    let mut tableau = StabilizerMatrix::new(3);
    let mut state = Dense::new(3, 1, 17);
    assert!(stabilizes(&tableau, &state.columns[0]));
    for (gate, bits) in gates.iter()
    {
        assert_eq!(tableau.apply_gate(gate, bits), Ok(()));
        state.apply(gate, bits, None);
        assert!(state.norms_are_one());
        assert!(stabilizes(&tableau, &state.columns[0]));
    }
}
