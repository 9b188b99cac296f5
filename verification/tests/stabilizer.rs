use qusim::error::Error;
use qusim::gates::{CX, CY, CZ, H, S, Sdg, T, V, Vdg, X, Y, Z};
use qusim::stabilizer::{PauliOp, StabilizerMatrix};

#[test]
fn test_new()
{
    let m = StabilizerMatrix::new(3);
    assert_eq!(m.nr_bits(), 3);
    assert_eq!(*m.xz(), vec![0x0000000000010101]);
    assert_eq!(*m.phase(), vec![0]);

    let m = StabilizerMatrix::new(6);
    assert_eq!(m.nr_bits(), 6);
    assert_eq!(*m.xz(), vec![0x0100040010004001, 0x0000000000000040]);
    assert_eq!(*m.phase(), vec![0]);
}

#[test]
fn test_set()
{
    let mut m = StabilizerMatrix::new(6);
    assert_eq!(m.nr_bits(), 6);
    assert_eq!(*m.xz(), vec![0x0100040010004001, 0x0000000000000040]);

    m.set(0, 0, PauliOp::X);
    assert_eq!(m.nr_bits(), 6);
    assert_eq!(*m.xz(), vec![0x0100040010004002, 0x0000000000000040]);

    m.set(1, 2, PauliOp::Y);
    assert_eq!(m.nr_bits(), 6);
    assert_eq!(*m.xz(), vec![0x0100040010034002, 0x0000000000000040]);

    m.set(0, 0, PauliOp::Z);
    assert_eq!(m.nr_bits(), 6);
    assert_eq!(*m.xz(), vec![0x0100040010034001, 0x0000000000000040]);

    m.set(5, 1, PauliOp::Y);
    assert_eq!(m.nr_bits(), 6);
    assert_eq!(*m.xz(), vec![0xc100040010034001, 0x0000000000000040]);

    m.set(5, 3, PauliOp::X);
    assert_eq!(m.nr_bits(), 6);
    assert_eq!(*m.xz(), vec![0xc100040010034001, 0x0000000000000048]);

    m.set(5, 5, PauliOp::X);
    assert_eq!(m.nr_bits(), 6);
    assert_eq!(*m.xz(), vec![0xc100040010034001, 0x0000000000000088]);
}

#[test]
fn test_get()
{
    let nr_bits = 15;
    let mut m = StabilizerMatrix::new(nr_bits);
    for i in 0..nr_bits
    {
        for j in 0..nr_bits
        {
            assert_eq!(m.get(i, j), if i == j { PauliOp::Z } else { PauliOp:: I });
        }
    }

    m.set(1, 2, PauliOp::X);
    m.set(3, 14, PauliOp::Y);
    m.set(8, 7, PauliOp::Z);
    for i in 0..nr_bits
    {
        for j in 0..nr_bits
        {
            let op = m.get(i, j);
            match (i, j)
            {
                (1, 2) => assert_eq!(op, PauliOp::X),
                (3, 14) => assert_eq!(op, PauliOp::Y),
                (8, 7) => assert_eq!(op, PauliOp::Z),
                (a, b) if a == b => assert_eq!(op, PauliOp::Z),
                _ => assert_eq!(op, PauliOp::I)
            }
        }
    }
}

#[test]
fn test_display()
{
    let mut m = StabilizerMatrix::new(13);
    let s = m.to_string();
    assert_eq!(s.lines().count(), m.nr_bits());
    assert_eq!(s, String::from(
r"+ZIIIIIIIIIIII
+IZIIIIIIIIIII
+IIZIIIIIIIIII
+IIIZIIIIIIIII
+IIIIZIIIIIIII
+IIIIIZIIIIIII
+IIIIIIZIIIIII
+IIIIIIIZIIIII
+IIIIIIIIZIIII
+IIIIIIIIIZIII
+IIIIIIIIIIZII
+IIIIIIIIIIIZI
+IIIIIIIIIIIIZ"));

    m.set(1, 3, PauliOp::X);
    m.set(12, 11, PauliOp::Y);
    let s = m.to_string();
    assert_eq!(s.lines().count(), m.nr_bits());
    assert_eq!(s, String::from(
r"+ZIIIIIIIIIIII
+IZIXIIIIIIIII
+IIZIIIIIIIIII
+IIIZIIIIIIIII
+IIIIZIIIIIIII
+IIIIIZIIIIIII
+IIIIIIZIIIIII
+IIIIIIIZIIIII
+IIIIIIIIZIIII
+IIIIIIIIIZIII
+IIIIIIIIIIZII
+IIIIIIIIIIIZI
+IIIIIIIIIIIYZ"));
}

#[test]
fn stabilizer_test_apply()
{
    let mut m = StabilizerMatrix::new(3);
    assert_eq!(m.apply_gate(&H::new(), &[2]), Ok(()));
    let s = m.to_string();
    assert_eq!(s.lines().count(), m.nr_bits());
    assert_eq!(s, String::from(
r"+IIX
+ZII
+IZI"));

    let mut m = StabilizerMatrix::new(3);
    assert_eq!(m.apply_gate(&X::new(), &[1]), Ok(()));
    let s = m.to_string();
    assert_eq!(s.lines().count(), m.nr_bits());
    assert_eq!(s, String::from(
r"+ZII
-IZI
+IIZ"));

    let mut m = StabilizerMatrix::new(3);
    assert_eq!(m.apply_gate(&Y::new(), &[1]), Ok(()));
    let s = m.to_string();
    assert_eq!(s.lines().count(), m.nr_bits());
    assert_eq!(s, String::from(
r"+ZII
-IZI
+IIZ"));

    let mut m = StabilizerMatrix::new(3);
    assert_eq!(m.apply_gate(&H::new(), &[1]), Ok(()));
    assert_eq!(m.apply_gate(&Z::new(), &[1]), Ok(()));
    let s = m.to_string();
    assert_eq!(s.lines().count(), m.nr_bits());
    assert_eq!(s, String::from(
r"-IXI
+ZII
+IIZ"));

    let mut m = StabilizerMatrix::new(3);
    assert_eq!(m.apply_gate(&H::new(), &[1]), Ok(()));
    assert_eq!(m.apply_gate(&S::new(), &[1]), Ok(()));
    let s = m.to_string();
    assert_eq!(s.lines().count(), m.nr_bits());
    assert_eq!(s, String::from(
r"+IYI
+ZII
+IIZ"));

    let mut m = StabilizerMatrix::new(3);
    assert_eq!(m.apply_gate(&H::new(), &[1]), Ok(()));
    assert_eq!(m.apply_gate(&Sdg::new(), &[1]), Ok(()));
    let s = m.to_string();
    assert_eq!(s.lines().count(), m.nr_bits());
    assert_eq!(s, String::from(
r"-IYI
+ZII
+IIZ"));

    let mut m = StabilizerMatrix::new(3);
    assert_eq!(m.apply_gate(&V::new(), &[1]), Ok(()));
    let s = m.to_string();
    assert_eq!(s.lines().count(), m.nr_bits());
    assert_eq!(s, String::from(
r"-IYI
+ZII
+IIZ"));

    let mut m = StabilizerMatrix::new(3);
    assert_eq!(m.apply_gate(&Vdg::new(), &[1]), Ok(()));
    let s = m.to_string();
    assert_eq!(s.lines().count(), m.nr_bits());
    assert_eq!(s, String::from(
r"+IYI
+ZII
+IIZ"));

    let mut m = StabilizerMatrix::new(3);
    assert_eq!(m.apply_gate(&H::new(), &[0]), Ok(()));
    assert_eq!(m.apply_gate(&CX::new(), &[0, 2]), Ok(()));
    let s = m.to_string();
    assert_eq!(s.lines().count(), m.nr_bits());
    assert_eq!(s, String::from(
r"+XIX
+ZIZ
+IZI"));

    let mut m = StabilizerMatrix::new(3);
    assert_eq!(m.apply_gate(&H::new(), &[1]), Ok(()));
    assert_eq!(m.apply_gate(&CY::new(), &[0, 1]), Ok(()));
    let s = m.to_string();
    assert_eq!(s.lines().count(), m.nr_bits());
    assert_eq!(s, String::from(
r"+IXI
+ZII
+IIZ"));

    let mut m = StabilizerMatrix::new(3);
    assert_eq!(m.apply_gate(&H::new(), &[1]), Ok(()));
    assert_eq!(m.apply_gate(&H::new(), &[2]), Ok(()));
    assert_eq!(m.apply_gate(&CZ::new(), &[1, 2]), Ok(()));
    let s = m.to_string();
    assert_eq!(s.lines().count(), m.nr_bits());
    assert_eq!(s, String::from(
r"+IXZ
+IZX
+ZII"));
}

#[test]
fn test_generators_stay_commuting_and_distinct()
{
    let n = 4;
    let mut m = StabilizerMatrix::new(n);
    assert!(m.is_commuting());
    let steps: Vec<(usize, usize)> = (0..60).map(|k| ((7 * k + 3) % n, (5 * k + 1) % n)).collect();
    for (k, &(a, b)) in steps.iter().enumerate()
    {
        let res = match k % 6
        {
            0 => m.apply_gate(&H::new(), &[a]),
            1 if a != b => m.apply_gate(&CX::new(), &[a, b]),
            2 => m.apply_gate(&S::new(), &[b]),
            3 if a != b => m.apply_gate(&CZ::new(), &[b, a]),
            4 => m.apply_gate(&V::new(), &[a]),
            _ => m.apply_gate(&Y::new(), &[b]),
        };
        assert_eq!(res, Ok(()));
        assert!(m.is_commuting());
        for i in 0..n
        {
            // No generator is the identity, and no two generators are the same.
            assert!((0..n).any(|j| m.get(i, j) != PauliOp::I));
            for l in 0..i
            {
                assert!((0..n).any(|j| m.get(i, j) != m.get(l, j)));
            }
        }
        // The canonical form stays as it is when it is taken again.
        let before = m.to_string();
        m.normalize();
        assert_eq!(m.to_string(), before);
    }
}

#[test]
fn test_rows_commute()
{
    let mut m = StabilizerMatrix::new(2);
    assert!(m.rows_commute(0, 1));
    m.set(0, 0, PauliOp::X);
    assert!(m.rows_commute(0, 1));
    m.set(1, 0, PauliOp::Z);
    assert!(!m.rows_commute(0, 1));
    assert!(!m.is_commuting());
    m.set(0, 1, PauliOp::X);
    assert!(m.rows_commute(0, 1));
    assert!(m.is_commuting());
    assert_eq!(m.bit_indices(1, 1), (0, 6));
    let m = StabilizerMatrix::new(6);
    assert_eq!(m.bit_indices(5, 3), (1, 2));
}

#[test]
fn test_multiply_and_swap_rows()
{
    let mut m = StabilizerMatrix::new(3);
    assert_eq!(m.apply_gate(&H::new(), &[0]), Ok(()));
    assert_eq!(m.apply_gate(&CX::new(), &[0, 1]), Ok(()));
    assert_eq!(m.to_string(), "+XXI\n+ZZI\n+IIZ");
    m.multiply_row(0, 1);
    // X * Z = -iY on both qubits: the phases add up to a minus sign.
    assert_eq!(m.to_string(), "-YYI\n+ZZI\n+IIZ");
    m.swap_rows(0, 2);
    assert_eq!(m.to_string(), "+IIZ\n+ZZI\n-YYI");
    m.normalize();
    // Y * Z = iX on both qubits: the phases add up to a minus sign once more.
    assert_eq!(m.to_string(), "+XXI\n+ZZI\n+IIZ");
}

#[test]
fn test_apply_gate_fails()
{
    let mut m = StabilizerMatrix::new(2);
    assert_eq!(m.apply_gate(&H::new(), &[0]), Ok(()));
    assert_eq!(m.apply_gate(&T::new(), &[0]), Err(Error::NotAStabilizer(String::from("T"))));
    assert_eq!(m.to_string(), "+XI\n+IZ");
    assert_eq!(m.apply_gate(&CX::new(), &[1]), Err(Error::InvalidBitCount));
    assert_eq!(m.to_string(), "+XI\n+IZ");
}

#[test]
fn test_signs_after_x_and_cx()
{
    // X on qubit 0 and then CX from qubit 0 to qubit 1 give the state |11>, which
    // -ZI and -IZ stabilize.
    let mut m = StabilizerMatrix::new(2);
    assert_eq!(m.apply_gate(&X::new(), &[0]), Ok(()));
    assert_eq!(m.to_string(), "-ZI\n+IZ");
    assert_eq!(m.apply_gate(&CX::new(), &[0, 1]), Ok(()));
    assert_eq!(m.to_string(), "-ZI\n-IZ");
}

#[test]
fn test_normalize_multiplies_signed_generators()
{
    // (-XX)(+YY) = +ZZ
    let mut m = StabilizerMatrix::new(2);
    m.set(0, 0, PauliOp::X);
    m.set(0, 1, PauliOp::X);
    m.set_phase(0, true);
    m.set(1, 0, PauliOp::Y);
    m.set(1, 1, PauliOp::Y);
    assert!(m.is_commuting());
    assert_eq!(m.to_string(), "-XX\n+YY");
    m.normalize();
    assert_eq!(m.to_string(), "-XX\n+ZZ");

    // (-ZZ)(-XX) = -YY, and back
    let mut m = StabilizerMatrix::new(2);
    m.set(0, 1, PauliOp::Z);
    m.set_phase(0, true);
    m.set(1, 0, PauliOp::X);
    m.set(1, 1, PauliOp::X);
    m.set_phase(1, true);
    m.multiply_row(0, 1);
    assert_eq!(m.to_string(), "-YY\n-XX");
    m.multiply_row(0, 1);
    assert_eq!(m.to_string(), "-ZZ\n-XX");
    // A generator times itself is the identity with a plus sign.
    m.multiply_row(1, 1);
    assert_eq!(m.to_string(), "-ZZ\n+II");
}

#[test]
fn test_words_hold_nothing_beyond_the_tableau()
{
    // Every cell Y and every sign negative: all the bits of the tableau are set,
    // and no other.
    let mut m = StabilizerMatrix::new(3);
    for i in 0..3
    {
        for j in 0..3
        {
            m.set(i, j, PauliOp::Y);
        }
        m.set_phase(i, true);
    }
    assert_eq!(*m.xz(), vec![0x3ffff]);
    assert_eq!(*m.phase(), vec![0b111]);
    m.xor_phase(1, true);
    m.xor_phase(2, false);
    assert_eq!(*m.phase(), vec![0b101]);

    // 6 qubits take 72 bits of operators: 8 of them in the second word.
    let mut m = StabilizerMatrix::new(6);
    for i in 0..6
    {
        for j in 0..6
        {
            m.set(i, j, PauliOp::Y);
        }
    }
    assert_eq!(*m.xz(), vec![0xffffffffffffffff, 0xff]);
    assert_eq!(*m.phase(), vec![0]);
}
