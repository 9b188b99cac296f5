use qusim::gates::{bit_permutation, get_sort_key};
use qusim::permutation::Permutation;

#[test]
fn test_sort_key_values()
{
    // Qubit 0 is the most significant bit of a row number.
    assert_eq!(get_sort_key(0b100, 3, &[0]), 1);
    assert_eq!(get_sort_key(0b100, 3, &[1]), 0);
    assert_eq!(get_sort_key(0b001, 3, &[2]), 1);
    // The first affected bit is the most significant bit of the key.
    assert_eq!(get_sort_key(0b001, 3, &[2, 0]), 0b10);
    assert_eq!(get_sort_key(0b100, 3, &[2, 0]), 0b01);
    assert_eq!(get_sort_key(0b101, 3, &[2, 0]), 0b11);
    assert_eq!(get_sort_key(0b110, 3, &[]), 0);
}

#[test]
fn test_bit_permutation_single_bit()
{
    let p = bit_permutation(2, &[1]);
    assert_eq!(*p.indices(), vec![0, 2, 1, 3]);
    let p = bit_permutation(2, &[0]);
    assert_eq!(*p.indices(), vec![0, 1, 2, 3]);
}

#[test]
fn test_bit_permutation_two_bits()
{
    let p = bit_permutation(3, &[2, 0]);
    assert_eq!(*p.indices(), vec![0, 4, 1, 5, 2, 6, 3, 7]);
    let p = bit_permutation(2, &[1, 0]);
    assert_eq!(*p.indices(), vec![0, 2, 1, 3]);
}

#[test]
fn test_bit_permutation_orders_by_key()
{
    let bits = [1, 3];
    let p = bit_permutation(4, &bits);
    assert_eq!(p.size(), 16);
    for i in 0..16usize
    {
        for j in 0..16usize
        {
            let ki = get_sort_key(i, 4, &bits);
            let kj = get_sort_key(j, 4, &bits);
            let before = ki < kj || (ki == kj && i < j);
            assert_eq!(p.index(i) < p.index(j), before);
        }
    }
}

#[test]
fn test_bit_permutation_no_bits()
{
    let p = bit_permutation(0, &[]);
    assert_eq!(*p.indices(), vec![0]);
    let p = bit_permutation(2, &[]);
    assert_eq!(*p.indices(), vec![0, 1, 2, 3]);
}

#[test]
fn test_permutation_new()
{
    assert!(Permutation::new(vec![2, 0, 1]).is_some());
    assert!(Permutation::new(vec![]).is_some());
    assert!(Permutation::new(vec![0, 0, 1]).is_none());
    assert!(Permutation::new(vec![0, 3, 1]).is_none());
}

#[test]
fn test_permutation_inverse()
{
    let p = Permutation::new(vec![2, 0, 3, 1]).unwrap();
    let q = p.inverse();
    assert_eq!(*q.indices(), vec![1, 3, 0, 2]);
    for i in 0..4
    {
        assert_eq!(q.index(p.index(i)), i);
        assert_eq!(p.index(q.index(i)), i);
    }
}

#[test]
fn test_permutation_apply()
{
    let p = Permutation::new(vec![2, 0, 3, 1]).unwrap();
    let v = ['a', 'b', 'c', 'd'];
    let w = p.apply(&v);
    assert_eq!(w, vec!['b', 'd', 'a', 'c']);
    assert_eq!(p.apply_inverse(&w), vec!['a', 'b', 'c', 'd']);
    assert_eq!(p.inverse().apply(&w), vec!['a', 'b', 'c', 'd']);
}
