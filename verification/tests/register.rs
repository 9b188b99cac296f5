use qusim::register::ClassicalRegister;

#[test]
fn test_register_new()
{
    let r = ClassicalRegister::new(4);
    assert_eq!(r.len(), 4);
    assert_eq!(r.to_vec(), vec![0, 0, 0, 0]);
    let r = ClassicalRegister::new(0);
    assert_eq!(r.len(), 0);
    assert_eq!(r.to_vec(), Vec::<u64>::new());
}

#[test]
fn test_register_from_vec()
{
    let r = ClassicalRegister::from_vec(vec![0b01, 0b10, 0b11]);
    assert_eq!(r.len(), 3);
    assert_eq!(r.word(0), 0b01);
    assert_eq!(r.word(1), 0b10);
    assert_eq!(r.word(2), 0b11);
    assert_eq!(r.to_vec(), vec![0b01, 0b10, 0b11]);
}

#[test]
fn test_register_store_bit()
{
    let mut r = ClassicalRegister::from_vec(vec![0b000, 0b010, 0b111, 0b101]);
    r.store_bit(1, &[true, false, true, false]);
    assert_eq!(r.to_vec(), vec![0b010, 0b000, 0b111, 0b101]);
    r.store_bit(0, &[true, true, false, false]);
    assert_eq!(r.to_vec(), vec![0b011, 0b001, 0b110, 0b100]);
    r.store_bit(63, &[true, false, false, false]);
    assert_eq!(r.word(0), 0b011 | (1u64 << 63));
    assert_eq!(r.word(1), 0b001);
}
