use qusim::gates::{Gate, T, Tdg};

#[test]
fn t_test_description()
{
    let gate = T::new();
    assert_eq!(gate.description(), "T");
    let gate = Tdg::new();
    assert_eq!(gate.description(), "T†");
}
