use num_complex::Complex64;
use qusim::gates::{Gate, X};

#[test]
fn x_test_description()
{
    let x = X::new();
    assert_eq!(x.description(), "X");
}

#[test]
fn x_test_apply()
{
    let z = Complex64::new(0.0, 0.0);
    let o = Complex64::new(1.0, 0.0);
    let x = Complex64::new(::std::f64::consts::FRAC_1_SQRT_2, 0.0);
    // One column per state, as the rows of the matrices list them.
    let state = [[o, z, x, x], [z, o, x, -x]];
    let result = [[z, o, x, -x], [o, z, x, x]];
    for col in 0..4
    {
        let mut column = [state[0][col], state[1][col]];
        X::transform(&mut column);
        assert_eq!(column, [result[0][col], result[1][col]]);
    }
}
