//! The parameter of a parametrized gate.

use vstd::prelude::*;

verus! {

/// The value of `value` as text with four digits after the decimal point.
///
/// Calls `format!` with the format `{:.4}`, which hands the precision to the
/// value's own `Display` implementation: nothing is stated of the text.
#[verifier::external_body]
fn fixed_text<P: core::fmt::Display>(value: &P) -> (s: String) {
    format!("{:.4}", value)
}

/// A gate parameter: an angle, kept with the two texts that show it. The library
/// carries the value and never computes with it.
pub struct Parameter<P> {
    value: P,
    fixed: String,
    plain: String,
}

impl<P> Parameter<P> {
    /// The value of the parameter.
    pub closed spec fn spec_value(&self) -> P {
        self.value
    }

    /// The text of the value with four digits after the decimal point.
    pub closed spec fn fixed_view(&self) -> Seq<char> {
        self.fixed@
    }

    /// The text of the value as it is displayed in full.
    pub closed spec fn plain_view(&self) -> Seq<char> {
        self.plain@
    }

    /// The value of the parameter.
    pub fn value(&self) -> (v: &P)
        ensures
            *v == self.spec_value(),
    {
        &self.value
    }

    /// The text of the value with four digits after the decimal point.
    pub fn fixed(&self) -> (s: &str)
        ensures
            s@ == self.fixed_view(),
    {
        self.fixed.as_str()
    }

    /// The text of the value as it is displayed in full.
    pub fn plain(&self) -> (s: &str)
        ensures
            s@ == self.plain_view(),
    {
        self.plain.as_str()
    }
}

impl<P: core::fmt::Display> Parameter<P> {
    /// A parameter with the value `value`.
    pub fn new(value: P) -> (p: Self)
        ensures
            p.spec_value() == value,
    {
        let fixed = fixed_text(&value);
        let plain = value.to_string();
        Parameter { value: value, fixed: fixed, plain: plain }
    }
}

} // verus!
