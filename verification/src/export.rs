//! What a gate offers to the exporters: its text in OpenQasm and in c-Qasm.

use vstd::prelude::*;
use crate::error::Error;
use crate::gates::Gate;

verus! {

/// The texts of the bit names.
pub open spec fn names(bit_names: Seq<String>) -> Seq<Seq<char>> {
    Seq::new(bit_names.len(), |i: int| bit_names[i]@)
}

/// A gate is given as many bits as it acts on, and each has a name.
pub open spec fn named_bits(bit_names: Seq<String>, bits: Seq<usize>, arity: nat) -> bool {
    &&& bits.len() == arity
    &&& forall|k: int| 0 <= k < bits.len() ==> #[trigger] bits[k] < bit_names.len()
}

/// The names of the bits `bits`, separated by a comma and a space.
pub open spec fn bit_list(bit_names: Seq<Seq<char>>, bits: Seq<usize>) -> Seq<char>
    decreases bits.len(),
{
    if bits.len() == 0 {
        Seq::empty()
    } else if bits.len() == 1 {
        bit_names[bits[0] as int]
    } else {
        bit_list(bit_names, bits.drop_last()) + ", "@ + bit_names[bits.last() as int]
    }
}

/// An instruction: the operation's name, a space, and the bits it works on.
pub open spec fn instruction(op: Seq<char>, bit_names: Seq<Seq<char>>, bits: Seq<usize>) -> Seq<
    char,
> {
    op + " "@ + bit_list(bit_names, bits)
}

/// An OpenQasm instruction that runs only when `condition` holds.
pub open spec fn conditional_open_instruction(
    condition: Seq<char>,
    op: Seq<char>,
    bit_names: Seq<Seq<char>>,
    bits: Seq<usize>,
) -> Seq<char> {
    "if ("@ + condition + ") "@ + instruction(op, bit_names, bits)
}

/// A c-Qasm instruction that runs only when `condition` holds.
pub open spec fn conditional_c_instruction(
    condition: Seq<char>,
    op: Seq<char>,
    bit_names: Seq<Seq<char>>,
    bits: Seq<usize>,
) -> Seq<char> {
    "c-"@ + op + " "@ + condition + ", "@ + bit_list(bit_names, bits)
}

/// The names of the bits `bits`, separated by a comma and a space.
pub fn join_bit_names(bit_names: &[String], bits: &[usize]) -> (s: String)
    requires
        forall|k: int| 0 <= k < bits@.len() ==> #[trigger] bits@[k] < bit_names@.len(),
    ensures
        s@ == bit_list(names(bit_names@), bits@),
{
    let mut s = String::new();
    let mut k: usize = 0;
    while k < bits.len()
        invariant
            k <= bits.len(),
            forall|k: int| 0 <= k < bits@.len() ==> #[trigger] bits@[k] < bit_names@.len(),
            s@ == bit_list(names(bit_names@), bits@.take(k as int)),
        decreases bits.len() - k,
    {
        if k > 0 {
            s.append(", ");
        }
        s.append(bit_names[bits[k]].as_str());
        proof {
            let now = bits@.take(k + 1);
            assert(now.drop_last() =~= bits@.take(k as int));
            if k == 0 {
                assert(s@ =~= bit_names@[bits@[0] as int]@);
            }
        }
        k += 1;
    }
    assert(bits@.take(bits.len() as int) =~= bits@);
    s
}

/// The instruction `op` on the bits `bits`.
pub fn instruction_text(op: &str, bit_names: &[String], bits: &[usize]) -> (s: String)
    requires
        forall|k: int| 0 <= k < bits@.len() ==> #[trigger] bits@[k] < bit_names@.len(),
    ensures
        s@ == instruction(op@, names(bit_names@), bits@),
{
    let mut s = String::from_str(op);
    s.append(" ");
    let list = join_bit_names(bit_names, bits);
    s.append(list.as_str());
    s
}

/// The OpenQasm instruction `op` on the bits `bits`, run only when `condition` holds.
pub fn conditional_open_text(condition: &str, op: &str, bit_names: &[String], bits: &[usize]) -> (s:
    String)
    requires
        forall|k: int| 0 <= k < bits@.len() ==> #[trigger] bits@[k] < bit_names@.len(),
    ensures
        s@ == conditional_open_instruction(condition@, op@, names(bit_names@), bits@),
{
    let mut s = String::from_str("if (");
    s.append(condition);
    s.append(") ");
    let body = instruction_text(op, bit_names, bits);
    s.append(body.as_str());
    assert(s@ =~= conditional_open_instruction(condition@, op@, names(bit_names@), bits@));
    s
}

/// The c-Qasm instruction `op` on the bits `bits`, run only when `condition` holds.
pub fn conditional_c_text(condition: &str, op: &str, bit_names: &[String], bits: &[usize]) -> (s:
    String)
    requires
        forall|k: int| 0 <= k < bits@.len() ==> #[trigger] bits@[k] < bit_names@.len(),
    ensures
        s@ == conditional_c_instruction(condition@, op@, names(bit_names@), bits@),
{
    let mut s = String::from_str("c-");
    s.append(op);
    s.append(" ");
    s.append(condition);
    s.append(", ");
    let list = join_bit_names(bit_names, bits);
    s.append(list.as_str());
    assert(s@ =~= conditional_c_instruction(condition@, op@, names(bit_names@), bits@));
    s
}

/// Why a text is refused: the operation and the format that has no text for it.
pub struct Refusal {
    /// The operation without a text
    pub op: Seq<char>,
    /// The format that has no text for it
    pub format: Seq<char>,
}

/// Whether the error `e` is the refusal `refusal`: that the named format has no text
/// for the named operation.
pub open spec fn refused(e: Error, refusal: Refusal) -> bool {
    e matches Error::ExportUnsupported(op, format) && op@ == refusal.op && format@
        == refusal.format
}

/// A gate that can be written in OpenQasm.
pub trait OpenQasm: Gate {
    /// The OpenQasm text of this gate on the bits `bits`, or the refusal where this
    /// gate has none.
    spec fn open_qasm_text(&self, bit_names: Seq<Seq<char>>, bits: Seq<usize>) -> Result<Seq<char>, Refusal>;

    /// The OpenQasm text of this gate on the bits `bits` when it runs only under
    /// `condition`, or the refusal where this gate has none.
    spec fn conditional_open_qasm_text(
        &self,
        condition: Seq<char>,
        bit_names: Seq<Seq<char>>,
        bits: Seq<usize>,
    ) -> Result<Seq<char>, Refusal>;

    /// The text of this gate on the bits `bits`, whose names are in `bit_names`.
    fn open_qasm(&self, bit_names: &[String], bits: &[usize]) -> (r: Result<String, Error>)
        requires
            named_bits(bit_names@, bits@, self.arity()),
        ensures
            match self.open_qasm_text(names(bit_names@), bits@) {
                Ok(text) => r matches Ok(s) && s@ == text,
                Err(refusal) => r matches Err(e) && refused(e, refusal),
            },
    ;

    /// The text of this gate on the bits `bits` when it runs only under `condition`.
    fn conditional_open_qasm(&self, condition: &str, bit_names: &[String], bits: &[usize]) -> (r:
        Result<String, Error>)
        requires
            named_bits(bit_names@, bits@, self.arity()),
        ensures
            match self.conditional_open_qasm_text(condition@, names(bit_names@), bits@) {
                Ok(text) => r matches Ok(s) && s@ == text,
                Err(refusal) => r matches Err(e) && refused(e, refusal),
            },
    ;
}

/// A gate that can be written in c-Qasm.
pub trait CQasm: Gate {
    /// The c-Qasm text of this gate on the bits `bits`, or the refusal where this gate
    /// has none.
    spec fn c_qasm_text(&self, bit_names: Seq<Seq<char>>, bits: Seq<usize>) -> Result<Seq<char>, Refusal>;

    /// The c-Qasm text of this gate on the bits `bits` when it runs only under
    /// `condition`, or the refusal where this gate has none.
    spec fn conditional_c_qasm_text(
        &self,
        condition: Seq<char>,
        bit_names: Seq<Seq<char>>,
        bits: Seq<usize>,
    ) -> Result<Seq<char>, Refusal>;

    /// The text of this gate on the bits `bits`, whose names are in `bit_names`.
    fn c_qasm(&self, bit_names: &[String], bits: &[usize]) -> (r: Result<String, Error>)
        requires
            named_bits(bit_names@, bits@, self.arity()),
        ensures
            match self.c_qasm_text(names(bit_names@), bits@) {
                Ok(text) => r matches Ok(s) && s@ == text,
                Err(refusal) => r matches Err(e) && refused(e, refusal),
            },
    ;

    /// The text of this gate on the bits `bits` when it runs only under `condition`.
    fn conditional_c_qasm(&self, condition: &str, bit_names: &[String], bits: &[usize]) -> (r:
        Result<String, Error>)
        requires
            named_bits(bit_names@, bits@, self.arity()),
        ensures
            match self.conditional_c_qasm_text(condition@, names(bit_names@), bits@) {
                Ok(text) => r matches Ok(s) && s@ == text,
                Err(refusal) => r matches Err(e) && refused(e, refusal),
            },
    ;
}

} // verus!
