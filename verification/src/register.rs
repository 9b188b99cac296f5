//! The classical register: one word of classical bits per shot.

use vstd::prelude::*;

verus! {

/// The classical register of a circuit run: one 64-bit word per shot. Classical
/// bit `k` of a shot is bit `k` of its word, bit 0 being the least significant.
///
/// The words are kept in a one-dimensional `ndarray` array.
#[verifier::external_body]
pub struct ClassicalRegister {
    words: ndarray::Array1<u64>,
}

/// The words that a register holds, shot by shot.
pub uninterp spec fn register_words(r: ClassicalRegister) -> Seq<u64>;

impl View for ClassicalRegister {
    type V = Seq<u64>;

    open spec fn view(&self) -> Seq<u64> {
        register_words(*self)
    }
}

/// The word `word` with bit `cbit` set to `bit`.
pub open spec fn with_bit(word: u64, cbit: usize, bit: bool) -> u64 {
    (word & !(1u64 << (cbit as u64))) | ((if bit { 1u64 } else { 0u64 }) << (cbit as u64))
}

/// Bit `cbit` of the word `word`.
pub open spec fn bit_of(word: u64, cbit: usize) -> bool {
    (word >> (cbit as u64)) & 1 == 1
}

proof fn lemma_with_bit(word: u64, b: u64, c: u64, v: u64)
    by (bit_vector)
    requires
        b < 64,
        c < 64,
        v <= 1,
    ensures
        ((((word & !(1u64 << b)) | (v << b)) >> b) & 1 == 1) == (v == 1),
        b != c ==> (((word & !(1u64 << b)) | (v << b)) >> c) & 1 == (word >> c) & 1,
{
}

/// Setting a bit gives that bit its value and leaves the other bits alone.
pub proof fn lemma_with_bit_reads(word: u64, cbit: usize, bit: bool, other: usize)
    requires
        cbit < 64,
        other < 64,
    ensures
        bit_of(with_bit(word, cbit, bit), cbit) == bit,
        other != cbit ==> bit_of(with_bit(word, cbit, bit), other) == bit_of(word, other),
{
    lemma_with_bit(word, cbit as u64, other as u64, if bit { 1u64 } else { 0u64 });
}

impl ClassicalRegister {
    /// A register of `nr_shots` words, all zero.
    ///
    /// Calls `Array1::zeros`, which gives an array of that many zeros; it panics
    /// where the array would not fit in the address space, which the bound on
    /// `nr_shots` leaves out.
    #[verifier::external_body]
    fn zeros(nr_shots: usize) -> (r: ClassicalRegister)
        requires
            8 * nr_shots <= isize::MAX,
        ensures
            register_words(r) == Seq::new(nr_shots as nat, |s: int| 0u64),
    {
        ClassicalRegister { words: ndarray::Array1::zeros(nr_shots) }
    }

    /// A register that holds the words of `words`.
    ///
    /// Calls `Array1::from_vec`, which makes a one-dimensional array of the
    /// elements of the vector, in their order.
    #[verifier::external_body]
    fn from_words(words: Vec<u64>) -> (r: ClassicalRegister)
        ensures
            register_words(r) == words@,
    {
        ClassicalRegister { words: ndarray::Array1::from_vec(words) }
    }

    /// The number of words.
    ///
    /// Calls `len`, the total number of elements of the array.
    #[verifier::external_body]
    fn count(&self) -> (n: usize)
        ensures
            n == register_words(*self).len(),
    {
        self.words.len()
    }

    /// The word of shot `s`.
    ///
    /// Indexes the array, which gives the element at the index and panics where the
    /// index is out of bounds.
    #[verifier::external_body]
    fn read(&self, s: usize) -> (word: u64)
        requires
            s < register_words(*self).len(),
        ensures
            word == register_words(*self)[s as int],
    {
        self.words[s]
    }

    /// Replace the word of shot `s`.
    ///
    /// Assigns through the mutable index of the array, which reaches the element at
    /// the index and panics where the index is out of bounds.
    #[verifier::external_body]
    fn write(&mut self, s: usize, word: u64)
        requires
            s < register_words(*old(self)).len(),
        ensures
            register_words(*final(self)) == register_words(*old(self)).update(s as int, word),
    {
        self.words[s] = word;
    }

    /// The words as a vector.
    ///
    /// Calls `to_vec`, which gives a vector with the elements of a one-dimensional
    /// array.
    #[verifier::external_body]
    fn words_vec(&self) -> (v: Vec<u64>)
        ensures
            v@ == register_words(*self),
    {
        self.words.to_vec()
    }

    /// A register of `nr_shots` shots with every classical bit 0.
    pub fn new(nr_shots: usize) -> (r: ClassicalRegister)
        requires
            8 * nr_shots <= isize::MAX,
        ensures
            r@.len() == nr_shots,
            forall|s: int| 0 <= s < nr_shots ==> r@[s] == 0,
    {
        ClassicalRegister::zeros(nr_shots)
    }

    /// A register with one shot per word of `words`.
    pub fn from_vec(words: Vec<u64>) -> (r: ClassicalRegister)
        ensures
            r@ == words@,
    {
        ClassicalRegister::from_words(words)
    }

    /// The number of shots.
    pub fn len(&self) -> (n: usize)
        ensures
            n == self@.len(),
    {
        self.count()
    }

    /// The word of shot `s`.
    pub fn word(&self, s: usize) -> (word: u64)
        requires
            s < self@.len(),
        ensures
            word == self@[s as int],
    {
        self.read(s)
    }

    /// The words of all shots, in order.
    pub fn to_vec(&self) -> (v: Vec<u64>)
        ensures
            v@ == self@,
    {
        self.words_vec()
    }

    /// Set classical bit `cbit` of every shot `s` to `outcomes[s]`; the other bits
    /// stay as they are.
    pub fn store_bit(&mut self, cbit: usize, outcomes: &[bool])
        requires
            cbit < 64,
            outcomes@.len() == old(self)@.len(),
        ensures
            final(self)@.len() == old(self)@.len(),
            forall|s: int|
                0 <= s < old(self)@.len() ==> #[trigger] final(self)@[s] == with_bit(
                    old(self)@[s],
                    cbit,
                    outcomes@[s],
                ),
    {
        let n: usize = self.len();
        let ghost before = self@;
        let mut s: usize = 0;
        while s < n
            invariant
                s <= n,
                cbit < 64,
                n == before.len(),
                self@.len() == n,
                outcomes@.len() == n,
                forall|t: int|
                    0 <= t < s ==> #[trigger] self@[t] == with_bit(before[t], cbit, outcomes@[t]),
                forall|t: int| s <= t < n ==> #[trigger] self@[t] == before[t],
            decreases n - s,
        {
            let word: u64 = self.read(s);
            let bit: u64 = if outcomes[s] { 1 } else { 0 };
            self.write(s, (word & !(1u64 << cbit)) | (bit << cbit));
            s += 1;
        }
    }
}

} // verus!
