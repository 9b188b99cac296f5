//! Numbers as text.

use vstd::prelude::*;

verus! {

/// The character of the decimal digit `d`.
pub open spec fn digit(d: int) -> char {
    if d == 0 {
        '0'
    } else if d == 1 {
        '1'
    } else if d == 2 {
        '2'
    } else if d == 3 {
        '3'
    } else if d == 4 {
        '4'
    } else if d == 5 {
        '5'
    } else if d == 6 {
        '6'
    } else if d == 7 {
        '7'
    } else if d == 8 {
        '8'
    } else {
        '9'
    }
}

/// The number `n` in decimal digits, without leading zeros.
pub open spec fn decimal(n: nat) -> Seq<char>
    decreases n,
{
    if n < 10 {
        seq![digit(n as int)]
    } else {
        decimal(n / 10) + seq![digit((n % 10) as int)]
    }
}

/// The number `n` in binary digits, without leading zeros.
pub open spec fn binary(n: nat) -> Seq<char>
    decreases n,
{
    if n < 2 {
        seq![digit(n as int)]
    } else {
        binary(n / 2) + seq![digit((n % 2) as int)]
    }
}

/// The number `n` in binary digits, with zeros in front up to `width` digits.
pub open spec fn binary_padded(n: nat, width: nat) -> Seq<char> {
    if binary(n).len() < width {
        Seq::new((width - binary(n).len()) as nat, |i: int| '0') + binary(n)
    } else {
        binary(n)
    }
}

/// The text of one decimal digit.
fn digit_text(d: u64) -> (s: &'static str)
    requires
        d < 10,
    ensures
        s@ == seq![digit(d as int)],
{
    proof {
        reveal_strlit("0");
        reveal_strlit("1");
        reveal_strlit("2");
        reveal_strlit("3");
        reveal_strlit("4");
        reveal_strlit("5");
        reveal_strlit("6");
        reveal_strlit("7");
        reveal_strlit("8");
        reveal_strlit("9");
    }
    let s: &'static str = if d == 0 {
        "0"
    } else if d == 1 {
        "1"
    } else if d == 2 {
        "2"
    } else if d == 3 {
        "3"
    } else if d == 4 {
        "4"
    } else if d == 5 {
        "5"
    } else if d == 6 {
        "6"
    } else if d == 7 {
        "7"
    } else if d == 8 {
        "8"
    } else {
        "9"
    };
    assert(s@ =~= seq![digit(d as int)]);
    s
}

/// The number `n` in decimal digits.
pub fn decimal_text(n: u64) -> (s: String)
    ensures
        s@ == decimal(n as nat),
    decreases n,
{
    if n < 10 {
        String::from_str(digit_text(n))
    } else {
        let mut s = decimal_text(n / 10);
        s.append(digit_text(n % 10));
        s
    }
}

/// The number `n` in binary digits, and how many digits these are.
fn binary_digits(n: u64) -> (r: (String, usize))
    ensures
        r.0@ == binary(n as nat),
        r.1 == binary(n as nat).len(),
        1 <= r.1 <= 64,
    decreases n,
{
    if n < 2 {
        (String::from_str(digit_text(n)), 1)
    } else {
        let (mut s, len) = binary_digits(n / 2);
        s.append(digit_text(n % 2));
        proof {
            lemma_binary_length(n as nat);
        }
        (s, len + 1)
    }
}

/// A number below `2^64` has at most 64 binary digits.
proof fn lemma_binary_length(n: nat)
    requires
        n <= u64::MAX,
    ensures
        1 <= binary(n).len() <= 64,
{
    vstd::arithmetic::power2::lemma2_to64();
    lemma_binary_bound(n, 64);
}

/// A number below `2^k` has at most `k` binary digits.
proof fn lemma_binary_bound(n: nat, k: nat)
    requires
        k >= 1,
        n < vstd::arithmetic::power2::pow2(k),
    ensures
        1 <= binary(n).len() <= k,
    decreases k,
{
    vstd::arithmetic::power2::lemma2_to64();
    if n >= 2 {
        if k == 1 {
            assert(false);
        } else {
            vstd::arithmetic::power2::lemma_pow2_unfold(k);
            lemma_binary_bound(n / 2, (k - 1) as nat);
        }
    }
}

/// The classical word `key` as text: its binary digits, the most significant
/// first, with zeros in front where it has fewer than `width` digits. The last
/// character shows classical bit 0.
pub fn bit_string(key: u64, width: usize) -> (s: String)
    ensures
        s@ == binary_padded(key as nat, width as nat),
{
    let (digits, len) = binary_digits(key);
    if len < width {
        let mut s = String::new();
        let mut k: usize = 0;
        proof {
            reveal_strlit("0");
        }
        while k < width - len
            invariant
                len < width,
                k <= width - len,
                s@ == Seq::new(k as nat, |i: int| '0'),
            decreases width - len - k,
        {
            s.append("0");
            proof {
                reveal_strlit("0");
            }
            assert(s@ =~= Seq::new((k + 1) as nat, |i: int| '0'));
            k += 1;
        }
        s.append(digits.as_str());
        s
    } else {
        digits
    }
}

} // verus!
