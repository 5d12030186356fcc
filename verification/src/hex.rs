//! Lowercase hexadecimal digits and the two-digit rendering of a byte.

use vstd::prelude::*;

verus! {

/// The sixteen digits, in order of their value.
pub open spec fn digits() -> Seq<char> {
    seq!['0', '1', '2', '3', '4', '5', '6', '7', '8', '9', 'a', 'b', 'c', 'd', 'e', 'f']
}

/// Whether `c` is one of the sixteen lowercase digits.
pub open spec fn is_digit(c: char) -> bool {
    digits().contains(c)
}

/// The value of a digit: its position among the sixteen.
pub open spec fn digit_value(c: char) -> int
    recommends
        is_digit(c),
{
    digits().index_of(c)
}

/// The two digits of a byte, high nibble first.
pub open spec fn byte_digits(b: u8) -> Seq<char> {
    seq![digits()[b as int / 16], digits()[b as int % 16]]
}

/// The byte that two digits spell, or `None` where either is no digit.
pub open spec fn digits_byte(high: char, low: char) -> Option<u8> {
    if is_digit(high) && is_digit(low) {
        Some((digit_value(high) * 16 + digit_value(low)) as u8)
    } else {
        None
    }
}

/// Every position below sixteen holds a digit whose value is that position.
pub proof fn lemma_digit_value(n: int)
    requires
        0 <= n < 16,
    ensures
        is_digit(digits()[n]),
        digit_value(digits()[n]) == n,
{
    let c = digits()[n];
    assert(digits().contains(c));
    let k = digits().index_of(c);
    assert(0 <= k < 16 && digits()[k] == c);
}

/// A digit sits at the position that is its value.
pub proof fn lemma_value_digit(c: char)
    requires
        is_digit(c),
    ensures
        0 <= digit_value(c) < 16,
        digits()[digit_value(c)] == c,
{
}

/// The digit of the low nibble of `n`.
pub fn digit(n: u8) -> (c: char)
    ensures
        c == digits()[n as int % 16],
{
    let low: u8 = n % 16;
    if low < 10 {
        (48 + low) as char
    } else {
        (87 + low) as char
    }
}

/// The value of `c` where it is a digit.
pub fn value(c: char) -> (r: Option<u8>)
    ensures
        r is Some <==> is_digit(c),
        r matches Some(n) ==> n == digit_value(c) && n < 16,
{
    let code: u32 = c as u32;
    if 48 <= code && code <= 57 {
        let n: u8 = (code - 48) as u8;
        proof {
            assert(digits()[n as int] == c);
            lemma_digit_value(n as int);
        }
        Some(n)
    } else if 97 <= code && code <= 102 {
        let n: u8 = (code - 87) as u8;
        proof {
            assert(digits()[n as int] == c);
            lemma_digit_value(n as int);
        }
        Some(n)
    } else {
        proof {
            if is_digit(c) {
                lemma_value_digit(c);
            }
        }
        None
    }
}

} // verus!
