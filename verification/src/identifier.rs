//! The three-byte identifier of a note and its canonical six-digit form.

use vstd::prelude::*;
use crate::hex;
use crate::text;

verus! {

/// The name of one note: three bytes.
#[derive(Clone, Copy, Debug, PartialEq, Eq, Structural, Hash)]
pub struct Identifier {
    pub b0: u8,
    pub b1: u8,
    pub b2: u8,
}

/// The identifier that six characters spell in lowercase hexadecimal, or
/// `None` where they are not six or one of them is no such digit.
pub open spec fn parsed(s: Seq<char>) -> Option<Identifier> {
    if s.len() == 6 {
        match (
            hex::digits_byte(s[0], s[1]),
            hex::digits_byte(s[2], s[3]),
            hex::digits_byte(s[4], s[5]),
        ) {
            (Some(b0), Some(b1), Some(b2)) => Some(Identifier { b0, b1, b2 }),
            _ => None,
        }
    } else {
        None
    }
}

impl Identifier {
    /// The identifier read as a number of 24 bits, first byte highest.
    pub open spec fn number(self) -> int {
        self.b0 as int * 65536 + self.b1 as int * 256 + self.b2 as int
    }

    /// The identifier whose number is `n`, for `n` below 2^24.
    pub open spec fn with_number(n: int) -> Identifier {
        Identifier { b0: (n / 65536) as u8, b1: (n / 256 % 256) as u8, b2: (n % 256) as u8 }
    }

    /// The canonical form: two lowercase digits for each byte, in order.
    pub open spec fn canonical(self) -> Seq<char> {
        hex::byte_digits(self.b0) + hex::byte_digits(self.b1) + hex::byte_digits(self.b2)
    }

    /// The identifier made of the three bytes.
    pub fn new(b0: u8, b1: u8, b2: u8) -> (id: Identifier)
        ensures
            id == (Identifier { b0, b1, b2 }),
    {
        Identifier { b0, b1, b2 }
    }

    /// The identifier whose number is `n` reduced modulo 2^24.
    pub fn from_number(n: u64) -> (id: Identifier)
        ensures
            id == Identifier::with_number(n as int % 0x100_0000),
            id.number() == n as int % 0x100_0000,
    {
        let low: u64 = n % 0x100_0000;
        let b0: u8 = (low / 65536) as u8;
        let b1: u8 = ((low / 256) % 256) as u8;
        let b2: u8 = (low % 256) as u8;
        Identifier { b0, b1, b2 }
    }

    /// The canonical six-digit form, which is also the key under which the
    /// note is stored.
    pub fn to_hex(&self) -> (s: String)
        ensures
            s@ == self.canonical(),
    {
        let mut s = String::new();
        s.push(hex::digit(self.b0 / 16));
        s.push(hex::digit(self.b0 % 16));
        s.push(hex::digit(self.b1 / 16));
        s.push(hex::digit(self.b1 % 16));
        s.push(hex::digit(self.b2 / 16));
        s.push(hex::digit(self.b2 % 16));
        proof {
            assert(s@ =~= self.canonical());
        }
        s
    }

    /// Reads the canonical form back.
    pub fn from_hex(s: &str) -> (r: Option<Identifier>)
        ensures
            r == parsed(s@),
    {
        let c = text::chars_of(s);
        if c.len() != 6 {
            return None;
        }
        let b0 = byte_of(c[0], c[1]);
        let b1 = byte_of(c[2], c[3]);
        let b2 = byte_of(c[4], c[5]);
        match (b0, b1, b2) {
            (Some(b0), Some(b1), Some(b2)) => Some(Identifier { b0, b1, b2 }),
            _ => None,
        }
    }
}

/// The byte that two digits spell.
fn byte_of(high: char, low: char) -> (r: Option<u8>)
    ensures
        r == hex::digits_byte(high, low),
{
    match (hex::value(high), hex::value(low)) {
        (Some(h), Some(l)) => Some(h * 16 + l),
        _ => None,
    }
}

/// Two digits written for a byte spell that byte.
pub proof fn lemma_byte_round_trip(b: u8)
    ensures
        hex::digits_byte(hex::byte_digits(b)[0], hex::byte_digits(b)[1]) == Some(b),
{
    hex::lemma_digit_value(b as int / 16);
    hex::lemma_digit_value(b as int % 16);
}

/// A byte spelt by two digits is written with those two digits.
pub proof fn lemma_digits_round_trip(high: char, low: char)
    requires
        hex::digits_byte(high, low) is Some,
    ensures
        hex::byte_digits(hex::digits_byte(high, low)->0) == seq![high, low],
{
    hex::lemma_value_digit(high);
    hex::lemma_value_digit(low);
    let h = hex::digit_value(high);
    let l = hex::digit_value(low);
    let b = (h * 16 + l) as u8;
    assert(b as int / 16 == h && b as int % 16 == l);
    assert(hex::byte_digits(b) =~= seq![high, low]);
}

/// Reading the canonical form of an identifier gives the identifier back.
pub proof fn lemma_parse_canonical(id: Identifier)
    ensures
        id.canonical().len() == 6,
        parsed(id.canonical()) == Some(id),
{
    lemma_byte_round_trip(id.b0);
    lemma_byte_round_trip(id.b1);
    lemma_byte_round_trip(id.b2);
}

/// Only the canonical form of an identifier reads as that identifier.
pub proof fn lemma_canonical_parsed(s: Seq<char>)
    requires
        parsed(s) is Some,
    ensures
        parsed(s)->0.canonical() == s,
{
    lemma_digits_round_trip(s[0], s[1]);
    lemma_digits_round_trip(s[2], s[3]);
    lemma_digits_round_trip(s[4], s[5]);
    assert(parsed(s)->0.canonical() =~= s);
}

/// Every number below 2^24 is the number of the identifier made from it, and
/// every identifier is made from its number.
pub proof fn lemma_number_round_trip(n: int, id: Identifier)
    requires
        0 <= n < 0x100_0000,
    ensures
        Identifier::with_number(n).number() == n,
        0 <= id.number() < 0x100_0000,
        Identifier::with_number(id.number()) == id,
{
}

} // verus!
