use vstd::arithmetic::power::pow;
use vstd::prelude::*;

verus! {

/// The Crockford base-32 digit of `d` (0 to 31): digits, then upper-case letters
/// without I, L, O and U.
pub open spec fn crockford_digit(d: int) -> char {
    "0123456789ABCDEFGHJKMNPQRSTVWXYZ"@[d]
}

/// The text of a ULID value: 26 Crockford base-32 digits, most significant first, the
/// first digit holding the top three bits.
pub open spec fn ulid_text(value: u128) -> Seq<char> {
    Seq::new(26, |i: int| crockford_digit((value as int / pow(32, (25 - i) as nat)) % 32))
}

/// A fresh ULID from the clock and the system's randomness (`ulid::Ulid::new`).
/// Nothing is promised of its value.
#[verifier::external_body]
pub(crate) fn new_ulid() -> (id: u128) {
    ulid::Ulid::new().0
}

/// The text form of a ULID (`ulid::Ulid::to_string`, which encodes the value five bits
/// at a time from the least significant end into 26 characters).
#[verifier::external_body]
pub(crate) fn ulid_to_string(value: u128) -> (s: String)
    ensures
        s@ == ulid_text(value),
{
    ulid::Ulid(value).to_string()
}

/// A lower-case hexadecimal digit.
pub open spec fn hex_digit(d: int) -> char {
    "0123456789abcdef"@[d]
}

/// How JSON writes one character inside a string: the quote, the backslash and the
/// control characters are escaped (`\b \t \n \f \r` by name, the others as `\u00XX`);
/// every other character is written as it is.
pub open spec fn json_escaped_char(c: char) -> Seq<char> {
    let v = c as u32;
    if c == '"' {
        seq!['\\', '"']
    } else if c == '\\' {
        seq!['\\', '\\']
    } else if v == 0x8 {
        seq!['\\', 'b']
    } else if v == 0x9 {
        seq!['\\', 't']
    } else if v == 0xa {
        seq!['\\', 'n']
    } else if v == 0xc {
        seq!['\\', 'f']
    } else if v == 0xd {
        seq!['\\', 'r']
    } else if v < 0x20 {
        seq!['\\', 'u', '0', '0', hex_digit(v as int / 16), hex_digit(v as int % 16)]
    } else {
        seq![c]
    }
}

/// The escaped contents of a JSON string.
pub open spec fn json_escaped(s: Seq<char>) -> Seq<char>
    decreases s.len(),
{
    if s.len() == 0 {
        Seq::empty()
    } else {
        json_escaped(s.drop_last()) + json_escaped_char(s.last())
    }
}

/// A JSON string literal: the escaped text between double quotes.
pub open spec fn json_string_literal(text: Seq<char>) -> Seq<char> {
    seq!['"'] + json_escaped(text) + seq!['"']
}

/// `serde_json::to_string` on a `str`: the text as a JSON string literal, written by
/// the compact formatter. Serializing a `str` into a `Vec` cannot fail, so the error
/// arm is never taken.
#[verifier::external_body]
pub(crate) fn json_quote(text: &str) -> (s: String)
    ensures
        s@ == json_string_literal(text@),
{
    match serde_json::to_string(text) {
        Ok(s) => s,
        Err(_) => String::new(),
    }
}

} // verus!
