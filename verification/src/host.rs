//! Trusted bindings to the standard library: string building blocks and
//! UTF-8 conversions that the verified code relies on.

use vstd::prelude::*;
use vstd::utf8::{valid_utf8, decode_utf8};

verus! {

/// Relies on String::push: appends exactly one character to the string.
#[verifier::external_body]
pub fn string_push(s: &mut String, c: char)
    ensures
        final(s)@ == old(s)@.push(c),
{
    s.push(c);
}

/// Relies on String::from_utf8: succeeds exactly on valid UTF-8 and decodes it.
#[verifier::external_body]
pub fn bytes_to_string(bytes: &[u8]) -> (r: Option<String>)
    ensures
        r is Some <==> valid_utf8(bytes@),
        r is Some ==> r.unwrap()@ == decode_utf8(bytes@),
{
    match core::str::from_utf8(bytes) {
        Ok(s) => Some(s.to_string()),
        Err(_) => None,
    }
}

/// The characters String::from_utf8_lossy reads out of a byte sequence;
/// the result depends on the bytes alone.
pub uninterp spec fn lossy_chars_of(bytes: Seq<u8>) -> Seq<char>;

/// Relies on String::from_utf8_lossy: the result depends on the bytes
/// alone, and valid UTF-8 input decodes unchanged.
#[verifier::external_body]
pub fn bytes_to_string_lossy(bytes: &[u8]) -> (r: String)
    ensures
        r@ == lossy_chars_of(bytes@),
        valid_utf8(bytes@) ==> r@ == decode_utf8(bytes@),
{
    String::from_utf8_lossy(bytes).into_owned()
}

/// Relies on char::from_u32: a scalar value outside the surrogate range
/// converts to the character with that value; surrogates and values above
/// 0x10FFFF are rejected.
#[verifier::external_body]
pub fn char_from_u32(v: u32) -> (r: Option<char>)
    ensures
        r is Some <==> (v < 0xD800 || (0xE000 <= v && v <= 0x10FFFF)),
        r is Some ==> r.unwrap() as u32 == v,
{
    char::from_u32(v)
}

/// Relies on str::chars: yields the characters of the string in order.
#[verifier::external_body]
pub fn str_chars(s: &str) -> (r: Vec<char>)
    ensures
        r@ == s@,
{
    s.chars().collect()
}

/// Whether a character counts as alphanumeric; the result depends on the
/// character alone.
pub uninterp spec fn char_alphanumeric(c: char) -> bool;

/// Relies on char::is_alphanumeric: a fixed classification per character;
/// within ASCII exactly the letters and decimal digits are alphanumeric.
#[verifier::external_body]
pub fn is_char_alphanumeric(c: char) -> (r: bool)
    ensures
        r == char_alphanumeric(c),
        ((c as u32) < 128) ==> (r <==> ((c as u32 >= 48 && c as u32 <= 57) || (c as u32 >= 65
            && c as u32 <= 90) || (c as u32 >= 97 && c as u32 <= 122))),
{
    c.is_alphanumeric()
}

/// Whether a character counts as whitespace; the result depends on the
/// character alone.
pub uninterp spec fn char_whitespace(c: char) -> bool;

/// Relies on char::is_whitespace: a fixed classification per character;
/// within ASCII exactly space, tab, line feed, vertical tab, form feed and
/// carriage return are whitespace.
#[verifier::external_body]
pub fn is_char_whitespace(c: char) -> (r: bool)
    ensures
        r == char_whitespace(c),
        ((c as u32) < 128) ==> (r <==> (c == ' ' || (c as u32 >= 9 && c as u32 <= 13))),
{
    c.is_whitespace()
}

/// Whether a character counts as numeric; the result depends on the
/// character alone.
pub uninterp spec fn char_numeric(c: char) -> bool;

/// Relies on char::is_numeric: a fixed classification per character;
/// within ASCII exactly the decimal digits are numeric.
#[verifier::external_body]
pub fn is_char_numeric(c: char) -> (r: bool)
    ensures
        r == char_numeric(c),
        ((c as u32) < 128) ==> (r <==> (c as u32 >= 48 && c as u32 <= 57)),
{
    c.is_numeric()
}

} // verus!
