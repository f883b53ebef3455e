//! Decimal rendering of integers, verified against a digit-sequence spec.

use vstd::prelude::*;
use crate::host::string_push;

verus! {

/// The character for one decimal digit.
pub open spec fn spec_digit_char(d: int) -> char
    recommends
        0 <= d < 10,
{
    ((d + 48) as u8) as char
}

/// The decimal digit string of a natural number, most significant first.
pub open spec fn spec_dec(n: nat) -> Seq<char>
    decreases n,
{
    if n < 10 {
        seq![spec_digit_char(n as int)]
    } else {
        spec_dec(n / 10).push(spec_digit_char((n % 10) as int))
    }
}

/// The decimal rendering of a signed number: a minus sign, then the digits
/// of the magnitude.
pub open spec fn spec_dec_signed(n: int) -> Seq<char> {
    if n < 0 {
        seq!['-'] + spec_dec((-n) as nat)
    } else {
        spec_dec(n as nat)
    }
}

fn push_digit(s: &mut String, d: u64)
    requires
        d < 10,
    ensures
        final(s)@ == old(s)@.push(spec_digit_char(d as int)),
{
    let b: u8 = (d as u8) + 48;
    string_push(s, b as char);
}

/// Appends the decimal digits of `n` to `s`.
pub fn push_u64_dec(s: &mut String, n: u64)
    ensures
        final(s)@ == old(s)@ + spec_dec(n as nat),
    decreases n,
{
    if n < 10 {
        push_digit(s, n);
        assert(old(s)@ + spec_dec(n as nat) =~= old(s)@.push(spec_digit_char(n as int)));
    } else {
        push_u64_dec(s, n / 10);
        push_digit(s, n % 10);
        assert(old(s)@ + spec_dec(n as nat) =~= (old(s)@ + spec_dec(n as nat / 10)).push(
            spec_digit_char((n % 10) as int),
        ));
    }
}

/// The decimal string of an unsigned number.
pub fn u64_to_dec_string(n: u64) -> (r: String)
    ensures
        r@ == spec_dec(n as nat),
{
    let mut s = String::new();
    push_u64_dec(&mut s, n);
    assert(s@ =~= spec_dec(n as nat));
    s
}

/// Appends the decimal rendering of a signed number to `s`.
pub fn push_i32_dec(s: &mut String, n: i32)
    ensures
        final(s)@ == old(s)@ + spec_dec_signed(n as int),
{
    if n < 0 {
        string_push(s, '-');
        let wide: i64 = n as i64;
        let mag: u64 = (-wide) as u64;
        assert(mag == -(n as int));
        push_u64_dec(s, mag);
        assert(old(s)@ + spec_dec_signed(n as int) =~= old(s)@.push('-') + spec_dec(
            (-(n as int)) as nat,
        ));
    } else {
        let mag: u64 = n as u64;
        push_u64_dec(s, mag);
    }
}

/// The decimal string of a signed number.
pub fn i32_to_dec_string(n: i32) -> (r: String)
    ensures
        r@ == spec_dec_signed(n as int),
{
    let mut s = String::new();
    push_i32_dec(&mut s, n);
    assert(s@ =~= spec_dec_signed(n as int));
    s
}

} // verus!
