//! Numbers in error messages.
use vstd::prelude::*;

verus! {

/// `String::push` appends one character.
pub assume_specification[ std::string::String::push ](s: &mut std::string::String, c: char)
    ensures
        final(s)@ == old(s)@.push(c),
;

/// The digit that stands for `d` (0 to 15).
pub open spec fn digit(d: int) -> char {
    if d < 10 {
        (0x30 + d) as char
    } else {
        (0x41 + d - 10) as char
    }
}

/// `n` in decimal, without leading zeros.
pub open spec fn dec(n: nat) -> Seq<char>
    decreases n,
{
    if n < 10 {
        seq![digit(n as int)]
    } else {
        dec(n / 10).push(digit((n % 10) as int))
    }
}

/// `v` in decimal, with a minus sign where it is negative.
pub open spec fn signed_dec(v: int) -> Seq<char> {
    if v < 0 {
        seq!['-'] + dec((-v) as nat)
    } else {
        dec(v as nat)
    }
}

/// `b` as two upper-case hexadecimal digits.
pub open spec fn hex(b: u8) -> Seq<char> {
    seq![digit((b / 16) as int), digit((b % 16) as int)]
}

fn digit_char(d: u8) -> (c: char)
    requires
        d < 16,
    ensures
        c == digit(d as int),
{
    if d < 10 {
        (0x30 + d) as char
    } else {
        (0x41 + (d - 10)) as char
    }
}

/// Append `n` in decimal.
pub fn push_dec(s: &mut String, n: usize)
    ensures
        final(s)@ == old(s)@ + dec(n as nat),
    decreases n,
{
    if n >= 10 {
        push_dec(s, n / 10);
    }
    s.push(digit_char((n % 10) as u8));
}

/// Append `v` in decimal.
pub fn push_signed_dec(s: &mut String, v: i8)
    ensures
        final(s)@ == old(s)@ + signed_dec(v as int),
{
    if v < 0 {
        s.push('-');
        push_dec(s, (-(v as i16)) as usize);
    } else {
        push_dec(s, v as usize);
    }
}

/// Append `b` in hexadecimal.
pub fn push_hex(s: &mut String, b: u8)
    ensures
        final(s)@ == old(s)@ + hex(b),
{
    s.push(digit_char(b / 16));
    s.push(digit_char(b % 16));
}

/// A byte in hexadecimal is two digits, `0` to `9` and `A` to `F`, the high half
/// first.
pub proof fn law_hex(b: u8)
    ensures
        hex(b).len() == 2,
        hex(b)[0] as int == if b < 0xA0 {
            0x30 + b / 16
        } else {
            0x37 + b / 16
        },
        hex(b)[1] as int == if b % 16 < 10 {
            0x30 + b % 16
        } else {
            0x37 + b % 16
        },
{
}

/// A number below ten is one digit, and any other is its tenth part with the digit
/// for what that leaves over behind it.
pub proof fn law_dec(n: nat)
    ensures
        n < 10 ==> dec(n) == seq![(0x30 + n) as char],
        n >= 10 ==> dec(n) == dec(n / 10).push((0x30 + n % 10) as char),
{
}

/// A negative number is a minus sign and the number without it.
pub proof fn law_signed_dec(v: int)
    ensures
        v >= 0 ==> signed_dec(v) == dec(v as nat),
        v < 0 ==> signed_dec(v) == seq!['-'] + dec((0 - v) as nat),
{
}

} // verus!
