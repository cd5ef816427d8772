//! Decimal rendering helpers shared by the identifier and scalar types.
use vstd::prelude::*;

verus! {

/// The character for one decimal digit.
pub open spec fn spec_digit(d: int) -> char {
    if d == 0 {
        '0'
    } else if d == 1 {
        '1'
    } else if d == 2 {
        '2'
    } else if d == 3 {
        '3'
    } else if d == 4 {
        '4'
    } else if d == 5 {
        '5'
    } else if d == 6 {
        '6'
    } else if d == 7 {
        '7'
    } else if d == 8 {
        '8'
    } else {
        '9'
    }
}

/// Unpadded decimal digits of a non-negative number.
pub open spec fn spec_udec(v: int) -> Seq<char>
    decreases v,
{
    if v < 10 {
        seq![spec_digit(v)]
    } else {
        spec_udec(v / 10).push(spec_digit(v % 10))
    }
}

/// Signed decimal: a minus sign before the digits of the magnitude.
pub open spec fn spec_idec(v: int) -> Seq<char> {
    if v < 0 {
        seq!['-'] + spec_udec(-v)
    } else {
        spec_udec(v)
    }
}

/// Five-digit zero-padded decimal of a 16-bit number.
pub open spec fn spec_pad5(v: u16) -> Seq<char> {
    seq![
        spec_digit(v as int / 10000 % 10),
        spec_digit(v as int / 1000 % 10),
        spec_digit(v as int / 100 % 10),
        spec_digit(v as int / 10 % 10),
        spec_digit(v as int % 10),
    ]
}

/// Three-digit zero-padded decimal of an 8-bit number.
pub open spec fn spec_pad3(v: u8) -> Seq<char> {
    seq![
        spec_digit(v as int / 100 % 10),
        spec_digit(v as int / 10 % 10),
        spec_digit(v as int % 10),
    ]
}

/// Appends the character of one decimal digit.
pub fn push_digit(s: &mut String, d: u8)
    requires
        d < 10,
    ensures
        final(s)@ == old(s)@.push(spec_digit(d as int)),
{
    if d == 0 {
        s.push('0');
    } else if d == 1 {
        s.push('1');
    } else if d == 2 {
        s.push('2');
    } else if d == 3 {
        s.push('3');
    } else if d == 4 {
        s.push('4');
    } else if d == 5 {
        s.push('5');
    } else if d == 6 {
        s.push('6');
    } else if d == 7 {
        s.push('7');
    } else if d == 8 {
        s.push('8');
    } else {
        s.push('9');
    }
}

/// Appends the unpadded decimal digits of `v`.
pub fn push_u32_decimal(s: &mut String, v: u32)
    ensures
        final(s)@ == old(s)@ + spec_udec(v as int),
    decreases v,
{
    if v < 10 {
        push_digit(s, v as u8);
        assert(s@ =~= old(s)@ + spec_udec(v as int));
    } else {
        push_u32_decimal(s, v / 10);
        push_digit(s, (v % 10) as u8);
        assert(s@ =~= old(s)@ + spec_udec(v as int));
    }
}

/// Appends the signed decimal of `v`.
pub fn push_i32_decimal(s: &mut String, v: i32)
    ensures
        final(s)@ == old(s)@ + spec_idec(v as int),
{
    if v < 0 {
        s.push('-');
        let m64: i64 = -(v as i64);
        assert(0 < m64 <= 0x8000_0000);
        let magnitude: u32 = m64 as u32;
        push_u32_decimal(s, magnitude);
        assert(s@ =~= old(s)@ + spec_idec(v as int));
    } else {
        push_u32_decimal(s, v as u32);
    }
}

} // verus!
