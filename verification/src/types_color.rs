//! RGBA colors: `SmlColor` with one byte per channel and `LrgColor` with a
//! big-endian 16-bit value per channel.
use vstd::prelude::*;

use crate::bytes::{push_u16_be, spec_u16_be, spec_u16_from_be};
use crate::text::{push_u32_decimal, spec_udec};
use vstd::string::StringExecFns;

verus! {

/// The rendered form "RGBA(r, g, b, a)" over the four channel decimals.
pub open spec fn spec_rgba_text(r: int, g: int, b: int, a: int) -> Seq<char> {
    "RGBA("@ + spec_udec(r) + seq![',', ' '] + spec_udec(g) + seq![',', ' '] + spec_udec(b) + seq![
        ',',
        ' ',
    ] + spec_udec(a) + seq![')']
}

/// Appends "RGBA(r, g, b, a)" for four channel values.
fn push_rgba_text(s: &mut String, r: u32, g: u32, b: u32, a: u32)
    ensures
        final(s)@ == old(s)@ + spec_rgba_text(r as int, g as int, b as int, a as int),
{
    s.append("RGBA(");
    push_u32_decimal(s, r);
    s.push(',');
    s.push(' ');
    push_u32_decimal(s, g);
    s.push(',');
    s.push(' ');
    push_u32_decimal(s, b);
    s.push(',');
    s.push(' ');
    push_u32_decimal(s, a);
    s.push(')');
    assert(s@ =~= old(s)@ + spec_rgba_text(r as int, g as int, b as int, a as int));
}

// -----------------------------  SmlColor -----------------------------
/// An RGBA color with one byte per channel.
#[derive(Debug, PartialEq, Eq, Clone, Copy, Structural)]
pub struct SmlColor {
    pub r: u8,
    pub g: u8,
    pub b: u8,
    pub a: u8,
}

impl SmlColor {
    /// Number of bytes for SmlColor.
    pub const BYTE_COUNT: usize = 4;

    /// Serializes the channels in RGBA order.
    pub fn to_bytes(&self) -> (r: [u8; 4])
        ensures
            r@ == seq![self.r, self.g, self.b, self.a],
    {
        [self.r, self.g, self.b, self.a]
    }

    /// Reads a color from four bytes in RGBA order.
    pub fn read_from_byte_buffer(bytes: [u8; 4]) -> (r: SmlColor)
        ensures
            seq![r.r, r.g, r.b, r.a] == bytes@,
    {
        let c = SmlColor { r: bytes[0], g: bytes[1], b: bytes[2], a: bytes[3] };
        proof {
            assert(seq![c.r, c.g, c.b, c.a] =~= bytes@);
        }
        c
    }

    /// The color as "RGBA(r, g, b, a)".
    pub fn to_string(&self) -> (r: String)
        ensures
            r@ == spec_rgba_text(self.r as int, self.g as int, self.b as int, self.a as int),
    {
        let mut s = String::new();
        push_rgba_text(&mut s, self.r as u32, self.g as u32, self.b as u32, self.a as u32);
        assert(s@ =~= spec_rgba_text(self.r as int, self.g as int, self.b as int, self.a as int));
        s
    }

    /// Builds a color from its four channels.
    pub fn new(r: u8, g: u8, b: u8, a: u8) -> (c: SmlColor)
        ensures
            c.r == r && c.g == g && c.b == b && c.a == a,
    {
        SmlColor { r, g, b, a }
    }
}

// -----------------------------  LrgColor -----------------------------
/// An RGBA color with a big-endian 16-bit value per channel.
#[derive(Debug, PartialEq, Eq, Clone, Copy, Structural)]
pub struct LrgColor {
    pub r: u16,
    pub g: u16,
    pub b: u16,
    pub a: u16,
}

impl LrgColor {
    /// Number of bytes for LrgColor.
    pub const BYTE_COUNT: usize = 8;

    /// Serializes the channels big-endian in RGBA order.
    pub fn to_bytes(&self) -> (r: Vec<u8>)
        ensures
            r@ == spec_u16_be(self.r) + spec_u16_be(self.g) + spec_u16_be(self.b) + spec_u16_be(
                self.a,
            ),
    {
        let mut out: Vec<u8> = Vec::new();
        push_u16_be(&mut out, self.r);
        push_u16_be(&mut out, self.g);
        push_u16_be(&mut out, self.b);
        push_u16_be(&mut out, self.a);
        out
    }

    /// Reads a color from eight big-endian bytes in RGBA order.
    pub fn from_bytes(bytes: [u8; 8]) -> (r: LrgColor)
        ensures
            r.r == spec_u16_from_be(bytes@[0], bytes@[1]),
            r.g == spec_u16_from_be(bytes@[2], bytes@[3]),
            r.b == spec_u16_from_be(bytes@[4], bytes@[5]),
            r.a == spec_u16_from_be(bytes@[6], bytes@[7]),
    {
        LrgColor {
            r: bytes[0] as u16 * 256 + bytes[1] as u16,
            g: bytes[2] as u16 * 256 + bytes[3] as u16,
            b: bytes[4] as u16 * 256 + bytes[5] as u16,
            a: bytes[6] as u16 * 256 + bytes[7] as u16,
        }
    }

    /// The color as "RGBA(r, g, b, a)".
    pub fn to_string(&self) -> (r: String)
        ensures
            r@ == spec_rgba_text(self.r as int, self.g as int, self.b as int, self.a as int),
    {
        let mut s = String::new();
        push_rgba_text(&mut s, self.r as u32, self.g as u32, self.b as u32, self.a as u32);
        assert(s@ =~= spec_rgba_text(self.r as int, self.g as int, self.b as int, self.a as int));
        s
    }

    /// Builds a color from its four channels.
    pub fn new(r: u16, g: u16, b: u16, a: u16) -> (c: LrgColor)
        ensures
            c.r == r && c.g == g && c.b == b && c.a == a,
    {
        LrgColor { r, g, b, a }
    }
}

} // verus!
