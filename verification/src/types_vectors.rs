//! Fixed-width integer vectors, stored as big-endian 32-bit components.
use vstd::prelude::*;

use crate::bytes::{push_u32_be, read_u32_be, spec_u32_be, spec_u32_from_be};
use crate::text::{push_i32_decimal, spec_idec};
use vstd::string::StringExecFns;

verus! {

/// The unsigned 32-bit value whose bit pattern stores a signed component.
pub open spec fn spec_i32_as_u32(x: i32) -> u32 {
    if x >= 0 {
        x as u32
    } else {
        (x + 0x1_0000_0000) as u32
    }
}

/// The signed component a stored 32-bit value stands for.
pub open spec fn spec_u32_as_i32(u: u32) -> i32 {
    if u <= 0x7FFF_FFFF {
        u as i32
    } else {
        (u - 0x1_0000_0000) as i32
    }
}

pub proof fn lemma_i32_u32_round_trip(x: i32)
    ensures
        spec_u32_as_i32(spec_i32_as_u32(x)) == x,
{
}

/// Converts a signed component to its stored bit pattern.
pub fn i32_to_u32(x: i32) -> (r: u32)
    ensures
        r == spec_i32_as_u32(x),
{
    if x >= 0 {
        x as u32
    } else {
        ((x as i64) + 0x1_0000_0000) as u32
    }
}

/// Converts a stored bit pattern back to its signed component.
pub fn u32_to_i32(u: u32) -> (r: i32)
    ensures
        r == spec_u32_as_i32(u),
{
    if u <= 0x7FFF_FFFF {
        u as i32
    } else {
        ((u as i64) - 0x1_0000_0000) as i32
    }
}

// -----------------------------  Vec2Int -----------------------------
/// A pair of signed 32-bit components.
#[derive(Debug, PartialEq, Eq, Clone, Copy, Structural)]
pub struct Vec2Int {
    pub x: i32,
    pub y: i32,
}

/// The eight big-endian bytes of a two-component vector.
pub open spec fn spec_vec2_int_bytes(x: i32, y: i32) -> Seq<u8> {
    spec_u32_be(spec_i32_as_u32(x)) + spec_u32_be(spec_i32_as_u32(y))
}

impl Vec2Int {
    /// Number of bytes for Vec2Int.
    pub const BYTE_COUNT: usize = 8;

    /// The vector as "(x, y)".
    pub fn to_string(&self) -> (r: String)
        ensures
            r@ == seq!['('] + spec_idec(self.x as int) + seq![',', ' '] + spec_idec(self.y as int)
                + seq![')'],
    {
        let mut s = String::new();
        s.push('(');
        push_i32_decimal(&mut s, self.x);
        s.push(',');
        s.push(' ');
        push_i32_decimal(&mut s, self.y);
        s.push(')');
        assert(s@ =~= seq!['('] + spec_idec(self.x as int) + seq![',', ' '] + spec_idec(
            self.y as int,
        ) + seq![')']);
        s
    }

    /// Serializes both components big-endian.
    pub fn to_bytes(&self) -> (r: Vec<u8>)
        ensures
            r@ == spec_vec2_int_bytes(self.x, self.y),
    {
        let mut r: Vec<u8> = Vec::new();
        push_u32_be(&mut r, i32_to_u32(self.x));
        push_u32_be(&mut r, i32_to_u32(self.y));
        r
    }

    /// The serialized width, always eight bytes.
    pub fn get_byte_count(&self) -> (r: usize)
        ensures
            r == 8,
    {
        8
    }

    /// Builds a vector from its components.
    pub fn new(x: i32, y: i32) -> (r: Vec2Int)
        ensures
            r.x == x && r.y == y,
    {
        Vec2Int { x, y }
    }
}

// -----------------------------  Vec3Int -----------------------------
/// A triple of signed 32-bit components.
#[derive(Debug, PartialEq, Eq, Clone, Copy, Structural)]
pub struct Vec3Int {
    pub x: i32,
    pub y: i32,
    pub z: i32,
}

/// The twelve big-endian bytes of a three-component vector.
pub open spec fn spec_vec3_int_bytes(v: (i32, i32, i32)) -> Seq<u8> {
    spec_u32_be(spec_i32_as_u32(v.0)) + spec_u32_be(spec_i32_as_u32(v.1)) + spec_u32_be(
        spec_i32_as_u32(v.2),
    )
}

impl View for Vec3Int {
    type V = (i32, i32, i32);

    open spec fn view(&self) -> (i32, i32, i32) {
        (self.x, self.y, self.z)
    }
}

impl Vec3Int {
    /// Number of bytes for Vec3Int.
    pub const BYTE_COUNT: usize = 12;

    /// The vector as "(x, y, z)".
    pub fn to_string(&self) -> (r: String)
        ensures
            r@ == seq!['('] + spec_idec(self.x as int) + seq![',', ' '] + spec_idec(self.y as int)
                + seq![',', ' '] + spec_idec(self.z as int) + seq![')'],
    {
        let mut s = String::new();
        s.push('(');
        push_i32_decimal(&mut s, self.x);
        s.push(',');
        s.push(' ');
        push_i32_decimal(&mut s, self.y);
        s.push(',');
        s.push(' ');
        push_i32_decimal(&mut s, self.z);
        s.push(')');
        assert(s@ =~= seq!['('] + spec_idec(self.x as int) + seq![',', ' '] + spec_idec(
            self.y as int,
        ) + seq![',', ' '] + spec_idec(self.z as int) + seq![')']);
        s
    }

    /// Serializes all three components big-endian.
    pub fn to_bytes(&self) -> (r: Vec<u8>)
        ensures
            r@ == spec_vec3_int_bytes(self@),
    {
        let mut r: Vec<u8> = Vec::new();
        push_u32_be(&mut r, i32_to_u32(self.x));
        push_u32_be(&mut r, i32_to_u32(self.y));
        push_u32_be(&mut r, i32_to_u32(self.z));
        r
    }

    /// The serialized width, always twelve bytes.
    pub fn get_byte_count(&self) -> (r: usize)
        ensures
            r == 12,
    {
        12
    }

    /// Builds a vector from its components.
    pub fn new(x: i32, y: i32, z: i32) -> (r: Vec3Int)
        ensures
            r@ == (x, y, z),
    {
        Vec3Int { x, y, z }
    }
}

} // verus!
