//! Identifiers at increasing scope: `FormID` (2 bytes), `ArchiveID` (1 byte),
//! `GlobalID` (ArchiveID then FormID) and `EntID` (GlobalID then a reference
//! FormID). All multi-byte values are big-endian.
use vstd::prelude::*;

use crate::bytes::{push_u16_be, read_u16_be, spec_u16_be, spec_u16_from_be};
use crate::text::{push_digit, spec_pad3, spec_pad5};
use vstd::string::StringExecFns;

verus! {

// -----------------------------  FormID -----------------------------
/// A 16-bit record identifier, unique within one archive.
#[derive(Debug, PartialEq, Eq, PartialOrd, Ord, Clone, Copy, Hash, Structural)]
pub struct FormID {
    value: u16,
}

impl View for FormID {
    type V = u16;

    closed spec fn view(&self) -> u16 {
        self.value
    }
}

/// The two big-endian bytes of a form identifier.
pub open spec fn spec_form_id_bytes(v: u16) -> Seq<u8> {
    spec_u16_be(v)
}

impl FormID {
    /// Number of bytes for FormID.
    pub const BYTE_COUNT: usize = 2;

    /// Serializes the identifier big-endian.
    pub fn to_bytes(&self) -> (r: [u8; 2])
        ensures
            r@ == spec_form_id_bytes(self@),
    {
        [(self.value / 256) as u8, (self.value % 256) as u8]
    }

    /// The identifier's numeric value.
    pub fn to_u16(&self) -> (r: u16)
        ensures
            r == self@,
    {
        self.value
    }

    /// The identifier as a five-digit zero-padded decimal.
    pub fn to_string(&self) -> (r: String)
        ensures
            r@ == spec_pad5(self@),
    {
        let mut s = String::new();
        push_digit(&mut s, (self.value / 10000 % 10) as u8);
        push_digit(&mut s, (self.value / 1000 % 10) as u8);
        push_digit(&mut s, (self.value / 100 % 10) as u8);
        push_digit(&mut s, (self.value / 10 % 10) as u8);
        push_digit(&mut s, (self.value % 10) as u8);
        assert(s@ =~= spec_pad5(self@));
        s
    }

    /// The serialized width, always two bytes.
    pub fn get_byte_count(&self) -> (r: usize)
        ensures
            r == 2,
    {
        2
    }

    /// Builds the identifier from its numeric value.
    pub fn new(value: u16) -> (r: FormID)
        ensures
            r@ == value,
    {
        FormID { value }
    }

    /// Reads the identifier from two big-endian bytes.
    pub fn from_bytes(bytes: [u8; 2]) -> (r: FormID)
        ensures
            r@ == spec_u16_from_be(bytes@[0], bytes@[1]),
    {
        FormID { value: bytes[0] as u16 * 256 + bytes[1] as u16 }
    }
}

// -----------------------------  ArchiveID -----------------------------
/// An 8-bit archive identifier.
#[derive(Debug, PartialEq, Eq, PartialOrd, Ord, Clone, Copy, Structural)]
pub struct ArchiveID {
    value: u8,
}

impl View for ArchiveID {
    type V = u8;

    closed spec fn view(&self) -> u8 {
        self.value
    }
}

impl ArchiveID {
    /// Number of bytes for ArchiveID.
    pub const BYTE_COUNT: usize = 1;

    /// Serializes the identifier as its single byte.
    pub fn to_bytes(&self) -> (r: [u8; 1])
        ensures
            r@ == seq![self@],
    {
        [self.value]
    }

    /// The identifier's numeric value.
    pub fn to_u8(&self) -> (r: u8)
        ensures
            r == self@,
    {
        self.value
    }

    /// The identifier as a three-digit zero-padded decimal.
    pub fn to_string(&self) -> (r: String)
        ensures
            r@ == spec_pad3(self@),
    {
        let mut s = String::new();
        push_digit(&mut s, self.value / 100 % 10);
        push_digit(&mut s, self.value / 10 % 10);
        push_digit(&mut s, self.value % 10);
        assert(s@ =~= spec_pad3(self@));
        s
    }

    /// The serialized width, always one byte.
    pub fn get_byte_count(&self) -> (r: usize)
        ensures
            r == 1,
    {
        1
    }

    /// Builds the identifier from its numeric value.
    pub fn new(value: u8) -> (r: ArchiveID)
        ensures
            r@ == value,
    {
        ArchiveID { value }
    }
}

// -----------------------------  GlobalID -----------------------------
/// A cross-archive reference: an ArchiveID followed by a FormID.
#[derive(Debug, PartialEq, Eq, PartialOrd, Ord, Clone, Copy, Structural)]
pub struct GlobalID {
    archive_id: ArchiveID,
    form_id: FormID,
}

impl View for GlobalID {
    type V = (u8, u16);

    closed spec fn view(&self) -> (u8, u16) {
        (self.archive_id@, self.form_id@)
    }
}

/// The three bytes of a global identifier: archive byte, then form id.
pub open spec fn spec_global_id_bytes(g: (u8, u16)) -> Seq<u8> {
    seq![g.0] + spec_u16_be(g.1)
}

impl GlobalID {
    /// Number of bytes for GlobalID.
    pub const BYTE_COUNT: usize = 3;

    /// Serializes the identifier: archive byte, then big-endian form id.
    pub fn to_bytes(&self) -> (r: [u8; 3])
        ensures
            r@ == spec_global_id_bytes(self@),
    {
        let f = self.form_id.to_u16();
        let r = [self.archive_id.to_u8(), (f / 256) as u8, (f % 256) as u8];
        assert(r@ =~= spec_global_id_bytes(self@));
        r
    }

    /// The padded decimals of the archive id then the form id.
    pub fn to_string(&self) -> (r: String)
        ensures
            r@ == spec_pad3(self@.0) + spec_pad5(self@.1),
    {
        let mut s = self.archive_id.to_string();
        let t = self.form_id.to_string();
        s.append(t.as_str());
        s
    }

    /// The serialized width, always three bytes.
    pub fn get_byte_count(&self) -> (r: usize)
        ensures
            r == 3,
    {
        3
    }

    /// Builds the identifier from its two parts.
    pub fn new(archive_id: ArchiveID, form_id: FormID) -> (r: GlobalID)
        ensures
            r@ == (archive_id@, form_id@),
    {
        GlobalID { archive_id, form_id }
    }

    /// The archive part.
    pub fn archive_id(&self) -> (r: ArchiveID)
        ensures
            r@ == self@.0,
    {
        self.archive_id
    }

    /// The form part.
    pub fn form_id(&self) -> (r: FormID)
        ensures
            r@ == self@.1,
    {
        self.form_id
    }

    /// Reads the identifier from three bytes.
    pub fn from_bytes(bytes: [u8; 3]) -> (r: GlobalID)
        ensures
            r@ == (bytes@[0], spec_u16_from_be(bytes@[1], bytes@[2])),
    {
        GlobalID {
            archive_id: ArchiveID::new(bytes[0]),
            form_id: FormID::from_bytes([bytes[1], bytes[2]]),
        }
    }
}

// -----------------------------  EntID -----------------------------
/// An entity identifier: a GlobalID followed by a reference FormID.
#[derive(Debug, PartialEq, Eq, PartialOrd, Ord, Clone, Copy, Structural)]
pub struct EntID {
    global_id: GlobalID,
    reference_id: FormID,
}

impl View for EntID {
    type V = ((u8, u16), u16);

    closed spec fn view(&self) -> ((u8, u16), u16) {
        (self.global_id@, self.reference_id@)
    }
}

/// The five bytes of an entity identifier.
pub open spec fn spec_ent_id_bytes(e: ((u8, u16), u16)) -> Seq<u8> {
    spec_global_id_bytes(e.0) + spec_u16_be(e.1)
}

impl EntID {
    /// Number of bytes for EntID.
    pub const BYTE_COUNT: usize = 5;

    /// Serializes the identifier: global id bytes, then the reference id.
    pub fn to_bytes(&self) -> (r: Vec<u8>)
        ensures
            r@ == spec_ent_id_bytes(self@),
    {
        let g = self.global_id.to_bytes();
        let mut r: Vec<u8> = Vec::new();
        r.push(g[0]);
        r.push(g[1]);
        r.push(g[2]);
        push_u16_be(&mut r, self.reference_id.to_u16());
        assert(r@ =~= spec_ent_id_bytes(self@));
        r
    }

    /// The padded decimals of the global id then the reference id.
    pub fn to_string(&self) -> (r: String)
        ensures
            r@ == spec_pad3(self@.0.0) + spec_pad5(self@.0.1) + spec_pad5(self@.1),
    {
        let mut s = self.global_id.to_string();
        let t = self.reference_id.to_string();
        s.append(t.as_str());
        s
    }

    /// The serialized width, always five bytes.
    pub fn get_byte_count(&self) -> (r: usize)
        ensures
            r == 5,
    {
        5
    }

    /// Builds the identifier from its two parts.
    pub fn new(global_id: GlobalID, reference_id: FormID) -> (r: EntID)
        ensures
            r@ == (global_id@, reference_id@),
    {
        EntID { global_id, reference_id }
    }

    /// The global part.
    pub fn global_id(&self) -> (r: GlobalID)
        ensures
            r@ == self@.0,
    {
        self.global_id
    }

    /// The reference part.
    pub fn reference_id(&self) -> (r: FormID)
        ensures
            r@ == self@.1,
    {
        self.reference_id
    }
}

} // verus!
