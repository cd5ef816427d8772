//! Small scalar types: the two-byte `Version`, the language code and the
//! form-type tag.
use vstd::prelude::*;

use crate::text::{push_digit, push_u32_decimal, spec_udec};
use vstd::string::StringExecFns;

verus! {

// -----------------------------  Version -----------------------------
/// A major.minor version, one byte each.
#[derive(Debug, PartialEq, Eq, PartialOrd, Ord, Clone, Copy, Structural)]
pub struct Version {
    major: u8,
    minor: u8,
}

impl View for Version {
    type V = (u8, u8);

    closed spec fn view(&self) -> (u8, u8) {
        (self.major, self.minor)
    }
}

impl Version {
    /// Number of bytes for Version.
    pub const BYTE_COUNT: usize = 2;

    /// The version as "major.minor", both unpadded decimals.
    pub fn to_string(&self) -> (r: String)
        ensures
            r@ == spec_udec(self@.0 as int) + seq!['.'] + spec_udec(self@.1 as int),
    {
        let mut s = String::new();
        push_u32_decimal(&mut s, self.major as u32);
        s.push('.');
        push_u32_decimal(&mut s, self.minor as u32);
        assert(s@ =~= spec_udec(self@.0 as int) + seq!['.'] + spec_udec(self@.1 as int));
        s
    }

    /// Serializes the version: the major byte, then the minor byte.
    pub fn to_bytes(&self) -> (r: [u8; 2])
        ensures
            r@ == seq![self@.0, self@.1 as u8],
    {
        [self.major, self.minor]
    }

    /// The serialized width, always two bytes.
    pub fn get_byte_count(&self) -> (r: usize)
        ensures
            r == 2,
    {
        2
    }

    /// Builds a version from major and minor parts.
    pub fn new(major: u8, minor: u8) -> (r: Version)
        ensures
            r@ == (major, minor),
    {
        Version { major, minor }
    }

    /// Reads a version from its two bytes.
    pub fn from_bytes(bytes: [u8; 2]) -> (r: Version)
        ensures
            r@ == (bytes@[0], bytes@[1]),
    {
        Version { major: bytes[0], minor: bytes[1] }
    }

    /// The major part.
    pub fn major(&self) -> (r: u8)
        ensures
            r == self@.0,
    {
        self.major
    }

    /// The minor part.
    pub fn minor(&self) -> (r: u8)
        ensures
            r == self@.1,
    {
        self.minor
    }
}

// -----------------------------  LangCode -----------------------------
/// A language tag stored as one byte.
#[derive(Debug, PartialEq, Eq, PartialOrd, Ord, Clone, Copy, Structural)]
pub enum LangCode {
    EN,
    FR,
    ES,
    DE,
}

/// The byte each language code is stored as.
pub open spec fn spec_lang_byte(l: LangCode) -> u8 {
    match l {
        LangCode::EN => 1,
        LangCode::FR => 2,
        LangCode::ES => 3,
        LangCode::DE => 4,
    }
}

/// The language code a byte stands for, if any.
pub open spec fn spec_lang_of_byte(b: u8) -> Option<LangCode> {
    if b == 1 {
        Some(LangCode::EN)
    } else if b == 2 {
        Some(LangCode::FR)
    } else if b == 3 {
        Some(LangCode::ES)
    } else if b == 4 {
        Some(LangCode::DE)
    } else {
        None
    }
}

impl LangCode {
    /// Number of bytes for LangCode.
    pub const BYTE_COUNT: usize = 1;

    /// The two-letter name of the language.
    pub fn to_string(&self) -> (r: String)
        ensures
            self == LangCode::EN ==> r@ == "EN"@,
            self == LangCode::FR ==> r@ == "FR"@,
            self == LangCode::ES ==> r@ == "ES"@,
            self == LangCode::DE ==> r@ == "DE"@,
    {
        match self {
            LangCode::EN => String::from_str("EN"),
            LangCode::FR => String::from_str("FR"),
            LangCode::ES => String::from_str("ES"),
            LangCode::DE => String::from_str("DE"),
        }
    }

    /// The numeric value of the stored byte.
    pub fn to_int(&self) -> (r: u8)
        ensures
            r == spec_lang_byte(*self),
    {
        match self {
            LangCode::EN => 1,
            LangCode::FR => 2,
            LangCode::ES => 3,
            LangCode::DE => 4,
        }
    }

    /// The byte the code is serialized as.
    pub fn to_byte(&self) -> (r: u8)
        ensures
            r == spec_lang_byte(*self),
    {
        self.to_int()
    }

    /// The code a byte stands for; `None` for an unknown byte.
    pub fn from_byte(b: u8) -> (r: Option<LangCode>)
        ensures
            r == spec_lang_of_byte(b),
    {
        if b == 1 {
            Some(LangCode::EN)
        } else if b == 2 {
            Some(LangCode::FR)
        } else if b == 3 {
            Some(LangCode::ES)
        } else if b == 4 {
            Some(LangCode::DE)
        } else {
            None
        }
    }
}

// -----------------------------  FormType -----------------------------
/// The tag naming which record variant a form is.
#[derive(Debug, PartialEq, Eq, PartialOrd, Ord, Clone, Copy, Structural)]
pub enum FormType {
    STRING,
    WORLD,
    REFGROUP,
    WORLDPART,
    WEATHER,
}

/// The byte each form type is stored as.
pub open spec fn spec_form_type_byte(t: FormType) -> u8 {
    match t {
        FormType::STRING => 0,
        FormType::WORLD => 1,
        FormType::REFGROUP => 2,
        FormType::WORLDPART => 3,
        FormType::WEATHER => 4,
    }
}

/// The form type a byte stands for, if any.
pub open spec fn spec_form_type_of_byte(b: u8) -> Option<FormType> {
    if b == 0 {
        Some(FormType::STRING)
    } else if b == 1 {
        Some(FormType::WORLD)
    } else if b == 2 {
        Some(FormType::REFGROUP)
    } else if b == 3 {
        Some(FormType::WORLDPART)
    } else if b == 4 {
        Some(FormType::WEATHER)
    } else {
        None
    }
}

impl FormType {
    /// Number of bytes for FormType.
    pub const BYTE_COUNT: usize = 1;

    /// The name of the form type.
    pub fn to_string(&self) -> (r: String)
        ensures
            self == FormType::STRING ==> r@ == "STRING"@,
            self == FormType::WORLD ==> r@ == "WORLD"@,
            self == FormType::REFGROUP ==> r@ == "REFGROUP"@,
            self == FormType::WORLDPART ==> r@ == "WORLDPART"@,
            self == FormType::WEATHER ==> r@ == "WEATHER"@,
    {
        match self {
            FormType::STRING => String::from_str("STRING"),
            FormType::WORLD => String::from_str("WORLD"),
            FormType::REFGROUP => String::from_str("REFGROUP"),
            FormType::WORLDPART => String::from_str("WORLDPART"),
            FormType::WEATHER => String::from_str("WEATHER"),
        }
    }

    /// The numeric value of the tag byte.
    pub fn to_u8(&self) -> (r: u8)
        ensures
            r == spec_form_type_byte(*self),
    {
        match self {
            FormType::STRING => 0,
            FormType::WORLD => 1,
            FormType::REFGROUP => 2,
            FormType::WORLDPART => 3,
            FormType::WEATHER => 4,
        }
    }

    /// The byte the tag is serialized as.
    pub fn to_byte(&self) -> (r: u8)
        ensures
            r == spec_form_type_byte(*self),
    {
        self.to_u8()
    }

    /// The serialized width, always one byte.
    pub fn get_byte_count(&self) -> (r: usize)
        ensures
            r == 1,
    {
        1
    }

    /// The tag a byte stands for; `None` for an unknown byte.
    pub fn from_byte(b: u8) -> (r: Option<FormType>)
        ensures
            r == spec_form_type_of_byte(b),
    {
        if b == 0 {
            Some(FormType::STRING)
        } else if b == 1 {
            Some(FormType::WORLD)
        } else if b == 2 {
            Some(FormType::REFGROUP)
        } else if b == 3 {
            Some(FormType::WORLDPART)
        } else if b == 4 {
            Some(FormType::WEATHER)
        } else {
            None
        }
    }
}

} // verus!
