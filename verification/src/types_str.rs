//! Length-prefixed UTF-16 strings: `StrSml` (one-byte count) and `StrLrg`
//! (two-byte big-endian count). Code units are stored big-endian; surrogate
//! code units are rejected when a string is built from text.
use vstd::prelude::*;

use crate::ArchiveError;
use crate::bytes::{spec_u16_be, spec_u16_from_be, push_u16_be, read_u16_be, lemma_u16_be_round_trip, lemma_u16_from_be_round_trip};

verus! {

/// The big-endian byte stream of a sequence of UTF-16 code units.
pub open spec fn spec_utf16_bytes(s: Seq<u16>) -> Seq<u8>
    decreases s.len(),
{
    if s.len() == 0 {
        Seq::empty()
    } else {
        spec_u16_be(s[0]) + spec_utf16_bytes(s.drop_first())
    }
}

/// The UTF-16 code units a character sequence encodes to, surrogate pairs
/// included for characters beyond the basic plane.
pub open spec fn spec_utf16_of_chars(s: Seq<char>) -> Seq<u16>
    decreases s.len(),
{
    if s.len() == 0 {
        Seq::empty()
    } else {
        let c = s[0] as int;
        let head = if c < 0x10000 {
            seq![c as u16]
        } else {
            seq![(0xD800 + (c - 0x10000) / 0x400) as u16, (0xDC00 + (c - 0x10000) % 0x400) as u16]
        };
        head + spec_utf16_of_chars(s.drop_first())
    }
}

/// Holds when no code unit lies in the surrogate range.
pub open spec fn no_surrogates(s: Seq<u16>) -> bool {
    forall|i: int| 0 <= i < s.len() ==> !(0xD800 <= #[trigger] s[i] <= 0xDFFF)
}

/// The code units read from `n` big-endian pairs starting at `pos`.
pub open spec fn spec_parse_utf16(b: Seq<u8>, pos: int, n: int) -> Seq<u16> {
    Seq::new(n as nat, |i: int| spec_u16_from_be(b[pos + 2 * i], b[pos + 2 * i + 1]))
}

/// The encoding of a small string: a one-byte count, then the code units.
pub open spec fn spec_str_sml_bytes(s: Seq<u16>) -> Seq<u8> {
    seq![s.len() as u8] + spec_utf16_bytes(s)
}

/// The encoding of a large string: a two-byte count, then the code units.
pub open spec fn spec_str_lrg_bytes(s: Seq<u16>) -> Seq<u8> {
    spec_u16_be(s.len() as u16) + spec_utf16_bytes(s)
}

/// What a small string parse at `pos` yields: the code units and the
/// position just past them.
pub open spec fn spec_parse_str_sml_at(b: Seq<u8>, pos: int) -> Option<(Seq<u16>, int)> {
    if pos < 0 || b.len() < pos + 1 {
        None
    } else {
        let n = b[pos] as int;
        if b.len() < pos + 1 + 2 * n {
            None
        } else {
            Some((spec_parse_utf16(b, pos + 1, n), pos + 1 + 2 * n))
        }
    }
}

/// What a small string parse of `b` yields: the code units and the bytes consumed.
pub open spec fn spec_parse_str_sml(b: Seq<u8>) -> Option<(Seq<u16>, int)> {
    spec_parse_str_sml_at(b, 0)
}

/// What a large string parse at `pos` yields: the code units and the
/// position just past them.
pub open spec fn spec_parse_str_lrg_at(b: Seq<u8>, pos: int) -> Option<(Seq<u16>, int)> {
    if pos < 0 || b.len() < pos + 2 {
        None
    } else {
        let n = spec_u16_from_be(b[pos], b[pos + 1]) as int;
        if b.len() < pos + 2 + 2 * n {
            None
        } else {
            Some((spec_parse_utf16(b, pos + 2, n), pos + 2 + 2 * n))
        }
    }
}

/// What a large string parse of `b` yields: the code units and the bytes consumed.
pub open spec fn spec_parse_str_lrg(b: Seq<u8>) -> Option<(Seq<u16>, int)> {
    spec_parse_str_lrg_at(b, 0)
}

pub proof fn lemma_utf16_bytes_len(s: Seq<u16>)
    ensures
        spec_utf16_bytes(s).len() == 2 * s.len(),
    decreases s.len(),
{
    if s.len() > 0 {
        lemma_utf16_bytes_len(s.drop_first());
    }
}

pub proof fn lemma_utf16_bytes_index(s: Seq<u16>, i: int)
    requires
        0 <= i < s.len(),
    ensures
        spec_utf16_bytes(s).len() == 2 * s.len(),
        spec_utf16_bytes(s)[2 * i] == (s[i] / 256) as u8,
        spec_utf16_bytes(s)[2 * i + 1] == (s[i] % 256) as u8,
    decreases s.len(),
{
    lemma_utf16_bytes_len(s);
    lemma_utf16_bytes_len(s.drop_first());
    if i > 0 {
        lemma_utf16_bytes_index(s.drop_first(), i - 1);
    }
}

pub proof fn lemma_utf16_bytes_push(s: Seq<u16>, x: u16)
    ensures
        spec_utf16_bytes(s.push(x)) == spec_utf16_bytes(s) + spec_u16_be(x),
    decreases s.len(),
{
    if s.len() == 0 {
        assert(s.push(x)[0] == x);
        assert(s.push(x).drop_first() =~= Seq::<u16>::empty());
        assert(spec_utf16_bytes(s.push(x)) == spec_u16_be(x) + spec_utf16_bytes(
            s.push(x).drop_first(),
        ));
        assert(spec_utf16_bytes(s.push(x)) =~= spec_utf16_bytes(s) + spec_u16_be(x));
    } else {
        assert(s.push(x).drop_first() =~= s.drop_first().push(x));
        lemma_utf16_bytes_push(s.drop_first(), x);
        assert(spec_utf16_bytes(s.push(x)) =~= spec_utf16_bytes(s) + spec_u16_be(x));
    }
}

/// Parsing code units back from their own encoding gives the original units.
pub proof fn lemma_parse_utf16_of_encoding(b: Seq<u8>, pos: int, s: Seq<u16>)
    requires
        0 <= pos,
        pos + 2 * s.len() <= b.len(),
        b.subrange(pos, pos + 2 * s.len()) == spec_utf16_bytes(s),
    ensures
        spec_parse_utf16(b, pos, s.len() as int) == s,
{
    let n = s.len() as int;
    assert forall|i: int| 0 <= i < n implies spec_parse_utf16(b, pos, n)[i] == s[i] by {
        lemma_utf16_bytes_index(s, i);
        assert(b[pos + 2 * i] == b.subrange(pos, pos + 2 * n)[2 * i]);
        assert(b[pos + 2 * i + 1] == b.subrange(pos, pos + 2 * n)[2 * i + 1]);
        lemma_u16_be_round_trip(s[i]);
    }
    assert(spec_parse_utf16(b, pos, n) =~= s);
}

/// Re-encoding parsed code units reproduces exactly the bytes they came from.
pub proof fn lemma_utf16_parse_exact(b: Seq<u8>, pos: int, n: int)
    requires
        0 <= pos,
        0 <= n,
        pos + 2 * n <= b.len(),
    ensures
        spec_utf16_bytes(spec_parse_utf16(b, pos, n)) == b.subrange(pos, pos + 2 * n),
{
    let s = spec_parse_utf16(b, pos, n);
    lemma_utf16_bytes_len(s);
    assert forall|j: int| 0 <= j < 2 * n implies spec_utf16_bytes(s)[j] == b.subrange(
        pos,
        pos + 2 * n,
    )[j] by {
        let i = j / 2;
        assert(j == 2 * i || j == 2 * i + 1);
        lemma_utf16_bytes_index(s, i);
        lemma_u16_from_be_round_trip(b[pos + 2 * i], b[pos + 2 * i + 1]);
    }
    assert(spec_utf16_bytes(s) =~= b.subrange(pos, pos + 2 * n));
}

/// A parsed small string re-encodes to exactly the bytes it was read from.
pub proof fn lemma_str_sml_exact_at(b: Seq<u8>, pos: int)
    requires
        spec_parse_str_sml_at(b, pos) is Some,
    ensures
        ({
            let (s, end) = spec_parse_str_sml_at(b, pos).unwrap();
            &&& s.len() <= 255
            &&& end == pos + 1 + 2 * s.len()
            &&& spec_str_sml_bytes(s) == b.subrange(pos, end)
        }),
{
    let (s, end) = spec_parse_str_sml_at(b, pos).unwrap();
    let n = b[pos] as int;
    lemma_utf16_parse_exact(b, pos + 1, n);
    lemma_utf16_bytes_len(s);
    assert(spec_str_sml_bytes(s) =~= b.subrange(pos, end));
}

/// A parsed large string re-encodes to exactly the bytes it was read from.
pub proof fn lemma_str_lrg_exact_at(b: Seq<u8>, pos: int)
    requires
        spec_parse_str_lrg_at(b, pos) is Some,
    ensures
        ({
            let (s, end) = spec_parse_str_lrg_at(b, pos).unwrap();
            &&& s.len() <= 65535
            &&& end == pos + 2 + 2 * s.len()
            &&& spec_str_lrg_bytes(s) == b.subrange(pos, end)
        }),
{
    let (s, end) = spec_parse_str_lrg_at(b, pos).unwrap();
    let n = spec_u16_from_be(b[pos], b[pos + 1]) as int;
    lemma_utf16_parse_exact(b, pos + 2, n);
    lemma_utf16_bytes_len(s);
    lemma_u16_from_be_round_trip(b[pos], b[pos + 1]);
    assert(spec_str_lrg_bytes(s) =~= b.subrange(pos, end));
}

/// Parsing at the position where a small string was encoded gives it back.
pub proof fn lemma_parse_str_sml_at_encoding(b: Seq<u8>, pos: int, s: Seq<u16>)
    requires
        0 <= pos,
        s.len() <= 255,
        pos + 1 + 2 * s.len() <= b.len(),
        b.subrange(pos, pos + 1 + 2 * s.len()) == spec_str_sml_bytes(s),
    ensures
        spec_parse_str_sml_at(b, pos) == Some((s, pos + 1 + 2 * s.len())),
{
    lemma_utf16_bytes_len(s);
    let end = pos + 1 + 2 * s.len();
    assert(b[pos] == b.subrange(pos, end)[0]);
    assert(b[pos] as int == s.len());
    assert(b.subrange(pos + 1, end) =~= b.subrange(pos, end).subrange(1, 1 + 2 * s.len() as int));
    assert(b.subrange(pos + 1, end) =~= spec_utf16_bytes(s));
    lemma_parse_utf16_of_encoding(b, pos + 1, s);
}

/// Parsing at the position where a large string was encoded gives it back.
pub proof fn lemma_parse_str_lrg_at_encoding(b: Seq<u8>, pos: int, s: Seq<u16>)
    requires
        0 <= pos,
        s.len() <= 65535,
        pos + 2 + 2 * s.len() <= b.len(),
        b.subrange(pos, pos + 2 + 2 * s.len()) == spec_str_lrg_bytes(s),
    ensures
        spec_parse_str_lrg_at(b, pos) == Some((s, pos + 2 + 2 * s.len())),
{
    lemma_utf16_bytes_len(s);
    let end = pos + 2 + 2 * s.len();
    assert(b[pos] == b.subrange(pos, end)[0]);
    assert(b[pos + 1] == b.subrange(pos, end)[1]);
    lemma_u16_be_round_trip(s.len() as u16);
    assert(spec_u16_from_be(b[pos], b[pos + 1]) as int == s.len());
    assert(b.subrange(pos + 2, end) =~= b.subrange(pos, end).subrange(2, 2 + 2 * s.len() as int));
    assert(b.subrange(pos + 2, end) =~= spec_utf16_bytes(s));
    lemma_parse_utf16_of_encoding(b, pos + 2, s);
}

/// Reads one small string at `pos`, returning it and the position just past it.
pub(crate) fn read_str_sml_at(bytes: &[u8], pos: usize) -> (r: Result<
    (StrSml, usize),
    ArchiveError,
>)
    ensures
        spec_parse_str_sml_at(bytes@, pos as int) matches Some(p) ==> (r matches Ok(q) && q.0@
            == p.0 && q.1 == p.1 && q.0.wf()),
        spec_parse_str_sml_at(bytes@, pos as int) is None ==> (r matches Err(e) && e
            == ArchiveError::Corrupt),
{
    if bytes.len() < 1 || pos > bytes.len() - 1 {
        return Err(ArchiveError::Corrupt);
    }
    let n = bytes[pos] as usize;
    if bytes.len() - pos - 1 < 2 * n {
        return Err(ArchiveError::Corrupt);
    }
    let mut value: Vec<u16> = Vec::new();
    let mut i: usize = 0;
    while i < n
        invariant
            i <= n,
            bytes@.len() <= usize::MAX,
            pos + 1 + 2 * n <= bytes@.len(),
            n == bytes@[pos as int] as int,
            value@ == spec_parse_utf16(bytes@, pos + 1, i as int),
        decreases n - i,
    {
        let u = read_u16_be(bytes, pos + 1 + 2 * i);
        value.push(u);
        proof {
            assert(value@ =~= spec_parse_utf16(bytes@, pos + 1, i + 1));
        }
        i = i + 1;
    }
    Ok((StrSml { value }, pos + 1 + 2 * n))
}

/// Reads one large string at `pos`, returning it and the position just past it.
pub(crate) fn read_str_lrg_at(bytes: &[u8], pos: usize) -> (r: Result<
    (StrLrg, usize),
    ArchiveError,
>)
    ensures
        spec_parse_str_lrg_at(bytes@, pos as int) matches Some(p) ==> (r matches Ok(q) && q.0@
            == p.0 && q.1 == p.1 && q.0.wf()),
        spec_parse_str_lrg_at(bytes@, pos as int) is None ==> (r matches Err(e) && e
            == ArchiveError::Corrupt),
{
    if bytes.len() < 2 || pos > bytes.len() - 2 {
        return Err(ArchiveError::Corrupt);
    }
    let n = read_u16_be(bytes, pos) as usize;
    if bytes.len() - pos - 2 < 2 * n {
        return Err(ArchiveError::Corrupt);
    }
    let mut value: Vec<u16> = Vec::new();
    let mut i: usize = 0;
    while i < n
        invariant
            i <= n,
            bytes@.len() <= usize::MAX,
            pos + 2 + 2 * n <= bytes@.len(),
            n == spec_u16_from_be(bytes@[pos as int], bytes@[pos + 1]) as int,
            value@ == spec_parse_utf16(bytes@, pos + 2, i as int),
        decreases n - i,
    {
        let u = read_u16_be(bytes, pos + 2 + 2 * i);
        value.push(u);
        proof {
            assert(value@ =~= spec_parse_utf16(bytes@, pos + 2, i + 1));
        }
        i = i + 1;
    }
    Ok((StrLrg { value }, pos + 2 + 2 * n))
}

/// Relies on str::encode_utf16: the UTF-16 code units of the characters of
/// the string, in order, one unit per basic-plane character and a surrogate
/// pair for each character beyond it.
#[verifier::external_body]
fn utf16_units_of_str(s: &str) -> (r: Vec<u16>)
    ensures
        r@ == spec_utf16_of_chars(s@),
{
    s.encode_utf16().collect()
}

/// Relies on char::from_u32: `Some` of the character with the given code
/// exactly when the code is a valid scalar value, `None` otherwise.
pub assume_specification[ char::from_u32 ](x: u32) -> (r: Option<char>)
    ensures
        (x < 0xD800 || (0xDFFF < x && x < 0x110000)) <==> (r matches Some(c) && c as u32 == x),
;

/// Relies on String::push: appends one character.
pub assume_specification[ String::push ](s: &mut String, c: char)
    ensures
        final(s)@ == old(s)@.push(c),
;

/// A UTF-16 string of at most 255 code units, encoded after a one-byte count.
#[derive(Debug, PartialEq, Eq, Clone)]
pub struct StrSml {
    value: Vec<u16>,
}

impl View for StrSml {
    type V = Seq<u16>;

    closed spec fn view(&self) -> Seq<u16> {
        self.value@
    }
}

impl StrSml {
    /// Number of bytes used to store the code-unit count.
    pub const CHAR_COUNT_BYTE_SIZE: usize = 1;

    /// The count fits the one-byte length prefix.
    pub open spec fn wf(self) -> bool {
        self@.len() <= 255
    }

    /// Builds a small string from raw code units, rejecting over-length
    /// input and surrogate code units.
    pub fn new(value: Vec<u16>) -> (r: Result<StrSml, ArchiveError>)
        ensures
            value@.len() <= 255 && no_surrogates(value@) ==> (r matches Ok(v) && v@ == value@
                && v.wf()),
            value@.len() > 255 || !no_surrogates(value@) ==> (r matches Err(e) && e
                == ArchiveError::InvalidData),
    {
        if value.len() > 255 {
            return Err(ArchiveError::InvalidData);
        }
        let mut i: usize = 0;
        while i < value.len()
            invariant
                i <= value@.len(),
                forall|j: int| 0 <= j < i ==> !(0xD800 <= #[trigger] value@[j] <= 0xDFFF),
            decreases value@.len() - i,
        {
            let u = value[i];
            if 0xD800 <= u && u <= 0xDFFF {
                return Err(ArchiveError::InvalidData);
            }
            i = i + 1;
        }
        Ok(StrSml { value })
    }

    /// Builds a small string from text, rejecting characters beyond the
    /// basic plane and more than 255 code units.
    pub fn from_str(s: &str) -> (r: Result<StrSml, ArchiveError>)
        ensures
            spec_utf16_of_chars(s@).len() <= 255 && no_surrogates(spec_utf16_of_chars(s@)) ==> (
            r matches Ok(v) && v@ == spec_utf16_of_chars(s@) && v.wf()),
            spec_utf16_of_chars(s@).len() > 255 || !no_surrogates(spec_utf16_of_chars(s@)) ==> (
            r matches Err(e) && e == ArchiveError::InvalidData),
    {
        let units = utf16_units_of_str(s);
        StrSml::new(units)
    }

    /// Serializes the string: count byte, then big-endian code units.
    pub fn to_bytes(&self) -> (r: Vec<u8>)
        requires
            self.wf(),
        ensures
            r@ == spec_str_sml_bytes(self@),
    {
        let mut bytes: Vec<u8> = Vec::new();
        bytes.push(self.value.len() as u8);
        let mut i: usize = 0;
        while i < self.value.len()
            invariant
                i <= self@.len(),
                self@.len() <= 255,
                bytes@ == seq![self@.len() as u8] + spec_utf16_bytes(self@.take(i as int)),
            decreases self@.len() - i,
        {
            let ghost prefix = self@.take(i as int);
            push_u16_be(&mut bytes, self.value[i]);
            proof {
                lemma_utf16_bytes_push(prefix, self@[i as int]);
                assert(self@.take(i + 1) =~= prefix.push(self@[i as int]));
                assert(bytes@ =~= seq![self@.len() as u8] + spec_utf16_bytes(
                    self@.take(i + 1),
                ));
            }
            i = i + 1;
        }
        proof {
            assert(self@.take(self@.len() as int) =~= self@);
        }
        bytes
    }

    /// Reads one small string from the front of the buffer, returning it and
    /// the number of bytes consumed.
    pub fn read_from_byte_buffer(bytes: &[u8]) -> (r: Result<(StrSml, usize), ArchiveError>)
        ensures
            spec_parse_str_sml(bytes@) matches Some(p) ==> (r matches Ok(q) && q.0@ == p.0 && q.1
                == p.1 && q.0.wf()),
            spec_parse_str_sml(bytes@) is None ==> (r matches Err(e) && e == ArchiveError::Corrupt),
    {
        if bytes.len() < 1 {
            return Err(ArchiveError::Corrupt);
        }
        let n = bytes[0] as usize;
        if bytes.len() < 1 + 2 * n {
            return Err(ArchiveError::Corrupt);
        }
        let mut value: Vec<u16> = Vec::new();
        let mut i: usize = 0;
        while i < n
            invariant
                i <= n,
                1 + 2 * n <= bytes@.len(),
                n == bytes@[0] as int,
                value@ == spec_parse_utf16(bytes@, 1, i as int),
            decreases n - i,
        {
            let u = read_u16_be(bytes, 1 + 2 * i);
            value.push(u);
            proof {
                assert(value@ =~= spec_parse_utf16(bytes@, 1, i + 1));
            }
            i = i + 1;
        }
        Ok((StrSml { value }, 1 + 2 * n))
    }

    /// The serialized width: one count byte plus two bytes per code unit.
    pub fn get_byte_count(&self) -> (r: usize)
        requires
            self.wf(),
        ensures
            r == spec_str_sml_bytes(self@).len(),
            r == 1 + 2 * self@.len(),
    {
        proof {
            lemma_utf16_bytes_len(self@);
        }
        1 + 2 * self.value.len()
    }

    /// The text of the string, one character per code unit.
    pub fn to_string(&self) -> (r: String)
        requires
            no_surrogates(self@),
        ensures
            r@.len() == self@.len(),
            forall|i: int| 0 <= i < self@.len() ==> #[trigger] r@[i] as u32 == self@[i] as u32,
    {
        utf16_to_string(&self.value)
    }

    /// An equal copy of the string.
    pub fn copied(&self) -> (r: StrSml)
        ensures
            r@ == self@,
    {
        let mut value: Vec<u16> = Vec::new();
        let mut i: usize = 0;
        while i < self.value.len()
            invariant
                i <= self.value@.len(),
                value@ == self.value@.take(i as int),
            decreases self.value@.len() - i,
        {
            value.push(self.value[i]);
            proof {
                assert(value@ =~= self.value@.take(i + 1));
            }
            i = i + 1;
        }
        proof {
            assert(self.value@.take(self.value@.len() as int) =~= self.value@);
        }
        StrSml { value }
    }
}

/// A UTF-16 string of at most 65535 code units, encoded after a two-byte count.
#[derive(Debug, PartialEq, Eq, Clone)]
pub struct StrLrg {
    value: Vec<u16>,
}

impl View for StrLrg {
    type V = Seq<u16>;

    closed spec fn view(&self) -> Seq<u16> {
        self.value@
    }
}

impl StrLrg {
    /// Number of bytes used to store the code-unit count.
    pub const CHAR_COUNT_BYTE_SIZE: usize = 2;

    /// The count fits the two-byte length prefix.
    pub open spec fn wf(self) -> bool {
        self@.len() <= 65535
    }

    /// Builds a large string from raw code units, rejecting over-length
    /// input and surrogate code units.
    pub fn new(value: Vec<u16>) -> (r: Result<StrLrg, ArchiveError>)
        ensures
            value@.len() <= 65535 && no_surrogates(value@) ==> (r matches Ok(v) && v@ == value@
                && v.wf()),
            value@.len() > 65535 || !no_surrogates(value@) ==> (r matches Err(e) && e
                == ArchiveError::InvalidData),
    {
        if value.len() > 65535 {
            return Err(ArchiveError::InvalidData);
        }
        let mut i: usize = 0;
        while i < value.len()
            invariant
                i <= value@.len(),
                forall|j: int| 0 <= j < i ==> !(0xD800 <= #[trigger] value@[j] <= 0xDFFF),
            decreases value@.len() - i,
        {
            let u = value[i];
            if 0xD800 <= u && u <= 0xDFFF {
                return Err(ArchiveError::InvalidData);
            }
            i = i + 1;
        }
        Ok(StrLrg { value })
    }

    /// Builds a large string from text, rejecting characters beyond the
    /// basic plane and more than 65535 code units.
    pub fn from_str(s: &str) -> (r: Result<StrLrg, ArchiveError>)
        ensures
            spec_utf16_of_chars(s@).len() <= 65535 && no_surrogates(spec_utf16_of_chars(s@)) ==> (
            r matches Ok(v) && v@ == spec_utf16_of_chars(s@) && v.wf()),
            spec_utf16_of_chars(s@).len() > 65535 || !no_surrogates(spec_utf16_of_chars(s@)) ==> (
            r matches Err(e) && e == ArchiveError::InvalidData),
    {
        let units = utf16_units_of_str(s);
        StrLrg::new(units)
    }

    /// Serializes the string: two-byte big-endian count, then the code units.
    pub fn to_bytes(&self) -> (r: Vec<u8>)
        requires
            self.wf(),
        ensures
            r@ == spec_str_lrg_bytes(self@),
    {
        let mut bytes: Vec<u8> = Vec::new();
        push_u16_be(&mut bytes, self.value.len() as u16);
        let mut i: usize = 0;
        while i < self.value.len()
            invariant
                i <= self@.len(),
                self@.len() <= 65535,
                bytes@ == spec_u16_be(self@.len() as u16) + spec_utf16_bytes(
                    self@.take(i as int),
                ),
            decreases self@.len() - i,
        {
            let ghost prefix = self@.take(i as int);
            push_u16_be(&mut bytes, self.value[i]);
            proof {
                lemma_utf16_bytes_push(prefix, self@[i as int]);
                assert(self@.take(i + 1) =~= prefix.push(self@[i as int]));
                assert(bytes@ =~= spec_u16_be(self@.len() as u16) + spec_utf16_bytes(
                    self@.take(i + 1),
                ));
            }
            i = i + 1;
        }
        proof {
            assert(self@.take(self@.len() as int) =~= self@);
        }
        bytes
    }

    /// Reads one large string from the front of the buffer, returning it and
    /// the number of bytes consumed.
    pub fn read_from_byte_buffer(bytes: &[u8]) -> (r: Result<(StrLrg, usize), ArchiveError>)
        ensures
            spec_parse_str_lrg(bytes@) matches Some(p) ==> (r matches Ok(q) && q.0@ == p.0 && q.1
                == p.1 && q.0.wf()),
            spec_parse_str_lrg(bytes@) is None ==> (r matches Err(e) && e == ArchiveError::Corrupt),
    {
        if bytes.len() < 2 {
            return Err(ArchiveError::Corrupt);
        }
        let n = read_u16_be(bytes, 0) as usize;
        if bytes.len() < 2 + 2 * n {
            return Err(ArchiveError::Corrupt);
        }
        let mut value: Vec<u16> = Vec::new();
        let mut i: usize = 0;
        while i < n
            invariant
                i <= n,
                2 + 2 * n <= bytes@.len(),
                n == spec_u16_from_be(bytes@[0], bytes@[1]) as int,
                value@ == spec_parse_utf16(bytes@, 2, i as int),
            decreases n - i,
        {
            let u = read_u16_be(bytes, 2 + 2 * i);
            value.push(u);
            proof {
                assert(value@ =~= spec_parse_utf16(bytes@, 2, i + 1));
            }
            i = i + 1;
        }
        Ok((StrLrg { value }, 2 + 2 * n))
    }

    /// The serialized width: two count bytes plus two bytes per code unit.
    pub fn get_byte_count(&self) -> (r: usize)
        requires
            self.wf(),
        ensures
            r == spec_str_lrg_bytes(self@).len(),
            r == 2 + 2 * self@.len(),
    {
        proof {
            lemma_utf16_bytes_len(self@);
        }
        2 + 2 * self.value.len()
    }

    /// The text of the string, one character per code unit.
    pub fn to_string(&self) -> (r: String)
        requires
            no_surrogates(self@),
        ensures
            r@.len() == self@.len(),
            forall|i: int| 0 <= i < self@.len() ==> #[trigger] r@[i] as u32 == self@[i] as u32,
    {
        utf16_to_string(&self.value)
    }

    /// An equal copy of the string.
    pub fn copied(&self) -> (r: StrLrg)
        ensures
            r@ == self@,
    {
        let mut value: Vec<u16> = Vec::new();
        let mut i: usize = 0;
        while i < self.value.len()
            invariant
                i <= self.value@.len(),
                value@ == self.value@.take(i as int),
            decreases self.value@.len() - i,
        {
            value.push(self.value[i]);
            proof {
                assert(value@ =~= self.value@.take(i + 1));
            }
            i = i + 1;
        }
        proof {
            assert(self.value@.take(self.value@.len() as int) =~= self.value@);
        }
        StrLrg { value }
    }
}

/// Decodes surrogate-free code units into text, one character per unit.
fn utf16_to_string(units: &Vec<u16>) -> (r: String)
    requires
        no_surrogates(units@),
    ensures
        r@.len() == units@.len(),
        forall|i: int| 0 <= i < units@.len() ==> #[trigger] r@[i] as u32 == units@[i] as u32,
{
    let mut out = String::new();
    let mut i: usize = 0;
    while i < units.len()
        invariant
            i <= units@.len(),
            no_surrogates(units@),
            out@.len() == i,
            forall|j: int| 0 <= j < i ==> #[trigger] out@[j] as u32 == units@[j] as u32,
        decreases units@.len() - i,
    {
        let u = units[i];
        match char::from_u32(u as u32) {
            Some(c) => {
                out.push(c);
            },
            None => {
                proof {
                    assert(!(0xD800 <= units@[i as int] <= 0xDFFF));
                    assert(false);
                }
            },
        }
        i = i + 1;
    }
    out
}

} // verus!
