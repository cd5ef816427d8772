//! The mathematical model of a whole archive file: header, bytestart block,
//! data region and index, with the parse function that inverts the layout
//! and the well-formedness the mutation paths preserve.
use vstd::prelude::*;

use crate::bytes::{
    lemma_u16_be_round_trip, lemma_u16_from_be_round_trip, lemma_u32_be_round_trip,
    spec_u16_be, spec_u16_from_be, spec_u32_be, spec_u32_from_be,
};
use crate::form::{
    lemma_concat_adjacent, lemma_region_split, spec_form_bytes, spec_form_model_id,
    spec_form_model_type, spec_parse_form_at, FormModel,
};
use crate::types_misc::spec_form_type_byte;
use crate::types_str::{
    lemma_parse_utf16_of_encoding, lemma_utf16_bytes_len, spec_parse_utf16, spec_str_lrg_bytes,
    spec_utf16_bytes,
};

verus! {

/// One seven-byte index entry: form id, type tag, record offset from the
/// start of the data region.
#[verifier::ext_equal]
pub struct IndexEntryModel {
    pub form_id: u16,
    pub form_type: u8,
    pub data_start_offset: u32,
}

/// The content of a whole archive file.
#[verifier::ext_equal]
pub struct ArchiveModel {
    pub archive_id: u8,
    pub version: (u8, u8),
    pub description: Seq<u16>,
    pub entries: Seq<IndexEntryModel>,
    pub data: Seq<u8>,
}

/// The width of the header: id, version, description, form count.
pub open spec fn spec_header_len(m: ArchiveModel) -> int {
    7 + 2 * m.description.len() as int
}

/// The file offset where the data region starts.
pub open spec fn spec_bytestart_data(m: ArchiveModel) -> int {
    spec_header_len(m) + 8
}

/// The file offset where the index starts and the data region ends.
pub open spec fn spec_bytestart_index(m: ArchiveModel) -> int {
    spec_bytestart_data(m) + m.data.len() as int
}

/// The length of the whole file.
pub open spec fn spec_file_len(m: ArchiveModel) -> int {
    spec_bytestart_index(m) + 7 * m.entries.len() as int
}

/// The header bytes: archive id, version, description, form count.
pub open spec fn spec_header_bytes(m: ArchiveModel) -> Seq<u8> {
    seq![m.archive_id] + seq![m.version.0, m.version.1] + spec_str_lrg_bytes(m.description)
        + spec_u16_be(m.entries.len() as u16)
}

/// The seven bytes of one index entry.
pub open spec fn spec_entry_bytes(e: IndexEntryModel) -> Seq<u8> {
    spec_u16_be(e.form_id) + seq![e.form_type] + spec_u32_be(e.data_start_offset)
}

/// The concatenated bytes of the whole index.
pub open spec fn spec_index_bytes(es: Seq<IndexEntryModel>) -> Seq<u8>
    decreases es.len(),
{
    if es.len() == 0 {
        Seq::empty()
    } else {
        spec_entry_bytes(es[0]) + spec_index_bytes(es.drop_first())
    }
}

/// The whole file: header, bytestart block, data region, index.
pub open spec fn spec_archive_bytes(m: ArchiveModel) -> Seq<u8> {
    spec_header_bytes(m) + spec_u32_be(spec_bytestart_index(m) as u32) + spec_u32_be(
        spec_bytestart_data(m) as u32,
    ) + m.data + spec_index_bytes(m.entries)
}

/// The size bounds every archive must meet: counts fit their length
/// prefixes and the whole file fits the 32-bit offsets.
pub open spec fn model_sizes_ok(m: ArchiveModel) -> bool {
    &&& m.description.len() <= 65535
    &&& m.entries.len() <= 65535
    &&& spec_file_len(m) <= 0xFFFF_FFFF
}

/// Index entries stand in strictly increasing form-id order.
pub open spec fn entries_sorted(es: Seq<IndexEntryModel>) -> bool {
    forall|i: int, j: int|
        0 <= i < j < es.len() ==> (#[trigger] es[i].form_id) < (#[trigger] es[j].form_id)
}

/// Offsets start at zero, strictly increase, and stay inside the data region.
pub open spec fn offsets_ok(m: ArchiveModel) -> bool {
    &&& m.entries.len() > 0 ==> m.entries[0].data_start_offset == 0
    &&& forall|i: int|
        0 <= i < m.entries.len() - 1 ==> (#[trigger] m.entries[i].data_start_offset)
            < m.entries[i + 1].data_start_offset
    &&& forall|i: int|
        0 <= i < m.entries.len() ==> (#[trigger] m.entries[i].data_start_offset) as int
            <= m.data.len()
    &&& m.entries.len() == 0 ==> m.data.len() == 0
}

/// Structural well-formedness of an archive model.
pub open spec fn model_wf(m: ArchiveModel) -> bool {
    &&& model_sizes_ok(m)
    &&& entries_sorted(m.entries)
    &&& offsets_ok(m)
}

/// Where record `i` starts inside the data region.
pub open spec fn spec_record_start(m: ArchiveModel, i: int) -> int {
    m.entries[i].data_start_offset as int
}

/// Where record `i` ends inside the data region.
pub open spec fn spec_record_end(m: ArchiveModel, i: int) -> int {
    if i == m.entries.len() - 1 {
        m.data.len() as int
    } else {
        m.entries[i + 1].data_start_offset as int
    }
}

/// Every index entry points at a record that parses, fills exactly its
/// slot in the data region, and matches the entry's id and type tag.
#[verifier::opaque]
pub open spec fn records_valid(m: ArchiveModel) -> bool {
    forall|i: int|
        0 <= i < m.entries.len() ==> {
            let parsed = #[trigger] spec_parse_form_at(m.data, spec_record_start(m, i));
            &&& parsed is Some
            &&& parsed.unwrap().1 == spec_record_end(m, i)
            &&& spec_form_model_id(parsed.unwrap().0) == m.entries[i].form_id
            &&& spec_form_type_byte(spec_form_model_type(parsed.unwrap().0)) == m.entries[
                i
            ].form_type
        }
}

/// The entries read from `n` seven-byte groups starting at `bi`.
pub open spec fn spec_parse_index(bytes: Seq<u8>, bi: int, n: int) -> Seq<IndexEntryModel> {
    Seq::new(
        n as nat,
        |j: int|
            IndexEntryModel {
                form_id: spec_u16_from_be(bytes[bi + 7 * j], bytes[bi + 7 * j + 1]),
                form_type: bytes[bi + 7 * j + 2],
                data_start_offset: spec_u32_from_be(
                    bytes[bi + 7 * j + 3],
                    bytes[bi + 7 * j + 4],
                    bytes[bi + 7 * j + 5],
                    bytes[bi + 7 * j + 6],
                ),
            },
    )
}

/// What parsing a whole file yields, when its blocks are consistent.
#[verifier::opaque]
pub open spec fn parse_archive(bytes: Seq<u8>) -> Option<ArchiveModel> {
    if bytes.len() < 5 {
        None
    } else {
        let nd = spec_u16_from_be(bytes[3], bytes[4]) as int;
        let hl = 7 + 2 * nd;
        if bytes.len() < hl + 8 {
            None
        } else {
            let fc = spec_u16_from_be(bytes[hl - 2], bytes[hl - 1]) as int;
            let bi = spec_u32_from_be(
                bytes[hl],
                bytes[hl + 1],
                bytes[hl + 2],
                bytes[hl + 3],
            ) as int;
            let bd = spec_u32_from_be(
                bytes[hl + 4],
                bytes[hl + 5],
                bytes[hl + 6],
                bytes[hl + 7],
            ) as int;
            if bd != hl + 8 || bi < bd || bi > bytes.len() || bytes.len() != bi + 7 * fc {
                None
            } else {
                Some(
                    ArchiveModel {
                        archive_id: bytes[0],
                        version: (bytes[1], bytes[2]),
                        description: spec_parse_utf16(bytes, 5, nd),
                        entries: spec_parse_index(bytes, bi, fc),
                        data: bytes.subrange(bd, bi),
                    },
                )
            }
        }
    }
}

// -----------------------------  mutation model -----------------------------
/// The same entry with its offset moved by `delta`.
pub open spec fn spec_entry_shift(e: IndexEntryModel, delta: int) -> IndexEntryModel {
    IndexEntryModel {
        form_id: e.form_id,
        form_type: e.form_type,
        data_start_offset: (e.data_start_offset + delta) as u32,
    }
}

/// Whether some index entry carries the form id.
pub open spec fn spec_has_form(m: ArchiveModel, id: u16) -> bool {
    exists|i: int| 0 <= i < m.entries.len() && (#[trigger] m.entries[i].form_id) == id
}

/// The ordinal of the entry carrying the form id.
pub open spec fn spec_index_of(m: ArchiveModel, id: u16) -> int {
    choose|i: int| 0 <= i < m.entries.len() && (#[trigger] m.entries[i].form_id) == id
}

/// Where a new form id sorts into the entries: the number of entries with
/// a smaller id.
pub open spec fn spec_insert_pos(es: Seq<IndexEntryModel>, id: u16) -> int
    decreases es.len(),
{
    if es.len() == 0 {
        0
    } else if es[0].form_id < id {
        1 + spec_insert_pos(es.drop_first(), id)
    } else {
        0
    }
}

pub proof fn lemma_insert_pos_properties(es: Seq<IndexEntryModel>, id: u16)
    requires
        entries_sorted(es),
    ensures
        0 <= spec_insert_pos(es, id) <= es.len(),
        forall|i: int| 0 <= i < spec_insert_pos(es, id) ==> (#[trigger] es[i].form_id) < id,
        forall|i: int|
            spec_insert_pos(es, id) <= i < es.len() ==> (#[trigger] es[i].form_id) >= id,
    decreases es.len(),
{
    if es.len() > 0 {
        assert(entries_sorted(es.drop_first())) by {
            assert forall|i: int, j: int|
                0 <= i < j < es.drop_first().len() implies (#[trigger] es.drop_first()[i].form_id)
                < (#[trigger] es.drop_first()[j].form_id) by {
                assert(es[i + 1].form_id < es[j + 1].form_id);
            }
        }
        lemma_insert_pos_properties(es.drop_first(), id);
        let k = spec_insert_pos(es, id);
        if es[0].form_id < id {
            assert forall|i: int| 0 <= i < k implies (#[trigger] es[i].form_id) < id by {
                if i > 0 {
                    assert(es.drop_first()[i - 1].form_id < id);
                }
            }
            assert forall|i: int| k <= i < es.len() implies (#[trigger] es[i].form_id) >= id by {
                assert(es.drop_first()[i - 1].form_id >= id);
            }
        } else {
            assert forall|i: int| 0 <= i < es.len() implies (#[trigger] es[i].form_id) >= id by {
                if i > 0 {
                    assert(es[0].form_id < es[i].form_id);
                }
            }
        }
    }
}

/// The archive after writing a form: an in-place overwrite when the id is
/// present, a sorted insert when it is not.
pub open spec fn spec_write_model(m: ArchiveModel, f: FormModel) -> ArchiveModel {
    let id = spec_form_model_id(f);
    let fb = spec_form_bytes(f);
    let tag = spec_form_type_byte(spec_form_model_type(f));
    if spec_has_form(m, id) {
        let k = spec_index_of(m, id);
        let s = spec_record_start(m, k);
        let e = spec_record_end(m, k);
        let delta = fb.len() - (e - s);
        ArchiveModel {
            archive_id: m.archive_id,
            version: m.version,
            description: m.description,
            entries: Seq::new(
                m.entries.len(),
                |i: int|
                    if i <= k {
                        m.entries[i]
                    } else {
                        spec_entry_shift(m.entries[i], delta)
                    },
            ),
            data: m.data.subrange(0, s) + fb + m.data.subrange(e, m.data.len() as int),
        }
    } else {
        let k = spec_insert_pos(m.entries, id);
        let off = if k < m.entries.len() {
            m.entries[k].data_start_offset as int
        } else {
            m.data.len() as int
        };
        ArchiveModel {
            archive_id: m.archive_id,
            version: m.version,
            description: m.description,
            entries: Seq::new(
                (m.entries.len() + 1) as nat,
                |i: int|
                    if i < k {
                        m.entries[i]
                    } else if i == k {
                        IndexEntryModel { form_id: id, form_type: tag, data_start_offset: off as u32 }
                    } else {
                        spec_entry_shift(m.entries[i - 1], fb.len() as int)
                    },
            ),
            data: m.data.subrange(0, off) + fb + m.data.subrange(off, m.data.len() as int),
        }
    }
}

/// The archive after deleting the form the id names.
pub open spec fn spec_delete_model(m: ArchiveModel, id: u16) -> ArchiveModel {
    let k = spec_index_of(m, id);
    let s = spec_record_start(m, k);
    let e = spec_record_end(m, k);
    ArchiveModel {
        archive_id: m.archive_id,
        version: m.version,
        description: m.description,
        entries: Seq::new(
            (m.entries.len() - 1) as nat,
            |i: int|
                if i < k {
                    m.entries[i]
                } else {
                    spec_entry_shift(m.entries[i + 1], -(e - s))
                },
        ),
        data: m.data.subrange(0, s) + m.data.subrange(e, m.data.len() as int),
    }
}

/// The archive after replacing only the metadata: identifier, version and
/// description change, the records and the index entries stay.
pub open spec fn spec_info_model(
    m: ArchiveModel,
    archive_id: u8,
    version: (u8, u8),
    description: Seq<u16>,
) -> ArchiveModel {
    ArchiveModel { archive_id, version, description, entries: m.entries, data: m.data }
}

/// Offsets under `offsets_ok` are monotone over any distance.
pub proof fn lemma_offsets_monotone(m: ArchiveModel, i: int, j: int)
    requires
        offsets_ok(m),
        0 <= i <= j < m.entries.len(),
    ensures
        m.entries[i].data_start_offset <= m.entries[j].data_start_offset,
    decreases j - i,
{
    if i < j {
        lemma_offsets_monotone(m, i + 1, j);
        assert(m.entries[i].data_start_offset < m.entries[i + 1].data_start_offset);
    }
}

/// Every record encoding starts with at least the four prefix bytes.
pub proof fn lemma_form_bytes_len_lower(f: FormModel)
    ensures
        spec_form_bytes(f).len() >= 4,
{
}

/// In data spliced as `data[0..cut1] + mid + data[cut2..]`, a region that
/// lies before the cut is unchanged.
pub proof fn lemma_splice_prefix(data: Seq<u8>, cut1: int, mid: Seq<u8>, cut2: int, x: int, y: int)
    requires
        0 <= cut1 <= cut2 <= data.len(),
        0 <= x <= y <= cut1,
    ensures
        (data.subrange(0, cut1) + mid + data.subrange(cut2, data.len() as int)).subrange(x, y)
            == data.subrange(x, y),
{
    let a = data.subrange(0, cut1);
    let c = data.subrange(cut2, data.len() as int);
    let d = (a + mid) + c;
    assert forall|i: int| 0 <= i < y - x implies d.subrange(x, y)[i] == data.subrange(x, y)[i] by {
        assert(d.subrange(x, y)[i] == d[x + i]);
        assert(((a + mid) + c)[x + i] == (a + mid)[x + i]);
        assert((a + mid)[x + i] == a[x + i]);
        assert(a[x + i] == data[x + i]);
    }
    assert(d.subrange(x, y) =~= data.subrange(x, y));
}

/// In data spliced as `data[0..cut1] + mid + data[cut2..]`, a region that
/// lies after the cut moves by the splice shift and is otherwise unchanged.
pub proof fn lemma_splice_suffix(data: Seq<u8>, cut1: int, mid: Seq<u8>, cut2: int, x: int, y: int)
    requires
        0 <= cut1 <= cut2 <= data.len(),
        cut2 <= x <= y <= data.len(),
    ensures
        (data.subrange(0, cut1) + mid + data.subrange(cut2, data.len() as int)).subrange(
            x + (cut1 + mid.len() - cut2),
            y + (cut1 + mid.len() - cut2),
        ) == data.subrange(x, y),
{
    let a = data.subrange(0, cut1);
    let c = data.subrange(cut2, data.len() as int);
    let d = (a + mid) + c;
    let shift = cut1 + mid.len() - cut2;
    assert forall|i: int| 0 <= i < y - x implies d.subrange(x + shift, y + shift)[i]
        == data.subrange(x, y)[i] by {
        assert(d.subrange(x + shift, y + shift)[i] == d[x + shift + i]);
        assert(((a + mid) + c)[x + shift + i] == c[x + shift + i - (cut1 + mid.len())]);
        assert(c[x + i - cut2] == data[x + i]);
    }
    assert(d.subrange(x + shift, y + shift) =~= data.subrange(x, y));
}

/// In data spliced as `data[0..cut1] + mid + data[cut2..]`, the middle
/// region holds exactly the inserted bytes.
pub proof fn lemma_splice_mid(data: Seq<u8>, cut1: int, mid: Seq<u8>, cut2: int)
    requires
        0 <= cut1 <= cut2 <= data.len(),
    ensures
        (data.subrange(0, cut1) + mid + data.subrange(cut2, data.len() as int)).subrange(
            cut1,
            cut1 + mid.len() as int,
        ) == mid,
{
    let a = data.subrange(0, cut1);
    let c = data.subrange(cut2, data.len() as int);
    let d = (a + mid) + c;
    assert forall|i: int| 0 <= i < mid.len() implies d.subrange(cut1, cut1 + mid.len() as int)[i]
        == mid[i] by {
        assert(d.subrange(cut1, cut1 + mid.len() as int)[i] == d[cut1 + i]);
        assert(((a + mid) + c)[cut1 + i] == (a + mid)[cut1 + i]);
        assert((a + mid)[cut1 + i] == mid[i]);
    }
    assert(d.subrange(cut1, cut1 + mid.len() as int) =~= mid);
}

/// A record that lies wholly before a splice cut parses unchanged in the
/// spliced data.
#[verifier::rlimit(100)]
pub proof fn lemma_record_transfer_prefix(
    data: Seq<u8>,
    cut1: int,
    mid: Seq<u8>,
    cut2: int,
    si: int,
    ei: int,
)
    requires
        0 <= cut1 <= cut2 <= data.len(),
        0 <= si,
        ei <= cut1,
        spec_parse_form_at(data, si) is Some,
        spec_parse_form_at(data, si).unwrap().1 == ei,
    ensures
        spec_parse_form_at(
            data.subrange(0, cut1) + mid + data.subrange(cut2, data.len() as int),
            si,
        ) == Some((spec_parse_form_at(data, si).unwrap().0, ei)),
{
    let d = data.subrange(0, cut1) + mid + data.subrange(cut2, data.len() as int);
    crate::form::lemma_form_parse_exact(data, si);
    let fi = spec_parse_form_at(data, si).unwrap().0;
    lemma_splice_prefix(data, cut1, mid, cut2, si, ei);
    assert(d.subrange(si, ei) == spec_form_bytes(fi));
    crate::form::lemma_parse_form_of_encoding(d, si, fi);
}

/// A record that lies wholly after a splice cut parses unchanged at its
/// shifted position in the spliced data.
#[verifier::rlimit(100)]
pub proof fn lemma_record_transfer_suffix(
    data: Seq<u8>,
    cut1: int,
    mid: Seq<u8>,
    cut2: int,
    si: int,
    ei: int,
)
    requires
        0 <= cut1 <= cut2 <= data.len(),
        cut2 <= si,
        ei <= data.len(),
        spec_parse_form_at(data, si) is Some,
        spec_parse_form_at(data, si).unwrap().1 == ei,
    ensures
        spec_parse_form_at(
            data.subrange(0, cut1) + mid + data.subrange(cut2, data.len() as int),
            si + (cut1 + mid.len() - cut2),
        ) == Some(
            (spec_parse_form_at(data, si).unwrap().0, ei + (cut1 + mid.len() - cut2)),
        ),
{
    let d = data.subrange(0, cut1) + mid + data.subrange(cut2, data.len() as int);
    let shift = cut1 + mid.len() - cut2;
    crate::form::lemma_form_parse_exact(data, si);
    let fi = spec_parse_form_at(data, si).unwrap().0;
    lemma_splice_suffix(data, cut1, mid, cut2, si, ei);
    assert(d.subrange(si + shift, ei + shift) == spec_form_bytes(fi));
    crate::form::lemma_parse_form_of_encoding(d, si + shift, fi);
}

/// The new record itself parses at the cut in the spliced data.
#[verifier::rlimit(100)]
pub proof fn lemma_record_transfer_mid(data: Seq<u8>, cut1: int, f: FormModel, cut2: int)
    requires
        0 <= cut1 <= cut2 <= data.len(),
        crate::form::form_model_wf(f),
    ensures
        spec_parse_form_at(
            data.subrange(0, cut1) + spec_form_bytes(f) + data.subrange(cut2, data.len() as int),
            cut1,
        ) == Some((f, cut1 + spec_form_bytes(f).len() as int)),
{
    let fb = spec_form_bytes(f);
    let d = data.subrange(0, cut1) + fb + data.subrange(cut2, data.len() as int);
    lemma_splice_mid(data, cut1, fb, cut2);
    assert(d.subrange(cut1, cut1 + fb.len() as int) == fb);
    crate::form::lemma_parse_form_of_encoding(d, cut1, f);
}

/// Overwriting a resident form of the same type keeps the archive
/// invariants: sorted ids, adjacent offsets, and parseable records.
#[verifier::rlimit(100)]
pub proof fn lemma_overwrite_model_preserves(m: ArchiveModel, f: FormModel)
    requires
        model_wf(m),
        records_valid(m),
        crate::form::form_model_wf(f),
        spec_has_form(m, spec_form_model_id(f)),
        m.entries[spec_index_of(m, spec_form_model_id(f))].form_type == spec_form_type_byte(
            spec_form_model_type(f),
        ),
        spec_file_len(spec_write_model(m, f)) <= 0xFFFF_FFFF,
    ensures
        model_wf(spec_write_model(m, f)),
        records_valid(spec_write_model(m, f)),
        spec_write_model(m, f).entries.len() == m.entries.len(),
{
    reveal(crate::model::records_valid);
    let id = spec_form_model_id(f);
    let fb = spec_form_bytes(f);
    let l = fb.len() as int;
    lemma_form_bytes_len_lower(f);
    let k = spec_index_of(m, id);
    assert(0 <= k < m.entries.len() && m.entries[k].form_id == id);
    let s = spec_record_start(m, k);
    let e = spec_record_end(m, k);
    let n = m.entries.len() as int;
    let w = spec_write_model(m, f);
    assert(spec_parse_form_at(m.data, s) is Some);
    crate::form::lemma_form_parse_exact(m.data, s);
    assert(s + 4 <= e <= m.data.len());
    let delta = l - (e - s);
    assert(w.data == m.data.subrange(0, s) + fb + m.data.subrange(e, m.data.len() as int));
    assert(w.data.len() == m.data.len() + delta);
    assert(spec_file_len(w) == spec_file_len(m) + delta);
    // identifiers are unchanged, so sortedness carries over
    assert forall|i: int, j: int| 0 <= i < j < n implies (#[trigger] w.entries[i].form_id) < (
    #[trigger] w.entries[j].form_id) by {
        assert(w.entries[i].form_id == m.entries[i].form_id);
        assert(w.entries[j].form_id == m.entries[j].form_id);
    }
    // offset bounds
    assert forall|i: int| k < i < n implies e <= (#[trigger] m.entries[i].data_start_offset)
        as int by {
        lemma_offsets_monotone(m, k + 1, i);
    }
    assert forall|i: int| 0 <= i <= k implies (#[trigger] m.entries[i].data_start_offset) as int
        <= s by {
        lemma_offsets_monotone(m, i, k);
    }
    assert(offsets_ok(w)) by {
        assert forall|i: int| 0 <= i < n implies (#[trigger] w.entries[i].data_start_offset) as int
            <= w.data.len() by {
            if i <= k {
                assert(w.entries[i].data_start_offset as int <= s);
            } else {
                assert(w.entries[i].data_start_offset as int == m.entries[i].data_start_offset
                    + delta);
            }
        }
        assert forall|i: int| 0 <= i < n - 1 implies (#[trigger] w.entries[i].data_start_offset)
            < w.entries[i + 1].data_start_offset by {
            if i + 1 <= k {
            } else if i == k {
                assert(e <= m.entries[k + 1].data_start_offset as int);
                assert(w.entries[k + 1].data_start_offset as int == m.entries[
                    k + 1
                ].data_start_offset + delta);
                assert(m.entries[k + 1].data_start_offset as int + delta >= s + l);
            } else {
                assert(w.entries[i].data_start_offset as int == m.entries[i].data_start_offset
                    + delta);
                assert(w.entries[i + 1].data_start_offset as int == m.entries[
                    i + 1
                ].data_start_offset + delta);
            }
        }
    }
    // every record still parses in the spliced data
    assert forall|i: int| 0 <= i < n implies {
        let parsed = #[trigger] spec_parse_form_at(w.data, spec_record_start(w, i));
        &&& parsed is Some
        &&& parsed.unwrap().1 == spec_record_end(w, i)
        &&& spec_form_model_id(parsed.unwrap().0) == w.entries[i].form_id
        &&& spec_form_type_byte(spec_form_model_type(parsed.unwrap().0)) == w.entries[i].form_type
    } by {
        if i < k {
            let si = spec_record_start(m, i);
            let ei = spec_record_end(m, i);
            assert(ei <= s) by {
                if i + 1 < k {
                    lemma_offsets_monotone(m, i + 1, k);
                }
            }
            lemma_record_transfer_prefix(m.data, s, fb, e, si, ei);
            assert(spec_record_start(w, i) == si);
            assert(spec_record_end(w, i) == ei);
        } else if i == k {
            lemma_record_transfer_mid(m.data, s, f, e);
            assert(spec_record_start(w, k) == s);
            assert(spec_record_end(w, k) == s + l);
        } else {
            let si = spec_record_start(m, i);
            let ei = spec_record_end(m, i);
            assert(e <= si);
            assert(si <= ei <= m.data.len()) by {
                assert(spec_parse_form_at(m.data, si) is Some);
                crate::form::lemma_form_parse_exact(m.data, si);
            }
            lemma_record_transfer_suffix(m.data, s, fb, e, si, ei);
            assert(spec_record_start(w, i) == si + delta);
            assert(spec_record_end(w, i) == ei + delta);
        }
    }
}

/// Inserting an absent form keeps the archive invariants: the index stays
/// strictly sorted, offsets stay adjacent, and every record still parses.
pub proof fn lemma_insert_model_preserves(m: ArchiveModel, f: FormModel)
    requires
        model_wf(m),
        records_valid(m),
        crate::form::form_model_wf(f),
        !spec_has_form(m, spec_form_model_id(f)),
        m.entries.len() < 65535,
        spec_file_len(spec_write_model(m, f)) <= 0xFFFF_FFFF,
    ensures
        model_wf(spec_write_model(m, f)),
        records_valid(spec_write_model(m, f)),
        spec_write_model(m, f).entries.len() == m.entries.len() + 1,
        spec_has_form(spec_write_model(m, f), spec_form_model_id(f)),
{
    reveal(crate::model::records_valid);
    let id = spec_form_model_id(f);
    let n = m.entries.len() as int;
    let k = spec_insert_pos(m.entries, id);
    let w = spec_write_model(m, f);
    let fb = spec_form_bytes(f);
    let off = if k < n {
        m.entries[k].data_start_offset as int
    } else {
        m.data.len() as int
    };
    lemma_insert_pos_properties(m.entries, id);
    assert(w.entries.len() == n + 1);
    assert(forall|i: int| 0 <= i < k ==> #[trigger] w.entries[i] == m.entries[i]);
    assert(w.entries[k] == (IndexEntryModel {
        form_id: id,
        form_type: spec_form_type_byte(spec_form_model_type(f)),
        data_start_offset: off as u32,
    }));
    assert(forall|i: int|
        k < i < n + 1 ==> #[trigger] w.entries[i] == spec_entry_shift(
            m.entries[i - 1],
            fb.len() as int,
        ));
    lemma_insert_core(m, f, w);
    lemma_insert_core_records(m, f, w);
    assert(w.entries[k].form_id == id);
}

/// The invariant argument for an insert, over the already-built result.
#[verifier::rlimit(100)]
#[verifier::spinoff_prover]
proof fn lemma_insert_core(m: ArchiveModel, f: FormModel, w: ArchiveModel)
    requires
        model_wf(m),
        records_valid(m),
        crate::form::form_model_wf(f),
        !spec_has_form(m, spec_form_model_id(f)),
        m.entries.len() < 65535,
        spec_file_len(w) <= 0xFFFF_FFFF,
        w.description == m.description,
        w.entries.len() == m.entries.len() + 1,
        forall|i: int|
            0 <= i < spec_insert_pos(m.entries, spec_form_model_id(f)) ==> #[trigger] w.entries[i]
                == m.entries[i],
        w.entries[spec_insert_pos(m.entries, spec_form_model_id(f))] == (IndexEntryModel {
            form_id: spec_form_model_id(f),
            form_type: spec_form_type_byte(spec_form_model_type(f)),
            data_start_offset: (if spec_insert_pos(m.entries, spec_form_model_id(f))
                < m.entries.len() {
                m.entries[spec_insert_pos(m.entries, spec_form_model_id(f))].data_start_offset as int
            } else {
                m.data.len() as int
            }) as u32,
        }),
        forall|i: int|
            spec_insert_pos(m.entries, spec_form_model_id(f)) < i < m.entries.len() + 1
                ==> #[trigger] w.entries[i] == spec_entry_shift(
                m.entries[i - 1],
                spec_form_bytes(f).len() as int,
            ),
        w.data == m.data.subrange(
            0,
            if spec_insert_pos(m.entries, spec_form_model_id(f)) < m.entries.len() {
                m.entries[spec_insert_pos(m.entries, spec_form_model_id(f))].data_start_offset as int
            } else {
                m.data.len() as int
            },
        ) + spec_form_bytes(f) + m.data.subrange(
            if spec_insert_pos(m.entries, spec_form_model_id(f)) < m.entries.len() {
                m.entries[spec_insert_pos(m.entries, spec_form_model_id(f))].data_start_offset as int
            } else {
                m.data.len() as int
            },
            m.data.len() as int,
        ),
    ensures
        entries_sorted(w.entries),
        offsets_ok(w),
{
    reveal(crate::model::records_valid);
    let id = spec_form_model_id(f);
    let fb = spec_form_bytes(f);
    let l = fb.len() as int;
    lemma_form_bytes_len_lower(f);
    let n = m.entries.len() as int;
    let k = spec_insert_pos(m.entries, id);
    lemma_insert_pos_properties(m.entries, id);
    assert(forall|i: int| 0 <= i < n ==> (#[trigger] m.entries[i].form_id) != id);
    assert forall|i: int| k <= i < n implies (#[trigger] m.entries[i].form_id) > id by {
        assert(m.entries[i].form_id >= id);
    }
    let off = if k < n {
        m.entries[k].data_start_offset as int
    } else {
        m.data.len() as int
    };
    assert(w.data.len() == m.data.len() + l);
    assert forall|i: int| 0 <= i < k implies spec_record_end(m, i) <= off by {
        if i < n - 1 && i + 1 < k && k < n {
            lemma_offsets_monotone(m, i + 1, k);
        }
    }
    assert forall|i: int| k <= i < n implies off <= spec_record_start(m, i) by {
        lemma_offsets_monotone(m, k, i);
    }
    assert forall|i: int, j: int| 0 <= i < j < n + 1 implies (#[trigger] w.entries[i].form_id) < (
    #[trigger] w.entries[j].form_id) by {
        if j < k {
        } else if j == k {
            assert(w.entries[i].form_id == m.entries[i].form_id);
            assert(m.entries[i].form_id < id);
        } else if i == k {
            assert(w.entries[j].form_id == m.entries[j - 1].form_id);
            assert(m.entries[j - 1].form_id > id);
        } else if i < k {
            assert(w.entries[i].form_id == m.entries[i].form_id);
            assert(w.entries[j].form_id == m.entries[j - 1].form_id);
            assert(m.entries[i].form_id < m.entries[j - 1].form_id);
        } else {
            assert(w.entries[i].form_id == m.entries[i - 1].form_id);
            assert(w.entries[j].form_id == m.entries[j - 1].form_id);
        }
    }
    if k > 0 {
        let sp = spec_record_start(m, k - 1);
        assert(spec_parse_form_at(m.data, sp) is Some);
        crate::form::lemma_form_parse_exact(m.data, sp);
        assert(sp < spec_record_end(m, k - 1));
    }
    assert(offsets_ok(w)) by {
        assert forall|i: int| 0 <= i < n + 1 implies (#[trigger] w.entries[i].data_start_offset)
            as int <= w.data.len() by {
            if i < k {
                lemma_offsets_monotone(m, i, k - 1);
                assert(m.entries[i].data_start_offset as int <= m.data.len());
            } else if i == k {
            } else {
                assert(w.entries[i].data_start_offset as int == m.entries[i - 1].data_start_offset
                    + l);
            }
        }
        assert forall|i: int| 0 <= i < n implies (#[trigger] w.entries[i].data_start_offset)
            < w.entries[i + 1].data_start_offset by {
            if i + 1 < k {
            } else if i + 1 == k {
                assert(w.entries[i].data_start_offset == m.entries[i].data_start_offset);
                assert(spec_record_end(m, i) <= off);
                assert(spec_parse_form_at(m.data, spec_record_start(m, i)) is Some);
                crate::form::lemma_form_parse_exact(m.data, spec_record_start(m, i));
                assert(spec_record_start(m, i) < spec_record_end(m, i));
            } else if i == k {
                assert(w.entries[i + 1].data_start_offset as int == m.entries[
                    i
                ].data_start_offset + l);
                assert(off <= m.entries[i].data_start_offset as int);
            } else {
                assert(w.entries[i].data_start_offset as int == m.entries[i - 1].data_start_offset
                    + l);
                assert(w.entries[i + 1].data_start_offset as int == m.entries[
                    i
                ].data_start_offset + l);
            }
        }
        if k == 0 {
            if n > 0 {
                assert(w.entries[0].data_start_offset as int == off);
            } else {
                assert(off == 0);
            }
        }
    }
}

/// The record argument for an insert, over the already-built result.
#[verifier::rlimit(100)]
#[verifier::spinoff_prover]
proof fn lemma_insert_core_records(m: ArchiveModel, f: FormModel, w: ArchiveModel)
    requires
        model_wf(m),
        records_valid(m),
        crate::form::form_model_wf(f),
        !spec_has_form(m, spec_form_model_id(f)),
        m.entries.len() < 65535,
        spec_file_len(w) <= 0xFFFF_FFFF,
        w.description == m.description,
        w.entries.len() == m.entries.len() + 1,
        forall|i: int|
            0 <= i < spec_insert_pos(m.entries, spec_form_model_id(f)) ==> #[trigger] w.entries[i]
                == m.entries[i],
        w.entries[spec_insert_pos(m.entries, spec_form_model_id(f))] == (IndexEntryModel {
            form_id: spec_form_model_id(f),
            form_type: spec_form_type_byte(spec_form_model_type(f)),
            data_start_offset: (if spec_insert_pos(m.entries, spec_form_model_id(f))
                < m.entries.len() {
                m.entries[spec_insert_pos(m.entries, spec_form_model_id(f))].data_start_offset as int
            } else {
                m.data.len() as int
            }) as u32,
        }),
        forall|i: int|
            spec_insert_pos(m.entries, spec_form_model_id(f)) < i < m.entries.len() + 1
                ==> #[trigger] w.entries[i] == spec_entry_shift(
                m.entries[i - 1],
                spec_form_bytes(f).len() as int,
            ),
        w.data == m.data.subrange(
            0,
            if spec_insert_pos(m.entries, spec_form_model_id(f)) < m.entries.len() {
                m.entries[spec_insert_pos(m.entries, spec_form_model_id(f))].data_start_offset as int
            } else {
                m.data.len() as int
            },
        ) + spec_form_bytes(f) + m.data.subrange(
            if spec_insert_pos(m.entries, spec_form_model_id(f)) < m.entries.len() {
                m.entries[spec_insert_pos(m.entries, spec_form_model_id(f))].data_start_offset as int
            } else {
                m.data.len() as int
            },
            m.data.len() as int,
        ),
    ensures
        records_valid(w),
{
    reveal(crate::model::records_valid);
    let id = spec_form_model_id(f);
    let fb = spec_form_bytes(f);
    let l = fb.len() as int;
    lemma_form_bytes_len_lower(f);
    let n = m.entries.len() as int;
    let k = spec_insert_pos(m.entries, id);
    lemma_insert_pos_properties(m.entries, id);
    let off = if k < n {
        m.entries[k].data_start_offset as int
    } else {
        m.data.len() as int
    };
    assert(w.data.len() == m.data.len() + l);
    assert forall|i: int| 0 <= i < k implies spec_record_end(m, i) <= off by {
        if i < n - 1 && i + 1 < k && k < n {
            lemma_offsets_monotone(m, i + 1, k);
        }
    }
    assert forall|i: int| k <= i < n implies off <= spec_record_start(m, i) by {
        lemma_offsets_monotone(m, k, i);
    }
    assert forall|i: int| 0 <= i < n + 1 implies {
        let parsed = #[trigger] spec_parse_form_at(w.data, spec_record_start(w, i));
        &&& parsed is Some
        &&& parsed.unwrap().1 == spec_record_end(w, i)
        &&& spec_form_model_id(parsed.unwrap().0) == w.entries[i].form_id
        &&& spec_form_type_byte(spec_form_model_type(parsed.unwrap().0)) == w.entries[i].form_type
    } by {
        if i < k {
            let si = spec_record_start(m, i);
            let ei = spec_record_end(m, i);
            assert(ei <= off);
            lemma_record_transfer_prefix(m.data, off, fb, off, si, ei);
            assert(spec_record_start(w, i) == si);
            assert(spec_record_end(w, i) == ei);
        } else if i == k {
            lemma_record_transfer_mid(m.data, off, f, off);
            assert(spec_record_start(w, k) == off);
            assert(spec_record_end(w, k) == off + l);
        } else {
            let si = spec_record_start(m, i - 1);
            let ei = spec_record_end(m, i - 1);
            assert(off <= si);
            assert(si <= ei <= m.data.len()) by {
                assert(spec_parse_form_at(m.data, si) is Some);
                crate::form::lemma_form_parse_exact(m.data, si);
            }
            lemma_record_transfer_suffix(m.data, off, fb, off, si, ei);
            assert(spec_record_start(w, i) == si + l);
            assert(spec_record_end(w, i) == ei + l);
        }
    }
}
/// Deleting a resident form keeps the archive invariants.
#[verifier::rlimit(100)]
pub proof fn lemma_delete_model_preserves(m: ArchiveModel, id: u16)
    requires
        model_wf(m),
        records_valid(m),
        spec_has_form(m, id),
    ensures
        model_wf(spec_delete_model(m, id)),
        records_valid(spec_delete_model(m, id)),
        spec_delete_model(m, id).entries.len() == m.entries.len() - 1,
        spec_file_len(spec_delete_model(m, id)) <= spec_file_len(m),
        !spec_has_form(spec_delete_model(m, id), id),
{
    reveal(crate::model::records_valid);
    let k = spec_index_of(m, id);
    assert(0 <= k < m.entries.len() && m.entries[k].form_id == id);
    let s = spec_record_start(m, k);
    let e = spec_record_end(m, k);
    let n = m.entries.len() as int;
    let w = spec_delete_model(m, id);
    assert(spec_parse_form_at(m.data, s) is Some);
    crate::form::lemma_form_parse_exact(m.data, s);
    assert(s < e <= m.data.len());
    let delta = -(e - s);
    assert(w.data == m.data.subrange(0, s) + Seq::<u8>::empty() + m.data.subrange(
        e,
        m.data.len() as int,
    )) by {
        assert(m.data.subrange(0, s) + m.data.subrange(e, m.data.len() as int) =~= m.data.subrange(
            0,
            s,
        ) + Seq::<u8>::empty() + m.data.subrange(e, m.data.len() as int));
    }
    assert(w.data.len() == m.data.len() + delta);
    assert forall|i: int| 0 <= i < k implies spec_record_end(m, i) <= s by {
        if i + 1 < k {
            lemma_offsets_monotone(m, i + 1, k);
        }
    }
    assert forall|i: int| k < i < n implies e <= spec_record_start(m, i) by {
        lemma_offsets_monotone(m, k + 1, i);
    }
    // sortedness: the surviving ids keep their order
    assert forall|i: int, j: int| 0 <= i < j < n - 1 implies (#[trigger] w.entries[i].form_id) < (
    #[trigger] w.entries[j].form_id) by {
        if j < k {
        } else if i < k {
            assert(w.entries[j].form_id == m.entries[j + 1].form_id);
        } else {
            assert(w.entries[i].form_id == m.entries[i + 1].form_id);
            assert(w.entries[j].form_id == m.entries[j + 1].form_id);
        }
    }
    assert(offsets_ok(w)) by {
        assert forall|i: int| 0 <= i < n - 1 implies (#[trigger] w.entries[i].data_start_offset)
            as int <= w.data.len() by {
            if i < k {
                lemma_offsets_monotone(m, i, k);
            } else {
                lemma_offsets_monotone(m, k + 1, i + 1);
                assert(e <= m.entries[i + 1].data_start_offset as int);
                assert(w.entries[i].data_start_offset as int == m.entries[i + 1].data_start_offset
                    + delta);
            }
        }
        assert forall|i: int| 0 <= i < n - 2 implies (#[trigger] w.entries[i].data_start_offset)
            < w.entries[i + 1].data_start_offset by {
            if i + 1 < k {
            } else if i + 1 == k {
                assert(w.entries[i + 1].data_start_offset as int == m.entries[
                    k + 1
                ].data_start_offset + delta);
                assert(e <= m.entries[k + 1].data_start_offset as int);
                assert(spec_record_end(m, i) <= s);
                assert(spec_parse_form_at(m.data, spec_record_start(m, i)) is Some);
                crate::form::lemma_form_parse_exact(m.data, spec_record_start(m, i));
            } else if i == k {
                lemma_offsets_monotone(m, k + 1, i + 1);
                lemma_offsets_monotone(m, k + 1, i + 2);
                assert(e <= m.entries[i + 1].data_start_offset as int);
                assert(w.entries[i].data_start_offset as int == m.entries[
                    i + 1
                ].data_start_offset + delta);
                assert(w.entries[i + 1].data_start_offset as int == m.entries[
                    i + 2
                ].data_start_offset + delta);
            } else {
                lemma_offsets_monotone(m, k + 1, i + 1);
                lemma_offsets_monotone(m, k + 1, i + 2);
                assert(e <= m.entries[i + 1].data_start_offset as int);
                assert(w.entries[i].data_start_offset as int == m.entries[i + 1].data_start_offset
                    + delta);
                assert(w.entries[i + 1].data_start_offset as int == m.entries[
                    i + 2
                ].data_start_offset + delta);
            }
        }
        if n - 1 > 0 {
            if k == 0 {
                assert(w.entries[0].data_start_offset as int == m.entries[1].data_start_offset
                    + delta);
                assert(s == 0);
                assert(e == m.entries[1].data_start_offset as int);
            }
        }
        if n - 1 == 0 {
            assert(e == m.data.len());
            assert(s == 0);
            assert(w.data.len() == 0);
        }
    }
    lemma_delete_records_valid(m, id);
    assert forall|i: int| 0 <= i < n - 1 implies (#[trigger] w.entries[i].form_id) != id by {
        if i < k {
            assert(m.entries[i].form_id < m.entries[k].form_id);
        } else {
            assert(m.entries[k].form_id < m.entries[i + 1].form_id);
        }
    }
}

/// Every surviving record still parses after a delete.
#[verifier::rlimit(100)]
#[verifier::spinoff_prover]
proof fn lemma_delete_records_valid(m: ArchiveModel, id: u16)
    requires
        model_wf(m),
        records_valid(m),
        spec_has_form(m, id),
    ensures
        records_valid(spec_delete_model(m, id)),
{
    reveal(crate::model::records_valid);
    let k = spec_index_of(m, id);
    assert(0 <= k < m.entries.len() && m.entries[k].form_id == id);
    let s = spec_record_start(m, k);
    let e = spec_record_end(m, k);
    let n = m.entries.len() as int;
    let w = spec_delete_model(m, id);
    assert(spec_parse_form_at(m.data, s) is Some);
    crate::form::lemma_form_parse_exact(m.data, s);
    assert(s < e <= m.data.len());
    let delta = -(e - s);
    assert(w.data == m.data.subrange(0, s) + Seq::<u8>::empty() + m.data.subrange(
        e,
        m.data.len() as int,
    )) by {
        assert(m.data.subrange(0, s) + m.data.subrange(e, m.data.len() as int) =~= m.data.subrange(
            0,
            s,
        ) + Seq::<u8>::empty() + m.data.subrange(e, m.data.len() as int));
    }
    assert forall|i: int| 0 <= i < k implies spec_record_end(m, i) <= s by {
        if i + 1 < k {
            lemma_offsets_monotone(m, i + 1, k);
        }
    }
    assert forall|i: int| k < i < n implies e <= spec_record_start(m, i) by {
        lemma_offsets_monotone(m, k + 1, i);
    }
    assert forall|i: int| 0 <= i < n - 1 implies {
        let parsed = #[trigger] spec_parse_form_at(w.data, spec_record_start(w, i));
        &&& parsed is Some
        &&& parsed.unwrap().1 == spec_record_end(w, i)
        &&& spec_form_model_id(parsed.unwrap().0) == w.entries[i].form_id
        &&& spec_form_type_byte(spec_form_model_type(parsed.unwrap().0)) == w.entries[i].form_type
    } by {
        if i < k {
            let si = spec_record_start(m, i);
            let ei = spec_record_end(m, i);
            assert(ei <= s);
            lemma_record_transfer_prefix(m.data, s, Seq::<u8>::empty(), e, si, ei);
            assert(spec_record_start(w, i) == si);
            assert(spec_record_end(w, i) == ei);
        } else {
            let si = spec_record_start(m, i + 1);
            let ei = spec_record_end(m, i + 1);
            assert(e <= si);
            assert(si <= ei <= m.data.len()) by {
                assert(spec_parse_form_at(m.data, si) is Some);
                crate::form::lemma_form_parse_exact(m.data, si);
            }
            lemma_record_transfer_suffix(m.data, s, Seq::<u8>::empty(), e, si, ei);
            assert(spec_record_start(w, i) == si + delta);
            assert(spec_record_end(w, i) == ei + delta);
        }
    }
}

/// Pairwise sortedness follows from adjacent sortedness.
pub proof fn lemma_sorted_from_adjacent(es: Seq<IndexEntryModel>)
    requires
        forall|i: int| 0 <= i < es.len() - 1 ==> (#[trigger] es[i].form_id) < es[i + 1].form_id,
    ensures
        entries_sorted(es),
{
    assert forall|i: int, j: int| 0 <= i < j < es.len() implies (#[trigger] es[i].form_id) < (
    #[trigger] es[j].form_id) by {
        lemma_ids_monotone(es, i, j);
    }
}

proof fn lemma_ids_monotone(es: Seq<IndexEntryModel>, i: int, j: int)
    requires
        forall|t: int| 0 <= t < es.len() - 1 ==> (#[trigger] es[t].form_id) < es[t + 1].form_id,
        0 <= i < j < es.len(),
    ensures
        es[i].form_id < es[j].form_id,
    decreases j - i,
{
    if i + 1 < j {
        lemma_ids_monotone(es, i + 1, j);
    }
}

/// In a well-formed archive file, record `i` parses at its file position
/// to the same value it parses to inside the data region.
#[verifier::rlimit(100)]
#[verifier::spinoff_prover]
pub proof fn lemma_record_in_file(bytes: Seq<u8>, m: ArchiveModel, i: int)
    requires
        parse_archive(bytes) == Some(m),
        model_wf(m),
        records_valid(m),
        0 <= i < m.entries.len(),
    ensures
        spec_parse_form_at(bytes, spec_bytestart_data(m) + spec_record_start(m, i)) == Some(
            (
                spec_parse_form_at(m.data, spec_record_start(m, i)).unwrap().0,
                spec_bytestart_data(m) + spec_record_end(m, i),
            ),
        ),
{
    reveal(crate::model::records_valid);
    reveal(crate::model::parse_archive);
    let bd = spec_bytestart_data(m);
    let s = spec_record_start(m, i);
    let e = spec_record_end(m, i);
    assert(spec_parse_form_at(m.data, s) is Some);
    crate::form::lemma_form_parse_exact(m.data, s);
    let f = spec_parse_form_at(m.data, s).unwrap().0;
    assert(m.data == bytes.subrange(bd, spec_bytestart_index(m)));
    assert forall|j: int| 0 <= j < e - s implies bytes.subrange(bd + s, bd + e)[j]
        == spec_form_bytes(f)[j] by {
        assert(bytes.subrange(bd + s, bd + e)[j] == bytes[bd + s + j]);
        assert(m.data[s + j] == bytes.subrange(bd, spec_bytestart_index(m))[s + j]);
        assert(m.data.subrange(s, e)[j] == m.data[s + j]);
    }
    assert(bytes.subrange(bd + s, bd + e) =~= spec_form_bytes(f));
    crate::form::lemma_parse_form_of_encoding(bytes, bd + s, f);
}

pub proof fn lemma_index_bytes_len(es: Seq<IndexEntryModel>)
    ensures
        spec_index_bytes(es).len() == 7 * es.len(),
    decreases es.len(),
{
    if es.len() > 0 {
        lemma_index_bytes_len(es.drop_first());
    }
}

pub proof fn lemma_index_bytes_push(es: Seq<IndexEntryModel>, e: IndexEntryModel)
    ensures
        spec_index_bytes(es.push(e)) == spec_index_bytes(es) + spec_entry_bytes(e),
    decreases es.len(),
{
    if es.len() == 0 {
        assert(es.push(e)[0] == e);
        assert(es.push(e).drop_first() =~= Seq::<IndexEntryModel>::empty());
        assert(spec_index_bytes(es.push(e)) == spec_entry_bytes(e) + spec_index_bytes(
            es.push(e).drop_first(),
        ));
        assert(spec_index_bytes(es.push(e)) =~= spec_index_bytes(es) + spec_entry_bytes(e));
    } else {
        assert(es.push(e).drop_first() =~= es.drop_first().push(e));
        lemma_index_bytes_push(es.drop_first(), e);
        assert(spec_index_bytes(es.push(e)) =~= spec_index_bytes(es) + spec_entry_bytes(e));
    }
}

/// One encoded index entry at `pos` reads back as its three fields.
#[verifier::rlimit(60)]
pub proof fn lemma_parse_entry_head(b: Seq<u8>, pos: int, e: IndexEntryModel)
    requires
        0 <= pos,
        pos + 7 <= b.len(),
        b.subrange(pos, pos + 7) == spec_entry_bytes(e),
    ensures
        spec_u16_from_be(b[pos], b[pos + 1]) == e.form_id,
        b[pos + 2] == e.form_type,
        spec_u32_from_be(b[pos + 3], b[pos + 4], b[pos + 5], b[pos + 6]) == e.data_start_offset,
{
    let a0 = spec_u16_be(e.form_id);
    let a1 = seq![e.form_type];
    let a2 = spec_u32_be(e.data_start_offset);
    let s7 = b.subrange(pos, pos + 7);
    assert(s7 == (a0 + a1) + a2);
    assert(a0.len() == 2 && a1.len() == 1 && a2.len() == 4);
    assert(b[pos] == s7[0] && s7[0] == ((a0 + a1) + a2)[0] && ((a0 + a1) + a2)[0] == a0[0]);
    assert(b[pos + 1] == s7[1] && s7[1] == ((a0 + a1) + a2)[1] && ((a0 + a1) + a2)[1] == a0[1]);
    assert(b[pos + 2] == s7[2] && s7[2] == ((a0 + a1) + a2)[2] && ((a0 + a1) + a2)[2] == a1[0]);
    assert(b[pos + 3] == s7[3] && s7[3] == ((a0 + a1) + a2)[3] && ((a0 + a1) + a2)[3] == a2[0]);
    assert(b[pos + 4] == s7[4] && s7[4] == ((a0 + a1) + a2)[4] && ((a0 + a1) + a2)[4] == a2[1]);
    assert(b[pos + 5] == s7[5] && s7[5] == ((a0 + a1) + a2)[5] && ((a0 + a1) + a2)[5] == a2[2]);
    assert(b[pos + 6] == s7[6] && s7[6] == ((a0 + a1) + a2)[6] && ((a0 + a1) + a2)[6] == a2[3]);
    lemma_u16_be_round_trip(e.form_id);
    lemma_u32_be_round_trip(e.data_start_offset);
}

/// Parsing an index from its own encoding gives the original entries.
pub proof fn lemma_parse_index_of_encoding(
    b: Seq<u8>,
    pos: int,
    es: Seq<IndexEntryModel>,
    parsed: Seq<IndexEntryModel>,
)
    requires
        0 <= pos,
        pos + 7 * es.len() <= b.len(),
        b.subrange(pos, pos + 7 * es.len()) == spec_index_bytes(es),
        parsed.len() == es.len(),
        forall|j: int|
            0 <= j < es.len() ==> #[trigger] parsed[j] == (IndexEntryModel {
                form_id: spec_u16_from_be(b[pos + 7 * j], b[pos + 7 * j + 1]),
                form_type: b[pos + 7 * j + 2],
                data_start_offset: spec_u32_from_be(
                    b[pos + 7 * j + 3],
                    b[pos + 7 * j + 4],
                    b[pos + 7 * j + 5],
                    b[pos + 7 * j + 6],
                ),
            }),
    ensures
        parsed == es,
    decreases es.len(),
{
    let n = es.len() as int;
    if n == 0 {
        assert(parsed =~= es);
    } else {
        assert(spec_index_bytes(es) == spec_entry_bytes(es[0]) + spec_index_bytes(
            es.drop_first(),
        ));
        lemma_index_bytes_len(es);
        lemma_index_bytes_len(es.drop_first());
        assert forall|j: int| 0 <= j < 7 * n - 7 implies b[pos + 7 + j] == spec_index_bytes(
            es.drop_first(),
        )[j] by {
            assert(b[pos + 7 + j] == b.subrange(pos, pos + 7 * n)[7 + j]);
            assert(spec_index_bytes(es)[7 + j] == spec_index_bytes(es.drop_first())[j]);
        }
        assert(b.subrange(pos + 7, pos + 7 * n) =~= spec_index_bytes(es.drop_first()));
        lemma_parse_index_of_encoding(
            b,
            pos + 7,
            es.drop_first(),
            Seq::new((n - 1) as nat, |j: int| parsed[j + 1]),
        );
        assert forall|j: int| 0 <= j < 7 implies b.subrange(pos, pos + 7)[j] == spec_entry_bytes(
            es[0],
        )[j] by {
            assert(b.subrange(pos, pos + 7)[j] == b[pos + j]);
            assert(b[pos + j] == b.subrange(pos, pos + 7 * n)[j]);
            assert((spec_entry_bytes(es[0]) + spec_index_bytes(es.drop_first()))[j]
                == spec_entry_bytes(es[0])[j]);
        }
        assert(b.subrange(pos, pos + 7) =~= spec_entry_bytes(es[0]));
        lemma_parse_entry_head(b, pos, es[0]);
        assert(parsed[0] =~= es[0]);
        assert forall|j: int| 0 <= j < n implies parsed[j] == es[j] by {
            if j > 0 {
                assert(Seq::new((n - 1) as nat, |k: int| parsed[k + 1])[j - 1] == es.drop_first()[
                    j - 1
                ]);
            }
        }
        assert(parsed =~= es);
    }
}

/// A well-sized archive model parses back from its own byte image.
#[verifier::rlimit(100)]
pub proof fn lemma_parse_archive_of_encoding(m: ArchiveModel)
    requires
        model_sizes_ok(m),
    ensures
        spec_archive_bytes(m).len() == spec_file_len(m),
        parse_archive(spec_archive_bytes(m)) == Some(m),
{
    reveal(crate::model::parse_archive);
    let b = spec_archive_bytes(m);
    let aid = seq![m.archive_id];
    let ver = seq![m.version.0, m.version.1];
    let dsc = spec_str_lrg_bytes(m.description);
    let fcb = spec_u16_be(m.entries.len() as u16);
    let bib = spec_u32_be(spec_bytestart_index(m) as u32);
    let bdb = spec_u32_be(spec_bytestart_data(m) as u32);
    let idx = spec_index_bytes(m.entries);
    lemma_utf16_bytes_len(m.description);
    lemma_index_bytes_len(m.entries);
    let nd = m.description.len() as int;
    let hl = 7 + 2 * nd;
    let bd = hl + 8;
    let bi = bd + m.data.len() as int;
    assert(b == ((((((aid + ver) + dsc) + fcb) + bib) + bdb) + m.data) + idx);
    assert(b.len() == bi + 7 * m.entries.len());
    assert(b.subrange(0, b.len() as int) =~= b);
    lemma_region_split(b, 0, (((((aid + ver) + dsc) + fcb) + bib) + bdb) + m.data, idx, b.len() as int);
    lemma_region_split(b, 0, ((((aid + ver) + dsc) + fcb) + bib) + bdb, m.data, bi);
    lemma_region_split(b, 0, (((aid + ver) + dsc) + fcb) + bib, bdb, bd);
    lemma_region_split(b, 0, ((aid + ver) + dsc) + fcb, bib, hl + 4);
    lemma_region_split(b, 0, (aid + ver) + dsc, fcb, hl);
    lemma_region_split(b, 0, aid + ver, dsc, hl - 2);
    lemma_region_split(b, 0, aid, ver, 3);
    assert(b[0] == b.subrange(0, 1)[0]);
    assert(b[0] == m.archive_id);
    assert(b[1] == b.subrange(1, 3)[0]);
    assert(b[2] == b.subrange(1, 3)[1]);
    assert(b[1] == m.version.0 && b[2] == m.version.1);
    // description: count bytes then units
    let cnt2 = spec_u16_be(m.description.len() as u16);
    let units = spec_utf16_bytes(m.description);
    assert(dsc == cnt2 + units);
    lemma_region_split(b, 3, cnt2, units, hl - 2);
    assert(b[3] == b.subrange(3, 5)[0]);
    assert(b[4] == b.subrange(3, 5)[1]);
    lemma_u16_be_round_trip(m.description.len() as u16);
    assert(spec_u16_from_be(b[3], b[4]) as int == nd);
    lemma_parse_utf16_of_encoding(b, 5, m.description);
    // form count
    assert(b[hl - 2] == b.subrange(hl - 2, hl)[0]);
    assert(b[hl - 1] == b.subrange(hl - 2, hl)[1]);
    lemma_u16_be_round_trip(m.entries.len() as u16);
    assert(spec_u16_from_be(b[hl - 2], b[hl - 1]) as int == m.entries.len());
    // bytestarts
    assert(b[hl] == b.subrange(hl, hl + 4)[0]);
    assert(b[hl + 1] == b.subrange(hl, hl + 4)[1]);
    assert(b[hl + 2] == b.subrange(hl, hl + 4)[2]);
    assert(b[hl + 3] == b.subrange(hl, hl + 4)[3]);
    lemma_u32_be_round_trip(spec_bytestart_index(m) as u32);
    assert(spec_u32_from_be(b[hl], b[hl + 1], b[hl + 2], b[hl + 3]) as int == bi);
    assert(b[hl + 4] == b.subrange(hl + 4, hl + 8)[0]);
    assert(b[hl + 5] == b.subrange(hl + 4, hl + 8)[1]);
    assert(b[hl + 6] == b.subrange(hl + 4, hl + 8)[2]);
    assert(b[hl + 7] == b.subrange(hl + 4, hl + 8)[3]);
    lemma_u32_be_round_trip(spec_bytestart_data(m) as u32);
    assert(spec_u32_from_be(b[hl + 4], b[hl + 5], b[hl + 6], b[hl + 7]) as int == bd);
    // data and index regions
    assert(b.subrange(bd, bi) == m.data);
    assert(b.subrange(bi, bi + 7 * m.entries.len()) == idx);
    let parsed = parse_archive(b).unwrap();
    assert(parse_archive(b) is Some);
    lemma_parse_index_of_encoding(b, bi, m.entries, parsed.entries);
    assert(parsed.description =~= m.description);
    assert(parsed =~= m);
}

} // verus!
