//! High-level readers: archive metadata, the lightweight listing, and the
//! existence check.
use vstd::prelude::*;

use crate::ArchiveError;
use crate::archive::{Archive, LiteArchive, LiteArchiveItem};
use crate::form::{spec_form_model_id, spec_form_model_name, spec_form_model_type, spec_parse_form_at, Form};
use crate::io_read_block::{
    binary_search_for_index_item, read_block_bytestarts, read_block_header, read_block_index,
};
use crate::io_struct::{spec_index_views, IOStructByteStarts, IOStructHeader};
use crate::io_utils::index_ids_sorted;
use crate::model::{
    model_wf, parse_archive, records_valid, spec_bytestart_data, spec_bytestart_index,
    spec_file_len, spec_has_form, spec_header_len, spec_parse_index, spec_record_start,
    ArchiveModel,
};
use crate::types_id::FormID;
use crate::types_misc::spec_form_type_byte;
use crate::types_str::StrSml;

verus! {

/// Reads and cross-checks the HEADER and BYTESTART blocks: the cursors
/// must name exactly the layout the header describes.
pub(crate) fn parse_archive_file(bytes: &[u8]) -> (r: Result<
    (IOStructHeader, usize, IOStructByteStarts),
    ArchiveError,
>)
    ensures
        parse_archive(bytes@) matches Some(m) ==> (r matches Ok(t) && {
            &&& t.0.archive_id@ == m.archive_id
            &&& t.0.version@ == m.version
            &&& t.0.description@ == m.description
            &&& t.0.description.wf()
            &&& t.0.form_count as int == m.entries.len()
            &&& t.1 == spec_header_len(m)
            &&& t.2.bytestart_index as int == spec_bytestart_index(m)
            &&& t.2.bytestart_data as int == spec_bytestart_data(m)
            &&& m.data == bytes@.subrange(spec_bytestart_data(m), spec_bytestart_index(m))
            &&& bytes@.len() == spec_file_len(m)
            &&& m.entries == spec_parse_index(
                bytes@,
                spec_bytestart_index(m),
                m.entries.len() as int,
            )
            &&& spec_bytestart_index(m) <= 0xFFFF_FFFF
        }),
        parse_archive(bytes@) is None ==> (r matches Err(e) && e == ArchiveError::Corrupt),
        r is Ok ==> parse_archive(bytes@) is Some,
{
    proof {
        reveal(crate::model::parse_archive);
    }
    let blen = bytes.len();
    let (header, hl) = match read_block_header(bytes) {
        Ok(v) => v,
        Err(_) => {
            return Err(ArchiveError::Corrupt);
        },
    };
    let bs = match read_block_bytestarts(bytes, hl) {
        Ok(v) => v,
        Err(_) => {
            return Err(ArchiveError::Corrupt);
        },
    };
    let bd = bs.bytestart_data as usize;
    let bi = bs.bytestart_index as usize;
    if bd != hl + 8 || bi < bd || bi > blen {
        return Err(ArchiveError::Corrupt);
    }
    if (blen - bi) / 7 != header.form_count as usize || (blen - bi) % 7 != 0 {
        return Err(ArchiveError::Corrupt);
    }
    assert(blen == bi + 7 * (header.form_count as int));
    Ok((header, hl, bs))
}

/// Reads the archive metadata: identifier, version, description, form
/// count, and the two block cursors.
pub fn read_archive_info(bytes: &[u8]) -> (r: Result<Archive, ArchiveError>)
    ensures
        parse_archive(bytes@) matches Some(m) ==> (r matches Ok(a) && {
            &&& a.archive_id@ == m.archive_id
            &&& a.version@ == m.version
            &&& a.description@ == m.description
            &&& a.wf()
            &&& a.form_count as int == m.entries.len()
            &&& a.bytestart_index as int == spec_bytestart_index(m)
            &&& a.bytestart_data as int == spec_bytestart_data(m)
        }),
        parse_archive(bytes@) is None ==> (r matches Err(e) && e == ArchiveError::Corrupt),
{
    let (header, _hl, bs) = match parse_archive_file(bytes) {
        Ok(v) => v,
        Err(e) => {
            return Err(e);
        },
    };
    let mut archive = Archive::new(header.archive_id, header.version, header.description);
    archive.form_count = header.form_count;
    archive.bytestart_index = bs.bytestart_index;
    archive.bytestart_data = bs.bytestart_data;
    Ok(archive)
}

/// Whether a form with the given id stands in the archive's index.
pub fn get_form_exists(bytes: &[u8], target_form_id: FormID) -> (r: Result<bool, ArchiveError>)
    ensures
        parse_archive(bytes@) matches Some(m) ==> ((model_wf(m) && records_valid(m)) ==> (
        r matches Ok(b) && b == spec_has_form(m, target_form_id@))),
        parse_archive(bytes@) matches Some(m) ==> (crate::model::entries_sorted(m.entries) ==> (
        r matches Ok(b2) ==> b2 == spec_has_form(m, target_form_id@))),
        parse_archive(bytes@) is None ==> (r matches Err(e) && e == ArchiveError::Corrupt),
{
    let blen = bytes.len();
    let (header, _hl, bs) = match parse_archive_file(bytes) {
        Ok(v) => v,
        Err(e) => {
            return Err(e);
        },
    };
    let bi = bs.bytestart_index as usize;
    let ghost om = parse_archive(bytes@);
    let ghost m = om.unwrap();
    proof {
        assert(bi as int == spec_bytestart_index(m));
        assert(m.data == bytes@.subrange(spec_bytestart_data(m), spec_bytestart_index(m)));
        assert(bytes@.len() == spec_file_len(m));
        assert(spec_parse_index(bytes@, bi as int, header.form_count as int) == m.entries);
    }
    if !index_ids_sorted(bytes, bi, header.form_count) {
        proof {
            if model_wf(m) && records_valid(m) {
                reveal(crate::model::records_valid);
                assert(false);
            }
        }
        return Err(ArchiveError::Corrupt);
    }
    match binary_search_for_index_item(bytes, bi, target_form_id, header.form_count) {
        Ok(Some(item)) => {
            proof {
                let j = choose|j: int|
                    0 <= j < m.entries.len() && item@ == #[trigger] m.entries[j] && item.form_id@
                        == target_form_id@;
                assert(m.entries[j].form_id == target_form_id@);
                assert(spec_has_form(m, target_form_id@));
            }
            Ok(true)
        },
        Ok(None) => Ok(false),
        Err(e) => {
            proof {
                if model_wf(m) && records_valid(m) {
                reveal(crate::model::records_valid);
                    let j = choose|j: int|
                        0 <= j < m.entries.len() && (#[trigger] m.entries[j].form_id)
                            == target_form_id@ && crate::types_misc::spec_form_type_of_byte(
                            m.entries[j].form_type,
                        ) is None;
                    assert(spec_parse_form_at(m.data, spec_record_start(m, j)) is Some);
                    assert(false);
                }
            }
            Err(e)
        },
    }
}

/// Reads the lightweight listing: the header fields plus, for each index
/// entry, the form id, the record's name, and the type. A record that
/// cannot be decoded is listed under a sentinel name instead of failing
/// the whole listing.
#[verifier::loop_isolation(false)]
pub fn read_lite_archive(bytes: &[u8]) -> (r: Result<LiteArchive, ArchiveError>)
    ensures
        parse_archive(bytes@) matches Some(m) ==> ((model_wf(m) && records_valid(m)) ==> (
        r matches Ok(la) && {
            &&& la.archive_id@ == m.archive_id
            &&& la.version@ == m.version
            &&& la.description@ == m.description
            &&& la.form_count as int == m.entries.len()
            &&& la.archive_items@.len() == m.entries.len()
            &&& forall|i: int|
                0 <= i < m.entries.len() ==> {
                    let item = #[trigger] la.archive_items@[i];
                    let rec = spec_parse_form_at(m.data, spec_record_start(m, i)).unwrap().0;
                    &&& item.form_id@ == m.entries[i].form_id
                    &&& spec_form_type_byte(item.form_type) == m.entries[i].form_type
                    &&& item.form_name@ == spec_form_model_name(rec)
                }
        })),
        parse_archive(bytes@) is None ==> (r matches Err(e) && e == ArchiveError::Corrupt),
{
    let ghost om = parse_archive(bytes@);
    let blen = bytes.len();
    let (header, _hl, bs) = match parse_archive_file(bytes) {
        Ok(v) => v,
        Err(e) => {
            return Err(e);
        },
    };
    let bi = bs.bytestart_index as usize;
    let bd = bs.bytestart_data as usize;
    let ghost m = om.unwrap();
    proof {
        assert(bi as int == spec_bytestart_index(m));
        assert(m.data == bytes@.subrange(spec_bytestart_data(m), spec_bytestart_index(m)));
        assert(bytes@.len() == spec_file_len(m));
        assert(spec_parse_index(bytes@, bi as int, header.form_count as int) == m.entries);
    }
    let index = match read_block_index(bytes, bi, header.form_count) {
        Ok(v) => v,
        Err(e) => {
            proof {
                if model_wf(m) && records_valid(m) {
                reveal(crate::model::records_valid);
                    assert forall|j: int| 0 <= j < m.entries.len() implies (
                    #[trigger] crate::types_misc::spec_form_type_of_byte(
                        bytes@[bi + 7 * j + 2],
                    )) is Some by {
                        assert(bytes@[bi + 7 * j + 2] == m.entries[j].form_type);
                        assert(spec_parse_form_at(m.data, spec_record_start(m, j)) is Some);
                    }
                    assert(false);
                }
            }
            return Err(e);
        },
    };
    proof {
        assert(spec_index_views(index.indexes@) == m.entries);
    }
    let mut archive_items: Vec<LiteArchiveItem> = Vec::new();
    let n = index.indexes.len();
    let mut i: usize = 0;
    while i < n
        invariant
            i <= n,
            n == index.indexes@.len(),
            blen == bytes@.len(),
            om is Some ==> spec_index_views(index.indexes@) == om.unwrap().entries,
            archive_items@.len() == i,
            bd as int == (if om is Some {
                spec_bytestart_data(om.unwrap())
            } else {
                0
            }),
            (om is Some && model_wf(om.unwrap()) && records_valid(om.unwrap())) ==> forall|t: int|
                0 <= t < i ==> {
                    let item = #[trigger] archive_items@[t];
                    let mm = om.unwrap();
                    let rec = spec_parse_form_at(mm.data, spec_record_start(mm, t)).unwrap().0;
                    &&& item.form_id@ == mm.entries[t].form_id
                    &&& spec_form_type_byte(item.form_type) == mm.entries[t].form_type
                    &&& item.form_name@ == spec_form_model_name(rec)
                },
        decreases n - i,
    {
        let entry = index.indexes[i];
        let off = entry.data_start_offset as usize;
        proof {
            if om is Some && model_wf(m) && records_valid(m) {
                reveal(crate::model::records_valid);
                crate::model::lemma_record_in_file(bytes@, m, i as int);
            }
        }
        let form_name = if off <= blen - bd && bd <= blen {
            match Form::read_at(bytes, bd + off) {
                Ok((form, _consumed)) => form.form_name(),
                Err(_) => fallback_form_name(),
            }
        } else {
            fallback_form_name()
        };
        archive_items.push(
            LiteArchiveItem { form_id: entry.form_id, form_name, form_type: entry.form_type },
        );
        i = i + 1;
    }
    Ok(
        LiteArchive {
            archive_id: header.archive_id,
            version: header.version,
            description: header.description,
            form_count: header.form_count,
            archive_items,
        },
    )
}

/// The sentinel name listed for a record that cannot be decoded.
fn fallback_form_name() -> (r: StrSml) {
    match StrSml::from_str("Form not found") {
        Ok(s) => s,
        Err(_) => match StrSml::new(Vec::new()) {
            Ok(s) => s,
            Err(_) => {
                proof {
                    assert(false);
                }
                unreached()
            },
        },
    }
}

} // verus!
