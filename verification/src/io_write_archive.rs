//! Archive-level writers: laying out a fresh empty archive, and replacing
//! the metadata of an existing one while its records stay in place.
use vstd::prelude::*;

use crate::ArchiveError;
use crate::archive::Archive;
use crate::bytes::append_range;
use crate::form::spec_parse_form_at;
use crate::io_read_archive::parse_archive_file;
use crate::io_read_block::read_block_index;
use crate::io_struct::{spec_index_views, IOStructIndex};
use crate::io_write_block::build_archive_bytes;
use crate::model::{
    model_wf, parse_archive, records_valid, spec_archive_bytes, spec_bytestart_data,
    spec_bytestart_index, spec_file_len, spec_info_model, spec_parse_index, spec_record_start,
    ArchiveModel,
};

verus! {

/// The model of a fresh archive: the given identity, no records.
pub open spec fn spec_skeleton_model(
    archive_id: u8,
    version: (u8, u8),
    description: Seq<u16>,
) -> ArchiveModel {
    ArchiveModel {
        archive_id,
        version,
        description,
        entries: Seq::empty(),
        data: Seq::empty(),
    }
}

/// Lays out a fresh archive: the header, both cursors naming the position
/// just after the BYTESTART block, no records and no index entries.
pub fn write_archive_skeleton(archive: &Archive) -> (r: Vec<u8>)
    requires
        archive.wf(),
    ensures
        r@ == spec_archive_bytes(
            spec_skeleton_model(archive.archive_id@, archive.version@, archive.description@),
        ),
{
    let ghost w = spec_skeleton_model(
        archive.archive_id@,
        archive.version@,
        archive.description@,
    );
    let fresh = Archive {
        archive_id: archive.archive_id,
        version: archive.version,
        description: archive.description.copied(),
        form_count: 0,
        bytestart_index: 0,
        bytestart_data: 0,
    };
    proof {
        crate::types_str::lemma_utf16_bytes_len(w.description);
        assert(spec_file_len(w) <= 0xFFFF_FFFF);
        assert(spec_index_views(Seq::<crate::io_struct::IOStructIndexItem>::empty())
            =~= Seq::<crate::model::IndexEntryModel>::empty());
    }
    let empty_data: Vec<u8> = Vec::new();
    build_archive_bytes(&fresh, &IOStructIndex { indexes: Vec::new() }, &empty_data, Ghost(w))
}

/// Replaces the archive's metadata: identifier, version and description
/// change; the records and the index entries stay, their offsets moving
/// with the new header width.
pub fn write_archive_info(bytes: &[u8], archive: &Archive) -> (r: Result<Vec<u8>, ArchiveError>)
    requires
        archive.wf(),
    ensures
        parse_archive(bytes@) matches Some(m) ==> ((model_wf(m) && records_valid(m)) ==> {
            let w = spec_info_model(m, archive.archive_id@, archive.version@, archive.description@);
            &&& spec_file_len(w) > 0xFFFF_FFFF ==> (r matches Err(e) && e
                == ArchiveError::Overflow)
            &&& spec_file_len(w) <= 0xFFFF_FFFF ==> (r matches Ok(out) && out@
                == spec_archive_bytes(w))
        }),
        parse_archive(bytes@) is None ==> (r matches Err(e) && e == ArchiveError::Corrupt),
{
    let blen = bytes.len();
    let (header, _hl, bs) = match parse_archive_file(bytes) {
        Ok(v) => v,
        Err(e) => {
            return Err(e);
        },
    };
    let ghost om = parse_archive(bytes@);
    let ghost m = om.unwrap();
    let ghost cond = model_wf(m) && records_valid(m);
    let ghost w = spec_info_model(m, archive.archive_id@, archive.version@, archive.description@);
    let bi = bs.bytestart_index as usize;
    let bd = bs.bytestart_data as usize;
    let index = match read_block_index(bytes, bi, header.form_count) {
        Ok(v) => v,
        Err(e) => {
            proof {
                if cond {
                    reveal(crate::model::records_valid);
                    assert forall|j: int| 0 <= j < m.entries.len() implies (
                    #[trigger] crate::types_misc::spec_form_type_of_byte(
                        bytes@[bi + 7 * j + 2],
                    )) is Some by {
                        assert(bytes@[bi + 7 * j + 2] == m.entries[j].form_type);
                        assert(spec_parse_form_at(m.data, spec_record_start(m, j)) is Some);
                    }
                    assert(false);
                }
            }
            return Err(e);
        },
    };
    proof {
        assert(spec_index_views(index.indexes@) == m.entries);
    }
    let n = index.indexes.len();
    let new_header = Archive {
        archive_id: archive.archive_id,
        version: archive.version,
        description: archive.description.copied(),
        form_count: header.form_count,
        bytestart_index: 0,
        bytestart_data: 0,
    };
    let new_header_len = new_header.get_header_byte_count();
    let data_len = bi - bd;
    let new_file_len: u64 = new_header_len as u64 + 8 + data_len as u64 + 7 * (n as u64);
    proof {
        crate::types_str::lemma_utf16_bytes_len(m.description);
        crate::types_str::lemma_utf16_bytes_len(archive.description@);
        crate::model::lemma_index_bytes_len(m.entries);
        assert(new_file_len as int == spec_file_len(w));
    }
    if new_file_len > 0xFFFF_FFFF {
        return Err(ArchiveError::Overflow);
    }
    let mut data: Vec<u8> = Vec::new();
    append_range(&mut data, bytes, bd, bi);
    proof {
        assert(data@ =~= m.data);
    }
    let out = build_archive_bytes(&new_header, &index, &data, Ghost(w));
    Ok(out)
}

} // verus!
