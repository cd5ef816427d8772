//! The form write paths: classification of a write into empty, front, end,
//! middle insert, or last/inner overwrite, and the rebuild of the file for
//! each path.
use vstd::prelude::*;

use crate::ArchiveError;
use crate::archive::Archive;
use crate::bytes::append_range;
use crate::form::{
    spec_form_bytes, spec_form_model_id, spec_form_model_type, spec_parse_form_at, Form,
};
use crate::io_read_archive::{get_form_exists, parse_archive_file};
use crate::io_read_block::{
    binary_search_for_index_item_and_position, get_new_form_index_pos, read_block_index,
};
use crate::io_struct::{spec_index_views, IOStructIndex, IOStructIndexItem};
use crate::io_utils::{get_index_form_id_first, get_index_form_id_last, index_ids_sorted};
use crate::io_write_block::build_archive_bytes;
use crate::model::{
    lemma_insert_pos_properties, lemma_record_in_file, model_wf, parse_archive, records_valid,
    spec_bytestart_data, spec_bytestart_index, spec_entry_shift, spec_file_len, spec_has_form,
    spec_index_of, spec_insert_pos, spec_parse_index, spec_record_end, spec_record_start,
    spec_write_model, ArchiveModel, IndexEntryModel,
};
use crate::types_misc::spec_form_type_byte;

verus! {

/// Whether a write of this form must be refused for its size: the new file
/// would not fit the 32-bit cursors, or the form count its 16-bit field.
pub open spec fn spec_write_overflows(m: ArchiveModel, f: crate::form::FormModel) -> bool {
    ||| spec_file_len(spec_write_model(m, f)) > 0xFFFF_FFFF
    ||| (!spec_has_form(m, spec_form_model_id(f)) && m.entries.len() >= 65535)
}

/// Whether a write of this form must be refused as a type mismatch: the id
/// is resident under another type tag.
pub open spec fn spec_write_type_mismatch(m: ArchiveModel, f: crate::form::FormModel) -> bool {
    &&& spec_has_form(m, spec_form_model_id(f))
    &&& m.entries[spec_index_of(m, spec_form_model_id(f))].form_type != spec_form_type_byte(
        spec_form_model_type(f),
    )
}

/// What every write path promises: the rebuilt file is exactly the byte
/// image of the written model, or the write was refused for a stated reason.
pub open spec fn write_form_post(
    bytes: Seq<u8>,
    f: crate::form::FormModel,
    r: Result<Vec<u8>, ArchiveError>,
) -> bool {
    &&& (parse_archive(bytes) matches Some(m) ==> ((model_wf(m) && records_valid(m)) ==> {
        &&& spec_write_type_mismatch(m, f) ==> (r matches Err(e) && e == ArchiveError::InvalidData)
        &&& (!spec_write_type_mismatch(m, f) && spec_write_overflows(m, f)) ==> (r matches Err(e)
            && e == ArchiveError::Overflow)
        &&& (!spec_write_type_mismatch(m, f) && !spec_write_overflows(m, f)) ==> (r matches Ok(out)
            && out@ == crate::model::spec_archive_bytes(spec_write_model(m, f)))
    }))
    &&& (parse_archive(bytes) is None ==> (r matches Err(e) && e == ArchiveError::Corrupt))
}

/// Writes a form into the archive: an insert when the id is absent, an
/// in-place overwrite when it is resident under the same type.
pub fn write_form(bytes: &[u8], form: &Form) -> (r: Result<Vec<u8>, ArchiveError>)
    requires
        form.wf(),
    ensures
        write_form_post(bytes@, form@, r),
{
    let form_exists = match get_form_exists(bytes, form.form_id()) {
        Ok(b) => b,
        Err(e) => {
            return Err(e);
        },
    };
    let blen = bytes.len();
    let (header, _hl, bs) = match parse_archive_file(bytes) {
        Ok(v) => v,
        Err(e) => {
            return Err(e);
        },
    };
    let ghost om = parse_archive(bytes@);
    let ghost m = om.unwrap();
    let bi = bs.bytestart_index as usize;
    let bd = bs.bytestart_data as usize;
    proof {
        assert(bi as int == spec_bytestart_index(m));
        assert(bd as int == spec_bytestart_data(m));
        assert(m.data == bytes@.subrange(spec_bytestart_data(m), spec_bytestart_index(m)));
        assert(bytes@.len() == spec_file_len(m));
        assert(spec_parse_index(bytes@, bi as int, header.form_count as int) == m.entries);
    }
    if !index_ids_sorted(bytes, bi, header.form_count) {
        proof {
            if model_wf(m) && records_valid(m) {
                reveal(crate::model::records_valid);
                assert(false);
            }
        }
        return Err(ArchiveError::Corrupt);
    }
    let index = match read_block_index(bytes, bi, header.form_count) {
        Ok(v) => v,
        Err(e) => {
            proof {
                if model_wf(m) && records_valid(m) {
                reveal(crate::model::records_valid);
                    assert forall|j: int| 0 <= j < m.entries.len() implies (
                    #[trigger] crate::types_misc::spec_form_type_of_byte(
                        bytes@[bi + 7 * j + 2],
                    )) is Some by {
                        assert(bytes@[bi + 7 * j + 2] == m.entries[j].form_type);
                        assert(spec_parse_form_at(m.data, spec_record_start(m, j)) is Some);
                    }
                    assert(false);
                }
            }
            return Err(e);
        },
    };
    proof {
        assert(spec_index_views(index.indexes@) == m.entries);
    }
    let archive = Archive {
        archive_id: header.archive_id,
        version: header.version,
        description: header.description,
        form_count: header.form_count,
        bytestart_index: bs.bytestart_index,
        bytestart_data: bs.bytestart_data,
    };
    let n = archive.form_count as usize;
    if form_exists {
        proof {
            if model_wf(m) && records_valid(m) {
                reveal(crate::model::records_valid);
                assert(spec_has_form(m, spec_form_model_id(form@)));
            }
        }
        match binary_search_for_index_item_and_position(bytes, bi, form.form_id(), archive.form_count) {
            Ok(Some((k, item))) => {
                proof {
                    assert(m.entries[k as int].form_id == spec_form_model_id(form@));
                    assert(spec_has_form(m, spec_form_model_id(form@)));
                    assert(spec_index_of(m, spec_form_model_id(form@)) == k as int) by {
                        let k2 = spec_index_of(m, spec_form_model_id(form@));
                        assert(0 <= k2 < m.entries.len() && m.entries[k2].form_id
                            == spec_form_model_id(form@));
                        if k2 != k as int {
                            assert(m.entries[k2].form_id != m.entries[k as int].form_id);
                        }
                    }
                }
                if form.form_type().to_u8() != item.form_type.to_u8() {
                    proof {
                        if model_wf(m) && records_valid(m) {
                reveal(crate::model::records_valid);
                            assert(spec_write_type_mismatch(m, form@));
                        }
                    }
                    return Err(ArchiveError::InvalidData);
                }
                proof {
                    if model_wf(m) && records_valid(m) {
                reveal(crate::model::records_valid);
                        lemma_record_in_file(bytes@, m, k as int);
                    }
                }
                let off = item.data_start_offset as usize;
                if bd > blen || off > blen - bd {
                    proof {
                        if model_wf(m) && records_valid(m) {
                reveal(crate::model::records_valid);
                            assert(false);
                        }
                    }
                    return Err(ArchiveError::Corrupt);
                }
                let old_end_abs = match Form::read_at(bytes, bd + off) {
                    Ok((_old_form, end)) => {
                        proof {
                            crate::form::lemma_form_parse_exact(bytes@, bd + off);
                        }
                        end
                    },
                    Err(e) => {
                        proof {
                            if model_wf(m) && records_valid(m) {
                reveal(crate::model::records_valid);
                                assert(false);
                            }
                        }
                        return Err(e);
                    },
                };
                proof {
                    if model_wf(m) && records_valid(m) {
                reveal(crate::model::records_valid);
                        assert(old_end_abs as int == bd + spec_record_end(m, k as int));
                    }
                }
                let old_end = old_end_abs - bd;
                if k + 1 == n {
                    write_form_existing_last(bytes, archive, &index, k, old_end, form, Ghost(m))
                } else {
                    write_form_existing_inner(bytes, archive, &index, k, old_end, form, Ghost(m))
                }
            },
            Ok(None) => {
                proof {
                    if model_wf(m) && records_valid(m) {
                reveal(crate::model::records_valid);
                        let k2 = spec_index_of(m, spec_form_model_id(form@));
                        assert(m.entries[k2].form_id == spec_form_model_id(form@));
                        assert(false);
                    }
                }
                Err(ArchiveError::NotFound)
            },
            Err(e) => {
                proof {
                    if model_wf(m) && records_valid(m) {
                reveal(crate::model::records_valid);
                        let j = choose|j: int|
                            0 <= j < m.entries.len() && (#[trigger] m.entries[j].form_id)
                                == spec_form_model_id(form@) && crate::types_misc::spec_form_type_of_byte(
                                m.entries[j].form_type,
                            ) is None;
                        assert(spec_parse_form_at(m.data, spec_record_start(m, j)) is Some);
                        assert(false);
                    }
                }
                Err(e)
            },
        }
    } else {
        proof {
            if model_wf(m) && records_valid(m) {
                reveal(crate::model::records_valid);
                assert(!spec_has_form(m, spec_form_model_id(form@)));
            }
        }
        if n == 0 {
            write_form_new_first(bytes, archive, &index, form, Ghost(m))
        } else {
            let first = get_index_form_id_first(bytes, bi);
            if form.form_id().to_u16() < first.to_u16() {
                write_form_new_start(bytes, archive, &index, form, Ghost(m))
            } else {
                let last = get_index_form_id_last(bytes, bi, archive.form_count);
                if form.form_id().to_u16() > last.to_u16() {
                    write_form_new_end(bytes, archive, &index, form, Ghost(m))
                } else {
                    proof {
                        if model_wf(m) && records_valid(m) {
                reveal(crate::model::records_valid);
                            assert(spec_form_model_id(form@) < m.entries[n - 1].form_id) by {
                                if spec_form_model_id(form@) == m.entries[n - 1].form_id {
                                    assert(spec_has_form(m, spec_form_model_id(form@)));
                                }
                            }
                        }
                    }
                    if form.form_id().to_u16() == last.to_u16() {
                        proof {
                            if model_wf(m) && records_valid(m) {
                reveal(crate::model::records_valid);
                                assert(m.entries[n - 1].form_id == spec_form_model_id(form@));
                                assert(spec_has_form(m, spec_form_model_id(form@)));
                                assert(false);
                            }
                        }
                        return Err(ArchiveError::Corrupt);
                    }
                    match get_new_form_index_pos(bytes, bi, archive.form_count, form.form_id()) {
                        Ok(Some((k, _item))) => write_form_new_mid(
                            bytes,
                            archive,
                            &index,
                            k,
                            form,
                            Ghost(m),
                        ),
                        Ok(None) => {
                            proof {
                                reveal(crate::model::records_valid);
                                lemma_insert_pos_properties(
                                    m.entries,
                                    spec_form_model_id(form@),
                                );
                                assert(m.entries[0].form_id < spec_form_model_id(form@)) by {
                                    if m.entries[0].form_id == spec_form_model_id(form@) {
                                        assert(spec_has_form(m, spec_form_model_id(form@)));
                                    }
                                }
                                assert(spec_insert_pos(m.entries, spec_form_model_id(form@))
                                    > 0) by {
                                    if spec_insert_pos(m.entries, spec_form_model_id(form@))
                                        == 0 {
                                        assert(m.entries[0].form_id >= spec_form_model_id(
                                            form@,
                                        ));
                                    }
                                }
                                assert(false);
                            }
                            Err(ArchiveError::Corrupt)
                        },
                        Err(e) => {
                            proof {
                                if model_wf(m) && records_valid(m) {
                                    reveal(crate::model::records_valid);
                                    let kp = spec_insert_pos(
                                        m.entries,
                                        spec_form_model_id(form@),
                                    );
                                    lemma_insert_pos_properties(
                                        m.entries,
                                        spec_form_model_id(form@),
                                    );
                                    if 0 <= kp < m.entries.len() {
                                        assert(spec_parse_form_at(
                                            m.data,
                                            spec_record_start(m, kp),
                                        ) is Some);
                                    }
                                    assert(false);
                                }
                            }
                            Err(e)
                        },
                    }
                }
            }
        }
    }
}

/// The empty path: the first form written into an archive with no records.
fn write_form_new_first(
    bytes: &[u8],
    header: Archive,
    index: &IOStructIndex,
    form: &Form,
    Ghost(m): Ghost<ArchiveModel>,
) -> (r: Result<Vec<u8>, ArchiveError>)
    requires
        parse_archive(bytes@) == Some(m),
        m.data == bytes@.subrange(spec_bytestart_data(m), spec_bytestart_index(m)),
        bytes@.len() == spec_file_len(m),
        spec_bytestart_index(m) <= 0xFFFF_FFFF,
        crate::model::entries_sorted(m.entries),
        form.wf(),
        !spec_has_form(m, spec_form_model_id(form@)),
        m.entries.len() == 0,
        header.wf(),
        header.archive_id@ == m.archive_id,
        header.version@ == m.version,
        header.description@ == m.description,
        header.form_count as int == m.entries.len(),
        spec_index_views(index.indexes@) == m.entries,
    ensures
        write_form_post(bytes@, form@, r),
{
    proof {
        assert(spec_insert_pos(m.entries, spec_form_model_id(form@)) == 0);
    }
    insert_form_at(bytes, header, index, 0, form, Ghost(m))
}

/// The front path: the new id sorts before every resident form.
fn write_form_new_start(
    bytes: &[u8],
    header: Archive,
    index: &IOStructIndex,
    form: &Form,
    Ghost(m): Ghost<ArchiveModel>,
) -> (r: Result<Vec<u8>, ArchiveError>)
    requires
        parse_archive(bytes@) == Some(m),
        m.data == bytes@.subrange(spec_bytestart_data(m), spec_bytestart_index(m)),
        bytes@.len() == spec_file_len(m),
        spec_bytestart_index(m) <= 0xFFFF_FFFF,
        crate::model::entries_sorted(m.entries),
        form.wf(),
        !spec_has_form(m, spec_form_model_id(form@)),
        m.entries.len() > 0,
        spec_form_model_id(form@) < m.entries[0].form_id,
        header.wf(),
        header.archive_id@ == m.archive_id,
        header.version@ == m.version,
        header.description@ == m.description,
        header.form_count as int == m.entries.len(),
        spec_index_views(index.indexes@) == m.entries,
    ensures
        write_form_post(bytes@, form@, r),
{
    proof {
        assert(spec_insert_pos(m.entries, spec_form_model_id(form@)) == 0);
    }
    insert_form_at(bytes, header, index, 0, form, Ghost(m))
}

/// The append path: the new id sorts after every resident form, so its
/// record lands directly after the current last record.
fn write_form_new_end(
    bytes: &[u8],
    header: Archive,
    index: &IOStructIndex,
    form: &Form,
    Ghost(m): Ghost<ArchiveModel>,
) -> (r: Result<Vec<u8>, ArchiveError>)
    requires
        parse_archive(bytes@) == Some(m),
        m.data == bytes@.subrange(spec_bytestart_data(m), spec_bytestart_index(m)),
        bytes@.len() == spec_file_len(m),
        spec_bytestart_index(m) <= 0xFFFF_FFFF,
        crate::model::entries_sorted(m.entries),
        form.wf(),
        !spec_has_form(m, spec_form_model_id(form@)),
        m.entries.len() > 0,
        spec_form_model_id(form@) > m.entries[m.entries.len() - 1].form_id,
        header.wf(),
        header.archive_id@ == m.archive_id,
        header.version@ == m.version,
        header.description@ == m.description,
        header.form_count as int == m.entries.len(),
        spec_index_views(index.indexes@) == m.entries,
    ensures
        write_form_post(bytes@, form@, r),
{
    let n = index.indexes.len();
    proof {
        let id = spec_form_model_id(form@);
        lemma_insert_pos_properties(m.entries, id);
        let k = spec_insert_pos(m.entries, id);
        if k < n {
            assert(m.entries[k].form_id >= id);
            assert(m.entries[k].form_id <= m.entries[n - 1].form_id) by {
                if k < n - 1 {
                    assert(m.entries[k].form_id < m.entries[n - 1].form_id);
                }
            }
            assert(false);
        }
    }
    insert_form_at(bytes, header, index, n, form, Ghost(m))
}

/// The middle path: the new id sorts between two resident forms; the tail
/// of the data region shifts to make room.
fn write_form_new_mid(
    bytes: &[u8],
    header: Archive,
    index: &IOStructIndex,
    k: usize,
    form: &Form,
    Ghost(m): Ghost<ArchiveModel>,
) -> (r: Result<Vec<u8>, ArchiveError>)
    requires
        parse_archive(bytes@) == Some(m),
        m.data == bytes@.subrange(spec_bytestart_data(m), spec_bytestart_index(m)),
        bytes@.len() == spec_file_len(m),
        spec_bytestart_index(m) <= 0xFFFF_FFFF,
        crate::model::entries_sorted(m.entries),
        form.wf(),
        !spec_has_form(m, spec_form_model_id(form@)),
        k as int == spec_insert_pos(m.entries, spec_form_model_id(form@)),
        0 < (k as int) < m.entries.len(),
        header.wf(),
        header.archive_id@ == m.archive_id,
        header.version@ == m.version,
        header.description@ == m.description,
        header.form_count as int == m.entries.len(),
        spec_index_views(index.indexes@) == m.entries,
    ensures
        write_form_post(bytes@, form@, r),
{
    insert_form_at(bytes, header, index, k, form, Ghost(m))
}

/// The overwrite-last path: the resident form is the last record, so only
/// the index moves when the length changes.
fn write_form_existing_last(
    bytes: &[u8],
    header: Archive,
    index: &IOStructIndex,
    k: usize,
    old_end: usize,
    form: &Form,
    Ghost(m): Ghost<ArchiveModel>,
) -> (r: Result<Vec<u8>, ArchiveError>)
    requires
        parse_archive(bytes@) == Some(m),
        m.data == bytes@.subrange(spec_bytestart_data(m), spec_bytestart_index(m)),
        bytes@.len() == spec_file_len(m),
        spec_bytestart_index(m) <= 0xFFFF_FFFF,
        crate::model::entries_sorted(m.entries),
        form.wf(),
        spec_has_form(m, spec_form_model_id(form@)),
        k as int == spec_index_of(m, spec_form_model_id(form@)),
        k as int == m.entries.len() - 1,
        m.entries[k as int].form_type == spec_form_type_byte(spec_form_model_type(form@)),
        (model_wf(m) && records_valid(m)) ==> old_end as int == spec_record_end(m, k as int),
        header.wf(),
        header.archive_id@ == m.archive_id,
        header.version@ == m.version,
        header.description@ == m.description,
        header.form_count as int == m.entries.len(),
        spec_index_views(index.indexes@) == m.entries,
    ensures
        write_form_post(bytes@, form@, r),
{
    overwrite_form_at(bytes, header, index, k, old_end, form, Ghost(m))
}

/// The overwrite-inner path: the resident form is followed by others, so
/// the data tail shifts by the length difference.
fn write_form_existing_inner(
    bytes: &[u8],
    header: Archive,
    index: &IOStructIndex,
    k: usize,
    old_end: usize,
    form: &Form,
    Ghost(m): Ghost<ArchiveModel>,
) -> (r: Result<Vec<u8>, ArchiveError>)
    requires
        parse_archive(bytes@) == Some(m),
        m.data == bytes@.subrange(spec_bytestart_data(m), spec_bytestart_index(m)),
        bytes@.len() == spec_file_len(m),
        spec_bytestart_index(m) <= 0xFFFF_FFFF,
        crate::model::entries_sorted(m.entries),
        form.wf(),
        spec_has_form(m, spec_form_model_id(form@)),
        k as int == spec_index_of(m, spec_form_model_id(form@)),
        (k as int) < m.entries.len() - 1,
        m.entries[k as int].form_type == spec_form_type_byte(spec_form_model_type(form@)),
        (model_wf(m) && records_valid(m)) ==> old_end as int == spec_record_end(m, k as int),
        header.wf(),
        header.archive_id@ == m.archive_id,
        header.version@ == m.version,
        header.description@ == m.description,
        header.form_count as int == m.entries.len(),
        spec_index_views(index.indexes@) == m.entries,
    ensures
        write_form_post(bytes@, form@, r),
{
    overwrite_form_at(bytes, header, index, k, old_end, form, Ghost(m))
}

/// The shared insert path: splices the new record's bytes at the offset
/// its ordinal names and rebuilds the index with the later offsets shifted.
#[verifier::loop_isolation(false)]
#[verifier::rlimit(100)]
#[verifier::spinoff_prover]
fn insert_form_at(
    bytes: &[u8],
    header: Archive,
    index: &IOStructIndex,
    k: usize,
    form: &Form,
    Ghost(m): Ghost<ArchiveModel>,
) -> (r: Result<Vec<u8>, ArchiveError>)
    requires
        parse_archive(bytes@) == Some(m),
        m.data == bytes@.subrange(spec_bytestart_data(m), spec_bytestart_index(m)),
        bytes@.len() == spec_file_len(m),
        spec_bytestart_index(m) <= 0xFFFF_FFFF,
        crate::model::entries_sorted(m.entries),
        form.wf(),
        !spec_has_form(m, spec_form_model_id(form@)),
        k as int == spec_insert_pos(m.entries, spec_form_model_id(form@)),
        header.wf(),
        header.archive_id@ == m.archive_id,
        header.version@ == m.version,
        header.description@ == m.description,
        header.form_count as int == m.entries.len(),
        spec_index_views(index.indexes@) == m.entries,
    ensures
        write_form_post(bytes@, form@, r),
{
    let ghost f = form@;
    let ghost w = spec_write_model(m, f);
    let blen = bytes.len();
    let n = index.indexes.len();
    proof {
        lemma_insert_pos_properties(m.entries, spec_form_model_id(f));
        assert(!spec_write_type_mismatch(m, f));
        assert(w.entries.len() == n + 1);
        assert(forall|i: int| 0 <= i < k ==> #[trigger] w.entries[i] == m.entries[i]);
        assert(w.entries[k as int] == (IndexEntryModel {
            form_id: spec_form_model_id(f),
            form_type: spec_form_type_byte(spec_form_model_type(f)),
            data_start_offset: (if (k as int) < m.entries.len() {
                m.entries[k as int].data_start_offset as int
            } else {
                m.data.len() as int
            }) as u32,
        }));
        assert(forall|i: int|
            k < i < n + 1 ==> #[trigger] w.entries[i] == spec_entry_shift(
                m.entries[i - 1],
                spec_form_bytes(f).len() as int,
            ));
        assert(m.data == bytes@.subrange(spec_bytestart_data(m), spec_bytestart_index(m)));
        assert(bytes@.len() == spec_file_len(m));
    }
    if n >= 65535 {
        proof {
            assert(spec_write_overflows(m, f));
        }
        return Err(ArchiveError::Overflow);
    }
    let header_len = header.get_header_byte_count();
    let bd = header_len + 8;
    let data_len = blen - bd - 7 * n;
    proof {
        assert(bd as int == spec_bytestart_data(m));
        assert(data_len as int == m.data.len());
    }
    let off: usize = if k < n {
        index.indexes[k].data_start_offset as usize
    } else {
        data_len
    };
    if off > data_len {
        proof {
            if model_wf(m) && records_valid(m) {
                reveal(crate::model::records_valid);
                assert(m.entries[k as int].data_start_offset as int <= m.data.len());
                assert(false);
            }
        }
        return Err(ArchiveError::Corrupt);
    }
    let form_bytes = form.to_bytes();
    let l = form_bytes.len();
    proof {
        crate::types_str::lemma_utf16_bytes_len(m.description);
        crate::model::lemma_index_bytes_len(w.entries);
        assert(spec_file_len(w) == spec_file_len(m) + l + 7);
    }
    if l as u64 > 0xFFFF_FFFF {
        proof {
            assert(spec_write_overflows(m, f));
        }
        return Err(ArchiveError::Overflow);
    }
    let new_file_len: u64 = blen as u64 + l as u64 + 7;
    if new_file_len > 0xFFFF_FFFF {
        proof {
            assert(spec_write_overflows(m, f));
        }
        return Err(ArchiveError::Overflow);
    }
    proof {
        assert(!spec_write_overflows(m, f));
    }
    // the new data region: bytes before the cut, the record, bytes after
    let mut new_data: Vec<u8> = Vec::new();
    append_range(&mut new_data, bytes, bd, bd + off);
    let mut fb2: Vec<u8> = Vec::new();
    append_range(&mut fb2, form_bytes.as_slice(), 0, l);
    new_data.append(&mut fb2);
    append_range(&mut new_data, bytes, bd + off, bd + data_len);
    proof {
        assert(bytes@.subrange(bd as int, bd + off) =~= m.data.subrange(0, off as int));
        assert(bytes@.subrange(bd + off, bd + data_len) =~= m.data.subrange(
            off as int,
            m.data.len() as int,
        ));
        assert(form_bytes@.subrange(0, l as int) =~= spec_form_bytes(f));
        assert(new_data@ =~= w.data);
    }
    // the new index: entries before the ordinal, the new entry, the rest
    // shifted by the record's width
    let mut new_entries: Vec<IOStructIndexItem> = Vec::new();
    let mut i: usize = 0;
    while i < k
        invariant
            i <= k <= n,
            n == index.indexes@.len(),
            new_entries@.len() == i,
            forall|t: int| 0 <= t < i ==> #[trigger] new_entries@[t] == index.indexes@[t],
        decreases k - i,
    {
        new_entries.push(index.indexes[i]);
        i = i + 1;
    }
    new_entries.push(
        IOStructIndexItem {
            form_id: form.form_id(),
            form_type: form.form_type(),
            data_start_offset: off as u32,
        },
    );
    let mut i: usize = k;
    while i < n
        invariant
            k <= i <= n,
            n == index.indexes@.len(),
            new_entries@.len() == i + 1,
            forall|t: int| 0 <= t < k ==> #[trigger] new_entries@[t] == index.indexes@[t],
            new_entries@[k as int]@ == w.entries[k as int],
            forall|t: int|
                k < t < i + 1 ==> (#[trigger] new_entries@[t])@ == spec_entry_shift(
                    index.indexes@[t - 1]@,
                    spec_form_bytes(f).len() as int,
                ),
        decreases n - i,
    {
        let e = index.indexes[i];
        proof {
            assert(e@ == m.entries[i as int]);
            assert(w.entries[i + 1] == spec_entry_shift(m.entries[i as int], l as int));
        }
        if e.data_start_offset as u64 + l as u64 > 0xFFFF_FFFF {
            proof {
                if model_wf(m) && records_valid(m) {
                reveal(crate::model::records_valid);
                    assert(m.entries[i as int].data_start_offset as int <= m.data.len());
                    assert(spec_file_len(w) <= 0xFFFF_FFFF);
                    assert(false);
                }
            }
            return Err(ArchiveError::Corrupt);
        }
        new_entries.push(
            IOStructIndexItem {
                form_id: e.form_id,
                form_type: e.form_type,
                data_start_offset: e.data_start_offset + l as u32,
            },
        );
        i = i + 1;
    }
    proof {
        assert(spec_index_views(new_entries@) =~= w.entries);
    }
    let new_header = Archive {
        archive_id: header.archive_id,
        version: header.version,
        description: header.description,
        form_count: (n + 1) as u16,
        bytestart_index: 0,
        bytestart_data: 0,
    };
    let out = build_archive_bytes(
        &new_header,
        &IOStructIndex { indexes: new_entries },
        &new_data,
        Ghost(w),
    );
    Ok(out)
}

/// The shared overwrite path: replaces the record in place and shifts the
/// offsets of every later entry by the length difference.
#[verifier::loop_isolation(false)]
#[verifier::rlimit(100)]
#[verifier::spinoff_prover]
fn overwrite_form_at(
    bytes: &[u8],
    header: Archive,
    index: &IOStructIndex,
    k: usize,
    old_end: usize,
    form: &Form,
    Ghost(m): Ghost<ArchiveModel>,
) -> (r: Result<Vec<u8>, ArchiveError>)
    requires
        parse_archive(bytes@) == Some(m),
        m.data == bytes@.subrange(spec_bytestart_data(m), spec_bytestart_index(m)),
        bytes@.len() == spec_file_len(m),
        spec_bytestart_index(m) <= 0xFFFF_FFFF,
        crate::model::entries_sorted(m.entries),
        form.wf(),
        spec_has_form(m, spec_form_model_id(form@)),
        k as int == spec_index_of(m, spec_form_model_id(form@)),
        k < m.entries.len(),
        m.entries[k as int].form_type == spec_form_type_byte(spec_form_model_type(form@)),
        (model_wf(m) && records_valid(m)) ==> old_end as int == spec_record_end(m, k as int),
        header.wf(),
        header.archive_id@ == m.archive_id,
        header.version@ == m.version,
        header.description@ == m.description,
        header.form_count as int == m.entries.len(),
        spec_index_views(index.indexes@) == m.entries,
    ensures
        write_form_post(bytes@, form@, r),
{
    let ghost f = form@;
    let ghost w = spec_write_model(m, f);
    let ghost cond = model_wf(m) && records_valid(m);
    let blen = bytes.len();
    let n = index.indexes.len();
    let ghost s = spec_record_start(m, k as int);
    let ghost e = spec_record_end(m, k as int);
    proof {
        assert(!spec_write_type_mismatch(m, f));
        assert(w.entries.len() == n);
        assert(forall|i: int| 0 <= i <= k ==> #[trigger] w.entries[i] == m.entries[i]);
        assert(forall|i: int|
            k < i < n ==> #[trigger] w.entries[i] == spec_entry_shift(
                m.entries[i],
                spec_form_bytes(f).len() - (e - s),
            ));
        assert(m.data == bytes@.subrange(spec_bytestart_data(m), spec_bytestart_index(m)));
        assert(bytes@.len() == spec_file_len(m));
        if cond {
            reveal(crate::model::records_valid);
            assert(spec_parse_form_at(m.data, s) is Some);
            crate::form::lemma_form_parse_exact(m.data, s);
            assert(s < e <= m.data.len());
        }
    }
    let header_len = header.get_header_byte_count();
    let bd = header_len + 8;
    let data_len = blen - bd - 7 * n;
    proof {
        assert(bd as int == spec_bytestart_data(m));
        assert(data_len as int == m.data.len());
    }
    let off = index.indexes[k].data_start_offset as usize;
    proof {
        assert(off as int == s);
    }
    if off > data_len || old_end > data_len || off >= old_end {
        proof {
            if cond {
            reveal(crate::model::records_valid);
                assert(false);
            }
        }
        return Err(ArchiveError::Corrupt);
    }
    let old_len = old_end - off;
    let form_bytes = form.to_bytes();
    let l = form_bytes.len();
    let ghost delta = l - (e - s);
    proof {
        crate::types_str::lemma_utf16_bytes_len(m.description);
        crate::model::lemma_index_bytes_len(w.entries);
        if cond {
            reveal(crate::model::records_valid);
            assert(spec_file_len(w) == spec_file_len(m) + delta);
        }
    }
    if l as u64 > 0xFFFF_FFFF {
        proof {
            if cond {
            reveal(crate::model::records_valid);
                assert(spec_write_overflows(m, f));
            }
        }
        return Err(ArchiveError::Overflow);
    }
    let new_file_len: u64 = (blen - old_len) as u64 + l as u64;
    proof {
        if cond {
            reveal(crate::model::records_valid);
            assert(new_file_len as int == spec_file_len(w));
        }
    }
    if new_file_len > 0xFFFF_FFFF {
        proof {
            if cond {
            reveal(crate::model::records_valid);
                assert(spec_write_overflows(m, f));
            }
        }
        return Err(ArchiveError::Overflow);
    }
    proof {
        if cond {
            reveal(crate::model::records_valid);
            assert(!spec_write_overflows(m, f));
        }
    }
    let mut new_data: Vec<u8> = Vec::new();
    append_range(&mut new_data, bytes, bd, bd + off);
    let mut fb2: Vec<u8> = Vec::new();
    append_range(&mut fb2, form_bytes.as_slice(), 0, l);
    new_data.append(&mut fb2);
    append_range(&mut new_data, bytes, bd + old_end, bd + data_len);
    proof {
        if cond {
            reveal(crate::model::records_valid);
            assert(bytes@.subrange(bd as int, bd + off) =~= m.data.subrange(0, s));
            assert(bytes@.subrange(bd + old_end, bd + data_len) =~= m.data.subrange(
                e,
                m.data.len() as int,
            ));
            assert(form_bytes@.subrange(0, l as int) =~= spec_form_bytes(f));
            assert(new_data@ =~= w.data);
        }
    }
    let mut new_entries: Vec<IOStructIndexItem> = Vec::new();
    let mut i: usize = 0;
    while i <= k
        invariant
            i <= k + 1,
            k < n == index.indexes@.len(),
            new_entries@.len() == i,
            forall|t: int| 0 <= t < i ==> #[trigger] new_entries@[t] == index.indexes@[t],
        decreases k + 1 - i,
    {
        new_entries.push(index.indexes[i]);
        i = i + 1;
    }
    let mut i: usize = k + 1;
    while i < n
        invariant
            k + 1 <= i <= n,
            n == index.indexes@.len(),
            new_entries@.len() == i,
            forall|t: int| 0 <= t <= k ==> #[trigger] new_entries@[t] == index.indexes@[t],
            forall|t: int|
                k < t < i ==> {
                    let ne = #[trigger] new_entries@[t];
                    &&& ne.form_id == index.indexes@[t].form_id
                    &&& ne.form_type == index.indexes@[t].form_type
                    &&& ne.data_start_offset as int == index.indexes@[t].data_start_offset + l
                        - old_len
                },
        decreases n - i,
    {
        let entry = index.indexes[i];
        let shifted: u32 = if l >= old_len {
            if entry.data_start_offset as u64 + (l - old_len) as u64 > 0xFFFF_FFFF {
                proof {
                    if cond {
            reveal(crate::model::records_valid);
                        assert(entry@ == m.entries[i as int]);
                        crate::model::lemma_offsets_monotone(m, k as int + 1, i as int);
                        assert(m.entries[i as int].data_start_offset as int <= m.data.len());
                        assert(spec_file_len(w) <= 0xFFFF_FFFF);
                        assert(false);
                    }
                }
                return Err(ArchiveError::Corrupt);
            }
            entry.data_start_offset + (l - old_len) as u32
        } else {
            if (entry.data_start_offset as usize) < old_len - l {
                proof {
                    if cond {
            reveal(crate::model::records_valid);
                        assert(entry@ == m.entries[i as int]);
                        crate::model::lemma_offsets_monotone(m, k as int + 1, i as int);
                        assert(e <= m.entries[i as int].data_start_offset as int);
                        assert(false);
                    }
                }
                return Err(ArchiveError::Corrupt);
            }
            entry.data_start_offset - (old_len - l) as u32
        };
        new_entries.push(
            IOStructIndexItem {
                form_id: entry.form_id,
                form_type: entry.form_type,
                data_start_offset: shifted,
            },
        );
        i = i + 1;
    }
    let ghost w2 = ArchiveModel {
        archive_id: m.archive_id,
        version: m.version,
        description: m.description,
        entries: spec_index_views(new_entries@),
        data: new_data@,
    };
    proof {
        crate::model::lemma_index_bytes_len(w2.entries);
        assert(w2.entries.len() == n);
        assert(spec_file_len(w2) == new_file_len as int);
        if cond {
            reveal(crate::model::records_valid);
            assert forall|t: int| 0 <= t < n implies spec_index_views(new_entries@)[t] == (
            #[trigger] w.entries[t]) by {
                if t > k {
                    assert(new_entries@[t]@.data_start_offset as int == m.entries[
                        t
                    ].data_start_offset + delta);
                }
            }
            assert(w2.entries =~= w.entries);
            assert(w2 =~= w);
        }
    }
    let new_header = Archive {
        archive_id: header.archive_id,
        version: header.version,
        description: header.description,
        form_count: n as u16,
        bytestart_index: 0,
        bytestart_data: 0,
    };
    let out = build_archive_bytes(
        &new_header,
        &IOStructIndex { indexes: new_entries },
        &new_data,
        Ghost(w2),
    );
    Ok(out)
}

} // verus!
