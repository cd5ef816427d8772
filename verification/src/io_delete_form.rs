//! The delete paths: removing the only form, the last form, or an inner
//! form, each rebuilding the file without the record and with the later
//! offsets pulled back.
use vstd::prelude::*;

use crate::ArchiveError;
use crate::archive::Archive;
use crate::bytes::append_range;
use crate::form::{spec_parse_form_at, Form};
use crate::io_read_archive::parse_archive_file;
use crate::io_read_block::{binary_search_for_index_item_and_position, read_block_index};
use crate::io_struct::{spec_index_views, IOStructIndex, IOStructIndexItem};
use crate::io_utils::index_ids_sorted;
use crate::io_write_block::build_archive_bytes;
use crate::model::{
    lemma_record_in_file, model_wf, parse_archive, records_valid, spec_bytestart_data,
    spec_bytestart_index, spec_delete_model, spec_entry_shift, spec_file_len, spec_has_form,
    spec_index_of, spec_parse_index, spec_record_end, spec_record_start, ArchiveModel,
};
use crate::types_id::FormID;

verus! {

/// Deletes the form a form id names: the record's bytes leave the data
/// region, its entry leaves the index, and the later offsets pull back by
/// the record's width. An absent id, and an empty archive, are not-found
/// errors.
#[verifier::loop_isolation(false)]
#[verifier::rlimit(100)]
#[verifier::spinoff_prover]
pub fn delete_form(bytes: &[u8], form_id: FormID) -> (r: Result<Vec<u8>, ArchiveError>)
    ensures
        parse_archive(bytes@) matches Some(m) ==> ((model_wf(m) && records_valid(m)) ==> {
            &&& spec_has_form(m, form_id@) ==> (r matches Ok(out) && out@
                == crate::model::spec_archive_bytes(spec_delete_model(m, form_id@)))
            &&& !spec_has_form(m, form_id@) ==> (r matches Err(e) && e == ArchiveError::NotFound)
        }),
        parse_archive(bytes@) is None ==> (r matches Err(e) && e == ArchiveError::Corrupt),
{
    let blen = bytes.len();
    let (header, _hl, bs) = match parse_archive_file(bytes) {
        Ok(v) => v,
        Err(e) => {
            return Err(e);
        },
    };
    let ghost om = parse_archive(bytes@);
    let ghost m = om.unwrap();
    let ghost cond = model_wf(m) && records_valid(m);
    let bi = bs.bytestart_index as usize;
    let bd = bs.bytestart_data as usize;
    if header.form_count == 0 {
        return Err(ArchiveError::NotFound);
    }
    if !index_ids_sorted(bytes, bi, header.form_count) {
        proof {
            if cond {
                assert(false);
            }
        }
        return Err(ArchiveError::Corrupt);
    }
    let index = match read_block_index(bytes, bi, header.form_count) {
        Ok(v) => v,
        Err(e) => {
            proof {
                if cond {
                    reveal(crate::model::records_valid);
                    assert forall|j: int| 0 <= j < m.entries.len() implies (
                    #[trigger] crate::types_misc::spec_form_type_of_byte(
                        bytes@[bi + 7 * j + 2],
                    )) is Some by {
                        assert(bytes@[bi + 7 * j + 2] == m.entries[j].form_type);
                        assert(spec_parse_form_at(m.data, spec_record_start(m, j)) is Some);
                    }
                    assert(false);
                }
            }
            return Err(e);
        },
    };
    proof {
        assert(spec_index_views(index.indexes@) == m.entries);
    }
    let n = index.indexes.len();
    let (k, item) = match binary_search_for_index_item_and_position(
        bytes,
        bi,
        form_id,
        header.form_count,
    ) {
        Ok(Some(v)) => v,
        Ok(None) => {
            return Err(ArchiveError::NotFound);
        },
        Err(e) => {
            proof {
                if cond {
                    reveal(crate::model::records_valid);
                    let j = choose|j: int|
                        0 <= j < m.entries.len() && (#[trigger] m.entries[j].form_id) == form_id@
                            && crate::types_misc::spec_form_type_of_byte(
                            m.entries[j].form_type,
                        ) is None;
                    assert(spec_parse_form_at(m.data, spec_record_start(m, j)) is Some);
                    assert(false);
                }
            }
            return Err(e);
        },
    };
    proof {
        assert(m.entries[k as int].form_id == form_id@);
        assert(spec_has_form(m, form_id@));
        assert(spec_index_of(m, form_id@) == k as int) by {
            let k2 = spec_index_of(m, form_id@);
            assert(0 <= k2 < m.entries.len() && m.entries[k2].form_id == form_id@);
            if k2 != k as int {
                assert(m.entries[k2].form_id != m.entries[k as int].form_id);
            }
        }
        if cond {
            reveal(crate::model::records_valid);
            lemma_record_in_file(bytes@, m, k as int);
        }
    }
    let ghost w = spec_delete_model(m, form_id@);
    let ghost s = spec_record_start(m, k as int);
    let ghost e = spec_record_end(m, k as int);
    proof {
        assert(w.entries.len() == n - 1);
        assert(forall|i: int| 0 <= i < k ==> #[trigger] w.entries[i] == m.entries[i]);
        assert(forall|i: int|
            k <= i < n - 1 ==> #[trigger] w.entries[i] == spec_entry_shift(
                m.entries[i + 1],
                -(e - s),
            ));
    }
    let new_header = Archive {
        archive_id: header.archive_id,
        version: header.version,
        description: header.description,
        form_count: (n - 1) as u16,
        bytestart_index: 0,
        bytestart_data: 0,
    };
    let header_len = new_header.get_header_byte_count();
    let bd2 = header_len + 8;
    let data_len = blen - bd2 - 7 * n;
    proof {
        assert(bd2 as int == spec_bytestart_data(m));
        assert(bd2 == bd);
        assert(data_len as int == m.data.len());
    }
    let off = item.data_start_offset as usize;
    proof {
        assert(off as int == s);
    }
    if off > data_len {
        proof {
            if cond {
                assert(false);
            }
        }
        return Err(ArchiveError::Corrupt);
    }
    let old_end_abs = match Form::read_at(bytes, bd + off) {
        Ok((_old_form, end)) => {
            proof {
                crate::form::lemma_form_parse_exact(bytes@, bd + off);
            }
            end
        },
        Err(e) => {
            proof {
                if cond {
                    reveal(crate::model::records_valid);
                    assert(false);
                }
            }
            return Err(e);
        },
    };
    proof {
        if cond {
            assert(old_end_abs as int == bd + e);
        }
    }
    let old_end = old_end_abs - bd;
    if old_end > data_len || off >= old_end {
        proof {
            if cond {
                reveal(crate::model::records_valid);
                crate::form::lemma_form_parse_exact(m.data, s);
                assert(spec_parse_form_at(m.data, s) is Some);
                assert(false);
            }
        }
        return Err(ArchiveError::Corrupt);
    }
    let old_len = old_end - off;
    let new_file_len: u64 = (blen - old_len - 7) as u64;
    if new_file_len > 0xFFFF_FFFF {
        proof {
            if cond {
                assert(false);
            }
        }
        return Err(ArchiveError::Corrupt);
    }
    let mut new_data: Vec<u8> = Vec::new();
    append_range(&mut new_data, bytes, bd, bd + off);
    append_range(&mut new_data, bytes, bd + old_end, bd + data_len);
    proof {
        if cond {
            assert(bytes@.subrange(bd as int, bd + off) =~= m.data.subrange(0, s));
            assert(bytes@.subrange(bd + old_end, bd + data_len) =~= m.data.subrange(
                e,
                m.data.len() as int,
            ));
            assert(new_data@ =~= w.data);
        }
    }
    let mut new_entries: Vec<IOStructIndexItem> = Vec::new();
    let mut i: usize = 0;
    while i < k
        invariant
            i <= k < n == index.indexes@.len(),
            new_entries@.len() == i,
            forall|t: int| 0 <= t < i ==> #[trigger] new_entries@[t] == index.indexes@[t],
        decreases k - i,
    {
        new_entries.push(index.indexes[i]);
        i = i + 1;
    }
    let mut i: usize = k + 1;
    while i < n
        invariant
            k + 1 <= i <= n,
            n == index.indexes@.len(),
            new_entries@.len() == i - 1,
            forall|t: int| 0 <= t < k ==> #[trigger] new_entries@[t] == index.indexes@[t],
            forall|t: int|
                k <= t < i - 1 ==> {
                    let ne = #[trigger] new_entries@[t];
                    &&& ne.form_id == index.indexes@[t + 1].form_id
                    &&& ne.form_type == index.indexes@[t + 1].form_type
                    &&& ne.data_start_offset as int == index.indexes@[t + 1].data_start_offset
                        - old_len
                },
        decreases n - i,
    {
        let entry = index.indexes[i];
        if (entry.data_start_offset as usize) < old_len {
            proof {
                if cond {
                    assert(entry@ == m.entries[i as int]);
                    crate::model::lemma_offsets_monotone(m, k as int + 1, i as int);
                    assert(e <= m.entries[i as int].data_start_offset as int);
                    assert(false);
                }
            }
            return Err(ArchiveError::Corrupt);
        }
        new_entries.push(
            IOStructIndexItem {
                form_id: entry.form_id,
                form_type: entry.form_type,
                data_start_offset: entry.data_start_offset - old_len as u32,
            },
        );
        i = i + 1;
    }
    let ghost w2 = ArchiveModel {
        archive_id: m.archive_id,
        version: m.version,
        description: m.description,
        entries: spec_index_views(new_entries@),
        data: new_data@,
    };
    proof {
        crate::types_str::lemma_utf16_bytes_len(m.description);
        crate::model::lemma_index_bytes_len(w2.entries);
        assert(w2.entries.len() == n - 1);
        assert(spec_file_len(w2) == new_file_len as int);
        if cond {
            assert forall|t: int| 0 <= t < n - 1 implies spec_index_views(new_entries@)[t] == (
            #[trigger] w.entries[t]) by {
                if t >= k {
                    assert(new_entries@[t]@.data_start_offset as int == m.entries[
                        t + 1
                    ].data_start_offset - (e - s));
                }
            }
            assert(w2.entries =~= w.entries);
            assert(w2 =~= w);
        }
    }
    let out = build_archive_bytes(
        &new_header,
        &IOStructIndex { indexes: new_entries },
        &new_data,
        Ghost(w2),
    );
    Ok(out)
}

} // verus!
