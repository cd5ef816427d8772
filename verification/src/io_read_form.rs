//! Point and batch record reads: header, bytestart block, index search,
//! then a decode at the record's data offset.
use vstd::prelude::*;

use crate::ArchiveError;
use crate::form::{spec_form_model_id, spec_parse_form_at, Form};
use crate::io_read_archive::parse_archive_file;
use crate::io_read_block::{
    binary_search_for_index_item_and_position, binary_search_for_index_item_inmem,
    read_block_index,
};
use crate::io_struct::spec_index_views;
use crate::io_utils::index_ids_sorted;
use crate::model::{
    lemma_record_in_file, model_wf, parse_archive, records_valid, spec_bytestart_data,
    spec_bytestart_index, spec_file_len, spec_has_form, spec_index_of, spec_parse_index,
    spec_record_start, ArchiveModel,
};
use crate::types_id::FormID;

verus! {

/// The record the archive holds under a form id.
pub open spec fn spec_resident_form(m: ArchiveModel, id: u16) -> crate::form::FormModel {
    spec_parse_form_at(m.data, spec_record_start(m, spec_index_of(m, id))).unwrap().0
}

/// Reads the record a form id names; absent ids, and empty archives, are
/// not-found errors.
pub fn read_form(bytes: &[u8], form_id: FormID) -> (r: Result<Form, ArchiveError>)
    ensures
        parse_archive(bytes@) matches Some(m) ==> ((model_wf(m) && records_valid(m)) ==> {
            &&& spec_has_form(m, form_id@) ==> (r matches Ok(f) && f.wf() && f@
                == spec_resident_form(m, form_id@) && spec_form_model_id(f@) == form_id@)
            &&& !spec_has_form(m, form_id@) ==> (r matches Err(e) && e == ArchiveError::NotFound)
        }),
        parse_archive(bytes@) is None ==> (r matches Err(e) && e == ArchiveError::Corrupt),
{
    let blen = bytes.len();
    let (header, _hl, bs) = match parse_archive_file(bytes) {
        Ok(v) => v,
        Err(e) => {
            return Err(e);
        },
    };
    let ghost om = parse_archive(bytes@);
    let ghost m = om.unwrap();
    let bi = bs.bytestart_index as usize;
    let bd = bs.bytestart_data as usize;
    proof {
        assert(bi as int == spec_bytestart_index(m));
        assert(bd as int == spec_bytestart_data(m));
        assert(m.data == bytes@.subrange(spec_bytestart_data(m), spec_bytestart_index(m)));
        assert(bytes@.len() == spec_file_len(m));
        assert(spec_parse_index(bytes@, bi as int, header.form_count as int) == m.entries);
    }
    if header.form_count == 0 {
        return Err(ArchiveError::NotFound);
    }
    if !index_ids_sorted(bytes, bi, header.form_count) {
        proof {
            if model_wf(m) && records_valid(m) {
                reveal(crate::model::records_valid);
                assert(false);
            }
        }
        return Err(ArchiveError::Corrupt);
    }
    match binary_search_for_index_item_and_position(bytes, bi, form_id, header.form_count) {
        Ok(Some((pos, item))) => {
            proof {
                if model_wf(m) && records_valid(m) {
                reveal(crate::model::records_valid);
                    assert(m.entries[pos as int].form_id == form_id@);
                    assert(spec_has_form(m, form_id@));
                    assert(spec_index_of(m, form_id@) == pos as int) by {
                        let k = spec_index_of(m, form_id@);
                        assert(0 <= k < m.entries.len() && m.entries[k].form_id == form_id@);
                        if k != pos as int {
                            assert(m.entries[k].form_id != m.entries[pos as int].form_id);
                        }
                    }
                    lemma_record_in_file(bytes@, m, pos as int);
                }
            }
            let off = item.data_start_offset as usize;
            if bd > blen || off > blen - bd {
                proof {
                    if model_wf(m) && records_valid(m) {
                reveal(crate::model::records_valid);
                        assert(false);
                    }
                }
                return Err(ArchiveError::Corrupt);
            }
            match Form::read_at(bytes, bd + off) {
                Ok((form, _consumed)) => Ok(form),
                Err(e) => {
                    proof {
                        if model_wf(m) && records_valid(m) {
                reveal(crate::model::records_valid);
                            assert(false);
                        }
                    }
                    Err(e)
                },
            }
        },
        Ok(None) => {
            proof {
                if model_wf(m) && records_valid(m) && spec_has_form(m, form_id@) {
                    let k = spec_index_of(m, form_id@);
                    assert(m.entries[k].form_id == form_id@);
                    assert(false);
                }
            }
            Err(ArchiveError::NotFound)
        },
        Err(e) => {
            proof {
                if model_wf(m) && records_valid(m) {
                reveal(crate::model::records_valid);
                    let j = choose|j: int|
                        0 <= j < m.entries.len() && (#[trigger] m.entries[j].form_id) == form_id@
                            && crate::types_misc::spec_form_type_of_byte(
                            m.entries[j].form_type,
                        ) is None;
                    assert(spec_parse_form_at(m.data, spec_record_start(m, j)) is Some);
                    assert(false);
                }
            }
            Err(e)
        },
    }
}

/// Reads a batch of records, one per requested id, in the order the ids
/// were given; one absent id fails the whole batch. Small batches repeat
/// the point search; large ones read the index into memory first.
#[verifier::loop_isolation(false)]
pub fn read_forms(bytes: &[u8], form_ids: &Vec<FormID>) -> (r: Result<Vec<Form>, ArchiveError>)
    ensures
        parse_archive(bytes@) matches Some(m) ==> ((model_wf(m) && records_valid(m)) ==> {
            &&& (forall|i: int|
                0 <= i < form_ids@.len() ==> spec_has_form(m, (#[trigger] form_ids@[i])@)) ==> (
            r matches Ok(out) && out@.len() == form_ids@.len() && (forall|i: int|
                0 <= i < form_ids@.len() ==> {
                    let f = #[trigger] out@[i];
                    &&& f.wf()
                    &&& f@ == spec_resident_form(m, form_ids@[i]@)
                    &&& spec_form_model_id(f@) == form_ids@[i]@
                }))
            &&& (exists|i: int|
                0 <= i < form_ids@.len() && !spec_has_form(m, (#[trigger] form_ids@[i])@)) ==> (
            r matches Err(e) && e == ArchiveError::NotFound)
        }),
        parse_archive(bytes@) is None ==> (r matches Err(e) && e == ArchiveError::Corrupt),
{
    let ghost om = parse_archive(bytes@);
    let blen = bytes.len();
    let (header, _hl, bs) = match parse_archive_file(bytes) {
        Ok(v) => v,
        Err(e) => {
            return Err(e);
        },
    };
    if form_ids.len() >= 6000 {
        return read_forms_from_index(bytes, form_ids, header.form_count, bs.bytestart_index, bs.bytestart_data);
    }
    let mut forms: Vec<Form> = Vec::new();
    let mut i: usize = 0;
    while i < form_ids.len()
        invariant
            i <= form_ids@.len(),
            forms@.len() == i,
            om == parse_archive(bytes@),
            om is Some,
            (om is Some && model_wf(om.unwrap()) && records_valid(om.unwrap())) ==> forall|t: int|
                0 <= t < i ==> {
                    let f = #[trigger] forms@[t];
                    let mm = om.unwrap();
                    &&& f.wf()
                    &&& f@ == spec_resident_form(mm, form_ids@[t]@)
                    &&& spec_form_model_id(f@) == form_ids@[t]@
                },
            (om is Some && model_wf(om.unwrap()) && records_valid(om.unwrap())) ==> forall|t: int|
                0 <= t < i ==> spec_has_form(om.unwrap(), (#[trigger] form_ids@[t])@),
        decreases form_ids@.len() - i,
    {
        match read_form(bytes, form_ids[i]) {
            Ok(f) => {
                proof {
                    let mm = om.unwrap();
                    if model_wf(mm) && records_valid(mm) {
                reveal(crate::model::records_valid);
                        if !spec_has_form(mm, form_ids@[i as int]@) {
                            assert(false);
                        }
                    }
                }
                forms.push(f);
            },
            Err(e) => {
                proof {
                    let mm = om.unwrap();
                    if model_wf(mm) && records_valid(mm) {
                reveal(crate::model::records_valid);
                        if spec_has_form(mm, form_ids@[i as int]@) {
                            assert(false);
                        }
                        assert(e == ArchiveError::NotFound);
                    }
                }
                return Err(ArchiveError::NotFound);
            },
        }
        i = i + 1;
    }
    Ok(forms)
}

/// The large-batch strategy: reads the whole index into memory once and
/// binary-searches it per id, then decodes each matched record.
#[verifier::loop_isolation(false)]
fn read_forms_from_index(
    bytes: &[u8],
    form_ids: &Vec<FormID>,
    form_count: u16,
    bytestart_index: u32,
    bytestart_data: u32,
) -> (r: Result<Vec<Form>, ArchiveError>)
    requires
        parse_archive(bytes@) is Some,
        form_count as int == parse_archive(bytes@).unwrap().entries.len(),
        bytestart_index as int == spec_bytestart_index(parse_archive(bytes@).unwrap()),
        bytestart_data as int == spec_bytestart_data(parse_archive(bytes@).unwrap()),
        parse_archive(bytes@).unwrap().data == bytes@.subrange(
            spec_bytestart_data(parse_archive(bytes@).unwrap()),
            spec_bytestart_index(parse_archive(bytes@).unwrap()),
        ),
        bytes@.len() == spec_file_len(parse_archive(bytes@).unwrap()),
        parse_archive(bytes@).unwrap().entries == spec_parse_index(
            bytes@,
            spec_bytestart_index(parse_archive(bytes@).unwrap()),
            parse_archive(bytes@).unwrap().entries.len() as int,
        ),
    ensures
        parse_archive(bytes@) matches Some(m) ==> ((model_wf(m) && records_valid(m)) ==> {
            &&& (forall|i: int|
                0 <= i < form_ids@.len() ==> spec_has_form(m, (#[trigger] form_ids@[i])@)) ==> (
            r matches Ok(out) && out@.len() == form_ids@.len() && (forall|i: int|
                0 <= i < form_ids@.len() ==> {
                    let f = #[trigger] out@[i];
                    &&& f.wf()
                    &&& f@ == spec_resident_form(m, form_ids@[i]@)
                    &&& spec_form_model_id(f@) == form_ids@[i]@
                }))
            &&& (exists|i: int|
                0 <= i < form_ids@.len() && !spec_has_form(m, (#[trigger] form_ids@[i])@)) ==> (
            r matches Err(e) && e == ArchiveError::NotFound)
        }),
{
    let ghost om = parse_archive(bytes@);
    let ghost m = om.unwrap();
    let blen = bytes.len();
    let bi = bytestart_index as usize;
    let bd = bytestart_data as usize;
    proof {
        assert(m.data == bytes@.subrange(spec_bytestart_data(m), spec_bytestart_index(m)));
        assert(bytes@.len() == spec_file_len(m));
        assert(spec_parse_index(bytes@, bi as int, form_count as int) == m.entries);
    }
    if !index_ids_sorted(bytes, bi, form_count) {
        proof {
            if model_wf(m) && records_valid(m) {
                reveal(crate::model::records_valid);
                assert(false);
            }
        }
        return Err(ArchiveError::Corrupt);
    }
    let index = match read_block_index(bytes, bi, form_count) {
        Ok(v) => v,
        Err(e) => {
            proof {
                if model_wf(m) && records_valid(m) {
                reveal(crate::model::records_valid);
                    assert forall|j: int| 0 <= j < m.entries.len() implies (
                    #[trigger] crate::types_misc::spec_form_type_of_byte(
                        bytes@[bi + 7 * j + 2],
                    )) is Some by {
                        assert(bytes@[bi + 7 * j + 2] == m.entries[j].form_type);
                        assert(spec_parse_form_at(m.data, spec_record_start(m, j)) is Some);
                    }
                    assert(false);
                }
            }
            return Err(e);
        },
    };
    proof {
        assert(spec_index_views(index.indexes@) == m.entries);
    }
    let mut ids_copy: Vec<FormID> = Vec::new();
    let mut t: usize = 0;
    while t < form_ids.len()
        invariant
            t <= form_ids@.len(),
            ids_copy@.len() == t,
            forall|i: int| 0 <= i < t ==> #[trigger] ids_copy@[i] == form_ids@[i],
        decreases form_ids@.len() - t,
    {
        ids_copy.push(form_ids[t]);
        t = t + 1;
    }
    proof {
        assert(ids_copy@ =~= form_ids@);
    }
    let matched = match binary_search_for_index_item_inmem(ids_copy, &index) {
        Ok(Some(v)) => v,
        Ok(None) => {
            proof {
                assert(form_ids@.len() == 0);
            }
            return Ok(Vec::new());
        },
        Err(_) => {
            proof {
                if model_wf(m) && records_valid(m) {
                reveal(crate::model::records_valid);
                    let i0 = choose|i0: int|
                        0 <= i0 < form_ids@.len() && forall|j: int|
                            0 <= j < m.entries.len() ==> (#[trigger] m.entries[j].form_id) != (
                            #[trigger] ids_copy@[i0])@;
                    assert(!spec_has_form(m, form_ids@[i0]@)) by {
                        if spec_has_form(m, form_ids@[i0]@) {
                            let k = spec_index_of(m, form_ids@[i0]@);
                            assert(m.entries[k].form_id == form_ids@[i0]@);
                        }
                    }
                }
            }
            return Err(ArchiveError::NotFound);
        },
    };
    let mut forms: Vec<Form> = Vec::new();
    let mut i: usize = 0;
    while i < matched.indexes.len()
        invariant
            i <= matched.indexes@.len(),
            forms@.len() == i,
            blen == bytes@.len(),
            om == parse_archive(bytes@),
            om is Some,
            m == om.unwrap(),
            bd as int == spec_bytestart_data(m),
            matched.indexes@.len() == form_ids@.len(),
            forall|t2: int|
                0 <= t2 < matched.indexes@.len() ==> (#[trigger] matched.indexes@[t2]).form_id@
                    == form_ids@[t2]@ && exists|j: int|
                    0 <= j < m.entries.len() && matched.indexes@[t2]@ == #[trigger] m.entries[j],
            (model_wf(m) && records_valid(m)) ==> forall|t2: int|
                0 <= t2 < i ==> {
                    let f = #[trigger] forms@[t2];
                    &&& f.wf()
                    &&& f@ == spec_resident_form(m, form_ids@[t2]@)
                    &&& spec_form_model_id(f@) == form_ids@[t2]@
                },
        decreases matched.indexes@.len() - i,
    {
        let entry = matched.indexes[i];
        let ghost j = choose|j: int|
            0 <= j < m.entries.len() && matched.indexes@[i as int]@ == #[trigger] m.entries[j];
        proof {
            if model_wf(m) && records_valid(m) {
                reveal(crate::model::records_valid);
                assert(m.entries[j].form_id == form_ids@[i as int]@);
                assert(spec_index_of(m, form_ids@[i as int]@) == j) by {
                    let k = spec_index_of(m, form_ids@[i as int]@);
                    assert(m.entries[j].form_id == form_ids@[i as int]@);
                    assert(spec_has_form(m, form_ids@[i as int]@));
                    assert(0 <= k < m.entries.len() && m.entries[k].form_id == form_ids@[
                        i as int
                    ]@);
                    if k != j {
                        assert(m.entries[k].form_id != m.entries[j].form_id);
                    }
                }
                lemma_record_in_file(bytes@, m, j);
            }
        }
        let off = entry.data_start_offset as usize;
        if bd > blen || off > blen - bd {
            proof {
                if model_wf(m) && records_valid(m) {
                reveal(crate::model::records_valid);
                    assert(false);
                }
            }
            return Err(ArchiveError::Corrupt);
        }
        match Form::read_at(bytes, bd + off) {
            Ok((form, _consumed)) => {
                forms.push(form);
            },
            Err(e) => {
                proof {
                    if model_wf(m) && records_valid(m) {
                reveal(crate::model::records_valid);
                        assert(false);
                    }
                }
                return Err(e);
            },
        }
        i = i + 1;
    }
    proof {
        if model_wf(m) && records_valid(m) {
                reveal(crate::model::records_valid);
            assert forall|t2: int| 0 <= t2 < form_ids@.len() implies spec_has_form(
                m,
                (#[trigger] form_ids@[t2])@,
            ) by {
                let j = choose|j: int|
                    0 <= j < m.entries.len() && matched.indexes@[t2]@ == #[trigger] m.entries[j];
                assert(m.entries[j].form_id == form_ids@[t2]@);
            }
        }
    }
    Ok(forms)
}

} // verus!
