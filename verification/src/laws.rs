//! The laws the archive keeps, stated once over the file model: the exact
//! record round trip, the file-length equation, the sorted index, the
//! offset adjacency, and their preservation by every mutation path.
use vstd::prelude::*;

use crate::form::{
    form_model_wf, lemma_form_parse_exact, lemma_parse_form_of_encoding, spec_form_bytes,
    spec_form_model_id, spec_form_model_type, spec_parse_form, spec_parse_form_at, FormModel,
};
use crate::model::{
    entries_sorted, lemma_delete_model_preserves, lemma_insert_model_preserves,
    lemma_overwrite_model_preserves, lemma_parse_archive_of_encoding, model_sizes_ok, model_wf,
    parse_archive, records_valid, spec_archive_bytes, spec_bytestart_index, spec_delete_model,
    spec_file_len, spec_has_form, spec_index_of, spec_record_end, spec_record_start,
    spec_write_model, ArchiveModel,
};
use crate::types_misc::spec_form_type_byte;

verus! {

/// Every record payload round-trips exactly: a payload that parses as one
/// record re-encodes to the very bytes it was read from, and a well-formed
/// record parses back from its own encoding.
pub proof fn lemma_record_round_trip(b: Seq<u8>, f: FormModel)
    ensures
        spec_parse_form(b) matches Some(p) ==> spec_form_bytes(p.0) == b.subrange(0, p.1)
            && form_model_wf(p.0),
        form_model_wf(f) ==> spec_parse_form(spec_form_bytes(f)) == Some(
            (f, spec_form_bytes(f).len() as int),
        ),
{
    if spec_parse_form_at(b, 0) is Some {
        lemma_form_parse_exact(b, 0);
    }
    if form_model_wf(f) {
        let e = spec_form_bytes(f);
        assert(e.subrange(0, e.len() as int) =~= e);
        lemma_parse_form_of_encoding(e, 0, f);
    }
}

/// A well-sized archive's byte image has length `bytestart_index` plus
/// seven bytes per index entry, and parses back to its own model.
pub proof fn lemma_file_length(m: ArchiveModel)
    requires
        model_sizes_ok(m),
    ensures
        spec_archive_bytes(m).len() == spec_bytestart_index(m) + 7 * m.entries.len(),
        parse_archive(spec_archive_bytes(m)) == Some(m),
{
    lemma_parse_archive_of_encoding(m);
}

/// In a well-formed archive, every resident record parses from its slot,
/// re-encodes to exactly that slot, and each adjacent offset pair differs
/// by the encoded length of the record between them.
pub proof fn lemma_offsets_match_record_lengths(m: ArchiveModel, i: int)
    requires
        model_wf(m),
        records_valid(m),
        0 <= i < m.entries.len(),
    ensures
        ({
            let parsed = spec_parse_form_at(m.data, spec_record_start(m, i));
            &&& parsed is Some
            &&& spec_record_end(m, i) - spec_record_start(m, i) == spec_form_bytes(
                parsed.unwrap().0,
            ).len()
            &&& i < m.entries.len() - 1 ==> m.entries[i + 1].data_start_offset as int - m.entries[
                i
            ].data_start_offset as int == spec_form_bytes(parsed.unwrap().0).len()
            &&& spec_form_bytes(parsed.unwrap().0) == m.data.subrange(
                spec_record_start(m, i),
                spec_record_end(m, i),
            )
            &&& spec_form_model_id(parsed.unwrap().0) == m.entries[i].form_id
        }),
{
    reveal(crate::model::records_valid);
    assert(spec_parse_form_at(m.data, spec_record_start(m, i)) is Some);
    lemma_form_parse_exact(m.data, spec_record_start(m, i));
}

/// Writing a form preserves every archive invariant: the index stays
/// strictly sorted by id, offsets stay adjacent to their records, every
/// record still parses, and the written form is resident afterwards.
pub proof fn lemma_write_preserves_invariants(m: ArchiveModel, f: FormModel)
    requires
        model_wf(m),
        records_valid(m),
        form_model_wf(f),
        spec_has_form(m, spec_form_model_id(f)) ==> m.entries[spec_index_of(
            m,
            spec_form_model_id(f),
        )].form_type == spec_form_type_byte(spec_form_model_type(f)),
        !spec_has_form(m, spec_form_model_id(f)) ==> m.entries.len() < 65535,
        spec_file_len(spec_write_model(m, f)) <= 0xFFFF_FFFF,
    ensures
        model_wf(spec_write_model(m, f)),
        records_valid(spec_write_model(m, f)),
        entries_sorted(spec_write_model(m, f).entries),
{
    if spec_has_form(m, spec_form_model_id(f)) {
        lemma_overwrite_model_preserves(m, f);
    } else {
        lemma_insert_model_preserves(m, f);
    }
}

/// Deleting a form preserves every archive invariant, and the form is no
/// longer resident afterwards.
pub proof fn lemma_delete_preserves_invariants(m: ArchiveModel, id: u16)
    requires
        model_wf(m),
        records_valid(m),
        spec_has_form(m, id),
    ensures
        model_wf(spec_delete_model(m, id)),
        records_valid(spec_delete_model(m, id)),
        entries_sorted(spec_delete_model(m, id).entries),
        !spec_has_form(spec_delete_model(m, id), id),
{
    lemma_delete_model_preserves(m, id);
}

/// The state after a write parses back from its own byte image with every
/// invariant intact: chains of writes and deletes stay readable, and every
/// resident record keeps round-tripping.
pub proof fn lemma_write_state_round_trip(m: ArchiveModel, f: FormModel)
    requires
        model_wf(m),
        records_valid(m),
        form_model_wf(f),
        spec_has_form(m, spec_form_model_id(f)) ==> m.entries[spec_index_of(
            m,
            spec_form_model_id(f),
        )].form_type == spec_form_type_byte(spec_form_model_type(f)),
        !spec_has_form(m, spec_form_model_id(f)) ==> m.entries.len() < 65535,
        spec_file_len(spec_write_model(m, f)) <= 0xFFFF_FFFF,
    ensures
        parse_archive(spec_archive_bytes(spec_write_model(m, f))) == Some(spec_write_model(m, f)),
        model_wf(spec_write_model(m, f)),
        records_valid(spec_write_model(m, f)),
{
    lemma_write_preserves_invariants(m, f);
    lemma_parse_archive_of_encoding(spec_write_model(m, f));
}

/// The state after a delete parses back from its own byte image with every
/// invariant intact.
pub proof fn lemma_delete_state_round_trip(m: ArchiveModel, id: u16)
    requires
        model_wf(m),
        records_valid(m),
        spec_has_form(m, id),
    ensures
        parse_archive(spec_archive_bytes(spec_delete_model(m, id))) == Some(
            spec_delete_model(m, id),
        ),
        model_wf(spec_delete_model(m, id)),
        records_valid(spec_delete_model(m, id)),
{
    lemma_delete_model_preserves(m, id);
    lemma_parse_archive_of_encoding(spec_delete_model(m, id));
}

} // verus!
