//! Readers for the three on-disk blocks, and the aligned index searches:
//! a bounded binary search over seven-byte entries that probes only the
//! two identifier bytes, with a linear fallback over the residual window.
use vstd::prelude::*;

use crate::ArchiveError;
use crate::bytes::{read_u16_be, read_u32_be, spec_u16_from_be};
use crate::io_struct::{
    spec_index_views, IOStructByteStarts, IOStructHeader, IOStructIndex, IOStructIndexItem,
};
use crate::model::{entries_sorted, spec_insert_pos, spec_parse_index, IndexEntryModel};
use crate::types_id::{ArchiveID, FormID};
use crate::types_misc::{spec_form_type_of_byte, FormType, Version};
use crate::types_str::{read_str_lrg_at, spec_parse_utf16};

verus! {

/// Reads the HEADER block from the front of the file: archive id, version,
/// description, form count. Returns the header and its width.
pub fn read_block_header(bytes: &[u8]) -> (r: Result<(IOStructHeader, usize), ArchiveError>)
    ensures
        r is Ok <==> (bytes@.len() >= 5 && bytes@.len() >= 7 + 2 * (spec_u16_from_be(
            bytes@[3],
            bytes@[4],
        ) as int)),
        r matches Ok(q) ==> ({
            let nd = spec_u16_from_be(bytes@[3], bytes@[4]) as int;
            let hl = 7 + 2 * nd;
            &&& q.1 == hl
            &&& q.0.archive_id@ == bytes@[0]
            &&& q.0.version@ == (bytes@[1], bytes@[2])
            &&& q.0.description@ == spec_parse_utf16(bytes@, 5, nd)
            &&& q.0.description.wf()
            &&& q.0.form_count == spec_u16_from_be(bytes@[hl - 2], bytes@[hl - 1])
        }),
        r matches Err(e) ==> e == ArchiveError::Corrupt,
{
    if bytes.len() < 5 {
        return Err(ArchiveError::Corrupt);
    }
    let archive_id = ArchiveID::new(bytes[0]);
    let version = Version::from_bytes([bytes[1], bytes[2]]);
    let (description, dend) = match read_str_lrg_at(bytes, 3) {
        Ok(v) => v,
        Err(_) => {
            return Err(ArchiveError::Corrupt);
        },
    };
    assert(dend <= bytes@.len());
    if bytes.len() - dend < 2 {
        return Err(ArchiveError::Corrupt);
    }
    let form_count = read_u16_be(bytes, dend);
    Ok((IOStructHeader { archive_id, version, description, form_count }, dend + 2))
}

/// Reads the BYTESTART block at `pos`: the index cursor, then the data cursor.
pub fn read_block_bytestarts(bytes: &[u8], pos: usize) -> (r: Result<
    IOStructByteStarts,
    ArchiveError,
>)
    ensures
        r is Ok <==> pos + 8 <= bytes@.len(),
        r matches Ok(q) ==> ({
            &&& q.bytestart_index == crate::bytes::spec_u32_from_be(
                bytes@[pos as int],
                bytes@[pos + 1],
                bytes@[pos + 2],
                bytes@[pos + 3],
            )
            &&& q.bytestart_data == crate::bytes::spec_u32_from_be(
                bytes@[pos + 4],
                bytes@[pos + 5],
                bytes@[pos + 6],
                bytes@[pos + 7],
            )
        }),
        r matches Err(e) ==> e == ArchiveError::Corrupt,
{
    if bytes.len() < 8 || pos > bytes.len() - 8 {
        return Err(ArchiveError::Corrupt);
    }
    let bytestart_index = read_u32_be(bytes, pos);
    let bytestart_data = read_u32_be(bytes, pos + 4);
    Ok(IOStructByteStarts { bytestart_index, bytestart_data })
}

/// Reads one seven-byte index entry at the absolute byte position `pos`.
pub fn read_index_item_at_position(bytes: &[u8], pos: usize) -> (r: Result<
    IOStructIndexItem,
    ArchiveError,
>)
    requires
        pos + 7 <= bytes@.len(),
    ensures
        r matches Ok(item) ==> ({
            &&& item@ == (IndexEntryModel {
                form_id: spec_u16_from_be(bytes@[pos as int], bytes@[pos + 1]),
                form_type: bytes@[pos + 2],
                data_start_offset: crate::bytes::spec_u32_from_be(
                    bytes@[pos + 3],
                    bytes@[pos + 4],
                    bytes@[pos + 5],
                    bytes@[pos + 6],
                ),
            })
        }),
        r is Ok <==> spec_form_type_of_byte(bytes@[pos + 2]) is Some,
        r matches Err(e) ==> e == ArchiveError::Corrupt,
{
    let form_id = FormID::from_bytes([bytes[pos], bytes[pos + 1]]);
    let form_type = match FormType::from_byte(bytes[pos + 2]) {
        Some(t) => t,
        None => {
            return Err(ArchiveError::Corrupt);
        },
    };
    let data_start_offset = read_u32_be(bytes, pos + 3);
    Ok(IOStructIndexItem { form_id, form_type, data_start_offset })
}

/// Reads the whole INDEX block: `form_count` seven-byte entries at `bi`.
#[verifier::loop_isolation(false)]
pub fn read_block_index(bytes: &[u8], bi: usize, form_count: u16) -> (r: Result<
    IOStructIndex,
    ArchiveError,
>)
    ensures
        ({
            let n = form_count as int;
            &&& (r is Ok <==> (bi + 7 * n <= bytes@.len() && (forall|j: int|
                0 <= j < n ==> (#[trigger] spec_form_type_of_byte(bytes@[bi + 7 * j + 2]))
                    is Some)))
            &&& (r matches Ok(idx) ==> spec_index_views(idx.indexes@) == spec_parse_index(
                bytes@,
                bi as int,
                n,
            ))
        }),
        r matches Err(e) ==> e == ArchiveError::Corrupt,
{
    let n = form_count as usize;
    if bytes.len() < bi || (bytes.len() - bi) / 7 < n {
        return Err(ArchiveError::Corrupt);
    }
    let mut indexes: Vec<IOStructIndexItem> = Vec::new();
    let mut j: usize = 0;
    while j < n
        invariant
            j <= n,
            indexes@.len() == j,
            forall|i: int|
                0 <= i < j ==> #[trigger] indexes@[i]@ == spec_parse_index(
                    bytes@,
                    bi as int,
                    n as int,
                )[i],
            forall|i: int|
                0 <= i < j ==> (#[trigger] spec_form_type_of_byte(bytes@[bi + 7 * i + 2])) is Some,
        decreases n - j,
    {
        match read_index_item_at_position(bytes, bi + 7 * j) {
            Ok(item) => {
                indexes.push(item);
            },
            Err(_) => {
                return Err(ArchiveError::Corrupt);
            },
        }
        j = j + 1;
    }
    proof {
        assert(spec_index_views(indexes@) =~= spec_parse_index(bytes@, bi as int, n as int));
    }
    Ok(IOStructIndex { indexes })
}

/// Locates the index entry carrying `target_form_id` and its ordinal, by
/// a bounded aligned binary search over two-byte probes, then a linear
/// scan of the residual window.
#[verifier::loop_isolation(false)]
pub fn binary_search_for_index_item_and_position(
    bytes: &[u8],
    bytestart_index: usize,
    target_form_id: FormID,
    form_count: u16,
) -> (r: Result<Option<(usize, IOStructIndexItem)>, ArchiveError>)
    requires
        bytestart_index + 7 * (form_count as int) <= bytes@.len(),
        entries_sorted(spec_parse_index(bytes@, bytestart_index as int, form_count as int)),
    ensures
        ({
            let es = spec_parse_index(bytes@, bytestart_index as int, form_count as int);
            &&& (r matches Ok(p) ==> (p matches Some(q) ==> 0 <= q.0 < es.len() && q.1@ == es[
                q.0 as int
            ] && q.1.form_id@ == target_form_id@))
            &&& (r matches Ok(p) ==> (p is None ==> forall|j: int|
                0 <= j < es.len() ==> (#[trigger] es[j].form_id) != target_form_id@))
            &&& (r matches Err(e) ==> e == ArchiveError::Corrupt && exists|j: int|
                0 <= j < es.len() && (#[trigger] es[j].form_id) == target_form_id@
                    && spec_form_type_of_byte(es[j].form_type) is None)
        }),
{
    let ghost es = spec_parse_index(bytes@, bytestart_index as int, form_count as int);
    let blen = bytes.len();
    assert(bytes@.len() <= usize::MAX);
    let n = form_count as usize;
    let target = target_form_id.to_u16();
    let mut lo: usize = 0;
    let mut hi: usize = n;
    let mut passes: usize = 0;
    while passes < 10 && hi - lo > 1
        invariant
            lo <= hi <= n,
            forall|j: int|
                0 <= j < n && (#[trigger] es[j].form_id) == target_form_id@ ==> lo <= j < hi,
        decreases 10 - passes,
    {
        passes = passes + 1;
        let mid = lo + (hi - lo) / 2;
        let probe = read_u16_be(bytes, bytestart_index + 7 * mid);
        assert(probe == es[mid as int].form_id);
        if probe == target {
            match read_index_item_at_position(bytes, bytestart_index + 7 * mid) {
                Ok(item) => {
                    return Ok(Some((mid, item)));
                },
                Err(_) => {
                    return Err(ArchiveError::Corrupt);
                },
            }
        } else if probe < target {
            proof {
                assert forall|j: int|
                    0 <= j < n && (#[trigger] es[j].form_id) == target_form_id@ implies mid + 1 <= j
                    < hi by {
                    if j <= mid {
                        assert(es[j].form_id <= es[mid as int].form_id);
                    }
                }
            }
            lo = mid + 1;
        } else {
            proof {
                assert forall|j: int|
                    0 <= j < n && (#[trigger] es[j].form_id) == target_form_id@ implies lo <= j
                    < mid by {
                    if j >= mid {
                        assert(es[mid as int].form_id <= es[j].form_id);
                    }
                }
            }
            hi = mid;
        }
    }
    let mut cur: usize = lo;
    while cur < hi
        invariant
            lo <= cur <= hi <= n,
            forall|j: int|
                0 <= j < n && (#[trigger] es[j].form_id) == target_form_id@ ==> cur <= j < hi,
        decreases hi - cur,
    {
        let probe = read_u16_be(bytes, bytestart_index + 7 * cur);
        assert(probe == es[cur as int].form_id);
        if probe == target {
            match read_index_item_at_position(bytes, bytestart_index + 7 * cur) {
                Ok(item) => {
                    return Ok(Some((cur, item)));
                },
                Err(_) => {
                    return Err(ArchiveError::Corrupt);
                },
            }
        }
        cur = cur + 1;
    }
    Ok(None)
}

/// Locates the index entry carrying `target_form_id`, if any.
pub fn binary_search_for_index_item(
    bytes: &[u8],
    bytestart_index: usize,
    target_form_id: FormID,
    form_count: u16,
) -> (r: Result<Option<IOStructIndexItem>, ArchiveError>)
    requires
        bytestart_index + 7 * (form_count as int) <= bytes@.len(),
        entries_sorted(spec_parse_index(bytes@, bytestart_index as int, form_count as int)),
    ensures
        ({
            let es = spec_parse_index(bytes@, bytestart_index as int, form_count as int);
            &&& (r matches Ok(p) ==> (p matches Some(item) ==> exists|j: int|
                0 <= j < es.len() && item@ == (#[trigger] es[j]) && item.form_id@
                    == target_form_id@))
            &&& (r matches Ok(p) ==> (p is None ==> forall|j: int|
                0 <= j < es.len() ==> (#[trigger] es[j].form_id) != target_form_id@))
            &&& (r matches Err(e) ==> e == ArchiveError::Corrupt && exists|j: int|
                0 <= j < es.len() && (#[trigger] es[j].form_id) == target_form_id@
                    && spec_form_type_of_byte(es[j].form_type) is None)
        }),
{
    match binary_search_for_index_item_and_position(bytes, bytestart_index, target_form_id, form_count) {
        Ok(Some((pos, item))) => {
            proof {
                let es = spec_parse_index(bytes@, bytestart_index as int, form_count as int);
                assert(item@ == es[pos as int]);
            }
            Ok(Some(item))
        },
        Ok(None) => Ok(None),
        Err(e) => Err(e),
    }
}

/// Finds where a new form id sorts into the index: the ordinal of the
/// first entry with a greater id, together with that entry; `None` when the
/// id sorts before every entry.
#[verifier::loop_isolation(false)]
pub fn get_new_form_index_pos(
    bytes: &[u8],
    bytestart_index: usize,
    form_count: u16,
    target_form_id: FormID,
) -> (r: Result<Option<(usize, IOStructIndexItem)>, ArchiveError>)
    requires
        bytestart_index + 7 * (form_count as int) <= bytes@.len(),
        entries_sorted(spec_parse_index(bytes@, bytestart_index as int, form_count as int)),
        form_count > 0,
        target_form_id@ < spec_parse_index(
            bytes@,
            bytestart_index as int,
            form_count as int,
        )[form_count - 1].form_id,
    ensures
        ({
            let es = spec_parse_index(bytes@, bytestart_index as int, form_count as int);
            let k = spec_insert_pos(es, target_form_id@);
            &&& (r matches Ok(p) ==> (p is None <==> k == 0))
            &&& (r matches Ok(p) ==> (p matches Some(q) ==> q.0 == k && 0 < k
                < es.len() && q.1@ == es[k]))
            &&& (r matches Err(e) ==> e == ArchiveError::Corrupt && 0 <= k < es.len()
                && spec_form_type_of_byte(es[k].form_type) is None)
        }),
{
    let ghost es = spec_parse_index(bytes@, bytestart_index as int, form_count as int);
    let ghost k = spec_insert_pos(es, target_form_id@);
    proof {
        crate::model::lemma_insert_pos_properties(es, target_form_id@);
        if k == es.len() {
            assert(es[es.len() - 1].form_id < target_form_id@);
            assert(false);
        }
    }
    let blen = bytes.len();
    assert(bytes@.len() <= usize::MAX);
    let n = form_count as usize;
    let target = target_form_id.to_u16();
    let mut lo: usize = 0;
    let mut hi: usize = n;
    while lo < hi
        invariant
            lo <= hi <= n,
            forall|j: int| 0 <= j < lo ==> (#[trigger] es[j].form_id) < target_form_id@,
            forall|j: int| hi <= j < n ==> (#[trigger] es[j].form_id) >= target_form_id@,
        decreases hi - lo,
    {
        let mid = lo + (hi - lo) / 2;
        let probe = read_u16_be(bytes, bytestart_index + 7 * mid);
        assert(probe == es[mid as int].form_id);
        if probe < target {
            proof {
                assert forall|j: int| 0 <= j < mid + 1 implies (#[trigger] es[j].form_id)
                    < target_form_id@ by {
                    if j < mid {
                        assert(es[j].form_id <= es[mid as int].form_id) by {
                            if j < mid {
                                assert(es[j].form_id < es[mid as int].form_id);
                            }
                        }
                    }
                }
            }
            lo = mid + 1;
        } else {
            hi = mid;
        }
    }
    proof {
        assert(lo == k) by {
            if lo < k {
                assert(es[lo as int].form_id < target_form_id@);
            }
            if lo > k {
                assert(es[k].form_id >= target_form_id@);
            }
        }
    }
    if lo == 0 {
        Ok(None)
    } else {
        match read_index_item_at_position(bytes, bytestart_index + 7 * lo) {
            Ok(item) => Ok(Some((lo, item))),
            Err(_) => Err(ArchiveError::Corrupt),
        }
    }
}

/// Looks each requested id up in an in-memory index by binary search,
/// returning the matched entries in the order the ids were given.
#[verifier::loop_isolation(false)]
pub fn binary_search_for_index_item_inmem(target_form_ids: Vec<FormID>, index: &IOStructIndex)
    -> (r: Result<Option<IOStructIndex>, ArchiveError>)
    requires
        entries_sorted(spec_index_views(index.indexes@)),
    ensures
        ({
            let es = spec_index_views(index.indexes@);
            let ids = target_form_ids@;
            &&& (ids.len() == 0 ==> (r matches Ok(p) && p is None))
            &&& (r matches Ok(p3) ==> (p3 is None ==> ids.len() == 0))
            &&& (r matches Ok(p) ==> (p matches Some(out) ==> {
                &&& out.indexes@.len() == ids.len()
                &&& forall|i: int|
                    0 <= i < ids.len() ==> (#[trigger] out.indexes@[i]).form_id@ == ids[i]@
                        && exists|j: int| 0 <= j < es.len() && out.indexes@[i]@ == #[trigger] es[j]
            }))
            &&& (r matches Err(e) ==> e == ArchiveError::NotFound && exists|i: int|
                0 <= i < ids.len() && forall|j: int|
                    0 <= j < es.len() ==> (#[trigger] es[j].form_id) != (#[trigger] ids[i])@)
            &&& ((ids.len() > 0 && forall|i: int|
                0 <= i < ids.len() ==> exists|j: int|
                    0 <= j < es.len() && (#[trigger] es[j].form_id) == (#[trigger] ids[i])@) ==> (
            r matches Ok(p2) && p2 is Some))
        }),
{
    let ghost es = spec_index_views(index.indexes@);
    let mut result_indexes: Vec<IOStructIndexItem> = Vec::new();
    let mut i: usize = 0;
    while i < target_form_ids.len()
        invariant
            i <= target_form_ids@.len(),
            result_indexes@.len() == i,
            forall|t: int|
                0 <= t < i ==> (#[trigger] result_indexes@[t]).form_id@ == target_form_ids@[t]@
                    && exists|j: int| 0 <= j < es.len() && result_indexes@[t]@ == #[trigger] es[j],
        decreases target_form_ids@.len() - i,
    {
        match find_index_entry(index, target_form_ids[i]) {
            Some(item) => {
                result_indexes.push(item);
            },
            None => {
                return Err(ArchiveError::NotFound);
            },
        }
        i = i + 1;
    }
    if result_indexes.len() == 0 {
        Ok(None)
    } else {
        Ok(Some(IOStructIndex { indexes: result_indexes }))
    }
}

/// Binary-searches a sorted in-memory index for one form id.
#[verifier::loop_isolation(false)]
fn find_index_entry(index: &IOStructIndex, target_form_id: FormID) -> (r: Option<
    IOStructIndexItem,
>)
    requires
        entries_sorted(spec_index_views(index.indexes@)),
    ensures
        ({
            let es = spec_index_views(index.indexes@);
            &&& (r matches Some(item) ==> item.form_id@ == target_form_id@ && exists|j: int|
                0 <= j < es.len() && item@ == #[trigger] es[j])
            &&& (r is None ==> forall|j: int|
                0 <= j < es.len() ==> (#[trigger] es[j].form_id) != target_form_id@)
        }),
{
    let ghost es = spec_index_views(index.indexes@);
    let n = index.indexes.len();
    let target = target_form_id.to_u16();
    let mut lo: usize = 0;
    let mut hi: usize = n;
    while lo < hi
        invariant
            lo <= hi <= n,
            n == es.len(),
            forall|j: int|
                0 <= j < n && (#[trigger] es[j].form_id) == target_form_id@ ==> lo <= j < hi,
        decreases hi - lo,
    {
        let mid = lo + (hi - lo) / 2;
        let probe = index.indexes[mid].form_id.to_u16();
        assert(probe == es[mid as int].form_id);
        if probe == target {
            return Some(index.indexes[mid]);
        } else if probe < target {
            proof {
                assert forall|j: int|
                    0 <= j < n && (#[trigger] es[j].form_id) == target_form_id@ implies mid + 1 <= j
                    < hi by {
                    if j <= mid && j < mid {
                        assert(es[j].form_id < es[mid as int].form_id);
                    }
                }
            }
            lo = mid + 1;
        } else {
            proof {
                assert forall|j: int|
                    0 <= j < n && (#[trigger] es[j].form_id) == target_form_id@ implies lo <= j
                    < mid by {
                    if j > mid {
                        assert(es[mid as int].form_id < es[j].form_id);
                    }
                }
            }
            hi = mid;
        }
    }
    None
}

} // verus!
