//! Small index helpers: the first and last form ids of the index, and a
//! check that the index stands in strictly increasing id order.
use vstd::prelude::*;

use crate::bytes::read_u16_be;
use crate::model::{entries_sorted, lemma_sorted_from_adjacent, spec_parse_index};
use crate::types_id::FormID;

verus! {

/// The form id of the first index entry.
pub fn get_index_form_id_first(bytes: &[u8], bytestart_index: usize) -> (r: FormID)
    requires
        bytestart_index + 7 <= bytes@.len(),
    ensures
        r@ == spec_parse_index(bytes@, bytestart_index as int, 1)[0].form_id,
{
    let raw = read_u16_be(bytes, bytestart_index);
    FormID::new(raw)
}

/// The form id of the last index entry.
pub fn get_index_form_id_last(bytes: &[u8], bytestart_index: usize, form_count: u16) -> (r: FormID)
    requires
        form_count >= 1,
        bytestart_index + 7 * (form_count as int) <= bytes@.len(),
    ensures
        r@ == spec_parse_index(bytes@, bytestart_index as int, form_count as int)[form_count
            - 1].form_id,
{
    let blen = bytes.len();
    let raw = read_u16_be(bytes, bytestart_index + 7 * ((form_count as usize) - 1));
    FormID::new(raw)
}

/// Whether the index's form ids stand in strictly increasing order.
#[verifier::loop_isolation(false)]
pub fn index_ids_sorted(bytes: &[u8], bytestart_index: usize, form_count: u16) -> (r: bool)
    requires
        bytestart_index + 7 * (form_count as int) <= bytes@.len(),
    ensures
        r == entries_sorted(spec_parse_index(bytes@, bytestart_index as int, form_count as int)),
{
    let ghost es = spec_parse_index(bytes@, bytestart_index as int, form_count as int);
    let blen = bytes.len();
    let n = form_count as usize;
    if n == 0 {
        return true;
    }
    let mut i: usize = 0;
    let mut prev = read_u16_be(bytes, bytestart_index);
    assert(prev == es[0].form_id);
    while i < n - 1
        invariant
            i <= n - 1,
            prev == es[i as int].form_id,
            forall|t: int| 0 <= t < i ==> (#[trigger] es[t].form_id) < es[t + 1].form_id,
        decreases n - i,
    {
        let next = read_u16_be(bytes, bytestart_index + 7 * (i + 1));
        assert(next == es[i + 1].form_id);
        if prev >= next {
            proof {
                assert(!entries_sorted(es)) by {
                    assert(es[i as int].form_id >= es[i + 1].form_id);
                }
            }
            return false;
        }
        prev = next;
        i = i + 1;
    }
    proof {
        lemma_sorted_from_adjacent(es);
    }
    true
}

} // verus!
