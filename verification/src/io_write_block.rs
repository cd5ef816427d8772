//! Writers for the three on-disk blocks, and the assembler that lays a
//! whole archive file out of its parts.
use vstd::prelude::*;

use crate::archive::{spec_header_bytes_of, Archive};
use crate::bytes::push_u32_be;
use crate::io_struct::{spec_index_views, IOStructIndex, IOStructIndexItem};
use crate::model::{
    lemma_index_bytes_len, lemma_index_bytes_push, spec_archive_bytes, spec_bytestart_data,
    spec_bytestart_index, spec_entry_bytes, spec_file_len, spec_header_bytes, spec_header_len,
    spec_index_bytes, ArchiveModel,
};

verus! {

/// Appends the HEADER block for the archive's fields.
pub fn write_block_header(out: &mut Vec<u8>, archive: &Archive)
    requires
        archive.wf(),
    ensures
        final(out)@ == old(out)@ + spec_header_bytes_of(
            archive.archive_id@,
            archive.version@,
            archive.description@,
            archive.form_count,
        ),
{
    let mut hb = archive.header_to_bytes();
    out.append(&mut hb);
}

/// Appends the BYTESTART block: index cursor, then data cursor.
pub fn write_block_bytestart(out: &mut Vec<u8>, bytestart_index: u32, bytestart_data: u32)
    ensures
        final(out)@ == old(out)@ + crate::bytes::spec_u32_be(bytestart_index)
            + crate::bytes::spec_u32_be(bytestart_data),
{
    push_u32_be(out, bytestart_index);
    push_u32_be(out, bytestart_data);
}

/// Appends the INDEX block: seven bytes per entry.
pub fn write_block_index(out: &mut Vec<u8>, index_block: &IOStructIndex)
    ensures
        final(out)@ == old(out)@ + spec_index_bytes(spec_index_views(index_block.indexes@)),
{
    let mut i: usize = 0;
    while i < index_block.indexes.len()
        invariant
            i <= index_block.indexes@.len(),
            out@ == old(out)@ + spec_index_bytes(spec_index_views(index_block.indexes@).take(
                i as int,
            )),
        decreases index_block.indexes@.len() - i,
    {
        let ghost prefix = spec_index_views(index_block.indexes@).take(i as int);
        let item = &index_block.indexes[i];
        crate::bytes::push_u16_be(out, item.form_id.to_u16());
        out.push(item.form_type.to_byte());
        push_u32_be(out, item.data_start_offset);
        proof {
            lemma_index_bytes_push(prefix, index_block.indexes@[i as int]@);
            assert(spec_index_views(index_block.indexes@).take(i + 1) =~= prefix.push(
                index_block.indexes@[i as int]@,
            ));
            assert(out@ =~= old(out)@ + spec_index_bytes(spec_index_views(
                index_block.indexes@,
            ).take(i + 1)));
        }
        i = i + 1;
    }
    proof {
        assert(spec_index_views(index_block.indexes@).take(index_block.indexes@.len() as int)
            =~= spec_index_views(index_block.indexes@));
    }
}

/// Lays out a whole archive file from its parts: header, bytestart block
/// with the derived cursors, the data region, and the index.
pub fn build_archive_bytes(
    archive: &Archive,
    entries: &IOStructIndex,
    data: &Vec<u8>,
    Ghost(m): Ghost<ArchiveModel>,
) -> (r: Vec<u8>)
    requires
        archive.wf(),
        m.archive_id == archive.archive_id@,
        m.version == archive.version@,
        m.description == archive.description@,
        m.entries == spec_index_views(entries.indexes@),
        m.data == data@,
        archive.form_count == m.entries.len(),
        spec_file_len(m) <= 0xFFFF_FFFF,
    ensures
        r@ == spec_archive_bytes(m),
        r@.len() == spec_file_len(m),
{
    proof {
        crate::types_str::lemma_utf16_bytes_len(m.description);
        lemma_index_bytes_len(m.entries);
    }
    let mut out: Vec<u8> = Vec::new();
    write_block_header(&mut out, archive);
    let header_len = archive.get_header_byte_count();
    let bytestart_data = header_len + 8;
    let bytestart_index = bytestart_data + data.len();
    assert(bytestart_data == spec_bytestart_data(m));
    assert(bytestart_index == spec_bytestart_index(m));
    write_block_bytestart(&mut out, bytestart_index as u32, bytestart_data as u32);
    let mut d: Vec<u8> = Vec::new();
    crate::bytes::append_range(&mut d, data.as_slice(), 0, data.len());
    out.append(&mut d);
    write_block_index(&mut out, entries);
    proof {
        assert(data@.subrange(0, data@.len() as int) =~= data@);
        assert(spec_header_bytes_of(m.archive_id, m.version, m.description, m.entries.len() as u16)
            =~= spec_header_bytes(m));
        assert(out@ =~= spec_archive_bytes(m));
    }
    out
}

} // verus!
