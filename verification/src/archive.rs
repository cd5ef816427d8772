//! The archive metadata record and the lightweight table-of-contents view.
use vstd::prelude::*;

use crate::bytes::{push_u16_be, spec_u16_be};
use crate::model::spec_header_bytes;
use crate::model::ArchiveModel;
use crate::types_id::{ArchiveID, FormID};
use crate::types_misc::{spec_form_type_byte, FormType, Version};
use crate::types_str::{spec_str_lrg_bytes, spec_str_sml_bytes, StrLrg, StrSml};

verus! {

/// The header bytes an archive's fields serialize to.
pub open spec fn spec_header_bytes_of(
    archive_id: u8,
    version: (u8, u8),
    description: Seq<u16>,
    form_count: u16,
) -> Seq<u8> {
    seq![archive_id] + seq![version.0, version.1] + spec_str_lrg_bytes(description) + spec_u16_be(
        form_count,
    )
}

/// Archive metadata: identifier, version, description, and the cached
/// block pointers read back from a file.
pub struct Archive {
    pub archive_id: ArchiveID,
    pub version: Version,
    pub description: StrLrg,
    pub form_count: u16,
    pub bytestart_index: u32,
    pub bytestart_data: u32,
}

impl Archive {
    /// The description fits its two-byte count.
    pub open spec fn wf(self) -> bool {
        self.description.wf()
    }

    /// Builds metadata for a new, empty archive.
    pub fn new(archive_id: ArchiveID, version: Version, description: StrLrg) -> (r: Archive)
        ensures
            r.archive_id == archive_id,
            r.version == version,
            r.description == description,
            r.form_count == 0,
            r.bytestart_index == 0,
            r.bytestart_data == 0,
    {
        Archive { archive_id, version, description, form_count: 0, bytestart_index: 0, bytestart_data: 0 }
    }

    /// The number of forms the archive holds.
    pub fn get_form_count(&self) -> (r: u16)
        ensures
            r == self.form_count,
    {
        self.form_count
    }

    /// The serialized width of the header.
    pub fn get_header_byte_count(&self) -> (r: usize)
        requires
            self.wf(),
        ensures
            r == spec_header_bytes_of(
                self.archive_id@,
                self.version@,
                self.description@,
                self.form_count,
            ).len(),
            r == 7 + 2 * self.description@.len(),
    {
        proof {
            crate::types_str::lemma_utf16_bytes_len(self.description@);
        }
        1 + 2 + self.description.get_byte_count() + 2
    }

    /// Serializes the header: identifier, version, description, form count.
    pub fn header_to_bytes(&self) -> (r: Vec<u8>)
        requires
            self.wf(),
        ensures
            r@ == spec_header_bytes_of(
                self.archive_id@,
                self.version@,
                self.description@,
                self.form_count,
            ),
    {
        let mut bytes: Vec<u8> = Vec::new();
        bytes.push(self.archive_id.to_u8());
        let v = self.version.to_bytes();
        bytes.push(v[0]);
        bytes.push(v[1]);
        let mut db = self.description.to_bytes();
        bytes.append(&mut db);
        push_u16_be(&mut bytes, self.form_count);
        assert(bytes@ =~= spec_header_bytes_of(
            self.archive_id@,
            self.version@,
            self.description@,
            self.form_count,
        ));
        bytes
    }
}

/// One line of the lightweight listing: id, name, type.
pub struct LiteArchiveItem {
    pub form_id: FormID,
    pub form_name: StrSml,
    pub form_type: FormType,
}

impl LiteArchiveItem {
    /// Serializes the line: form id, name, type byte.
    pub fn to_bytes(&self) -> (r: Vec<u8>)
        requires
            self.form_name.wf(),
        ensures
            r@ == crate::bytes::spec_u16_be(self.form_id@) + spec_str_sml_bytes(self.form_name@)
                + seq![spec_form_type_byte(self.form_type)],
    {
        let mut bytes: Vec<u8> = Vec::new();
        push_u16_be(&mut bytes, self.form_id.to_u16());
        let mut nb = self.form_name.to_bytes();
        bytes.append(&mut nb);
        bytes.push(self.form_type.to_byte());
        assert(bytes@ =~= crate::bytes::spec_u16_be(self.form_id@) + spec_str_sml_bytes(
            self.form_name@,
        ) + seq![spec_form_type_byte(self.form_type)]);
        bytes
    }
}

/// The serialized lines of a listing, in order.
pub open spec fn spec_lite_items_bytes(items: Seq<LiteArchiveItem>) -> Seq<u8>
    decreases items.len(),
{
    if items.len() == 0 {
        Seq::empty()
    } else {
        (crate::bytes::spec_u16_be(items[0].form_id@) + spec_str_sml_bytes(items[0].form_name@)
            + seq![spec_form_type_byte(items[0].form_type)]) + spec_lite_items_bytes(
            items.drop_first(),
        )
    }
}

/// A lightweight table of contents: the header fields plus one line per form.
pub struct LiteArchive {
    pub archive_id: ArchiveID,
    pub version: Version,
    pub description: StrLrg,
    pub form_count: u16,
    pub archive_items: Vec<LiteArchiveItem>,
}

impl LiteArchive {
    /// Every name in the listing fits its count.
    pub open spec fn wf(self) -> bool {
        &&& self.description.wf()
        &&& forall|i: int|
            0 <= i < self.archive_items@.len() ==> (#[trigger] self.archive_items@[
                i
            ]).form_name.wf()
    }

    /// Serializes the listing: header fields, then one line per form.
    pub fn to_bytes(&self) -> (r: Vec<u8>)
        requires
            self.wf(),
        ensures
            r@ == seq![self.archive_id@] + seq![self.version@.0, self.version@.1]
                + spec_str_lrg_bytes(self.description@) + spec_u16_be(self.form_count)
                + spec_lite_items_bytes(self.archive_items@),
    {
        let mut bytes: Vec<u8> = Vec::new();
        bytes.push(self.archive_id.to_u8());
        let v = self.version.to_bytes();
        bytes.push(v[0]);
        bytes.push(v[1]);
        let mut db = self.description.to_bytes();
        bytes.append(&mut db);
        push_u16_be(&mut bytes, self.form_count);
        let ghost head = seq![self.archive_id@] + seq![self.version@.0, self.version@.1]
            + spec_str_lrg_bytes(self.description@) + spec_u16_be(self.form_count);
        proof {
            assert(bytes@ =~= head);
        }
        let mut i: usize = 0;
        while i < self.archive_items.len()
            invariant
                i <= self.archive_items@.len(),
                self.wf(),
                bytes@ == head + spec_lite_items_bytes(self.archive_items@.take(i as int)),
            decreases self.archive_items@.len() - i,
        {
            let ghost prefix = self.archive_items@.take(i as int);
            let mut ib = self.archive_items[i].to_bytes();
            bytes.append(&mut ib);
            proof {
                lemma_lite_items_bytes_push(prefix, self.archive_items@[i as int]);
                assert(self.archive_items@.take(i + 1) =~= prefix.push(
                    self.archive_items@[i as int],
                ));
                assert(bytes@ =~= head + spec_lite_items_bytes(self.archive_items@.take(i + 1)));
            }
            i = i + 1;
        }
        proof {
            assert(self.archive_items@.take(self.archive_items@.len() as int)
                =~= self.archive_items@);
        }
        bytes
    }
}

proof fn lemma_lite_items_bytes_push(items: Seq<LiteArchiveItem>, it: LiteArchiveItem)
    ensures
        spec_lite_items_bytes(items.push(it)) == spec_lite_items_bytes(items) + (
        crate::bytes::spec_u16_be(it.form_id@) + spec_str_sml_bytes(it.form_name@) + seq![
            spec_form_type_byte(it.form_type),
        ]),
    decreases items.len(),
{
    let ib = crate::bytes::spec_u16_be(it.form_id@) + spec_str_sml_bytes(it.form_name@) + seq![
        spec_form_type_byte(it.form_type),
    ];
    if items.len() == 0 {
        assert(items.push(it)[0] == it);
        assert(items.push(it).drop_first() =~= Seq::<LiteArchiveItem>::empty());
        assert(spec_lite_items_bytes(items.push(it)) == ib + spec_lite_items_bytes(
            items.push(it).drop_first(),
        ));
        assert(spec_lite_items_bytes(items.push(it)) =~= spec_lite_items_bytes(items) + ib);
    } else {
        assert(items.push(it).drop_first() =~= items.drop_first().push(it));
        lemma_lite_items_bytes_push(items.drop_first(), it);
        assert(spec_lite_items_bytes(items.push(it)) =~= spec_lite_items_bytes(items) + ib);
    }
}

} // verus!
