//! Plain carriers for the three on-disk blocks as they are read and written.
use vstd::prelude::*;

use crate::model::IndexEntryModel;
use crate::types_id::{ArchiveID, FormID};
use crate::types_misc::{spec_form_type_byte, FormType, Version};
use crate::types_str::StrLrg;

verus! {

/// The two cursor values of the BYTESTART block.
pub struct IOStructByteStarts {
    pub bytestart_index: u32,
    pub bytestart_data: u32,
}

/// The fields of the HEADER block.
pub struct IOStructHeader {
    pub archive_id: ArchiveID,
    pub version: Version,
    pub description: StrLrg,
    pub form_count: u16,
}

/// The whole INDEX block as entries.
pub struct IOStructIndex {
    pub indexes: Vec<IOStructIndexItem>,
}

/// One seven-byte index entry.
#[derive(Clone, Copy)]
pub struct IOStructIndexItem {
    pub form_id: FormID,
    pub form_type: FormType,
    pub data_start_offset: u32,
}

impl View for IOStructIndexItem {
    type V = IndexEntryModel;

    open spec fn view(&self) -> IndexEntryModel {
        IndexEntryModel {
            form_id: self.form_id@,
            form_type: spec_form_type_byte(self.form_type),
            data_start_offset: self.data_start_offset,
        }
    }
}

/// The entry models of an index, in order.
pub open spec fn spec_index_views(v: Seq<IOStructIndexItem>) -> Seq<IndexEntryModel> {
    Seq::new(v.len(), |i: int| v[i]@)
}

} // verus!
