//! A single-file, self-describing binary archive engine. An archive holds
//! typed records ("forms") keyed by a 16-bit identifier: record payloads
//! lie contiguously in a data region, and a trailing index of seven-byte
//! entries, sorted by identifier, locates each record by offset. The
//! operations here work on the archive as bytes: they parse the blocks,
//! mutate the layout in a single rebuild, and return the new file image,
//! with contracts that pin the result to the file's mathematical model.

pub mod bytes;
pub mod text;
pub mod types_str;
pub mod types_id;
pub mod types_misc;
pub mod types_vectors;
pub mod types_color;
pub mod form;
pub mod form_string;
pub mod form_refgroup;
pub mod form_world;
pub mod model;
pub mod archive;
pub mod io_struct;
pub mod io_write_block;
pub mod io_read_block;
pub mod io_utils;
pub mod io_read_archive;
pub mod io_read_form;
pub mod io_write_form;
pub mod io_delete_form;
pub mod io_write_archive;
pub mod laws;

use vstd::prelude::*;

verus! {

/// The error kinds that archive operations report.
#[derive(Debug, PartialEq, Eq, Clone, Copy)]
pub enum ArchiveError {
    /// The file is missing, the form id is not in the index, or the archive is empty.
    NotFound,
    /// A header, bytestart, index or record could not be parsed.
    Corrupt,
    /// A type mismatch on overwrite, an over-long string, or a surrogate code unit.
    InvalidData,
    /// A computed offset would not fit the on-disk width.
    Overflow,
    /// An underlying filesystem error.
    Io,
}

} // verus!
