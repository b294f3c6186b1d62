//! Error taxonomy for container decoding and geometry reconstruction.
//!
//! Decode-time errors are fatal for the operation that raised them and carry
//! enough context (lump name, record index, byte offset) to diagnose the
//! offending input. Geometry-time anomalies are not errors: they are surfaced
//! as structured warnings by the boundary builder instead.

use vstd::prelude::*;

verus! {

/// The ways a byte range can fail to decode as the format demands.
#[derive(Debug, Clone)]
pub enum FormatIssue {
    /// The 4-byte container signature is neither of the recognized tags.
    BadSignature,
    /// A directory entry's 8-byte name field does not decode as text;
    /// carries the entry index and the byte offset of the entry.
    BadName { entry: usize, offset: usize },
    /// A fixed-length texture name field of the named lump does not decode
    /// as text; carries the record index within the lump.
    BadTexture { lump: String, record: usize },
    /// A record references an index outside the vector it points into;
    /// carries the name of the lump whose record holds the reference and
    /// the index of that record.
    BadIndex { lump: String, record: usize },
}

/// One error for every way a requested operation on a container can fail.
#[derive(Debug, Clone)]
pub enum WadError {
    /// A read reaches outside the container's bytes.
    IoError,
    /// A byte range does not decode as the format demands.
    FormatError(FormatIssue),
    /// A lump's byte size is not a multiple of its record size; carries the
    /// lump name, its declared byte size and the record size it must divide
    /// into.
    MalformedLump { lump: String, size: i32, record_size: u32 },
    /// A requested map name is absent from the assembled map list.
    MapNotFound,
}

/// Mathematical model of a [`FormatIssue`].
pub enum FormatIssueModel {
    BadSignature,
    BadName { entry: usize, offset: usize },
    BadTexture { lump: Seq<char>, record: usize },
    BadIndex { lump: Seq<char>, record: usize },
}

/// Mathematical model of a [`WadError`].
pub enum WadErrorModel {
    IoError,
    FormatError(FormatIssueModel),
    MalformedLump { lump: Seq<char>, size: i32, record_size: u32 },
    MapNotFound,
}

impl View for FormatIssue {
    type V = FormatIssueModel;

    open spec fn view(&self) -> FormatIssueModel {
        match self {
            FormatIssue::BadSignature => FormatIssueModel::BadSignature,
            FormatIssue::BadName { entry, offset } => FormatIssueModel::BadName {
                entry: *entry,
                offset: *offset,
            },
            FormatIssue::BadTexture { lump, record } => FormatIssueModel::BadTexture {
                lump: lump@,
                record: *record,
            },
            FormatIssue::BadIndex { lump, record } => FormatIssueModel::BadIndex {
                lump: lump@,
                record: *record,
            },
        }
    }
}

impl View for WadError {
    type V = WadErrorModel;

    open spec fn view(&self) -> WadErrorModel {
        match self {
            WadError::IoError => WadErrorModel::IoError,
            WadError::FormatError(issue) => WadErrorModel::FormatError(issue@),
            WadError::MalformedLump { lump, size, record_size } => WadErrorModel::MalformedLump {
                lump: lump@,
                size: *size,
                record_size: *record_size,
            },
            WadError::MapNotFound => WadErrorModel::MapNotFound,
        }
    }
}

} // verus!
