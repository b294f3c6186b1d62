//! Decoder for the WAD level-data container format and reconstruction of
//! per-sector boundary polygons from the decoded level geometry.
//!
//! The crate is organised leaf-first:
//! - [`errors`] defines the error taxonomy shared by every decode boundary.
//! - [`name`] decodes and encodes the fixed-length name fields of the format.
//! - [`records`] holds the decoded record types and their byte-level layouts.
//! - [`directory`] reads the container header and the flat lump directory.
//! - [`lumps`] decodes fixed-size record arrays out of single lumps.
//! - [`assemble`] groups directory entries into per-map bundles.
//! - [`boundary`] stitches a sector's wall edges into closed polygon loops.

pub mod assemble;
pub mod boundary;
pub mod directory;
pub mod errors;
pub mod lumps;
pub mod name;
pub mod records;

pub use assemble::decode_maps;
pub use assemble::find_map;
pub use boundary::map_boundaries;
pub use boundary::sector_boundary;
pub use boundary::stitch_loops;
pub use boundary::MapBounds;
pub use boundary::PolyLoop;
pub use boundary::SectorBoundary;
pub use boundary::Seg;
pub use boundary::StitchWarning;
pub use directory::decode_directory;
pub use directory::decode_header;
pub use directory::encode_directory_entry;
pub use directory::WadHeader;
pub use errors::FormatIssue;
pub use errors::WadError;
pub use name::buf_to_string;
pub use records::DirectoryEntry;
pub use records::LineDef;
pub use records::MapData;
pub use records::Sector;
pub use records::SideDef;
pub use records::Thing;
pub use records::Vertex;
pub use records::Wad;
pub use records::WadType;
