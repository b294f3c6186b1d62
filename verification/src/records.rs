//! Decoded record types of the container and their fixed byte layouts.
//!
//! Every record is a fixed-size little-endian structure. Each record type has
//! a spec-level decoder from its byte chunk to a mathematical model, and an
//! executable decoder proved against it. Texture and name fields follow the
//! fixed-length convention of [`crate::name`], with the literal placeholder
//! `"-"` decoding to an absent texture.

use vstd::bytes::spec_u16_from_le_bytes;
use vstd::bytes::spec_u32_from_le_bytes;
use vstd::bytes::u16_from_le_bytes;
use vstd::bytes::u32_from_le_bytes;
use vstd::prelude::*;

use crate::name::buf_to_string;
use crate::name::spec_buf_to_string;
use crate::name::str_eq;

verus! {

/// Byte size of one vertex record.
pub const VERTEX_SIZE: usize = 4;

/// Byte size of one wall-edge record.
pub const LINEDEF_SIZE: usize = 14;

/// Byte size of one wall-face record.
pub const SIDEDEF_SIZE: usize = 30;

/// Byte size of one room record.
pub const SECTOR_SIZE: usize = 26;

/// Byte size of one entity-placement record.
pub const THING_SIZE: usize = 10;

/// Byte size of one directory entry.
pub const DIRECTORY_ENTRY_SIZE: usize = 16;

/// The unsigned 16-bit little-endian field at byte `off` of `data`.
pub open spec fn spec_u16_at(data: Seq<u8>, off: int) -> u16 {
    spec_u16_from_le_bytes(data.subrange(off, off + 2))
}

/// The signed 16-bit little-endian field at byte `off` of `data`.
pub open spec fn spec_i16_at(data: Seq<u8>, off: int) -> i16 {
    spec_u16_at(data, off) as i16
}

/// The signed 32-bit little-endian field at byte `off` of `data`.
pub open spec fn spec_i32_at(data: Seq<u8>, off: int) -> i32 {
    spec_u32_from_le_bytes(data.subrange(off, off + 4)) as i32
}

/// Reads the unsigned 16-bit little-endian field at byte `off`.
pub fn u16_at(data: &[u8], off: usize) -> (r: u16)
    requires
        off + 2 <= data@.len(),
    ensures
        r == spec_u16_at(data@, off as int),
{
    let n = data.len();
    let field = vstd::slice::slice_subrange(data, off, off + 2);
    u16_from_le_bytes(field)
}

/// Reads the signed 16-bit little-endian field at byte `off`.
pub fn i16_at(data: &[u8], off: usize) -> (r: i16)
    requires
        off + 2 <= data@.len(),
    ensures
        r == spec_i16_at(data@, off as int),
{
    u16_at(data, off) as i16
}

/// Reads the signed 32-bit little-endian field at byte `off`.
pub fn i32_at(data: &[u8], off: usize) -> (r: i32)
    requires
        off + 4 <= data@.len(),
    ensures
        r == spec_i32_at(data@, off as int),
{
    let n = data.len();
    let field = vstd::slice::slice_subrange(data, off, off + 4);
    #[verifier::truncate]
    (u32_from_le_bytes(field) as i32)
}

/// A map vertex, identified only by its position in the map's vertex list.
#[derive(Clone, Copy, Debug, PartialEq, Eq, Structural)]
pub struct Vertex {
    pub x: i16,
    pub y: i16,
}

/// A wall edge between two vertices, with up to two wall faces. A side index
/// below zero is the sentinel for "no side on this face".
#[derive(Clone, Copy, Debug, PartialEq, Eq, Structural)]
pub struct LineDef {
    pub vertex_begin: i16,
    pub vertex_end: i16,
    pub flags: i16,
    pub line_type: i16,
    pub sector_tag: i16,
    pub sidedef_right: i16,
    pub sidedef_left: i16,
}

/// An entity placement; inert payload with no geometric role here.
#[derive(Clone, Copy, Debug, PartialEq, Eq, Structural)]
pub struct Thing {
    pub x: i16,
    pub y: i16,
    pub angle: i16,
    pub type_code: i16,
    pub spawn_flags: i16,
}

/// A wall face: texture names (absent when the field holds the placeholder
/// `"-"` or no valid text) and the room it faces.
#[derive(Clone, Debug)]
pub struct SideDef {
    pub x_offset: i16,
    pub y_offset: i16,
    pub upper_texture: Option<String>,
    pub lower_texture: Option<String>,
    pub middle_texture: Option<String>,
    pub sector: u16,
}

/// Mathematical model of a [`SideDef`].
pub struct SideDefModel {
    pub x_offset: i16,
    pub y_offset: i16,
    pub upper_texture: Option<Seq<char>>,
    pub lower_texture: Option<Seq<char>>,
    pub middle_texture: Option<Seq<char>>,
    pub sector: u16,
}

impl View for SideDef {
    type V = SideDefModel;

    open spec fn view(&self) -> SideDefModel {
        SideDefModel {
            x_offset: self.x_offset,
            y_offset: self.y_offset,
            upper_texture: self.upper_texture.deep_view(),
            lower_texture: self.lower_texture.deep_view(),
            middle_texture: self.middle_texture.deep_view(),
            sector: self.sector,
        }
    }
}

impl DeepView for SideDef {
    type V = SideDefModel;

    open spec fn deep_view(&self) -> SideDefModel {
        self.view()
    }
}

/// A room: heights, mandatory surface textures, light level and tags.
#[derive(Clone, Debug)]
pub struct Sector {
    pub floor_height: i16,
    pub ceiling_height: i16,
    pub floor_texture: String,
    pub ceiling_texture: String,
    pub light_level: i16,
    pub special: u16,
    pub sector_tag: u16,
}

/// Mathematical model of a [`Sector`].
pub struct SectorModel {
    pub floor_height: i16,
    pub ceiling_height: i16,
    pub floor_texture: Seq<char>,
    pub ceiling_texture: Seq<char>,
    pub light_level: i16,
    pub special: u16,
    pub sector_tag: u16,
}

impl View for Sector {
    type V = SectorModel;

    open spec fn view(&self) -> SectorModel {
        SectorModel {
            floor_height: self.floor_height,
            ceiling_height: self.ceiling_height,
            floor_texture: self.floor_texture@,
            ceiling_texture: self.ceiling_texture@,
            light_level: self.light_level,
            special: self.special,
            sector_tag: self.sector_tag,
        }
    }
}

impl DeepView for Sector {
    type V = SectorModel;

    open spec fn deep_view(&self) -> SectorModel {
        self.view()
    }
}

/// One named byte range of the container's directory. A size of zero with a
/// positive offset denotes a marker entry carrying no data.
#[derive(Clone, Debug)]
pub struct DirectoryEntry {
    pub name: String,
    pub offset: i32,
    pub size: i32,
}

/// Mathematical model of a [`DirectoryEntry`].
pub struct DirectoryEntryModel {
    pub name: Seq<char>,
    pub offset: i32,
    pub size: i32,
}

impl View for DirectoryEntry {
    type V = DirectoryEntryModel;

    open spec fn view(&self) -> DirectoryEntryModel {
        DirectoryEntryModel { name: self.name@, offset: self.offset, size: self.size }
    }
}

impl DeepView for DirectoryEntry {
    type V = DirectoryEntryModel;

    open spec fn deep_view(&self) -> DirectoryEntryModel {
        self.view()
    }
}

/// The decoded records of one map, immutable once assembled.
#[derive(Debug)]
pub struct MapData {
    pub name: String,
    pub linedefs: Vec<LineDef>,
    pub sectors: Vec<Sector>,
    pub sidedefs: Vec<SideDef>,
    pub things: Vec<Thing>,
    pub vertexes: Vec<Vertex>,
}

/// Mathematical model of a [`MapData`].
pub struct MapDataModel {
    pub name: Seq<char>,
    pub linedefs: Seq<LineDef>,
    pub sectors: Seq<SectorModel>,
    pub sidedefs: Seq<SideDefModel>,
    pub things: Seq<Thing>,
    pub vertexes: Seq<Vertex>,
}

impl View for MapData {
    type V = MapDataModel;

    open spec fn view(&self) -> MapDataModel {
        MapDataModel {
            name: self.name@,
            linedefs: self.linedefs@,
            sectors: self.sectors.deep_view(),
            sidedefs: self.sidedefs.deep_view(),
            things: self.things@,
            vertexes: self.vertexes@,
        }
    }
}

impl DeepView for MapData {
    type V = MapDataModel;

    open spec fn deep_view(&self) -> MapDataModel {
        self.view()
    }
}

/// The container's signature: the two recognized 4-byte tags.
#[derive(Clone, Copy, Debug, PartialEq, Eq, Structural)]
pub enum WadType {
    IWAD,
    PWAD,
}

/// A fully decoded container: its flat directory and its assembled maps.
#[derive(Debug)]
pub struct Wad {
    pub directory: Vec<DirectoryEntry>,
    pub maps: Vec<MapData>,
    pub wad_type: WadType,
}

/// Decodes a vertex record: two signed 16-bit coordinates.
pub open spec fn spec_decode_vertex(chunk: Seq<u8>) -> Vertex {
    Vertex { x: spec_i16_at(chunk, 0), y: spec_i16_at(chunk, 2) }
}

/// Decodes a wall-edge record: seven signed 16-bit fields in declared order.
pub open spec fn spec_decode_linedef(chunk: Seq<u8>) -> LineDef {
    LineDef {
        vertex_begin: spec_i16_at(chunk, 0),
        vertex_end: spec_i16_at(chunk, 2),
        flags: spec_i16_at(chunk, 4),
        line_type: spec_i16_at(chunk, 6),
        sector_tag: spec_i16_at(chunk, 8),
        sidedef_right: spec_i16_at(chunk, 10),
        sidedef_left: spec_i16_at(chunk, 12),
    }
}

/// Decodes an entity-placement record: five signed 16-bit fields.
pub open spec fn spec_decode_thing(chunk: Seq<u8>) -> Thing {
    Thing {
        x: spec_i16_at(chunk, 0),
        y: spec_i16_at(chunk, 2),
        angle: spec_i16_at(chunk, 4),
        type_code: spec_i16_at(chunk, 6),
        spawn_flags: spec_i16_at(chunk, 8),
    }
}

/// Decodes an 8-byte texture name field: absent when the field holds no valid
/// text or the placeholder `"-"`.
pub open spec fn spec_decode_texture(field: Seq<u8>) -> Option<Seq<char>> {
    match spec_buf_to_string(field) {
        Some(s) => if s == "-"@ {
            None
        } else {
            Some(s)
        },
        None => None,
    }
}

/// Decodes a wall-face record: two offsets, three optional texture names and
/// the index of the room the face belongs to.
pub open spec fn spec_decode_sidedef(chunk: Seq<u8>) -> SideDefModel {
    SideDefModel {
        x_offset: spec_i16_at(chunk, 0),
        y_offset: spec_i16_at(chunk, 2),
        upper_texture: spec_decode_texture(chunk.subrange(4, 12)),
        lower_texture: spec_decode_texture(chunk.subrange(12, 20)),
        middle_texture: spec_decode_texture(chunk.subrange(20, 28)),
        sector: spec_u16_at(chunk, 28),
    }
}

/// Decodes a room record; fails when a mandatory surface texture field holds
/// no valid text.
pub open spec fn spec_decode_sector(chunk: Seq<u8>) -> Option<SectorModel> {
    match (spec_buf_to_string(chunk.subrange(4, 12)), spec_buf_to_string(chunk.subrange(12, 20))) {
        (Some(floor), Some(ceiling)) => Some(
            SectorModel {
                floor_height: spec_i16_at(chunk, 0),
                ceiling_height: spec_i16_at(chunk, 2),
                floor_texture: floor,
                ceiling_texture: ceiling,
                light_level: spec_i16_at(chunk, 20),
                special: spec_u16_at(chunk, 22),
                sector_tag: spec_u16_at(chunk, 24),
            },
        ),
        _ => None,
    }
}

/// Decodes a directory entry record: offset, size, then the 8-byte name;
/// fails when the name field holds no valid text.
pub open spec fn spec_decode_entry(chunk: Seq<u8>) -> Option<DirectoryEntryModel> {
    match spec_buf_to_string(chunk.subrange(8, 16)) {
        Some(name) => Some(
            DirectoryEntryModel {
                name,
                offset: spec_i32_at(chunk, 0),
                size: spec_i32_at(chunk, 4),
            },
        ),
        None => None,
    }
}

/// Reads one vertex record out of its byte chunk.
pub fn decode_vertex(chunk: &[u8]) -> (r: Vertex)
    requires
        chunk@.len() == VERTEX_SIZE,
    ensures
        r == spec_decode_vertex(chunk@),
{
    Vertex { x: i16_at(chunk, 0), y: i16_at(chunk, 2) }
}

/// Reads one wall-edge record out of its byte chunk.
pub fn decode_linedef(chunk: &[u8]) -> (r: LineDef)
    requires
        chunk@.len() == LINEDEF_SIZE,
    ensures
        r == spec_decode_linedef(chunk@),
{
    LineDef {
        vertex_begin: i16_at(chunk, 0),
        vertex_end: i16_at(chunk, 2),
        flags: i16_at(chunk, 4),
        line_type: i16_at(chunk, 6),
        sector_tag: i16_at(chunk, 8),
        sidedef_right: i16_at(chunk, 10),
        sidedef_left: i16_at(chunk, 12),
    }
}

/// Reads one entity-placement record out of its byte chunk.
pub fn decode_thing(chunk: &[u8]) -> (r: Thing)
    requires
        chunk@.len() == THING_SIZE,
    ensures
        r == spec_decode_thing(chunk@),
{
    Thing {
        x: i16_at(chunk, 0),
        y: i16_at(chunk, 2),
        angle: i16_at(chunk, 4),
        type_code: i16_at(chunk, 6),
        spawn_flags: i16_at(chunk, 8),
    }
}

/// Reads one 8-byte texture name field.
pub fn decode_texture(field: &[u8]) -> (r: Option<String>)
    requires
        field@.len() == 8,
    ensures
        r is Some <==> spec_decode_texture(field@) is Some,
        r is Some ==> r->0@ == spec_decode_texture(field@)->0,
{
    match buf_to_string(field) {
        Some(s) => {
            if str_eq(s.as_str(), "-") {
                None
            } else {
                Some(s)
            }
        },
        None => None,
    }
}

/// Reads one wall-face record out of its byte chunk.
pub fn decode_sidedef(chunk: &[u8]) -> (r: SideDef)
    requires
        chunk@.len() == SIDEDEF_SIZE,
    ensures
        r@ == spec_decode_sidedef(chunk@),
{
    let upper_texture = decode_texture(vstd::slice::slice_subrange(chunk, 4, 12));
    let lower_texture = decode_texture(vstd::slice::slice_subrange(chunk, 12, 20));
    let middle_texture = decode_texture(vstd::slice::slice_subrange(chunk, 20, 28));
    SideDef {
        x_offset: i16_at(chunk, 0),
        y_offset: i16_at(chunk, 2),
        upper_texture,
        lower_texture,
        middle_texture,
        sector: u16_at(chunk, 28),
    }
}

/// Reads one room record out of its byte chunk; fails when a surface texture
/// field holds no valid text.
pub fn decode_sector(chunk: &[u8]) -> (r: Option<Sector>)
    requires
        chunk@.len() == SECTOR_SIZE,
    ensures
        r is Some <==> spec_decode_sector(chunk@) is Some,
        r is Some ==> r->0@ == spec_decode_sector(chunk@)->0,
{
    let floor_texture = buf_to_string(vstd::slice::slice_subrange(chunk, 4, 12));
    let ceiling_texture = buf_to_string(vstd::slice::slice_subrange(chunk, 12, 20));
    match (floor_texture, ceiling_texture) {
        (Some(floor), Some(ceiling)) => Some(
            Sector {
                floor_height: i16_at(chunk, 0),
                ceiling_height: i16_at(chunk, 2),
                floor_texture: floor,
                ceiling_texture: ceiling,
                light_level: i16_at(chunk, 20),
                special: u16_at(chunk, 22),
                sector_tag: u16_at(chunk, 24),
            },
        ),
        _ => None,
    }
}

/// Reads one directory entry record out of its byte chunk; fails when the
/// name field holds no valid text.
pub fn decode_entry(chunk: &[u8]) -> (r: Option<DirectoryEntry>)
    requires
        chunk@.len() == DIRECTORY_ENTRY_SIZE,
    ensures
        r is Some <==> spec_decode_entry(chunk@) is Some,
        r is Some ==> r->0@ == spec_decode_entry(chunk@)->0,
{
    match buf_to_string(vstd::slice::slice_subrange(chunk, 8, 16)) {
        Some(name) => Some(
            DirectoryEntry { name, offset: i32_at(chunk, 0), size: i32_at(chunk, 4) },
        ),
        None => None,
    }
}

} // verus!
