//! Decoding fixed-size record arrays out of single lumps.
//!
//! A lump's byte size must be an exact multiple of its record size; the lump's
//! bytes are then cut into consecutive chunks and each chunk is decoded in
//! declared field order. A lump whose entry carries no data decodes to an
//! empty vector.

use vstd::math::abs;
use vstd::prelude::*;

use crate::errors::FormatIssueModel;
use crate::errors::WadError;
use crate::errors::WadErrorModel;
use crate::records::decode_linedef;
use crate::records::decode_sector;
use crate::records::decode_sidedef;
use crate::records::decode_thing;
use crate::records::decode_vertex;
use crate::records::spec_decode_linedef;
use crate::records::spec_decode_sector;
use crate::records::spec_decode_sidedef;
use crate::records::spec_decode_thing;
use crate::records::spec_decode_vertex;
use crate::records::DirectoryEntry;
use crate::records::DirectoryEntryModel;
use crate::records::LineDef;
use crate::records::Sector;
use crate::records::SectorModel;
use crate::records::SideDef;
use crate::records::SideDefModel;
use crate::records::Thing;
use crate::records::Vertex;
use crate::records::LINEDEF_SIZE;
use crate::records::SECTOR_SIZE;
use crate::records::SIDEDEF_SIZE;
use crate::records::THING_SIZE;
use crate::records::VERTEX_SIZE;

verus! {

/// A lump's declared byte size does not divide evenly into records.
pub open spec fn lump_misaligned(size: i32, rec: int) -> bool {
    (abs(size as int) as int) % rec != 0
}

/// The byte range a lump entry names, checked against the record size and the
/// container's bounds. A lump whose size is not a positive record multiple
/// yields no bytes; one that reaches outside the container cannot be read.
pub open spec fn spec_lump_region(data: Seq<u8>, entry: DirectoryEntryModel, rec: int) -> Result<
    Seq<u8>,
    WadErrorModel,
> {
    if lump_misaligned(entry.size, rec) {
        Err(
            WadErrorModel::MalformedLump {
                lump: entry.name,
                size: entry.size,
                record_size: rec as u32,
            },
        )
    } else if entry.size <= 0 {
        Ok(Seq::empty())
    } else if entry.offset < 0 || entry.offset + entry.size > data.len() {
        Err(WadErrorModel::IoError)
    } else {
        Ok(data.subrange(entry.offset as int, entry.offset as int + entry.size as int))
    }
}

/// Reads the byte range of one lump, after checking alignment and bounds.
fn lump_region<'a>(data: &'a [u8], entry: &DirectoryEntry, rec: u32) -> (r: Result<
    &'a [u8],
    WadError,
>)
    requires
        0 < rec,
    ensures
        r is Ok <==> spec_lump_region(data@, entry@, rec as int) is Ok,
        r is Ok ==> r->Ok_0@ == spec_lump_region(data@, entry@, rec as int)->Ok_0,
        r is Err ==> spec_lump_region(data@, entry@, rec as int) == Err::<Seq<u8>, WadErrorModel>(
            r->Err_0@,
        ),
{
    let size = entry.size;
    let abs64: u64 = if size < 0 {
        (-(size as i64)) as u64
    } else {
        size as u64
    };
    proof {
        assert(abs64 == abs(size as int));
    }
    if abs64 % (rec as u64) != 0 {
        return Err(
            WadError::MalformedLump { lump: entry.name.clone(), size, record_size: rec },
        );
    }
    if size <= 0 {
        let empty = vstd::slice::slice_subrange(data, 0, 0);
        proof {
            assert(empty@ =~= Seq::<u8>::empty());
        }
        return Ok(empty);
    }
    if entry.offset < 0 {
        return Err(WadError::IoError);
    }
    let data_len = data.len();
    let off64: u64 = entry.offset as u64;
    let end64: u64 = off64 + (size as u64);
    if end64 > data_len as u64 {
        return Err(WadError::IoError);
    }
    Ok(vstd::slice::slice_subrange(data, off64 as usize, end64 as usize))
}

/// Decodes a vertex lump: consecutive 4-byte records.
pub open spec fn spec_decode_vertexes(data: Seq<u8>, entry: DirectoryEntryModel) -> Result<
    Seq<Vertex>,
    WadErrorModel,
> {
    match spec_lump_region(data, entry, VERTEX_SIZE as int) {
        Err(e) => Err(e),
        Ok(bytes) => Ok(
            Seq::new(
                (bytes.len() / VERTEX_SIZE as nat) as nat,
                |i: int| spec_decode_vertex(bytes.subrange(i * 4, i * 4 + 4)),
            ),
        ),
    }
}

/// Reads the vertex records of one lump.
pub fn decode_vertexes(data: &[u8], entry: &DirectoryEntry) -> (r: Result<Vec<Vertex>, WadError>)
    ensures
        r is Ok <==> spec_decode_vertexes(data@, entry@) is Ok,
        r is Ok ==> spec_decode_vertexes(data@, entry@) == Ok::<Seq<Vertex>, WadErrorModel>(
            r->Ok_0@,
        ),
        r is Err ==> spec_decode_vertexes(data@, entry@) == Err::<Seq<Vertex>, WadErrorModel>(
            r->Err_0@,
        ),
{
    let region = match lump_region(data, entry, 4) {
        Ok(region) => region,
        Err(e) => {
            return Err(e);
        },
    };
    let len = region.len();
    let count = len / 4;
    let mut v: Vec<Vertex> = Vec::new();
    let mut k: usize = 0;
    while k < count
        invariant
            0 <= k <= count,
            count == len / 4,
            len == region@.len(),
            len % 4 == 0,
            v@.len() == k,
            forall|i: int|
                0 <= i < k ==> v@[i] == spec_decode_vertex(
                    #[trigger] region@.subrange(i * 4, i * 4 + 4),
                ),
        decreases count - k,
    {
        let chunk = vstd::slice::slice_subrange(region, k * 4, k * 4 + 4);
        v.push(decode_vertex(chunk));
        k = k + 1;
    }
    proof {
        assert(v@ =~= Seq::new(
            (region@.len() / VERTEX_SIZE as nat) as nat,
            |i: int| spec_decode_vertex(region@.subrange(i * 4, i * 4 + 4)),
        ));
    }
    Ok(v)
}

/// Decodes a wall-edge lump: consecutive 14-byte records.
pub open spec fn spec_decode_linedefs(data: Seq<u8>, entry: DirectoryEntryModel) -> Result<
    Seq<LineDef>,
    WadErrorModel,
> {
    match spec_lump_region(data, entry, LINEDEF_SIZE as int) {
        Err(e) => Err(e),
        Ok(bytes) => Ok(
            Seq::new(
                (bytes.len() / LINEDEF_SIZE as nat) as nat,
                |i: int| spec_decode_linedef(bytes.subrange(i * 14, i * 14 + 14)),
            ),
        ),
    }
}

/// Reads the wall-edge records of one lump.
pub fn decode_linedefs(data: &[u8], entry: &DirectoryEntry) -> (r: Result<Vec<LineDef>, WadError>)
    ensures
        r is Ok <==> spec_decode_linedefs(data@, entry@) is Ok,
        r is Ok ==> spec_decode_linedefs(data@, entry@) == Ok::<Seq<LineDef>, WadErrorModel>(
            r->Ok_0@,
        ),
        r is Err ==> spec_decode_linedefs(data@, entry@) == Err::<Seq<LineDef>, WadErrorModel>(
            r->Err_0@,
        ),
{
    let region = match lump_region(data, entry, 14) {
        Ok(region) => region,
        Err(e) => {
            return Err(e);
        },
    };
    let len = region.len();
    let count = len / 14;
    let mut v: Vec<LineDef> = Vec::new();
    let mut k: usize = 0;
    while k < count
        invariant
            0 <= k <= count,
            count == len / 14,
            len == region@.len(),
            len % 14 == 0,
            v@.len() == k,
            forall|i: int|
                0 <= i < k ==> v@[i] == spec_decode_linedef(
                    #[trigger] region@.subrange(i * 14, i * 14 + 14),
                ),
        decreases count - k,
    {
        let chunk = vstd::slice::slice_subrange(region, k * 14, k * 14 + 14);
        v.push(decode_linedef(chunk));
        k = k + 1;
    }
    proof {
        assert(v@ =~= Seq::new(
            (region@.len() / LINEDEF_SIZE as nat) as nat,
            |i: int| spec_decode_linedef(region@.subrange(i * 14, i * 14 + 14)),
        ));
    }
    Ok(v)
}

/// Decodes an entity-placement lump: consecutive 10-byte records.
pub open spec fn spec_decode_things(data: Seq<u8>, entry: DirectoryEntryModel) -> Result<
    Seq<Thing>,
    WadErrorModel,
> {
    match spec_lump_region(data, entry, THING_SIZE as int) {
        Err(e) => Err(e),
        Ok(bytes) => Ok(
            Seq::new(
                (bytes.len() / THING_SIZE as nat) as nat,
                |i: int| spec_decode_thing(bytes.subrange(i * 10, i * 10 + 10)),
            ),
        ),
    }
}

/// Reads the entity-placement records of one lump.
pub fn decode_things(data: &[u8], entry: &DirectoryEntry) -> (r: Result<Vec<Thing>, WadError>)
    ensures
        r is Ok <==> spec_decode_things(data@, entry@) is Ok,
        r is Ok ==> spec_decode_things(data@, entry@) == Ok::<Seq<Thing>, WadErrorModel>(r->Ok_0@),
        r is Err ==> spec_decode_things(data@, entry@) == Err::<Seq<Thing>, WadErrorModel>(
            r->Err_0@,
        ),
{
    let region = match lump_region(data, entry, 10) {
        Ok(region) => region,
        Err(e) => {
            return Err(e);
        },
    };
    let len = region.len();
    let count = len / 10;
    let mut v: Vec<Thing> = Vec::new();
    let mut k: usize = 0;
    while k < count
        invariant
            0 <= k <= count,
            count == len / 10,
            len == region@.len(),
            len % 10 == 0,
            v@.len() == k,
            forall|i: int|
                0 <= i < k ==> v@[i] == spec_decode_thing(
                    #[trigger] region@.subrange(i * 10, i * 10 + 10),
                ),
        decreases count - k,
    {
        let chunk = vstd::slice::slice_subrange(region, k * 10, k * 10 + 10);
        v.push(decode_thing(chunk));
        k = k + 1;
    }
    proof {
        assert(v@ =~= Seq::new(
            (region@.len() / THING_SIZE as nat) as nat,
            |i: int| spec_decode_thing(region@.subrange(i * 10, i * 10 + 10)),
        ));
    }
    Ok(v)
}

/// Decodes a wall-face lump: consecutive 30-byte records.
pub open spec fn spec_decode_sidedefs(data: Seq<u8>, entry: DirectoryEntryModel) -> Result<
    Seq<SideDefModel>,
    WadErrorModel,
> {
    match spec_lump_region(data, entry, SIDEDEF_SIZE as int) {
        Err(e) => Err(e),
        Ok(bytes) => Ok(
            Seq::new(
                (bytes.len() / SIDEDEF_SIZE as nat) as nat,
                |i: int| spec_decode_sidedef(bytes.subrange(i * 30, i * 30 + 30)),
            ),
        ),
    }
}

/// Reads the wall-face records of one lump.
pub fn decode_sidedefs(data: &[u8], entry: &DirectoryEntry) -> (r: Result<Vec<SideDef>, WadError>)
    ensures
        r is Ok <==> spec_decode_sidedefs(data@, entry@) is Ok,
        r is Ok ==> spec_decode_sidedefs(data@, entry@) == Ok::<Seq<SideDefModel>, WadErrorModel>(
            r->Ok_0.deep_view(),
        ),
        r is Err ==> spec_decode_sidedefs(data@, entry@) == Err::<Seq<SideDefModel>, WadErrorModel>(
            r->Err_0@,
        ),
{
    let region = match lump_region(data, entry, 30) {
        Ok(region) => region,
        Err(e) => {
            return Err(e);
        },
    };
    let len = region.len();
    let count = len / 30;
    let mut v: Vec<SideDef> = Vec::new();
    let mut k: usize = 0;
    while k < count
        invariant
            0 <= k <= count,
            count == len / 30,
            len == region@.len(),
            len % 30 == 0,
            v.deep_view().len() == k,
            forall|i: int|
                0 <= i < k ==> v.deep_view()[i] == spec_decode_sidedef(
                    #[trigger] region@.subrange(i * 30, i * 30 + 30),
                ),
        decreases count - k,
    {
        let chunk = vstd::slice::slice_subrange(region, k * 30, k * 30 + 30);
        let ghost pre = v.deep_view();
        let side = decode_sidedef(chunk);
        let ghost side_model = side@;
        v.push(side);
        proof {
            assert(v.deep_view() =~= pre.push(side_model));
        }
        k = k + 1;
    }
    proof {
        assert(v.deep_view() =~= Seq::new(
            (region@.len() / SIDEDEF_SIZE as nat) as nat,
            |i: int| spec_decode_sidedef(region@.subrange(i * 30, i * 30 + 30)),
        ));
    }
    Ok(v)
}

/// Decodes the room record at position `i` of a room lump's bytes; fails with
/// the record's index when a surface texture field holds no valid text.
pub open spec fn spec_sector_at(bytes: Seq<u8>, lump: Seq<char>, i: int) -> Result<
    SectorModel,
    WadErrorModel,
> {
    match spec_decode_sector(bytes.subrange(i * 26, i * 26 + 26)) {
        Some(s) => Ok(s),
        None => Err(
            WadErrorModel::FormatError(
                FormatIssueModel::BadTexture { lump, record: i as usize },
            ),
        ),
    }
}

/// Decodes room records `i` up to `n`, stopping at the first failure.
pub open spec fn spec_sectors_from(bytes: Seq<u8>, lump: Seq<char>, n: int, i: int) -> Result<
    Seq<SectorModel>,
    WadErrorModel,
>
    decreases n - i,
{
    if i >= n {
        Ok(Seq::empty())
    } else {
        match spec_sector_at(bytes, lump, i) {
            Err(e) => Err(e),
            Ok(s) => match spec_sectors_from(bytes, lump, n, i + 1) {
                Ok(rest) => Ok(seq![s] + rest),
                Err(e) => Err(e),
            },
        }
    }
}

/// Decodes a room lump: consecutive 26-byte records, each of which must carry
/// valid surface texture names.
pub open spec fn spec_decode_sectors(data: Seq<u8>, entry: DirectoryEntryModel) -> Result<
    Seq<SectorModel>,
    WadErrorModel,
> {
    match spec_lump_region(data, entry, SECTOR_SIZE as int) {
        Err(e) => Err(e),
        Ok(bytes) => spec_sectors_from(bytes, entry.name, bytes.len() as int / 26, 0),
    }
}

/// When every room record in `i..n` decodes, the tail decodes to exactly
/// those records in order.
proof fn lemma_sectors_from_ok(bytes: Seq<u8>, lump: Seq<char>, n: int, i: int)
    requires
        forall|j: int| i <= j < n ==> #[trigger] spec_sector_at(bytes, lump, j) is Ok,
    ensures
        spec_sectors_from(bytes, lump, n, i) is Ok,
        spec_sectors_from(bytes, lump, n, i)->Ok_0 =~= Seq::new(
            (if n >= i {
                (n - i) as nat
            } else {
                0nat
            }),
            |k: int| spec_sector_at(bytes, lump, i + k)->Ok_0,
        ),
    decreases n - i,
{
    if i < n {
        lemma_sectors_from_ok(bytes, lump, n, i + 1);
    }
}

/// The first failing room record decides the whole lump's failure.
proof fn lemma_sectors_from_err(bytes: Seq<u8>, lump: Seq<char>, n: int, i: int, j: int)
    requires
        i <= j < n,
        forall|k: int| i <= k < j ==> #[trigger] spec_sector_at(bytes, lump, k) is Ok,
        spec_sector_at(bytes, lump, j) is Err,
    ensures
        spec_sectors_from(bytes, lump, n, i) == Err::<Seq<SectorModel>, WadErrorModel>(
            spec_sector_at(bytes, lump, j)->Err_0,
        ),
    decreases n - i,
{
    if i < j {
        lemma_sectors_from_err(bytes, lump, n, i + 1, j);
    }
}

/// Reads the room records of one lump.
pub fn decode_sectors(data: &[u8], entry: &DirectoryEntry) -> (r: Result<Vec<Sector>, WadError>)
    ensures
        r is Ok <==> spec_decode_sectors(data@, entry@) is Ok,
        r is Ok ==> spec_decode_sectors(data@, entry@) == Ok::<Seq<SectorModel>, WadErrorModel>(
            r->Ok_0.deep_view(),
        ),
        r is Err ==> spec_decode_sectors(data@, entry@) == Err::<Seq<SectorModel>, WadErrorModel>(
            r->Err_0@,
        ),
{
    let region = match lump_region(data, entry, 26) {
        Ok(region) => region,
        Err(e) => {
            return Err(e);
        },
    };
    let ghost lump = entry@.name;
    let len = region.len();
    let count = len / 26;
    let mut v: Vec<Sector> = Vec::new();
    let mut k: usize = 0;
    while k < count
        invariant
            0 <= k <= count,
            count == len / 26,
            len == region@.len(),
            len % 26 == 0,
            lump == entry@.name,
            spec_lump_region(data@, entry@, SECTOR_SIZE as int) == Ok::<Seq<u8>, WadErrorModel>(
                region@,
            ),
            v.deep_view().len() == k,
            forall|i: int|
                0 <= i < k ==> #[trigger] spec_sector_at(region@, lump, i) == Ok::<
                    SectorModel,
                    WadErrorModel,
                >(v.deep_view()[i]),
        decreases count - k,
    {
        let chunk = vstd::slice::slice_subrange(region, k * 26, k * 26 + 26);
        match decode_sector(chunk) {
            Some(sector) => {
                let ghost pre = v.deep_view();
                let ghost sector_model = sector@;
                proof {
                    assert(spec_sector_at(region@, lump, k as int) == Ok::<
                        SectorModel,
                        WadErrorModel,
                    >(sector_model));
                }
                v.push(sector);
                proof {
                    assert(v.deep_view() =~= pre.push(sector_model));
                }
            },
            None => {
                let err = WadError::FormatError(
                    crate::errors::FormatIssue::BadTexture { lump: entry.name.clone(), record: k },
                );
                proof {
                    lemma_sectors_from_err(region@, lump, count as int, 0, k as int);
                }
                return Err(err);
            },
        }
        k = k + 1;
    }
    proof {
        lemma_sectors_from_ok(region@, lump, count as int, 0);
        assert(spec_sectors_from(region@, lump, count as int, 0)->Ok_0 =~= v.deep_view());
    }
    Ok(v)
}

} // verus!
