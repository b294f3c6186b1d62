//! Container header and flat lump directory.
//!
//! The container opens with a fixed 12-byte header: a 4-byte signature that
//! must be one of two recognized tags, then two little-endian 32-bit fields,
//! the directory entry count and the directory byte offset. The directory is
//! `entry count` consecutive 16-byte records, each holding a lump's offset,
//! size and 8-byte name.

use vstd::bytes::lemma_auto_spec_u32_to_from_le_bytes;
use vstd::bytes::u32_to_le_bytes;
use vstd::bytes::spec_u32_to_le_bytes;
use vstd::prelude::*;
use vstd::utf8::encode_utf8;

use crate::errors::FormatIssue;
use crate::errors::FormatIssueModel;
use crate::errors::WadError;
use crate::errors::WadErrorModel;
use crate::name::encode_name;
use crate::name::is_name_end_byte;
use crate::name::lemma_name_round_trip;
use crate::name::spec_encode_name;
use crate::records::decode_entry;
use crate::records::spec_decode_entry;
use crate::records::spec_i32_at;
use crate::records::DirectoryEntry;
use crate::records::DirectoryEntryModel;
use crate::records::WadType;
use crate::records::DIRECTORY_ENTRY_SIZE;

verus! {

/// The decoded 12-byte container header.
#[derive(Clone, Copy, Debug, PartialEq, Eq, Structural)]
pub struct WadHeader {
    pub wad_type: WadType,
    pub num_entries: i32,
    pub directory_offset: i32,
}

/// The first four bytes spell the primary container tag.
pub open spec fn is_iwad_signature(data: Seq<u8>) -> bool {
    data.len() >= 4 && data[0] == 0x49u8 && data[1] == 0x57u8 && data[2] == 0x41u8 && data[3]
        == 0x44u8
}

/// The first four bytes spell the patch container tag.
pub open spec fn is_pwad_signature(data: Seq<u8>) -> bool {
    data.len() >= 4 && data[0] == 0x50u8 && data[1] == 0x57u8 && data[2] == 0x41u8 && data[3]
        == 0x44u8
}

/// Decodes the container header: the signature must be a recognized tag and
/// the container must hold the full 12 header bytes.
pub open spec fn spec_decode_header(data: Seq<u8>) -> Result<WadHeader, WadErrorModel> {
    if data.len() < 12 {
        Err(WadErrorModel::IoError)
    } else if is_iwad_signature(data) {
        Ok(
            WadHeader {
                wad_type: WadType::IWAD,
                num_entries: spec_i32_at(data, 4),
                directory_offset: spec_i32_at(data, 8),
            },
        )
    } else if is_pwad_signature(data) {
        Ok(
            WadHeader {
                wad_type: WadType::PWAD,
                num_entries: spec_i32_at(data, 4),
                directory_offset: spec_i32_at(data, 8),
            },
        )
    } else {
        Err(WadErrorModel::FormatError(FormatIssueModel::BadSignature))
    }
}

/// Reads the 12-byte container header from the front of the container.
pub fn decode_header(data: &[u8]) -> (r: Result<WadHeader, WadError>)
    ensures
        r is Ok <==> spec_decode_header(data@) is Ok,
        r is Ok ==> r->Ok_0 == spec_decode_header(data@)->Ok_0,
        r is Err ==> spec_decode_header(data@) == Err::<WadHeader, WadErrorModel>(r->Err_0@),
{
    let n = data.len();
    if n < 12 {
        return Err(WadError::IoError);
    }
    let iwad = data[0] == 0x49u8 && data[1] == 0x57u8 && data[2] == 0x41u8 && data[3] == 0x44u8;
    let pwad = data[0] == 0x50u8 && data[1] == 0x57u8 && data[2] == 0x41u8 && data[3] == 0x44u8;
    if !iwad && !pwad {
        return Err(WadError::FormatError(FormatIssue::BadSignature));
    }
    let wad_type = if iwad {
        WadType::IWAD
    } else {
        WadType::PWAD
    };
    let num_entries = crate::records::i32_at(data, 4);
    let directory_offset = crate::records::i32_at(data, 8);
    Ok(WadHeader { wad_type, num_entries, directory_offset })
}

/// Decodes the directory entry at position `i` of a directory starting at
/// byte `offset`: its 16 bytes must lie inside the container and its name
/// field must decode as text.
pub open spec fn spec_entry_at(data: Seq<u8>, offset: int, i: int) -> Result<
    DirectoryEntryModel,
    WadErrorModel,
> {
    let off = offset + i * DIRECTORY_ENTRY_SIZE;
    if off < 0 || off + DIRECTORY_ENTRY_SIZE > data.len() {
        Err(WadErrorModel::IoError)
    } else {
        match spec_decode_entry(data.subrange(off, off + DIRECTORY_ENTRY_SIZE)) {
            Some(e) => Ok(e),
            None => Err(
                WadErrorModel::FormatError(
                    FormatIssueModel::BadName { entry: i as usize, offset: off as usize },
                ),
            ),
        }
    }
}

/// Decodes directory entries `i` up to `n`, stopping at the first failure.
pub open spec fn spec_entries_from(data: Seq<u8>, offset: int, n: int, i: int) -> Result<
    Seq<DirectoryEntryModel>,
    WadErrorModel,
>
    decreases n - i,
{
    if i >= n {
        Ok(Seq::empty())
    } else {
        match spec_entry_at(data, offset, i) {
            Err(e) => Err(e),
            Ok(entry) => match spec_entries_from(data, offset, n, i + 1) {
                Ok(rest) => Ok(seq![entry] + rest),
                Err(e) => Err(e),
            },
        }
    }
}

/// Decodes the whole directory named by a header.
pub open spec fn spec_decode_directory(data: Seq<u8>, offset: i32, num_entries: i32) -> Result<
    Seq<DirectoryEntryModel>,
    WadErrorModel,
> {
    spec_entries_from(data, offset as int, num_entries as int, 0)
}

/// When every entry in `i..n` decodes, so does the whole tail, to exactly
/// those entries in order.
proof fn lemma_entries_from_ok(data: Seq<u8>, offset: int, n: int, i: int)
    requires
        forall|j: int| i <= j < n ==> #[trigger] spec_entry_at(data, offset, j) is Ok,
    ensures
        spec_entries_from(data, offset, n, i) is Ok,
        spec_entries_from(data, offset, n, i)->Ok_0 =~= Seq::new(
            (if n >= i {
                (n - i) as nat
            } else {
                0nat
            }),
            |k: int| spec_entry_at(data, offset, i + k)->Ok_0,
        ),
    decreases n - i,
{
    if i < n {
        lemma_entries_from_ok(data, offset, n, i + 1);
    }
}

/// The first failing entry decides the whole directory's failure.
proof fn lemma_entries_from_err(data: Seq<u8>, offset: int, n: int, i: int, j: int)
    requires
        i <= j < n,
        forall|k: int| i <= k < j ==> #[trigger] spec_entry_at(data, offset, k) is Ok,
        spec_entry_at(data, offset, j) is Err,
    ensures
        spec_entries_from(data, offset, n, i) == Err::<Seq<DirectoryEntryModel>, WadErrorModel>(
            spec_entry_at(data, offset, j)->Err_0,
        ),
    decreases n - i,
{
    if i < j {
        lemma_entries_from_err(data, offset, n, i + 1, j);
    }
}

/// Reads the directory: `num_entries` consecutive 16-byte entries starting at
/// byte `offset` of the container. Fails with the error of the first entry
/// that cannot be read or decoded; a non-positive entry count yields an empty
/// directory.
pub fn decode_directory(data: &[u8], offset: i32, num_entries: i32) -> (r: Result<
    Vec<DirectoryEntry>,
    WadError,
>)
    ensures
        r is Ok <==> spec_decode_directory(data@, offset, num_entries) is Ok,
        r is Ok ==> spec_decode_directory(data@, offset, num_entries)->Ok_0
            == r->Ok_0.deep_view(),
        r is Err ==> spec_decode_directory(data@, offset, num_entries) == Err::<
            Seq<DirectoryEntryModel>,
            WadErrorModel,
        >(r->Err_0@),
{
    let ghost goff = offset as int;
    let ghost gn = num_entries as int;
    let data_len = data.len();
    let n: usize = if num_entries <= 0 {
        0
    } else {
        num_entries as usize
    };
    let mut entries: Vec<DirectoryEntry> = Vec::new();
    let mut i: usize = 0;
    while i < n
        invariant
            0 <= i <= n,
            n == if gn >= 0 {
                gn
            } else {
                0
            },
            data_len == data@.len(),
            goff == offset as int,
            gn == num_entries as int,
            entries.deep_view().len() == i,
            forall|j: int|
                0 <= j < i ==> #[trigger] spec_entry_at(data@, goff, j) == Ok::<
                    DirectoryEntryModel,
                    WadErrorModel,
                >(entries.deep_view()[j]),
        decreases n - i,
    {
        let ghost gi = i as int;
        // The entry's byte offset, computed wide enough that it cannot wrap.
        if offset < 0 {
            proof {
                assert(spec_entry_at(data@, goff, gi) is Err);
                lemma_entries_from_err(data@, goff, gn, 0, gi);
            }
            return Err(WadError::IoError);
        }
        let off64: u64 = (offset as u64) + (i as u64) * 16;
        proof {
            assert(off64 == goff + gi * 16);
        }
        if off64 + 16 > data_len as u64 {
            proof {
                assert(spec_entry_at(data@, goff, gi) is Err);
                lemma_entries_from_err(data@, goff, gn, 0, gi);
            }
            return Err(WadError::IoError);
        }
        let off: usize = off64 as usize;
        let chunk = vstd::slice::slice_subrange(data, off, off + 16);
        match decode_entry(chunk) {
            Some(entry) => {
                let ghost pre = entries.deep_view();
                let ghost entry_model = entry@;
                proof {
                    assert(spec_entry_at(data@, goff, gi) == Ok::<
                        DirectoryEntryModel,
                        WadErrorModel,
                    >(entry_model));
                }
                entries.push(entry);
                proof {
                    assert(entries.deep_view() =~= pre.push(entry_model));
                }
            },
            None => {
                let err = WadError::FormatError(FormatIssue::BadName { entry: i, offset: off });
                proof {
                    assert(spec_entry_at(data@, goff, gi) == Err::<
                        DirectoryEntryModel,
                        WadErrorModel,
                    >(
                        WadErrorModel::FormatError(
                            FormatIssueModel::BadName { entry: gi as usize, offset: off as usize },
                        ),
                    ));
                    lemma_entries_from_err(data@, goff, gn, 0, gi);
                }
                return Err(err);
            },
        }
        i = i + 1;
    }
    proof {
        lemma_entries_from_ok(data@, goff, gn, 0);
        if gn >= 0 {
            assert(spec_entries_from(data@, goff, gn, 0)->Ok_0 =~= entries.deep_view());
        } else {
            assert(spec_entries_from(data@, goff, gn, 0) =~= Ok::<
                Seq<DirectoryEntryModel>,
                WadErrorModel,
            >(Seq::empty()));
            assert(entries.deep_view() =~= Seq::<DirectoryEntryModel>::empty());
        }
    }
    Ok(entries)
}

/// A name that a 16-byte directory entry can carry: its UTF-8 bytes fit the
/// 8-byte field and none of them would end the field early.
pub open spec fn encodable_name(s: Seq<char>) -> bool {
    encode_utf8(s).len() <= 8 && forall|i: int|
        0 <= i < encode_utf8(s).len() ==> !is_name_end_byte(#[trigger] encode_utf8(s)[i])
}

/// The 16-byte layout of a directory entry: 32-bit little-endian offset and
/// size, then the 8-byte name field.
pub open spec fn spec_encode_entry(e: DirectoryEntryModel) -> Seq<u8> {
    spec_u32_to_le_bytes(e.offset as u32) + spec_u32_to_le_bytes(e.size as u32) + spec_encode_name(
        e.name,
        8,
    )
}

/// Encodes a directory entry into its 16-byte record.
pub fn encode_directory_entry(e: &DirectoryEntry) -> (r: Vec<u8>)
    requires
        encodable_name(e.name@),
    ensures
        r@ == spec_encode_entry(e@),
        r@.len() == DIRECTORY_ENTRY_SIZE,
{
    proof {
        lemma_auto_spec_u32_to_from_le_bytes();
    }
    let mut r = u32_to_le_bytes(e.offset as u32);
    let mut size_bytes = u32_to_le_bytes(e.size as u32);
    let mut name_bytes = encode_name(e.name.as_str(), 8);
    r.append(&mut size_bytes);
    r.append(&mut name_bytes);
    proof {
        assert(r@ =~= spec_encode_entry(e@));
    }
    r
}

/// Round trip for directory entries: encoding an entry whose name fits the
/// 8-byte field and decoding the record yields the entry back.
pub proof fn lemma_entry_round_trip(e: DirectoryEntryModel)
    requires
        encodable_name(e.name),
    ensures
        spec_decode_entry(spec_encode_entry(e)) == Some(e),
{
    lemma_auto_spec_u32_to_from_le_bytes();
    let chunk = spec_encode_entry(e);
    assert(spec_u32_to_le_bytes(e.offset as u32).len() == 4);
    assert(spec_u32_to_le_bytes(e.size as u32).len() == 4);
    assert(chunk.len() == 16);
    assert(chunk.subrange(0, 4) =~= spec_u32_to_le_bytes(e.offset as u32));
    assert(chunk.subrange(4, 8) =~= spec_u32_to_le_bytes(e.size as u32));
    assert(chunk.subrange(8, 16) =~= spec_encode_name(e.name, 8));
    let off_field = e.offset;
    let size_field = e.size;
    assert(spec_i32_at(chunk, 0) == e.offset) by {
        assert((off_field as u32) as i32 == off_field) by (bit_vector);
    }
    assert(spec_i32_at(chunk, 4) == e.size) by {
        assert((size_field as u32) as i32 == size_field) by (bit_vector);
    }
    lemma_name_round_trip(e.name, 8);
    let decoded = spec_decode_entry(chunk);
    assert(decoded is Some);
    assert(decoded->0 == e);
}

} // verus!
