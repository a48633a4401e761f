//! The SqPack index file format.
use vstd::prelude::*;

pub(crate) mod bytes;
pub mod common;
pub mod crc;
pub mod index;

pub use index::{
    DataEntry, FileEntry, FileEntryData, FolderEntry, FolderEntryInfo, IndexEntry,
    IndexType, SegementDescriptor, SqPackIndex, SqPackIndexHeader,
};

use crate::sqpack::bytes::{read_array, read_u32, read_u8, spec_in_bounds, spec_u32_at};
use crate::sqpack::common::{Endian, Platform};

verus! {

/// The type of this `SqPack` file.
#[derive(Debug, Clone, Copy, PartialEq, Eq, Structural)]
pub(crate) enum SqPackFileType {
    /// FFXIV Explorer says "SQDB", whatever that is.
    Sqdb,
    /// Dat files.
    Data,
    /// Index/Index2 files.
    Index,
}

impl SqPackFileType {
    pub(crate) open spec fn spec_from_repr(v: u32) -> Option<SqPackFileType> {
        if v == 0x0 {
            Some(SqPackFileType::Sqdb)
        } else if v == 0x1 {
            Some(SqPackFileType::Data)
        } else if v == 0x2 {
            Some(SqPackFileType::Index)
        } else {
            None
        }
    }

    pub(crate) fn from_repr(v: u32) -> (r: Option<SqPackFileType>)
        ensures
            r == Self::spec_from_repr(v),
    {
        if v == 0x0 {
            Some(SqPackFileType::Sqdb)
        } else if v == 0x1 {
            Some(SqPackFileType::Data)
        } else if v == 0x2 {
            Some(SqPackFileType::Index)
        } else {
            None
        }
    }
}

/// The eight bytes that every SqPack file starts with: `SqPack` and two zero bytes.
pub open spec fn sqpack_magic() -> Seq<u8> {
    seq![0x53u8, 0x71u8, 0x50u8, 0x61u8, 0x63u8, 0x6bu8, 0x00u8, 0x00u8]
}

/// Offset of the platform byte in the file header; the field is padded to four bytes.
pub const HEADER_PLATFORM_AT: u64 = 8;

/// Offsets of the `u32` fields of the file header.
pub const HEADER_SIZE_AT: u64 = 12;

pub const HEADER_VERSION_AT: u64 = 16;

pub const HEADER_FILE_TYPE_AT: u64 = 20;

pub const HEADER_UNK1_AT: u64 = 24;

pub const HEADER_UNK2_AT: u64 = 28;

/// Offset of the region byte of the file header.
pub const HEADER_REGION_AT: u64 = 32;

/// Offset of the SHA-1 digest in the file header: 924 bytes of padding follow
/// the region byte; 44 more bytes of padding, which are skipped and never read,
/// follow the digest.
pub const HEADER_SHA1_AT: u64 = 957;

#[derive(Debug, Clone)]
pub(crate) struct SqPackHeader {
    pub(crate) platform: Platform,
    /// The size of this header in bytes.
    pub size: u32,
    /// Have only seen version 1.
    pub(crate) version: u32,
    pub(crate) file_type: SqPackFileType,
    // Some unknown value, zeroed out for index files.
    pub(crate) unk1: u32,
    pub(crate) unk2: u32,
    // Possibly the region.
    pub(crate) region: u8,
    /// The SHA1 of the bytes immediately before this.
    pub(crate) sha1_hash: [u8; 20],
}

impl SqPackHeader {
    /// Whether a file header can be read from the start of `b`.
    pub(crate) open spec fn spec_readable(b: Seq<u8>, endian: Endian) -> bool {
        &&& spec_in_bounds(b, HEADER_SHA1_AT as int, 20)
        &&& b.subrange(0, 8) == sqpack_magic()
        &&& Platform::spec_from_repr(b[HEADER_PLATFORM_AT as int]) is Some
        &&& SqPackFileType::spec_from_repr(spec_u32_at(b, HEADER_FILE_TYPE_AT as int, endian)) is Some
    }

    /// Whether `self` is the file header stored at the start of `b`.
    pub(crate) open spec fn spec_read_from(self, b: Seq<u8>, endian: Endian) -> bool {
        &&& Platform::spec_from_repr(b[HEADER_PLATFORM_AT as int]) == Some(self.platform)
        &&& self.size == spec_u32_at(b, HEADER_SIZE_AT as int, endian)
        &&& self.version == spec_u32_at(b, HEADER_VERSION_AT as int, endian)
        &&& SqPackFileType::spec_from_repr(spec_u32_at(b, HEADER_FILE_TYPE_AT as int, endian))
            == Some(self.file_type)
        &&& self.unk1 == spec_u32_at(b, HEADER_UNK1_AT as int, endian)
        &&& self.unk2 == spec_u32_at(b, HEADER_UNK2_AT as int, endian)
        &&& self.region == b[HEADER_REGION_AT as int]
        &&& self.sha1_hash@ == b.subrange(HEADER_SHA1_AT as int, HEADER_SHA1_AT + 20)
    }

    /// Reads the file header at the start of `b`.
    pub(crate) fn read(b: &[u8], endian: Endian) -> (r: Option<SqPackHeader>)
        ensures
            r is Some <==> Self::spec_readable(b@, endian),
            r matches Some(h) ==> h.spec_read_from(b@, endian),
    {
        if (b.len() as u64) < HEADER_SHA1_AT + 20 {
            return None;
        }
        let mut i: usize = 0;
        while i < 8
            invariant
                i <= 8,
                b@.len() >= 8,
                forall|j: int| 0 <= j < i ==> b@[j] == sqpack_magic()[j],
            decreases 8 - i,
        {
            let expected: u8 = match i {
                0 => 0x53,
                1 => 0x71,
                2 => 0x50,
                3 => 0x61,
                4 => 0x63,
                5 => 0x6b,
                _ => 0x00,
            };
            if b[i] != expected {
                assert(b@.subrange(0, 8)[i as int] != sqpack_magic()[i as int]);
                return None;
            }
            i = i + 1;
        }
        assert(b@.subrange(0, 8) =~= sqpack_magic());
        let platform = match read_u8(b, HEADER_PLATFORM_AT) {
            Some(p) => match Platform::from_repr(p) {
                Some(platform) => platform,
                None => return None,
            },
            None => return None,
        };
        let size = read_u32(b, HEADER_SIZE_AT, endian).unwrap();
        let version = read_u32(b, HEADER_VERSION_AT, endian).unwrap();
        let file_type = match SqPackFileType::from_repr(
            read_u32(b, HEADER_FILE_TYPE_AT, endian).unwrap(),
        ) {
            Some(t) => t,
            None => return None,
        };
        let unk1 = read_u32(b, HEADER_UNK1_AT, endian).unwrap();
        let unk2 = read_u32(b, HEADER_UNK2_AT, endian).unwrap();
        let region = read_u8(b, HEADER_REGION_AT).unwrap();
        let sha1_hash = read_array::<20>(b, HEADER_SHA1_AT).unwrap();
        Some(SqPackHeader { platform, size, version, file_type, unk1, unk2, region, sha1_hash })
    }
}

} // verus!
