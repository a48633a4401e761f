//! Index files: a header that locates three tables, the table of file entries,
//! a table of data entries and the table of folder entries.
use vstd::prelude::*;

use crate::sqpack::bytes::{
    lemma_u32_bytes_roundtrip, read_array, read_u32, spec_in_bounds, spec_u32_at, spec_u32_bytes,
    u32_bytes,
};
use crate::sqpack::common::{Endian, Platform};
use crate::search::{first_index, lemma_first_index, lemma_first_index_is, lemma_first_index_none};
use crate::sqpack::crc::{checksum, checksum_range, spec_checksum};
use crate::sqpack::SqPackHeader;
use crate::text::{
    chars_of, spec_ascii_lowercase, spec_ascii_lowercase_bytes, spec_ascii_lowercase_char,
    spec_lowercase_bytes, spec_to_lowercase, to_lowercase,
};
use vstd::utf8::{encode_utf8, is_ascii_chars};
use vstd::string::{StrSliceExecFns, StringSliceAdditionalSpecFns};

verus! {

/// Offsets of the fields of a segment descriptor, from its start.
pub const DESCRIPTOR_COUNT_AT: u64 = 0;

pub const DESCRIPTOR_OFFSET_AT: u64 = 4;

pub const DESCRIPTOR_SIZE_AT: u64 = 8;

pub const DESCRIPTOR_SHA1_AT: u64 = 12;

/// Offsets of the fields of an index header, from its start (which the file
/// header's `size` gives). Each descriptor takes 72 bytes, 40 of them padding;
/// four more bytes of padding follow the file and the folder descriptors.
pub const INDEX_HEADER_SIZE_AT: u64 = 0;

pub const FILE_DESCRIPTOR_AT: u64 = 4;

pub const DATA_DESCRIPTOR_AT: u64 = 80;

pub const UNKNOWN_DESCRIPTOR_AT: u64 = 152;

pub const FOLDER_DESCRIPTOR_AT: u64 = 224;

pub const INDEX_TYPE_AT: u64 = 300;

/// 652 bytes of padding precede the digest, 44 follow it.
pub const INDEX_HEADER_SHA1_AT: u64 = 956;

/// The size of a data entry.
pub const DATA_ENTRY_SIZE: u64 = 256;

/// The distance between two folder entries; the last four bytes of each are padding.
pub const FOLDER_ENTRY_STRIDE: u64 = 16;

/// The bytes of a folder entry that are read.
pub const FOLDER_ENTRY_READ: u64 = 12;

/// The size of a file entry of an `.index` file, by which the file
/// descriptor's size is divided to count the file entries.
pub const FILE_ENTRY_SIZE: u64 = 16;

/// A bound on the positions at which the headers are read: the file header's
/// `size` plus the length of an index header.
pub open spec fn position_bound() -> int {
    0x1_0000_1000
}

#[derive(Debug, Clone)]
pub struct SegementDescriptor {
    count: u32,
    offset: u32,
    size: u32,
    sha1_hash: [u8; 20],
}

impl SegementDescriptor {
    /// Whether `self` is the descriptor stored at `b[pos..]`.
    pub closed spec fn spec_read_from(self, b: Seq<u8>, pos: int, endian: Endian) -> bool {
        &&& self.count == spec_u32_at(b, pos + DESCRIPTOR_COUNT_AT, endian)
        &&& self.offset == spec_u32_at(b, pos + DESCRIPTOR_OFFSET_AT, endian)
        &&& self.size == spec_u32_at(b, pos + DESCRIPTOR_SIZE_AT, endian)
        &&& self.sha1_hash@ == b.subrange(pos + DESCRIPTOR_SHA1_AT, pos + DESCRIPTOR_SHA1_AT + 20)
    }

    pub closed spec fn spec_offset(self) -> u32 {
        self.offset
    }

    pub closed spec fn spec_size(self) -> u32 {
        self.size
    }

    /// Reads the descriptor at `b[pos..]`; its bytes must exist.
    fn read(b: &[u8], pos: u64, endian: Endian) -> (r: SegementDescriptor)
        requires
            spec_in_bounds(b@, pos as int, DESCRIPTOR_SHA1_AT + 20),
            pos <= position_bound(),
        ensures
            r.spec_read_from(b@, pos as int, endian),
            r.spec_offset() == spec_u32_at(b@, pos + DESCRIPTOR_OFFSET_AT, endian),
            r.spec_size() == spec_u32_at(b@, pos + DESCRIPTOR_SIZE_AT, endian),
    {
        SegementDescriptor {
            count: read_u32(b, pos + DESCRIPTOR_COUNT_AT, endian).unwrap(),
            offset: read_u32(b, pos + DESCRIPTOR_OFFSET_AT, endian).unwrap(),
            size: read_u32(b, pos + DESCRIPTOR_SIZE_AT, endian).unwrap(),
            sha1_hash: read_array::<20>(b, pos + DESCRIPTOR_SHA1_AT).unwrap(),
        }
    }
}

#[derive(Debug, PartialEq, Eq, Structural, Clone, Copy)]
pub enum IndexType {
    /// `.index` files.
    Index1,
    /// `.index2` files.
    Index2,
}

impl IndexType {
    /// The index type that a header field stands for, if any.
    pub open spec fn spec_from_repr(v: u32) -> Option<IndexType> {
        if v == 0 {
            Some(IndexType::Index1)
        } else if v == 2 {
            Some(IndexType::Index2)
        } else {
            None
        }
    }

    /// The index type that a header field stands for, if any.
    pub fn from_repr(v: u32) -> (r: Option<IndexType>)
        ensures
            r == Self::spec_from_repr(v),
    {
        if v == 0 {
            Some(IndexType::Index1)
        } else if v == 2 {
            Some(IndexType::Index2)
        } else {
            None
        }
    }

    /// The bytes of a hash in a file entry of this index type.
    pub open spec fn spec_hash_len(self) -> u64 {
        match self {
            IndexType::Index1 => 8,
            IndexType::Index2 => 4,
        }
    }

    /// The bytes of a file entry of this index type: the hash, the data word,
    /// and, for `.index` files, four bytes of padding that are read too.
    pub open spec fn spec_entry_len(self) -> u64 {
        match self {
            IndexType::Index1 => 16,
            IndexType::Index2 => 8,
        }
    }

    fn entry_len(self) -> (r: u64)
        ensures
            r == self.spec_entry_len(),
    {
        match self {
            IndexType::Index1 => 16,
            IndexType::Index2 => 8,
        }
    }
}

#[derive(Debug, Clone)]
pub struct SqPackIndexHeader {
    /// The size of this header in bytes.
    size: u32,
    file_descriptor: SegementDescriptor,
    // Count in this descriptor correlates to the number of dat files.
    data_descriptor: SegementDescriptor,
    unknown_descriptor: SegementDescriptor,
    folder_descriptor: SegementDescriptor,
    pub(crate) index_type: IndexType,
    // The SHA1 of the bytes immediately before this
    sha1_hash: [u8; 20],
}

impl SqPackIndexHeader {
    /// Whether an index header can be read from `b[h..]`.
    pub open spec fn spec_readable(b: Seq<u8>, h: int, endian: Endian) -> bool {
        &&& spec_in_bounds(b, h + INDEX_HEADER_SHA1_AT, 20)
        &&& IndexType::spec_from_repr(spec_u32_at(b, h + INDEX_TYPE_AT, endian)) is Some
    }

    /// Whether `self` is the index header stored at `b[h..]`.
    pub closed spec fn spec_read_from(self, b: Seq<u8>, h: int, endian: Endian) -> bool {
        &&& self.size == spec_u32_at(b, h + INDEX_HEADER_SIZE_AT, endian)
        &&& self.file_descriptor.spec_read_from(b, h + FILE_DESCRIPTOR_AT, endian)
        &&& self.data_descriptor.spec_read_from(b, h + DATA_DESCRIPTOR_AT, endian)
        &&& self.unknown_descriptor.spec_read_from(b, h + UNKNOWN_DESCRIPTOR_AT, endian)
        &&& self.folder_descriptor.spec_read_from(b, h + FOLDER_DESCRIPTOR_AT, endian)
        &&& IndexType::spec_from_repr(spec_u32_at(b, h + INDEX_TYPE_AT, endian)) == Some(
            self.index_type,
        )
        &&& self.sha1_hash@ == b.subrange(
            h + INDEX_HEADER_SHA1_AT,
            h + INDEX_HEADER_SHA1_AT + 20,
        )
    }

    pub closed spec fn spec_index_type(self) -> IndexType {
        self.index_type
    }

    /// The offset of the file entries.
    pub closed spec fn spec_files_offset(self) -> u32 {
        self.file_descriptor.offset
    }

    /// Reads the index header at `b[h..]`.
    fn read(b: &[u8], h: u64, endian: Endian) -> (r: Option<SqPackIndexHeader>)
        requires
            h <= u32::MAX,
        ensures
            r is Some <==> Self::spec_readable(b@, h as int, endian),
            r matches Some(ih) ==> ih.spec_read_from(b@, h as int, endian),
    {
        if (b.len() as u64) < h + INDEX_HEADER_SHA1_AT + 20 {
            return None;
        }
        let index_type = match IndexType::from_repr(
            read_u32(b, h + INDEX_TYPE_AT, endian).unwrap(),
        ) {
            Some(t) => t,
            None => return None,
        };
        let r = SqPackIndexHeader {
            size: read_u32(b, h + INDEX_HEADER_SIZE_AT, endian).unwrap(),
            file_descriptor: SegementDescriptor::read(b, h + FILE_DESCRIPTOR_AT, endian),
            data_descriptor: SegementDescriptor::read(b, h + DATA_DESCRIPTOR_AT, endian),
            unknown_descriptor: SegementDescriptor::read(b, h + UNKNOWN_DESCRIPTOR_AT, endian),
            folder_descriptor: SegementDescriptor::read(b, h + FOLDER_DESCRIPTOR_AT, endian),
            index_type,
            sha1_hash: read_array::<20>(b, h + INDEX_HEADER_SHA1_AT).unwrap(),
        };
        Some(r)
    }
}

#[derive(PartialEq, Eq, Structural, Debug, Clone, Copy)]
pub enum Hash {
    // On the PS3 the two CRCs are stored the other way round.
    SplitPath { name: u32, path: u32 },
    FullPath(u32),
}

impl Hash {
    /// The hash stored at `b[pos..]` in a file entry of an index of type `index_type`:
    /// two CRCs (name, then path; path first on big-endian platforms) for
    /// `.index` files, one for `.index2` files.
    pub open spec fn spec_read(b: Seq<u8>, pos: int, index_type: IndexType, endian: Endian) -> Hash {
        let crc1 = spec_u32_at(b, pos, endian);
        match index_type {
            IndexType::Index1 => {
                let crc2 = spec_u32_at(b, pos + 4, endian);
                match endian {
                    Endian::Big => Hash::SplitPath { name: crc2, path: crc1 },
                    Endian::Little => Hash::SplitPath { name: crc1, path: crc2 },
                }
            },
            IndexType::Index2 => Hash::FullPath(crc1),
        }
    }

    /// Reads the hash stored at `b[pos..]` in a file entry of an index of type `index_type`.
    pub fn read_options(b: &[u8], pos: u64, index_type: IndexType, endian: Endian) -> (r: Option<
        Hash,
    >)
        requires
            pos <= u64::MAX - 8,
        ensures
            r == (if spec_in_bounds(b@, pos as int, index_type.spec_hash_len() as int) {
                Some(Self::spec_read(b@, pos as int, index_type, endian))
            } else {
                None
            }),
    {
        let crc1 = match read_u32(b, pos, endian) {
            Some(c) => c,
            None => return None,
        };
        match index_type {
            IndexType::Index1 => {
                let crc2 = match read_u32(b, pos + 4, endian) {
                    Some(c) => c,
                    None => return None,
                };
                match endian {
                    Endian::Big => Some(Hash::SplitPath { name: crc2, path: crc1 }),
                    Endian::Little => Some(Hash::SplitPath { name: crc1, path: crc2 }),
                }
            },
            IndexType::Index2 => Some(Hash::FullPath(crc1)),
        }
    }

    /// The kind of index file that stores hashes of this form.
    pub open spec fn spec_index_type(self) -> IndexType {
        match self {
            Hash::SplitPath { .. } => IndexType::Index1,
            Hash::FullPath(_) => IndexType::Index2,
        }
    }

    /// The bytes that store this hash in the byte order `endian`.
    pub open spec fn spec_write(self, endian: Endian) -> Seq<u8> {
        match self {
            Hash::SplitPath { name, path } => match endian {
                Endian::Big => spec_u32_bytes(path, endian) + spec_u32_bytes(name, endian),
                Endian::Little => spec_u32_bytes(name, endian) + spec_u32_bytes(path, endian),
            },
            Hash::FullPath(crc) => spec_u32_bytes(crc, endian),
        }
    }

    /// The bytes that store this hash in the byte order `endian`.
    pub fn write_options(&self, endian: Endian) -> (r: Vec<u8>)
        ensures
            r@ == self.spec_write(endian),
    {
        match *self {
            Hash::SplitPath { name, path } => match endian {
                Endian::Big => {
                    let mut r = u32_bytes(path, endian);
                    let mut rest = u32_bytes(name, endian);
                    r.append(&mut rest);
                    r
                },
                Endian::Little => {
                    let mut r = u32_bytes(name, endian);
                    let mut rest = u32_bytes(path, endian);
                    r.append(&mut rest);
                    r
                },
            },
            Hash::FullPath(crc) => u32_bytes(crc, endian),
        }
    }
}

/// Reading back the bytes written for a hash, as the kind of index that stores
/// hashes of its form, gives the hash back.
pub proof fn lemma_hash_write_read_roundtrip(h: Hash, endian: Endian)
    ensures
        h.spec_write(endian).len() == h.spec_index_type().spec_hash_len(),
        Hash::spec_read(h.spec_write(endian), 0, h.spec_index_type(), endian) == h,
{
    match h {
        Hash::SplitPath { name, path } => {
            lemma_u32_bytes_roundtrip(name, endian);
            lemma_u32_bytes_roundtrip(path, endian);
            let w = h.spec_write(endian);
            match endian {
                Endian::Big => {
                    assert(w.subrange(4, 8) =~= spec_u32_bytes(name, endian));
                },
                Endian::Little => {
                    assert(w.subrange(4, 8) =~= spec_u32_bytes(path, endian));
                },
            }
        },
        Hash::FullPath(crc) => {
            lemma_u32_bytes_roundtrip(crc, endian);
        },
    }
}

#[derive(Debug, Clone)]
pub struct FileEntryData {
    pub is_synonym: bool,
    pub data_file_id: u8,
    pub offset: u64,
}

impl FileEntryData {
    /// The reordering of the bits of a big-endian (PS3) data word.
    pub open spec fn spec_ps3_reorder(d: u32) -> u32 {
        (d << 4) | ((d & 0x7000_0000) >> 27) | ((d & 0x8000_0000) >> 31)
    }

    /// The fields packed into a data word: the synonym bit, three bits of data
    /// file id, and the offset in units of eight bytes above the low four bits.
    pub open spec fn spec_unpack(d: u32) -> FileEntryData {
        FileEntryData {
            is_synonym: (d & 0b1) == 0b1,
            data_file_id: ((d & 0b1110) >> 1) as u8,
            offset: (((d & 0xFFFF_FFF0) as u64) * 0x08) as u64,
        }
    }

    /// The data stored in the word at `b[pos..]`.
    pub open spec fn spec_read(b: Seq<u8>, pos: int, endian: Endian) -> FileEntryData {
        let d = spec_u32_at(b, pos, endian);
        match endian {
            Endian::Big => Self::spec_unpack(Self::spec_ps3_reorder(d)),
            Endian::Little => Self::spec_unpack(d),
        }
    }

    /// Reads the data stored in the word at `b[pos..]`.
    pub fn read_options(b: &[u8], pos: u64, endian: Endian) -> (r: Option<FileEntryData>)
        ensures
            r == (if spec_in_bounds(b@, pos as int, 4) {
                Some(Self::spec_read(b@, pos as int, endian))
            } else {
                None
            }),
    {
        let mut data = match read_u32(b, pos, endian) {
            Some(d) => d,
            None => return None,
        };
        if endian == Endian::Big {
            data = (data << 4) | ((data & 0x7000_0000) >> 27) | ((data & 0x8000_0000) >> 31);
        }
        Some(
            FileEntryData {
                is_synonym: (data & 0b1) == 0b1,
                data_file_id: ((data & 0b1110) >> 1) as u8,
                offset: ((data & 0xFFFF_FFF0) as u64) * 0x08,
            },
        )
    }

    /// The word written for this data: the offset in units of eight bytes,
    /// truncated to 32 bits; the synonym bit and the data file id are not written.
    pub open spec fn spec_write(self, endian: Endian) -> Seq<u8> {
        spec_u32_bytes((self.offset / 0x08) as u32, endian)
    }

    /// The bytes written for this data.
    pub fn write_options(&self, endian: Endian) -> (r: Vec<u8>)
        ensures
            r@ == self.spec_write(endian),
    {
        let data: u32 = (self.offset / 0x08) as u32;
        u32_bytes(data, endian)
    }
}

/// Reading back the word written for file entry data, in little-endian order,
/// gives the data back when the word holds all of it: no synonym bit, data
/// file 0, and an offset that is a multiple of 128 below 2^35.
pub proof fn lemma_file_entry_data_write_read(d: FileEntryData)
    requires
        !d.is_synonym,
        d.data_file_id == 0,
        d.offset % 128 == 0,
        d.offset < 0x8_0000_0000,
    ensures
        FileEntryData::spec_read(d.spec_write(Endian::Little), 0, Endian::Little) == d,
{
    let w = (d.offset / 0x08) as u32;
    lemma_u32_bytes_roundtrip(w, Endian::Little);
    assert(w % 16 == 0);
    assert((w & 0b1) == 0 && ((w & 0b1110) >> 1) == 0 && (w & 0xFFFF_FFF0) == w) by (bit_vector)
        requires
            w % 16 == 0,
    ;
    assert(((w & 0xFFFF_FFF0) as u64) * 0x08 == d.offset);
}

#[derive(Debug, Clone)]
pub struct FileEntry {
    pub hash: Hash,
    pub data: FileEntryData,
}

impl FileEntry {
    /// The file entry stored at `b[pos..]` in an index of type `index_type`.
    pub open spec fn spec_read(b: Seq<u8>, pos: int, index_type: IndexType, endian: Endian) -> FileEntry {
        FileEntry {
            hash: Hash::spec_read(b, pos, index_type, endian),
            data: FileEntryData::spec_read(b, pos + index_type.spec_hash_len(), endian),
        }
    }
}

#[derive(Debug, Clone)]
pub struct DataEntry {
    // A bunch of 0xFFFFFFFF
    unk: [u8; 256],
}

impl DataEntry {
    /// Whether `self` is the data entry stored at `b[pos..]`.
    pub closed spec fn spec_read_from(self, b: Seq<u8>, pos: int) -> bool {
        self.unk@ == b.subrange(pos, pos + DATA_ENTRY_SIZE)
    }
}

#[derive(Debug, Clone)]
pub struct FolderEntry {
    // Hash of the full folder/directory path. Matches the `Hash::SplitPath` variant's `path` field
    pub hash: u32,
    // Offset into the index file to a `total_files_size` bytes long section containing `FileEntry`s that are in the  folder
    pub files_offset: u32,
    // Divide by 0x10 (the size of a `FileEntry` for `IndexType::Index1`, I think) to get the number of files
    pub total_files_size: u32,
}

impl FolderEntry {
    /// The folder entry stored at `b[pos..]`.
    pub open spec fn spec_read(b: Seq<u8>, pos: int, endian: Endian) -> FolderEntry {
        FolderEntry {
            hash: spec_u32_at(b, pos, endian),
            files_offset: spec_u32_at(b, pos + 4, endian),
            total_files_size: spec_u32_at(b, pos + 8, endian),
        }
    }
}

#[derive(Debug, PartialEq, Eq, Structural)]
pub struct IndexEntry {
    pub data_file_id: u8,
    pub offset: u64,
}

impl IndexEntry {
    /// The entry that a file entry describes: its data file and offset.
    pub open spec fn spec_from(entry: FileEntry) -> IndexEntry {
        IndexEntry { data_file_id: entry.data.data_file_id, offset: entry.data.offset }
    }
}

impl<'a> From<&'a FileEntry> for IndexEntry {
    fn from(entry: &'a FileEntry) -> (r: IndexEntry) {
        IndexEntry { data_file_id: entry.data.data_file_id, offset: entry.data.offset }
    }
}

impl<'a> vstd::std_specs::convert::FromSpecImpl<&'a FileEntry> for IndexEntry {
    open spec fn obeys_from_spec() -> bool {
        true
    }

    open spec fn from_spec(entry: &'a FileEntry) -> IndexEntry {
        IndexEntry::spec_from(*entry)
    }
}

#[derive(Debug, PartialEq, Eq, Structural)]
pub struct FolderEntryInfo {
    pub files_starting_index: usize,
    pub file_count: usize,
}

/// The size of a file entry of an `.index` file, by which folder offsets and sizes are divided.
pub const FOLDER_FILE_ENTRY_SIZE: usize = 0x10;

impl FolderEntryInfo {
    /// The range of file entries of a folder entry, given the offset `files_offset`
    /// at which the file entries start.
    pub open spec fn spec_new(files_offset: u32, folder_entry: FolderEntry) -> FolderEntryInfo {
        FolderEntryInfo {
            files_starting_index: ((folder_entry.files_offset - files_offset) / 0x10) as usize,
            file_count: (folder_entry.total_files_size / 0x10) as usize,
        }
    }

    /// The range of file entries of `folder_entry` in `index`. The folder's
    /// files offset must not lie before the index's file entries.
    pub fn new(index: &SqPackIndex, folder_entry: &FolderEntry) -> (r: FolderEntryInfo)
        requires
            folder_entry.files_offset >= index.spec_files_offset(),
        ensures
            r == Self::spec_new(index.spec_files_offset(), *folder_entry),
    {
        let offset = index.index_header.file_descriptor.offset;
        let files_starting_index = ((folder_entry.files_offset - offset) as usize)
            / FOLDER_FILE_ENTRY_SIZE;
        FolderEntryInfo {
            files_starting_index,
            file_count: (folder_entry.total_files_size as usize) / FOLDER_FILE_ENTRY_SIZE,
        }
    }
}

#[derive(Debug, Clone)]
pub struct SqPackIndex {
    sqpack_header: SqPackHeader,
    index_header: SqPackIndexHeader,
    pub entries: Vec<FileEntry>,
    pub data_entries: Vec<DataEntry>,
    pub folder_entries: Vec<FolderEntry>,
}

/// The `u32` field at `at` of the index header, whose start the file header's
/// `size` field gives.
pub open spec fn spec_index_header_field(b: Seq<u8>, at: int, endian: Endian) -> u32 {
    spec_u32_at(b, spec_u32_at(b, crate::sqpack::HEADER_SIZE_AT as int, endian) + at, endian)
}

/// The index type that the index header names.
pub open spec fn spec_header_index_type(b: Seq<u8>, endian: Endian) -> IndexType {
    IndexType::spec_from_repr(spec_index_header_field(b, INDEX_TYPE_AT as int, endian))->0
}

/// Where the file entries start, and how many there are: the file
/// descriptor's size divided by sixteen, whatever the index type.
pub open spec fn spec_file_entries_at(b: Seq<u8>, endian: Endian) -> int {
    spec_index_header_field(b, FILE_DESCRIPTOR_AT + DESCRIPTOR_OFFSET_AT, endian) as int
}

pub open spec fn spec_file_entry_count(b: Seq<u8>, endian: Endian) -> int {
    (spec_index_header_field(b, FILE_DESCRIPTOR_AT + DESCRIPTOR_SIZE_AT, endian) / 16) as int
}

/// Where the data entries start, and how many there are.
pub open spec fn spec_data_entries_at(b: Seq<u8>, endian: Endian) -> int {
    spec_index_header_field(b, DATA_DESCRIPTOR_AT + DESCRIPTOR_OFFSET_AT, endian) as int
}

pub open spec fn spec_data_entry_count(b: Seq<u8>, endian: Endian) -> int {
    (spec_index_header_field(b, DATA_DESCRIPTOR_AT + DESCRIPTOR_SIZE_AT, endian) / 256) as int
}

/// Where the folder entries start, and how many there are.
pub open spec fn spec_folder_entries_at(b: Seq<u8>, endian: Endian) -> int {
    spec_index_header_field(b, FOLDER_DESCRIPTOR_AT + DESCRIPTOR_OFFSET_AT, endian) as int
}

pub open spec fn spec_folder_entry_count(b: Seq<u8>, endian: Endian) -> int {
    (spec_index_header_field(b, FOLDER_DESCRIPTOR_AT + DESCRIPTOR_SIZE_AT, endian) / 16) as int
}

/// Whether `count` records of `stride` bytes, of which the first `read` bytes
/// are read, can be read from `b[at..]`: an empty table is read without
/// touching the buffer.
pub open spec fn spec_table_readable(b: Seq<u8>, at: int, count: int, stride: int, read: int) -> bool {
    count == 0 || at + (count - 1) * stride + read <= b.len()
}

/// The file entries of the index in `b`.
pub open spec fn spec_file_entries(b: Seq<u8>, endian: Endian) -> Seq<FileEntry> {
    let t = spec_header_index_type(b, endian);
    let at = spec_file_entries_at(b, endian);
    let len = t.spec_entry_len() as int;
    Seq::new(
        spec_file_entry_count(b, endian) as nat,
        |i: int| FileEntry::spec_read(b, at + i * len, t, endian),
    )
}

/// The folder entries of the index in `b`.
pub open spec fn spec_folder_entries(b: Seq<u8>, endian: Endian) -> Seq<FolderEntry> {
    let at = spec_folder_entries_at(b, endian);
    Seq::new(
        spec_folder_entry_count(b, endian) as nat,
        |i: int| FolderEntry::spec_read(b, at + i * FOLDER_ENTRY_STRIDE, endian),
    )
}

impl SqPackIndex {
    /// Whether an index can be read from the contents `b` of an index file of
    /// the given platform: both headers are there and well-formed, and so are
    /// the three tables that they locate.
    pub closed spec fn spec_readable(platform: Platform, b: Seq<u8>) -> bool {
        let endian = platform.spec_endianness();
        let h = spec_u32_at(b, crate::sqpack::HEADER_SIZE_AT as int, endian) as int;
        &&& SqPackHeader::spec_readable(b, endian)
        &&& SqPackIndexHeader::spec_readable(b, h, endian)
        &&& spec_table_readable(
            b,
            spec_file_entries_at(b, endian),
            spec_file_entry_count(b, endian),
            spec_header_index_type(b, endian).spec_entry_len() as int,
            spec_header_index_type(b, endian).spec_entry_len() as int,
        )
        &&& spec_table_readable(
            b,
            spec_data_entries_at(b, endian),
            spec_data_entry_count(b, endian),
            DATA_ENTRY_SIZE as int,
            DATA_ENTRY_SIZE as int,
        )
        &&& spec_table_readable(
            b,
            spec_folder_entries_at(b, endian),
            spec_folder_entry_count(b, endian),
            FOLDER_ENTRY_STRIDE as int,
            FOLDER_ENTRY_READ as int,
        )
    }

    /// Whether `self` is the index read from the contents `b` of an index file
    /// of the given platform.
    pub closed spec fn spec_read_from(self, platform: Platform, b: Seq<u8>) -> bool {
        let endian = platform.spec_endianness();
        let h = spec_u32_at(b, crate::sqpack::HEADER_SIZE_AT as int, endian) as int;
        let data_at = spec_data_entries_at(b, endian);
        &&& self.sqpack_header.spec_read_from(b, endian)
        &&& self.index_header.spec_read_from(b, h, endian)
        &&& self.spec_entries() == spec_file_entries(b, endian)
        &&& self.spec_data_entries().len() == spec_data_entry_count(b, endian)
        &&& forall|i: int|
            0 <= i < self.spec_data_entries().len() ==> #[trigger] self.spec_data_entries()[i].spec_read_from(
                b,
                data_at + i * DATA_ENTRY_SIZE,
            )
        &&& self.spec_folder_entries() == spec_folder_entries(b, endian)
    }

    /// Reads the index from the contents `bytes` of an index file of the given platform.
    pub fn from_bytes(platform: Platform, bytes: &[u8]) -> (r: Option<SqPackIndex>)
        ensures
            r is Some <==> Self::spec_readable(platform, bytes@),
            r matches Some(index) ==> index.spec_read_from(platform, bytes@),
    {
        let endian = platform.endianness();
        let sqpack_header = match SqPackHeader::read(bytes, endian) {
            Some(h) => h,
            None => return None,
        };
        let h = sqpack_header.size as u64;
        let index_header = match SqPackIndexHeader::read(bytes, h, endian) {
            Some(ih) => ih,
            None => return None,
        };
        let index_type = index_header.index_type;
        let entries = match read_file_entries(
            bytes,
            index_header.file_descriptor.offset as u64,
            index_header.file_descriptor.size / 16,
            index_type,
            endian,
        ) {
            Some(v) => v,
            None => return None,
        };
        let data_entries = match read_data_entries(
            bytes,
            index_header.data_descriptor.offset as u64,
            index_header.data_descriptor.size / 256,
        ) {
            Some(v) => v,
            None => return None,
        };
        let folder_entries = match read_folder_entries(
            bytes,
            index_header.folder_descriptor.offset as u64,
            index_header.folder_descriptor.size / 16,
            endian,
        ) {
            Some(v) => v,
            None => return None,
        };
        Some(SqPackIndex { sqpack_header, index_header, entries, data_entries, folder_entries })
    }


    /// The first file entry whose hash is `hash`.
    pub open spec fn spec_hash_matches(entries: Seq<FileEntry>, hash: Hash) -> spec_fn(int) -> bool {
        |i: int| entries[i].hash == hash
    }

    pub open spec fn spec_first_with_hash(entries: Seq<FileEntry>, hash: Hash) -> Option<int> {
        first_index(entries.len(), Self::spec_hash_matches(entries, hash))
    }

    /// What `find_entry_from_hash` returns: the entry of the first file entry with that hash.
    pub open spec fn spec_find_entry_from_hash(entries: Seq<FileEntry>, hash: Hash) -> Option<IndexEntry> {
        match Self::spec_first_with_hash(entries, hash) {
            Some(i) => Some(IndexEntry::spec_from(entries[i])),
            None => None,
        }
    }

    /// The first folder entry whose hash is `hash`.
    pub open spec fn spec_folder_hash_matches(folders: Seq<FolderEntry>, hash: u32) -> spec_fn(int) -> bool {
        |i: int| folders[i].hash == hash
    }

    pub open spec fn spec_first_folder_with_hash(folders: Seq<FolderEntry>, hash: u32) -> Option<int> {
        first_index(folders.len(), Self::spec_folder_hash_matches(folders, hash))
    }

    /// Whether the first folder entry with that hash, if any, does not start
    /// before the file entries; for another, `FolderEntryInfo::new` would go below zero.
    pub open spec fn spec_folder_match_well_formed(&self, hash: u32) -> bool {
        Self::spec_first_folder_with_hash(self.spec_folder_entries(), hash) matches Some(i)
            ==> self.spec_folder_entries()[i].files_offset >= self.spec_files_offset()
    }

    /// What `find_folder_entry_info_from_hash` returns.
    pub open spec fn spec_find_folder_entry_info_from_hash(&self, hash: u32) -> Option<FolderEntryInfo> {
        match Self::spec_first_folder_with_hash(self.spec_folder_entries(), hash) {
            Some(i) => Some(FolderEntryInfo::spec_new(self.spec_files_offset(), self.spec_folder_entries()[i])),
            None => None,
        }
    }

    /// The first file entry whose data lies at `offset`.
    pub open spec fn spec_offset_matches(entries: Seq<FileEntry>, offset: u64) -> spec_fn(int) -> bool {
        |i: int| entries[i].data.offset == offset
    }

    /// Calculates a partial hash for a given path: the checksum of its lowercase
    /// equivalent, which for an ASCII path is the checksum of its ASCII lowercase.
    pub fn calculate_partial_hash(path: &str) -> (r: u32)
        ensures
            r == spec_checksum(spec_lowercase_bytes(path@)),
            is_ascii_chars(path@) ==> r == spec_checksum(spec_ascii_lowercase_bytes(path@)),
    {
        let lowercase = to_lowercase(path);
        checksum(lowercase.as_str().as_bytes())
    }

    /// Whether a path can be hashed for an index of type `index_type`: for
    /// `.index` files, it must hold a `/` (its lowercase then holds one too).
    pub open spec fn spec_hashable(index_type: IndexType, path: Seq<char>) -> bool {
        index_type == IndexType::Index2 || path.contains('/')
    }

    /// Calculates a hash for `index` files from a game path. For `.index` files,
    /// the path must hold a `/`, which separates the directory from the file name.
    pub fn calculate_hash(index_type: IndexType, path: &str) -> (r: Hash)
        requires
            Self::spec_hashable(index_type, path@),
        ensures
            r == spec_hash_of_lowercase(index_type, spec_lowercase_bytes(path@)),
            is_ascii_chars(path@) ==> r == spec_hash_of_lowercase(index_type, spec_ascii_lowercase_bytes(path@)),
    {
        let lowercase = to_lowercase(path);
        proof {
            if index_type == IndexType::Index1 {
                lemma_slash_byte(lowercase@);
            }
        }
        Self::hash_lowercase_path(index_type, lowercase.as_str())
    }

    /// The hash of a path that is already lowercase: for `.index` files, the
    /// checksums of the directory (up to the last `/`) and of the file name
    /// (after it); for `.index2` files, the checksum of the whole path.
    pub fn hash_lowercase_path(index_type: IndexType, lowercase: &str) -> (r: Hash)
        requires
            index_type == IndexType::Index2 || spec_last_index_of(lowercase.spec_bytes(), 0x2F) is Some,
        ensures
            r == spec_hash_of_lowercase(index_type, lowercase.spec_bytes()),
    {
        let bytes = lowercase.as_bytes();
        match index_type {
            IndexType::Index1 => {
                proof {
                    lemma_last_index_of(bytes@, 0x2F);
                }
                let pos = last_index_of(bytes, 0x2F).unwrap();
                assert(pos < bytes.len());
                let path = checksum_range(bytes, 0, pos);
                let name = checksum_range(bytes, pos + 1, bytes.len());
                Hash::SplitPath { name, path }
            },
            IndexType::Index2 => Hash::FullPath(checksum(bytes)),
        }
    }

    /// `calculate_hash`, or `None` where a path of an `.index` file holds no `/`.
    pub fn checked_calculate_hash(index_type: IndexType, path: &str) -> (r: Option<Hash>)
        ensures
            r is Some <==> Self::spec_hashable(index_type, path@),
            r matches Some(h) ==> h == spec_hash_of_lowercase(index_type, spec_lowercase_bytes(path@)),
    {
        let hashable = match index_type {
            IndexType::Index1 => holds_slash(path),
            IndexType::Index2 => true,
        };
        if hashable {
            Some(Self::calculate_hash(index_type, path))
        } else {
            None
        }
    }

    /// The file entries.
    pub fn entries(&self) -> (r: &Vec<FileEntry>)
        ensures
            r@ == self.spec_entries(),
    {
        &self.entries
    }

    /// The folder entries.
    pub fn folder_entries(&self) -> (r: &Vec<FolderEntry>)
        ensures
            r@ == self.spec_folder_entries(),
    {
        &self.folder_entries
    }

    /// The offset in the file at which the file entries start.
    pub fn files_offset(&self) -> (r: u32)
        ensures
            r == self.spec_files_offset(),
    {
        self.index_header.file_descriptor.offset
    }

    /// The kind of index that the header names.
    pub fn index_type(&self) -> (r: IndexType)
        ensures
            r == self.spec_index_type(),
    {
        self.index_header.index_type
    }

    /// Whether some file entry has the hash of `path`.
    pub fn path_exists(&self, path: &str) -> (r: bool)
        requires
            Self::spec_hashable(self.spec_index_type(), path@),
        ensures
            r == (Self::spec_first_with_hash(
                self.spec_entries(),
                spec_hash_of_lowercase(self.spec_index_type(), spec_lowercase_bytes(path@)),
            ) is Some),
    {
        let hash = Self::calculate_hash(self.index_header.index_type, path);
        self.find_entry_from_hash(hash).is_some()
    }

    /// `path_exists`, or `None` where the path cannot be hashed for this index.
    pub fn checked_path_exists(&self, path: &str) -> (r: Option<bool>)
        ensures
            r is Some <==> Self::spec_hashable(self.spec_index_type(), path@),
            r matches Some(b) ==> b == (Self::spec_first_with_hash(
                self.spec_entries(),
                spec_hash_of_lowercase(self.spec_index_type(), spec_lowercase_bytes(path@)),
            ) is Some),
    {
        match Self::checked_calculate_hash(self.index_header.index_type, path) {
            Some(_) => Some(self.path_exists(path)),
            None => None,
        }
    }

    /// The entry of the first file entry with the hash of `path`.
    pub fn find_entry(&self, path: &str) -> (r: Option<IndexEntry>)
        requires
            Self::spec_hashable(self.spec_index_type(), path@),
        ensures
            r == Self::spec_find_entry_from_hash(
                self.spec_entries(),
                spec_hash_of_lowercase(self.spec_index_type(), spec_lowercase_bytes(path@)),
            ),
    {
        let hash = Self::calculate_hash(self.index_header.index_type, path);
        self.find_entry_from_hash(hash)
    }

    /// `find_entry`, or `None` where the path cannot be hashed for this index.
    pub fn checked_find_entry(&self, path: &str) -> (r: Option<Option<IndexEntry>>)
        ensures
            r is Some <==> Self::spec_hashable(self.spec_index_type(), path@),
            r matches Some(e) ==> e == Self::spec_find_entry_from_hash(
                self.spec_entries(),
                spec_hash_of_lowercase(self.spec_index_type(), spec_lowercase_bytes(path@)),
            ),
    {
        match Self::checked_calculate_hash(self.index_header.index_type, path) {
            Some(_) => Some(self.find_entry(path)),
            None => None,
        }
    }

    /// The folder entry info of the folder `path`; a terminating `/` is
    /// ignored. The first folder entry with its hash must not start before
    /// the file entries.
    pub fn find_folder_entry(&self, path: &str) -> (r: Option<FolderEntryInfo>)
        requires
            self.spec_folder_match_well_formed(
                spec_checksum(spec_lowercase_bytes(spec_strip_trailing_slash(path@))),
            ),
        ensures
            r == self.spec_find_folder_entry_info_from_hash(
                spec_checksum(spec_lowercase_bytes(spec_strip_trailing_slash(path@))),
            ),
    {
        let path = strip_trailing_slash(path);
        let hash = Self::calculate_partial_hash(path);
        self.find_folder_entry_info_from_hash(hash)
    }

    /// `find_folder_entry`, or `None` where the first folder entry with the
    /// folder's hash starts before the file entries.
    pub fn checked_find_folder_entry(&self, path: &str) -> (r: Option<Option<FolderEntryInfo>>)
        ensures
            r is Some <==> self.spec_folder_match_well_formed(
                spec_checksum(spec_lowercase_bytes(spec_strip_trailing_slash(path@))),
            ),
            r matches Some(info) ==> info == self.spec_find_folder_entry_info_from_hash(
                spec_checksum(spec_lowercase_bytes(spec_strip_trailing_slash(path@))),
            ),
    {
        let stripped = strip_trailing_slash(path);
        let hash = Self::calculate_partial_hash(stripped);
        if self.folder_match_well_formed(hash) {
            Some(self.find_folder_entry(path))
        } else {
            None
        }
    }

    /// Whether the first folder entry with that hash, if any, does not start before the file entries.
    pub fn folder_match_well_formed(&self, hash: u32) -> (r: bool)
        ensures
            r == self.spec_folder_match_well_formed(hash),
    {
        match self.first_folder_with_hash(hash) {
            Some(i) => self.folder_entries[i].files_offset >= self.index_header.file_descriptor.offset,
            None => true,
        }
    }

    fn first_folder_with_hash(&self, hash: u32) -> (r: Option<usize>)
        ensures
            r matches Some(i) ==> Self::spec_first_folder_with_hash(self.spec_folder_entries(), hash) == Some(i as int)
                && i < self.spec_folder_entries().len(),
            r is None ==> Self::spec_first_folder_with_hash(self.spec_folder_entries(), hash) is None,
    {
        let ghost pred = Self::spec_folder_hash_matches(self.spec_folder_entries(), hash);
        let mut i: usize = 0;
        while i < self.folder_entries.len()
            invariant
                i <= self.spec_folder_entries().len(),
                pred == Self::spec_folder_hash_matches(self.spec_folder_entries(), hash),
                forall|j: int| 0 <= j < i ==> !#[trigger] pred(j),
            decreases self.spec_folder_entries().len() - i,
        {
            if self.folder_entries[i].hash == hash {
                proof {
                    lemma_first_index_is(self.spec_folder_entries().len(), pred, i as int);
                }
                return Some(i);
            }
            i = i + 1;
        }
        proof {
            lemma_first_index_none(self.spec_folder_entries().len(), pred);
        }
        None
    }

    fn first_with_hash(&self, hash: Hash) -> (r: Option<usize>)
        ensures
            r matches Some(i) ==> Self::spec_first_with_hash(self.spec_entries(), hash) == Some(i as int)
                && i < self.spec_entries().len(),
            r is None ==> Self::spec_first_with_hash(self.spec_entries(), hash) is None,
    {
        let ghost pred = Self::spec_hash_matches(self.spec_entries(), hash);
        let mut i: usize = 0;
        while i < self.entries.len()
            invariant
                i <= self.spec_entries().len(),
                pred == Self::spec_hash_matches(self.spec_entries(), hash),
                forall|j: int| 0 <= j < i ==> !#[trigger] pred(j),
            decreases self.spec_entries().len() - i,
        {
            if self.entries[i].hash == hash {
                proof {
                    lemma_first_index_is(self.spec_entries().len(), pred, i as int);
                }
                return Some(i);
            }
            i = i + 1;
        }
        proof {
            lemma_first_index_none(self.spec_entries().len(), pred);
        }
        None
    }

    /// The entry of the first file entry with the hash `hash`.
    pub fn find_entry_from_hash(&self, hash: Hash) -> (r: Option<IndexEntry>)
        ensures
            r == Self::spec_find_entry_from_hash(self.spec_entries(), hash),
    {
        match self.first_with_hash(hash) {
            Some(i) => Some(IndexEntry::from(&self.entries[i])),
            None => None,
        }
    }

    /// The folder entry info of the first folder entry with the hash `hash`,
    /// which must not start before the file entries.
    pub fn find_folder_entry_info_from_hash(&self, hash: u32) -> (r: Option<FolderEntryInfo>)
        requires
            self.spec_folder_match_well_formed(hash),
        ensures
            r == self.spec_find_folder_entry_info_from_hash(hash),
    {
        match self.first_folder_with_hash(hash) {
            Some(i) => Some(FolderEntryInfo::new(self, &self.folder_entries[i])),
            None => None,
        }
    }

    /// `find_folder_entry_info_from_hash`, or `None` where the first folder
    /// entry with that hash starts before the file entries.
    pub fn checked_find_folder_entry_info_from_hash(&self, hash: u32) -> (r: Option<Option<FolderEntryInfo>>)
        ensures
            r is Some <==> self.spec_folder_match_well_formed(hash),
            r matches Some(info) ==> info == self.spec_find_folder_entry_info_from_hash(hash),
    {
        if self.folder_match_well_formed(hash) {
            Some(self.find_folder_entry_info_from_hash(hash))
        } else {
            None
        }
    }

    /// The hash of the first file entry whose data lies at `offset`.
    pub fn find_entry_from_offset(&self, offset: u64) -> (r: Option<Hash>)
        ensures
            r == (match first_index(self.spec_entries().len(), Self::spec_offset_matches(self.spec_entries(), offset)) {
                Some(i) => Some(self.spec_entries()[i].hash),
                None => None,
            }),
    {
        let ghost pred = Self::spec_offset_matches(self.spec_entries(), offset);
        let mut i: usize = 0;
        while i < self.entries.len()
            invariant
                i <= self.spec_entries().len(),
                pred == Self::spec_offset_matches(self.spec_entries(), offset),
                forall|j: int| 0 <= j < i ==> !#[trigger] pred(j),
            decreases self.spec_entries().len() - i,
        {
            if self.entries[i].data.offset == offset {
                proof {
                    lemma_first_index_is(self.spec_entries().len(), pred, i as int);
                }
                return Some(self.entries[i].hash);
            }
            i = i + 1;
        }
        proof {
            lemma_first_index_none(self.spec_entries().len(), pred);
        }
        None
    }

    /// The file entries.
    pub closed spec fn spec_entries(&self) -> Seq<FileEntry> {
        self.entries@
    }

    /// The data entries.
    pub closed spec fn spec_data_entries(&self) -> Seq<DataEntry> {
        self.data_entries@
    }

    /// The folder entries.
    pub closed spec fn spec_folder_entries(&self) -> Seq<FolderEntry> {
        self.folder_entries@
    }

    /// The kind of index that the header names.
    pub closed spec fn spec_index_type(&self) -> IndexType {
        self.index_header.index_type
    }

    /// The offset in the file at which the file entries start.
    pub closed spec fn spec_files_offset(&self) -> u32 {
        self.index_header.file_descriptor.offset
    }

    /// The index read from `b`: its type and files offset are those that the headers give.
    pub proof fn lemma_read_from_fields(self, platform: Platform, b: Seq<u8>)
        requires
            self.spec_read_from(platform, b),
        ensures
            self.spec_index_type() == spec_header_index_type(b, platform.spec_endianness()),
            self.spec_files_offset() == spec_index_header_field(
                b,
                FILE_DESCRIPTOR_AT + DESCRIPTOR_OFFSET_AT,
                platform.spec_endianness(),
            ),
            self.spec_entries() == spec_file_entries(b, platform.spec_endianness()),
            self.spec_folder_entries() == spec_folder_entries(b, platform.spec_endianness()),
    {
    }
}

/// Reads `count` file entries of an index of type `index_type` from `b[at..]`.
fn read_file_entries(b: &[u8], at: u64, count: u32, index_type: IndexType, endian: Endian) -> (r:
    Option<Vec<FileEntry>>)
    requires
        at <= u32::MAX,
    ensures
        r is Some <==> spec_table_readable(
            b@,
            at as int,
            count as int,
            index_type.spec_entry_len() as int,
            index_type.spec_entry_len() as int,
        ),
        r matches Some(v) ==> v@ == Seq::new(
            count as nat,
            |i: int| FileEntry::spec_read(b@, at + i * index_type.spec_entry_len(), index_type, endian),
        ),
{
    let len = index_type.entry_len();
    let total = (count as u64) * len;
    if count > 0 && at + total > b.len() as u64 {
        proof {
            assert((count - 1) * len + len == count * len) by (nonlinear_arith);
        }
        return None;
    }
    let ghost spec_entries = Seq::new(
        count as nat,
        |i: int| FileEntry::spec_read(b@, at + i * index_type.spec_entry_len(), index_type, endian),
    );
    let mut v: Vec<FileEntry> = Vec::new();
    let mut i: u32 = 0;
    let mut pos: u64 = at;
    while i < count
        invariant
            i <= count,
            len == index_type.spec_entry_len(),
            len == 8 || len == 16,
            count > 0 ==> at + count * len <= b@.len(),
            at <= u32::MAX,
            pos == at + i * len,
            v@ == spec_entries.take(i as int),
            spec_entries == Seq::new(
                count as nat,
                |i: int| FileEntry::spec_read(b@, at + i * index_type.spec_entry_len(), index_type, endian),
            ),
        decreases count - i,
    {
        proof {
            assert((i + 1) * len == i * len + len) by (nonlinear_arith);
            assert((i + 1) * len <= count * len) by (nonlinear_arith)
                requires
                    i + 1 <= count,
                    0 <= len,
            ;
        }
        let hash = Hash::read_options(b, pos, index_type, endian).unwrap();
        let data = match index_type {
            IndexType::Index1 => FileEntryData::read_options(b, pos + 8, endian).unwrap(),
            IndexType::Index2 => FileEntryData::read_options(b, pos + 4, endian).unwrap(),
        };
        v.push(FileEntry { hash, data });
        assert(v@ =~= spec_entries.take(i + 1));
        i = i + 1;
        pos = pos + len;
    }
    assert(v@ =~= spec_entries);
    Some(v)
}

/// Reads `count` data entries from `b[at..]`.
fn read_data_entries(b: &[u8], at: u64, count: u32) -> (r: Option<Vec<DataEntry>>)
    requires
        at <= u32::MAX,
    ensures
        r is Some <==> spec_table_readable(
            b@,
            at as int,
            count as int,
            DATA_ENTRY_SIZE as int,
            DATA_ENTRY_SIZE as int,
        ),
        r matches Some(v) ==> {
            &&& v@.len() == count
            &&& forall|i: int|
                0 <= i < v@.len() ==> #[trigger] v@[i].spec_read_from(b@, at + i * DATA_ENTRY_SIZE)
        },
{
    let total = (count as u64) * DATA_ENTRY_SIZE;
    if count > 0 && at + total > b.len() as u64 {
        return None;
    }
    let mut v: Vec<DataEntry> = Vec::new();
    let mut i: u32 = 0;
    let mut pos: u64 = at;
    while i < count
        invariant
            i <= count,
            count > 0 ==> at + count * DATA_ENTRY_SIZE <= b@.len(),
            at <= u32::MAX,
            pos == at + i * DATA_ENTRY_SIZE,
            v@.len() == i,
            forall|j: int|
                0 <= j < i ==> #[trigger] v@[j].spec_read_from(b@, at + j * DATA_ENTRY_SIZE),
        decreases count - i,
    {
        let unk = read_array::<256>(b, pos).unwrap();
        let entry = DataEntry { unk };
        assert(entry.spec_read_from(b@, at + i * DATA_ENTRY_SIZE));
        v.push(entry);
        i = i + 1;
        pos = pos + DATA_ENTRY_SIZE;
    }
    Some(v)
}

/// Reads `count` folder entries from `b[at..]`.
fn read_folder_entries(b: &[u8], at: u64, count: u32, endian: Endian) -> (r: Option<
    Vec<FolderEntry>,
>)
    requires
        at <= u32::MAX,
    ensures
        r is Some <==> spec_table_readable(
            b@,
            at as int,
            count as int,
            FOLDER_ENTRY_STRIDE as int,
            FOLDER_ENTRY_READ as int,
        ),
        r matches Some(v) ==> v@ == Seq::new(
            count as nat,
            |i: int| FolderEntry::spec_read(b@, at + i * FOLDER_ENTRY_STRIDE, endian),
        ),
{
    if count > 0 && at + ((count - 1) as u64) * FOLDER_ENTRY_STRIDE + FOLDER_ENTRY_READ
        > b.len() as u64 {
        return None;
    }
    let ghost spec_entries = Seq::new(
        count as nat,
        |i: int| FolderEntry::spec_read(b@, at + i * FOLDER_ENTRY_STRIDE, endian),
    );
    let mut v: Vec<FolderEntry> = Vec::new();
    let mut i: u32 = 0;
    let mut pos: u64 = at;
    while i < count
        invariant
            i <= count,
            count > 0 ==> at + (count - 1) * FOLDER_ENTRY_STRIDE + FOLDER_ENTRY_READ <= b@.len(),
            at <= u32::MAX,
            pos == at + i * FOLDER_ENTRY_STRIDE,
            v@ == spec_entries.take(i as int),
            spec_entries == Seq::new(
                count as nat,
                |i: int| FolderEntry::spec_read(b@, at + i * FOLDER_ENTRY_STRIDE, endian),
            ),
        decreases count - i,
    {
        let hash = read_u32(b, pos, endian).unwrap();
        let files_offset = read_u32(b, pos + 4, endian).unwrap();
        let total_files_size = read_u32(b, pos + 8, endian).unwrap();
        v.push(FolderEntry { hash, files_offset, total_files_size });
        assert(v@ =~= spec_entries.take(i + 1));
        i = i + 1;
        pos = pos + FOLDER_ENTRY_STRIDE;
    }
    assert(v@ =~= spec_entries);
    Some(v)
}

/// The position of the last `c` in `s`, if any.
pub open spec fn spec_last_index_of(s: Seq<u8>, c: u8) -> Option<int>
    decreases s.len(),
{
    if s.len() == 0 {
        None
    } else if s.last() == c {
        Some(s.len() - 1)
    } else {
        spec_last_index_of(s.drop_last(), c)
    }
}

proof fn lemma_last_index_of(s: Seq<u8>, c: u8)
    ensures
        spec_last_index_of(s, c) matches Some(i) ==> 0 <= i < s.len() && s[i] == c && forall|j: int| i < j < s.len() ==> s[j] != c,
        spec_last_index_of(s, c) is None ==> forall|j: int| 0 <= j < s.len() ==> s[j] != c,
    decreases s.len(),
{
    if s.len() > 0 {
        lemma_last_index_of(s.drop_last(), c);
        assert forall|j: int| 0 <= j < s.len() - 1 implies s.drop_last()[j] == s[j] by {}
    }
}

/// The position of the last `c` in `s`, if any.
fn last_index_of(s: &[u8], c: u8) -> (r: Option<usize>)
    ensures
        r matches Some(i) ==> spec_last_index_of(s@, c) == Some(i as int),
        r is None ==> spec_last_index_of(s@, c) is None,
{
    let mut i: usize = s.len();
    assert(s@.subrange(0, s@.len() as int) =~= s@);
    while i > 0
        invariant
            i <= s@.len(),
            spec_last_index_of(s@, c) == spec_last_index_of(s@.subrange(0, i as int), c),
        decreases i,
    {
        assert(s@.subrange(0, i as int).drop_last() =~= s@.subrange(0, i - 1));
        if s[i - 1] == c {
            return Some(i - 1);
        }
        i = i - 1;
    }
    None
}

/// The hash of the lowercase path whose UTF-8 bytes are `b`: for `.index`
/// files, the checksums of the bytes before the last `/` (the directory) and
/// after it (the file name); for `.index2` files, the checksum of all of them.
pub open spec fn spec_hash_of_lowercase(index_type: IndexType, b: Seq<u8>) -> Hash {
    match index_type {
        IndexType::Index1 => {
            let pos = spec_last_index_of(b, 0x2F)->0;
            Hash::SplitPath {
                name: spec_checksum(b.subrange(pos + 1, b.len() as int)),
                path: spec_checksum(b.subrange(0, pos)),
            }
        },
        IndexType::Index2 => Hash::FullPath(spec_checksum(b)),
    }
}

/// The split hash of a lowercase path is made of the checksum of its
/// directory (before its last `/`) and that of its file name (after it).
pub proof fn lemma_split_hash_parts(directory: Seq<u8>, name: Seq<u8>)
    requires
        !name.contains(0x2F),
    ensures
        spec_hash_of_lowercase(IndexType::Index1, directory + seq![0x2Fu8] + name) == (Hash::SplitPath {
            name: spec_checksum(name),
            path: spec_checksum(directory),
        }),
{
    let b = directory + seq![0x2Fu8] + name;
    let pos = directory.len() as int;
    lemma_last_index_of(b, 0x2F);
    assert(b[pos] == 0x2F);
    assert forall|j: int| pos < j < b.len() implies b[j] != 0x2F by {
        assert(b[j] == name[j - pos - 1]);
    }
    let found = spec_last_index_of(b, 0x2F);
    assert(found == Some(pos)) by {
        if found is None {
            assert(b[pos] != 0x2F);
        }
    }
    assert(b.subrange(0, pos) =~= directory);
    assert(b.subrange(pos + 1, b.len() as int) =~= name);
}

/// A path without its terminating `/`, if it has one.
pub open spec fn spec_strip_trailing_slash(path: Seq<char>) -> Seq<char> {
    if path.len() > 0 && path.last() == '/' {
        path.drop_last()
    } else {
        path
    }
}

/// A path without its terminating `/`, if it has one.
pub fn strip_trailing_slash(path: &str) -> (r: &str)
    ensures
        r@ == spec_strip_trailing_slash(path@),
{
    let chars = chars_of(path);
    let n = chars.len();
    if n > 0 && chars[n - 1] == '/' {
        path.substring_char(0, n - 1)
    } else {
        path
    }
}

/// The bytes of an ASCII text in lowercase: one per character, and a `/`
/// exactly where the text has one.
proof fn lemma_ascii_lowercase_bytes(s: Seq<char>)
    requires
        is_ascii_chars(s),
    ensures
        is_ascii_chars(spec_ascii_lowercase(s)),
        spec_ascii_lowercase_bytes(s).len() == s.len(),
        forall|i: int| 0 <= i < s.len() ==> (#[trigger] spec_ascii_lowercase_bytes(s)[i] == 0x2F <==> s[i] == '/'),
{
    let l = spec_ascii_lowercase(s);
    assert forall|i: int| 0 <= i < l.len() implies '\0' <= #[trigger] l[i] <= '\u{7f}' by {
        let c = s[i];
        if 'A' <= c <= 'Z' {
            vstd::utf8::char_u32_cast(c, c as u32);
        }
    }
    vstd::utf8::is_ascii_chars_encode_utf8(l);
    assert forall|i: int| 0 <= i < s.len() implies (#[trigger] spec_ascii_lowercase_bytes(s)[i] == 0x2F <==> s[i] == '/') by {
        let c = s[i];
        assert(l[i] == spec_ascii_lowercase_char(c));
        assert(spec_ascii_lowercase_bytes(s)[i] == l[i] as u8);
        vstd::utf8::char_u32_cast(l[i], l[i] as u32);
        vstd::utf8::char_u32_cast(c, c as u32);
    }
}

/// The hash of an ASCII path for `.index` files is made of the hashes of its
/// parts: the checksum of the lowercase file name (after the last `/`, at `k`)
/// and that of the lowercase directory (before it), which are the partial
/// hashes of those parts; the directory part is the hash that
/// `find_folder_entry` looks up for the directory.
pub proof fn lemma_ascii_split_hash(path: Seq<char>, k: int)
    requires
        is_ascii_chars(path),
        0 <= k < path.len(),
        path[k] == '/',
        forall|j: int| k < j < path.len() ==> path[j] != '/',
    ensures
        spec_hash_of_lowercase(IndexType::Index1, spec_ascii_lowercase_bytes(path)) == (Hash::SplitPath {
            name: spec_checksum(spec_ascii_lowercase_bytes(path.subrange(k + 1, path.len() as int))),
            path: spec_checksum(spec_ascii_lowercase_bytes(path.subrange(0, k))),
        }),
{
    let dir = path.subrange(0, k);
    let name = path.subrange(k + 1, path.len() as int);
    assert(path =~= dir + seq!['/'] + name);
    assert(is_ascii_chars(dir));
    assert(is_ascii_chars(name));
    assert(is_ascii_chars(seq!['/']));
    assert(spec_ascii_lowercase(path) =~= spec_ascii_lowercase(dir) + spec_ascii_lowercase(seq!['/'])
        + spec_ascii_lowercase(name));
    crate::index_type::lemma_encode_utf8_append(
        spec_ascii_lowercase(dir) + spec_ascii_lowercase(seq!['/']),
        spec_ascii_lowercase(name),
    );
    crate::index_type::lemma_encode_utf8_append(spec_ascii_lowercase(dir), spec_ascii_lowercase(seq!['/']));
    lemma_ascii_lowercase_bytes(seq!['/']);
    assert(spec_ascii_lowercase_bytes(seq!['/']) =~= seq![0x2Fu8]);
    lemma_ascii_lowercase_bytes(name);
    let nb = spec_ascii_lowercase_bytes(name);
    assert forall|j: int| 0 <= j < nb.len() implies nb[j] != 0x2F by {
        assert(name[j] == path[k + 1 + j]);
    }
    assert(!nb.contains(0x2F));
    lemma_split_hash_parts(spec_ascii_lowercase_bytes(dir), nb);
}

/// `find_entry` finds an entry exactly where `path_exists` holds: the first
/// file entry with a hash gives an entry exactly when there is one.
pub proof fn lemma_find_entry_agrees_with_exists(entries: Seq<FileEntry>, hash: Hash)
    ensures
        SqPackIndex::spec_find_entry_from_hash(entries, hash) is Some
            <==> SqPackIndex::spec_first_with_hash(entries, hash) is Some,
{
}

/// Whether the text holds a `/`.
fn holds_slash(path: &str) -> (r: bool)
    ensures
        r == path@.contains('/'),
{
    let cs = chars_of(path);
    let mut i: usize = 0;
    while i < cs.len()
        invariant
            i <= cs@.len(),
            cs@ == path@,
            forall|j: int| 0 <= j < i ==> cs@[j] != '/',
        decreases cs@.len() - i,
    {
        if cs[i] == '/' {
            return true;
        }
        i = i + 1;
    }
    false
}

/// The UTF-8 bytes of a text that holds a `/` hold the byte of `/`.
proof fn lemma_slash_byte(s: Seq<char>)
    requires
        s.contains('/'),
    ensures
        spec_last_index_of(encode_utf8(s), 0x2F) is Some,
{
    let i = choose|i: int| 0 <= i < s.len() && s[i] == '/';
    let before = s.subrange(0, i);
    let after = s.subrange(i + 1, s.len() as int);
    assert(s =~= before + seq!['/'] + after);
    crate::index_type::lemma_encode_utf8_append(before + seq!['/'], after);
    crate::index_type::lemma_encode_utf8_append(before, seq!['/']);
    assert(is_ascii_chars(seq!['/']));
    vstd::utf8::is_ascii_chars_encode_utf8(seq!['/']);
    let b = encode_utf8(s);
    let at = encode_utf8(before).len() as int;
    assert(b[at] == 0x2F);
    lemma_last_index_of(b, 0x2F);
}

} // verus!
