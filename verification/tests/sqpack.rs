use scree::sqpack::common::{Endian, Platform as SqPackPlatform};
use scree::sqpack::crc::checksum;
use scree::sqpack::index::{FileEntryData, FolderEntryInfo, IndexEntry, IndexType as SqPackIndexType, SqPackIndex};

const HEADER: usize = 1024;
const FILES_AT: usize = 2048;

fn put_u32(buf: &mut Vec<u8>, at: usize, v: u32) {
    if buf.len() < at + 4 {
        buf.resize(at + 4, 0);
    }
    buf[at..at + 4].copy_from_slice(&v.to_le_bytes());
}

fn crc(s: &str) -> u32 {
    checksum(s.as_bytes())
}

/// The little-endian bytes of an index file of type `index_type` (0 for
/// `.index`, 2 for `.index2`) with the given file entries (hash words and
/// data word) and folder entries (hash, files offset, size).
fn index_bytes(index_type: u32, entries: &[(Vec<u32>, u32)], folders: &[(u32, u32, u32)]) -> Vec<u8> {
    let mut b = vec![0u8; FILES_AT];
    b[0..8].copy_from_slice(b"SqPack\0\0");
    b[8] = 0;
    put_u32(&mut b, 12, HEADER as u32);
    put_u32(&mut b, 20, 2);
    let entry_len = if index_type == 0 { 16 } else { 8 };
    let folders_at = FILES_AT + entries.len() * entry_len;
    put_u32(&mut b, HEADER, 1024);
    put_u32(&mut b, HEADER + 8, FILES_AT as u32);
    put_u32(&mut b, HEADER + 12, (entries.len() * 16) as u32);
    put_u32(&mut b, HEADER + 228, folders_at as u32);
    put_u32(&mut b, HEADER + 232, (folders.len() * 16) as u32);
    put_u32(&mut b, HEADER + 300, index_type);
    for (i, (hash, data)) in entries.iter().enumerate() {
        let at = FILES_AT + i * entry_len;
        for (k, word) in hash.iter().enumerate() {
            put_u32(&mut b, at + 4 * k, *word);
        }
        put_u32(&mut b, at + 4 * hash.len(), *data);
        b.resize(at + entry_len, 0);
    }
    for (i, (hash, offset, size)) in folders.iter().enumerate() {
        let at = folders_at + i * 16;
        put_u32(&mut b, at, *hash);
        put_u32(&mut b, at + 4, *offset);
        put_u32(&mut b, at + 8, *size);
        b.resize(at + 16, 0);
    }
    b
}

/// An `.index` file holding `exd/root.exl` and `exd/item.exh`, sorted by
/// (directory, name) checksum, and the folder `exd`.
fn sample_index() -> Vec<u8> {
    let mut entries = vec![
        (vec![crc("root.exl"), crc("exd")], 0x0000_0102u32),
        (vec![crc("item.exh"), crc("exd")], 0x0000_0204u32),
    ];
    entries.sort_by_key(|(h, _)| ((h[1] as u64) << 32) | h[0] as u64);
    index_bytes(0, &entries, &[(crc("exd"), FILES_AT as u32, 0x20)])
}

fn sample_index2() -> Vec<u8> {
    let mut entries = vec![
        (vec![crc("exd/root.exl")], 0x0000_0102u32),
        (vec![crc("exd/item.exh")], 0x0000_0204u32),
    ];
    entries.sort_by_key(|(h, _)| h[0]);
    index_bytes(2, &entries, &[])
}

#[test]
fn checksum_values() {
    assert_eq!(checksum(b"exd"), 0xe39b7999);
    assert_eq!(checksum(b""), 0xffff_ffff);
    assert_eq!(checksum(b"exd/root.exl"), 0x3e16266c);
    assert_eq!(checksum(b"root.exl"), 0x51b57ebc);
}

#[test]
fn path_hashes() {
    assert_eq!(SqPackIndex::calculate_partial_hash("exd"), 0xe39b7999);
    assert_eq!(SqPackIndex::calculate_partial_hash("EXD"), 0xe39b7999);
    assert_eq!(
        SqPackIndex::calculate_hash(SqPackIndexType::Index1, "EXD/Root.exl"),
        scree::sqpack::index::Hash::SplitPath { name: 0x51b57ebc, path: 0xe39b7999 }
    );
    assert_eq!(
        SqPackIndex::calculate_hash(SqPackIndexType::Index2, "exd/root.exl"),
        scree::sqpack::index::Hash::FullPath(0x3e16266c)
    );
    // The directory is everything before the last `/`.
    assert_eq!(
        SqPackIndex::calculate_hash(SqPackIndexType::Index1, "a/b/c"),
        scree::sqpack::index::Hash::SplitPath { name: crc("c"), path: crc("a/b") }
    );
    assert_eq!(SqPackIndex::checked_calculate_hash(SqPackIndexType::Index1, "noslash"), None);
    assert_eq!(
        SqPackIndex::checked_calculate_hash(SqPackIndexType::Index2, "noslash"),
        Some(scree::sqpack::index::Hash::FullPath(crc("noslash")))
    );
}

#[test]
fn hash_write_read_roundtrip() {
    let split = scree::sqpack::index::Hash::SplitPath { name: 0x1122_3344, path: 0x5566_7788 };
    for endian in [Endian::Little, Endian::Big] {
        let bytes = split.write_options(endian);
        assert_eq!(bytes.len(), 8);
        assert_eq!(
            scree::sqpack::index::Hash::read_options(&bytes, 0, SqPackIndexType::Index1, endian),
            Some(split)
        );
    }
    let full = scree::sqpack::index::Hash::FullPath(0xdead_beef);
    let bytes = full.write_options(Endian::Little);
    assert_eq!(bytes, vec![0xef, 0xbe, 0xad, 0xde]);
    assert_eq!(
        scree::sqpack::index::Hash::read_options(&bytes, 0, SqPackIndexType::Index2, Endian::Little),
        Some(full)
    );
    assert_eq!(
        scree::sqpack::index::Hash::read_options(&bytes, 1, SqPackIndexType::Index2, Endian::Little),
        None
    );
}

#[test]
fn read_index_and_find_entries() {
    let index = SqPackIndex::from_bytes(SqPackPlatform::Win32, &sample_index()).unwrap();
    assert_eq!(index.index_type(), SqPackIndexType::Index1);
    assert_eq!(index.entries().len(), 2);
    assert_eq!(index.files_offset(), FILES_AT as u32);
    assert_eq!(
        index.find_entry("exd/root.exl"),
        Some(IndexEntry { data_file_id: 1, offset: 0x800 })
    );
    assert_eq!(
        index.find_entry("EXD/ITEM.EXH"),
        Some(IndexEntry { data_file_id: 2, offset: 0x1000 })
    );
    assert_eq!(index.find_entry("exd/missing.exh"), None);
    assert!(index.path_exists("exd/root.exl"));
    assert!(!index.path_exists("exd/missing.exh"));
    assert_eq!(
        index.find_folder_entry("exd/"),
        Some(FolderEntryInfo { files_starting_index: 0, file_count: 2 })
    );
    assert_eq!(index.find_folder_entry("exd"), index.find_folder_entry("exd/"));
    assert_eq!(index.find_folder_entry("bg"), None);
    assert_eq!(
        index.find_entry_from_offset(0x1000),
        Some(scree::sqpack::index::Hash::SplitPath { name: crc("item.exh"), path: crc("exd") })
    );
    assert_eq!(index.find_entry_from_offset(0x1234), None);

    let index2 = SqPackIndex::from_bytes(SqPackPlatform::Win32, &sample_index2()).unwrap();
    assert_eq!(index2.index_type(), SqPackIndexType::Index2);
    assert_eq!(
        index2.find_entry("exd/root.exl"),
        Some(IndexEntry { data_file_id: 1, offset: 0x800 })
    );
}

#[test]
fn malformed_index_files_are_refused() {
    let good = sample_index();
    // The last four bytes, padding of the last folder entry, are not read.
    assert!(SqPackIndex::from_bytes(SqPackPlatform::Win32, &good[..good.len() - 4]).is_some());
    assert!(SqPackIndex::from_bytes(SqPackPlatform::Win32, &good[..good.len() - 5]).is_none());
    let mut bad_magic = good.clone();
    bad_magic[0] = b'X';
    assert!(SqPackIndex::from_bytes(SqPackPlatform::Win32, &bad_magic).is_none());
    let mut bad_type = good.clone();
    put_u32(&mut bad_type, HEADER + 300, 1);
    assert!(SqPackIndex::from_bytes(SqPackPlatform::Win32, &bad_type).is_none());
    let mut bad_platform = good.clone();
    bad_platform[8] = 9;
    assert!(SqPackIndex::from_bytes(SqPackPlatform::Win32, &bad_platform).is_none());
    assert!(SqPackIndex::from_bytes(SqPackPlatform::Win32, &[]).is_none());
}

#[test]
fn folder_entry_info_from_offsets() {
    let index = SqPackIndex::from_bytes(
        SqPackPlatform::Win32,
        &index_bytes(0, &[], &[(7, FILES_AT as u32 + 0x30, 0x50), (8, 0, 0)]),
    )
    .unwrap();
    assert_eq!(
        index.find_folder_entry_info_from_hash(7),
        Some(FolderEntryInfo { files_starting_index: 3, file_count: 5 })
    );
    // A folder entry that starts before the file entries is refused.
    assert_eq!(index.checked_find_folder_entry_info_from_hash(8), None);
    assert_eq!(index.checked_find_folder_entry_info_from_hash(9), Some(None));
}

#[test]
fn file_entry_data_write_read() {
    let data = FileEntryData { is_synonym: false, data_file_id: 0, offset: 0x1_0080 };
    let bytes = data.write_options(Endian::Little);
    assert_eq!(bytes, vec![0x10, 0x20, 0x00, 0x00]);
    let back = FileEntryData::read_options(&bytes, 0, Endian::Little).unwrap();
    assert!(!back.is_synonym);
    assert_eq!(back.data_file_id, 0);
    assert_eq!(back.offset, 0x1_0080);
    // The data file and the synonym bit are not written.
    let lossy = FileEntryData { is_synonym: true, data_file_id: 3, offset: 0x80 };
    let back = FileEntryData::read_options(&lossy.write_options(Endian::Little), 0, Endian::Little).unwrap();
    assert!(!back.is_synonym);
    assert_eq!(back.data_file_id, 0);
    assert_eq!(back.offset, 0x80);
    // On big-endian platforms the bits of the word are reordered when read.
    let be = FileEntryData::read_options(&[0x10, 0x00, 0x00, 0x00], 0, Endian::Big).unwrap();
    assert_eq!(be.offset, 0x0);
    assert_eq!(be.data_file_id, 1);
    assert!(!be.is_synonym);
}

#[test]
fn ascii_hash_is_made_of_partial_hashes() {
    for path in ["EXD/Root.EXL", "chara/equipment/e0001/e0001.mdl", "a/b", "/x", "x/"] {
        let k = path.rfind('/').unwrap();
        assert_eq!(
            SqPackIndex::calculate_hash(SqPackIndexType::Index1, path),
            scree::sqpack::index::Hash::SplitPath {
                name: SqPackIndex::calculate_partial_hash(&path[k + 1..]),
                path: SqPackIndex::calculate_partial_hash(&path[..k]),
            }
        );
    }
}

#[test]
fn non_ascii_paths_hash_by_their_lowercase() {
    assert_eq!(
        SqPackIndex::calculate_hash(SqPackIndexType::Index1, "EXD/É.exh"),
        scree::sqpack::index::Hash::SplitPath { name: crc("é.exh"), path: crc("exd") }
    );
    assert_eq!(
        SqPackIndex::checked_calculate_hash(SqPackIndexType::Index1, "ÉXD/x"),
        Some(scree::sqpack::index::Hash::SplitPath { name: crc("x"), path: crc("éxd") })
    );
    assert_eq!(SqPackIndex::checked_calculate_hash(SqPackIndexType::Index1, "É"), None);
}
