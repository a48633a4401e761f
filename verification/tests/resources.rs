use scree::sqpack::crc::checksum;
use scree::sqpack::index::{FolderEntryInfo, IndexEntry};
use scree::{
    Category, IndexClassificationError, IndexFile, LoadRepositoryError, NonZeroU8, ParseEnumError,
    ParseRepositoryTypeError, Repository, RepositoryType, SqPackResources,
};

const HEADER: usize = 1024;
const FILES_AT: usize = 2048;

fn put_u32(buf: &mut Vec<u8>, at: usize, v: u32) {
    if buf.len() < at + 4 {
        buf.resize(at + 4, 0);
    }
    buf[at..at + 4].copy_from_slice(&v.to_le_bytes());
}

fn crc(s: &str) -> u32 {
    checksum(s.as_bytes())
}

/// The little-endian bytes of an index file of type `index_type` (0 for
/// `.index`, 2 for `.index2`) with the given file entries (hash words and
/// data word) and folder entries (hash, files offset, size).
fn index_bytes(index_type: u32, entries: &[(Vec<u32>, u32)], folders: &[(u32, u32, u32)]) -> Vec<u8> {
    let mut b = vec![0u8; FILES_AT];
    b[0..8].copy_from_slice(b"SqPack\0\0");
    b[8] = 0;
    put_u32(&mut b, 12, HEADER as u32);
    put_u32(&mut b, 20, 2);
    let entry_len = if index_type == 0 { 16 } else { 8 };
    let folders_at = FILES_AT + entries.len() * entry_len;
    put_u32(&mut b, HEADER, 1024);
    put_u32(&mut b, HEADER + 8, FILES_AT as u32);
    put_u32(&mut b, HEADER + 12, (entries.len() * 16) as u32);
    put_u32(&mut b, HEADER + 228, folders_at as u32);
    put_u32(&mut b, HEADER + 232, (folders.len() * 16) as u32);
    put_u32(&mut b, HEADER + 300, index_type);
    for (i, (hash, data)) in entries.iter().enumerate() {
        let at = FILES_AT + i * entry_len;
        for (k, word) in hash.iter().enumerate() {
            put_u32(&mut b, at + 4 * k, *word);
        }
        put_u32(&mut b, at + 4 * hash.len(), *data);
        b.resize(at + entry_len, 0);
    }
    for (i, (hash, offset, size)) in folders.iter().enumerate() {
        let at = folders_at + i * 16;
        put_u32(&mut b, at, *hash);
        put_u32(&mut b, at + 4, *offset);
        put_u32(&mut b, at + 8, *size);
        b.resize(at + 16, 0);
    }
    b
}

/// An `.index` file holding `exd/root.exl` and `exd/item.exh`, sorted by
/// (directory, name) checksum, and the folder `exd`.
fn sample_index() -> Vec<u8> {
    let mut entries = vec![
        (vec![crc("root.exl"), crc("exd")], 0x0000_0102u32),
        (vec![crc("item.exh"), crc("exd")], 0x0000_0204u32),
    ];
    entries.sort_by_key(|(h, _)| ((h[1] as u64) << 32) | h[0] as u64);
    index_bytes(0, &entries, &[(crc("exd"), FILES_AT as u32, 0x20)])
}

fn sample_index2() -> Vec<u8> {
    let mut entries = vec![
        (vec![crc("exd/root.exl")], 0x0000_0102u32),
        (vec![crc("exd/item.exh")], 0x0000_0204u32),
    ];
    entries.sort_by_key(|(h, _)| h[0]);
    index_bytes(2, &entries, &[])
}

fn file(path: &str, contents: Option<Vec<u8>>) -> IndexFile {
    IndexFile { path: path.to_string(), contents }
}

fn exd_files() -> Vec<IndexFile> {
    vec![
        file("sqpack/ffxiv/0a0000.win32.index", Some(sample_index())),
        file("sqpack/ffxiv/0a0000.win32.index2", Some(sample_index2())),
    ]
}

fn resources() -> SqPackResources {
    let base = Repository::from_index_files(RepositoryType::BaseGame, exd_files()).unwrap();
    let ex1 = RepositoryType::Expansion { number: NonZeroU8::new(1).unwrap() };
    let expansion = Repository::from_index_files(
        ex1,
        vec![
            file("sqpack/ex1/0a0100.win32.index", Some(index_bytes(
                0,
                &[(vec![crc("a.exh"), crc("exd/ex1")], 0x0000_0306)],
                &[(crc("exd/ex1"), FILES_AT as u32, 0x10)],
            ))),
            file("sqpack/ex1/0a0100.win32.index2", Some(index_bytes(
                2,
                &[(vec![crc("exd/ex1/a.exh")], 0x0000_0306)],
                &[],
            ))),
        ],
    )
    .unwrap();
    SqPackResources::new(std::path::PathBuf::from("game"), vec![base, expansion])
}

#[test]
fn file_exists_finds_entries() {
    let res = resources();
    assert_eq!(
        res.file_exists("exd/root.exl"),
        Some(IndexEntry { data_file_id: 1, offset: 0x800 })
    );
    assert_eq!(
        res.file_exists("exd/Item.EXH"),
        Some(IndexEntry { data_file_id: 2, offset: 0x1000 })
    );
    // The category is matched as written, the hash taken of the lowercase path.
    assert_eq!(res.file_exists("EXD/item.exh"), None);
    assert_eq!(
        res.file_exists("exd/ex1/a.exh"),
        Some(IndexEntry { data_file_id: 3, offset: 0x1800 })
    );
    // The file is looked up in the repository that the path names.
    assert_eq!(res.file_exists("exd/ex1/root.exl"), None);
    assert_eq!(res.file_exists("exd/missing.exh"), None);
    // No repository, no category, or no index of that category.
    assert_eq!(res.file_exists("exd/ex2/a.exh"), None);
    assert_eq!(res.file_exists("nope/root.exl"), None);
    assert_eq!(res.file_exists("bg/root.exl"), None);
    assert_eq!(res.checked_file_exists("exd"), None);
    assert_eq!(res.checked_file_exists("nope"), Some(None));
    assert_eq!(
        res.checked_file_exists("exd/root.exl"),
        Some(Some(IndexEntry { data_file_id: 1, offset: 0x800 }))
    );
}

#[test]
fn folder_exists_finds_folders() {
    let res = resources();
    let exd = Some(FolderEntryInfo { files_starting_index: 0, file_count: 2 });
    assert_eq!(res.folder_exists("exd"), exd);
    assert_eq!(res.folder_exists("exd/"), exd);
    assert_eq!(res.folder_exists("EXD"), None);
    assert_eq!(
        res.folder_exists("exd/ex1/"),
        Some(FolderEntryInfo { files_starting_index: 0, file_count: 1 })
    );
    assert_eq!(res.folder_exists("exd/other"), None);
    assert_eq!(res.folder_exists("music"), None);
    assert_eq!(res.checked_folder_exists("exd"), Some(exd));
}

#[test]
fn loading_errors() {
    let mut odd = exd_files();
    odd.pop();
    assert!(matches!(
        Repository::from_index_files(RepositoryType::BaseGame, odd),
        Err(LoadRepositoryError::MismatchedNumberOfIndexFilesPerType)
    ));

    let swapped = vec![
        file("sqpack/ffxiv/0a0000.win32.index2", Some(sample_index2())),
        file("sqpack/ffxiv/0a0000.win32.index", Some(sample_index())),
    ];
    assert!(matches!(
        Repository::from_index_files(RepositoryType::BaseGame, swapped),
        Err(LoadRepositoryError::MismatchedNumberOfIndexFilesPerType)
    ));

    let unreadable = vec![
        file("sqpack/ffxiv/0a0000.win32.index", None),
        file("sqpack/ffxiv/0a0000.win32.index2", Some(sample_index2())),
    ];
    assert!(matches!(
        Repository::from_index_files(RepositoryType::BaseGame, unreadable),
        Err(LoadRepositoryError::ParseIndexFileError)
    ));

    let truncated = vec![
        file("sqpack/ffxiv/0a0000.win32.index", Some(sample_index())),
        file("sqpack/ffxiv/0a0000.win32.index2", Some(vec![0u8; 16])),
    ];
    assert!(matches!(
        Repository::from_index_files(RepositoryType::BaseGame, truncated),
        Err(LoadRepositoryError::ParseIndexFileError)
    ));

    let unsorted = vec![
        file("sqpack/ffxiv/0a0000.win32.index", Some(index_bytes(
            0,
            &[(vec![1, 2], 0), (vec![1, 1], 0)],
            &[],
        ))),
        file("sqpack/ffxiv/0a0000.win32.index2", Some(sample_index2())),
    ];
    assert!(matches!(
        Repository::from_index_files(RepositoryType::BaseGame, unsorted),
        Err(LoadRepositoryError::IndexEntriesNotSorted)
    ));

    let unclassified = vec![
        file("sqpack/ffxiv/0a0000.win32.dat0", Some(sample_index())),
        file("sqpack/ffxiv/0a0000.win32.index2", Some(sample_index2())),
    ];
    assert!(matches!(
        Repository::from_index_files(RepositoryType::BaseGame, unclassified),
        Err(LoadRepositoryError::IndexClassificationError(
            IndexClassificationError::FailedToParseEnum(_)
        ))
    ));
}

#[test]
fn hashes_of_the_wrong_kind_are_reported() {
    // The `.index` file holds full-path hashes: the load is refused rather
    // than tested for order.
    let wrong = vec![
        file("sqpack/ffxiv/0a0000.win32.index", Some(sample_index2())),
        file("sqpack/ffxiv/0a0000.win32.index2", Some(sample_index2())),
    ];
    assert!(Repository::checked_from_index_files(RepositoryType::BaseGame, wrong).is_none());
    assert!(Repository::checked_from_index_files(RepositoryType::BaseGame, exd_files())
        .is_some_and(|r| r.is_ok()));
}

#[test]
fn repository_type_from_folder_names() {
    assert_eq!(
        Repository::repository_type_from_folder_name(Some("ffxiv")).ok(),
        Some(RepositoryType::BaseGame)
    );
    assert!(matches!(
        Repository::repository_type_from_folder_name(None),
        Err(LoadRepositoryError::ParseRepositoryTypeError(ParseRepositoryTypeError::IncorrectFormat))
    ));
    assert!(matches!(
        Repository::repository_type_from_folder_name(Some("sqpack")),
        Err(LoadRepositoryError::ParseRepositoryTypeError(ParseRepositoryTypeError::IncorrectFormat))
    ));
}

#[test]
fn index_file_paths_are_filtered_and_sorted() {
    let paths = vec![
        "sqpack/ffxiv/0a0000.win32.index2".to_string(),
        "sqpack/ffxiv/0a0000.win32.dat0".to_string(),
        "sqpack/ffxiv/000000.win32.index".to_string(),
        "sqpack/ffxiv/0a0000.win32.index".to_string(),
        "sqpack/ffxiv/000000.win32.index2".to_string(),
        "sqpack/ffxiv/README".to_string(),
    ];
    assert_eq!(
        Repository::index_file_paths(paths),
        vec![
            "sqpack/ffxiv/000000.win32.index".to_string(),
            "sqpack/ffxiv/000000.win32.index2".to_string(),
            "sqpack/ffxiv/0a0000.win32.index".to_string(),
            "sqpack/ffxiv/0a0000.win32.index2".to_string(),
        ]
    );
}

#[test]
fn repository_folders_are_sorted_by_number() {
    let names = vec![
        Some("ex2".to_string()),
        Some("ffxiv".to_string()),
        None,
        Some("ex1".to_string()),
        Some("notes".to_string()),
        Some("ex01".to_string()),
    ];
    let ex = |n: u8| RepositoryType::Expansion { number: NonZeroU8::new(n).unwrap() };
    assert_eq!(
        SqPackResources::repository_folders(&names),
        vec![(RepositoryType::BaseGame, 1), (ex(1), 3), (ex(1), 5), (ex(2), 0)]
    );
}

#[test]
fn indexes_read_after_write() {
    let mut indexes = scree::Indexes::new();
    assert!(indexes.get(Category::Exd).is_none());
    assert!(indexes.get_mut_or_create_new(Category::Exd).is_empty());
    assert_eq!(indexes.get(Category::Exd).map(|s| s.len()), Some(0));
    assert!(indexes.get(Category::Bg).is_none());
    indexes.get_mut_or_create_new(Category::Common);
    assert_eq!(indexes.get(Category::Common).map(|s| s.len()), Some(0));
    assert_eq!(indexes.get(Category::Exd).map(|s| s.len()), Some(0));
    let entry = scree::IndexesEntry::new(Category::Music);
    let _ = format!("{entry:?}");
    let _ = ParseEnumError::new("");
}

#[test]
fn index_file_paths_order_by_code_point() {
    let paths = vec![
        "b.index".to_string(),
        "a.index2".to_string(),
        "é.index".to_string(),
        "B.index".to_string(),
        "a.index".to_string(),
        "a.index".to_string(),
        "c.INDEX".to_string(),
    ];
    assert_eq!(
        Repository::index_file_paths(paths),
        vec![
            "B.index".to_string(),
            "a.index".to_string(),
            "a.index".to_string(),
            "a.index2".to_string(),
            "b.index".to_string(),
            "é.index".to_string(),
        ]
    );
    assert_eq!(Repository::index_file_paths(Vec::new()), Vec::<String>::new());
}

#[test]
fn folder_found_alike_with_a_trailing_slash() {
    let res = resources();
    for p in ["exd", "exd/ex1/x", "music", "bg/a/b"] {
        assert_eq!(res.folder_exists(p), res.folder_exists(&format!("{p}/")), "{p}");
    }
    // With exactly one `/`, the appended `/` names a repository.
    assert_eq!(res.folder_exists("exd/ex1"), None);
    assert!(res.folder_exists("exd/ex1/").is_some());
}

#[test]
fn non_ascii_paths_are_looked_up() {
    let res = resources();
    assert_eq!(res.file_exists("exd/é"), None);
    assert_eq!(res.checked_file_exists("exd/é"), Some(None));
    assert_eq!(res.checked_file_exists("é"), Some(None));
}
