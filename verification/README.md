# scree

Finds files and folders in the SqPack files of the game
data of FFXIV, as a verified library.

## Layout

- `src/` — the verified library.
  - `sqpack/` — the index file format: headers, file, data and folder entries
    (`index.rs`), the CRC-32 variant used for path hashes (`crc.rs`), byte
    reading (`bytes.rs`) and platform byte orders (`common.rs`).
  - `category.rs`, `platform.rs`, `repository_type.rs`, `index_type.rs` — the
    names of categories, platforms, repositories and index files, parsed and
    written back, with their round trips proved.
  - `asset_path.rs` — the category and repository that a game path names.
  - `indexes.rs` — the loaded index files of a repository, by category.
  - `resources.rs` — loading a repository from its index files, and the
    lookups of files and folders over all repositories.
  - `num.rs`, `text.rs`, `search.rs` — small numbers, text helpers and the
    first-match search that the specifications share.
- `tests/` — tests of the library on concrete values.
- `app/` — the program: reading the installation's folders and files from
  disk, and looking up paths read from standard input or a path list.
