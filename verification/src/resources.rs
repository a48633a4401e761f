//! Repositories of game data, and the SqPack resources of an installation.
use vstd::prelude::*;
use vstd::string::StringExecFns;

use crate::category::Category;
use crate::index_type::{
    classify_index_path, spec_classify_index_file, IndexClassificationError,
    IndexClassificationErrorView, IndexInfo, IndexType,
};
use crate::search::{first_index, lemma_first_index, lemma_first_index_is, lemma_first_index_none};
use crate::indexes::{
    spec_all_full, spec_all_split, spec_hash_key, spec_sorted_by_hash_key, Index, Indexes,
};
use crate::repository_type::{ParseRepositoryTypeError, RepositoryType};
use crate::sqpack::common::Platform as SqPackPlatform;
use crate::sqpack::index::{
    spec_file_entries, spec_header_index_type, FileEntry, IndexType as SqPackIndexType,
    SqPackIndex,
};
use crate::asset_path::{
    lemma_category_repository_type_trailing_slash, spec_category_repository_type,
    spec_slash_count_not_one, AssetPath,
};
use crate::sqpack::index::{
    spec_hash_of_lowercase, spec_strip_trailing_slash, strip_trailing_slash, FolderEntry,
    FolderEntryInfo, IndexEntry,
};
use crate::sqpack::crc::spec_checksum;
use crate::text::{
    chars_of, path_extension, sort_strings, spec_lex_sorted, spec_lowercase_bytes,
    spec_path_extension, spec_path_file_stem, spec_views,
};

verus! {

/// Errors of reading files, which the library takes as given.
#[verifier::external_type_specification]
#[verifier::external_body]
pub struct ExIoError(std::io::Error);

/// Paths of the file system, which the library carries along.
#[verifier::external_type_specification]
#[verifier::external_body]
pub struct ExPathBuf(std::path::PathBuf);

#[derive(Debug)]
pub enum LoadRepositoryError {
    ParseRepositoryTypeError(ParseRepositoryTypeError),
    IoError(std::io::Error),
    MismatchedNumberOfIndexFilesPerType,
    IndexClassificationError(IndexClassificationError),
    ParseIndexFileError,
    IndexEntriesNotSorted,
}

/// A repository loading error, with the texts that failed to parse as
/// sequences of characters and I/O errors left out.
pub ghost enum LoadRepositoryErrorView {
    ParseRepositoryTypeError(ParseRepositoryTypeError),
    IoError,
    MismatchedNumberOfIndexFilesPerType,
    IndexClassificationError(IndexClassificationErrorView),
    ParseIndexFileError,
    IndexEntriesNotSorted,
}

impl View for LoadRepositoryError {
    type V = LoadRepositoryErrorView;

    open spec fn view(&self) -> LoadRepositoryErrorView {
        match self {
            LoadRepositoryError::ParseRepositoryTypeError(e) => LoadRepositoryErrorView::ParseRepositoryTypeError(*e),
            LoadRepositoryError::IoError(_) => LoadRepositoryErrorView::IoError,
            LoadRepositoryError::MismatchedNumberOfIndexFilesPerType => LoadRepositoryErrorView::MismatchedNumberOfIndexFilesPerType,
            LoadRepositoryError::IndexClassificationError(e) => LoadRepositoryErrorView::IndexClassificationError(e@),
            LoadRepositoryError::ParseIndexFileError => LoadRepositoryErrorView::ParseIndexFileError,
            LoadRepositoryError::IndexEntriesNotSorted => LoadRepositoryErrorView::IndexEntriesNotSorted,
        }
    }
}

/// Calls `Display` of `std::io::Error`: the text depends on the operating
/// system's description of the error, so nothing is stated of it.
#[verifier::external_body]
fn io_error_text(e: &std::io::Error) -> (r: String) {
    e.to_string()
}

impl LoadRepositoryError {
    /// The message of this error, but for the text of an I/O error, which
    /// follows the prefix it is given.
    pub open spec fn spec_message_prefix(&self) -> Seq<char> {
        match self {
            LoadRepositoryError::ParseRepositoryTypeError(e) => "Failed to parse repository type: "@ + e.spec_message(),
            LoadRepositoryError::IoError(_) => "IO error encountered: "@,
            LoadRepositoryError::MismatchedNumberOfIndexFilesPerType => "Mismatched number of files per index type"@,
            LoadRepositoryError::IndexClassificationError(e) => "Failed to classify index: "@ + e.spec_message(),
            LoadRepositoryError::ParseIndexFileError => "Failed to parse index file"@,
            LoadRepositoryError::IndexEntriesNotSorted => "Parsed indexes' entries are not sorted by their hash"@,
        }
    }

    /// The message of this error: for an I/O error, the prefix and the
    /// error's own text; else the whole message.
    pub fn to_string(&self) -> (r: String)
        ensures
            r@.len() >= self.spec_message_prefix().len(),
            r@.take(self.spec_message_prefix().len() as int) == self.spec_message_prefix(),
            !(self is IoError) ==> r@ == self.spec_message_prefix(),
    {
        let r = match self {
            LoadRepositoryError::ParseRepositoryTypeError(e) => {
                let mut r = "Failed to parse repository type: ".to_owned();
                r.append(e.to_string().as_str());
                r
            },
            LoadRepositoryError::IoError(e) => {
                let mut r = "IO error encountered: ".to_owned();
                r.append(io_error_text(e).as_str());
                r
            },
            LoadRepositoryError::MismatchedNumberOfIndexFilesPerType => "Mismatched number of files per index type".to_owned(),
            LoadRepositoryError::IndexClassificationError(e) => {
                let mut r = "Failed to classify index: ".to_owned();
                r.append(e.to_string().as_str());
                r
            },
            LoadRepositoryError::ParseIndexFileError => "Failed to parse index file".to_owned(),
            LoadRepositoryError::IndexEntriesNotSorted => "Parsed indexes' entries are not sorted by their hash".to_owned(),
        };
        assert(r@.take(self.spec_message_prefix().len() as int) =~= self.spec_message_prefix());
        r
    }
}

impl From<ParseRepositoryTypeError> for LoadRepositoryError {
    fn from(err: ParseRepositoryTypeError) -> (r: LoadRepositoryError) {
        LoadRepositoryError::ParseRepositoryTypeError(err)
    }
}

impl vstd::std_specs::convert::FromSpecImpl<ParseRepositoryTypeError> for LoadRepositoryError {
    open spec fn obeys_from_spec() -> bool {
        true
    }

    open spec fn from_spec(err: ParseRepositoryTypeError) -> LoadRepositoryError {
        LoadRepositoryError::ParseRepositoryTypeError(err)
    }
}

impl From<std::io::Error> for LoadRepositoryError {
    fn from(err: std::io::Error) -> (r: LoadRepositoryError) {
        LoadRepositoryError::IoError(err)
    }
}

impl vstd::std_specs::convert::FromSpecImpl<std::io::Error> for LoadRepositoryError {
    open spec fn obeys_from_spec() -> bool {
        true
    }

    open spec fn from_spec(err: std::io::Error) -> LoadRepositoryError {
        LoadRepositoryError::IoError(err)
    }
}

impl From<IndexClassificationError> for LoadRepositoryError {
    fn from(err: IndexClassificationError) -> (r: LoadRepositoryError) {
        LoadRepositoryError::IndexClassificationError(err)
    }
}

impl vstd::std_specs::convert::FromSpecImpl<IndexClassificationError> for LoadRepositoryError {
    open spec fn obeys_from_spec() -> bool {
        true
    }

    open spec fn from_spec(err: IndexClassificationError) -> LoadRepositoryError {
        LoadRepositoryError::IndexClassificationError(err)
    }
}

/// Errors of loading the SqPack resources of an installation.
#[derive(Debug)]
pub enum LoadSqPackResourcesError {
    IoError(std::io::Error),
    LoadRepositoryError(LoadRepositoryError),
}

impl LoadSqPackResourcesError {
    /// The prefix of the message of this error.
    pub open spec fn spec_message_prefix(&self) -> Seq<char> {
        match self {
            LoadSqPackResourcesError::IoError(_) => "IO error encountered: "@,
            LoadSqPackResourcesError::LoadRepositoryError(e) => "Failed to load repository: "@ + e.spec_message_prefix(),
        }
    }

    /// The message of this error: the prefix, then the text of an I/O error
    /// where one is the cause.
    pub fn to_string(&self) -> (r: String)
        ensures
            r@.len() >= self.spec_message_prefix().len(),
            r@.take(self.spec_message_prefix().len() as int) == self.spec_message_prefix(),
            (self matches LoadSqPackResourcesError::LoadRepositoryError(e) && !(e is IoError)) ==> r@
                == self.spec_message_prefix(),
    {
        let r = match self {
            LoadSqPackResourcesError::IoError(e) => {
                let mut r = "IO error encountered: ".to_owned();
                r.append(io_error_text(e).as_str());
                r
            },
            LoadSqPackResourcesError::LoadRepositoryError(e) => {
                let mut r = "Failed to load repository: ".to_owned();
                r.append(e.to_string().as_str());
                r
            },
        };
        assert(r@.take(self.spec_message_prefix().len() as int) =~= self.spec_message_prefix());
        r
    }
}

impl From<std::io::Error> for LoadSqPackResourcesError {
    fn from(err: std::io::Error) -> (r: LoadSqPackResourcesError) {
        LoadSqPackResourcesError::IoError(err)
    }
}

impl vstd::std_specs::convert::FromSpecImpl<std::io::Error> for LoadSqPackResourcesError {
    open spec fn obeys_from_spec() -> bool {
        true
    }

    open spec fn from_spec(err: std::io::Error) -> LoadSqPackResourcesError {
        LoadSqPackResourcesError::IoError(err)
    }
}

impl From<LoadRepositoryError> for LoadSqPackResourcesError {
    fn from(err: LoadRepositoryError) -> (r: LoadSqPackResourcesError) {
        LoadSqPackResourcesError::LoadRepositoryError(err)
    }
}

impl vstd::std_specs::convert::FromSpecImpl<LoadRepositoryError> for LoadSqPackResourcesError {
    open spec fn obeys_from_spec() -> bool {
        true
    }

    open spec fn from_spec(err: LoadRepositoryError) -> LoadSqPackResourcesError {
        LoadSqPackResourcesError::LoadRepositoryError(err)
    }
}

/// An index file of a repository's folder: its path, and its contents if
/// they could be read.
pub struct IndexFile {
    pub path: String,
    pub contents: Option<Vec<u8>>,
}

pub ghost struct IndexFileView {
    pub path: Seq<char>,
    pub contents: Option<Seq<u8>>,
}

impl View for IndexFile {
    type V = IndexFileView;

    open spec fn view(&self) -> IndexFileView {
        IndexFileView {
            path: self.path@,
            contents: match self.contents {
                Some(v) => Some(v@),
                None => None,
            },
        }
    }
}

/// What becomes of a pair of index files when a repository is loaded.
pub ghost enum PairOutcome {
    /// The pair is loaded as an index with this information.
    Loaded(IndexInfo),
    /// Loading fails with this error.
    Failed(LoadRepositoryErrorView),
    /// The entries' hashes are of the wrong kind for the file, which is
    /// malformed beyond an error.
    WrongHashKind,
}

/// The classification of an index file by its path.
pub open spec fn spec_classify_path(path: Seq<char>) -> Result<(IndexInfo, IndexType), IndexClassificationErrorView> {
    spec_classify_index_file(spec_path_file_stem(path), spec_path_extension(path))
}

/// What becomes of the pair `first` (the `.index` file) and `second` (the
/// `.index2` file): both must classify, as an `.index` and an `.index2` file
/// with the same information; both must be read and parse as indexes of the
/// platform they name; the entries of each must be sorted by hash.
pub open spec fn spec_pair_outcome(first: IndexFileView, second: IndexFileView) -> PairOutcome {
    match spec_classify_path(first.path) {
        Err(e) => PairOutcome::Failed(LoadRepositoryErrorView::IndexClassificationError(e)),
        Ok((info, t1)) => match spec_classify_path(second.path) {
            Err(e) => PairOutcome::Failed(LoadRepositoryErrorView::IndexClassificationError(e)),
            Ok((info2, t2)) => if !(t1 == IndexType::Index && t2 == IndexType::Index2 && info == info2) {
                PairOutcome::Failed(LoadRepositoryErrorView::MismatchedNumberOfIndexFilesPerType)
            } else {
                let platform = info.platform.spec_sqpack_platform();
                let endian = platform.spec_endianness();
                match (first.contents, second.contents) {
                    (Some(b1), Some(b2)) => if !SqPackIndex::spec_readable(platform, b1) || !SqPackIndex::spec_readable(platform, b2) {
                        PairOutcome::Failed(LoadRepositoryErrorView::ParseIndexFileError)
                    } else if spec_header_index_type(b1, endian) == SqPackIndexType::Index2
                        && spec_file_entries(b1, endian).len() > 0 {
                        PairOutcome::WrongHashKind
                    } else if !spec_sorted_by_hash_key(spec_file_entries(b1, endian)) {
                        PairOutcome::Failed(LoadRepositoryErrorView::IndexEntriesNotSorted)
                    } else if spec_header_index_type(b2, endian) == SqPackIndexType::Index1
                        && spec_file_entries(b2, endian).len() > 0 {
                        PairOutcome::WrongHashKind
                    } else if !spec_sorted_by_hash_key(spec_file_entries(b2, endian)) {
                        PairOutcome::Failed(LoadRepositoryErrorView::IndexEntriesNotSorted)
                    } else {
                        PairOutcome::Loaded(info)
                    },
                    _ => PairOutcome::Failed(LoadRepositoryErrorView::ParseIndexFileError),
                }
            },
        },
    }
}

/// Whether `index` was loaded from the pair `first` and `second`.
pub open spec fn spec_index_loaded_from(index: Index, first: IndexFileView, second: IndexFileView) -> bool {
    match spec_classify_path(first.path) {
        Ok((info, _)) => {
            let platform = info.platform.spec_sqpack_platform();
            &&& index.spec_info() == info
            &&& first.contents is Some
            &&& second.contents is Some
            &&& index.spec_index().spec_read_from(platform, first.contents->0)
            &&& index.spec_index2().spec_read_from(platform, second.contents->0)
        },
        Err(_) => false,
    }
}

enum PairResult {
    Loaded(Index),
    Failed(LoadRepositoryError),
    WrongHashKind,
}

/// Whether the entries are sorted by hash key.
fn entries_sorted(entries: &Vec<FileEntry>) -> (r: bool)
    ensures
        r == spec_sorted_by_hash_key(entries@),
{
    let n = entries.len();
    if n == 0 {
        return true;
    }
    let mut i: usize = 1;
    while i < n
        invariant
            1 <= i <= n,
            n == entries@.len(),
            spec_sorted_by_hash_key(entries@.take(i as int)),
        decreases n - i,
    {
        let prev = hash_key(&entries[i - 1].hash);
        let cur = hash_key(&entries[i].hash);
        if prev > cur {
            assert(!spec_sorted_by_hash_key(entries@)) by {
                assert(spec_hash_key(entries@[i - 1].hash) > spec_hash_key(entries@[i as int].hash));
            }
            return false;
        }
        assert(spec_sorted_by_hash_key(entries@.take(i + 1))) by {
            assert forall|a: int, b: int| 0 <= a <= b < i + 1 implies spec_hash_key(#[trigger] entries@.take(i + 1)[a].hash) <= spec_hash_key(#[trigger] entries@.take(i + 1)[b].hash) by {
                if b == i {
                    if a < i {
                        assert(entries@.take(i as int)[a] == entries@[a]);
                        assert(entries@.take(i as int)[i - 1] == entries@[i - 1]);
                    }
                } else {
                    assert(entries@.take(i as int)[a] == entries@[a]);
                    assert(entries@.take(i as int)[b] == entries@[b]);
                }
            }
        }
        i = i + 1;
    }
    assert(entries@.take(n as int) =~= entries@);
    true
}

/// The key by which file entries are sorted.
fn hash_key(h: &crate::sqpack::index::Hash) -> (r: u64)
    ensures
        r == spec_hash_key(*h),
{
    match *h {
        crate::sqpack::index::Hash::SplitPath { name, path } => (path as u64) * 0x1_0000_0000 + (name as u64),
        crate::sqpack::index::Hash::FullPath(crc) => crc as u64,
    }
}

/// Loads the pair `first` (the `.index` file) and `second` (the `.index2` file).
fn load_pair(first: &IndexFile, second: &IndexFile) -> (r: PairResult)
    ensures
        match r {
            PairResult::Loaded(index) => spec_pair_outcome(first@, second@) == PairOutcome::Loaded(index.spec_info())
                && spec_index_loaded_from(index, first@, second@),
            PairResult::Failed(e) => spec_pair_outcome(first@, second@) == PairOutcome::Failed(e@),
            PairResult::WrongHashKind => spec_pair_outcome(first@, second@) == PairOutcome::WrongHashKind,
        },
{
    let (index_info, index_type) = match classify_index_path(first.path.as_str()) {
        Ok(x) => x,
        Err(e) => return PairResult::Failed(LoadRepositoryError::IndexClassificationError(e)),
    };
    let (index2_info, index2_type) = match classify_index_path(second.path.as_str()) {
        Ok(x) => x,
        Err(e) => return PairResult::Failed(LoadRepositoryError::IndexClassificationError(e)),
    };
    if !(index_type == IndexType::Index && index2_type == IndexType::Index2 && index_info == index2_info) {
        return PairResult::Failed(LoadRepositoryError::MismatchedNumberOfIndexFilesPerType);
    }
    let platform = SqPackPlatform::from(index_info.platform);
    let index = match &first.contents {
        Some(bytes) => match SqPackIndex::from_bytes(platform, bytes.as_slice()) {
            Some(index) => index,
            None => return PairResult::Failed(LoadRepositoryError::ParseIndexFileError),
        },
        None => return PairResult::Failed(LoadRepositoryError::ParseIndexFileError),
    };
    let index2 = match &second.contents {
        Some(bytes) => match SqPackIndex::from_bytes(platform, bytes.as_slice()) {
            Some(index) => index,
            None => return PairResult::Failed(LoadRepositoryError::ParseIndexFileError),
        },
        None => return PairResult::Failed(LoadRepositoryError::ParseIndexFileError),
    };
    proof {
        index.lemma_read_from_fields(platform, first@.contents->0);
        index2.lemma_read_from_fields(platform, second@.contents->0);
    }
    if index.index_type() == SqPackIndexType::Index2 && index.entries().len() > 0 {
        return PairResult::WrongHashKind;
    }
    if !entries_sorted(index.entries()) {
        return PairResult::Failed(LoadRepositoryError::IndexEntriesNotSorted);
    }
    if index2.index_type() == SqPackIndexType::Index1 && index2.entries().len() > 0 {
        return PairResult::WrongHashKind;
    }
    if !entries_sorted(index2.entries()) {
        return PairResult::Failed(LoadRepositoryError::IndexEntriesNotSorted);
    }
    PairResult::Loaded(Index::new(index_info, index, index2))
}

/// The views of index files.
pub open spec fn spec_files_view(files: Seq<IndexFile>) -> Seq<IndexFileView> {
    files.map_values(|f: IndexFile| f@)
}

/// What becomes of the `k`th pair of files.
pub open spec fn spec_pair(files: Seq<IndexFileView>, k: int) -> PairOutcome {
    spec_pair_outcome(files[2 * k], files[2 * k + 1])
}

pub open spec fn spec_not_loaded(files: Seq<IndexFileView>) -> spec_fn(int) -> bool {
    |k: int| !(spec_pair(files, k) is Loaded)
}

/// The first pair that is not loaded, if any.
pub open spec fn spec_first_unloaded(files: Seq<IndexFileView>) -> Option<int> {
    first_index((files.len() / 2) as nat, spec_not_loaded(files))
}

/// Whether the files are malformed beyond an error: the first pair that is
/// not loaded holds hashes of the wrong kind.
pub open spec fn spec_load_malformed(files: Seq<IndexFileView>) -> bool {
    &&& files.len() % 2 == 0
    &&& spec_first_unloaded(files) matches Some(k)
    &&& spec_pair(files, k) is WrongHashKind
}

/// The error of loading the files as a repository, if any: an odd number of
/// files, else the error of the first pair that is not loaded.
pub open spec fn spec_load_error(files: Seq<IndexFileView>) -> Option<LoadRepositoryErrorView> {
    if files.len() % 2 != 0 {
        Some(LoadRepositoryErrorView::MismatchedNumberOfIndexFilesPerType)
    } else {
        match spec_first_unloaded(files) {
            Some(k) => match spec_pair(files, k) {
                PairOutcome::Failed(e) => Some(e),
                _ => None,
            },
            None => None,
        }
    }
}

/// The category of the `k`th pair, when it is loaded.
pub open spec fn spec_pair_category(files: Seq<IndexFileView>, k: int) -> Category {
    match spec_pair(files, k) {
        PairOutcome::Loaded(info) => info.category,
        _ => Category::Common,
    }
}

pub open spec fn spec_category_pred(files: Seq<IndexFileView>, c: Category) -> spec_fn(int) -> bool {
    |k: int| spec_pair_category(files, k) == c
}

/// The numbers below `n`, in order.
pub open spec fn spec_ids(n: int) -> Seq<int> {
    Seq::new(n as nat, |k: int| k)
}

/// The pairs among the first `n` whose category is `c`, in order.
pub open spec fn spec_category_pairs(files: Seq<IndexFileView>, n: int, c: Category) -> Seq<int> {
    spec_ids(n).filter(spec_category_pred(files, c))
}

/// Whether `m` holds, for each category, the indexes loaded from the pairs
/// among the first `n` of that category, in their order.
#[verifier::opaque]
pub open spec fn spec_indexes_loaded_from(
    m: Map<Category, Seq<Index>>,
    files: Seq<IndexFileView>,
    n: int,
) -> bool {
    &&& forall|c: Category|
        #![trigger m.dom().contains(c)]
        #![trigger spec_category_pairs(files, n, c)]
        m.dom().contains(c) <==> spec_category_pairs(files, n, c).len() > 0
    &&& forall|c: Category|
        #![trigger m.dom().contains(c)]
        m.dom().contains(c) ==> {
            let pairs = spec_category_pairs(files, n, c);
            &&& m[c].len() == pairs.len()
            &&& forall|j: int|
                0 <= j < pairs.len() ==> spec_index_loaded_from(
                    #[trigger] m[c][j],
                    files[2 * pairs[j]],
                    files[2 * pairs[j] + 1],
                )
        }
}

/// Adding the index of pair `i`, of category `category`, to the indexes of the
/// pairs before it gives the indexes of the pairs up to it.
proof fn lemma_loaded_step(
    old_map: Map<Category, Seq<Index>>,
    new_map: Map<Category, Seq<Index>>,
    fv: Seq<IndexFileView>,
    ii: int,
    category: Category,
    index: Index,
)
    requires
        0 <= ii,
        spec_indexes_loaded_from(old_map, fv, ii),
        spec_pair(fv, ii) == PairOutcome::Loaded(index.spec_info()),
        index.spec_info().category == category,
        spec_index_loaded_from(index, fv[2 * ii], fv[2 * ii + 1]),
        new_map == old_map.insert(
            category,
            (if old_map.dom().contains(category) {
                old_map[category]
            } else {
                Seq::<Index>::empty()
            }).push(index),
        ),
    ensures
        spec_indexes_loaded_from(new_map, fv, ii + 1),
{
    reveal(spec_indexes_loaded_from);
    assert(spec_pair_category(fv, ii) == category);
    let ids = spec_ids(ii);
    assert(spec_ids(ii + 1) =~= ids.push(ii));
    assert(ids.push(ii).drop_last() =~= ids);
    assert forall|c: Category| #[trigger] spec_category_pairs(fv, ii + 1, c) == if c == category {
        spec_category_pairs(fv, ii, c).push(ii)
    } else {
        spec_category_pairs(fv, ii, c)
    } by {
        assert(spec_category_pred(fv, c)(ii) == (c == category));
        ids.lemma_filter_push(ii, spec_category_pred(fv, c));
    }
    assert forall|c: Category| #[trigger] new_map.dom().contains(c) <==> spec_category_pairs(fv, ii + 1, c).len() > 0 by {
        if c != category {
            assert(spec_category_pairs(fv, ii + 1, c) == spec_category_pairs(fv, ii, c));
        } else {
            assert(spec_category_pairs(fv, ii + 1, c) == spec_category_pairs(fv, ii, c).push(ii));
        }
    }
    assert forall|c: Category| #[trigger] new_map.dom().contains(c) implies ({
        let ps = spec_category_pairs(fv, ii + 1, c);
        &&& new_map[c].len() == ps.len()
        &&& forall|j: int| 0 <= j < ps.len() ==> spec_index_loaded_from(
            #[trigger] new_map[c][j],
            fv[2 * ps[j]],
            fv[2 * ps[j] + 1],
        )
    }) by {
        let ps = spec_category_pairs(fv, ii + 1, c);
        if c == category {
            let old_ps = spec_category_pairs(fv, ii, c);
            assert(ps == old_ps.push(ii));
            if !old_map.dom().contains(c) {
                assert(old_ps.len() == 0);
            }
            assert forall|j: int| 0 <= j < ps.len() implies spec_index_loaded_from(
                #[trigger] new_map[c][j],
                fv[2 * ps[j]],
                fv[2 * ps[j] + 1],
            ) by {
                if j < old_ps.len() {
                    assert(new_map[c][j] == old_map[c][j]);
                }
            }
        } else {
            assert(ps == spec_category_pairs(fv, ii, c));
            assert(new_map[c] == old_map[c]);
        }
    }
}

/// Whether the path is that of an index file: its extension starts with `index`.
pub open spec fn spec_is_index_file(path: Seq<char>) -> bool {
    spec_path_extension(path) matches Some(e) && e.len() >= 5 && e.take(5) == seq!['i', 'n', 'd', 'e', 'x']
}

pub open spec fn spec_index_file_pred() -> spec_fn(Seq<char>) -> bool {
    |path: Seq<char>| spec_is_index_file(path)
}

/// Whether the path is that of an index file.
fn has_index_extension(path: &str) -> (r: bool)
    ensures
        r == spec_is_index_file(path@),
{
    match path_extension(path) {
        Some(e) => {
            let cs = chars_of(e.as_str());
            let r = cs.len() >= 5 && cs[0] == 'i' && cs[1] == 'n' && cs[2] == 'd' && cs[3] == 'e' && cs[4] == 'x';
            proof {
                if r {
                    assert(cs@.take(5) =~= seq!['i', 'n', 'd', 'e', 'x']);
                }
            }
            r
        },
        None => false,
    }
}

/// A repository: the index files of one folder of the `sqpack` folder.
#[derive(Debug)]
pub struct Repository {
    repository_type: RepositoryType,
    indexes: Indexes,
}

impl Repository {
    #[verifier::type_invariant]
    spec fn inv(self) -> bool {
        &&& self.indexes.wf()
        &&& self.repository_type.spec_is_valid()
    }

    pub closed spec fn spec_type(self) -> RepositoryType {
        self.repository_type
    }

    pub closed spec fn spec_indexes(self) -> Map<Category, Seq<Index>> {
        self.indexes@
    }

    /// The repository that the folder holds.
    pub fn repository_type(&self) -> (r: RepositoryType)
        ensures
            r == self.spec_type(),
            r.spec_is_valid(),
    {
        proof {
            use_type_invariant(self);
        }
        self.repository_type
    }

    /// The indexes of the repository.
    pub(crate) fn indexes(&self) -> (r: &Indexes)
        ensures
            r.wf(),
            r@ == self.spec_indexes(),
    {
        proof {
            use_type_invariant(self);
        }
        &self.indexes
    }

    /// The repository named by the name of its folder, if the name is text.
    pub fn repository_type_from_folder_name(name: Option<&str>) -> (r: Result<RepositoryType, LoadRepositoryError>)
        ensures
            r == (match name {
                Some(s) => match RepositoryType::spec_parse(s@) {
                    Ok(t) => Ok::<RepositoryType, LoadRepositoryError>(t),
                    Err(e) => Err(LoadRepositoryError::ParseRepositoryTypeError(e)),
                },
                None => Err(LoadRepositoryError::ParseRepositoryTypeError(ParseRepositoryTypeError::IncorrectFormat)),
            }),
    {
        match name {
            Some(s) => match RepositoryType::parse(s) {
                Ok(t) => Ok(t),
                Err(e) => Err(LoadRepositoryError::ParseRepositoryTypeError(e)),
            },
            None => Err(LoadRepositoryError::ParseRepositoryTypeError(ParseRepositoryTypeError::IncorrectFormat)),
        }
    }

    /// The index files among the paths of a repository folder's entries, sorted:
    /// those whose extension starts with `index`.
    pub fn index_file_paths(paths: Vec<String>) -> (r: Vec<String>)
        ensures
            spec_lex_sorted(spec_views(r@)),
            spec_views(r@).to_multiset() == spec_views(paths@).filter(spec_index_file_pred()).to_multiset(),
    {
        let mut kept: Vec<String> = Vec::new();
        let mut i: usize = 0;
        assert(spec_views(paths@).take(0) =~= Seq::<Seq<char>>::empty());
        assert(spec_views(kept@) =~= Seq::<Seq<char>>::empty());
        while i < paths.len()
            invariant
                i <= paths@.len(),
                spec_views(kept@) == spec_views(paths@).take(i as int).filter(spec_index_file_pred()),
            decreases paths@.len() - i,
        {
            let ghost pv = paths@[i as int]@;
            let keep = has_index_extension(paths[i].as_str());
            proof {
                assert(spec_views(paths@).take(i + 1) =~= spec_views(paths@).take(i as int).push(pv));
                spec_views(paths@).take(i as int).lemma_filter_push(pv, spec_index_file_pred());
            }
            if keep {
                let ghost before = spec_views(kept@);
                kept.push(paths[i].clone());
                assert(spec_views(kept@) =~= before.push(pv));
            }
            i = i + 1;
        }
        assert(spec_views(paths@).take(paths@.len() as int) =~= spec_views(paths@));
        sort_strings(kept)
    }

    /// Loads the repository from its index files, sorted by path: consecutive
    /// pairs of them are an `.index` file and its `.index2` file. The first
    /// pair that is not loaded must not hold hashes of the wrong kind.
    pub fn from_index_files(repository_type: RepositoryType, files: Vec<IndexFile>) -> (r: Result<Repository, LoadRepositoryError>)
        requires
            !spec_load_malformed(spec_files_view(files@)),
        ensures
            r is Err <==> spec_load_error(spec_files_view(files@)) is Some,
            r matches Err(e) ==> spec_load_error(spec_files_view(files@)) == Some(e@),
            r matches Ok(repo) ==> {
                &&& repo.spec_type() == repository_type
                &&& spec_indexes_loaded_from(
                    repo.spec_indexes(),
                    spec_files_view(files@),
                    (files@.len() / 2) as int,
                )
            },
    {
        match Self::checked_from_index_files(repository_type, files) {
            Some(r) => r,
            None => {
                proof {
                    assert(false);
                }
                Err(LoadRepositoryError::ParseIndexFileError)
            },
        }
    }

    /// `from_index_files`, or `None` where the first pair that is not loaded
    /// holds hashes of the wrong kind.
    pub fn checked_from_index_files(repository_type: RepositoryType, files: Vec<IndexFile>) -> (r: Option<Result<Repository, LoadRepositoryError>>)
        ensures
            r is None <==> spec_load_malformed(spec_files_view(files@)),
            r matches Some(Err(e)) ==> spec_load_error(spec_files_view(files@)) == Some(e@),
            r matches Some(Ok(repo)) ==> {
                &&& spec_load_error(spec_files_view(files@)) is None
                &&& repo.spec_type() == repository_type
                &&& spec_indexes_loaded_from(
                    repo.spec_indexes(),
                    spec_files_view(files@),
                    (files@.len() / 2) as int,
                )
            },
    {
        let ghost fv = spec_files_view(files@);
        let n = files.len();
        if n % 2 != 0 {
            return Some(Err(LoadRepositoryError::MismatchedNumberOfIndexFilesPerType));
        }
        let pairs = n / 2;
        let mut indexes = Indexes::new();
        let mut i: usize = 0;
        proof {
            reveal(spec_indexes_loaded_from);
            assert forall|c: Category| #[trigger] spec_category_pairs(fv, 0, c).len() == 0 by {
                assert(spec_ids(0) =~= Seq::<int>::empty());
            }
        }
        while i < pairs
            invariant
                i <= pairs,
                pairs == n / 2,
                n == files@.len(),
                n % 2 == 0,
                fv == spec_files_view(files@),
                indexes.wf(),
                forall|k: int| 0 <= k < i ==> !#[trigger] spec_not_loaded(fv)(k),
                spec_indexes_loaded_from(indexes@, fv, i as int),
            decreases pairs - i,
        {
            assert(fv[2 * i as int] == files@[2 * i as int]@);
            assert(fv[2 * i + 1] == files@[2 * i + 1]@);
            match load_pair(&files[2 * i], &files[2 * i + 1]) {
                PairResult::Loaded(index) => {
                    let category = index.info().category;
                    let ghost old_map = indexes@;
                    let ghost ii = i as int;
                    indexes.get_mut_or_create_new(category).push(index);
                    proof {
                        lemma_loaded_step(old_map, indexes@, fv, ii, category, index);
                    }
                },
                PairResult::Failed(e) => {
                    proof {
                        lemma_first_index_is((fv.len() / 2) as nat, spec_not_loaded(fv), i as int);
                    }
                    return Some(Err(e));
                },
                PairResult::WrongHashKind => {
                    proof {
                        lemma_first_index_is((fv.len() / 2) as nat, spec_not_loaded(fv), i as int);
                    }
                    return None;
                },
            }
            i = i + 1;
        }
        proof {
            lemma_first_index_none((fv.len() / 2) as nat, spec_not_loaded(fv));
        }
        if let RepositoryType::Expansion { number } = repository_type {
            proof {
                use_type_invariant(&number);
                number.lemma_inv();
            }
        }
        Some(Ok(Repository { repository_type, indexes }))
    }
}

/// Whether the repositories are sorted by their number.
pub open spec fn spec_repositories_sorted(repositories: Seq<Repository>) -> bool {
    forall|i: int, j: int|
        0 <= i <= j < repositories.len() ==> (#[trigger] repositories[i].spec_type()).spec_repr()
            <= (#[trigger] repositories[j].spec_type()).spec_repr()
}

pub open spec fn spec_type_is(repositories: Seq<Repository>, t: RepositoryType) -> spec_fn(int) -> bool {
    |i: int| repositories[i].spec_type() == t
}

/// The position of the first repository of type `t`, if any.
pub open spec fn spec_repository_position(repositories: Seq<Repository>, t: RepositoryType) -> Option<int> {
    first_index(repositories.len(), spec_type_is(repositories, t))
}

pub open spec fn spec_holds_hash(indexes: Seq<Index>, hash: crate::sqpack::index::Hash) -> spec_fn(int) -> bool {
    |k: int| SqPackIndex::spec_first_with_hash(indexes[k].spec_index().spec_entries(), hash) is Some
}

/// The entry of the first file entry with the hash `hash` in the first of the
/// `.index` files that has one.
pub open spec fn spec_find_in_indexes(indexes: Seq<Index>, hash: crate::sqpack::index::Hash) -> Option<IndexEntry> {
    match first_index(indexes.len(), spec_holds_hash(indexes, hash)) {
        Some(k) => SqPackIndex::spec_find_entry_from_hash(indexes[k].spec_index().spec_entries(), hash),
        None => None,
    }
}

/// The indexes of category `category` of the first repository of type `t`.
pub open spec fn spec_category_indexes(
    repositories: Seq<Repository>,
    category: Category,
    t: RepositoryType,
) -> Option<Seq<Index>> {
    match spec_repository_position(repositories, t) {
        Some(i) => {
            let m = repositories[i].spec_indexes();
            if m.dom().contains(category) {
                Some(m[category])
            } else {
                None
            }
        },
        None => None,
    }
}

/// What `file_exists` finds for `path`: nothing if its first component names
/// no category; else the entry with the path's hash in the `.index` files of
/// that category of the repository that its second component names.
pub open spec fn spec_file_exists(repositories: Seq<Repository>, path: Seq<char>) -> Option<IndexEntry> {
    let (category, t) = spec_category_repository_type(path);
    match category {
        Err(_) => None,
        Ok(c) => match spec_category_indexes(repositories, c, t) {
            Some(indexes) => spec_find_in_indexes(
                indexes,
                spec_hash_of_lowercase(crate::sqpack::index::IndexType::Index1, spec_lowercase_bytes(path)),
            ),
            None => None,
        },
    }
}

/// Whether `file_exists` can hash `path`: if its first component names a
/// category, it holds a `/`.
pub open spec fn spec_file_path_hashable(path: Seq<char>) -> bool {
    spec_category_repository_type(path).0 is Ok ==> path.contains('/')
}

/// The first position at which a folder entry's hash is not below `hash`,
/// as a binary search between `lo` and `hi` finds it (on entries sorted by
/// hash, the first position with a hash not below `hash`).
pub open spec fn spec_folder_lower_bound(folders: Seq<FolderEntry>, hash: u32, lo: int, hi: int) -> int
    decreases hi - lo,
{
    if lo >= hi {
        lo
    } else {
        let mid = lo + (hi - lo) / 2;
        if folders[mid].hash < hash {
            spec_folder_lower_bound(folders, hash, mid + 1, hi)
        } else {
            spec_folder_lower_bound(folders, hash, lo, mid)
        }
    }
}

/// The folder entry with hash `hash` that a binary search finds, if any.
pub open spec fn spec_folder_search(folders: Seq<FolderEntry>, hash: u32) -> Option<int> {
    let i = spec_folder_lower_bound(folders, hash, 0, folders.len() as int);
    if i < folders.len() && folders[i].hash == hash {
        Some(i)
    } else {
        None
    }
}

pub open spec fn spec_holds_folder(indexes: Seq<Index>, hash: u32) -> spec_fn(int) -> bool {
    |k: int| spec_folder_search(indexes[k].spec_index().spec_folder_entries(), hash) is Some
}

/// The first index in which the binary search finds a folder entry of hash
/// `hash`, and that entry.
pub open spec fn spec_folder_found(indexes: Seq<Index>, hash: u32) -> Option<(int, int)> {
    match first_index(indexes.len(), spec_holds_folder(indexes, hash)) {
        Some(k) => Some((k, spec_folder_search(indexes[k].spec_index().spec_folder_entries(), hash)->0)),
        None => None,
    }
}

/// The hash of the folder `path`: the checksum of its lowercase equivalent,
/// without a terminating `/`.
pub open spec fn spec_folder_hash(path: Seq<char>) -> u32 {
    spec_checksum(spec_lowercase_bytes(spec_strip_trailing_slash(path)))
}

/// What `folder_exists` finds for `path`.
pub open spec fn spec_folder_exists(repositories: Seq<Repository>, path: Seq<char>) -> Option<FolderEntryInfo> {
    let (category, t) = spec_category_repository_type(path);
    match category {
        Err(_) => None,
        Ok(c) => match spec_category_indexes(repositories, c, t) {
            Some(indexes) => match spec_folder_found(indexes, spec_folder_hash(path)) {
                Some((k, i)) => Some(
                    FolderEntryInfo::spec_new(
                        indexes[k].spec_index().spec_files_offset(),
                        indexes[k].spec_index().spec_folder_entries()[i],
                    ),
                ),
                None => None,
            },
            None => None,
        },
    }
}

/// Whether the folder entry that `folder_exists` finds for `path`, if any,
/// does not start before the file entries of its index.
pub open spec fn spec_folder_path_well_formed(repositories: Seq<Repository>, path: Seq<char>) -> bool {
    let (category, t) = spec_category_repository_type(path);
    match category {
        Err(_) => true,
        Ok(c) => match spec_category_indexes(repositories, c, t) {
            Some(indexes) => match spec_folder_found(indexes, spec_folder_hash(path)) {
                Some((k, i)) => indexes[k].spec_index().spec_folder_entries()[i].files_offset
                    >= indexes[k].spec_index().spec_files_offset(),
                None => true,
            },
            None => true,
        },
    }
}

/// The repository that the name of a folder of the `sqpack` folder names, if any.
pub open spec fn spec_folder_repository(name: Option<String>) -> Option<RepositoryType> {
    match name {
        Some(s) => match RepositoryType::spec_parse(s@) {
            Ok(t) => Some(t),
            Err(_) => None,
        },
        None => None,
    }
}

/// Whether the folder `a` comes before the folder `b`: by repository number,
/// then by position.
pub open spec fn spec_folder_before(a: (RepositoryType, usize), b: (RepositoryType, usize)) -> bool {
    ||| a.0.spec_repr() < b.0.spec_repr()
    ||| (a.0.spec_repr() == b.0.spec_repr() && a.1 < b.1)
}

#[derive(Debug)]
pub struct SqPackResources {
    /// The `game` directory / the directory containing the `sqpack` folder
    _game_directory: std::path::PathBuf,
    /// The "repositories" SqPack files exist for, contained in subfolders in the `sqpack` folder
    repositories: Vec<Repository>,
}

/// The position of the first file entry with the split hash `hash`, found
/// by a binary search over entries sorted by hash key.
fn search_sorted_entries(entries: &Vec<FileEntry>, hash: crate::sqpack::index::Hash) -> (r: Option<usize>)
    requires
        spec_all_split(entries@),
        spec_sorted_by_hash_key(entries@),
        hash is SplitPath,
    ensures
        r matches Some(i) ==> SqPackIndex::spec_first_with_hash(entries@, hash) == Some(i as int) && i < entries@.len(),
        r is None ==> SqPackIndex::spec_first_with_hash(entries@, hash) is None,
{
    let key = hash_key(&hash);
    let mut lo: usize = 0;
    let mut hi: usize = entries.len();
    while lo < hi
        invariant
            lo <= hi <= entries@.len(),
            key == spec_hash_key(hash),
            spec_sorted_by_hash_key(entries@),
            forall|j: int| 0 <= j < lo ==> spec_hash_key((#[trigger] entries@[j]).hash) < key,
            forall|j: int| hi <= j < entries@.len() ==> spec_hash_key((#[trigger] entries@[j]).hash) >= key,
        decreases hi - lo,
    {
        let mid = lo + (hi - lo) / 2;
        let mid_key = hash_key(&entries[mid].hash);
        if mid_key < key {
            lo = mid + 1;
        } else {
            hi = mid;
        }
    }
    let ghost pred = SqPackIndex::spec_hash_matches(entries@, hash);
    if lo < entries.len() && hash_key(&entries[lo].hash) == key {
        proof {
            assert(entries@[lo as int].hash is SplitPath);
            assert(entries@[lo as int].hash == hash);
            assert forall|j: int| 0 <= j < lo implies !#[trigger] pred(j) by {
                assert(spec_hash_key(entries@[j].hash) < key);
            }
            lemma_first_index_is(entries@.len(), pred, lo as int);
        }
        Some(lo)
    } else {
        proof {
            assert forall|j: int| 0 <= j < entries@.len() implies !#[trigger] pred(j) by {
                if j >= lo {
                    assert(spec_hash_key(entries@[lo as int].hash) <= spec_hash_key(entries@[j].hash));
                }
            }
            lemma_first_index_none(entries@.len(), pred);
        }
        None
    }
}

/// The position that a binary search over the folder entries' hashes finds
/// for `hash`: that of `spec_folder_lower_bound` over all of them.
fn folder_lower_bound(folders: &Vec<FolderEntry>, hash: u32) -> (r: usize)
    ensures
        r == spec_folder_lower_bound(folders@, hash, 0, folders@.len() as int),
        r <= folders@.len(),
{
    let mut lo: usize = 0;
    let mut hi: usize = folders.len();
    proof {
        lemma_folder_lower_bound_range(folders@, hash, 0, folders@.len() as int);
    }
    while lo < hi
        invariant
            lo <= hi <= folders@.len(),
            spec_folder_lower_bound(folders@, hash, lo as int, hi as int)
                == spec_folder_lower_bound(folders@, hash, 0, folders@.len() as int),
        decreases hi - lo,
    {
        let mid = lo + (hi - lo) / 2;
        if folders[mid].hash < hash {
            lo = mid + 1;
        } else {
            hi = mid;
        }
    }
    lo
}

/// The binary search stays between its bounds.
proof fn lemma_folder_lower_bound_range(folders: Seq<FolderEntry>, hash: u32, lo: int, hi: int)
    requires
        lo <= hi,
    ensures
        lo <= spec_folder_lower_bound(folders, hash, lo, hi) <= hi,
    decreases hi - lo,
{
    if lo < hi {
        let mid = lo + (hi - lo) / 2;
        if folders[mid].hash < hash {
            lemma_folder_lower_bound_range(folders, hash, mid + 1, hi);
        } else {
            lemma_folder_lower_bound_range(folders, hash, lo, mid);
        }
    }
}

/// Whether the folder entries are sorted by hash.
pub open spec fn spec_folders_sorted(folders: Seq<FolderEntry>) -> bool {
    forall|i: int, j: int| 0 <= i <= j < folders.len() ==> (#[trigger] folders[i]).hash <= (#[trigger] folders[j]).hash
}

/// On sorted folder entries the binary search ends between the hashes below
/// `hash` and those not below it.
proof fn lemma_folder_lower_bound_sorted(folders: Seq<FolderEntry>, hash: u32, lo: int, hi: int)
    requires
        0 <= lo <= hi <= folders.len(),
        spec_folders_sorted(folders),
        forall|j: int| 0 <= j < lo ==> (#[trigger] folders[j]).hash < hash,
        forall|j: int| hi <= j < folders.len() ==> (#[trigger] folders[j]).hash >= hash,
    ensures
        ({
            let r = spec_folder_lower_bound(folders, hash, lo, hi);
            &&& lo <= r <= hi
            &&& forall|j: int| 0 <= j < r ==> (#[trigger] folders[j]).hash < hash
            &&& forall|j: int| r <= j < folders.len() ==> (#[trigger] folders[j]).hash >= hash
        }),
    decreases hi - lo,
{
    if lo < hi {
        let mid = lo + (hi - lo) / 2;
        if folders[mid].hash < hash {
            assert forall|j: int| 0 <= j < mid + 1 implies (#[trigger] folders[j]).hash < hash by {
                if j >= lo {
                    assert(folders[j].hash <= folders[mid].hash);
                }
            }
            lemma_folder_lower_bound_sorted(folders, hash, mid + 1, hi);
        } else {
            assert forall|j: int| mid <= j < folders.len() implies (#[trigger] folders[j]).hash >= hash by {
                if j < hi {
                    assert(folders[mid].hash <= folders[j].hash);
                }
            }
            lemma_folder_lower_bound_sorted(folders, hash, lo, mid);
        }
    }
}

/// On folder entries sorted by hash, the binary search of `folder_exists`
/// finds the first folder entry with the hash, and none when no entry has it.
pub proof fn lemma_folder_search_sorted(folders: Seq<FolderEntry>, hash: u32)
    requires
        spec_folders_sorted(folders),
    ensures
        spec_folder_search(folders, hash) == SqPackIndex::spec_first_folder_with_hash(folders, hash),
{
    lemma_folder_lower_bound_sorted(folders, hash, 0, folders.len() as int);
    let r = spec_folder_lower_bound(folders, hash, 0, folders.len() as int);
    let pred = SqPackIndex::spec_folder_hash_matches(folders, hash);
    if r < folders.len() && folders[r].hash == hash {
        assert forall|j: int| 0 <= j < r implies !#[trigger] pred(j) by {
            assert(folders[j].hash < hash);
        }
        lemma_first_index_is(folders.len(), pred, r);
    } else {
        assert forall|j: int| 0 <= j < folders.len() implies !#[trigger] pred(j) by {
            if j >= r {
                assert(folders[r].hash <= folders[j].hash);
            }
        }
        lemma_first_index_none(folders.len(), pred);
    }
}

impl SqPackResources {
    #[verifier::type_invariant]
    spec fn inv(self) -> bool {
        spec_repositories_sorted(self.repositories@)
    }

    pub closed spec fn spec_repositories(self) -> Seq<Repository> {
        self.repositories@
    }

    /// The game directory (the directory that holds the `sqpack` folder).
    pub closed spec fn spec_game_directory(self) -> std::path::PathBuf {
        self._game_directory
    }

    /// The repository folders among the names of the entries of the `sqpack`
    /// folder (`None` for a name that is not text): the entries whose name
    /// parses as a repository, with the repository and the entry's position,
    /// sorted by repository number and, for one number, kept in order.
    pub fn repository_folders(names: &Vec<Option<String>>) -> (r: Vec<(RepositoryType, usize)>)
        ensures
            forall|j: int| 0 <= j < r@.len() ==> {
                &&& (#[trigger] r@[j]).1 < names@.len()
                &&& spec_folder_repository(names@[r@[j].1 as int]) == Some(r@[j].0)
            },
            forall|a: int, b: int| 0 <= a < b < r@.len() ==> spec_folder_before(#[trigger] r@[a], #[trigger] r@[b]),
            forall|i: int| 0 <= i < names@.len() && (#[trigger] spec_folder_repository(names@[i])) is Some
                ==> exists|j: int| 0 <= j < r@.len() && (#[trigger] r@[j]).1 == i,
    {
        let n = names.len();
        let mut parsed: Vec<Option<RepositoryType>> = Vec::new();
        let mut i: usize = 0;
        while i < n
            invariant
                i <= n == names@.len(),
                parsed@.len() == i,
                forall|j: int| 0 <= j < i ==> (#[trigger] parsed@[j]) == spec_folder_repository(names@[j]),
            decreases n - i,
        {
            let t = match &names[i] {
                Some(name) => match RepositoryType::parse(name.as_str()) {
                    Ok(t) => Some(t),
                    Err(_) => None,
                },
                None => None,
            };
            parsed.push(t);
            i = i + 1;
        }
        let mut out: Vec<(RepositoryType, usize)> = Vec::new();
        let mut key: u16 = 0;
        while key < 256
            invariant
                key <= 256,
                n == names@.len() == parsed@.len(),
                forall|j: int| 0 <= j < n ==> (#[trigger] parsed@[j]) == spec_folder_repository(names@[j]),
                forall|j: int| 0 <= j < out@.len() ==> {
                    &&& (#[trigger] out@[j]).1 < n
                    &&& spec_folder_repository(names@[out@[j].1 as int]) == Some(out@[j].0)
                    &&& (out@[j].0.spec_repr() as int) < key
                },
                forall|a: int, b: int| 0 <= a < b < out@.len() ==> spec_folder_before(#[trigger] out@[a], #[trigger] out@[b]),
                forall|i: int| 0 <= i < n && (#[trigger] parsed@[i]) is Some && (parsed@[i]->0.spec_repr() as int) < key
                    ==> exists|j: int| 0 <= j < out@.len() && (#[trigger] out@[j]).1 == i,
            decreases 256 - key,
        {
            let mut i: usize = 0;
            while i < n
                invariant
                    key < 256,
                    i <= n == names@.len() == parsed@.len(),
                    forall|j: int| 0 <= j < n ==> (#[trigger] parsed@[j]) == spec_folder_repository(names@[j]),
                    forall|j: int| 0 <= j < out@.len() ==> {
                        &&& (#[trigger] out@[j]).1 < n
                        &&& spec_folder_repository(names@[out@[j].1 as int]) == Some(out@[j].0)
                        &&& ((out@[j].0.spec_repr() as int) < key
                            || (out@[j].0.spec_repr() as int == key && out@[j].1 < i))
                    },
                    forall|a: int, b: int| 0 <= a < b < out@.len() ==> spec_folder_before(#[trigger] out@[a], #[trigger] out@[b]),
                    forall|i2: int| 0 <= i2 < n && (#[trigger] parsed@[i2]) is Some
                        && ((parsed@[i2]->0.spec_repr() as int) < key
                            || (parsed@[i2]->0.spec_repr() as int == key && i2 < i))
                        ==> exists|j: int| 0 <= j < out@.len() && (#[trigger] out@[j]).1 == i2,
                decreases n - i,
            {
                match parsed[i] {
                    Some(t) => {
                        if u8::from(t) as u16 == key {
                            let ghost before = out@;
                            out.push((t, i));
                            proof {
                                assert forall|i2: int| 0 <= i2 < n && (#[trigger] parsed@[i2]) is Some
                                    && ((parsed@[i2]->0.spec_repr() as int) < key
                                        || (parsed@[i2]->0.spec_repr() as int == key && i2 < i + 1))
                                    implies exists|j: int| 0 <= j < out@.len() && (#[trigger] out@[j]).1 == i2 by {
                                    if i2 == i {
                                        assert(out@[before.len() as int].1 == i2);
                                    } else {
                                        let j = choose|j: int| 0 <= j < before.len() && (#[trigger] before[j]).1 == i2;
                                        assert(out@[j] == before[j]);
                                    }
                                }
                            }
                        }
                    },
                    None => {},
                }
                i = i + 1;
            }
            key = key + 1;
        }
        assert forall|i: int| 0 <= i < n && (#[trigger] spec_folder_repository(names@[i])) is Some
            implies exists|j: int| 0 <= j < out@.len() && (#[trigger] out@[j]).1 == i by {
            assert(parsed@[i] == spec_folder_repository(names@[i]));
        }
        out
    }

    /// The resources of the game directory `game_directory`, whose
    /// repositories, sorted by number, are `repositories`.
    pub fn new(game_directory: std::path::PathBuf, repositories: Vec<Repository>) -> (r: SqPackResources)
        requires
            spec_repositories_sorted(repositories@),
        ensures
            r.spec_repositories() == repositories@,
            r.spec_game_directory() == game_directory,
    {
        SqPackResources { _game_directory: game_directory, repositories }
    }

    /// The entry of the file `path`, if any index file holds it: the first
    /// component of the path names the category, the second (when a `/`
    /// follows it) the repository, else the base game; the first `.index`
    /// file of that category that holds the path's hash gives the entry. A
    /// path whose first component names a category must hold a `/`.
    pub fn file_exists(&self, path: &str) -> (r: Option<IndexEntry>)
        requires
            spec_file_path_hashable(path@),
        ensures
            r == spec_file_exists(self.spec_repositories(), path@),
    {
        let asset_path = AssetPath::new(path);
        let (category, repository_type) = asset_path.category_repository_type();
        let category = match category {
            Ok(c) => c,
            Err(_) => return None,
        };
        let hash = SqPackIndex::calculate_hash(crate::sqpack::index::IndexType::Index1, path);
        proof {
            if let RepositoryType::Expansion { number } = repository_type {
                use_type_invariant(&number);
                number.lemma_inv();
            }
        }
        let repository = match self.get_repository(repository_type) {
            Some(repo) => repo,
            None => return None,
        };
        let indexes = match repository.indexes().get(category) {
            Some(indexes) => indexes,
            None => return None,
        };
        let ghost idxs = indexes@;
        assert(spec_file_exists(self.spec_repositories(), path@) == spec_find_in_indexes(idxs, hash));
        let mut k: usize = 0;
        while k < indexes.len()
            invariant
                k <= idxs.len(),
                idxs == indexes@,
                hash is SplitPath,
                spec_file_exists(self.spec_repositories(), path@) == spec_find_in_indexes(idxs, hash),
                forall|j: int| 0 <= j < k ==> !#[trigger] spec_holds_hash(idxs, hash)(j),
            decreases idxs.len() - k,
        {
            let index = indexes[k].index();
            match search_sorted_entries(index.entries(), hash) {
                Some(i) => {
                    proof {
                        lemma_first_index_is(idxs.len(), spec_holds_hash(idxs, hash), k as int);
                    }
                    return Some(IndexEntry::from(&index.entries()[i]));
                },
                None => {},
            }
            k = k + 1;
        }
        proof {
            lemma_first_index_none(idxs.len(), spec_holds_hash(idxs, hash));
        }
        None
    }

    /// `file_exists`, or `None` where the path cannot be hashed.
    pub fn checked_file_exists(&self, path: &str) -> (r: Option<Option<IndexEntry>>)
        ensures
            r is Some <==> spec_file_path_hashable(path@),
            r matches Some(e) ==> e == spec_file_exists(self.spec_repositories(), path@),
    {
        let category = AssetPath::new(path).category();
        let hashable = match category {
            Ok(_) => SqPackIndex::checked_calculate_hash(crate::sqpack::index::IndexType::Index1, path).is_some(),
            Err(_) => true,
        };
        if hashable {
            Some(self.file_exists(path))
        } else {
            None
        }
    }

    /// The range of file entries of the folder `path`, if an index file holds
    /// it: the category and the repository come from the path as for
    /// `file_exists`; a terminating `/` is ignored; in each `.index` file of
    /// that category a binary search over the folder entries looks for the
    /// checksum of the lowercase path, and the first that finds it gives the
    /// range. The folder entry found must not start before the file entries.
    pub fn folder_exists(&self, path: &str) -> (r: Option<FolderEntryInfo>)
        requires
            spec_folder_path_well_formed(self.spec_repositories(), path@),
        ensures
            r == spec_folder_exists(self.spec_repositories(), path@),
    {
        let asset_path = AssetPath::new(path);
        let (category, repository_type) = asset_path.category_repository_type();
        let category = match category {
            Ok(c) => c,
            Err(_) => return None,
        };
        let stripped = strip_trailing_slash(path);
        let hash = SqPackIndex::calculate_partial_hash(stripped);
        proof {
            if let RepositoryType::Expansion { number } = repository_type {
                use_type_invariant(&number);
                number.lemma_inv();
            }
        }
        let repository = match self.get_repository(repository_type) {
            Some(repo) => repo,
            None => return None,
        };
        let indexes = match repository.indexes().get(category) {
            Some(indexes) => indexes,
            None => return None,
        };
        let ghost idxs = indexes@;
        assert(hash == spec_folder_hash(path@));
        let mut k: usize = 0;
        while k < indexes.len()
            invariant
                k <= idxs.len(),
                idxs == indexes@,
                spec_category_indexes(self.spec_repositories(), category, repository_type) == Some(idxs),
                spec_category_repository_type(path@) == (Ok::<Category, Seq<char>>(category), repository_type),
                hash == spec_folder_hash(path@),
                spec_folder_path_well_formed(self.spec_repositories(), path@),
                forall|j: int| 0 <= j < k ==> !#[trigger] spec_holds_folder(idxs, hash)(j),
            decreases idxs.len() - k,
        {
            let index = indexes[k].index();
            let folders = index.folder_entries();
            let i = folder_lower_bound(folders, hash);
            if i < folders.len() && folders[i].hash == hash {
                proof {
                    lemma_first_index_is(idxs.len(), spec_holds_folder(idxs, hash), k as int);
                }
                return Some(FolderEntryInfo::new(index, &folders[i]));
            }
            k = k + 1;
        }
        proof {
            lemma_first_index_none(idxs.len(), spec_holds_folder(idxs, hash));
        }
        None
    }

    /// `folder_exists`, or `None` where the folder entry that it finds starts
    /// before the file entries of its index.
    pub fn checked_folder_exists(&self, path: &str) -> (r: Option<Option<FolderEntryInfo>>)
        ensures
            r is Some <==> spec_folder_path_well_formed(self.spec_repositories(), path@),
            r matches Some(e) ==> e == spec_folder_exists(self.spec_repositories(), path@),
    {
        let asset_path = AssetPath::new(path);
        let (category, repository_type) = asset_path.category_repository_type();
        let category = match category {
            Ok(c) => c,
            Err(_) => return Some(None),
        };
        let stripped = strip_trailing_slash(path);
        let hash = SqPackIndex::calculate_partial_hash(stripped);
        proof {
            if let RepositoryType::Expansion { number } = repository_type {
                use_type_invariant(&number);
                number.lemma_inv();
            }
        }
        let repository = match self.get_repository(repository_type) {
            Some(repo) => repo,
            None => return Some(None),
        };
        let indexes = match repository.indexes().get(category) {
            Some(indexes) => indexes,
            None => return Some(None),
        };
        let ghost idxs = indexes@;
        let mut k: usize = 0;
        while k < indexes.len()
            invariant
                k <= idxs.len(),
                idxs == indexes@,
                spec_category_indexes(self.spec_repositories(), category, repository_type) == Some(idxs),
                spec_category_repository_type(path@) == (Ok::<Category, Seq<char>>(category), repository_type),
                hash == spec_folder_hash(path@),
                forall|j: int| 0 <= j < k ==> !#[trigger] spec_holds_folder(idxs, hash)(j),
            decreases idxs.len() - k,
        {
            let index = indexes[k].index();
            let folders = index.folder_entries();
            let i = folder_lower_bound(folders, hash);
            if i < folders.len() && folders[i].hash == hash {
                proof {
                    lemma_first_index_is(idxs.len(), spec_holds_folder(idxs, hash), k as int);
                }
                if folders[i].files_offset >= index.files_offset() {
                    return Some(Some(FolderEntryInfo::new(index, &folders[i])));
                }
                return None;
            }
            k = k + 1;
        }
        proof {
            lemma_first_index_none(idxs.len(), spec_holds_folder(idxs, hash));
        }
        Some(None)
    }

    /// The first repository of type `repository_type`, if any.
    fn get_repository(&self, repository_type: RepositoryType) -> (r: Option<&Repository>)
        requires
            repository_type.spec_is_valid(),
        ensures
            r matches Some(repo) ==> spec_repository_position(self.spec_repositories(), repository_type) matches Some(i)
                && *repo == self.spec_repositories()[i],
            r is None ==> spec_repository_position(self.spec_repositories(), repository_type) is None,
    {
        proof {
            use_type_invariant(self);
        }
        let key = u8::from(repository_type);
        let mut lo: usize = 0;
        let mut hi: usize = self.repositories.len();
        while lo < hi
            invariant
                lo <= hi <= self.repositories@.len(),
                key == repository_type.spec_repr(),
                spec_repositories_sorted(self.repositories@),
                forall|j: int| 0 <= j < lo ==> (#[trigger] self.repositories@[j].spec_type()).spec_repr() < key,
                forall|j: int| hi <= j < self.repositories@.len() ==> (#[trigger] self.repositories@[j].spec_type()).spec_repr() >= key,
            decreases hi - lo,
        {
            let mid = lo + (hi - lo) / 2;
            let mid_key = u8::from(self.repositories[mid].repository_type());
            if mid_key < key {
                lo = mid + 1;
            } else {
                hi = mid;
            }
        }
        let ghost repos = self.repositories@;
        if lo < self.repositories.len() && self.repositories[lo].repository_type() == repository_type {
            proof {
                assert forall|j: int| 0 <= j < lo implies !#[trigger] spec_type_is(repos, repository_type)(j) by {
                    assert(repos[j].spec_type().spec_repr() < repository_type.spec_repr());
                }
                lemma_first_index_is(repos.len(), spec_type_is(repos, repository_type), lo as int);
            }
            Some(&self.repositories[lo])
        } else {
            proof {
                if lo < repos.len() {
                    let t = self.repositories@[lo as int].spec_type();
                    crate::repository_type::lemma_repository_repr_roundtrip(t, 0);
                    crate::repository_type::lemma_repository_repr_roundtrip(repository_type, 0);
                }
                assert forall|j: int| 0 <= j < repos.len() implies !#[trigger] spec_type_is(repos, repository_type)(j) by {
                    if j >= lo {
                        assert(repos[lo as int].spec_type().spec_repr() <= repos[j].spec_type().spec_repr());
                    }
                }
                lemma_first_index_none(repos.len(), spec_type_is(repos, repository_type));
            }
            None
        }
    }
}

/// The folder `p` and the folder `p/` are found alike, when `p` does not end
/// in a `/` and holds a number of `/` other than one: the same entry, or
/// nothing for both; and finding one is well-formed exactly when finding the
/// other is.
pub proof fn lemma_folder_exists_trailing_slash(repositories: Seq<Repository>, p: Seq<char>)
    requires
        !(p.len() > 0 && p.last() == '/'),
        spec_slash_count_not_one(p),
    ensures
        spec_folder_exists(repositories, p.push('/')) == spec_folder_exists(repositories, p),
        spec_folder_path_well_formed(repositories, p.push('/')) == spec_folder_path_well_formed(repositories, p),
{
    lemma_category_repository_type_trailing_slash(p);
    assert(spec_strip_trailing_slash(p.push('/')) =~= p);
    assert(spec_strip_trailing_slash(p) == p);
    assert(spec_folder_hash(p.push('/')) == spec_folder_hash(p));
}

/// The entry found in a category's `.index` files: there is one exactly when
/// some file entry of some `.index` file has the hash; it is the entry of a
/// file entry with the hash, in an `.index` file before which none has it.
pub proof fn lemma_find_in_indexes(indexes: Seq<Index>, hash: crate::sqpack::index::Hash)
    ensures
        spec_find_in_indexes(indexes, hash) is Some <==> exists|k: int, i: int|
            0 <= k < indexes.len() && 0 <= i < indexes[k].spec_index().spec_entries().len()
                && (#[trigger] indexes[k].spec_index().spec_entries()[i]).hash == hash,
        spec_find_in_indexes(indexes, hash) matches Some(e) ==> exists|k: int, i: int|
            0 <= k < indexes.len() && 0 <= i < indexes[k].spec_index().spec_entries().len() && {
                let entry = #[trigger] indexes[k].spec_index().spec_entries()[i];
                &&& entry.hash == hash
                &&& e == IndexEntry::spec_from(entry)
                &&& forall|k2: int, i2: int|
                    0 <= k2 < k && 0 <= i2 < indexes[k2].spec_index().spec_entries().len()
                        ==> (#[trigger] indexes[k2].spec_index().spec_entries()[i2]).hash != hash
            },
{
    let holds = spec_holds_hash(indexes, hash);
    lemma_first_index(indexes.len(), holds);
    assert forall|k: int| 0 <= k < indexes.len() implies (#[trigger] holds(k) <==> exists|i: int|
        0 <= i < indexes[k].spec_index().spec_entries().len()
            && (#[trigger] indexes[k].spec_index().spec_entries()[i]).hash == hash) by {
        let entries = indexes[k].spec_index().spec_entries();
        let pred = SqPackIndex::spec_hash_matches(entries, hash);
        lemma_first_index(entries.len(), pred);
        if exists|i: int| 0 <= i < entries.len() && (#[trigger] entries[i]).hash == hash {
            let i = choose|i: int| 0 <= i < entries.len() && (#[trigger] entries[i]).hash == hash;
            assert(pred(i));
        }
    }
    match first_index(indexes.len(), holds) {
        Some(k) => {
            let entries = indexes[k].spec_index().spec_entries();
            let pred = SqPackIndex::spec_hash_matches(entries, hash);
            lemma_first_index(entries.len(), pred);
            let i = SqPackIndex::spec_first_with_hash(entries, hash)->0;
            assert(pred(i));
            assert forall|k2: int, i2: int|
                0 <= k2 < k && 0 <= i2 < indexes[k2].spec_index().spec_entries().len()
                    implies (#[trigger] indexes[k2].spec_index().spec_entries()[i2]).hash != hash by {
                assert(!holds(k2));
            }
            assert(entries[i] == indexes[k].spec_index().spec_entries()[i]);
        },
        None => {
            assert forall|k: int, i: int|
                0 <= k < indexes.len() && 0 <= i < indexes[k].spec_index().spec_entries().len()
                    implies (#[trigger] indexes[k].spec_index().spec_entries()[i]).hash != hash by {
                assert(!holds(k));
            }
        },
    }
}

/// The folder found in a category's `.index` files: there is one exactly
/// when the binary search finds the hash in some `.index` file's folder
/// entries; it is a folder entry with the hash, in an `.index` file before
/// which the search finds none.
pub proof fn lemma_folder_found(indexes: Seq<Index>, hash: u32)
    ensures
        spec_folder_found(indexes, hash) is Some <==> exists|k: int|
            0 <= k < indexes.len() && (#[trigger] spec_folder_search(indexes[k].spec_index().spec_folder_entries(), hash)) is Some,
        spec_folder_found(indexes, hash) matches Some((k, i)) ==> {
            &&& 0 <= k < indexes.len()
            &&& 0 <= i < indexes[k].spec_index().spec_folder_entries().len()
            &&& indexes[k].spec_index().spec_folder_entries()[i].hash == hash
            &&& forall|k2: int| 0 <= k2 < k ==> (#[trigger] spec_folder_search(indexes[k2].spec_index().spec_folder_entries(), hash)) is None
        },
{
    let holds = spec_holds_folder(indexes, hash);
    lemma_first_index(indexes.len(), holds);
    if exists|k: int|
        0 <= k < indexes.len() && (#[trigger] spec_folder_search(indexes[k].spec_index().spec_folder_entries(), hash)) is Some {
        let k = choose|k: int|
            0 <= k < indexes.len() && (#[trigger] spec_folder_search(indexes[k].spec_index().spec_folder_entries(), hash)) is Some;
        assert(holds(k));
    }
    match first_index(indexes.len(), holds) {
        Some(k) => {
            let folders = indexes[k].spec_index().spec_folder_entries();
            lemma_folder_lower_bound_range(folders, hash, 0, folders.len() as int);
            assert(holds(k));
            assert forall|k2: int| 0 <= k2 < k implies (#[trigger] spec_folder_search(indexes[k2].spec_index().spec_folder_entries(), hash)) is None by {
                assert(!holds(k2));
            }
        },
        None => {},
    }
}

/// On folder entries sorted by hash, the folder is found in a category's
/// `.index` files exactly when one of them has a folder entry with the hash.
pub proof fn lemma_folder_found_sorted(indexes: Seq<Index>, hash: u32)
    requires
        forall|k: int| 0 <= k < indexes.len() ==> spec_folders_sorted(#[trigger] indexes[k].spec_index().spec_folder_entries()),
    ensures
        spec_folder_found(indexes, hash) is Some <==> exists|k: int, i: int|
            0 <= k < indexes.len() && 0 <= i < indexes[k].spec_index().spec_folder_entries().len()
                && (#[trigger] indexes[k].spec_index().spec_folder_entries()[i]).hash == hash,
{
    lemma_folder_found(indexes, hash);
    assert forall|k: int| 0 <= k < indexes.len() implies ((#[trigger] spec_folder_search(indexes[k].spec_index().spec_folder_entries(), hash)) is Some
        <==> exists|i: int| 0 <= i < indexes[k].spec_index().spec_folder_entries().len()
            && (#[trigger] indexes[k].spec_index().spec_folder_entries()[i]).hash == hash) by {
        let folders = indexes[k].spec_index().spec_folder_entries();
        lemma_folder_search_sorted(folders, hash);
        let pred = SqPackIndex::spec_folder_hash_matches(folders, hash);
        lemma_first_index(folders.len(), pred);
        if exists|i: int| 0 <= i < folders.len() && (#[trigger] folders[i]).hash == hash {
            let i = choose|i: int| 0 <= i < folders.len() && (#[trigger] folders[i]).hash == hash;
            assert(pred(i));
        }
    }
    if exists|k: int, i: int|
        0 <= k < indexes.len() && 0 <= i < indexes[k].spec_index().spec_folder_entries().len()
            && (#[trigger] indexes[k].spec_index().spec_folder_entries()[i]).hash == hash {
        let (k, i) = choose|k: int, i: int|
            0 <= k < indexes.len() && 0 <= i < indexes[k].spec_index().spec_folder_entries().len()
                && (#[trigger] indexes[k].spec_index().spec_folder_entries()[i]).hash == hash;
        assert(spec_folder_search(indexes[k].spec_index().spec_folder_entries(), hash) is Some);
    }
    if let Some((k, i)) = spec_folder_found(indexes, hash) {
        assert(indexes[k].spec_index().spec_folder_entries()[i].hash == hash);
    }
}

/// `file_exists` finds a path whenever any `.index` file of its category, in
/// its repository, has a file entry with the path's hash, whichever of them
/// it is.
pub proof fn lemma_file_exists_searches_every_index(
    repositories: Seq<Repository>,
    path: Seq<char>,
    k: int,
    i: int,
)
    requires
        spec_category_repository_type(path).0 is Ok,
        spec_category_indexes(
            repositories,
            spec_category_repository_type(path).0->Ok_0,
            spec_category_repository_type(path).1,
        ) matches Some(indexes) && 0 <= k < indexes.len() && 0 <= i
            < indexes[k].spec_index().spec_entries().len()
            && indexes[k].spec_index().spec_entries()[i].hash == spec_hash_of_lowercase(
            crate::sqpack::index::IndexType::Index1,
            spec_lowercase_bytes(path),
        ),
    ensures
        spec_file_exists(repositories, path) is Some,
{
    let indexes = spec_category_indexes(
        repositories,
        spec_category_repository_type(path).0->Ok_0,
        spec_category_repository_type(path).1,
    )->0;
    let hash = spec_hash_of_lowercase(crate::sqpack::index::IndexType::Index1, spec_lowercase_bytes(path));
    lemma_find_in_indexes(indexes, hash);
    assert(indexes[k].spec_index().spec_entries()[i].hash == hash);
}

} // verus!
