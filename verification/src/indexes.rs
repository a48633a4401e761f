//! The loaded index files of a repository, by category.
use vstd::prelude::*;

use crate::category::Category;
use crate::index_type::IndexInfo;
use crate::search::{first_index, lemma_first_index, lemma_first_index_is, lemma_first_index_none};
use crate::sqpack::index::{FileEntry, SqPackIndex};

verus! {

/// The key by which file entries are sorted: for a split hash the directory
/// checksum, then the file name checksum; for a full hash the checksum.
pub open spec fn spec_hash_key(h: crate::sqpack::index::Hash) -> int {
    match h {
        crate::sqpack::index::Hash::SplitPath { name, path } => path * 0x1_0000_0000 + name,
        crate::sqpack::index::Hash::FullPath(crc) => crc as int,
    }
}

/// Whether the entries are sorted by their hash keys.
pub open spec fn spec_sorted_by_hash_key(entries: Seq<FileEntry>) -> bool {
    forall|i: int, j: int|
        0 <= i <= j < entries.len() ==> spec_hash_key(#[trigger] entries[i].hash) <= spec_hash_key(
            #[trigger] entries[j].hash,
        )
}

/// Split hashes are ordered by the directory checksum first, and by the file
/// name checksum only within a directory.
pub proof fn lemma_split_hash_key_order(n1: u32, p1: u32, n2: u32, p2: u32)
    ensures
        spec_hash_key(crate::sqpack::index::Hash::SplitPath { name: n1, path: p1 }) <= spec_hash_key(
            crate::sqpack::index::Hash::SplitPath { name: n2, path: p2 },
        ) <==> (p1 < p2 || (p1 == p2 && n1 <= n2)),
{
    if p1 < p2 {
        assert(p1 * 0x1_0000_0000 + n1 < p2 * 0x1_0000_0000 + n2) by (nonlinear_arith)
            requires
                p1 < p2,
                n1 < 0x1_0000_0000,
        ;
    } else if p1 > p2 {
        assert(p2 * 0x1_0000_0000 + n2 < p1 * 0x1_0000_0000 + n1) by (nonlinear_arith)
            requires
                p2 < p1,
                n2 < 0x1_0000_0000,
        ;
    }
}

/// Entries with split hashes are sorted by hash key exactly when they are
/// sorted by directory checksum, then by file name checksum.
pub proof fn lemma_sorted_by_path_then_name(entries: Seq<FileEntry>)
    requires
        spec_all_split(entries),
    ensures
        spec_sorted_by_hash_key(entries) <==> forall|i: int, j: int|
            #![trigger entries[i], entries[j]]
            0 <= i <= j < entries.len() ==> {
                let (a, b) = (entries[i].hash, entries[j].hash);
                a->SplitPath_path < b->SplitPath_path || (a->SplitPath_path == b->SplitPath_path
                    && a->SplitPath_name <= b->SplitPath_name)
            },
{
    assert forall|i: int, j: int| 0 <= i < entries.len() && 0 <= j < entries.len() implies (spec_hash_key(
        #[trigger] entries[i].hash,
    ) <= spec_hash_key(#[trigger] entries[j].hash) <==> {
        let (a, b) = (entries[i].hash, entries[j].hash);
        a->SplitPath_path < b->SplitPath_path || (a->SplitPath_path == b->SplitPath_path
            && a->SplitPath_name <= b->SplitPath_name)
    }) by {
        let (a, b) = (entries[i].hash, entries[j].hash);
        assert(a is SplitPath);
        assert(b is SplitPath);
        lemma_split_hash_key_order(a->SplitPath_name, a->SplitPath_path, b->SplitPath_name, b->SplitPath_path);
    }
}

/// Whether all entries have split hashes, as in an `.index` file.
pub open spec fn spec_all_split(entries: Seq<FileEntry>) -> bool {
    forall|i: int| 0 <= i < entries.len() ==> (#[trigger] entries[i].hash is SplitPath)
}

/// Whether all entries have full hashes, as in an `.index2` file.
pub open spec fn spec_all_full(entries: Seq<FileEntry>) -> bool {
    forall|i: int| 0 <= i < entries.len() ==> (#[trigger] entries[i].hash is FullPath)
}

/// An `.index` file and its `.index2` file, with the information in their names.
#[derive(Debug)]
pub struct Index {
    _info: IndexInfo,
    index: SqPackIndex,
    _index2: SqPackIndex,
}

impl Index {
    /// The entries of the `.index` file have split hashes and are sorted by
    /// them; those of the `.index2` file have full hashes and are sorted too.
    #[verifier::type_invariant]
    spec fn inv(self) -> bool {
        &&& spec_all_split(self.index.spec_entries())
        &&& spec_sorted_by_hash_key(self.index.spec_entries())
        &&& spec_all_full(self._index2.spec_entries())
        &&& spec_sorted_by_hash_key(self._index2.spec_entries())
    }

    pub closed spec fn spec_info(self) -> IndexInfo {
        self._info
    }

    pub closed spec fn spec_index(self) -> SqPackIndex {
        self.index
    }

    pub closed spec fn spec_index2(self) -> SqPackIndex {
        self._index2
    }

    /// The pair of index files, whose entries must be sorted.
    pub(crate) fn new(info: IndexInfo, index: SqPackIndex, index2: SqPackIndex) -> (r: Index)
        requires
            spec_all_split(index.spec_entries()),
            spec_sorted_by_hash_key(index.spec_entries()),
            spec_all_full(index2.spec_entries()),
            spec_sorted_by_hash_key(index2.spec_entries()),
        ensures
            r.spec_info() == info,
            r.spec_index() == index,
            r.spec_index2() == index2,
    {
        Index { _info: info, index, _index2: index2 }
    }

    /// The information in the names of the index files.
    pub fn info(&self) -> (r: IndexInfo)
        ensures
            r == self.spec_info(),
    {
        self._info
    }

    /// The `.index` file, whose entries have split hashes, sorted.
    pub(crate) fn index(&self) -> (r: &SqPackIndex)
        ensures
            *r == self.spec_index(),
            spec_all_split(r.spec_entries()),
            spec_sorted_by_hash_key(r.spec_entries()),
    {
        proof {
            use_type_invariant(self);
        }
        &self.index
    }
}

/// The indexes of one category.
#[derive(Debug)]
pub struct IndexesEntry {
    category: Category,
    index_vec: Vec<Index>,
}

impl IndexesEntry {
    /// The entry of `category`, with no indexes.
    pub fn new(category: Category) -> (r: IndexesEntry)
        ensures
            r.spec_category() == category,
            r.spec_indexes() == Seq::<Index>::empty(),
    {
        IndexesEntry { category, index_vec: Vec::new() }
    }

    pub closed spec fn spec_category(self) -> Category {
        self.category
    }

    pub closed spec fn spec_indexes(self) -> Seq<Index> {
        self.index_vec@
    }
}

/// The indexes of a repository, by category.
#[derive(Debug)]
pub struct Indexes {
    inner: Vec<IndexesEntry>,
}

/// The position of the entry of `c`, if any.
pub open spec fn spec_position(s: Seq<IndexesEntry>, c: Category) -> Option<int> {
    first_index(s.len(), spec_category_is(s, c))
}

pub open spec fn spec_category_is(s: Seq<IndexesEntry>, c: Category) -> spec_fn(int) -> bool {
    |i: int| s[i].spec_category() == c
}

/// Whether the entries are sorted by category number, each category once.
pub open spec fn spec_entries_wf(s: Seq<IndexesEntry>) -> bool {
    forall|i: int, j: int|
        0 <= i < j < s.len() ==> (#[trigger] s[i].spec_category()).spec_repr() < (
        #[trigger] s[j].spec_category()).spec_repr()
}

/// The map from each category that has an entry to its indexes.
pub open spec fn spec_entries_map(s: Seq<IndexesEntry>) -> Map<Category, Seq<Index>> {
    Map::new(
        |c: Category| spec_position(s, c) is Some,
        |c: Category| s[spec_position(s, c)->0].spec_indexes(),
    )
}

/// In well-formed entries, the entry at `i` is the position of its category.
proof fn lemma_position_at(s: Seq<IndexesEntry>, i: int)
    requires
        spec_entries_wf(s),
        0 <= i < s.len(),
    ensures
        spec_position(s, s[i].spec_category()) == Some(i),
{
    let c = s[i].spec_category();
    assert forall|j: int| 0 <= j < i implies !#[trigger] spec_category_is(s, c)(j) by {
        assert(s[j].spec_category().spec_repr() < s[i].spec_category().spec_repr());
    }
    lemma_first_index_is(s.len(), spec_category_is(s, c), i);
}

/// A category whose number differs from those of all entries has no position.
proof fn lemma_position_none(s: Seq<IndexesEntry>, c: Category)
    requires
        forall|j: int| 0 <= j < s.len() ==> s[j].spec_category() != c,
    ensures
        spec_position(s, c) is None,
{
    lemma_first_index_none(s.len(), spec_category_is(s, c));
}

/// Replacing the indexes of the entry at `i` replaces those of its category in the map.
proof fn lemma_map_update(s: Seq<IndexesEntry>, i: int, e: IndexesEntry)
    requires
        spec_entries_wf(s),
        0 <= i < s.len(),
        e.spec_category() == s[i].spec_category(),
    ensures
        spec_entries_wf(s.update(i, e)),
        spec_entries_map(s.update(i, e)) == spec_entries_map(s).insert(
            e.spec_category(),
            e.spec_indexes(),
        ),
{
    let t = s.update(i, e);
    assert(spec_entries_wf(t)) by {
        assert forall|a: int, b: int| 0 <= a < b < t.len() implies (#[trigger] t[a].spec_category()).spec_repr() < (#[trigger] t[b].spec_category()).spec_repr() by {
            assert(s[a].spec_category() == t[a].spec_category());
            assert(s[b].spec_category() == t[b].spec_category());
        }
    }
    let m1 = spec_entries_map(t);
    let m2 = spec_entries_map(s).insert(e.spec_category(), e.spec_indexes());
    assert forall|c: Category| m1.dom().contains(c) <==> m2.dom().contains(c) by {
        lemma_first_index(t.len(), spec_category_is(t, c));
        lemma_first_index(s.len(), spec_category_is(s, c));
        if m2.dom().contains(c) {
            if c == e.spec_category() {
                lemma_position_at(t, i);
            } else {
                let k = spec_position(s, c)->0;
                lemma_position_at(t, k);
            }
        }
        if m1.dom().contains(c) {
            let k = spec_position(t, c)->0;
            if c != e.spec_category() {
                lemma_position_at(s, k);
            }
        }
    }
    assert forall|c: Category| #[trigger] m1.dom().contains(c) implies m1[c] == m2[c] by {
        let k = spec_position(t, c)->0;
        lemma_first_index(t.len(), spec_category_is(t, c));
        lemma_position_at(t, k);
        if c != e.spec_category() {
            lemma_position_at(s, k);
        }
    }
    assert(m1 =~= m2);
}

/// Inserting an entry of a new category at its place in the order adds the
/// category to the map.
proof fn lemma_map_insert(s: Seq<IndexesEntry>, pos: int, e: IndexesEntry)
    requires
        spec_entries_wf(s),
        0 <= pos <= s.len(),
        forall|j: int| 0 <= j < pos ==> (#[trigger] s[j].spec_category()).spec_repr() < e.spec_category().spec_repr(),
        forall|j: int| pos <= j < s.len() ==> (#[trigger] s[j].spec_category()).spec_repr() > e.spec_category().spec_repr(),
    ensures
        spec_entries_wf(s.insert(pos, e)),
        spec_entries_map(s.insert(pos, e)) == spec_entries_map(s).insert(
            e.spec_category(),
            e.spec_indexes(),
        ),
{
    let t = s.insert(pos, e);
    assert forall|j: int| 0 <= j < t.len() implies #[trigger] t[j] == (if j < pos {
        s[j]
    } else if j == pos {
        e
    } else {
        s[j - 1]
    }) by {}
    assert(spec_entries_wf(t)) by {
        assert forall|a: int, b: int| 0 <= a < b < t.len() implies (#[trigger] t[a].spec_category()).spec_repr() < (#[trigger] t[b].spec_category()).spec_repr() by {
            if a < pos && b > pos {
                assert(t[b] == s[b - 1]);
            }
        }
    }
    let m1 = spec_entries_map(t);
    let m2 = spec_entries_map(s).insert(e.spec_category(), e.spec_indexes());
    assert forall|c: Category| m1.dom().contains(c) <==> m2.dom().contains(c) by {
        lemma_first_index(t.len(), spec_category_is(t, c));
        lemma_first_index(s.len(), spec_category_is(s, c));
        if m2.dom().contains(c) {
            if c == e.spec_category() {
                lemma_position_at(t, pos);
            } else {
                let k = spec_position(s, c)->0;
                if k < pos {
                    lemma_position_at(t, k);
                } else {
                    lemma_position_at(t, k + 1);
                }
            }
        }
        if m1.dom().contains(c) {
            let k = spec_position(t, c)->0;
            if c != e.spec_category() {
                if k < pos {
                    lemma_position_at(s, k);
                } else {
                    lemma_position_at(s, k - 1);
                }
            }
        }
    }
    assert forall|c: Category| #[trigger] m1.dom().contains(c) implies m1[c] == m2[c] by {
        let k = spec_position(t, c)->0;
        lemma_first_index(t.len(), spec_category_is(t, c));
        lemma_position_at(t, k);
        if c != e.spec_category() {
            if k < pos {
                lemma_position_at(s, k);
            } else {
                lemma_position_at(s, k - 1);
            }
        }
    }
    assert(m1 =~= m2);
}

impl View for Indexes {
    type V = Map<Category, Seq<Index>>;

    /// The indexes of each category that has any entry.
    closed spec fn view(&self) -> Map<Category, Seq<Index>> {
        spec_entries_map(self.inner@)
    }
}

impl Indexes {
    /// The entries are sorted by category number, each category once.
    pub closed spec fn wf(&self) -> bool {
        spec_entries_wf(self.inner@)
    }

    /// No indexes.
    pub fn new() -> (r: Indexes)
        ensures
            r.wf(),
            r@ == Map::<Category, Seq<Index>>::empty(),
    {
        let r = Indexes { inner: Vec::new() };
        assert(r@ =~= Map::<Category, Seq<Index>>::empty()) by {
            assert forall|c: Category| !#[trigger] r@.dom().contains(c) by {
                lemma_position_none(r.inner@, c);
            }
        }
        r
    }

    /// The first position whose category number is not below that of `category`.
    fn lower_bound(&self, category: Category) -> (r: usize)
        requires
            self.wf(),
        ensures
            r <= self.inner@.len(),
            forall|j: int| 0 <= j < r ==> (#[trigger] self.inner@[j].spec_category()).spec_repr() < category.spec_repr(),
            forall|j: int| r <= j < self.inner@.len() ==> (#[trigger] self.inner@[j].spec_category()).spec_repr() >= category.spec_repr(),
    {
        let key = u8::from(category);
        let mut lo: usize = 0;
        let mut hi: usize = self.inner.len();
        while lo < hi
            invariant
                lo <= hi <= self.inner@.len(),
                key == category.spec_repr(),
                spec_entries_wf(self.inner@),
                forall|j: int| 0 <= j < lo ==> (#[trigger] self.inner@[j].spec_category()).spec_repr() < key,
                forall|j: int| hi <= j < self.inner@.len() ==> (#[trigger] self.inner@[j].spec_category()).spec_repr() >= key,
            decreases hi - lo,
        {
            let mid = lo + (hi - lo) / 2;
            let mid_key = u8::from(self.inner[mid].category);
            assert(mid_key == self.inner@[mid as int].spec_category().spec_repr());
            if mid_key < key {
                lo = mid + 1;
            } else {
                hi = mid;
            }
        }
        lo
    }

    /// The position of the entry of `category`, if any.
    fn position(&self, category: Category) -> (r: Option<usize>)
        requires
            self.wf(),
        ensures
            r matches Some(i) ==> spec_position(self.inner@, category) == Some(i as int) && i < self.inner@.len(),
            r is None ==> spec_position(self.inner@, category) is None,
    {
        let i = self.lower_bound(category);
        if i < self.inner.len() && self.inner[i].category == category {
            proof {
                lemma_position_at(self.inner@, i as int);
            }
            Some(i)
        } else {
            proof {
                assert forall|j: int| 0 <= j < self.inner@.len() implies self.inner@[j].spec_category() != category by {
                    if j > i {
                        assert(self.inner@[i as int].spec_category().spec_repr() < self.inner@[j].spec_category().spec_repr());
                    }
                }
                lemma_position_none(self.inner@, category);
            }
            None
        }
    }

    /// The indexes of `category`, if it has an entry.
    pub fn get(&self, category: Category) -> (r: Option<&[Index]>)
        requires
            self.wf(),
        ensures
            r is Some <==> self@.dom().contains(category),
            r matches Some(s) ==> s@ == self@[category],
    {
        match self.position(category) {
            Some(i) => Some(self.inner[i].index_vec.as_slice()),
            None => None,
        }
    }

    /// The indexes of `category`, to which indexes can be added; an entry with
    /// no indexes is made for it first if it has none.
    pub fn get_mut_or_create_new(&mut self, category: Category) -> (r: &mut Vec<Index>)
        requires
            old(self).wf(),
        ensures
            r@ == (if old(self)@.dom().contains(category) {
                old(self)@[category]
            } else {
                Seq::<Index>::empty()
            }),
            final(self).wf(),
            final(self)@ == old(self)@.insert(category, final(r)@),
    {
        let i = self.lower_bound(category);
        if i < self.inner.len() && self.inner[i].category == category {
            proof {
                lemma_position_at(self.inner@, i as int);
            }
            let ghost before = self.inner@;
            let r = &mut self.inner[i].index_vec;
            proof {
                lemma_map_update(
                    before,
                    i as int,
                    IndexesEntry { category, index_vec: *final(r) },
                );
            }
            r
        } else {
            proof {
                assert forall|j: int| 0 <= j < self.inner@.len() implies self.inner@[j].spec_category() != category by {
                    if j > i {
                        assert(self.inner@[i as int].spec_category().spec_repr() < self.inner@[j].spec_category().spec_repr());
                    }
                }
                lemma_position_none(self.inner@, category);
                assert forall|j: int| i <= j < self.inner@.len() implies (#[trigger] self.inner@[j].spec_category()).spec_repr() > category.spec_repr() by {
                    if self.inner@[j].spec_category().spec_repr() == category.spec_repr() {
                        crate::category::lemma_category_repr_roundtrip(category, category.spec_repr());
                        crate::category::lemma_category_repr_roundtrip(self.inner@[j].spec_category(), category.spec_repr());
                    }
                }
            }
            let ghost before = self.inner@;
            self.inner.insert(i, IndexesEntry::new(category));
            let ghost middle = self.inner@;
            proof {
                lemma_map_insert(before, i as int, middle[i as int]);
                lemma_position_at(middle, i as int);
            }
            let r = &mut self.inner[i].index_vec;
            proof {
                lemma_map_update(
                    middle,
                    i as int,
                    IndexesEntry { category, index_vec: *final(r) },
                );
            }
            r
        }
    }
}

/// Reading a category after `get_mut_or_create_new` gives what was left
/// behind the reference it returned, and leaves the other categories as they
/// were: with `before` the view before the call, `after` the one after it and
/// `written` the final contents behind the reference.
pub proof fn lemma_get_after_get_mut_or_create_new(
    before: Map<Category, Seq<Index>>,
    after: Map<Category, Seq<Index>>,
    category: Category,
    written: Seq<Index>,
)
    requires
        after == before.insert(category, written),
    ensures
        after.dom().contains(category),
        after[category] == written,
        forall|other: Category| other != category ==> (#[trigger] after.dom().contains(other)
            <==> before.dom().contains(other)),
        forall|other: Category| other != category && before.dom().contains(other) ==> #[trigger] after[other]
            == before[other],
{
}

} // verus!
