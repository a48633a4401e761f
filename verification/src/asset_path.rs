//! Paths of game assets: `category/repository/...`.
use vstd::prelude::*;
use vstd::string::StrSliceExecFns;

use crate::category::Category;
use crate::index_type::{
    lemma_first_index_of_char, lemma_first_index_of_char_is, spec_first_index_of_char,
};
use crate::repository_type::RepositoryType;
use crate::text::chars_of;
use crate::ParseEnumError;

verus! {

pub struct AssetPath<'a> {
    inner: &'a str,
}

impl<'a> View for AssetPath<'a> {
    type V = Seq<char>;

    closed spec fn view(&self) -> Seq<char> {
        self.inner@
    }
}

/// The part of `s` before the first `c` and the part after it; all of `s` and
/// nothing if there is no `c`.
pub open spec fn spec_split_once_or_all(s: Seq<char>, c: char) -> (Seq<char>, Seq<char>) {
    match spec_first_index_of_char(s, c) {
        Some(k) => (s.subrange(0, k), s.subrange(k + 1, s.len() as int)),
        None => (s, Seq::empty()),
    }
}

/// The part of `s` before the first `c`; nothing if there is no `c`.
pub open spec fn spec_before_first_or_empty(s: Seq<char>, c: char) -> Seq<char> {
    match spec_first_index_of_char(s, c) {
        Some(k) => s.subrange(0, k),
        None => Seq::empty(),
    }
}

/// The category that the first component of the path names (else the
/// component, as the text that failed to parse), and the repository that the
/// second component names when it is followed by a `/` (else the base game).
pub open spec fn spec_category_repository_type(path: Seq<char>) -> (Result<Category, Seq<char>>, RepositoryType) {
    let (category, rest) = spec_split_once_or_all(path, '/');
    let repository_type = spec_before_first_or_empty(rest, '/');
    (
        match Category::spec_parse(category) {
            Some(c) => Ok(c),
            None => Err(category),
        },
        match RepositoryType::spec_parse(repository_type) {
            Ok(r) => r,
            Err(_) => RepositoryType::BaseGame,
        },
    )
}

/// The view of a parsed category.
pub open spec fn spec_category_result_view(r: Result<Category, ParseEnumError>) -> Result<Category, Seq<char>> {
    match r {
        Ok(c) => Ok(c),
        Err(e) => Err(e@),
    }
}

/// The position of the first `c` in `cs[lo..]`, relative to `lo`.
fn first_index_of_char_from(cs: &Vec<char>, lo: usize, c: char) -> (r: Option<usize>)
    requires
        lo <= cs@.len(),
    ensures
        r matches Some(i) ==> spec_first_index_of_char(cs@.subrange(lo as int, cs@.len() as int), c)
            == Some(i as int) && lo + i < cs@.len(),
        r is None ==> spec_first_index_of_char(cs@.subrange(lo as int, cs@.len() as int), c) is None,
{
    let ghost s = cs@.subrange(lo as int, cs@.len() as int);
    proof {
        lemma_first_index_of_char(s, c);
    }
    let mut i: usize = lo;
    while i < cs.len()
        invariant
            lo <= i <= cs@.len(),
            s == cs@.subrange(lo as int, cs@.len() as int),
            forall|j: int| 0 <= j < i - lo ==> s[j] != c,
        decreases cs@.len() - i,
    {
        if cs[i] == c {
            proof {
                crate::index_type::lemma_first_index_of_char_is(s, c, i - lo);
            }
            return Some(i - lo);
        }
        i = i + 1;
    }
    None
}

impl<'a> AssetPath<'a> {
    /// The asset path `s`.
    pub fn new(s: &'a str) -> (r: AssetPath<'a>)
        ensures
            r@ == s@,
    {
        AssetPath { inner: s }
    }

    pub closed spec fn spec_new(s: &'a str) -> AssetPath<'a> {
        AssetPath { inner: s }
    }

    /// The text of the path.
    pub fn as_str(&self) -> (r: &'a str)
        ensures
            r@ == self@,
    {
        self.inner
    }

    /// The category that the first component of the path names.
    pub fn category(&self) -> (r: Result<Category, ParseEnumError>)
        ensures
            spec_category_result_view(r) == spec_category_repository_type(self@).0,
    {
        self.category_repository_type().0
    }

    /// The repository that the second component of the path names, or the base game.
    pub fn repository_type(&self) -> (r: RepositoryType)
        ensures
            r == spec_category_repository_type(self@).1,
    {
        self.category_repository_type().1
    }

    /// The category and the repository of the path.
    pub fn category_repository_type(&self) -> (r: (Result<Category, ParseEnumError>, RepositoryType))
        ensures
            spec_category_result_view(r.0) == spec_category_repository_type(self@).0,
            r.1 == spec_category_repository_type(self@).1,
    {
        let s = self.inner;
        let cs = chars_of(s);
        let n = cs.len();
        let (category, rest_start): (&str, usize) = match first_index_of_char_from(&cs, 0, '/') {
            Some(k) => (s.substring_char(0, k), k + 1),
            None => (s, n),
        };
        proof {
            assert(cs@.subrange(0, n as int) =~= cs@);
        }
        let repository_type: &str = match first_index_of_char_from(&cs, rest_start, '/') {
            Some(j) => s.substring_char(rest_start, rest_start + j),
            None => "",
        };
        proof {
            let rest = cs@.subrange(rest_start as int, n as int);
            assert(rest.subrange(0, 0) =~= Seq::<char>::empty());
            assert(Seq::<char>::empty().len() == 0);
            assert(forall|j: int| 0 <= j <= rest.len() ==> #[trigger] rest.subrange(0, j) =~= cs@.subrange(rest_start as int, rest_start + j));
        }
        proof {
            reveal_strlit("");
        }
        let category = Category::parse(category);
        let repository_type = match RepositoryType::parse(repository_type) {
            Ok(r) => r,
            Err(_) => RepositoryType::BaseGame,
        };
        (category, repository_type)
    }
}

impl<'a> From<&'a str> for AssetPath<'a> {
    fn from(value: &'a str) -> (r: AssetPath<'a>)
        ensures
            r@ == value@,
    {
        AssetPath { inner: value }
    }
}

impl<'a> vstd::std_specs::convert::FromSpecImpl<&'a str> for AssetPath<'a> {
    open spec fn obeys_from_spec() -> bool {
        true
    }

    open spec fn from_spec(value: &'a str) -> AssetPath<'a> {
        AssetPath::spec_new(value)
    }
}

impl<'a> AsRef<str> for AssetPath<'a> {
    fn as_ref(&self) -> (r: &str)
        ensures
            r@ == self@,
    {
        self.inner
    }
}

impl<'a> std::ops::Deref for AssetPath<'a> {
    type Target = &'a str;

    fn deref(&self) -> (r: &&'a str)
        ensures
            r@ == self@,
    {
        &self.inner
    }
}

/// Appending a character keeps the first `c` of a text that holds one.
proof fn lemma_first_index_of_char_push(s: Seq<char>, x: char, c: char)
    requires
        spec_first_index_of_char(s, c) is Some,
    ensures
        spec_first_index_of_char(s.push(x), c) == spec_first_index_of_char(s, c),
{
    lemma_first_index_of_char(s, c);
    let k = spec_first_index_of_char(s, c)->0;
    assert forall|j: int| 0 <= j < k implies s.push(x)[j] != c by {
        assert(s.push(x)[j] == s[j]);
    }
    lemma_first_index_of_char_is(s.push(x), c, k);
}

/// Whether `path` holds a number of `/` other than one: none, or another one
/// after the first.
pub open spec fn spec_slash_count_not_one(path: Seq<char>) -> bool {
    match spec_first_index_of_char(path, '/') {
        None => true,
        Some(k) => spec_first_index_of_char(path.subrange(k + 1, path.len() as int), '/') is Some,
    }
}

/// A `/` appended to a path that does not end in one, and holds a number of
/// `/` other than one, names the same category and repository. (With exactly
/// one `/`, as in `bg/ex1`, the `/` appended turns the second component into a
/// repository.)
pub proof fn lemma_category_repository_type_trailing_slash(path: Seq<char>)
    requires
        spec_slash_count_not_one(path),
    ensures
        spec_category_repository_type(path.push('/')) == spec_category_repository_type(path),
{
    let q = path.push('/');
    lemma_first_index_of_char(path, '/');
    match spec_first_index_of_char(path, '/') {
        None => {
            assert forall|j: int| 0 <= j < path.len() implies q[j] != '/' by {
                assert(q[j] == path[j]);
            }
            lemma_first_index_of_char_is(q, '/', path.len() as int);
            assert(q.subrange(0, path.len() as int) =~= path);
            assert(q.subrange(path.len() as int + 1, q.len() as int) =~= Seq::<char>::empty());
            lemma_first_index_of_char(Seq::<char>::empty(), '/');
        },
        Some(k) => {
            lemma_first_index_of_char_push(path, '/', '/');
            let rest = path.subrange(k + 1, path.len() as int);
            assert(q.subrange(0, k) =~= path.subrange(0, k));
            assert(q.subrange(k + 1, q.len() as int) =~= rest.push('/'));
            lemma_first_index_of_char_push(rest, '/', '/');
            let j = spec_first_index_of_char(rest, '/')->0;
            lemma_first_index_of_char(rest, '/');
            assert(rest.push('/').subrange(0, j) =~= rest.subrange(0, j));
        },
    }
}

} // verus!
