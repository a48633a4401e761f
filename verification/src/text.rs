//! Text helpers: comparisons, and the few facts of std's string and path
//! functions that the library builds on.
use vstd::prelude::*;
use vstd::string::StringSliceAdditionalSpecFns;

verus! {

/// Whether the strings `a` and `b` hold the same characters.
pub fn str_eq(a: &str, b: &str) -> (r: bool)
    ensures
        r == (a@ == b@),
{
    let x = a.as_bytes();
    let y = b.as_bytes();
    proof {
        vstd::utf8::encode_utf8_decode_utf8(a@);
        vstd::utf8::encode_utf8_decode_utf8(b@);
    }
    if x.len() != y.len() {
        return false;
    }
    let mut i: usize = 0;
    while i < x.len()
        invariant
            0 <= i <= x@.len(),
            x@.len() == y@.len(),
            x@ == a.spec_bytes(),
            y@ == b.spec_bytes(),
            forall|j: int| 0 <= j < i ==> x@[j] == y@[j],
        decreases x@.len() - i,
    {
        if x[i] != y[i] {
            return false;
        }
        i += 1;
    }
    assert(x@ =~= y@);
    true
}

/// The characters of `s`.
pub fn chars_of(s: &str) -> (v: Vec<char>)
    ensures
        v@ == s@,
{
    let mut v: Vec<char> = Vec::new();
    for c in it: s.chars()
        invariant
            v@ == it.seq().take(it.index() as int),
    {
        v.push(c);
    }
    v
}

/// The lowercase equivalent of a string, as std's `str::to_lowercase` computes it.
pub uninterp spec fn spec_to_lowercase(s: Seq<char>) -> Seq<char>;

/// An ASCII character in lowercase: `A` to `Z` become `a` to `z`, and the
/// others stay.
pub open spec fn spec_ascii_lowercase_char(c: char) -> char {
    if 'A' <= c <= 'Z' {
        ((c as u32) + 32) as char
    } else {
        c
    }
}

/// An ASCII text in lowercase, character by character.
pub open spec fn spec_ascii_lowercase(s: Seq<char>) -> Seq<char> {
    s.map_values(|c: char| spec_ascii_lowercase_char(c))
}

/// Calls `str::to_lowercase`. Its result is named `spec_to_lowercase`: std
/// defines it by the Unicode `Lowercase` property, in terms that take pages.
/// Two facts of the Unicode mapping are stated: of an ASCII text it is the
/// one of ASCII (`A` to `Z` become `a` to `z`, the other characters stay); and
/// as each character is mapped on its own, `/` to itself, and no character's
/// lowercase holds a `/`, the result holds a `/` exactly when the text does.
#[verifier::external_body]
pub fn to_lowercase(s: &str) -> (r: String)
    ensures
        r@ == spec_to_lowercase(s@),
        vstd::utf8::is_ascii_chars(s@) ==> r@ == spec_ascii_lowercase(s@),
        r@.contains('/') <==> s@.contains('/'),
{
    s.to_lowercase()
}

/// The UTF-8 bytes of the lowercase equivalent of `s`.
pub open spec fn spec_lowercase_bytes(s: Seq<char>) -> Seq<u8> {
    vstd::utf8::encode_utf8(spec_to_lowercase(s))
}

/// The bytes of an ASCII text in lowercase.
pub open spec fn spec_ascii_lowercase_bytes(s: Seq<char>) -> Seq<u8> {
    vstd::utf8::encode_utf8(spec_ascii_lowercase(s))
}

/// The file stem of a path, as std's `Path::file_stem` computes it, when it is
/// valid UTF-8.
pub uninterp spec fn spec_path_file_stem(path: Seq<char>) -> Option<Seq<char>>;

/// The extension of a path, as std's `Path::extension` computes it, when it is
/// valid UTF-8.
pub uninterp spec fn spec_path_extension(path: Seq<char>) -> Option<Seq<char>>;

/// Calls `Path::file_stem` on `path` and keeps the stem if it is valid UTF-8
/// (`OsStr::to_str`). The result is named `spec_path_file_stem`; it depends on
/// how the target platform splits a path into components, which is not stated.
#[verifier::external_body]
pub fn path_file_stem(path: &str) -> (r: Option<String>)
    ensures
        r matches Some(s) ==> spec_path_file_stem(path@) == Some(s@),
        r is None ==> spec_path_file_stem(path@) is None,
{
    std::path::Path::new(path).file_stem().and_then(|s| s.to_str()).map(|s| s.to_string())
}

/// Calls `Path::extension` on `path` and keeps the extension if it is valid
/// UTF-8 (`OsStr::to_str`). The result is named `spec_path_extension`; it
/// depends on how the target platform splits a path into components, which is
/// not stated.
#[verifier::external_body]
pub fn path_extension(path: &str) -> (r: Option<String>)
    ensures
        r matches Some(s) ==> spec_path_extension(path@) == Some(s@),
        r is None ==> spec_path_extension(path@) is None,
{
    std::path::Path::new(path).extension().and_then(|s| s.to_str()).map(|s| s.to_string())
}

/// Whether `a` comes no later than `b` in the lexicographic order of their
/// characters, which is that of their UTF-8 bytes.
pub open spec fn spec_lex_le(a: Seq<char>, b: Seq<char>) -> bool
    decreases a.len(),
{
    if a.len() == 0 {
        true
    } else if b.len() == 0 {
        false
    } else if a[0] != b[0] {
        (a[0] as u32) < (b[0] as u32)
    } else {
        spec_lex_le(a.drop_first(), b.drop_first())
    }
}

/// Two texts that agree on their first `i` characters compare as what follows them.
proof fn lemma_lex_le_skip(a: Seq<char>, b: Seq<char>, i: int)
    requires
        0 <= i <= a.len(),
        i <= b.len(),
        forall|j: int| 0 <= j < i ==> a[j] == b[j],
    ensures
        spec_lex_le(a, b) == spec_lex_le(a.skip(i), b.skip(i)),
    decreases i,
{
    if i > 0 {
        assert(a.skip(1).skip(i - 1) =~= a.skip(i));
        assert(b.skip(1).skip(i - 1) =~= b.skip(i));
        assert(a.drop_first() =~= a.skip(1));
        assert(b.drop_first() =~= b.skip(1));
        lemma_lex_le_skip(a.skip(1), b.skip(1), i - 1);
    } else {
        assert(a.skip(0) =~= a);
        assert(b.skip(0) =~= b);
    }
}

/// The order is total.
pub proof fn lemma_lex_le_total(a: Seq<char>, b: Seq<char>)
    ensures
        spec_lex_le(a, b) || spec_lex_le(b, a),
    decreases a.len(),
{
    if a.len() > 0 && b.len() > 0 {
        vstd::utf8::char_u32_cast(a[0], a[0] as u32);
        vstd::utf8::char_u32_cast(b[0], b[0] as u32);
        if a[0] == b[0] {
            lemma_lex_le_total(a.drop_first(), b.drop_first());
        }
    }
}

/// The order is transitive.
pub proof fn lemma_lex_le_transitive(a: Seq<char>, b: Seq<char>, c: Seq<char>)
    requires
        spec_lex_le(a, b),
        spec_lex_le(b, c),
    ensures
        spec_lex_le(a, c),
    decreases a.len(),
{
    if a.len() > 0 && b.len() > 0 && c.len() > 0 && a[0] == b[0] && b[0] == c[0] {
        lemma_lex_le_transitive(a.drop_first(), b.drop_first(), c.drop_first());
    }
}

/// The order is antisymmetric.
pub proof fn lemma_lex_le_antisymmetric(a: Seq<char>, b: Seq<char>)
    requires
        spec_lex_le(a, b),
        spec_lex_le(b, a),
    ensures
        a == b,
    decreases a.len(),
{
    if a.len() > 0 && b.len() > 0 {
        lemma_lex_le_antisymmetric(a.drop_first(), b.drop_first());
        assert(a =~= seq![a[0]] + a.drop_first());
        assert(b =~= seq![b[0]] + b.drop_first());
    }
}

/// Whether `a` comes no later than `b`, comparing characters.
pub fn lex_le(a: &str, b: &str) -> (r: bool)
    ensures
        r == spec_lex_le(a@, b@),
{
    let x = chars_of(a);
    let y = chars_of(b);
    let mut i: usize = 0;
    while i < x.len() && i < y.len() && x[i] == y[i]
        invariant
            i <= x@.len(),
            i <= y@.len(),
            forall|j: int| 0 <= j < i ==> x@[j] == y@[j],
        decreases x@.len() - i,
    {
        i = i + 1;
    }
    proof {
        lemma_lex_le_skip(x@, y@, i as int);
    }
    if i == x.len() {
        true
    } else if i == y.len() {
        false
    } else {
        let c = x[i];
        let d = y[i];
        proof {
            assert(x@.skip(i as int)[0] == c);
            assert(y@.skip(i as int)[0] == d);
        }
        (c as u32) < (d as u32)
    }
}

/// The characters of each string.
pub open spec fn spec_views(v: Seq<String>) -> Seq<Seq<char>> {
    v.map_values(|s: String| s@)
}

/// Whether the texts are sorted.
pub open spec fn spec_lex_sorted(v: Seq<Seq<char>>) -> bool {
    forall|i: int, j: int| 0 <= i <= j < v.len() ==> spec_lex_le(#[trigger] v[i], #[trigger] v[j])
}

/// The strings sorted by their characters, which orders them as their UTF-8 bytes.
pub fn sort_strings(v: Vec<String>) -> (r: Vec<String>)
    ensures
        spec_lex_sorted(spec_views(r@)),
        spec_views(r@).to_multiset() == spec_views(v@).to_multiset(),
{
    let mut out: Vec<String> = Vec::new();
    let mut i: usize = 0;
    let n = v.len();
    assert(spec_views(out@) =~= Seq::<Seq<char>>::empty());
    assert(spec_views(v@).take(0) =~= Seq::<Seq<char>>::empty());
    while i < n
        invariant
            i <= n == v@.len(),
            spec_lex_sorted(spec_views(out@)),
            spec_views(out@).to_multiset() == spec_views(v@).take(i as int).to_multiset(),
        decreases n - i,
    {
        let s = v[i].clone();
        let ghost sv = v@[i as int]@;
        assert(s@ == sv);
        let mut k: usize = 0;
        while k < out.len() && lex_le(out[k].as_str(), s.as_str())
            invariant
                k <= out@.len(),
                forall|j: int| 0 <= j < k ==> spec_lex_le(#[trigger] out@[j]@, sv),
                s@ == sv,
            decreases out@.len() - k,
        {
            k = k + 1;
        }
        let ghost before = spec_views(out@);
        proof {
            if k < out@.len() {
                lemma_lex_le_total(out@[k as int]@, sv);
            }
        }
        out.insert(k, s);
        proof {
            assert(spec_views(out@) =~= before.insert(k as int, sv));
            assert(spec_views(v@).take(i + 1) =~= spec_views(v@).take(i as int).push(sv));
            assert(before.len() == out@.len() - 1);
            vstd::seq_lib::to_multiset_insert(before, k as int, sv);
            vstd::seq_lib::to_multiset_build(spec_views(v@).take(i as int), sv);
            let w = spec_views(out@);
            assert forall|a: int, b: int| 0 <= a <= b < w.len() implies spec_lex_le(#[trigger] w[a], #[trigger] w[b]) by {
                if a < k && b == k {
                } else if a < k && b > k {
                    assert(spec_lex_le(before[a], before[b - 1]));
                } else if a == k && b > k {
                    if b - 1 > k {
                        assert(spec_lex_le(before[k as int], before[b - 1]));
                        lemma_lex_le_transitive(sv, before[k as int], before[b - 1]);
                    }
                } else if a > k {
                    assert(spec_lex_le(before[a - 1], before[b - 1]));
                } else if a < k && b < k {
                    assert(spec_lex_le(before[a], before[b]));
                } else {
                    lemma_lex_le_total(sv, sv);
                }
            }
        }
        i = i + 1;
    }
    assert(spec_views(v@).take(n as int) =~= spec_views(v@));
    out
}

} // verus!
