//! Index files: their kinds, and the information in their names.
use vstd::prelude::*;
use vstd::string::{StrSliceExecFns, StringExecFns, StringSliceAdditionalSpecFns};
use vstd::utf8::{encode_utf8, is_char_boundary};

use crate::category::{lemma_category_repr_roundtrip, Category};
use crate::num::{
    lemma_hex2_roundtrip, parse_u8_radix, push_hex2, spec_hex2, spec_parse_u8_radix,
    IntErrorKind, ParseIntError,
};
use crate::platform::{lemma_platform_name_roundtrip, Platform};
use crate::repository_type::{lemma_repository_repr_roundtrip, RepositoryType};
use crate::sqpack::index::IndexType as SqPackIndexType;
use crate::text::{
    chars_of, path_extension, path_file_stem, spec_path_extension, spec_path_file_stem, str_eq,
};
use crate::ParseEnumError;

verus! {

#[derive(Debug, Copy, Clone, PartialEq, Eq, Structural, PartialOrd, Ord, Hash)]
pub enum IndexType {
    Index,
    Index2,
}

impl IndexType {
    /// The number of the index type.
    pub open spec fn spec_repr(self) -> u8 {
        match self {
            IndexType::Index => 0x0,
            IndexType::Index2 => 0x2,
        }
    }

    /// The index type with the number `n`, if there is one.
    pub fn from_repr(n: u8) -> (r: Option<IndexType>)
        ensures
            r matches Some(t) ==> t.spec_repr() == n,
            r is None ==> n != 0x0 && n != 0x2,
    {
        match n {
            0x0 => Some(IndexType::Index),
            0x2 => Some(IndexType::Index2),
            _ => None,
        }
    }

    /// The extension of index files of this type.
    pub open spec fn spec_name(self) -> Seq<char> {
        match self {
            IndexType::Index => "index"@,
            IndexType::Index2 => "index2"@,
        }
    }

    /// The index type whose extension is `s`, if any.
    pub open spec fn spec_parse(s: Seq<char>) -> Option<IndexType> {
        if s == "index"@ {
            Some(IndexType::Index)
        } else if s == "index2"@ {
            Some(IndexType::Index2)
        } else {
            None
        }
    }

    /// The index type whose extension is `s`; an error holding `s` if there is none.
    pub fn parse(s: &str) -> (r: Result<IndexType, ParseEnumError>)
        ensures
            r is Ok <==> Self::spec_parse(s@) is Some,
            r matches Ok(t) ==> Self::spec_parse(s@) == Some(t),
            r matches Err(e) ==> e@ == s@,
    {
        if str_eq(s, "index") {
            Ok(IndexType::Index)
        } else if str_eq(s, "index2") {
            Ok(IndexType::Index2)
        } else {
            Err(ParseEnumError::new(s))
        }
    }

    /// The extension of index files of this type.
    pub fn to_string(&self) -> (r: String)
        ensures
            r@ == self.spec_name(),
    {
        match self {
            IndexType::Index => "index".to_owned(),
            IndexType::Index2 => "index2".to_owned(),
        }
    }

    /// The index type as the index file format names it.
    pub open spec fn spec_sqpack_index_type(self) -> SqPackIndexType {
        match self {
            IndexType::Index => SqPackIndexType::Index1,
            IndexType::Index2 => SqPackIndexType::Index2,
        }
    }
}

impl std::str::FromStr for IndexType {
    type Err = ParseEnumError;

    fn from_str(s: &str) -> (r: Result<IndexType, ParseEnumError>)
        ensures
            r is Ok <==> IndexType::spec_parse(s@) is Some,
            r matches Ok(v) ==> IndexType::spec_parse(s@) == Some(v),
            r matches Err(e) ==> e@ == s@,
    {
        IndexType::parse(s)
    }
}

impl From<IndexType> for SqPackIndexType {
    fn from(index_type: IndexType) -> (r: SqPackIndexType) {
        match index_type {
            IndexType::Index => SqPackIndexType::Index1,
            IndexType::Index2 => SqPackIndexType::Index2,
        }
    }
}

impl vstd::std_specs::convert::FromSpecImpl<IndexType> for SqPackIndexType {
    open spec fn obeys_from_spec() -> bool {
        true
    }

    open spec fn from_spec(index_type: IndexType) -> SqPackIndexType {
        index_type.spec_sqpack_index_type()
    }
}

/// Parsing the extension of an index type gives the index type back.
pub proof fn lemma_index_type_name_roundtrip(t: IndexType)
    ensures
        IndexType::spec_parse(t.spec_name()) == Some(t),
{
    reveal_strlit("index");
    reveal_strlit("index2");
    assert("index"@.len() == 5);
    assert("index2"@.len() == 6);
}

/// What the name of an index file tells: the category, repository, chunk and
/// platform of the data it indexes.
#[derive(Debug, Clone, Copy, PartialEq, Eq, Structural)]
pub struct IndexInfo {
    pub category: Category,
    pub repository_type: RepositoryType,
    pub chunk: u8,
    pub platform: Platform,
}

impl IndexInfo {
    /// The name: two lowercase hexadecimal digits each of the category, the
    /// repository and the chunk, a `.`, and the platform's name.
    pub open spec fn spec_name(self) -> Seq<char> {
        spec_hex2(self.category.spec_repr()) + spec_hex2(self.repository_type.spec_repr())
            + spec_hex2(self.chunk) + seq!['.'] + self.platform.spec_name()
    }

    /// The name of the index files that this information describes.
    pub fn to_string(&self) -> (r: String)
        ensures
            r@ == self.spec_name(),
    {
        let mut r = String::new();
        push_hex2(&mut r, u8::from(self.category));
        push_hex2(&mut r, u8::from(self.repository_type));
        push_hex2(&mut r, self.chunk);
        proof {
            reveal_strlit(".");
        }
        r.append(".");
        let platform = self.platform.to_string();
        r.append(platform.as_str());
        assert(r@ =~= self.spec_name());
        r
    }

    /// The information that the name `s` gives, as the error view for a failure.
    /// The name's UTF-8 bytes before the first `.` must be six, with character
    /// boundaries after the second and fourth; each pair of them is parsed, as
    /// bytes, as a hexadecimal byte; the characters after the first `.` name
    /// the platform.
    pub open spec fn spec_parse(s: Seq<char>) -> Result<IndexInfo, ParseIndexInfoErrorView> {
        let b = encode_utf8(s);
        match spec_first_index_of_char(s, '.') {
            None => Err(ParseIndexInfoErrorView::FormatInvalid),
            Some(k) => if encode_utf8(s.subrange(0, k)).len() == 6 && is_char_boundary(b, 2)
                && is_char_boundary(b, 4) {
                let platform = s.subrange(k + 1, s.len() as int);
                match spec_parse_u8_radix(spec_bytes_as_chars(b.subrange(0, 2)), 16) {
                    Err(k) => Err(ParseIndexInfoErrorView::IntegerPartParsingError(k)),
                    Ok(c) => match Category::spec_from_repr(c) {
                        None => Err(ParseIndexInfoErrorView::CategoryInvalid),
                        Some(category) => match spec_parse_u8_radix(
                            spec_bytes_as_chars(b.subrange(2, 4)),
                            16,
                        ) {
                            Err(k) => Err(ParseIndexInfoErrorView::IntegerPartParsingError(k)),
                            Ok(r) => match spec_parse_u8_radix(
                                spec_bytes_as_chars(b.subrange(4, 6)),
                                16,
                            ) {
                                Err(k) => Err(ParseIndexInfoErrorView::IntegerPartParsingError(k)),
                                Ok(chunk) => match Platform::spec_parse(platform) {
                                    None => Err(ParseIndexInfoErrorView::PartParsingError(platform)),
                                    Some(p) => Ok(
                                        IndexInfo {
                                            category,
                                            repository_type: RepositoryType::spec_from_u8(r),
                                            chunk,
                                            platform: p,
                                        },
                                    ),
                                },
                            },
                        },
                    },
                }
            } else {
                Err(ParseIndexInfoErrorView::FormatInvalid)
            },
        }
    }

    /// The information that the name `s` gives.
    pub fn parse(s: &str) -> (r: Result<IndexInfo, ParseIndexInfoError>)
        ensures
            spec_index_info_result_view(r) == Self::spec_parse(s@),
    {
        let b = s.as_bytes();
        proof {
            vstd::utf8::encode_utf8_valid_utf8(s@);
        }
        let cs = chars_of(s);
        let k = match first_index_of_char(&cs, '.') {
            Some(k) => k,
            None => return Err(ParseIndexInfoError::FormatInvalid),
        };
        let index_name = s.substring_char(0, k);
        let byte_len = b.len();
        proof {
            assert(s@ =~= s@.subrange(0, k as int) + s@.subrange(k as int, s@.len() as int));
            lemma_encode_utf8_append(s@.subrange(0, k as int), s@.subrange(k as int, s@.len() as int));
            assert(index_name.spec_bytes().len() <= byte_len);
        }
        if index_name.len() != 6 || !s.is_char_boundary(2) || !s.is_char_boundary(4) {
            return Err(ParseIndexInfoError::FormatInvalid);
        }
        assert(k < cs.len());
        assert(encode_utf8(s@.subrange(0, k as int)).len() == 6);
        assert(is_char_boundary(encode_utf8(s@), 2) && is_char_boundary(encode_utf8(s@), 4));
        let platform = s.substring_char(k + 1, cs.len());

        let category = match parse_hex_pair(b, 0) {
            Err(e) => return Err(ParseIndexInfoError::IntegerPartParsingError(e)),
            Ok(c) => match Category::from_repr(c) {
                Some(category) => category,
                None => return Err(ParseIndexInfoError::CategoryInvalid),
            },
        };
        let repository_type = match parse_hex_pair(b, 2) {
            Err(e) => return Err(ParseIndexInfoError::IntegerPartParsingError(e)),
            Ok(r) => RepositoryType::from(r),
        };
        let chunk = match parse_hex_pair(b, 4) {
            Err(e) => return Err(ParseIndexInfoError::IntegerPartParsingError(e)),
            Ok(c) => c,
        };
        let platform = match Platform::parse(platform) {
            Ok(p) => p,
            Err(e) => return Err(ParseIndexInfoError::PartParsingError(e)),
        };
        Ok(IndexInfo { category, repository_type, chunk, platform })
    }
}

impl std::str::FromStr for IndexInfo {
    type Err = ParseIndexInfoError;

    fn from_str(s: &str) -> (r: Result<IndexInfo, ParseIndexInfoError>)
        ensures
            spec_index_info_result_view(r) == IndexInfo::spec_parse(s@),
    {
        IndexInfo::parse(s)
    }
}

/// The characters that the bytes `b` stand for when each is read as a
/// character on its own, as `u8::from_str_radix` reads its digits.
pub open spec fn spec_bytes_as_chars(b: Seq<u8>) -> Seq<char> {
    b.map_values(|x: u8| x as char)
}

/// The position of the first character `c` in `s`, if any.
pub open spec fn spec_first_index_of_char(s: Seq<char>, c: char) -> Option<int>
    decreases s.len(),
{
    if s.len() == 0 {
        None
    } else if s[0] == c {
        Some(0)
    } else {
        match spec_first_index_of_char(s.drop_first(), c) {
            Some(i) => Some(i + 1),
            None => None,
        }
    }
}

/// Where the first `c` is, in terms of the positions before it.
pub proof fn lemma_first_index_of_char(s: Seq<char>, c: char)
    ensures
        spec_first_index_of_char(s, c) matches Some(i) ==> 0 <= i < s.len() && s[i] == c
            && forall|j: int| 0 <= j < i ==> s[j] != c,
        spec_first_index_of_char(s, c) is None ==> forall|j: int| 0 <= j < s.len() ==> s[j] != c,
    decreases s.len(),
{
    if s.len() > 0 {
        lemma_first_index_of_char(s.drop_first(), c);
        assert forall|j: int| 0 < j < s.len() implies s.drop_first()[j - 1] == s[j] by {}
    }
}

/// The first position `i` with `s[i] == c` and none before is `spec_first_index_of_char`.
pub proof fn lemma_first_index_of_char_is(s: Seq<char>, c: char, i: int)
    requires
        0 <= i < s.len(),
        s[i] == c,
        forall|j: int| 0 <= j < i ==> s[j] != c,
    ensures
        spec_first_index_of_char(s, c) == Some(i),
    decreases i,
{
    if i > 0 {
        lemma_first_index_of_char_is(s.drop_first(), c, i - 1);
    }
}

fn first_index_of_char(s: &Vec<char>, c: char) -> (r: Option<usize>)
    ensures
        r matches Some(i) ==> spec_first_index_of_char(s@, c) == Some(i as int) && i < s@.len(),
        r is None ==> spec_first_index_of_char(s@, c) is None,
{
    proof {
        lemma_first_index_of_char(s@, c);
    }
    let mut i: usize = 0;
    while i < s.len()
        invariant
            i <= s@.len(),
            forall|j: int| 0 <= j < i ==> s@[j] != c,
        decreases s@.len() - i,
    {
        if s[i] == c {
            proof {
                lemma_first_index_of_char_is(s@, c, i as int);
            }
            return Some(i);
        }
        i = i + 1;
    }
    None
}

/// Parses the bytes `b[at..at + 2]`, each read as a character, as a hexadecimal byte.
fn parse_hex_pair(b: &[u8], at: usize) -> (r: Result<u8, ParseIntError>)
    requires
        at + 2 <= b@.len(),
    ensures
        match r {
            Ok(v) => spec_parse_u8_radix(spec_bytes_as_chars(b@.subrange(at as int, at + 2)), 16)
                == Ok::<u8, IntErrorKind>(v),
            Err(e) => spec_parse_u8_radix(spec_bytes_as_chars(b@.subrange(at as int, at + 2)), 16)
                == Err::<u8, IntErrorKind>(e.kind),
        },
{
    let mut cs: Vec<char> = Vec::new();
    cs.push(b[at] as char);
    cs.push(b[at + 1] as char);
    assert(cs@ =~= spec_bytes_as_chars(b@.subrange(at as int, at + 2)));
    assert(cs@.subrange(0, 2) =~= cs@);
    parse_u8_radix(&cs, 0, 16)
}

#[derive(Debug, Clone, PartialEq, Eq)]
pub enum ParseIndexInfoError {
    FormatInvalid,
    CategoryInvalid,
    IntegerPartParsingError(ParseIntError),
    PartParsingError(ParseEnumError),
}

/// A parse error of index file information, with the text of a name that
/// failed to parse as a sequence of characters.
pub ghost enum ParseIndexInfoErrorView {
    FormatInvalid,
    CategoryInvalid,
    IntegerPartParsingError(IntErrorKind),
    PartParsingError(Seq<char>),
}

impl View for ParseIndexInfoError {
    type V = ParseIndexInfoErrorView;

    open spec fn view(&self) -> ParseIndexInfoErrorView {
        match self {
            ParseIndexInfoError::FormatInvalid => ParseIndexInfoErrorView::FormatInvalid,
            ParseIndexInfoError::CategoryInvalid => ParseIndexInfoErrorView::CategoryInvalid,
            ParseIndexInfoError::IntegerPartParsingError(e) => ParseIndexInfoErrorView::IntegerPartParsingError(e.kind),
            ParseIndexInfoError::PartParsingError(e) => ParseIndexInfoErrorView::PartParsingError(e@),
        }
    }
}

impl ParseIndexInfoError {
    /// The message of this error.
    pub open spec fn spec_message(self) -> Seq<char> {
        match self {
            ParseIndexInfoError::FormatInvalid => "Invalid format"@,
            ParseIndexInfoError::CategoryInvalid => "Invalid category"@,
            ParseIndexInfoError::IntegerPartParsingError(e) => "Invalid part: "@ + e.spec_message(),
            ParseIndexInfoError::PartParsingError(e) => "Invalid part: "@ + e.spec_message(),
        }
    }

    /// The message of this error.
    pub fn to_string(&self) -> (r: String)
        ensures
            r@ == self.spec_message(),
    {
        match self {
            ParseIndexInfoError::FormatInvalid => "Invalid format".to_owned(),
            ParseIndexInfoError::CategoryInvalid => "Invalid category".to_owned(),
            ParseIndexInfoError::IntegerPartParsingError(e) => {
                let mut r = "Invalid part: ".to_owned();
                r.append(e.to_string().as_str());
                r
            },
            ParseIndexInfoError::PartParsingError(e) => {
                let mut r = "Invalid part: ".to_owned();
                r.append(e.to_string().as_str());
                r
            },
        }
    }
}

impl From<ParseEnumError> for ParseIndexInfoError {
    fn from(err: ParseEnumError) -> (r: ParseIndexInfoError)
        ensures
            r@ == ParseIndexInfoErrorView::PartParsingError(err@),
    {
        ParseIndexInfoError::PartParsingError(err)
    }
}

impl From<ParseIntError> for ParseIndexInfoError {
    fn from(err: ParseIntError) -> (r: ParseIndexInfoError)
        ensures
            r@ == ParseIndexInfoErrorView::IntegerPartParsingError(err.kind),
    {
        ParseIndexInfoError::IntegerPartParsingError(err)
    }
}

impl vstd::std_specs::convert::FromSpecImpl<ParseEnumError> for ParseIndexInfoError {
    open spec fn obeys_from_spec() -> bool {
        true
    }

    open spec fn from_spec(err: ParseEnumError) -> ParseIndexInfoError {
        ParseIndexInfoError::PartParsingError(err)
    }
}

impl vstd::std_specs::convert::FromSpecImpl<ParseIntError> for ParseIndexInfoError {
    open spec fn obeys_from_spec() -> bool {
        true
    }

    open spec fn from_spec(err: ParseIntError) -> ParseIndexInfoError {
        ParseIndexInfoError::IntegerPartParsingError(err)
    }
}

/// The UTF-8 encoding of a concatenation is the concatenation of the encodings.
pub proof fn lemma_encode_utf8_append(a: Seq<char>, b: Seq<char>)
    ensures
        encode_utf8(a + b) == encode_utf8(a) + encode_utf8(b),
    decreases a.len(),
{
    if a.len() == 0 {
        assert(a + b =~= b);
        assert(encode_utf8(a) + encode_utf8(b) =~= encode_utf8(b));
    } else {
        assert((a + b).drop_first() =~= a.drop_first() + b);
        lemma_encode_utf8_append(a.drop_first(), b);
        assert(encode_utf8(a + b) =~= encode_utf8(a) + encode_utf8(b));
    }
}

/// The view of a parse of index file information.
pub open spec fn spec_index_info_result_view(r: Result<IndexInfo, ParseIndexInfoError>) -> Result<
    IndexInfo,
    ParseIndexInfoErrorView,
> {
    match r {
        Ok(info) => Ok(info),
        Err(e) => Err(e@),
    }
}

/// Parsing the name of index file information gives the information back.
pub proof fn lemma_index_info_name_roundtrip(info: IndexInfo)
    requires
        info.repository_type.spec_is_valid(),
    ensures
        IndexInfo::spec_parse(info.spec_name()) == Ok::<IndexInfo, ParseIndexInfoErrorView>(info),
{
    let s = info.spec_name();
    let b = encode_utf8(s);
    let c = info.category.spec_repr();
    let r = info.repository_type.spec_repr();
    let p = info.platform.spec_name();
    reveal_strlit("win32");
    reveal_strlit("ps3");
    reveal_strlit("ps4");
    reveal_strlit("ps5");
    reveal_strlit("lys");
    assert(vstd::utf8::is_ascii_chars(s));
    vstd::utf8::is_ascii_chars_encode_utf8(s);
    assert(b.len() == s.len());
    assert forall|i: int| 0 <= i < s.len() implies b[i] == s[i] as u8 by {}
    assert(s[6] == '.');
    assert(s.subrange(0, 6) =~= spec_hex2(c) + spec_hex2(r) + spec_hex2(info.chunk));
    vstd::utf8::is_ascii_chars_encode_utf8(s.subrange(0, 6));
    assert forall|j: int| 0 <= j < 6 implies s[j] != '.' by {}
    lemma_first_index_of_char_is(s, '.', 6);
    vstd::utf8::encode_utf8_valid_utf8(s);
    vstd::utf8::is_char_boundary_iff_is_leading_byte(b, 2);
    vstd::utf8::is_char_boundary_iff_is_leading_byte(b, 4);
    lemma_hex2_roundtrip(c);
    lemma_hex2_roundtrip(r);
    lemma_hex2_roundtrip(info.chunk);
    assert(spec_bytes_as_chars(b.subrange(0, 2)) =~= spec_hex2(c));
    assert(spec_bytes_as_chars(b.subrange(2, 4)) =~= spec_hex2(r));
    assert(spec_bytes_as_chars(b.subrange(4, 6)) =~= spec_hex2(info.chunk));
    assert(s.subrange(7, s.len() as int) =~= p);
    lemma_category_repr_roundtrip(info.category, c);
    lemma_repository_repr_roundtrip(info.repository_type, r);
    lemma_platform_name_roundtrip(info.platform);
}

#[derive(Debug, Clone, PartialEq, Eq)]
pub enum IndexClassificationError {
    InvalidPath,
    FailedToParseEnum(ParseEnumError),
    FailedToParseIndexInfo(ParseIndexInfoError),
}

/// A classification error, with the texts that failed to parse as sequences of characters.
pub ghost enum IndexClassificationErrorView {
    InvalidPath,
    FailedToParseEnum(Seq<char>),
    FailedToParseIndexInfo(ParseIndexInfoErrorView),
}

impl View for IndexClassificationError {
    type V = IndexClassificationErrorView;

    open spec fn view(&self) -> IndexClassificationErrorView {
        match self {
            IndexClassificationError::InvalidPath => IndexClassificationErrorView::InvalidPath,
            IndexClassificationError::FailedToParseEnum(e) => IndexClassificationErrorView::FailedToParseEnum(e@),
            IndexClassificationError::FailedToParseIndexInfo(e) => IndexClassificationErrorView::FailedToParseIndexInfo(e@),
        }
    }
}

impl IndexClassificationError {
    /// The message of this error.
    pub open spec fn spec_message(self) -> Seq<char> {
        match self {
            IndexClassificationError::InvalidPath => "Invalid path"@,
            IndexClassificationError::FailedToParseEnum(e) => "Invalid part: "@ + e.spec_message(),
            IndexClassificationError::FailedToParseIndexInfo(e) => "Invalid part: "@ + e.spec_message(),
        }
    }

    /// The message of this error.
    pub fn to_string(&self) -> (r: String)
        ensures
            r@ == self.spec_message(),
    {
        match self {
            IndexClassificationError::InvalidPath => "Invalid path".to_owned(),
            IndexClassificationError::FailedToParseEnum(e) => {
                let mut r = "Invalid part: ".to_owned();
                r.append(e.to_string().as_str());
                r
            },
            IndexClassificationError::FailedToParseIndexInfo(e) => {
                let mut r = "Invalid part: ".to_owned();
                r.append(e.to_string().as_str());
                r
            },
        }
    }
}

impl From<ParseEnumError> for IndexClassificationError {
    fn from(err: ParseEnumError) -> (r: IndexClassificationError) {
        IndexClassificationError::FailedToParseEnum(err)
    }
}

impl vstd::std_specs::convert::FromSpecImpl<ParseEnumError> for IndexClassificationError {
    open spec fn obeys_from_spec() -> bool {
        true
    }

    open spec fn from_spec(err: ParseEnumError) -> IndexClassificationError {
        IndexClassificationError::FailedToParseEnum(err)
    }
}

impl From<ParseIndexInfoError> for IndexClassificationError {
    fn from(err: ParseIndexInfoError) -> (r: IndexClassificationError) {
        IndexClassificationError::FailedToParseIndexInfo(err)
    }
}

impl vstd::std_specs::convert::FromSpecImpl<ParseIndexInfoError> for IndexClassificationError {
    open spec fn obeys_from_spec() -> bool {
        true
    }

    open spec fn from_spec(err: ParseIndexInfoError) -> IndexClassificationError {
        IndexClassificationError::FailedToParseIndexInfo(err)
    }
}

/// The view of a classification.
pub open spec fn spec_classification_view(
    r: Result<(IndexInfo, IndexType), IndexClassificationError>,
) -> Result<(IndexInfo, IndexType), IndexClassificationErrorView> {
    match r {
        Ok(x) => Ok(x),
        Err(e) => Err(e@),
    }
}

/// The classification of an index file whose path has the file stem `file_stem`
/// and the extension `extension`: the stem gives the information, the
/// extension the index type.
pub open spec fn spec_classify_index_file(
    file_stem: Option<Seq<char>>,
    extension: Option<Seq<char>>,
) -> Result<(IndexInfo, IndexType), IndexClassificationErrorView> {
    match (file_stem, extension) {
        (Some(stem), Some(ext)) => match IndexInfo::spec_parse(stem) {
            Err(e) => Err(IndexClassificationErrorView::FailedToParseIndexInfo(e)),
            Ok(info) => match IndexType::spec_parse(ext) {
                None => Err(IndexClassificationErrorView::FailedToParseEnum(ext)),
                Some(t) => Ok((info, t)),
            },
        },
        _ => Err(IndexClassificationErrorView::InvalidPath),
    }
}

/// Classifies an index file by its file stem and extension.
pub fn classify_index_file_parts(file_stem: Option<&str>, extension: Option<&str>) -> (r: Result<
    (IndexInfo, IndexType),
    IndexClassificationError,
>)
    ensures
        spec_classification_view(r) == spec_classify_index_file(
            match file_stem {
                Some(s) => Some(s@),
                None => None,
            },
            match extension {
                Some(s) => Some(s@),
                None => None,
            },
        ),
{
    match (file_stem, extension) {
        (Some(stem), Some(ext)) => {
            let index_info = match IndexInfo::parse(stem) {
                Ok(info) => info,
                Err(e) => return Err(IndexClassificationError::FailedToParseIndexInfo(e)),
            };
            let index_type = match IndexType::parse(ext) {
                Ok(t) => t,
                Err(e) => return Err(IndexClassificationError::FailedToParseEnum(e)),
            };
            Ok((index_info, index_type))
        },
        _ => Err(IndexClassificationError::InvalidPath),
    }
}

/// Classifies the path to an index file by the info contained in the filename.
///
/// # Errors
/// Returns an [`IndexClassificationError`] if the path is invalid or parsing of its components fails.
pub fn classify_index_path(path: &str) -> (r: Result<(IndexInfo, IndexType), IndexClassificationError>)
    ensures
        spec_classification_view(r) == spec_classify_index_file(
            spec_path_file_stem(path@),
            spec_path_extension(path@),
        ),
{
    let file_stem = path_file_stem(path);
    let extension = path_extension(path);
    let stem_ref: Option<&str> = match &file_stem {
        Some(s) => Some(s.as_str()),
        None => None,
    };
    let ext_ref: Option<&str> = match &extension {
        Some(s) => Some(s.as_str()),
        None => None,
    };
    classify_index_file_parts(stem_ref, ext_ref)
}

} // verus!
