//! The repositories of game data: the base game and its expansions.
use vstd::prelude::*;
use vstd::string::StringExecFns;

use crate::num::{
    lemma_decimal_roundtrip, parse_nonzero_u8, push_decimal, spec_decimal,
    spec_parse_nonzero_u8, IntErrorKind, NonZeroU8, ParseIntError,
};
use crate::text::{chars_of, str_eq};

verus! {

broadcast use {NonZeroU8::lemma_from_value, NonZeroU8::lemma_get_injective};

#[derive(Debug, Clone, Copy, PartialEq, Eq, Structural, PartialOrd, Ord, Hash)]
pub enum RepositoryType {
    BaseGame,
    Expansion { number: NonZeroU8 },
}

impl RepositoryType {
    /// Whether an expansion's number is not zero, as the type invariant of
    /// `NonZeroU8` keeps it for every value that code holds.
    pub open spec fn spec_is_valid(self) -> bool {
        match self {
            RepositoryType::BaseGame => true,
            RepositoryType::Expansion { number } => number.spec_get() != 0,
        }
    }

    /// The number of the repository: zero for the base game, else that of the expansion.
    pub open spec fn spec_repr(self) -> u8 {
        match self {
            RepositoryType::BaseGame => 0,
            RepositoryType::Expansion { number } => number.spec_get(),
        }
    }

    /// The repository with the number `n`.
    pub open spec fn spec_from_u8(n: u8) -> RepositoryType {
        if n == 0 {
            RepositoryType::BaseGame
        } else {
            RepositoryType::Expansion { number: NonZeroU8::spec_from_value(n) }
        }
    }

    /// The name of the repository's folder: `ffxiv` for the base game, `ex`
    /// and the decimal number for an expansion.
    pub open spec fn spec_name(self) -> Seq<char> {
        match self {
            RepositoryType::BaseGame => "ffxiv"@,
            RepositoryType::Expansion { number } => "ex"@ + spec_decimal(number.spec_get()),
        }
    }

    /// The repository named `s`: `ffxiv`, or `ex` followed by a non-zero
    /// decimal number that fits a byte.
    pub open spec fn spec_parse(s: Seq<char>) -> Result<RepositoryType, ParseRepositoryTypeError> {
        if s == "ffxiv"@ {
            Ok(RepositoryType::BaseGame)
        } else if s.len() >= 2 && s[0] == 'e' && s[1] == 'x' {
            match spec_parse_nonzero_u8(s.subrange(2, s.len() as int)) {
                Ok(n) => Ok(RepositoryType::Expansion { number: NonZeroU8::spec_from_value(n) }),
                Err(kind) => Err(
                    ParseRepositoryTypeError::FailedToParseExpansionNumber(ParseIntError { kind }),
                ),
            }
        } else {
            Err(ParseRepositoryTypeError::IncorrectFormat)
        }
    }

    /// The repository named `s`.
    pub fn parse(s: &str) -> (r: Result<RepositoryType, ParseRepositoryTypeError>)
        ensures
            r == Self::spec_parse(s@),
    {
        if str_eq(s, "ffxiv") {
            return Ok(RepositoryType::BaseGame);
        }
        let cs = chars_of(s);
        if cs.len() >= 2 && cs[0] == 'e' && cs[1] == 'x' {
            match parse_nonzero_u8(&cs, 2) {
                Ok(number) => {
                    proof {
                        NonZeroU8::lemma_from_value(number.spec_get());
                        NonZeroU8::lemma_get_injective(
                            number,
                            NonZeroU8::spec_from_value(number.spec_get()),
                        );
                    }
                    Ok(RepositoryType::Expansion { number })
                },
                Err(e) => Err(ParseRepositoryTypeError::FailedToParseExpansionNumber(e)),
            }
        } else {
            Err(ParseRepositoryTypeError::IncorrectFormat)
        }
    }

    /// The name of the repository's folder.
    pub fn to_string(&self) -> (r: String)
        ensures
            r@ == self.spec_name(),
    {
        match self {
            RepositoryType::BaseGame => "ffxiv".to_owned(),
            RepositoryType::Expansion { number } => {
                let mut r = "ex".to_owned();
                push_decimal(&mut r, number.get());
                r
            },
        }
    }
}

#[derive(Debug, Clone, Copy, PartialEq, Eq, Structural)]
pub enum ParseRepositoryTypeError {
    FailedToParseExpansionNumber(ParseIntError),
    IncorrectFormat,
}

impl ParseRepositoryTypeError {
    /// The message of this error.
    pub open spec fn spec_message(self) -> Seq<char> {
        match self {
            ParseRepositoryTypeError::FailedToParseExpansionNumber(e) => "Failed to parse repository type: "@
                + e.spec_message(),
            ParseRepositoryTypeError::IncorrectFormat => "Failed to parse repository type, incorrect format"@,
        }
    }

    /// The message of this error.
    pub fn to_string(&self) -> (r: String)
        ensures
            r@ == self.spec_message(),
    {
        match self {
            ParseRepositoryTypeError::FailedToParseExpansionNumber(e) => {
                let mut r = "Failed to parse repository type: ".to_owned();
                r.append(e.to_string().as_str());
                r
            },
            ParseRepositoryTypeError::IncorrectFormat => "Failed to parse repository type, incorrect format".to_owned(),
        }
    }
}

impl std::str::FromStr for RepositoryType {
    type Err = ParseRepositoryTypeError;

    fn from_str(s: &str) -> (r: Result<RepositoryType, ParseRepositoryTypeError>)
        ensures
            r == RepositoryType::spec_parse(s@),
    {
        RepositoryType::parse(s)
    }
}

impl From<u8> for RepositoryType {
    fn from(number: u8) -> (r: RepositoryType) {
        match NonZeroU8::new(number) {
            Some(number) => RepositoryType::Expansion { number },
            None => RepositoryType::BaseGame,
        }
    }
}

impl vstd::std_specs::convert::FromSpecImpl<u8> for RepositoryType {
    open spec fn obeys_from_spec() -> bool {
        true
    }

    open spec fn from_spec(number: u8) -> RepositoryType {
        RepositoryType::spec_from_u8(number)
    }
}

impl From<RepositoryType> for u8 {
    fn from(repository_type: RepositoryType) -> (r: u8) {
        match repository_type {
            RepositoryType::BaseGame => 0,
            RepositoryType::Expansion { number } => number.get(),
        }
    }
}

impl vstd::std_specs::convert::FromSpecImpl<RepositoryType> for u8 {
    open spec fn obeys_from_spec() -> bool {
        true
    }

    open spec fn from_spec(repository_type: RepositoryType) -> u8 {
        repository_type.spec_repr()
    }
}

/// The number of a repository gives the repository back, and the repository
/// of a number has that number.
pub proof fn lemma_repository_repr_roundtrip(r: RepositoryType, n: u8)
    requires
        r.spec_is_valid(),
    ensures
        RepositoryType::spec_from_u8(r.spec_repr()) == r,
        RepositoryType::spec_from_u8(n).spec_repr() == n,
{
    if let RepositoryType::Expansion { number } = r {
        NonZeroU8::lemma_from_value(number.spec_get());
        NonZeroU8::lemma_get_injective(number, NonZeroU8::spec_from_value(number.spec_get()));
    }
    NonZeroU8::lemma_from_value(n);
}

/// Parsing the name of a repository gives the repository back.
pub proof fn lemma_repository_name_roundtrip(r: RepositoryType)
    requires
        r.spec_is_valid(),
    ensures
        RepositoryType::spec_parse(r.spec_name()) == Ok::<RepositoryType, ParseRepositoryTypeError>(r),
{
    reveal_strlit("ffxiv");
    reveal_strlit("ex");
    assert("ffxiv"@.len() == 5 && "ffxiv"@[0] == 'f');
    assert("ex"@.len() == 2 && "ex"@[0] == 'e' && "ex"@[1] == 'x');
    if let RepositoryType::Expansion { number } = r {
        let n = number.spec_get();
        let s = r.spec_name();
        lemma_decimal_roundtrip(n);
        NonZeroU8::lemma_from_value(n);
        NonZeroU8::lemma_get_injective(number, NonZeroU8::spec_from_value(n));
        assert(s.subrange(2, s.len() as int) =~= spec_decimal(n));
        assert(s[0] == 'e');
    }
}

} // verus!
