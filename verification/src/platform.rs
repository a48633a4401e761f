//! The platforms for which game data is built.
use vstd::prelude::*;

use crate::sqpack::common::Platform as SqPackPlatform;
use crate::text::str_eq;
use crate::ParseEnumError;

verus! {

#[derive(Debug, Copy, Clone, PartialEq, Eq, Structural, PartialOrd, Ord, Hash)]
pub enum Platform {
    Win32,
    Ps3,
    Ps4,
    Ps5,
    Xbox,
}

impl Platform {
    /// The number of the platform.
    pub open spec fn spec_repr(self) -> u8 {
        match self {
            Platform::Win32 => 0,
            Platform::Ps3 => 1,
            Platform::Ps4 => 2,
            Platform::Ps5 => 3,
            Platform::Xbox => 4,
        }
    }

    /// The platform with the number `n`, if there is one.
    pub open spec fn spec_from_repr(n: u8) -> Option<Platform> {
        if n == 0 {
            Some(Platform::Win32)
        } else if n == 1 {
            Some(Platform::Ps3)
        } else if n == 2 {
            Some(Platform::Ps4)
        } else if n == 3 {
            Some(Platform::Ps5)
        } else if n == 4 {
            Some(Platform::Xbox)
        } else {
            None
        }
    }

    /// The platform with the number `n`, if there is one.
    pub fn from_repr(n: u8) -> (r: Option<Platform>)
        ensures
            r == Self::spec_from_repr(n),
    {
        match n {
            0 => Some(Platform::Win32),
            1 => Some(Platform::Ps3),
            2 => Some(Platform::Ps4),
            3 => Some(Platform::Ps5),
            4 => Some(Platform::Xbox),
            _ => None,
        }
    }

    /// The name of the platform, as it appears in index file names: the
    /// variant's name in snake case, and `lys` for the Xbox.
    pub open spec fn spec_name(self) -> Seq<char> {
        match self {
            Platform::Win32 => "win32"@,
            Platform::Ps3 => "ps3"@,
            Platform::Ps4 => "ps4"@,
            Platform::Ps5 => "ps5"@,
            Platform::Xbox => "lys"@,
        }
    }

    /// The platform named `s`, if any; names are matched exactly.
    pub open spec fn spec_parse(s: Seq<char>) -> Option<Platform> {
        if s == "win32"@ {
            Some(Platform::Win32)
        } else if s == "ps3"@ {
            Some(Platform::Ps3)
        } else if s == "ps4"@ {
            Some(Platform::Ps4)
        } else if s == "ps5"@ {
            Some(Platform::Ps5)
        } else if s == "lys"@ {
            Some(Platform::Xbox)
        } else {
            None
        }
    }

    /// The platform named `s`; an error holding `s` if there is none.
    pub fn parse(s: &str) -> (r: Result<Platform, ParseEnumError>)
        ensures
            r is Ok <==> Self::spec_parse(s@) is Some,
            r matches Ok(p) ==> Self::spec_parse(s@) == Some(p),
            r matches Err(e) ==> e@ == s@,
    {
        if str_eq(s, "win32") {
            Ok(Platform::Win32)
        } else if str_eq(s, "ps3") {
            Ok(Platform::Ps3)
        } else if str_eq(s, "ps4") {
            Ok(Platform::Ps4)
        } else if str_eq(s, "ps5") {
            Ok(Platform::Ps5)
        } else if str_eq(s, "lys") {
            Ok(Platform::Xbox)
        } else {
            Err(ParseEnumError::new(s))
        }
    }

    /// The name of the platform.
    pub fn to_string(&self) -> (r: String)
        ensures
            r@ == self.spec_name(),
    {
        match self {
            Platform::Win32 => "win32".to_owned(),
            Platform::Ps3 => "ps3".to_owned(),
            Platform::Ps4 => "ps4".to_owned(),
            Platform::Ps5 => "ps5".to_owned(),
            Platform::Xbox => "lys".to_owned(),
        }
    }

    /// The platform as the index file format names it.
    pub open spec fn spec_sqpack_platform(self) -> SqPackPlatform {
        match self {
            Platform::Win32 => SqPackPlatform::Win32,
            Platform::Ps3 => SqPackPlatform::PS3,
            Platform::Ps4 => SqPackPlatform::PS4,
            Platform::Ps5 => SqPackPlatform::PS5,
            Platform::Xbox => SqPackPlatform::Xbox,
        }
    }
}

impl std::str::FromStr for Platform {
    type Err = ParseEnumError;

    fn from_str(s: &str) -> (r: Result<Platform, ParseEnumError>)
        ensures
            r is Ok <==> Platform::spec_parse(s@) is Some,
            r matches Ok(v) ==> Platform::spec_parse(s@) == Some(v),
            r matches Err(e) ==> e@ == s@,
    {
        Platform::parse(s)
    }
}

impl From<Platform> for u8 {
    fn from(platform: Platform) -> (r: u8) {
        match platform {
            Platform::Win32 => 0,
            Platform::Ps3 => 1,
            Platform::Ps4 => 2,
            Platform::Ps5 => 3,
            Platform::Xbox => 4,
        }
    }
}

impl vstd::std_specs::convert::FromSpecImpl<Platform> for u8 {
    open spec fn obeys_from_spec() -> bool {
        true
    }

    open spec fn from_spec(platform: Platform) -> u8 {
        platform.spec_repr()
    }
}

impl From<Platform> for SqPackPlatform {
    fn from(platform: Platform) -> (r: SqPackPlatform) {
        match platform {
            Platform::Win32 => SqPackPlatform::Win32,
            Platform::Ps3 => SqPackPlatform::PS3,
            Platform::Ps4 => SqPackPlatform::PS4,
            Platform::Ps5 => SqPackPlatform::PS5,
            Platform::Xbox => SqPackPlatform::Xbox,
        }
    }
}

impl vstd::std_specs::convert::FromSpecImpl<Platform> for SqPackPlatform {
    open spec fn obeys_from_spec() -> bool {
        true
    }

    open spec fn from_spec(platform: Platform) -> SqPackPlatform {
        platform.spec_sqpack_platform()
    }
}

/// A platform's number gives the platform back, and a number that gives a
/// platform is that platform's number.
pub proof fn lemma_platform_repr_roundtrip(p: Platform, n: u8)
    ensures
        Platform::spec_from_repr(p.spec_repr()) == Some(p),
        Platform::spec_from_repr(n) matches Some(q) ==> q.spec_repr() == n,
{
}

/// Parsing the name of a platform gives the platform back.
pub proof fn lemma_platform_name_roundtrip(p: Platform)
    ensures
        Platform::spec_parse(p.spec_name()) == Some(p),
{
    reveal_strlit("win32");
    reveal_strlit("ps3");
    reveal_strlit("ps4");
    reveal_strlit("ps5");
    reveal_strlit("lys");
    assert("win32"@.len() == 5);
    assert("ps3"@.len() == 3 && "ps3"@[0] == 'p' && "ps3"@[2] == '3');
    assert("ps4"@.len() == 3 && "ps4"@[2] == '4');
    assert("ps5"@.len() == 3 && "ps5"@[2] == '5');
    assert("lys"@.len() == 3 && "lys"@[0] == 'l');
}

} // verus!
