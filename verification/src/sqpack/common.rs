//! Platform-dependent properties of game data.
use vstd::prelude::*;

verus! {

/// The byte order of the multi-byte integers in a file.
#[derive(Clone, Copy, Debug, PartialEq, Eq, Structural)]
pub enum Endian {
    Big,
    Little,
}

/// Platform used for game data.
#[derive(Clone, Copy, Debug, PartialEq, Eq, Structural)]
pub enum Platform {
    /// Windows and macOS.
    Win32,
    /// Playstation 3.
    PS3,
    /// Playstation 4.
    PS4,
    /// Playstation 5.
    PS5,
    /// Xbox One.
    Xbox,
}

impl Platform {
    /// The byte that stands for the platform in a file header.
    pub open spec fn spec_repr(self) -> u8 {
        match self {
            Platform::Win32 => 0x0,
            Platform::PS3 => 0x1,
            Platform::PS4 => 0x2,
            Platform::PS5 => 0x3,
            Platform::Xbox => 0x4,
        }
    }

    /// The platform that a header byte stands for, if any.
    pub open spec fn spec_from_repr(b: u8) -> Option<Platform> {
        if b == 0x0 {
            Some(Platform::Win32)
        } else if b == 0x1 {
            Some(Platform::PS3)
        } else if b == 0x2 {
            Some(Platform::PS4)
        } else if b == 0x3 {
            Some(Platform::PS5)
        } else if b == 0x4 {
            Some(Platform::Xbox)
        } else {
            None
        }
    }

    /// The platform that a header byte stands for, if any.
    pub fn from_repr(b: u8) -> (r: Option<Platform>)
        ensures
            r == Self::spec_from_repr(b),
    {
        match b {
            0x0 => Some(Platform::Win32),
            0x1 => Some(Platform::PS3),
            0x2 => Some(Platform::PS4),
            0x3 => Some(Platform::PS5),
            0x4 => Some(Platform::Xbox),
            _ => None,
        }
    }

    pub open spec fn spec_endianness(self) -> Endian {
        match self {
            Platform::PS3 => Endian::Big,
            _ => Endian::Little,
        }
    }

    /// Returns the endianness for this platform.
    pub fn endianness(&self) -> (r: Endian)
        ensures
            r == self.spec_endianness(),
    {
        match self {
            Platform::PS3 => Endian::Big,
            _ => Endian::Little,
        }
    }
}

/// Reading the header byte of a platform gives the platform back.
pub proof fn lemma_platform_repr_roundtrip(p: Platform)
    ensures
        Platform::spec_from_repr(p.spec_repr()) == Some(p),
{
}

} // verus!
