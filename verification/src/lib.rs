//! Finds files and folders in the SqPack files of the
//! game data of FFXIV.
use vstd::prelude::*;

pub mod asset_path;
pub mod category;
pub mod index_type;
pub mod indexes;
pub mod num;
pub mod platform;
pub mod repository_type;
pub mod resources;
pub mod search;
pub mod sqpack;
pub mod text;

pub use asset_path::AssetPath;
pub use category::Category;
pub use index_type::{
    classify_index_path, IndexClassificationError, IndexInfo, IndexType, ParseIndexInfoError,
};
pub use indexes::{Index, Indexes, IndexesEntry};
pub use num::{IntErrorKind, NonZeroU8, ParseIntError};
pub use platform::Platform;
pub use repository_type::{ParseRepositoryTypeError, RepositoryType};
pub use resources::{
    IndexFile, LoadRepositoryError, LoadSqPackResourcesError, Repository, SqPackResources,
};

verus! {

/// A name that does not name a variant of the enum it was parsed as.
#[derive(Debug, Clone, PartialEq, Eq)]
pub struct ParseEnumError(String);

impl View for ParseEnumError {
    type V = Seq<char>;

    /// The text that failed to parse.
    closed spec fn view(&self) -> Seq<char> {
        self.0@
    }
}

impl ParseEnumError {
    /// The error for the text `s`.
    pub fn new(s: &str) -> (r: ParseEnumError)
        ensures
            r@ == s@,
    {
        ParseEnumError(s.to_owned())
    }

    /// The message of this error: `Failed to parse "` and the text, then `"`.
    pub open spec fn spec_message(self) -> Seq<char> {
        seq!['F', 'a', 'i', 'l', 'e', 'd', ' ', 't', 'o', ' ', 'p', 'a', 'r', 's', 'e', ' ', '"'] + self@ + seq!['"']
    }

    /// The message of this error.
    pub fn to_string(&self) -> (r: String)
        ensures
            r@ == self.spec_message(),
    {
        let mut r = "Failed to parse \"".to_owned();
        r.append(self.0.as_str());
        r.append("\"");
        proof {
            reveal_strlit("Failed to parse \"");
            reveal_strlit("\"");
        }
        assert(r@ =~= seq!['F', 'a', 'i', 'l', 'e', 'd', ' ', 't', 'o', ' ', 'p', 'a', 'r', 's', 'e', ' ', '"'] + self@ + seq!['"']);
        r
    }
}

} // verus!
