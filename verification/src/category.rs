//! The categories into which game data is divided.
use vstd::prelude::*;

use crate::text::str_eq;
use crate::ParseEnumError;

verus! {

#[derive(Debug, Copy, Clone, PartialEq, Eq, Structural, PartialOrd, Ord, Hash)]
pub enum Category {
    Common,
    Bgcommon,
    Bg,
    Cut,
    Chara,
    Shader,
    Ui,
    Sound,
    Vfx,
    UiScript,
    Exd,
    GameScript,
    Music,
    // 0x0d..=0x11 are currently unused or at least not present in the released version
    SqpackTest,
    Debug,
}

impl Category {
    /// The number of the category, as it appears in index file names.
    pub open spec fn spec_repr(self) -> u8 {
        match self {
            Category::Common => 0x00,
            Category::Bgcommon => 0x01,
            Category::Bg => 0x02,
            Category::Cut => 0x03,
            Category::Chara => 0x04,
            Category::Shader => 0x05,
            Category::Ui => 0x06,
            Category::Sound => 0x07,
            Category::Vfx => 0x08,
            Category::UiScript => 0x09,
            Category::Exd => 0x0a,
            Category::GameScript => 0x0b,
            Category::Music => 0x0c,
            Category::SqpackTest => 0x12,
            Category::Debug => 0x13,
        }
    }

    /// The category with the number `n`, if there is one.
    pub open spec fn spec_from_repr(n: u8) -> Option<Category> {
        if n == 0x00 {
            Some(Category::Common)
        } else if n == 0x01 {
            Some(Category::Bgcommon)
        } else if n == 0x02 {
            Some(Category::Bg)
        } else if n == 0x03 {
            Some(Category::Cut)
        } else if n == 0x04 {
            Some(Category::Chara)
        } else if n == 0x05 {
            Some(Category::Shader)
        } else if n == 0x06 {
            Some(Category::Ui)
        } else if n == 0x07 {
            Some(Category::Sound)
        } else if n == 0x08 {
            Some(Category::Vfx)
        } else if n == 0x09 {
            Some(Category::UiScript)
        } else if n == 0x0a {
            Some(Category::Exd)
        } else if n == 0x0b {
            Some(Category::GameScript)
        } else if n == 0x0c {
            Some(Category::Music)
        } else if n == 0x12 {
            Some(Category::SqpackTest)
        } else if n == 0x13 {
            Some(Category::Debug)
        } else {
            None
        }
    }

    /// The category with the number `n`, if there is one.
    pub fn from_repr(n: u8) -> (r: Option<Category>)
        ensures
            r == Self::spec_from_repr(n),
    {
        match n {
            0x00 => Some(Category::Common),
            0x01 => Some(Category::Bgcommon),
            0x02 => Some(Category::Bg),
            0x03 => Some(Category::Cut),
            0x04 => Some(Category::Chara),
            0x05 => Some(Category::Shader),
            0x06 => Some(Category::Ui),
            0x07 => Some(Category::Sound),
            0x08 => Some(Category::Vfx),
            0x09 => Some(Category::UiScript),
            0x0a => Some(Category::Exd),
            0x0b => Some(Category::GameScript),
            0x0c => Some(Category::Music),
            0x12 => Some(Category::SqpackTest),
            0x13 => Some(Category::Debug),
            _ => None,
        }
    }

    /// The name of the category: its variant's name in snake case, with `_`
    /// in front of the two test and debug categories.
    pub open spec fn spec_name(self) -> Seq<char> {
        match self {
            Category::Common => "common"@,
            Category::Bgcommon => "bgcommon"@,
            Category::Bg => "bg"@,
            Category::Cut => "cut"@,
            Category::Chara => "chara"@,
            Category::Shader => "shader"@,
            Category::Ui => "ui"@,
            Category::Sound => "sound"@,
            Category::Vfx => "vfx"@,
            Category::UiScript => "ui_script"@,
            Category::Exd => "exd"@,
            Category::GameScript => "game_script"@,
            Category::Music => "music"@,
            Category::SqpackTest => "_sqpack_test"@,
            Category::Debug => "_debug"@,
        }
    }

    /// The category named `s`, if any; names are matched exactly.
    pub open spec fn spec_parse(s: Seq<char>) -> Option<Category> {
        if s == "common"@ {
            Some(Category::Common)
        } else if s == "bgcommon"@ {
            Some(Category::Bgcommon)
        } else if s == "bg"@ {
            Some(Category::Bg)
        } else if s == "cut"@ {
            Some(Category::Cut)
        } else if s == "chara"@ {
            Some(Category::Chara)
        } else if s == "shader"@ {
            Some(Category::Shader)
        } else if s == "ui"@ {
            Some(Category::Ui)
        } else if s == "sound"@ {
            Some(Category::Sound)
        } else if s == "vfx"@ {
            Some(Category::Vfx)
        } else if s == "ui_script"@ {
            Some(Category::UiScript)
        } else if s == "exd"@ {
            Some(Category::Exd)
        } else if s == "game_script"@ {
            Some(Category::GameScript)
        } else if s == "music"@ {
            Some(Category::Music)
        } else if s == "_sqpack_test"@ {
            Some(Category::SqpackTest)
        } else if s == "_debug"@ {
            Some(Category::Debug)
        } else {
            None
        }
    }

    /// The category named `s`; an error holding `s` if there is none.
    pub fn parse(s: &str) -> (r: Result<Category, ParseEnumError>)
        ensures
            r is Ok <==> Self::spec_parse(s@) is Some,
            r matches Ok(c) ==> Self::spec_parse(s@) == Some(c),
            r matches Err(e) ==> e@ == s@,
    {
        if str_eq(s, "common") {
            Ok(Category::Common)
        } else if str_eq(s, "bgcommon") {
            Ok(Category::Bgcommon)
        } else if str_eq(s, "bg") {
            Ok(Category::Bg)
        } else if str_eq(s, "cut") {
            Ok(Category::Cut)
        } else if str_eq(s, "chara") {
            Ok(Category::Chara)
        } else if str_eq(s, "shader") {
            Ok(Category::Shader)
        } else if str_eq(s, "ui") {
            Ok(Category::Ui)
        } else if str_eq(s, "sound") {
            Ok(Category::Sound)
        } else if str_eq(s, "vfx") {
            Ok(Category::Vfx)
        } else if str_eq(s, "ui_script") {
            Ok(Category::UiScript)
        } else if str_eq(s, "exd") {
            Ok(Category::Exd)
        } else if str_eq(s, "game_script") {
            Ok(Category::GameScript)
        } else if str_eq(s, "music") {
            Ok(Category::Music)
        } else if str_eq(s, "_sqpack_test") {
            Ok(Category::SqpackTest)
        } else if str_eq(s, "_debug") {
            Ok(Category::Debug)
        } else {
            Err(ParseEnumError::new(s))
        }
    }

    /// The name of the category.
    pub fn to_string(&self) -> (r: String)
        ensures
            r@ == self.spec_name(),
    {
        match self {
            Category::Common => "common".to_owned(),
            Category::Bgcommon => "bgcommon".to_owned(),
            Category::Bg => "bg".to_owned(),
            Category::Cut => "cut".to_owned(),
            Category::Chara => "chara".to_owned(),
            Category::Shader => "shader".to_owned(),
            Category::Ui => "ui".to_owned(),
            Category::Sound => "sound".to_owned(),
            Category::Vfx => "vfx".to_owned(),
            Category::UiScript => "ui_script".to_owned(),
            Category::Exd => "exd".to_owned(),
            Category::GameScript => "game_script".to_owned(),
            Category::Music => "music".to_owned(),
            Category::SqpackTest => "_sqpack_test".to_owned(),
            Category::Debug => "_debug".to_owned(),
        }
    }
}

impl std::str::FromStr for Category {
    type Err = ParseEnumError;

    fn from_str(s: &str) -> (r: Result<Category, ParseEnumError>)
        ensures
            r is Ok <==> Category::spec_parse(s@) is Some,
            r matches Ok(v) ==> Category::spec_parse(s@) == Some(v),
            r matches Err(e) ==> e@ == s@,
    {
        Category::parse(s)
    }
}

impl From<Category> for u8 {
    fn from(category: Category) -> (r: u8) {
        match category {
            Category::Common => 0x00,
            Category::Bgcommon => 0x01,
            Category::Bg => 0x02,
            Category::Cut => 0x03,
            Category::Chara => 0x04,
            Category::Shader => 0x05,
            Category::Ui => 0x06,
            Category::Sound => 0x07,
            Category::Vfx => 0x08,
            Category::UiScript => 0x09,
            Category::Exd => 0x0a,
            Category::GameScript => 0x0b,
            Category::Music => 0x0c,
            Category::SqpackTest => 0x12,
            Category::Debug => 0x13,
        }
    }
}

impl vstd::std_specs::convert::FromSpecImpl<Category> for u8 {
    open spec fn obeys_from_spec() -> bool {
        true
    }

    open spec fn from_spec(category: Category) -> u8 {
        category.spec_repr()
    }
}

/// A category's number gives the category back, and a number that gives a
/// category is that category's number.
pub proof fn lemma_category_repr_roundtrip(c: Category, n: u8)
    ensures
        Category::spec_from_repr(c.spec_repr()) == Some(c),
        Category::spec_from_repr(n) matches Some(d) ==> d.spec_repr() == n,
{
}

/// Parsing the name of a category gives the category back.
pub proof fn lemma_category_name_roundtrip(c: Category)
    ensures
        Category::spec_parse(c.spec_name()) == Some(c),
{
    reveal_strlit("common");
    reveal_strlit("bgcommon");
    reveal_strlit("bg");
    reveal_strlit("cut");
    reveal_strlit("chara");
    reveal_strlit("shader");
    reveal_strlit("ui");
    reveal_strlit("sound");
    reveal_strlit("vfx");
    reveal_strlit("ui_script");
    reveal_strlit("exd");
    reveal_strlit("game_script");
    reveal_strlit("music");
    reveal_strlit("_sqpack_test");
    reveal_strlit("_debug");
    assert("common"@.len() == 6 && "common"@[0] == 'c');
    assert("bgcommon"@.len() == 8);
    assert("bg"@.len() == 2 && "bg"@[0] == 'b');
    assert("cut"@.len() == 3 && "cut"@[0] == 'c');
    assert("chara"@.len() == 5 && "chara"@[0] == 'c');
    assert("shader"@.len() == 6 && "shader"@[0] == 's');
    assert("ui"@.len() == 2 && "ui"@[0] == 'u');
    assert("sound"@.len() == 5 && "sound"@[0] == 's');
    assert("vfx"@.len() == 3 && "vfx"@[0] == 'v');
    assert("ui_script"@.len() == 9);
    assert("exd"@.len() == 3 && "exd"@[0] == 'e');
    assert("game_script"@.len() == 11);
    assert("music"@.len() == 5 && "music"@[0] == 'm');
    assert("_sqpack_test"@.len() == 12);
    assert("_debug"@.len() == 6 && "_debug"@[0] == '_');
}

} // verus!
