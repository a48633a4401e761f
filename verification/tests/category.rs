use scree::{Category, ParseEnumError};

fn assert_fromrepr_reprfrom(repr: u8, variant: Category) {
    assert_eq!(Category::from_repr(repr), Some(variant));
    assert_eq!(u8::from(variant), repr);
}

fn assert_display_fromstr(s: &str, variant: Category) {
    assert_eq!(variant.to_string(), s);
    assert_eq!(s.parse(), Ok(variant));
}

#[test]
fn category_test_fromrepr_reprfrom() {
    assert_fromrepr_reprfrom(0x00, Category::Common);
    assert_fromrepr_reprfrom(0x01, Category::Bgcommon);
    assert_fromrepr_reprfrom(0x02, Category::Bg);
    assert_fromrepr_reprfrom(0x03, Category::Cut);
    assert_fromrepr_reprfrom(0x04, Category::Chara);
    assert_fromrepr_reprfrom(0x05, Category::Shader);
    assert_fromrepr_reprfrom(0x06, Category::Ui);
    assert_fromrepr_reprfrom(0x07, Category::Sound);
    assert_fromrepr_reprfrom(0x08, Category::Vfx);
    assert_fromrepr_reprfrom(0x09, Category::UiScript);
    assert_fromrepr_reprfrom(0x0a, Category::Exd);
    assert_fromrepr_reprfrom(0x0b, Category::GameScript);
    assert_fromrepr_reprfrom(0x0c, Category::Music);
    assert_fromrepr_reprfrom(0x12, Category::SqpackTest);
    assert_fromrepr_reprfrom(0x13, Category::Debug);
}

#[test]
fn category_test_fromrepr_none() {
    assert_eq!(Category::from_repr(0x0d), None);
    assert_eq!(Category::from_repr(0x0e), None);
    assert_eq!(Category::from_repr(0x0f), None);
    assert_eq!(Category::from_repr(0x10), None);
    assert_eq!(Category::from_repr(0x11), None);

    assert_eq!(Category::from_repr(0x14), None);
    assert_eq!(Category::from_repr(0xff), None);
}

#[test]
fn category_test_derived_display_and_fromstr() {
    assert_display_fromstr("common", Category::Common);
    assert_display_fromstr("bgcommon", Category::Bgcommon);
    assert_display_fromstr("bg", Category::Bg);
    assert_display_fromstr("cut", Category::Cut);
    assert_display_fromstr("chara", Category::Chara);
    assert_display_fromstr("ui", Category::Ui);
    assert_display_fromstr("vfx", Category::Vfx);
    assert_display_fromstr("ui_script", Category::UiScript);
    assert_display_fromstr("exd", Category::Exd);
    assert_display_fromstr("game_script", Category::GameScript);
    assert_display_fromstr("music", Category::Music);
    assert_display_fromstr("_sqpack_test", Category::SqpackTest);
    assert_display_fromstr("_debug", Category::Debug);
}

#[test]
fn category_test_parse_error() {
    assert_eq!("AAAA".parse::<Category>(), Err(ParseEnumError::new("AAAA")));
    assert_eq!("debug".parse::<Category>(), Err(ParseEnumError::new("debug")));
}

#[test]
fn category_names_of_the_remaining_variants() {
    assert_display_fromstr("shader", Category::Shader);
    assert_display_fromstr("sound", Category::Sound);
    assert_eq!(Category::parse("Common"), Err(ParseEnumError::new("Common")));
}
