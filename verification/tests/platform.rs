use scree::sqpack::common::{Endian, Platform as SqPackPlatform};
use scree::{ParseEnumError, Platform};

fn assert_fromrepr_reprfrom(repr: u8, variant: Platform) {
    assert_eq!(Platform::from_repr(repr), Some(variant));
    assert_eq!(u8::from(variant), repr);
}

fn assert_display_fromstr(s: &str, variant: Platform) {
    assert_eq!(variant.to_string(), s);
    assert_eq!(s.parse(), Ok(variant));
}

#[test]
fn platform_test_fromrepr_reprfrom() {
    assert_fromrepr_reprfrom(0, Platform::Win32);
    assert_fromrepr_reprfrom(1, Platform::Ps3);
    assert_fromrepr_reprfrom(2, Platform::Ps4);
    assert_fromrepr_reprfrom(3, Platform::Ps5);
    assert_fromrepr_reprfrom(4, Platform::Xbox);
}

#[test]
fn platform_test_fromrepr_none() {
    assert_eq!(Platform::from_repr(5), None);
    assert_eq!(Platform::from_repr(5), None);
    assert_eq!(Platform::from_repr(5), None);

    assert_eq!(Platform::from_repr(122), None);

    assert_eq!(Platform::from_repr(u8::MAX), None);
}

#[test]
fn platform_test_derived_display_and_fromstr() {
    assert_display_fromstr("win32", Platform::Win32);
    assert_display_fromstr("ps3", Platform::Ps3);
    assert_display_fromstr("ps4", Platform::Ps4);
    assert_display_fromstr("ps5", Platform::Ps5);
    assert_display_fromstr("lys", Platform::Xbox);
}

#[test]
fn platform_test_parse_error() {
    assert_eq!("AAAA".parse::<Platform>(), Err(ParseEnumError::new("AAAA")));
    assert_eq!("WIN32".parse::<Platform>(), Err(ParseEnumError::new("WIN32")));
    assert_eq!("xbox".parse::<Platform>(), Err(ParseEnumError::new("xbox")));
}

#[test]
fn platform_byte_order() {
    assert_eq!(SqPackPlatform::from(Platform::Win32).endianness(), Endian::Little);
    assert_eq!(SqPackPlatform::from(Platform::Ps3).endianness(), Endian::Big);
    assert_eq!(SqPackPlatform::from(Platform::Ps4).endianness(), Endian::Little);
    assert_eq!(SqPackPlatform::from(Platform::Ps5).endianness(), Endian::Little);
    assert_eq!(SqPackPlatform::from(Platform::Xbox).endianness(), Endian::Little);
    assert_eq!(SqPackPlatform::from_repr(1), Some(SqPackPlatform::PS3));
    assert_eq!(SqPackPlatform::from_repr(5), None);
}
