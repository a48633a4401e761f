use scree::{IntErrorKind, NonZeroU8, ParseRepositoryTypeError, RepositoryType};

fn assert_parse_int_error_kind_eq(s: &str, kind: IntErrorKind) {
    match s.parse::<RepositoryType>() {
        Err(ParseRepositoryTypeError::FailedToParseExpansionNumber(parse_int_error)) => {
            assert_eq!(*parse_int_error.kind(), kind);
        },
        other => panic!("unexpected result {other:?}"),
    }
}

#[test]
fn repository_type_test_derived_display_and_fromstr() {
    assert_eq!(RepositoryType::BaseGame.to_string(), "ffxiv");
    assert_eq!("ffxiv".parse(), Ok(RepositoryType::BaseGame));
    for i in 1..=u8::MAX {
        let i = NonZeroU8::new(i).unwrap();
        let expected = format!("ex{}", i.get());
        let repository_type = RepositoryType::Expansion { number: i };
        assert_eq!(repository_type.to_string(), expected);
        assert_eq!(expected.parse(), Ok(repository_type));
    }
}

#[test]
fn repository_type_test_parse_error() {
    assert_eq!("AAAA".parse::<RepositoryType>(), Err(ParseRepositoryTypeError::IncorrectFormat));
    assert_parse_int_error_kind_eq("ex_1", IntErrorKind::InvalidDigit);
    assert_parse_int_error_kind_eq("ex1111", IntErrorKind::PosOverflow);
    assert_parse_int_error_kind_eq("ex", IntErrorKind::Empty);
    assert_parse_int_error_kind_eq("ex0", IntErrorKind::Zero);
}

#[test]
fn repository_type_numbers() {
    assert_eq!(u8::from(RepositoryType::BaseGame), 0);
    assert_eq!(RepositoryType::from(0u8), RepositoryType::BaseGame);
    let ex3 = RepositoryType::Expansion { number: NonZeroU8::new(3).unwrap() };
    assert_eq!(u8::from(ex3), 3);
    assert_eq!(RepositoryType::from(3u8), ex3);
    assert_eq!(NonZeroU8::new(0), None);
    // Leading zeros and a sign are accepted by the number parser.
    assert_eq!("ex03".parse(), Ok(ex3));
    assert_eq!("ex+3".parse(), Ok(ex3));
    assert_eq!(
        "Ex3".parse::<RepositoryType>(),
        Err(ParseRepositoryTypeError::IncorrectFormat)
    );
}
