use scree::{
    classify_index_path, Category, IndexClassificationError, IndexInfo, IndexType, IntErrorKind,
    NonZeroU8, ParseEnumError, ParseIndexInfoError, Platform, RepositoryType,
};

fn assert_index_type_display_fromstr(s: &str, variant: IndexType) {
    assert_eq!(variant.to_string(), s);
    assert_eq!(s.parse(), Ok(variant));
}

fn assert_index_info_display_fromstr(s: &str, info: IndexInfo) {
    assert_eq!(info.to_string(), s);
    assert_eq!(s.parse(), Ok(info));
}

fn expansion(n: u8) -> RepositoryType {
    RepositoryType::Expansion {
        number: NonZeroU8::new(n).unwrap(),
    }
}

#[test]
fn index_type_test_derived_display_and_fromstr() {
    assert_index_type_display_fromstr("index", IndexType::Index);
    assert_index_type_display_fromstr("index2", IndexType::Index2);
}

#[test]
fn index_type_test_parse_error() {
    assert_eq!("AAAA".parse::<IndexType>(), Err(ParseEnumError::new("AAAA")));
    assert_eq!("INDEX1".parse::<IndexType>(), Err(ParseEnumError::new("INDEX1")));
    assert_eq!("index3".parse::<IndexType>(), Err(ParseEnumError::new("index3")));
}

#[test]
fn test_parse_index_info() {
    assert_index_info_display_fromstr(
        "000000.win32",
        IndexInfo {
            category: Category::Common,
            repository_type: RepositoryType::BaseGame,
            chunk: 0,
            platform: Platform::Win32,
        },
    );
    assert_index_info_display_fromstr(
        "020105.win32",
        IndexInfo {
            category: Category::Bg,
            repository_type: expansion(1),
            chunk: 5,
            platform: Platform::Win32,
        },
    );
    assert_index_info_display_fromstr(
        "0c0200.win32",
        IndexInfo {
            category: Category::Music,
            repository_type: expansion(2),
            chunk: 0,
            platform: Platform::Win32,
        },
    );
    assert_index_info_display_fromstr(
        "020409.win32",
        IndexInfo {
            category: Category::Bg,
            repository_type: expansion(4),
            chunk: 9,
            platform: Platform::Win32,
        },
    );
}

#[test]
fn test_parse_index_info_error() {
    assert_eq!("AAAA".parse::<IndexInfo>(), Err(ParseIndexInfoError::FormatInvalid));
    assert_eq!("000.win32".parse::<IndexInfo>(), Err(ParseIndexInfoError::FormatInvalid));
    assert_eq!("0f0000.win32".parse::<IndexInfo>(), Err(ParseIndexInfoError::CategoryInvalid));
    match "02040z.win32".parse::<IndexInfo>() {
        Err(ParseIndexInfoError::IntegerPartParsingError(parse_int_error)) => {
            assert_eq!(*parse_int_error.kind(), IntErrorKind::InvalidDigit);
        },
        other => panic!("unexpected result {other:?}"),
    }
    match "020409.win3".parse::<IndexInfo>() {
        Err(ParseIndexInfoError::PartParsingError(part)) => {
            assert_eq!(part, ParseEnumError::new("win3"));
        },
        other => panic!("unexpected result {other:?}"),
    }
}

#[test]
fn index_info_of_other_platforms_and_hex_digits() {
    assert_index_info_display_fromstr(
        "13ff0a.ps5",
        IndexInfo {
            category: Category::Debug,
            repository_type: expansion(255),
            chunk: 10,
            platform: Platform::Ps5,
        },
    );
    assert_eq!(
        "0A0000.win32".parse::<IndexInfo>(),
        Ok(IndexInfo {
            category: Category::Exd,
            repository_type: RepositoryType::BaseGame,
            chunk: 0,
            platform: Platform::Win32,
        })
    );
}

#[test]
fn classify_index_paths() {
    assert_eq!(
        classify_index_path("sqpack/ffxiv/0a0000.win32.index"),
        Ok((
            IndexInfo {
                category: Category::Exd,
                repository_type: RepositoryType::BaseGame,
                chunk: 0,
                platform: Platform::Win32,
            },
            IndexType::Index
        ))
    );
    assert_eq!(
        classify_index_path("sqpack/ex1/020100.win32.index2"),
        Ok((
            IndexInfo {
                category: Category::Bg,
                repository_type: expansion(1),
                chunk: 0,
                platform: Platform::Win32,
            },
            IndexType::Index2
        ))
    );
    assert_eq!(
        classify_index_path("sqpack/ffxiv/0a0000.win32.dat0"),
        Err(IndexClassificationError::FailedToParseEnum(ParseEnumError::new("dat0")))
    );
    assert_eq!(
        classify_index_path("sqpack/ffxiv/0a00.win32.index"),
        Err(IndexClassificationError::FailedToParseIndexInfo(ParseIndexInfoError::FormatInvalid))
    );
    assert_eq!(classify_index_path("sqpack/ffxiv/"), Err(IndexClassificationError::InvalidPath));
}

#[test]
fn index_info_hex_parts_parse_as_std_parses_them() {
    let chars: Vec<char> = "0123456789abcdefABCDEFgz+-".chars().collect();
    for a in &chars {
        for b in &chars {
            let part = format!("{a}{b}");
            let ours = format!("{part}0000.win32").parse::<IndexInfo>();
            match u8::from_str_radix(&part, 16) {
                Ok(v) => match Category::from_repr(v) {
                    Some(c) => assert_eq!(ours.map(|info| info.category), Ok(c), "{part}"),
                    None => assert_eq!(ours, Err(ParseIndexInfoError::CategoryInvalid), "{part}"),
                },
                Err(e) => match ours {
                    Err(ParseIndexInfoError::IntegerPartParsingError(ours)) => {
                        assert_eq!(format!("{:?}", ours.kind()), format!("{:?}", e.kind()), "{part}")
                    },
                    other => panic!("unexpected result {other:?} for {part}"),
                },
            }
        }
    }
}
