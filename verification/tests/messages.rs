use scree::{
    IndexClassificationError, IndexInfo, LoadRepositoryError, LoadSqPackResourcesError,
    ParseEnumError, ParseIndexInfoError, ParseRepositoryTypeError, RepositoryType,
};

#[test]
fn parse_error_messages() {
    assert_eq!(
        "ex0".parse::<RepositoryType>().unwrap_err().to_string(),
        "Failed to parse repository type: number would be zero for non-zero type"
    );
    assert_eq!(
        "ex".parse::<RepositoryType>().unwrap_err().to_string(),
        "Failed to parse repository type: cannot parse integer from empty string"
    );
    assert_eq!(
        "ex256".parse::<RepositoryType>().unwrap_err().to_string(),
        "Failed to parse repository type: number too large to fit in target type"
    );
    assert_eq!(
        ParseRepositoryTypeError::IncorrectFormat.to_string(),
        "Failed to parse repository type, incorrect format"
    );
    assert_eq!(
        "02040z.win32".parse::<IndexInfo>().unwrap_err().to_string(),
        "Invalid part: invalid digit found in string"
    );
    assert_eq!(
        "020409.win3".parse::<IndexInfo>().unwrap_err().to_string(),
        "Invalid part: Failed to parse \"win3\""
    );
    assert_eq!(ParseIndexInfoError::FormatInvalid.to_string(), "Invalid format");
    assert_eq!(ParseIndexInfoError::CategoryInvalid.to_string(), "Invalid category");
    assert_eq!(IndexClassificationError::InvalidPath.to_string(), "Invalid path");
    assert_eq!(
        IndexClassificationError::FailedToParseEnum(ParseEnumError::new("dat0")).to_string(),
        "Invalid part: Failed to parse \"dat0\""
    );
}

#[test]
fn load_error_messages() {
    assert_eq!(
        LoadRepositoryError::MismatchedNumberOfIndexFilesPerType.to_string(),
        "Mismatched number of files per index type"
    );
    assert_eq!(LoadRepositoryError::ParseIndexFileError.to_string(), "Failed to parse index file");
    assert_eq!(
        LoadRepositoryError::IndexEntriesNotSorted.to_string(),
        "Parsed indexes' entries are not sorted by their hash"
    );
    assert_eq!(
        LoadRepositoryError::ParseRepositoryTypeError(ParseRepositoryTypeError::IncorrectFormat).to_string(),
        "Failed to parse repository type: Failed to parse repository type, incorrect format"
    );
    assert_eq!(
        LoadRepositoryError::IndexClassificationError(IndexClassificationError::InvalidPath).to_string(),
        "Failed to classify index: Invalid path"
    );
    let io = std::io::Error::new(std::io::ErrorKind::Other, "no such folder");
    assert_eq!(
        LoadRepositoryError::IoError(io).to_string(),
        "IO error encountered: no such folder"
    );
    let io = std::io::Error::new(std::io::ErrorKind::Other, "denied");
    assert_eq!(
        LoadSqPackResourcesError::IoError(io).to_string(),
        "IO error encountered: denied"
    );
    assert_eq!(
        LoadSqPackResourcesError::LoadRepositoryError(LoadRepositoryError::ParseIndexFileError).to_string(),
        "Failed to load repository: Failed to parse index file"
    );
}

#[test]
fn number_messages_match_std() {
    for digits in ["", "x", "256", "0", "-", "+"] {
        let ours = format!("ex{digits}").parse::<RepositoryType>().unwrap_err().to_string();
        let std_message = digits.parse::<std::num::NonZeroU8>().unwrap_err().to_string();
        assert_eq!(ours, format!("Failed to parse repository type: {std_message}"));
    }
}

#[test]
fn expansion_numbers_parse_as_std_parses_them() {
    let mut inputs: Vec<String> = (0..300).map(|n| n.to_string()).collect();
    for s in ["", "+", "-", "+7", "-7", "007", "0x1", "1_0", " 1", "1 ", "٣", "+-1", "99999"] {
        inputs.push(s.to_string());
    }
    for digits in inputs {
        let ours = format!("ex{digits}").parse::<RepositoryType>();
        match digits.parse::<std::num::NonZeroU8>() {
            Ok(n) => assert_eq!(u8::from(ours.unwrap()), n.get(), "{digits}"),
            Err(e) => match ours {
                Err(ParseRepositoryTypeError::FailedToParseExpansionNumber(ours)) => {
                    assert_eq!(format!("{:?}", ours.kind()), format!("{:?}", e.kind()), "{digits}")
                },
                other => panic!("unexpected result {other:?} for {digits}"),
            },
        }
    }
}
