use scree::{AssetPath, Category, NonZeroU8, ParseEnumError, RepositoryType};

#[test]
fn test_category_repository_type() {
    assert_eq!(
        AssetPath::from("exd/").category_repository_type(),
        (Ok(Category::Exd), RepositoryType::BaseGame)
    );
    assert_eq!(
        AssetPath::from("exd").category_repository_type(),
        (Ok(Category::Exd), RepositoryType::BaseGame)
    );
    assert_eq!(
        AssetPath::from("cut/ex5/sound/").category_repository_type(),
        (
            Ok(Category::Cut),
            RepositoryType::Expansion {
                number: NonZeroU8::new(5).unwrap()
            }
        )
    );
}

#[test]
fn test_category_repository_type_error() {
    assert_eq!(
        AssetPath::from("AAAA/BBBB").category_repository_type(),
        (Err(ParseEnumError::new("AAAA")), RepositoryType::BaseGame)
    );
    assert_eq!(
        AssetPath::from(r"bg\ex1").category_repository_type(),
        (Err(ParseEnumError::new(r"bg\ex1")), RepositoryType::BaseGame)
    );
    assert_eq!(
        AssetPath::from("cutex5/sound/").category_repository_type(),
        (Err(ParseEnumError::new("cutex5")), RepositoryType::BaseGame)
    );
}

#[test]
fn asset_path_parts_on_their_own() {
    let path = AssetPath::new("chara/ex3/equipment/e0001/e0001.mdl");
    assert_eq!(path.category(), Ok(Category::Chara));
    assert_eq!(
        path.repository_type(),
        RepositoryType::Expansion {
            number: NonZeroU8::new(3).unwrap()
        }
    );
    assert_eq!(path.as_str(), "chara/ex3/equipment/e0001/e0001.mdl");
}

#[test]
fn asset_path_repository_needs_a_following_slash() {
    // The second component names the repository only when a `/` follows it.
    assert_eq!(
        AssetPath::new("bg/ex2").category_repository_type(),
        (Ok(Category::Bg), RepositoryType::BaseGame)
    );
    assert_eq!(
        AssetPath::new("bg/ex2/").category_repository_type(),
        (
            Ok(Category::Bg),
            RepositoryType::Expansion {
                number: NonZeroU8::new(2).unwrap()
            }
        )
    );
    assert_eq!(
        AssetPath::new("bg/ffxiv/x").category_repository_type(),
        (Ok(Category::Bg), RepositoryType::BaseGame)
    );
    assert_eq!(
        AssetPath::new("").category_repository_type(),
        (Err(ParseEnumError::new("")), RepositoryType::BaseGame)
    );
}

#[test]
fn parse_enum_error_message() {
    assert_eq!(ParseEnumError::new("AAAA").to_string(), "Failed to parse \"AAAA\"");
}
