use fuiz::game::Profanity;
use fuiz::names::{Error, NameStyle, Names, NamingScheme};
use fuiz::watcher::Id;

#[test]
fn test_names_set_and_get() {
    let mut names = Names::default();
    let id = Id::new();

    let result = names.set_name(id, "TestPlayer", Profanity::Censor);
    assert!(result.is_ok());
    assert_eq!(result.unwrap(), "TestPlayer");

    assert_eq!(names.get_name(&id), Some("TestPlayer"));
    assert_eq!(names.get_id("TestPlayer"), Some(id));
}

#[test]
fn test_names_too_long() {
    let mut names = Names::default();
    let id = Id::new();

    let long_name = "a".repeat(31);
    let result = names.set_name(id, &long_name, Profanity::Censor);
    assert_eq!(result, Err(Error::TooLong));
}

#[test]
fn test_names_max_length_allowed() {
    let mut names = Names::default();
    let id = Id::new();

    let max_name = "a".repeat(30);
    let result = names.set_name(id, &max_name, Profanity::Censor);
    assert!(result.is_ok());
    assert_eq!(result.unwrap(), max_name);
}

#[test]
fn test_names_empty_name() {
    let mut names = Names::default();
    let id = Id::new();

    assert_eq!(names.set_name(id, "", Profanity::Censor), Err(Error::Empty));
    assert_eq!(names.set_name(id, "   ", Profanity::Censor), Err(Error::Empty));
    assert_eq!(names.set_name(id, "\t\n", Profanity::Censor), Err(Error::Empty));
}

#[test]
fn test_names_whitespace_trimming() {
    let mut names = Names::default();
    let id = Id::new();

    let result = names.set_name(id, "  TestPlayer  ", Profanity::Censor);
    assert!(result.is_ok());
    assert_eq!(result.unwrap(), "TestPlayer");

    assert_eq!(names.get_name(&id), Some("TestPlayer"));
}

#[test]
fn test_names_duplicate_error() {
    let mut names = Names::default();
    let id1 = Id::new();
    let id2 = Id::new();
    let id3 = Id::new();

    names.set_name(id1, "Player", Profanity::Censor).unwrap();
    let result = names.set_name(id2, "Player", Profanity::Censor);
    assert_eq!(result, Err(Error::Used));

    // Test that whitespace-trimmed names are also considered duplicates
    let result_with_whitespace = names.set_name(id3, "  Player  ", Profanity::Censor);
    assert_eq!(result_with_whitespace, Err(Error::Used));
}

#[test]
fn test_names_already_assigned_error() {
    let mut names = Names::default();
    let id = Id::new();

    names.set_name(id, "FirstName", Profanity::Censor).unwrap();
    let result = names.set_name(id, "SecondName", Profanity::Censor);
    assert_eq!(result, Err(Error::Assigned));

    // The first name should still be there
    assert_eq!(names.get_name(&id), Some("FirstName"));
}

#[test]
fn test_names_inappropriate_content() {
    let mut names = Names::default();
    let id = Id::new();

    // Test some inappropriate words that rustrict should catch
    let inappropriate_names = ["damn", "fuck", "shit"];

    for name in inappropriate_names {
        let result = names.set_name(id, name, Profanity::Censor);
        assert_eq!(
            result,
            Err(Error::Sinful),
            "Expected '{name}' to be flagged as inappropriate"
        );
    }
}

#[test]
fn test_names_get_nonexistent() {
    let names = Names::default();
    let id = Id::new();

    assert_eq!(names.get_name(&id), None);
    assert_eq!(names.get_id("NonexistentPlayer"), None);
}

#[test]
fn test_names_serialization_deserialization() {
    let mut before = Names::default();
    let id1 = Id::new();
    let id2 = Id::new();

    before.set_name(id1, "Player1", Profanity::Censor).unwrap();
    before.set_name(id2, "Player2", Profanity::Censor).unwrap();

    // Serialize
    let serialized = before.into_serde();

    // Deserialize
    let deserialized = Names::from(serialized);

    // Check that all data is preserved
    assert_eq!(deserialized.get_name(&id1), Some("Player1"));
    assert_eq!(deserialized.get_name(&id2), Some("Player2"));
    assert_eq!(deserialized.get_id("Player1"), Some(id1));
    assert_eq!(deserialized.get_id("Player2"), Some(id2));
}

#[test]
fn test_names_reverse_mapping_rebuild() {
    let mut before = Names::default();
    let id = Id::new();
    before.set_name(id, "TestPlayer", Profanity::Censor).unwrap();

    // Serialize and deserialize to test reverse mapping rebuild
    let serialized = before.into_serde();
    let deserialized = Names::from(serialized);

    // Test that reverse mapping works
    assert_eq!(deserialized.get_id("TestPlayer"), Some(id));

    // Test that duplicate detection still works
    let mut names = deserialized;
    let new_id = Id::new();
    let result = names.set_name(new_id, "TestPlayer", Profanity::Censor);
    assert_eq!(result, Err(Error::Used));
}

#[test]
fn test_error_display() {
    assert_eq!(Error::Used.message(), "name already in-use");
    assert_eq!(Error::Assigned.message(), "player has an existing name");
    assert_eq!(Error::Empty.message(), "name cannot be empty");
    assert_eq!(Error::Sinful.message(), "name is inappropriate");
    assert_eq!(Error::TooLong.message(), "name is too long");
}

#[test]
fn test_names_case_sensitivity() {
    let mut names = Names::default();
    let id1 = Id::new();
    let id2 = Id::new();

    names.set_name(id1, "Player", Profanity::Censor).unwrap();

    // Different case should be allowed
    let result = names.set_name(id2, "player", Profanity::Censor);
    assert!(result.is_ok());

    assert_eq!(names.get_id("Player"), Some(id1));
    assert_eq!(names.get_id("player"), Some(id2));
}

#[test]
fn test_names_unicode_support() {
    let mut names = Names::default();
    let id = Id::new();

    let unicode_name = "Плеер测试🎮";
    let result = names.set_name(id, unicode_name, Profanity::Censor);
    assert!(result.is_ok());
    assert_eq!(result.unwrap(), unicode_name);

    assert_eq!(names.get_name(&id), Some(unicode_name));
    assert_eq!(names.get_id(unicode_name), Some(id));
}

#[test]
fn test_name_style_default() {
    let default_style = NameStyle::default();
    match default_style {
        NameStyle::Petname(count) => assert_eq!(count, 2),
        NameStyle::Roman(_) => panic!("Default should be Petname(2)"),
    }
}

#[test]
fn test_name_style_roman_name_generation() {
    // Test Roman style with 2 words (no praenomen)
    let style_2 = NameStyle::Roman(2);
    let name_2 = style_2.get_name();
    assert!(!name_2.is_empty());
    assert!(name_2.chars().next().unwrap().is_uppercase());

    // Test Roman style with 3 words (with praenomen)
    let style_3 = NameStyle::Roman(3);
    let name_3 = style_3.get_name();
    assert!(!name_3.is_empty());
    assert!(name_3.chars().next().unwrap().is_uppercase());
}

#[test]
fn test_name_style_petname_generation() {
    // Test Petname style with 2 words
    let style_2 = NameStyle::Petname(2);
    let name_2 = style_2.get_name();
    assert!(!name_2.is_empty());
    // Should be title case after processing
    assert!(name_2.contains(' ')); // Should have multiple words

    // Test Petname style with 3 words
    let style_3 = NameStyle::Petname(3);
    let name_3 = style_3.get_name();
    assert!(!name_3.is_empty());
    // Count spaces to verify word count (3 words = 2 spaces)
    assert_eq!(name_3.matches(' ').count(), 2);
}

#[test]
fn test_naming_scheme_implementation() {
    let roman_style = NameStyle::Roman(2);
    let petname_style = NameStyle::Petname(2);

    // Test that NamingScheme trait works
    let roman_name = NamingScheme::get_name(&roman_style);
    let petname_name = NamingScheme::get_name(&petname_style);

    assert!(!roman_name.is_empty());
    assert!(!petname_name.is_empty());

    // Test plural name generation
    let roman_plural = roman_style.get_plural_name();
    let petname_plural = petname_style.get_plural_name();

    assert!(!roman_plural.is_empty());
    assert!(!petname_plural.is_empty());
}
