use gmod_content::validation::{dirname_verdict, position_of, validate_input_dirname, DirnameError};

#[test]
fn plain_names_are_accepted() {
    assert_eq!(validate_input_dirname("my_new-name2", false), Ok("my_new-name2".to_string()));
}

#[test]
fn forbidden_characters_are_refused() {
    assert_eq!(validate_input_dirname("my name", false), Err(DirnameError::InvalidCharacters));
    assert_eq!(validate_input_dirname("a/b", true), Err(DirnameError::InvalidCharacters));
}

#[test]
fn existing_directories_are_refused() {
    assert_eq!(validate_input_dirname("taken", true), Err(DirnameError::AlreadyExists));
}

#[test]
fn verdict_checks_characters_first() {
    assert_eq!(dirname_verdict("x", true, true), Err(DirnameError::InvalidCharacters));
    assert_eq!(dirname_verdict("x", false, true), Err(DirnameError::AlreadyExists));
    assert_eq!(dirname_verdict("x", false, false), Ok("x".to_string()));
}

#[test]
fn error_messages() {
    assert_eq!(
        DirnameError::InvalidCharacters.message(),
        "The directory name should only contain letters, numbers, dashes and underscores! Example: my_new_name"
    );
    assert_eq!(DirnameError::AlreadyExists.message(), "Directory with specified name already exists!");
}

#[test]
fn position_of_finds_first_match() {
    let options = vec!["Basic physics entity".to_string(), "NPC".to_string(), "NPC".to_string()];
    assert_eq!(position_of(&options, &"NPC".to_string()), Some(1));
    assert_eq!(position_of(&options, &"Vehicle".to_string()), None);
}
