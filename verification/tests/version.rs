use nsc_work_man::version::{rules_version, short};

#[test]
fn the_same_settings_hash_the_same() {
    assert_eq!(short("min_reach = 1.0"), short("min_reach = 1.0"));
}

/// **A changed threshold has to change the version.**
#[test]
fn a_changed_threshold_changes_it() {
    assert_ne!(short("min_reach = 1.0"), short("min_reach = 1.2"));
}

/// One character, and it must still differ.
#[test]
fn even_one_character_changes_it() {
    assert_ne!(short("0.55"), short("0.56"));
}

#[test]
fn it_is_always_the_same_length() {
    assert_eq!(short("").len(), 12);
    assert_eq!(short("a very much longer set of settings indeed").len(), 12);
}

/// The empty text hashes to the FNV-1a offset, kept to its low 48 bits.
#[test]
fn nothing_at_all_is_the_offset_basis() {
    assert_eq!(short(""), "9ce484222325");
}

/// FNV-1a of "a" is 0xaf63dc4c8601ec8c; twelve digits of it are kept.
#[test]
fn one_letter_is_fnv_of_that_letter() {
    assert_eq!(short("a"), "dc4c8601ec8c");
}

/// Unreadable counts as a version, and moving text between files moves it.
#[test]
fn the_version_follows_every_file_and_where_each_ends() {
    let both = rules_version(&[Some("a = 1".to_string()), Some("b = 2".to_string())]);
    let moved = rules_version(&[Some("a = 1b = 2".to_string()), Some(String::new())]);
    let missing = rules_version(&[Some("a = 1".to_string()), None]);

    assert_eq!(both.len(), 12);
    assert_ne!(both, moved);
    assert_ne!(both, missing);
    assert_eq!(missing, short("a = 1\0<unreadable>\0"));
}
