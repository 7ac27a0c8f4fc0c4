use nsc_work_man::secrets::found_in;

const FILE: &str = "\
# a comment
FIRST=fine
IBAPI_TIMEZONE_ALIASES=Gulf Standard Time=Asia/Dubai
TELEGRAM_BOT_TOKEN=1234:secret
";

/// It finds the line by its value and reports the line's NAME.
#[test]
fn it_names_the_line_that_stopped_it() {
    let found = found_in(FILE, "Gulf Standard Time=Asia/Dubai");

    assert_eq!(found, Some((3, "IBAPI_TIMEZONE_ALIASES".to_string())));
}

/// **The value never comes back**, because the value is the secret half.
#[test]
fn it_never_hands_back_the_value() {
    let (_, name) = found_in(FILE, "1234:secret").expect("it should find it");

    assert_eq!(name, "TELEGRAM_BOT_TOKEN");
    assert!(!name.contains("1234"), "the value came back in the name");
}

/// A value it cannot place says nothing rather than guessing at a line.
#[test]
fn a_value_it_cannot_place_finds_nothing() {
    assert_eq!(found_in(FILE, "not in this file"), None);
}

/// Trailing white space on either side does not stop it matching, and the
/// name comes back trimmed.
#[test]
fn trailing_space_and_carriage_returns_are_not_part_of_the_value() {
    let text = "  SPACED_NAME  = a value  \r\nOTHER=x\n";

    assert_eq!(found_in(text, "a value"), Some((1, "SPACED_NAME".to_string())));
    assert_eq!(found_in(text, "x \n"), Some((2, "OTHER".to_string())));
}

/// A line with no `=` sets nothing, even when it ends with the value.
#[test]
fn a_line_that_sets_nothing_is_passed_over() {
    let text = "just words ending in secret\nKEY=secret\n";

    assert_eq!(found_in(text, "secret"), Some((2, "KEY".to_string())));
}

/// An empty file has no lines to find.
#[test]
fn an_empty_file_finds_nothing() {
    assert_eq!(found_in("", "anything"), None);
}
