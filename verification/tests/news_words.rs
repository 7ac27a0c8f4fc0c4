//! The words under a news card.

use nsc_work_man::news::{ahead_of, ahead_words, news_words};

/// One release is named.
#[test]
fn one_release_is_named() {
    assert_eq!(
        news_words("USD", "Non-Farm Payrolls", 1, 30, "12:30 UTC, 5 Sep"),
        "<b>USD Non-Farm Payrolls</b> in 30 minutes\n12:30 UTC, 5 Sep"
    );
}

/// Several due together are counted.
#[test]
fn several_releases_are_counted() {
    assert_eq!(
        news_words("EUR", "CPI", 3, 5, "09:00 UTC, 2 Sep"),
        "<b>EUR — 3 releases</b> in 5 minutes\n09:00 UTC, 2 Sep"
    );
}

/// Past an hour and a half it speaks in hours, to the nearest one, a half
/// rounding up.
#[test]
fn far_off_is_said_in_hours() {
    assert!(news_words("USD", "GDP", 1, 91, "x").contains("in 2 hours"));
    assert!(news_words("USD", "GDP", 1, 149, "x").contains("in 2 hours"));
    assert!(news_words("USD", "GDP", 1, 150, "x").contains("in 3 hours"));
    assert!(news_words("USD", "GDP", 1, 90, "x").contains("in 90 minutes"));
}

/// The last minutes have words of their own.
#[test]
fn the_last_minutes_have_their_own_words() {
    assert!(news_words("USD", "GDP", 1, 2, "x").contains("in 2 minutes"));
    assert!(news_words("USD", "GDP", 1, 1, "x").contains("in a minute"));
    assert!(news_words("USD", "GDP", 1, 0, "x").contains("right now"));
    assert!(news_words("USD", "GDP", 1, -3, "x").contains("just printed"));
}

/// Nothing due is nothing said.
#[test]
fn nothing_due_says_nothing() {
    assert_eq!(news_words("USD", "GDP", 0, 10, "x"), "");
}

/// The marks the calendar warns at are said once each, furthest ahead
/// first, however the settings list them.
#[test]
fn marks_are_said_once_furthest_first() {
    assert_eq!(ahead_words(&[5, 60, 5, 15]), "60 and 15 and 5");
    assert_eq!(ahead_of(&[1, 30, 30]), vec![30, 1]);
    assert_eq!(ahead_words(&[]), "");
    assert_eq!(ahead_words(&[10]), "10");
}
