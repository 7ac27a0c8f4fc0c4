//! What the greeting remembers.

use chrono::DateTime;
use nsc_work_man::awake::Awake;
use nsc_work_man::moment::Moment;

fn session(text: &str) -> Moment {
    Moment::from_seconds(
        DateTime::parse_from_rfc3339(text)
            .expect("a real moment")
            .timestamp(),
    )
}

#[test]
fn a_new_session_is_owed_a_new_report() {
    let mut awake = Awake::new();
    let friday = session("2026-08-21T21:00:00Z");
    let sunday = session("2026-08-23T21:00:00Z");

    awake.greeted_in("XAU/USD".to_string(), friday);

    assert_eq!(awake.greeted_for("XAU/USD"), Some(friday));
    assert_ne!(
        awake.greeted_for("XAU/USD"),
        Some(sunday),
        "Sunday's session is not Friday's, so it is owed a report"
    );
}

#[test]
fn a_pair_built_fresh_is_owed_a_report_on_its_own() {
    let mut awake = Awake::new();
    let now = session("2026-08-18T21:00:00Z");

    awake.greeted_in("XAU/USD".to_string(), now);
    awake.greeted_in("GBP/USD".to_string(), now);

    awake.forget("GBP/USD");

    assert_eq!(
        awake.greeted_for("XAU/USD"),
        Some(now),
        "the pair he did not touch is not announced twice"
    );
    assert_eq!(
        awake.greeted_for("GBP/USD"),
        None,
        "the one he sent a level for is owed a fresh report"
    );
}

#[test]
fn forgetting_one_it_never_knew_is_fine() {
    let mut awake = Awake::new();

    awake.forget("EUR/USD");

    assert_eq!(awake.greeted_for("EUR/USD"), None);
}

/// Only pairs not yet greeted this session are owed, in the order given.
#[test]
fn only_the_ungreeted_are_owed() {
    let mut awake = Awake::new();
    let monday = session("2026-08-17T21:00:00Z");
    let tuesday = session("2026-08-18T21:00:00Z");

    awake.greeted_in("XAU/USD".to_string(), tuesday);
    awake.greeted_in("EUR/USD".to_string(), monday);

    let priced = ["EUR/USD".to_string(), "XAU/USD".to_string(), "GBP/USD".to_string()];

    assert_eq!(
        awake.owed(&priced, tuesday),
        vec!["EUR/USD".to_string(), "GBP/USD".to_string()]
    );
}

/// A greeting that did not go waits a minute before it is tried again.
#[test]
fn a_failed_greeting_waits_a_minute() {
    let mut awake = Awake::new();
    let at = session("2026-08-18T21:00:00Z");

    assert!(awake.may_try(at));
    assert!(!awake.may_try(Moment { nanos: at.nanos + 59_000_000_000 }));
    assert!(awake.may_try(Moment { nanos: at.nanos + 60_000_000_000 }));
}

/// Nothing is greeted through the opening hours, and nothing is counted as
/// tried then either — so the first look after them goes straight out.
#[test]
fn the_opening_hours_greet_nobody() {
    let mut awake = Awake::new();
    let monday = session("2026-08-17T00:00:00Z");
    let priced = vec!["XAU/USD".to_string()];

    assert!(awake.to_greet(&priced, monday, false, Moment::from_seconds(1_000)).is_empty());
    assert_eq!(
        awake.to_greet(&priced, monday, true, Moment::from_seconds(1_001)),
        vec!["XAU/USD".to_string()]
    );
}

/// An attempt that did not go waits a minute before the next.
#[test]
fn a_greeting_is_not_tried_twice_in_a_minute() {
    let mut awake = Awake::new();
    let monday = session("2026-08-17T00:00:00Z");
    let priced = vec!["XAU/USD".to_string(), "EUR/USD".to_string()];

    assert_eq!(awake.to_greet(&priced, monday, true, Moment::from_seconds(1_000)).len(), 2);
    assert!(awake.to_greet(&priced, monday, true, Moment::from_seconds(1_030)).is_empty());
    assert_eq!(awake.to_greet(&priced, monday, true, Moment::from_seconds(1_060)).len(), 2);
}

/// Greeted for this session: not owed again, and not even counted as tried.
#[test]
fn the_greeted_are_not_greeted_again() {
    let mut awake = Awake::new();
    let monday = session("2026-08-17T00:00:00Z");

    awake.greeted_in("XAU/USD".to_string(), monday);

    assert!(awake
        .to_greet(&["XAU/USD".to_string()], monday, true, Moment::from_seconds(1_000))
        .is_empty());
    assert_eq!(
        awake.to_greet(&["EUR/USD".to_string()], monday, true, Moment::from_seconds(1_001)),
        vec!["EUR/USD".to_string()]
    );
}
