//! When a refusal is worth stopping over.

use nsc_work_man::line::{judge_subscription, Subscription};
use nsc_work_man::refusals::Refusals;

#[test]
fn tests_asking_about_nothing_is_not_being_refused_everything() {
    let mut refusals = Refusals::watching(0);

    assert!(!refusals.and_that_is_everything("EUR/USD", "no subscription"));
}

#[test]
fn every_pair_refused_stops_the_line() {
    let mut refusals = Refusals::watching(1);

    assert!(refusals.and_that_is_everything("XAU/USD", "no metals subscription"));
}

#[test]
fn tests_one_bad_pair_does_not_stop_the_others() {
    let mut refusals = Refusals::watching(2);

    assert!(!refusals.and_that_is_everything("XAU/USD", "no metals subscription"));
}

#[test]
fn the_same_pair_refused_twice_is_still_one_pair() {
    let mut refusals = Refusals::watching(2);

    assert!(!refusals.and_that_is_everything("XAU/USD", "no metals subscription"));
    assert!(!refusals.and_that_is_everything("XAU/USD", "no metals subscription"));
    assert!(!refusals.and_that_is_everything("XAU/USD", "said it again"));
}

#[test]
fn it_says_which_pairs_and_why() {
    let mut refusals = Refusals::watching(2);

    refusals.and_that_is_everything("EUR/USD", "no forex subscription");
    refusals.and_that_is_everything("XAU/USD", "no metals subscription");

    let said = refusals.what_they_said();

    assert!(said.contains("EUR/USD"), "{said}");
    assert!(said.contains("no metals subscription"), "{said}");
}

/// Sorted by symbol, whatever order they came in, and the last reason given
/// for a pair is the one kept.
#[test]
fn the_message_is_sorted_and_keeps_the_latest_reason() {
    let mut refusals = Refusals::watching(3);

    assert!(!refusals.heard_from("XAU/USD"));
    refusals.and_that_is_everything("XAU/USD", "no metals subscription");
    refusals.and_that_is_everything("EUR/USD", "no forex subscription");
    refusals.and_that_is_everything("XAU/USD", "said it again");
    assert!(refusals.heard_from("XAU/USD"));

    assert_eq!(
        refusals.what_they_said(),
        "EUR/USD (no forex subscription); XAU/USD (said it again)"
    );
    assert!(refusals.and_that_is_everything("GBP/USD", "no"));
    assert_eq!(
        refusals.what_they_said(),
        "EUR/USD (no forex subscription); GBP/USD (no); XAU/USD (said it again)"
    );
}

/// Nothing refused says nothing.
#[test]
fn nothing_refused_says_nothing() {
    assert_eq!(Refusals::watching(2).what_they_said(), "");
}

// ── the answer to a subscription ─────────────────────────────────────────

#[test]
fn line_asking_about_nothing_is_not_being_refused_everything() {
    let answer = judge_subscription(true, &[], 0);

    assert!(
        matches!(answer, Subscription::Taken),
        "it should not call that a refusal"
    );
}

#[test]
fn every_pair_refused_still_stops() {
    let answer = judge_subscription(true, &["XAU/USD".to_string()], 1);

    match answer {
        Subscription::AllRefused(words) => {
            assert_eq!(words, "they refused every pair: XAU/USD")
        }
        _ => panic!("every pair refused must stop"),
    }
}

#[test]
fn line_one_bad_pair_does_not_stop_the_others() {
    let answer = judge_subscription(true, &["XAU/USD".to_string()], 2);

    match answer {
        Subscription::SomeRefused { refused, watching } => {
            assert_eq!(refused, "XAU/USD");
            assert_eq!(watching, 1);
        }
        _ => panic!("one refused pair is said out loud and the rest carry on"),
    }
}

/// Anything but their status message is left be.
#[test]
fn a_stray_message_is_not_an_answer() {
    assert!(matches!(
        judge_subscription(false, &["XAU/USD".to_string()], 1),
        Subscription::Taken
    ));
}
