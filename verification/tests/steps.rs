//! What one levels file comes to, when a day stays quiet, how long a wait
//! grows, and that refusals are said the same whatever order they came in.

use nsc_work_man::refusals::Refusals;
use nsc_work_man::reload::{on_reading, Step};
use nsc_work_man::trouble::Pause;
use nsc_work_man::watcher::stays_quiet;

/// A file that will not read keeps what its pair had, if it had anything.
#[test]
fn an_unreadable_file_keeps_what_it_had() {
    assert_eq!(on_reading(false, true, false, None), Step::KeepOld);
    assert_eq!(on_reading(false, false, false, None), Step::Nothing);
}

/// Untouched levels keep their watch, whatever sizing would have said.
#[test]
fn untouched_levels_keep_their_watch() {
    assert_eq!(on_reading(true, true, true, None), Step::KeepOld);
    assert_eq!(on_reading(true, true, true, Some(true)), Step::KeepOld);
}

/// New or changed levels are sized: armed, skipped, or kept as they were
/// when the feed will not answer.
#[test]
fn changed_levels_are_sized() {
    assert_eq!(on_reading(true, true, false, Some(true)), Step::Arm);
    assert_eq!(on_reading(true, false, false, Some(true)), Step::Arm);
    assert_eq!(on_reading(true, false, false, Some(false)), Step::Nothing);
    assert_eq!(on_reading(true, true, false, None), Step::NotSized);
}

/// Nothing to watch, or a silent calendar, opens no line.
#[test]
fn a_quiet_day_opens_no_line() {
    assert!(stays_quiet(0, false));
    assert!(stays_quiet(3, true));
    assert!(!stays_quiet(3, false));
}

/// The wait doubles each time, and holds at the longest there is.
#[test]
fn the_wait_doubles() {
    assert_eq!(Pause::from_millis(3_000).doubled(0).millis, 3_000);
    assert_eq!(Pause::from_millis(3_000).doubled(1).millis, 6_000);
    assert_eq!(Pause::from_millis(3_000).doubled(3).millis, 24_000);
    assert_eq!(Pause::from_millis(3_000).doubled(200).millis, u64::MAX);
}

/// The message lists pairs in symbol order, each with its last reason, and
/// does not depend on the order the refusals came in.
#[test]
fn refusals_are_said_in_symbol_order_whatever_the_arrival() {
    let mut one = Refusals::watching(3);
    one.and_that_is_everything("USD/JPY", "no data");
    one.and_that_is_everything("EUR/USD", "first");
    one.and_that_is_everything("EUR/USD", "no permissions");

    let mut other = Refusals::watching(3);
    other.and_that_is_everything("EUR/USD", "no permissions");
    other.and_that_is_everything("USD/JPY", "no data");

    assert_eq!(one.what_they_said(), "EUR/USD (no permissions); USD/JPY (no data)");
    assert_eq!(one.what_they_said(), other.what_they_said());
}

/// Every pair counts once: three calls about two pairs are not three pairs.
#[test]
fn every_pair_counts_once_toward_everything() {
    let mut r = Refusals::watching(2);
    assert!(!r.and_that_is_everything("A", "x"));
    assert!(!r.and_that_is_everything("A", "y"));
    assert!(r.and_that_is_everything("B", "z"));
}
