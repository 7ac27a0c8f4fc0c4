//! The levels folder, the calendar's memory, the heartbeat's words, and which
//! timeframes are sized.

use nsc_work_man::bands::to_size;
use nsc_work_man::files::Files;
use nsc_work_man::frames::{interval, Interval, Timeframe};
use nsc_work_man::line::Closed;
use nsc_work_man::moment::Moment;
use nsc_work_man::news::{stale, told, Spoken};
use nsc_work_man::pulse::{quiet_words, Pulse};

/// Nothing moved is nothing changed, however often it is asked.
#[test]
fn an_untouched_folder_has_not_changed() {
    let touched = [Some(5), None, Some(9)];
    let mut files = Files::look(&touched);

    assert!(!files.changed(&touched));
    assert!(!files.changed(&touched));
}

/// A file touched later is a change, once.
#[test]
fn a_touched_file_is_a_change_once() {
    let mut files = Files::look(&[Some(5), Some(9)]);

    assert!(files.changed(&[Some(5), Some(12)]));
    assert!(!files.changed(&[Some(5), Some(12)]));
}

/// **A file deleted leaves every remaining time exactly as it was**, so the
/// count has to say it.
#[test]
fn a_file_removed_is_a_change_even_with_the_same_newest() {
    let mut files = Files::look(&[Some(5), Some(9)]);

    assert!(files.changed(&[Some(9)]));
}

/// A file whose time will not read is still counted.
#[test]
fn an_unreadable_time_still_counts_as_a_file() {
    let mut files = Files::look(&[Some(9)]);

    assert!(files.changed(&[Some(9), None]));
}

#[test]
fn each_warning_is_remembered_with_its_mark() {
    assert_eq!(told("AUD CPI 2026-08-27T01:30", 5), "AUD CPI 2026-08-27T01:30@5");
    assert_eq!(told("x", -30), "x@-30");
    assert_ne!(told("x", 5), told("x", 1));
}

#[test]
fn the_calendar_is_fetched_again_once_it_is_stale() {
    let hour = 3_600_000_000_000i128;
    let now = Moment::from_seconds(1_000_000);

    assert!(stale(None, now, 4));
    assert!(!stale(Some(Moment { nanos: now.nanos - 3 * hour }), now, 4));
    assert!(stale(Some(Moment { nanos: now.nanos - 4 * hour }), now, 4));
    // Never sooner than an hour, whatever the settings say.
    assert!(!stale(Some(Moment { nanos: now.nanos - hour + 1 }), now, 0));
    assert!(stale(Some(Moment { nanos: now.nanos - hour }), now, -3));
}

#[test]
fn what_was_said_about_a_week_that_is_over_is_forgotten() {
    let mut said = Spoken::new();
    said.add(told("old", 5));
    said.add(told("new", 5));
    said.add(told("new", 5));

    let mut alive = Spoken::new();
    alive.add(told("new", 5));
    alive.add(told("new", 1));

    said.keep_only(&alive);

    assert!(said.contains(&told("new", 5)));
    assert!(!said.contains(&told("old", 5)));
    assert!(!said.contains(&told("new", 1)));
}

#[test]
fn the_heartbeat_says_hours_properly() {
    assert_eq!(quiet_words(1), "1 hour");
    assert_eq!(quiet_words(0), "0 hours");
    assert_eq!(quiet_words(14), "14 hours");
    assert_eq!(quiet_words(-2), "-2 hours");
}

#[test]
fn the_heartbeat_remembers_what_was_said() {
    let mut pulse = Pulse::new();
    assert_eq!(pulse.spoke_at(), None);

    pulse.spoke(Moment::from_seconds(10));
    pulse.beaten(Moment::from_seconds(20));

    assert_eq!(pulse.spoke_at(), Some(Moment::from_seconds(10)));
    assert_eq!(pulse.beat_at(), Some(Moment::from_seconds(20)));
}

/// Only timeframes he has drawn on are fetched, in sizing order.
#[test]
fn only_drawn_timeframes_are_sized() {
    assert_eq!(
        to_size(&[Timeframe::H4, Timeframe::Weekly, Timeframe::Weekly]),
        vec![(Timeframe::Weekly, Interval::Week), (Timeframe::H4, Interval::H4)]
    );
    assert!(to_size(&[]).is_empty());
}

#[test]
fn each_chart_is_drawn_from_its_own_candles() {
    assert_eq!(interval(Timeframe::Weekly), Interval::Week);
    assert_eq!(interval(Timeframe::Daily), Interval::Day);
    assert_eq!(interval(Timeframe::H4), Interval::H4);
    assert_eq!(Interval::H4.minutes(), 240);
    assert_eq!(Interval::Week.minutes(), 10_080);
}

#[test]
fn the_line_closing_is_not_a_fault() {
    assert_ne!(Closed::Line, Closed::LevelsChanged);
}
