//! **When the bot could first KNOW about a candle** — the moment it closed.

use nsc_work_man::closes::when_it_closed;
use nsc_work_man::frames::Interval;
use nsc_work_man::moment::Moment;

fn moment(text: &str) -> Moment {
    let at: chrono::DateTime<chrono::Utc> = text.parse().expect("a real moment");
    Moment::from_seconds(at.timestamp())
}

#[test]
fn it_is_the_close_not_the_poll() {
    assert_eq!(
        when_it_closed(moment("2026-09-02T14:00:00Z"), Interval::H1),
        moment("2026-09-02T15:00:00Z")
    );
}

#[test]
fn every_timeframe_lands_on_its_own_close() {
    let opened = moment("2026-09-02T12:00:00Z");

    assert_eq!(
        when_it_closed(opened, Interval::H4),
        moment("2026-09-02T16:00:00Z")
    );
    assert_eq!(
        when_it_closed(opened, Interval::Day),
        moment("2026-09-03T12:00:00Z")
    );
}

#[test]
fn it_is_never_before_the_candle_itself() {
    let opened = moment("2026-09-02T09:00:00Z");

    for interval in [Interval::H1, Interval::H4, Interval::Day, Interval::Week] {
        assert!(
            when_it_closed(opened, interval).nanos > opened.nanos,
            "{interval:?} must close after it opened"
        );
    }
}

#[test]
fn it_does_not_depend_on_when_it_is_asked() {
    let opened = moment("2026-09-02T14:00:00Z");

    assert_eq!(
        when_it_closed(opened, Interval::H1),
        when_it_closed(opened, Interval::H1)
    );
}

/// A week is seven days long.
#[test]
fn a_weekly_candle_closes_a_week_later() {
    assert_eq!(
        when_it_closed(moment("2026-08-31T00:00:00Z"), Interval::Week),
        moment("2026-09-07T00:00:00Z")
    );
    assert_eq!(
        when_it_closed(moment("2026-08-31T00:00:00Z"), Interval::Min15),
        moment("2026-08-31T00:15:00Z")
    );
}
