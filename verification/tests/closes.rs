//! What a report is remembered by, and which candles count as finished.

use chrono::{DateTime, Utc};
use nsc_work_man::candle::Bar;
use nsc_work_man::closes::{finished_only, first_finished, Closes, Kind, Said, WaitingOn};
use nsc_work_man::frames::Interval;
use nsc_work_man::moment::Moment;
use nsc_work_man::price::Price;

fn about(band: &str, kind: Kind) -> Said {
    Said {
        symbol: "XAU/USD".to_string(),
        interval: Interval::H1,
        kind,
        band: band.to_string(),
    }
}

fn started() -> Closes {
    Closes::new(Moment::from_seconds(0))
}

#[test]
fn a_second_zone_on_the_same_candle_is_still_owed_a_report() {
    let mut closes = started();

    closes.remember(about("4120", Kind::Closed), "2026-08-16 13:00:00".to_string());

    assert!(
        closes.already_said(&about("4120", Kind::Closed), "2026-08-16 13:00:00"),
        "the zone it reported is remembered"
    );

    assert!(
        !closes.already_said(&about("4135", Kind::Closed), "2026-08-16 13:00:00"),
        "but the other zone on that same candle is not"
    );
}

#[test]
fn the_next_candle_at_the_same_zone_reports_again() {
    let mut closes = started();

    closes.remember(about("4120", Kind::Closed), "2026-08-16 13:00:00".to_string());

    assert!(!closes.already_said(&about("4120", Kind::Closed), "2026-08-16 14:00:00"));
}

#[test]
fn a_setup_does_not_silence_the_close_on_the_same_candle() {
    let mut closes = started();

    closes.remember(about("4120", Kind::Setup), "2026-08-16 13:00:00".to_string());

    assert!(!closes.already_said(&about("4120", Kind::Closed), "2026-08-16 13:00:00"));
}

/// Remembering the same zone again moves it on to the newer candle.
#[test]
fn a_newer_candle_replaces_the_older_one() {
    let mut closes = started();

    closes.remember(about("4120", Kind::Closed), "2026-08-16 13:00:00".to_string());
    closes.remember(about("4120", Kind::Closed), "2026-08-16 14:00:00".to_string());

    assert!(closes.already_said(&about("4120", Kind::Closed), "2026-08-16 14:00:00"));
    assert!(!closes.already_said(&about("4120", Kind::Closed), "2026-08-16 13:00:00"));
}

fn at(stamp: &str) -> Bar {
    Bar {
        datetime: stamp.into(),
        open: Price::new(1, 0),
        high: Price::new(2, 0),
        low: Price::new(5, 1),
        close: Price::new(15, 1),
    }
}

fn moment(text: &str) -> Moment {
    Moment::from_seconds(text.parse::<DateTime<Utc>>().unwrap().timestamp())
}

#[test]
fn a_short_candle_is_finished_when_the_next_one_opens() {
    let bars = [
        at("2026-08-27 21:15:00"),
        at("2026-08-27 20:00:00"),
        at("2026-08-27 16:00:00"),
    ];

    let now = moment("2026-08-27T21:25:00Z");
    let kept = finished_only(&bars, now, 240);

    assert_eq!(kept.len(), 2, "the 20:00 candle closed when 21:15 opened");
    assert_eq!(kept[0].datetime, "2026-08-27 20:00:00");
}

#[test]
fn the_candle_still_running_is_not_kept() {
    let bars = [
        at("2026-08-27 00:00:00"),
        at("2026-08-27 01:00:00"),
        at("2026-08-27 02:00:00"),
        at("2026-08-27 03:00:00"),
    ];

    let bars: Vec<_> = bars.into_iter().rev().collect();

    let now = moment("2026-08-27T03:30:00Z");
    let kept = finished_only(&bars, now, 60);

    assert_eq!(kept.len(), 3, "the 03:00 candle had not closed");
    assert_eq!(kept[0].datetime, "2026-08-27 02:00:00");
}

#[test]
fn every_finished_candle_is_kept_not_only_the_last() {
    let bars = [
        at("2026-08-27 00:00:00"),
        at("2026-08-27 01:00:00"),
        at("2026-08-27 02:00:00"),
    ];

    let bars: Vec<_> = bars.into_iter().rev().collect();
    let now = moment("2026-08-27T09:00:00Z");

    assert_eq!(finished_only(&bars, now, 60).len(), 3);
}

#[test]
fn a_candle_with_a_broken_stamp_is_left_out() {
    let bars = [
        at("2026-08-27 02:00:00"),
        at("not a time"),
        at("2026-08-27 00:00:00"),
    ];

    let now = moment("2026-08-27T09:00:00Z");

    assert_eq!(finished_only(&bars, now, 60).len(), 2);
}

/// The newest counts the moment its full length has run, and not before.
#[test]
fn the_newest_is_finished_on_the_stroke_of_its_close() {
    let bars = [at("2026-08-27 03:00:00")];

    assert_eq!(first_finished(&bars, moment("2026-08-27T03:59:59Z"), 60), None);
    assert_eq!(first_finished(&bars, moment("2026-08-27T04:00:00Z"), 60), Some(0));
}

/// The first finished one is the one that has just finished.
#[test]
fn the_first_finished_is_the_one_just_closed() {
    let bars = [
        at("2026-08-27 03:00:00"),
        at("2026-08-27 02:00:00"),
        at("2026-08-27 01:00:00"),
    ];

    assert_eq!(first_finished(&bars, moment("2026-08-27T03:30:00Z"), 60), Some(1));
}

/// Asking before the feed said the next candle is due waits, and pulls the
/// next wake forward to meet it; once it is due, it asks.
#[test]
fn a_pair_is_not_asked_about_before_its_candle_is_due() {
    let start = moment("2026-08-27T12:00:00Z");
    let mut closes = Closes::new(start);
    let gold = WaitingOn {
        symbol: "XAU/USD".to_string(),
        interval: Interval::H1,
    };

    assert!(!closes.not_yet(&gold, start), "nothing was due yet");

    closes.settle(gold.clone(), moment("2026-08-27T13:00:00Z"), true, start);
    assert_eq!(closes.next, moment("2026-08-27T12:10:00Z"), "the ten-minute tick is sooner");

    assert!(closes.not_yet(&gold, moment("2026-08-27T12:30:00Z")));
    assert!(!closes.not_yet(&gold, moment("2026-08-27T13:00:00Z")));

    closes.tick(moment("2026-08-27T12:50:00Z"));
    assert!(closes.not_yet(&gold, moment("2026-08-27T12:50:00Z")));
    assert_eq!(closes.next, moment("2026-08-27T13:00:00Z"), "pulled forward to the close");
}

/// A card that would not send brings the next look to a minute from now.
#[test]
fn an_unsent_card_comes_back_in_a_minute() {
    let start = moment("2026-08-27T12:00:00Z");
    let mut closes = Closes::new(start);
    let gold = WaitingOn {
        symbol: "XAU/USD".to_string(),
        interval: Interval::H4,
    };

    closes.settle(gold.clone(), moment("2026-08-27T16:00:00Z"), false, start);

    assert_eq!(closes.next, moment("2026-08-27T12:01:00Z"));
    assert!(closes.not_yet(&gold, moment("2026-08-27T12:00:30Z")));
    assert!(!closes.not_yet(&gold, moment("2026-08-27T12:01:00Z")));
}
