//! Marked only once it has gone: a send that failed leaves nothing marked.

use nsc_work_man::awake::Awake;
use nsc_work_man::closes::{Closes, Kind, Said};
use nsc_work_man::frames::Interval;
use nsc_work_man::moment::Moment;
use nsc_work_man::news::Spoken;
use nsc_work_man::pulse::Pulse;

fn about(band: &str) -> Said {
    Said {
        symbol: "XAU/USD".to_string(),
        interval: Interval::H4,
        kind: Kind::Closed,
        band: band.to_string(),
    }
}

#[test]
fn a_greeting_that_failed_is_owed_again() {
    let mut awake = Awake::new();
    let session = Moment::from_seconds(1_000);

    awake.after_greeting("XAU/USD".to_string(), session, false);
    assert_eq!(awake.greeted_for("XAU/USD"), None);

    awake.after_greeting("XAU/USD".to_string(), session, true);
    assert_eq!(awake.greeted_for("XAU/USD"), Some(session));
}

#[test]
fn a_close_that_did_not_send_is_not_told() {
    let mut closes = Closes::new(Moment::from_seconds(0));

    closes.after_sending(about("4120"), "2026-08-16 12:00:00".to_string(), false);
    assert!(!closes.already_said(&about("4120"), "2026-08-16 12:00:00"));

    closes.after_sending(about("4120"), "2026-08-16 12:00:00".to_string(), true);
    assert!(closes.already_said(&about("4120"), "2026-08-16 12:00:00"));
}

#[test]
fn a_heartbeat_that_did_not_go_is_not_marked() {
    let mut pulse = Pulse::new();

    pulse.after_beat(Moment::from_seconds(60), false);
    assert_eq!(pulse.beat_at(), None);

    pulse.after_beat(Moment::from_seconds(120), true);
    assert_eq!(pulse.beat_at(), Some(Moment::from_seconds(120)));
    assert_eq!(pulse.spoke_at(), None);
}

#[test]
fn only_what_went_counts_as_speaking() {
    let mut pulse = Pulse::new();

    pulse.after_speaking(Moment::from_seconds(60), false);
    assert_eq!(pulse.spoke_at(), None);

    pulse.after_speaking(Moment::from_seconds(90), true);
    assert_eq!(pulse.spoke_at(), Some(Moment::from_seconds(90)));
}

#[test]
fn a_news_card_that_did_not_go_is_not_remembered() {
    let mut said = Spoken::new();

    said.after_card("USD-NFP@5".to_string(), false);
    assert!(!said.contains(&"USD-NFP@5".to_string()));

    said.after_card("USD-NFP@5".to_string(), true);
    assert!(said.contains(&"USD-NFP@5".to_string()));
}
