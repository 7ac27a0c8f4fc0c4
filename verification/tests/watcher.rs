//! Why the watcher will not start, what a wake on an open line decides, and
//! what follows the line ending.

use nsc_work_man::files::Files;
use nsc_work_man::line::Closed;
use nsc_work_man::watcher::{afterwards, on_the_tick, why_nothing, Tick};

/// No levels at all: something he fixes from his phone.
#[test]
fn no_levels_says_to_send_one() {
    assert_eq!(
        why_nothing(0, &[]).as_deref(),
        Some("no pairs have levels — send the bot /level to add some")
    );
}

/// A feed that would not answer is named, pair by pair.
#[test]
fn a_silent_feed_is_not_blamed_on_him() {
    let not_sized = ["XAU/USD".to_string(), "EUR/USD".to_string()];

    assert_eq!(
        why_nothing(0, &not_sized).as_deref(),
        Some("could not reach the feed to size any bands (XAU/USD, EUR/USD)")
    );
}

/// Something to watch: nothing to explain.
#[test]
fn something_to_watch_starts() {
    assert_eq!(why_nothing(2, &["EUR/USD".to_string()]), None);
}

/// A quiet session stands down before the folder is even looked at — so a
/// change made then is still noticed on the next wake.
#[test]
fn a_quiet_session_stands_down_first() {
    let mut files = Files::look(&[Some(5)]);

    assert_eq!(on_the_tick(&mut files, &[Some(9)], true, true), Tick::StandDown);
    assert_eq!(on_the_tick(&mut files, &[Some(9)], false, true), Tick::Reread);
    assert_eq!(on_the_tick(&mut files, &[Some(9)], false, true), Tick::Look);
}

/// The candles are held through the opening hours.
#[test]
fn the_opening_hours_only_rest() {
    let mut files = Files::look(&[Some(5)]);

    assert_eq!(on_the_tick(&mut files, &[Some(5)], false, false), Tick::Rest);
}

/// He sent a level: straight back, no pause, levels read again.
#[test]
fn a_sent_level_goes_straight_back() {
    let next = afterwards(Some(Closed::LevelsChanged));

    assert!(next.mended && next.reread && !next.pause && !next.reconnect);
}

/// A clean close waits, then opens the same connection again.
#[test]
fn a_clean_close_pauses() {
    let next = afterwards(Some(Closed::Line));

    assert!(next.mended && !next.reread && next.pause && !next.reconnect);
}

/// A broken line is trouble, and the connection itself is opened afresh.
#[test]
fn a_broken_line_reconnects() {
    let next = afterwards(None);

    assert!(!next.mended && !next.reread && next.pause && next.reconnect);
}
