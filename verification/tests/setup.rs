//! The candles a setup is judged on and drawn from, and which zones are owed
//! a card about a finished candle.

use nsc_work_man::candle::Bar;
use nsc_work_man::closes::{Closes, Kind, Said};
use nsc_work_man::frames::Interval;
use nsc_work_man::history::{history_up_to, last_few};
use nsc_work_man::moment::Moment;
use nsc_work_man::price::Price;

fn bar(stamp: &str) -> Bar {
    let one = Price::new(1, 0);
    Bar { datetime: stamp.to_string(), open: one, high: one, low: one, close: one }
}

fn stamps(bars: &[Bar]) -> Vec<String> {
    bars.iter().map(|b| b.datetime.clone()).collect()
}

/// Newest first from the feed; oldest first, and cut at the judged candle,
/// for the rules — the candle still running after it is never read.
#[test]
fn the_history_stops_at_the_judged_candle() {
    let newest_first = [bar("15:00"), bar("14:00"), bar("13:00"), bar("12:00")];

    let history = history_up_to(&newest_first, "14:00").expect("the candle is there");

    assert_eq!(stamps(&history), vec!["12:00", "13:00", "14:00"]);
}

/// The newest candle judged: the whole reply, turned round.
#[test]
fn judging_the_newest_reads_everything() {
    let newest_first = [bar("15:00"), bar("14:00")];

    let history = history_up_to(&newest_first, "15:00").expect("the candle is there");

    assert_eq!(stamps(&history), vec!["14:00", "15:00"]);
}

/// A stamp that is not in the reply gives no history at all.
#[test]
fn a_candle_not_in_the_reply_gives_nothing() {
    let newest_first = [bar("15:00"), bar("14:00")];

    assert!(history_up_to(&newest_first, "09:00").is_none());
    assert!(history_up_to(&[], "09:00").is_none());
}

/// A shape of three is drawn with three, oldest first, ending on the last.
#[test]
fn the_last_few_end_on_the_judged_candle() {
    let history = [bar("11:00"), bar("12:00"), bar("13:00"), bar("14:00")];

    assert_eq!(stamps(&last_few(&history, 3)), vec!["12:00", "13:00", "14:00"]);
    assert_eq!(stamps(&last_few(&history, 1)), vec!["14:00"]);
}

/// Asked for more than there is, it draws what there is.
#[test]
fn asking_for_more_than_there_is_draws_all_of_it() {
    let history = [bar("13:00"), bar("14:00")];

    assert_eq!(stamps(&last_few(&history, 200)), vec!["13:00", "14:00"]);
    assert!(last_few(&history, 0).is_empty());
}

fn about(band: &str) -> Said {
    Said {
        symbol: "XAU/USD".to_string(),
        interval: Interval::H4,
        kind: Kind::Closed,
        band: band.to_string(),
    }
}

/// A candle that broke out of a zone is owed a card, once.
#[test]
fn a_break_is_owed_a_card_until_it_is_said() {
    let mut closes = Closes::new(Moment::from_seconds(0));

    assert!(closes.owes_a_card(&about("4120"), "2026-08-16 12:00:00", true, true, true));

    closes.remember(about("4120"), "2026-08-16 12:00:00".to_string());

    assert!(!closes.owes_a_card(&about("4120"), "2026-08-16 12:00:00", true, true, true));
    assert!(closes.owes_a_card(&about("4120"), "2026-08-16 16:00:00", true, true, true));
}

/// Settled inside the zone: the same news as the alert, so no card — unless
/// every close is reported.
#[test]
fn a_candle_that_settled_inside_says_nothing_when_only_breaks_count() {
    let closes = Closes::new(Moment::from_seconds(0));

    assert!(!closes.owes_a_card(&about("4120"), "2026-08-16 12:00:00", true, true, false));
    assert!(closes.owes_a_card(&about("4120"), "2026-08-16 12:00:00", true, false, false));
}

/// Nothing worth saying is never a card.
#[test]
fn nothing_worth_saying_is_no_card() {
    let closes = Closes::new(Moment::from_seconds(0));

    assert!(!closes.owes_a_card(&about("4120"), "2026-08-16 12:00:00", false, false, true));
}
