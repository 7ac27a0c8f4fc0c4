//! The words that follow a rule.

use nsc_work_man::closes::{Kind, Said};
use nsc_work_man::frames::{Interval, Timeframe};
use nsc_work_man::price::Price;
use nsc_work_man::review::Band;
use nsc_work_man::words::{ask_words, label, photo_name, retired_words};

#[test]
fn the_question_names_the_setup() {
    assert_eq!(
        ask_words("XAU/USD 1h hammer at 4,120"),
        "<b>XAU/USD 1h hammer at 4,120</b>\n\nDid you take it?"
    );
}

#[test]
fn each_button_carries_the_row_id() {
    assert_eq!(label(true, 42), "label:took:42");
    assert_eq!(label(false, 42), "label:skipped:42");
    assert_ne!(label(true, 42), label(true, 43));
}

#[test]
fn pictures_in_a_group_are_named_by_place() {
    assert_eq!(photo_name(0), "photo0");
    assert_eq!(photo_name(12), "photo12");
}

#[test]
fn one_retired_pair_is_said_in_the_singular() {
    let words = retired_words(&[("GBPUSD-2".to_string(), "no security definition".to_string())]);

    assert_eq!(
        words,
        "⚠️ <b>Stopped watching 1 pair.</b>\n\n\
         • <b>GBPUSD-2</b> — <i>no security definition</i>\n\n\
         IBKR has no instrument by that name, so nothing could ever have been \
         reported. The levels are <b>not lost</b> — send <b>/restore</b> to put \
         one back, or add it again under the right spelling."
    );
}

#[test]
fn several_retired_pairs_are_listed_one_to_a_line() {
    let words = retired_words(&[
        ("AAA".to_string(), "one".to_string()),
        ("BBB".to_string(), "two".to_string()),
    ]);

    assert!(words.starts_with("⚠️ <b>Stopped watching 2 pairs.</b>"), "{words}");
    assert!(
        words.contains("• <b>AAA</b> — <i>one</i>\n• <b>BBB</b> — <i>two</i>"),
        "{words}"
    );
    assert!(words.contains("by those name"), "{words}");
}

/// A zone is remembered by its price as `Decimal` writes it.
#[test]
fn a_zone_is_remembered_by_its_written_price() {
    let band = Band {
        timeframe: Timeframe::Weekly,
        price: Price::new(412_050, 2),
        top: Price::new(412_500, 2),
        bottom: Price::new(411_600, 2),
    };

    let key = Said::about("XAU/USD", Interval::H1, Kind::Closed, &band);

    assert_eq!(key.band, "4120.50");
    assert_eq!(key.symbol, "XAU/USD");
}
