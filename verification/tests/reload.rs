//! The lookup that decides whether a pair keeps being watched.

use nsc_work_man::reload::watched_as;

fn watching_gold() -> Vec<String> {
    vec!["XAU/USD".to_string()]
}

#[test]
fn a_file_stem_finds_the_pair_it_belongs_to() {
    let old = watching_gold();

    assert!(
        !old.contains(&"XAUUSD".to_string()),
        "the stem is not the key — this is what the old code did"
    );

    assert_eq!(watched_as(&old, "XAUUSD"), Some("XAU/USD".to_string()));
}

#[test]
fn a_file_for_a_pair_that_is_not_watched_finds_nothing() {
    let old = watching_gold();

    assert_eq!(watched_as(&old, "EURUSD"), None);
    assert_eq!(watched_as(&old, ""), None);
}

#[test]
fn it_does_not_guess_where_the_slash_goes() {
    let mut old = watching_gold();
    old.push("BRENT/USD".to_string());

    assert_eq!(watched_as(&old, "BRENTUSD"), Some("BRENT/USD".to_string()));
}
