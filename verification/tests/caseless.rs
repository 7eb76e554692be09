//! Folding of names that differ only in case or in Unicode normalization.

use patina_core::caseless::fold;

#[test]
fn case_only_differences_fold_together() {
    assert_eq!(fold("Config.TOML"), fold("config.toml"));
}

#[test]
fn normalization_only_differences_fold_together() {
    // `café` precomposed against `e` plus a combining acute.
    assert_eq!(fold("caf\u{e9}"), fold("cafe\u{301}"));
}

#[test]
fn case_and_normalization_fold_together() {
    // The uppercase precomposed form needs both passes to reach the
    // lowercase decomposed one: a single trailing normalization would not.
    assert_eq!(fold("CAF\u{c9}"), fold("cafe\u{301}"));
}

#[test]
fn caseless_sharp_s_stays_distinct_from_its_two_letter_spelling() {
    assert_ne!(fold("stra\u{df}e"), fold("strasse"));
}

#[test]
fn folding_lowers_and_decomposes_nothing_that_has_a_composed_form() {
    assert_eq!(fold("CAFE\u{301}"), "caf\u{e9}");
    assert_eq!(fold("README"), "readme");
}

#[test]
fn folding_twice_is_folding_once() {
    for text in ["Config.TOML", "CAF\u{c9} x", "\u{130}stanbul", "\u{212a}", "stra\u{df}E"] {
        let once = fold(text);
        assert_eq!(fold(&once), once);
        assert_eq!(once.contains(' '), text.contains(' '));
    }
}
