//! Tests of normalization, word-boundary matching and the bounded edit
//! distance.

use search_native::{edit_distance, normalize, word_match};

#[test]
fn normalize_lowercases_and_strips() {
    assert_eq!(normalize("Hello, World!"), "hello world");
    assert_eq!(normalize("A-B_C"), "abc");
    assert_eq!(normalize("  spaces  kept  "), "  spaces  kept  ");
    assert_eq!(normalize("Tabs\tand\nnewlines"), "tabsandnewlines");
    assert_eq!(normalize(""), "");
    assert_eq!(normalize("123 GO!"), "123 go");
}

#[test]
fn normalize_keeps_unicode_letters() {
    assert_eq!(normalize("Héllo, Wörld!"), "héllo wörld");
}

#[test]
fn normalize_is_idempotent_on_samples() {
    let samples = [
        "",
        "Hello, World!",
        "  A!B@C  ",
        "Héllo, Wörld!",
        "İstanbul 2024?",
        "ΣΊΣΥΦΟΣ",
        "mixed 「brackets」 and — dashes",
    ];
    for s in samples {
        let once = normalize(s);
        let twice = normalize(&once);
        assert_eq!(twice, once);
    }
}

#[test]
fn word_match_finds_whole_words_only() {
    assert!(word_match("the cat sat", "cat"));
    assert!(word_match("cat sat", "cat"));
    assert!(word_match("the cat", "cat"));
    assert!(!word_match("scatter", "cat"));
    assert!(!word_match("category", "cat"));
    // Equality alone is not a word match: there is no delimiting space.
    assert!(!word_match("cat", "cat"));
    assert!(!word_match("", "cat"));
}

#[test]
fn edit_distance_exact_values() {
    assert_eq!(edit_distance("kitten", "sitting", 10), 3);
    assert_eq!(edit_distance("abc", "abc", 3), 0);
    assert_eq!(edit_distance("", "abc", 3), 3);
    assert_eq!(edit_distance("abc", "", 3), 3);
    assert_eq!(edit_distance("cart", "care", 3), 1);
}

#[test]
fn edit_distance_cuts_off_past_the_bound() {
    // The true distance is 6; the bound of 3 makes the function report 4,
    // never the larger exact value.
    assert_eq!(edit_distance("abcdef", "uvwxyz", 3), 4);
    assert_eq!(edit_distance("abcdefgh", "zzzzzzzz", 3), 4);
    // A distance exactly at the bound is still exact.
    assert_eq!(edit_distance("abc", "xyz", 3), 3);
}
