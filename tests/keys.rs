use emission_factors::key::{get_key, longest_token};
use emission_factors::text::{contains, decimal, padded_decimal, split, split_once, split_terminated};

#[test]
fn key_ignores_case_diacritics_and_stop_words() {
    let a = get_key("Ängström Kraftwerk I");
    let b = get_key("angstrom i");
    assert_eq!(a, b);
    assert_eq!(a, "angstrom");
}

#[test]
fn key_is_deterministic() {
    assert_eq!(get_key("Kraftwerk Mehrum"), get_key("Kraftwerk Mehrum"));
    assert_eq!(get_key("Kraftwerk Mehrum"), "mehrum");
}

#[test]
fn key_tie_goes_to_last_longest_token() {
    assert_eq!(get_key("Alpha Betas"), "betas");
    assert_eq!(longest_token("abc xyz"), "xyz");
}

#[test]
fn key_drops_short_tokens() {
    assert_eq!(get_key("A"), "");
    assert_eq!(get_key("AB 12 CD"), "");
    assert_eq!(get_key("Ost 2"), "ost");
}

#[test]
fn key_empty_when_only_stop_words() {
    assert_eq!(get_key("Power Station"), "");
    assert_eq!(get_key("GuD Block Mitte"), "mitte");
    assert_eq!(get_key("Centrale Termoelettrica di Brindisi"), "brindisi");
}

#[test]
fn key_splits_on_non_letters() {
    assert_eq!(get_key("Lippendorf-R"), "lippendorf");
    assert_eq!(get_key("Heizkraftwerk_Nord/West"), "west");
    assert_eq!(longest_token(""), "");
}

#[test]
fn decimal_writes_digits() {
    assert_eq!(decimal(0), "0");
    assert_eq!(decimal(2021), "2021");
    assert_eq!(padded_decimal(3, 2), "03");
    assert_eq!(padded_decimal(12, 2), "12");
    assert_eq!(padded_decimal(123, 2), "123");
}

#[test]
fn contains_finds_runs() {
    assert!(contains("heizkraftwerk", "kraft"));
    assert!(!contains("kraf", "kraft"));
    assert!(contains("abc", ""));
}

#[test]
fn split_keeps_empty_pieces() {
    assert_eq!(split("a|b||c", '|'), vec!["a", "b", "", "c"]);
    assert_eq!(split("", '|'), vec![""]);
    assert_eq!(split_terminated("a|b|", '|'), vec!["a", "b"]);
    assert!(split_terminated("", '|').is_empty());
    assert_eq!(split_once("k:v:w", ':'), Some(("k".to_string(), "v:w".to_string())));
    assert_eq!(split_once("kv", ':'), None);
}

#[test]
fn key_after_control_characters_are_dropped() {
    assert_eq!(get_key("ab\u{7f}cd"), "abcd");
}

#[test]
fn key_strips_finnish_heating_plant_word() {
    assert_eq!(get_key("Lämpökeskus Pori"), "pori");
}
