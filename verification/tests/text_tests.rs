use odds_ingestion::outside::current_unix_time;
use odds_ingestion::text::{fuzzy_key, parse_u64, str_eq, str_owned, str_to_chars};

#[test]
fn fuzzy_key_lowercases_and_drops_punctuation() {
    assert_eq!(fuzzy_key("D.U.K.E!"), "duke");
    assert_eq!(fuzzy_key("North Carolina"), "northcarolina");
    assert_eq!(fuzzy_key("Texas A&M 2"), "texasam2");
    assert_eq!(fuzzy_key(""), "");
    // Keys of different casings coincide; keys of different names do not.
    assert_eq!(fuzzy_key("DUKE"), fuzzy_key("duke"));
    assert_ne!(fuzzy_key("duke"), fuzzy_key("dook"));
}

#[test]
fn str_eq_compares_by_characters() {
    assert!(str_eq("abc", "abc"));
    assert!(!str_eq("abc", "abd"));
    assert!(!str_eq("abc", "ab"));
    assert!(str_eq("", ""));
    assert!(str_eq("\u{2019}", "\u{2019}"));
}

#[test]
fn str_to_chars_and_owned_round_trip() {
    let v = str_to_chars("caf\u{e9}");
    assert_eq!(v.len(), 4);
    assert_eq!(v[3], '\u{e9}');
    assert_eq!(str_owned("caf\u{e9}"), "caf\u{e9}");
}

#[test]
fn parse_u64_handles_plain_digit_runs_only() {
    assert_eq!(parse_u64("007"), Some(7));
    assert_eq!(parse_u64("+7"), None);
}

#[test]
fn the_clock_reads_a_plausible_unix_time() {
    // Well after 2020-01-01 on any sanely configured machine.
    assert!(current_unix_time() > 1_577_836_800);
}
