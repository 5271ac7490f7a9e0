use odds_ingestion::normalize::{normalize_lookup_name, normalize_team_name};

#[test]
fn normalize_strips_parenthesized_text() {
    assert_eq!(normalize_lookup_name("Saint Mary's (CA)"), "Saint Mary's");
    assert_eq!(normalize_lookup_name("Loyola (MD) Greyhounds"), "Loyola Greyhounds");
}

#[test]
fn normalize_unifies_quotes_dashes_and_periods() {
    assert_eq!(normalize_lookup_name("St. John\u{2019}s \u{2013} Red Storm"), "St John's Red Storm");
    assert_eq!(normalize_lookup_name("Texas A&M-Corpus Christi"), "Texas A&M Corpus Christi");
    assert_eq!(normalize_lookup_name("Mt. St. Mary's"), "Mt St Mary's");
}

#[test]
fn normalize_collapses_and_trims_whitespace() {
    assert_eq!(normalize_lookup_name("  Duke   Blue  Devils  "), "Duke Blue Devils");
    assert_eq!(normalize_lookup_name("\tNorth\nCarolina "), "North Carolina");
}

#[test]
fn normalize_empty_and_paren_only_inputs() {
    assert_eq!(normalize_lookup_name(""), "");
    assert_eq!(normalize_lookup_name("((()))"), "");
    assert_eq!(normalize_lookup_name("   "), "");
}

#[test]
fn normalize_is_idempotent_on_examples() {
    let inputs = [
        "Saint Mary's (CA)",
        "St. John\u{2019}s \u{2013} Red Storm",
        "  Duke   Blue  Devils  ",
        "Texas A&M-Corpus Christi",
        "",
        "already normal",
    ];
    for raw in inputs {
        let once = normalize_lookup_name(raw);
        let twice = normalize_lookup_name(&once);
        assert_eq!(once, twice);
    }
}

#[test]
fn normalize_team_name_matches_lookup_normalization() {
    assert_eq!(
        normalize_team_name("  Kansas  Jayhawks (KS) "),
        normalize_lookup_name("  Kansas  Jayhawks (KS) ")
    );
}
