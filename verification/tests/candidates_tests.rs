use odds_ingestion::candidates::{expand_prefix_abbrev, state_abbrev_name, team_name_candidates};

#[test]
fn candidates_strip_known_mascot_suffix() {
    let c = team_name_candidates("Duke Blue Devils");
    assert_eq!(c, vec!["Duke Blue Devils".to_string(), "Duke".to_string()]);
}

#[test]
fn candidates_keep_legitimate_multiword_names_whole() {
    // "A&M" is no mascot suffix: the name must not collapse to "Florida".
    let c = team_name_candidates("Florida A&M");
    assert_eq!(c, vec!["Florida A&M".to_string()]);
    assert!(!c.iter().any(|s| s == "Florida"));
}

#[test]
fn candidates_expand_directional_prefix() {
    let c = team_name_candidates("E Washington Eagles");
    assert!(c.iter().any(|s| s == "Eastern Washington Eagles"));
    assert!(c.iter().any(|s| s == "E Washington"));
}

#[test]
fn candidates_include_state_abbreviation_variants() {
    let c = team_name_candidates("Michigan State Spartans");
    assert_eq!(
        c,
        vec![
            "Michigan State Spartans".to_string(),
            "Michigan State".to_string(),
            "Michigan St. Spartans".to_string(),
            "Michigan St.".to_string(),
        ]
    );
}

#[test]
fn candidates_dedup_case_insensitively_keeping_first() {
    let c = team_name_candidates("duke");
    assert_eq!(c, vec!["duke".to_string()]);
    // The raw trimmed form comes first even when normalization changes it.
    let c2 = team_name_candidates(" Duke  Blue Devils ");
    assert_eq!(c2[0], "Duke  Blue Devils");
    assert!(c2.iter().any(|s| s == "Duke Blue Devils"));
}

#[test]
fn candidates_iterative_stripping_longest_suffix_wins() {
    // "Golden Eagles" must win over the shorter "Eagles".
    let c = team_name_candidates("Marquette Golden Eagles");
    assert!(c.iter().any(|s| s == "Marquette"));
    assert!(!c.iter().any(|s| s == "Marquette Golden"));
}

#[test]
fn expand_prefix_abbrev_requires_following_token() {
    assert_eq!(expand_prefix_abbrev("Mt St Mary's"), Some("Mount St Mary's".to_string()));
    assert_eq!(expand_prefix_abbrev("N Iowa"), Some("Northern Iowa".to_string()));
    assert_eq!(expand_prefix_abbrev("E"), None);
    assert_eq!(expand_prefix_abbrev("Eastern Washington"), None);
}

#[test]
fn state_abbrev_substitutes_every_occurrence() {
    assert_eq!(state_abbrev_name("Ohio State"), "Ohio St.");
    assert_eq!(state_abbrev_name("Kent State Golden Flashes"), "Kent St. Golden Flashes");
    assert_eq!(state_abbrev_name("Duke"), "Duke");
}
