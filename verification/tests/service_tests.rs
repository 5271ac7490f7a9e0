use odds_ingestion::config::Config;
use odds_ingestion::model::{Bookmaker, Market, OddsApiEvent, Outcome};
use odds_ingestion::model::{MarketType, Period};
use odds_ingestion::service::{OddsIngestionService, ResolveError};

fn spreads_event(id: &str, home: &str, away: &str, home_point: i64) -> OddsApiEvent {
    OddsApiEvent {
        id: id.to_string(),
        sport_key: "basketball_ncaab".to_string(),
        sport_title: "NCAAB".to_string(),
        commence_time: Some(5000),
        home_team: home.to_string(),
        away_team: away.to_string(),
        bookmakers: vec![Bookmaker {
            key: "pinnacle".to_string(),
            title: "Pinnacle".to_string(),
            last_update: None,
            markets: vec![Market {
                key: "spreads".to_string(),
                last_update: None,
                outcomes: vec![
                    Outcome {
                        name: home.to_string(),
                        price: Some(-110),
                        point: Some(home_point),
                    },
                    Outcome {
                        name: away.to_string(),
                        price: Some(-110),
                        point: Some(-home_point),
                    },
                ],
            }],
        }],
    }
}

#[test]
fn full_pipeline_extracts_one_spread_snapshot_with_mascot_free_identities() {
    let mut svc = OddsIngestionService::new(Config::default());
    let duke = svc.store.create_team("Duke", 1);
    let unc = svc.store.create_team("North Carolina", 2);
    let event = spreads_event("e1", "Duke Blue Devils", "North Carolina Tar Heels", -350);
    let (snaps, skipped) = svc.process_events(&vec![event], 9000);
    assert_eq!(skipped, 0);
    assert_eq!(snaps.len(), 1);
    let s = &snaps[0];
    assert_eq!(s.market_type, MarketType::Spreads);
    assert_eq!(s.period, Period::Full);
    assert_eq!(s.home_line, Some(-350));
    assert_eq!(s.away_line, Some(350));
    // Exactly one game row, with the seeded mascot-free identities.
    assert_eq!(svc.store.games.len(), 1);
    let game = &svc.store.games[0];
    assert_eq!(game.external_id, "e1");
    assert_eq!(game.home_team_id, duke);
    assert_eq!(game.away_team_id, unc);
    assert_ne!(game.home_team_id, game.away_team_id);
    // No new teams were invented along the way.
    assert_eq!(svc.store.teams.len(), 2);
}

#[test]
fn resolution_is_deterministic_against_an_unchanged_store() {
    let mut svc = OddsIngestionService::new(Config::default());
    svc.store.create_team("Duke", 1);
    let first = svc.get_or_create_team("Duke Blue Devils", "home_team", 100).unwrap();
    let second = svc.get_or_create_team("Duke Blue Devils", "home_team", 200).unwrap();
    let third = svc.get_or_create_team("Duke Blue Devils", "away_team", 300).unwrap();
    assert_eq!(first, second);
    assert_eq!(first, third);
}

#[test]
fn permissive_mode_creates_under_the_normalized_canonical_name() {
    let mut svc = OddsIngestionService::new(Config::default());
    let id = svc.get_or_create_team("  Wagner   Seahawks (NY) ", "home_team", 100).unwrap();
    assert_eq!(svc.store.teams.len(), 1);
    assert_eq!(svc.store.teams[0].canonical_name, "Wagner Seahawks");
    assert_eq!(svc.store.teams[0].id, id);
    // The raw name was attached as an alias.
    assert!(svc.store.aliases.iter().any(|a| a.alias == "  Wagner   Seahawks (NY) "));
    // Creating again resolves to the same entity instead of a duplicate.
    let again = svc.get_or_create_team("Wagner Seahawks", "home_team", 200).unwrap();
    assert_eq!(id, again);
    assert_eq!(svc.store.teams.len(), 1);
}

#[test]
fn ambiguous_team_pair_is_skipped_without_a_game_row() {
    let mut svc = OddsIngestionService::new(Config::default());
    svc.store.create_team("Duke", 1);
    let event = spreads_event("e1", "Duke Blue Devils", "Duke", -350);
    let r = svc.get_or_create_game(&event, 9000);
    assert_eq!(r, Err(ResolveError::AmbiguousTeamPair));
    assert_eq!(svc.store.games.len(), 0);
    let (snaps, skipped) = svc.process_events(&vec![spreads_event(
        "e1",
        "Duke Blue Devils",
        "Duke",
        -350,
    )], 9000);
    assert_eq!(snaps.len(), 0);
    assert_eq!(skipped, 1);
    assert_eq!(svc.store.games.len(), 0);
}

#[test]
fn strict_mode_skips_unknown_names_audits_them_and_continues() {
    let mut config = Config::default();
    config.strict_resolution = true;
    let mut svc = OddsIngestionService::new(config);
    svc.store.create_team("Duke", 1);
    svc.store.create_team("North Carolina", 2);
    let unknown = spreads_event("e1", "Utter Mystery FC", "Duke Blue Devils", -100);
    let known = spreads_event("e2", "Duke Blue Devils", "North Carolina Tar Heels", -350);
    let (report, batch) = svc.poll_once(&vec![unknown, known], &vec![], &vec![], 9000);
    assert_eq!(batch.len(), report.snapshot_count);
    // The cycle still succeeds with a reduced snapshot count.
    assert_eq!(report.skipped_events, 1);
    assert_eq!(report.snapshot_count, 1);
    assert_eq!(svc.store.snapshots.len(), 1);
    // One audit record carries the unresolved name with no resolution.
    let misses: Vec<_> = svc.store.audit.iter().filter(|a| a.resolved_name.is_none()).collect();
    assert_eq!(misses.len(), 1);
    assert_eq!(misses[0].input_name, "Utter Mystery FC");
    assert!(!misses[0].has_ratings);
    assert_eq!(misses[0].context, "home_team");
}

#[test]
fn strict_mode_never_creates_teams() {
    let mut config = Config::default();
    config.strict_resolution = true;
    let mut svc = OddsIngestionService::new(config);
    let r = svc.get_or_create_team("Nobody Knows Us", "home_team", 100);
    assert_eq!(r, Err(ResolveError::UnresolvedEntity));
    assert_eq!(svc.store.teams.len(), 0);
}

#[test]
fn game_level_audit_captures_both_sides() {
    let mut svc = OddsIngestionService::new(Config::default());
    svc.store.create_team("Duke", 1);
    svc.store.create_team("North Carolina", 2);
    let event = spreads_event("e1", "Duke Blue Devils", "North Carolina Tar Heels", -350);
    svc.get_or_create_game(&event, 9000).unwrap();
    let contexts: Vec<_> = svc.store.audit.iter().map(|a| a.context.as_str()).collect();
    assert!(contexts.contains(&"home_team"));
    assert!(contexts.contains(&"away_team"));
    let home = svc.store.audit.iter().find(|a| a.context == "home_team").unwrap();
    assert_eq!(home.input_name, "Duke Blue Devils");
    assert_eq!(home.resolved_name.as_deref(), Some("Duke"));
    assert_eq!(home.timestamp, 9000);
}

#[test]
fn repeated_events_reuse_the_cached_game_id() {
    let mut svc = OddsIngestionService::new(Config::default());
    let e1 = spreads_event("e1", "Duke Blue Devils", "North Carolina Tar Heels", -350);
    let e2 = spreads_event("e1", "Duke Blue Devils", "North Carolina Tar Heels", -400);
    let (snaps, _) = svc.process_events(&vec![e1, e2], 9000);
    assert_eq!(snaps.len(), 2);
    assert_eq!(snaps[0].game_id, snaps[1].game_id);
    assert_eq!(svc.store.games.len(), 1);
}

#[test]
fn poll_once_commits_all_market_sets() {
    let mut svc = OddsIngestionService::new(Config::default());
    let full = spreads_event("e1", "Duke Blue Devils", "North Carolina Tar Heels", -350);
    let mut h1 = spreads_event("e1", "Duke Blue Devils", "North Carolina Tar Heels", -150);
    h1.bookmakers[0].markets[0].key = "spreads_h1".to_string();
    let (report, batch) = svc.poll_once(&vec![full], &vec![h1], &vec![], 9000);
    assert_eq!(report.snapshot_count, 2);
    assert_eq!(report.skipped_events, 0);
    assert_eq!(batch.len(), 2);
    assert_eq!(svc.store.snapshots.len(), 2);
}

#[test]
fn disabled_half_sets_are_not_processed() {
    let mut config = Config::default();
    config.enable_first_half = false;
    config.enable_second_half = false;
    let mut svc = OddsIngestionService::new(config);
    let full = spreads_event("e1", "Duke Blue Devils", "North Carolina Tar Heels", -350);
    let mut h1 = spreads_event("e2", "Duke Blue Devils", "North Carolina Tar Heels", -150);
    h1.bookmakers[0].markets[0].key = "spreads_h1".to_string();
    let (report, _batch) = svc.poll_once(&vec![full], &vec![h1], &vec![], 9000);
    assert_eq!(report.snapshot_count, 1);
}

#[test]
fn a_resolved_hit_records_the_raw_name_as_an_alias() {
    let mut svc = OddsIngestionService::new(Config::default());
    let duke = svc.store.create_team("Duke", 1);
    let id = svc.get_or_create_team("Duke Blue Devils", "home_team", 100).unwrap();
    assert_eq!(id, duke);
    assert!(svc
        .store
        .aliases
        .iter()
        .any(|a| a.alias == "Duke Blue Devils" && a.team_id == duke && a.source == "the_odds_api"));
    // Resolving the exact canonical name attaches no alias.
    let before = svc.store.aliases.len();
    svc.get_or_create_team("Duke", "home_team", 200).unwrap();
    assert_eq!(svc.store.aliases.len(), before);
}

#[test]
fn ambiguous_known_pair_leaves_the_store_untouched() {
    let mut svc = OddsIngestionService::new(Config::default());
    svc.store.create_team("Duke", 1);
    let teams_before = svc.store.teams.len();
    let aliases_before = svc.store.aliases.len();
    let audit_before = svc.store.audit.len();
    let event = spreads_event("e1", "Duke Blue Devils", "Duke", -350);
    let r = svc.get_or_create_game(&event, 9000);
    assert_eq!(r, Err(ResolveError::AmbiguousTeamPair));
    assert_eq!(svc.store.teams.len(), teams_before);
    assert_eq!(svc.store.aliases.len(), aliases_before);
    assert_eq!(svc.store.audit.len(), audit_before);
    assert_eq!(svc.store.games.len(), 0);
}

#[test]
fn run_once_skips_the_optional_market_sets() {
    let mut config = Config::default();
    config.run_once = true;
    let svc = OddsIngestionService::new(config);
    assert_eq!(svc.optional_market_sets(), (false, false));
    let mut config2 = Config::default();
    config2.enable_second_half = false;
    let svc2 = OddsIngestionService::new(config2);
    assert_eq!(svc2.optional_market_sets(), (true, false));
}

#[test]
fn poll_once_returns_exactly_the_committed_batch() {
    let mut svc = OddsIngestionService::new(Config::default());
    let full = spreads_event("e1", "Duke Blue Devils", "North Carolina Tar Heels", -350);
    let (report, batch) = svc.poll_once(&vec![full], &vec![], &vec![], 9000);
    assert_eq!(report.snapshot_count, batch.len());
    assert_eq!(batch.len(), 1);
    assert_eq!(svc.store.snapshots.len(), 1);
    assert_eq!(svc.store.snapshots[0].home_line, batch[0].home_line);
    assert_eq!(svc.store.snapshots[0].game_id, batch[0].game_id);
}

#[test]
fn upsert_preserves_the_game_row_id_on_conflict() {
    let mut svc = OddsIngestionService::new(Config::default());
    let e1 = spreads_event("e1", "Duke Blue Devils", "North Carolina Tar Heels", -350);
    let g1 = svc.get_or_create_game(&e1, 9000).unwrap();
    let e2 = spreads_event("e1", "Duke Blue Devils", "North Carolina Tar Heels", -400);
    let g2 = svc.get_or_create_game(&e2, 9500).unwrap();
    assert_eq!(g1, g2);
    assert_eq!(svc.store.games.len(), 1);
    // Four audit records: two per successful resolution.
    assert_eq!(svc.store.audit.len(), 4);
}
