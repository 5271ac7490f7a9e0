use odds_ingestion::model::{MarketType, OddsSnapshot, Period};
use odds_ingestion::store::IdentityStore;

fn snapshot(time: u64, game_id: u128, home_price: Option<i32>) -> OddsSnapshot {
    OddsSnapshot {
        time,
        game_id,
        external_id: "e1".to_string(),
        bookmaker: "pinnacle".to_string(),
        market_type: MarketType::Spreads,
        period: Period::Full,
        home_line: Some(-350),
        away_line: Some(350),
        total_line: None,
        home_price,
        away_price: Some(-110),
        over_price: None,
        under_price: None,
    }
}

#[test]
fn create_team_is_idempotent_per_canonical_name() {
    let mut store = IdentityStore::new();
    let a = store.create_team("Duke", 11);
    let b = store.create_team("Duke", 99);
    assert_eq!(a, b);
    assert_eq!(store.teams.len(), 1);
    let c = store.create_team("North Carolina", 11);
    assert_ne!(a, c);
    assert_eq!(store.teams.len(), 2);
}

#[test]
fn fuzzy_resolution_ignores_case_and_punctuation() {
    let mut store = IdentityStore::new();
    let id = store.create_team("Duke", 1);
    let hit = store.resolve_team_fuzzy("D.U.K.E!").expect("must match");
    assert_eq!(hit.0, id);
    assert_eq!(hit.1, "Duke");
    assert!(!hit.2);
    assert!(store.resolve_team_fuzzy("Duchess").is_none());
}

#[test]
fn fuzzy_resolution_matches_aliases() {
    let mut store = IdentityStore::new();
    let id = store.create_team("North Carolina", 1);
    store.add_alias(id, "UNC Tar Heels", "the_odds_api");
    let hit = store.resolve_team_fuzzy("unc tar heels").expect("alias must match");
    assert_eq!(hit.0, id);
}

#[test]
fn fuzzy_resolution_prefers_rated_teams() {
    let mut store = IdentityStore::new();
    let plain = store.create_team("Duke", 1);
    let rated = store.create_team("Dook", 2);
    store.add_alias(rated, "duke", "seed");
    store.rated_team_ids.push(rated);
    let hit = store.resolve_team_fuzzy("DUKE").expect("must match");
    assert_eq!(hit.0, rated);
    assert!(hit.2);
    assert_ne!(hit.0, plain);
}

#[test]
fn fuzzy_resolution_breaks_ties_lexically() {
    let mut store = IdentityStore::new();
    let a = store.create_team("Aardvark College", 1);
    let z = store.create_team("Zebra College", 2);
    store.add_alias(a, "the same handle", "seed");
    store.add_alias(z, "thesamehandle", "seed");
    let hit = store.resolve_team_fuzzy("The Same Handle").expect("must match");
    assert_eq!(hit.0, a);
}

#[test]
fn alias_insert_is_idempotent_per_pair() {
    let mut store = IdentityStore::new();
    let id = store.create_team("Duke", 1);
    store.add_alias(id, "Blue Devils", "the_odds_api");
    store.add_alias(id, "Blue Devils", "the_odds_api");
    assert_eq!(store.aliases.len(), 1);
    store.add_alias(id, "Blue Devils", "another_source");
    assert_eq!(store.aliases.len(), 2);
}

#[test]
fn snapshot_upsert_converges_to_latest_values() {
    let mut store = IdentityStore::new();
    let first = vec![snapshot(1000, 7, Some(-110))];
    store.store_snapshots(&first);
    assert_eq!(store.snapshots.len(), 1);
    let second = vec![snapshot(1000, 7, Some(-125))];
    store.store_snapshots(&second);
    assert_eq!(store.snapshots.len(), 1);
    assert_eq!(store.snapshots[0].home_price, Some(-125));
}

#[test]
fn snapshot_upsert_keeps_distinct_keys_apart() {
    let mut store = IdentityStore::new();
    store.store_snapshots(&vec![snapshot(1000, 7, Some(-110)), snapshot(1001, 7, Some(-120))]);
    assert_eq!(store.snapshots.len(), 2);
}

#[test]
fn game_upsert_overwrites_team_associations_on_conflict() {
    let mut store = IdentityStore::new();
    let home = store.create_team("Duke", 1);
    let away = store.create_team("North Carolina", 2);
    let other = store.create_team("Kansas", 3);
    let g1 = store.upsert_game("evt-1", home, away, 5000, 900);
    assert_eq!(store.games.len(), 1);
    let g2 = store.upsert_game("evt-1", home, other, 6000, 901);
    assert_eq!(store.games.len(), 1);
    assert_eq!(g1, g2);
    assert_eq!(store.games[0].away_team_id, other);
    assert_eq!(store.games[0].commence_time, 6000);
    let g3 = store.upsert_game("evt-2", home, away, 7000, 902);
    assert_ne!(g1, g3);
    assert_eq!(store.games.len(), 2);
}

#[test]
fn audit_trail_is_append_only() {
    let mut store = IdentityStore::new();
    store.record_audit(odds_ingestion::store::AuditRecord {
        input_name: "Duke Blue Devils".to_string(),
        resolved_name: Some("Duke".to_string()),
        source: "the_odds_api".to_string(),
        context: "home_team".to_string(),
        has_ratings: true,
        timestamp: 42,
    });
    assert_eq!(store.audit.len(), 1);
    assert_eq!(store.audit[0].input_name, "Duke Blue Devils");
}
