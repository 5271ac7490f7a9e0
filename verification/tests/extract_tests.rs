use odds_ingestion::extract::{extract_odds_snapshot, market_key_to_type_period, spread_sanity_ok};
use odds_ingestion::model::{Market, MarketType, OddsSnapshot, Outcome, Period};

fn market(key: &str, outcomes: Vec<Outcome>) -> Market {
    Market { key: key.to_string(), last_update: None, outcomes }
}

fn outcome(name: &str, price: i32, point: Option<i64>) -> Outcome {
    Outcome { name: name.to_string(), price: Some(price), point }
}

#[test]
fn market_keys_map_by_suffix_convention() {
    assert_eq!(market_key_to_type_period("spreads"), Some((MarketType::Spreads, Period::Full)));
    assert_eq!(market_key_to_type_period("totals"), Some((MarketType::Totals, Period::Full)));
    assert_eq!(market_key_to_type_period("h2h"), Some((MarketType::H2h, Period::Full)));
    assert_eq!(
        market_key_to_type_period("spreads_h1"),
        Some((MarketType::Spreads, Period::FirstHalf))
    );
    assert_eq!(
        market_key_to_type_period("totals_h1"),
        Some((MarketType::Totals, Period::FirstHalf))
    );
    assert_eq!(market_key_to_type_period("h2h_h1"), Some((MarketType::H2h, Period::FirstHalf)));
    assert_eq!(
        market_key_to_type_period("spreads_h2"),
        Some((MarketType::Spreads, Period::SecondHalf))
    );
    assert_eq!(
        market_key_to_type_period("totals_h2"),
        Some((MarketType::Totals, Period::SecondHalf))
    );
    assert_eq!(market_key_to_type_period("h2h_h2"), Some((MarketType::H2h, Period::SecondHalf)));
    assert_eq!(market_key_to_type_period("alternate_spreads"), None);
    assert_eq!(market_key_to_type_period(""), None);
}

#[test]
fn spreads_match_home_by_name_and_others_fill_away() {
    let m = market(
        "spreads",
        vec![
            outcome("Duke Blue Devils", -110, Some(-350)),
            outcome("North Carolina Tar Heels", -110, Some(350)),
        ],
    );
    let s = extract_odds_snapshot(1000, 7, "e1", "pinnacle", &m, "Duke Blue Devils").unwrap();
    assert_eq!(s.market_type, MarketType::Spreads);
    assert_eq!(s.period, Period::Full);
    assert_eq!(s.home_line, Some(-350));
    assert_eq!(s.home_price, Some(-110));
    assert_eq!(s.away_line, Some(350));
    assert_eq!(s.away_price, Some(-110));
    assert_eq!(s.total_line, None);
    assert_eq!(s.time, 1000);
    assert_eq!(s.game_id, 7);
    assert_eq!(s.external_id, "e1");
    assert_eq!(s.bookmaker, "pinnacle");
}

#[test]
fn totals_match_over_and_under_by_name() {
    let m = market(
        "totals_h1",
        vec![outcome("Over", -105, Some(7550)), outcome("Under", -115, Some(7550))],
    );
    let s = extract_odds_snapshot(1000, 7, "e1", "bovada", &m, "Duke").unwrap();
    assert_eq!(s.market_type, MarketType::Totals);
    assert_eq!(s.period, Period::FirstHalf);
    assert_eq!(s.total_line, Some(7550));
    assert_eq!(s.over_price, Some(-105));
    assert_eq!(s.under_price, Some(-115));
    assert_eq!(s.home_line, None);
}

#[test]
fn head_to_head_fills_prices_only() {
    let m = market("h2h_h2", vec![outcome("Duke", -200, None), outcome("Kansas", 170, None)]);
    let s = extract_odds_snapshot(1000, 7, "e1", "draftkings", &m, "Duke").unwrap();
    assert_eq!(s.market_type, MarketType::H2h);
    assert_eq!(s.period, Period::SecondHalf);
    assert_eq!(s.home_price, Some(-200));
    assert_eq!(s.away_price, Some(170));
    assert_eq!(s.home_line, None);
}

#[test]
fn unknown_market_keys_yield_no_snapshot() {
    let m = market("player_points", vec![outcome("Somebody", -110, Some(1000))]);
    assert!(extract_odds_snapshot(1000, 7, "e1", "pinnacle", &m, "Duke").is_none());
}

fn bare_snapshot(home_line: Option<i64>, away_line: Option<i64>) -> OddsSnapshot {
    OddsSnapshot {
        time: 0,
        game_id: 0,
        external_id: String::new(),
        bookmaker: String::new(),
        market_type: MarketType::Spreads,
        period: Period::Full,
        home_line,
        away_line,
        total_line: None,
        home_price: None,
        away_price: None,
        over_price: None,
        under_price: None,
    }
}

#[test]
fn spread_sanity_flags_non_complementary_lines() {
    assert!(spread_sanity_ok(&bare_snapshot(Some(-350), Some(350))));
    assert!(spread_sanity_ok(&bare_snapshot(Some(-350), Some(400))));
    assert!(!spread_sanity_ok(&bare_snapshot(Some(-350), Some(500))));
    assert!(spread_sanity_ok(&bare_snapshot(Some(-350), None)));
    assert!(spread_sanity_ok(&bare_snapshot(None, None)));
}
