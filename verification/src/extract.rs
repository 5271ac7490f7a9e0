//! Snapshot extraction: mapping one bookmaker market into the canonical
//! odds record for its (market type, period), matching outcomes by name,
//! plus the non-fatal spread sanity check.

use vstd::prelude::*;

use crate::model::{Market, MarketType, OddsSnapshot, Outcome, Period};
use crate::text::str_eq;

verus! {

/// The (market type, period) a market key names, if it is recognized.
pub open spec fn market_key_spec(key: Seq<char>) -> Option<(MarketType, Period)> {
    if key == "spreads"@ {
        Option::Some((MarketType::Spreads, Period::Full))
    } else if key == "totals"@ {
        Option::Some((MarketType::Totals, Period::Full))
    } else if key == "h2h"@ {
        Option::Some((MarketType::H2h, Period::Full))
    } else if key == "spreads_h1"@ {
        Option::Some((MarketType::Spreads, Period::FirstHalf))
    } else if key == "totals_h1"@ {
        Option::Some((MarketType::Totals, Period::FirstHalf))
    } else if key == "h2h_h1"@ {
        Option::Some((MarketType::H2h, Period::FirstHalf))
    } else if key == "spreads_h2"@ {
        Option::Some((MarketType::Spreads, Period::SecondHalf))
    } else if key == "totals_h2"@ {
        Option::Some((MarketType::Totals, Period::SecondHalf))
    } else if key == "h2h_h2"@ {
        Option::Some((MarketType::H2h, Period::SecondHalf))
    } else {
        Option::None
    }
}

/// Decodes a market key into its (market type, period), by the suffix
/// convention: no suffix for the full game, `_h1` and `_h2` for the
/// halves. Unknown keys yield `None`.
pub fn market_key_to_type_period(key: &str) -> (r: Option<(MarketType, Period)>)
    ensures
        r == market_key_spec(key@),
{
    if str_eq(key, "spreads") {
        Option::Some((MarketType::Spreads, Period::Full))
    } else if str_eq(key, "totals") {
        Option::Some((MarketType::Totals, Period::Full))
    } else if str_eq(key, "h2h") {
        Option::Some((MarketType::H2h, Period::Full))
    } else if str_eq(key, "spreads_h1") {
        Option::Some((MarketType::Spreads, Period::FirstHalf))
    } else if str_eq(key, "totals_h1") {
        Option::Some((MarketType::Totals, Period::FirstHalf))
    } else if str_eq(key, "h2h_h1") {
        Option::Some((MarketType::H2h, Period::FirstHalf))
    } else if str_eq(key, "spreads_h2") {
        Option::Some((MarketType::Spreads, Period::SecondHalf))
    } else if str_eq(key, "totals_h2") {
        Option::Some((MarketType::Totals, Period::SecondHalf))
    } else if str_eq(key, "h2h_h2") {
        Option::Some((MarketType::H2h, Period::SecondHalf))
    } else {
        Option::None
    }
}

/// The optional line and price fields of a snapshot, before the
/// identifying fields are attached.
#[derive(Clone, Copy, Debug, PartialEq, Eq, Structural)]
pub struct SnapshotFields {
    pub home_line: Option<i64>,
    pub away_line: Option<i64>,
    pub total_line: Option<i64>,
    pub home_price: Option<i32>,
    pub away_price: Option<i32>,
    pub over_price: Option<i32>,
    pub under_price: Option<i32>,
}

/// All fields empty.
pub open spec fn empty_fields() -> SnapshotFields {
    SnapshotFields {
        home_line: Option::None,
        away_line: Option::None,
        total_line: Option::None,
        home_price: Option::None,
        away_price: Option::None,
        over_price: Option::None,
        under_price: Option::None,
    }
}

/// One outcome applied to the accumulated fields: spreads match the
/// home team by name (everything else is the away side), totals match
/// "Over" and "Under", head-to-head matches the home team by name.
pub open spec fn apply_outcome(
    cur: SnapshotFields,
    o: Outcome,
    market_type: MarketType,
    home_team: Seq<char>,
) -> SnapshotFields {
    match market_type {
        MarketType::Spreads => if o.name@ == home_team {
            SnapshotFields { home_line: o.point, home_price: o.price, ..cur }
        } else {
            SnapshotFields { away_line: o.point, away_price: o.price, ..cur }
        },
        MarketType::Totals => if o.name@ == "Over"@ {
            SnapshotFields { total_line: o.point, over_price: o.price, ..cur }
        } else if o.name@ == "Under"@ {
            SnapshotFields { under_price: o.price, ..cur }
        } else {
            cur
        },
        MarketType::H2h => if o.name@ == home_team {
            SnapshotFields { home_price: o.price, ..cur }
        } else {
            SnapshotFields { away_price: o.price, ..cur }
        },
    }
}

/// The fields after folding the outcomes from index `k` on over `cur`;
/// later outcomes overwrite earlier ones on the same side.
pub open spec fn fields_after(
    outcomes: Seq<Outcome>,
    k: int,
    cur: SnapshotFields,
    market_type: MarketType,
    home_team: Seq<char>,
) -> SnapshotFields
    decreases outcomes.len() - k,
{
    if k < 0 || k >= outcomes.len() {
        cur
    } else {
        fields_after(
            outcomes,
            k + 1,
            apply_outcome(cur, outcomes[k], market_type, home_team),
            market_type,
            home_team,
        )
    }
}

/// Extracts the canonical odds snapshot a market describes, or `None`
/// for an unrecognized market key.
pub fn extract_odds_snapshot(
    time: u64,
    game_id: u128,
    external_id: &str,
    bookmaker: &str,
    market: &Market,
    home_team: &str,
) -> (r: Option<OddsSnapshot>)
    ensures
        market_key_spec(market.key@) is None <==> r is None,
        match r {
            Option::Some(s) => {
                let tp = market_key_spec(market.key@)->Some_0;
                let f = fields_after(market.outcomes@, 0, empty_fields(), tp.0, home_team@);
                s.time == time && s.game_id == game_id && s.external_id@ == external_id@
                    && s.bookmaker@ == bookmaker@ && s.market_type == tp.0 && s.period == tp.1
                    && s.home_line == f.home_line && s.away_line == f.away_line && s.total_line
                    == f.total_line && s.home_price == f.home_price && s.away_price == f.away_price
                    && s.over_price == f.over_price && s.under_price == f.under_price
            },
            Option::None => true,
        },
{
    let tp = market_key_to_type_period(market.key.as_str());
    match tp {
        Option::None => Option::None,
        Option::Some((market_type, period)) => {
            let mut cur = SnapshotFields {
                home_line: Option::None,
                away_line: Option::None,
                total_line: Option::None,
                home_price: Option::None,
                away_price: Option::None,
                over_price: Option::None,
                under_price: Option::None,
            };
            let n = market.outcomes.len();
            let mut k: usize = 0;
            while k < n
                invariant
                    n == market.outcomes@.len(),
                    k <= n,
                    fields_after(market.outcomes@, k as int, cur, market_type, home_team@)
                        == fields_after(
                        market.outcomes@,
                        0,
                        empty_fields(),
                        market_type,
                        home_team@,
                    ),
                decreases n - k,
            {
                let o = &market.outcomes[k];
                match market_type {
                    MarketType::Spreads => {
                        if str_eq(o.name.as_str(), home_team) {
                            cur.home_line = o.point;
                            cur.home_price = o.price;
                        } else {
                            cur.away_line = o.point;
                            cur.away_price = o.price;
                        }
                    },
                    MarketType::Totals => {
                        if str_eq(o.name.as_str(), "Over") {
                            cur.total_line = o.point;
                            cur.over_price = o.price;
                        } else if str_eq(o.name.as_str(), "Under") {
                            cur.under_price = o.price;
                        }
                    },
                    MarketType::H2h => {
                        if str_eq(o.name.as_str(), home_team) {
                            cur.home_price = o.price;
                        } else {
                            cur.away_price = o.price;
                        }
                    },
                }
                k += 1;
            }
            let ext_chars = crate::text::str_to_chars(external_id);
            let book_chars = crate::text::str_to_chars(bookmaker);
            Option::Some(
                OddsSnapshot {
                    time,
                    game_id,
                    external_id: crate::text::chars_to_string(&ext_chars),
                    bookmaker: crate::text::chars_to_string(&book_chars),
                    market_type,
                    period,
                    home_line: cur.home_line,
                    away_line: cur.away_line,
                    total_line: cur.total_line,
                    home_price: cur.home_price,
                    away_price: cur.away_price,
                    over_price: cur.over_price,
                    under_price: cur.under_price,
                },
            )
        },
    }
}

/// The non-fatal spread sanity check: complementary spreads should sum
/// to about zero. Holds vacuously when either line is missing; a
/// violation is worth logging, never worth rejecting the snapshot.
pub open spec fn spread_sanity_spec(s: OddsSnapshot) -> bool {
    match (s.home_line, s.away_line) {
        (Option::Some(h), Option::Some(a)) => -50 <= h + a <= 50,
        _ => true,
    }
}

/// Decides the spread sanity check: the two lines, in hundredths of a
/// point, must cancel to within half a point.
pub fn spread_sanity_ok(s: &OddsSnapshot) -> (r: bool)
    ensures
        r == spread_sanity_spec(*s),
{
    match (s.home_line, s.away_line) {
        (Option::Some(h), Option::Some(a)) => {
            let sum: i128 = (h as i128) + (a as i128);
            -50 <= sum && sum <= 50
        },
        _ => true,
    }
}

} // verus!
