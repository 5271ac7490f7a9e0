//! Plain data types of the pipeline: the odds-feed event shape and the
//! canonical odds snapshot. Point lines are carried in hundredths of a
//! point, so a 3.5-point spread is 350.

use vstd::prelude::*;

verus! {

/// The market families a snapshot can describe.
#[derive(Clone, Copy, Debug, PartialEq, Eq, Structural)]
pub enum MarketType {
    Spreads,
    Totals,
    H2h,
}

/// The game segment a market applies to.
#[derive(Clone, Copy, Debug, PartialEq, Eq, Structural)]
pub enum Period {
    Full,
    FirstHalf,
    SecondHalf,
}

/// One outcome inside a bookmaker market. `point` is in hundredths of a
/// point; `price` is an American price.
pub struct Outcome {
    pub name: String,
    pub price: Option<i32>,
    pub point: Option<i64>,
}

/// One market quoted by a bookmaker.
pub struct Market {
    pub key: String,
    pub last_update: Option<u64>,
    pub outcomes: Vec<Outcome>,
}

/// One bookmaker's markets for an event.
pub struct Bookmaker {
    pub key: String,
    pub title: String,
    pub last_update: Option<u64>,
    pub markets: Vec<Market>,
}

/// One event as the odds feed reports it; times are Unix seconds.
pub struct OddsApiEvent {
    pub id: String,
    pub sport_key: String,
    pub sport_title: String,
    pub commence_time: Option<u64>,
    pub home_team: String,
    pub away_team: String,
    pub bookmakers: Vec<Bookmaker>,
}

/// One normalized odds observation for a (game, bookmaker, market type,
/// period) at a point in time. All line and price fields are optional.
pub struct OddsSnapshot {
    pub time: u64,
    pub game_id: u128,
    pub external_id: String,
    pub bookmaker: String,
    pub market_type: MarketType,
    pub period: Period,
    pub home_line: Option<i64>,
    pub away_line: Option<i64>,
    pub total_line: Option<i64>,
    pub home_price: Option<i32>,
    pub away_price: Option<i32>,
    pub over_price: Option<i32>,
    pub under_price: Option<i32>,
}

/// Whether two snapshots share the natural key that the store upserts
/// on: (time, game, bookmaker, market type, period).
pub open spec fn same_snapshot_key(a: OddsSnapshot, b: OddsSnapshot) -> bool {
    a.time == b.time && a.game_id == b.game_id && a.bookmaker@ == b.bookmaker@ && a.market_type
        == b.market_type && a.period == b.period
}

impl OddsSnapshot {
    /// A field-for-field copy.
    pub fn duplicate(&self) -> (r: OddsSnapshot)
        ensures
            r == *self,
    {
        OddsSnapshot {
            time: self.time,
            game_id: self.game_id,
            external_id: self.external_id.clone(),
            bookmaker: self.bookmaker.clone(),
            market_type: self.market_type,
            period: self.period,
            home_line: self.home_line,
            away_line: self.away_line,
            total_line: self.total_line,
            home_price: self.home_price,
            away_price: self.away_price,
            over_price: self.over_price,
            under_price: self.under_price,
        }
    }
}

} // verus!
