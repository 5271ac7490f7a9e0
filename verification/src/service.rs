//! The ingestion service: entity resolution over the identity store
//! with the strict/permissive policy, the per-event game upsert with the
//! home/away distinctness check, and the poll-cycle orchestration from
//! fetched events to stored snapshots.

use vstd::prelude::*;

use crate::cache::GameCache;
use crate::candidates::{candidates_spec, string_views, team_name_candidates};
use crate::config::Config;
use crate::extract::{
    empty_fields, extract_odds_snapshot, fields_after, market_key_spec,
};
use crate::freshness::EventFreshness;
use crate::health::HealthState;
use crate::model::{OddsApiEvent, OddsSnapshot};
use crate::normalize::{normalize_spec, normalize_team_name};
use crate::outside::random_id;
use crate::outside::to_lower;
use crate::ratelimit::RateLimiter;
use crate::store::{upsert_all, AuditRecord, Game, GameStatus, IdentityStore};
use crate::text::{fuzzy_key_spec, str_owned};

verus! {

/// Why an event could not be resolved into a game row.
#[derive(Clone, Copy, Debug, PartialEq, Eq, Structural)]
pub enum ResolveError {
    /// Strict mode and no match for a team name.
    UnresolvedEntity,
    /// Home and away resolved to the same entity.
    AmbiguousTeamPair,
}

/// The resolution outcome over a candidate list: the first candidate
/// hitting a rated team wins outright; otherwise the first match at all
/// is remembered and wins in the end; `None` when nothing matches.
pub open spec fn resolve_candidates_rec(
    store: IdentityStore,
    cands: Seq<Seq<char>>,
    k: int,
    fallback: Option<int>,
) -> Option<int>
    decreases cands.len() - k,
{
    if k < 0 || k >= cands.len() {
        fallback
    } else {
        match store.fuzzy_best(fuzzy_key_spec(cands[k])) {
            Option::Some(i) => {
                if store.is_rated_spec(store.teams@[i].id) {
                    Option::Some(i)
                } else {
                    resolve_candidates_rec(
                        store,
                        cands,
                        k + 1,
                        if fallback is None {
                            Option::Some(i)
                        } else {
                            fallback
                        },
                    )
                }
            },
            Option::None => resolve_candidates_rec(store, cands, k + 1, fallback),
        }
    }
}

/// The team index a raw name resolves to against a store, if any: the
/// candidate search over the generated variants.
pub open spec fn resolve_outcome(store: IdentityStore, name: Seq<char>) -> Option<int> {
    resolve_candidates_rec(store, candidates_spec(name), 0, Option::None)
}

/// Resolution is deterministic: against an unchanged store, the same
/// raw name resolves to the same outcome on every call — the outcome is
/// a function of the store and the name alone, and `get_or_create_team`
/// is specified to return exactly this outcome's team.
pub proof fn lemma_resolution_deterministic(
    s1: IdentityStore,
    s2: IdentityStore,
    n1: Seq<char>,
    n2: Seq<char>,
)
    requires
        s1 == s2,
        n1 == n2,
    ensures
        resolve_outcome(s1, n1) == resolve_outcome(s2, n2),
{
}

/// A store whose team table extends another's keeps every team id.
proof fn lemma_teams_persist(s1: IdentityStore, s2: IdentityStore)
    requires
        s2.teams@.len() >= s1.teams@.len(),
        s2.teams@.subrange(0, s1.teams@.len() as int) == s1.teams@,
    ensures
        forall|id: u128| s1.has_team_id(id) ==> s2.has_team_id(id),
{
    assert forall|id: u128| s1.has_team_id(id) implies s2.has_team_id(id) by {
        let j = choose|j: int| 0 <= j < s1.teams@.len() && s1.teams@[j].id == id;
        assert(s2.teams@.subrange(0, s1.teams@.len() as int)[j] == s1.teams@[j]);
        assert(s2.teams@[j].id == id);
    }
}

/// A store whose game table extends another's keeps every game id.
proof fn lemma_games_persist(s1: IdentityStore, s2: IdentityStore)
    requires
        s2.games@.len() >= s1.games@.len(),
        s2.games@.subrange(0, s1.games@.len() as int) == s1.games@,
    ensures
        forall|id: u128| s1.has_game_id(id) ==> s2.has_game_id(id),
{
    assert forall|id: u128| s1.has_game_id(id) implies s2.has_game_id(id) by {
        let j = choose|j: int| 0 <= j < s1.games@.len() && s1.games@[j].id == id;
        assert(s2.games@.subrange(0, s1.games@.len() as int)[j] == s1.games@[j]);
        assert(s2.games@[j].id == id);
    }
}

proof fn lemma_resolve_candidates_range(
    store: IdentityStore,
    cands: Seq<Seq<char>>,
    k: int,
    fb: Option<int>,
)
    requires
        fb is Some ==> 0 <= fb->Some_0 < store.teams@.len(),
    ensures
        resolve_candidates_rec(store, cands, k, fb) is Some ==> 0 <= resolve_candidates_rec(
            store,
            cands,
            k,
            fb,
        )->Some_0 < store.teams@.len(),
    decreases cands.len() - k,
{
    if k < 0 || k >= cands.len() {
    } else {
        store.lemma_fuzzy_best_range(fuzzy_key_spec(cands[k]), store.teams@.len() as int);
        match store.fuzzy_best(fuzzy_key_spec(cands[k])) {
            Option::Some(i) => {
                if store.is_rated_spec(store.teams@[i].id) {
                } else {
                    lemma_resolve_candidates_range(
                        store,
                        cands,
                        k + 1,
                        if fb is None {
                            Option::Some(i)
                        } else {
                            fb
                        },
                    );
                }
            },
            Option::None => {
                lemma_resolve_candidates_range(store, cands, k + 1, fb);
            },
        }
    }
}

/// A resolution outcome always names an index into the team table.
pub proof fn lemma_resolve_outcome_range(store: IdentityStore, name: Seq<char>)
    ensures
        resolve_outcome(store, name) is Some ==> 0 <= resolve_outcome(store, name)->Some_0
            < store.teams@.len(),
{
    lemma_resolve_candidates_range(store, candidates_spec(name), 0, Option::None);
}

/// A strict-mode miss record: the raw input with no resolution.
pub open spec fn audit_miss_ok(rec: AuditRecord, input: Seq<char>, context: Seq<char>, now: u64) -> bool {
    &&& rec.input_name@ == input
    &&& rec.resolved_name is None
    &&& rec.source@ == "the_odds_api"@
    &&& rec.context@ == context
    &&& !rec.has_ratings
    &&& rec.timestamp == now
}

/// The stored commence time of an event: its own, or the capture time
/// when the feed gave none.
pub open spec fn commence_of(ev: OddsApiEvent, now: u64) -> u64 {
    match ev.commence_time {
        Option::Some(t) => t,
        Option::None => now,
    }
}

/// A per-side resolution audit record: the raw input, the side context,
/// the capture time, the resolved team's canonical name and its ratings
/// flag, all against the store the record was written into.
pub open spec fn audit_rec_ok(
    rec: AuditRecord,
    store: IdentityStore,
    input: Seq<char>,
    context: Seq<char>,
    id: u128,
    now: u64,
) -> bool {
    &&& rec.input_name@ == input
    &&& rec.source@ == "the_odds_api"@
    &&& rec.context@ == context
    &&& rec.timestamp == now
    &&& rec.has_ratings == store.is_rated_spec(id)
    &&& match rec.resolved_name {
        Option::Some(n) => exists|t: int|
            0 <= t < store.teams@.len() && #[trigger] store.teams@[t].id == id
                && store.teams@[t].canonical_name@ == n@,
        Option::None => !store.has_team_id(id),
    }
}

/// The effect of successfully resolving one event into a game: two
/// audit records (home then away) are appended, and the game row keyed
/// on the event's external id carries the two distinct resolved team
/// ids and the event's commence time with status reset — preserving the
/// row id on conflict and appending a fresh row otherwise.
pub open spec fn game_written(
    pre: IdentityStore,
    post: IdentityStore,
    ev: OddsApiEvent,
    now: u64,
    hid: u128,
    aid: u128,
    gid: u128,
) -> bool {
    &&& hid != aid
    &&& post.has_team_id(hid)
    &&& post.has_team_id(aid)
    &&& post.audit@.len() == pre.audit@.len() + 2
    &&& post.audit@.subrange(0, pre.audit@.len() as int) == pre.audit@
    &&& audit_rec_ok(
        post.audit@[pre.audit@.len() as int],
        post,
        ev.home_team@,
        "home_team"@,
        hid,
        now,
    )
    &&& audit_rec_ok(
        post.audit@[pre.audit@.len() as int + 1],
        post,
        ev.away_team@,
        "away_team"@,
        aid,
        now,
    )
    &&& if pre.has_external_id(ev.id@) {
        exists|g: int|
            0 <= g < pre.games@.len() && #[trigger] pre.games@[g].external_id@ == ev.id@ && gid
                == pre.games@[g].id && post.games@ == pre.games@.update(
                g,
                Game {
                    id: gid,
                    external_id: pre.games@[g].external_id,
                    home_team_id: hid,
                    away_team_id: aid,
                    commence_time: commence_of(ev, now),
                    status: GameStatus::Scheduled,
                },
            )
    } else {
        &&& !pre.has_game_id(gid)
        &&& post.games@.len() == pre.games@.len() + 1
        &&& post.games@.subrange(0, pre.games@.len() as int) == pre.games@
        &&& post.games@.last().id == gid
        &&& post.games@.last().external_id@ == ev.id@
        &&& post.games@.last().home_team_id == hid
        &&& post.games@.last().away_team_id == aid
        &&& post.games@.last().commence_time == commence_of(ev, now)
        &&& post.games@.last().status == GameStatus::Scheduled
    }
}

/// Some pair of distinct resolved entities explains the commit.
pub open spec fn game_commit_ok(
    pre: IdentityStore,
    post: IdentityStore,
    ev: OddsApiEvent,
    now: u64,
    gid: u128,
) -> bool {
    exists|hid: u128, aid: u128| #[trigger] game_written(pre, post, ev, now, hid, aid, gid)
}

/// Whether market `m` of bookmaker `b` of the event is one the
/// extractor recognizes, so it yields a snapshot.
pub open spec fn market_recognized(ev: OddsApiEvent, b: int, m: int) -> bool {
    0 <= b < ev.bookmakers@.len() && 0 <= m < ev.bookmakers@[b].markets@.len()
        && market_key_spec(ev.bookmakers@[b].markets@[m].key@) is Some
}

/// Recognized markets of bookmaker `b` before market index `m`.
pub open spec fn markets_before(ev: OddsApiEvent, b: int, m: int) -> nat
    decreases m,
{
    if m <= 0 {
        0
    } else {
        markets_before(ev, b, m - 1) + if market_recognized(ev, b, m - 1) {
            1nat
        } else {
            0nat
        }
    }
}

/// Recognized markets of the bookmakers before index `b`.
pub open spec fn bookmakers_before(ev: OddsApiEvent, b: int) -> nat
    decreases b,
{
    if b <= 0 {
        0
    } else {
        bookmakers_before(ev, b - 1) + markets_before(
            ev,
            b - 1,
            ev.bookmakers@[b - 1].markets@.len() as int,
        )
    }
}

/// Snapshots one event contributes: one per recognized market.
pub open spec fn event_snap_count(ev: OddsApiEvent) -> nat {
    bookmakers_before(ev, ev.bookmakers@.len() as int)
}

/// Snapshots contributed by the events before index `e`, counting only
/// those whose game resolved.
pub open spec fn events_before(events: Seq<OddsApiEvent>, gids: Seq<Option<u128>>, e: int) -> nat
    decreases e,
{
    if e <= 0 || e > gids.len() || e > events.len() {
        0
    } else {
        events_before(events, gids, e - 1) + match gids[e - 1] {
            Option::Some(_) => event_snap_count(events[e - 1]),
            Option::None => 0nat,
        }
    }
}

/// Events before index `e` whose resolution failed.
pub open spec fn skipped_before(gids: Seq<Option<u128>>, e: int) -> nat
    decreases e,
{
    if e <= 0 || e > gids.len() {
        0
    } else {
        skipped_before(gids, e - 1) + if gids[e - 1] is None {
            1nat
        } else {
            0nat
        }
    }
}

/// The snapshot a recognized market must have produced: stamped at the
/// capture time, under the event's resolved game id, with the decoded
/// market type and period and the folded outcome fields.
pub open spec fn market_snap_ok(
    s: OddsSnapshot,
    ev: OddsApiEvent,
    b: int,
    m: int,
    gid: u128,
    now: u64,
) -> bool {
    market_recognized(ev, b, m) && {
        let mk = ev.bookmakers@[b].markets@[m];
        let tp = market_key_spec(mk.key@)->Some_0;
        let f = fields_after(mk.outcomes@, 0, empty_fields(), tp.0, ev.home_team@);
        &&& s.time == now
        &&& s.game_id == gid
        &&& s.external_id@ == ev.id@
        &&& s.bookmaker@ == ev.bookmakers@[b].key@
        &&& s.market_type == tp.0
        &&& s.period == tp.1
        &&& s.home_line == f.home_line
        &&& s.away_line == f.away_line
        &&& s.total_line == f.total_line
        &&& s.home_price == f.home_price
        &&& s.away_price == f.away_price
        &&& s.over_price == f.over_price
        &&& s.under_price == f.under_price
    }
}

/// The batch is exactly the in-order extraction of every recognized
/// market of every resolved event: the length is the total recognized
/// count, and the snapshot at each market's position is pinned.
pub open spec fn extraction_matches(
    snaps: Seq<OddsSnapshot>,
    events: Seq<OddsApiEvent>,
    gids: Seq<Option<u128>>,
    now: u64,
) -> bool {
    &&& gids.len() == events.len()
    &&& snaps.len() == events_before(events, gids, events.len() as int)
    &&& forall|e: int, b: int, m: int|
        0 <= e < events.len() && gids[e] is Some && market_recognized(events[e], b, m)
            ==> market_snap_ok(
            snaps[(events_before(events, gids, e) + bookmakers_before(events[e], b)
                + #[trigger] markets_before(events[e], b, m)) as int],
            events[e],
            b,
            m,
            gids[e]->Some_0,
            now,
        )
}

/// The whole effect of processing a batch, for one assignment of
/// resolved game ids: the returned snapshots are the exact extraction,
/// the skip count is the number of failed events, cached events keep
/// their cached id, and every resolved id is a stored, memoized game.
pub open spec fn process_post(
    snaps: Seq<OddsSnapshot>,
    skipped: usize,
    events: Seq<OddsApiEvent>,
    gids: Seq<Option<u128>>,
    now: u64,
    post_store: IdentityStore,
    pre_cache: Map<Seq<char>, u128>,
    post_cache: Map<Seq<char>, u128>,
) -> bool {
    &&& extraction_matches(snaps, events, gids, now)
    &&& skipped == skipped_before(gids, events.len() as int)
    &&& forall|e: int|
        0 <= e < events.len() && (#[trigger] gids[e]) is Some ==> post_store.has_game_id(
            gids[e]->Some_0,
        ) && post_cache.contains_key(events[e].id@)
    &&& forall|e: int|
        0 <= e < events.len() && pre_cache.contains_key(#[trigger] events[e].id@) ==> gids[e]
            == Option::Some(pre_cache[events[e].id@])
}

proof fn lemma_events_before_push(
    events: Seq<OddsApiEvent>,
    gids: Seq<Option<u128>>,
    x: Option<u128>,
    e: int,
)
    requires
        0 <= e <= gids.len(),
    ensures
        events_before(events, gids.push(x), e) == events_before(events, gids, e),
    decreases e,
{
    if e > 0 {
        lemma_events_before_push(events, gids, x, e - 1);
    }
}

proof fn lemma_skipped_before_push(gids: Seq<Option<u128>>, x: Option<u128>, e: int)
    requires
        0 <= e <= gids.len(),
    ensures
        skipped_before(gids.push(x), e) == skipped_before(gids, e),
    decreases e,
{
    if e > 0 {
        lemma_skipped_before_push(gids, x, e - 1);
    }
}

/// How one cycle's committed batch and skip count decompose into the
/// three market sets: the full-game extraction always, the half-game
/// extractions exactly when their sets are enabled, and the skip count
/// as the saturated sum of the three per-set counts.
pub open spec fn cycle_batches(
    batch: Seq<OddsSnapshot>,
    skipped: usize,
    events: Seq<OddsApiEvent>,
    h1_events: Seq<OddsApiEvent>,
    h2_events: Seq<OddsApiEvent>,
    s0: Seq<OddsSnapshot>,
    s1: Seq<OddsSnapshot>,
    s2: Seq<OddsSnapshot>,
    g0: Seq<Option<u128>>,
    g1: Seq<Option<u128>>,
    g2: Seq<Option<u128>>,
    now: u64,
    first_half: bool,
    second_half: bool,
) -> bool {
    &&& batch == s0 + s1 + s2
    &&& extraction_matches(s0, events, g0, now)
    &&& (first_half ==> extraction_matches(s1, h1_events, g1, now))
    &&& (!first_half ==> s1 == Seq::<OddsSnapshot>::empty() && g1 == Seq::<Option<u128>>::empty())
    &&& (second_half ==> extraction_matches(s2, h2_events, g2, now))
    &&& (!second_half ==> s2 == Seq::<OddsSnapshot>::empty() && g2 == Seq::<
        Option<u128>,
    >::empty())
    &&& {
        let total = skipped_before(g0, events.len() as int) + skipped_before(
            g1,
            h1_events.len() as int,
        ) + skipped_before(g2, h2_events.len() as int);
        if total <= usize::MAX {
            skipped == total
        } else {
            skipped == usize::MAX
        }
    }
}

/// Some per-set decomposition explains the cycle's batch and count.
pub open spec fn cycle_decomposes(
    batch: Seq<OddsSnapshot>,
    skipped: usize,
    events: Seq<OddsApiEvent>,
    h1_events: Seq<OddsApiEvent>,
    h2_events: Seq<OddsApiEvent>,
    now: u64,
    first_half: bool,
    second_half: bool,
) -> bool {
    exists|
        s0: Seq<OddsSnapshot>,
        s1: Seq<OddsSnapshot>,
        s2: Seq<OddsSnapshot>,
        g0: Seq<Option<u128>>,
        g1: Seq<Option<u128>>,
        g2: Seq<Option<u128>>,
    |
        #[trigger] cycle_batches(
            batch,
            skipped,
            events,
            h1_events,
            h2_events,
            s0,
            s1,
            s2,
            g0,
            g1,
            g2,
            now,
            first_half,
            second_half,
        )
}

/// What one poll cycle reports: how many snapshots were committed and
/// how many events were skipped over resolution failures.
#[derive(Clone, Copy, Debug, PartialEq, Eq, Structural)]
pub struct CycleReport {
    pub snapshot_count: usize,
    pub skipped_events: usize,
}

/// The ingestion service state: configuration, the identity store, the
/// identity cache, the freshness tracker, the rate limiter and the
/// health record.
pub struct OddsIngestionService {
    pub config: Config,
    pub store: IdentityStore,
    pub game_cache: GameCache,
    pub freshness: EventFreshness,
    pub rate_limiter: RateLimiter,
    pub health: HealthState,
}

impl OddsIngestionService {
    /// The service invariant: the store and limiter invariants hold and
    /// every cached game id refers to a stored game row.
    pub open spec fn wf(self) -> bool {
        &&& self.store.wf()
        &&& self.rate_limiter.wf()
        &&& forall|k: Seq<char>|
            #[trigger] self.game_cache.as_map().contains_key(k) ==> self.store.has_game_id(
                self.game_cache.as_map()[k],
            )
    }

    /// A fresh service around a configuration: empty store, empty cache,
    /// empty freshness tracker, a limiter at the configured quota over a
    /// one-minute window, and clean health.
    pub fn new(config: Config) -> (r: OddsIngestionService)
        ensures
            r.wf(),
            r.config == config,
            r.store.teams@.len() == 0,
            r.store.games@.len() == 0,
            r.store.snapshots@.len() == 0,
            r.store.audit@.len() == 0,
            r.game_cache.as_map() == Map::<Seq<char>, u128>::empty(),
            r.rate_limiter.window_seconds == 60,
            r.health.error_count == 0,
    {
        let freshness = EventFreshness::new(config.freshness_window_seconds);
        let rate_limiter = RateLimiter::new(config.rate_quota_per_minute, 60);
        let r = OddsIngestionService {
            store: IdentityStore::new(),
            game_cache: GameCache::new(),
            freshness,
            rate_limiter,
            health: HealthState::new(),
            config,
        };
        r
    }

    /// Pure resolution lookup: probes the generated candidates against
    /// the store, a rated match winning immediately and the first match
    /// of any kind winning otherwise. Reads only; returns the matched
    /// team's id and canonical name.
    fn resolve_lookup(&self, team_name: &str) -> (r: Option<(u128, String)>)
        ensures
            match resolve_outcome(self.store, team_name@) {
                Option::Some(i) => r is Some && {
                    let p = r->Some_0;
                    p.0 == self.store.teams@[i].id && p.1@ == self.store.teams@[i].canonical_name@
                },
                Option::None => r is None,
            },
    {
        let ghost store0 = self.store;
        let cands = team_name_candidates(team_name);
        let ghost cl = string_views(cands@);
        let mut best_unrated: Option<(u128, String)> = Option::None;
        let ghost mut fb: Option<int> = Option::None;
        let n = cands.len();
        let mut k: usize = 0;
        while k < n
            invariant
                store0 == self.store,
                cl == string_views(cands@),
                cl == candidates_spec(team_name@),
                n == cands@.len(),
                k <= n,
                resolve_candidates_rec(store0, cl, k as int, fb) == resolve_outcome(
                    store0,
                    team_name@,
                ),
                match best_unrated {
                    Option::Some(p) => fb is Some && {
                        let i = fb->Some_0;
                        0 <= i < store0.teams@.len() && p.0 == store0.teams@[i].id && p.1@
                            == store0.teams@[i].canonical_name@ && !store0.is_rated_spec(p.0)
                    },
                    Option::None => fb is None,
                },
            decreases n - k,
        {
            proof {
                assert(cands@[k as int]@ == cl[k as int]);
            }
            let ghost fb0 = fb;
            match self.store.resolve_team_fuzzy(cands[k].as_str()) {
                Option::Some(hit) => {
                    let (id, canonical, has_ratings) = hit;
                    let ghost i = store0.fuzzy_best(fuzzy_key_spec(cl[k as int]))->Some_0;
                    proof {
                        assert(store0.fuzzy_best(fuzzy_key_spec(cl[k as int]))
                            == Option::Some(i));
                        assert(id == store0.teams@[i].id);
                        assert(has_ratings == store0.is_rated_spec(id));
                    }
                    if has_ratings {
                        proof {
                            assert(resolve_candidates_rec(store0, cl, k as int, fb)
                                == Option::Some(i));
                            assert(resolve_outcome(store0, team_name@) == Option::Some(i));
                        }
                        return Option::Some((id, canonical));
                    }
                    if best_unrated.is_none() {
                        proof {
                            fb = Option::Some(i);
                            assert(resolve_candidates_rec(store0, cl, k as int, fb0)
                                == resolve_candidates_rec(store0, cl, k + 1, fb));
                        }
                        best_unrated = Option::Some((id, canonical));
                    } else {
                        proof {
                            assert(resolve_candidates_rec(store0, cl, k as int, fb)
                                == resolve_candidates_rec(store0, cl, k + 1, fb));
                        }
                    }
                },
                Option::None => {
                    proof {
                        assert(resolve_candidates_rec(store0, cl, k as int, fb)
                            == resolve_candidates_rec(store0, cl, k + 1, fb));
                    }
                },
            }
            k += 1;
        }
        proof {
            assert(resolve_candidates_rec(store0, cl, n as int, fb) == fb);
            assert(resolve_outcome(store0, team_name@) == fb);
        }
        best_unrated
    }

    /// Resolves a raw team name to a team id. The candidates are probed
    /// in order; a rated match wins immediately, an unrated match is
    /// kept as fallback. On a hit the raw name is attached as an alias
    /// of that entity when it differs from the canonical name. With no
    /// match at all, strict mode records an audit row with no resolved
    /// name and fails; permissive mode creates the team under its
    /// normalized canonical name (idempotently) and attaches the raw
    /// name as an alias.
    pub fn get_or_create_team(&mut self, team_name: &str, context: &str, now: u64) -> (r: Result<
        u128,
        ResolveError,
    >)
        requires
            old(self).wf(),
        ensures
            final(self).wf(),
            final(self).config == old(self).config,
            final(self).game_cache == old(self).game_cache,
            final(self).freshness == old(self).freshness,
            final(self).rate_limiter == old(self).rate_limiter,
            final(self).health == old(self).health,
            final(self).store.games == old(self).store.games,
            final(self).store.snapshots == old(self).store.snapshots,
            final(self).store.rated_team_ids == old(self).store.rated_team_ids,
            match resolve_outcome(old(self).store, team_name@) {
                Option::Some(i) => {
                    &&& r == Result::<u128, ResolveError>::Ok(old(self).store.teams@[i].id)
                    &&& final(self).store.teams == old(self).store.teams
                    &&& final(self).store.audit == old(self).store.audit
                    &&& (crate::outside::lowered(team_name@) != crate::outside::lowered(
                        old(self).store.teams@[i].canonical_name@,
                    ) ==> final(self).store.alias_pair_exists(team_name@, "the_odds_api"@))
                    &&& (crate::outside::lowered(team_name@) != crate::outside::lowered(
                        old(self).store.teams@[i].canonical_name@,
                    ) && !old(self).store.alias_pair_exists(team_name@, "the_odds_api"@)
                        ==> final(self).store.alias_row_exists(
                        old(self).store.teams@[i].id,
                        team_name@,
                        "the_odds_api"@,
                    ))
                },
                Option::None => if old(self).config.strict_resolution {
                    &&& r == Result::<u128, ResolveError>::Err(ResolveError::UnresolvedEntity)
                    &&& final(self).store.teams == old(self).store.teams
                    &&& final(self).store.aliases == old(self).store.aliases
                    &&& final(self).store.audit@.len() == old(self).store.audit@.len() + 1
                    &&& final(self).store.audit@.subrange(0, old(self).store.audit@.len() as int)
                        == old(self).store.audit@
                    &&& audit_miss_ok(final(self).store.audit@.last(), team_name@, context@, now)
                } else {
                    &&& final(self).store.audit == old(self).store.audit
                    &&& r is Ok
                    &&& final(self).store.has_team_id(r->Ok_0)
                    &&& final(self).store.alias_pair_exists(team_name@, "the_odds_api"@)
                    &&& (!old(self).store.alias_pair_exists(team_name@, "the_odds_api"@)
                        ==> final(self).store.alias_row_exists(
                        r->Ok_0,
                        team_name@,
                        "the_odds_api"@,
                    ))
                    &&& if old(self).store.has_canonical(normalize_spec(team_name@)) {
                        final(self).store.teams == old(self).store.teams && exists|i: int|
                            0 <= i < old(self).store.teams@.len() && #[trigger] old(self).store.teams@[i].canonical_name@ == normalize_spec(team_name@) && old(self).store.teams@[i].id == r->Ok_0
                    } else {
                        !old(self).store.has_team_id(r->Ok_0) && final(self).store.teams@.len()
                            == old(self).store.teams@.len() + 1 && final(self).store.teams@.subrange(0, old(self).store.teams@.len() as int) == old(self).store.teams@ && final(self).store.teams@.last().id == r->Ok_0 && final(self).store.teams@.last().canonical_name@ == normalize_spec(team_name@)
                    }
                },
            },
            r is Ok ==> final(self).store.has_team_id(r->Ok_0),
            !old(self).config.strict_resolution ==> r is Ok,
            forall|id: u128|
                old(self).store.has_team_id(id) ==> final(self).store.has_team_id(id),
    {
        let ghost store0 = old(self).store;
        match self.resolve_lookup(team_name) {
            Option::Some(hit) => {
                let (id, canonical) = hit;
                let ghost i = resolve_outcome(store0, team_name@)->Some_0;
                proof {
                    lemma_resolve_outcome_range(store0, team_name@);
                    assert(id == store0.teams@[i].id);
                }
                self.attach_alias_if_differs(id, team_name, canonical.as_str());
                proof {
                    assert(self.store.teams@[i].id == id);
                    assert(self.store.has_team_id(id));
                    assert(self.store.teams@.subrange(0, store0.teams@.len() as int)
                        =~= store0.teams@);
                    lemma_teams_persist(store0, self.store);
                }
                Result::Ok(id)
            },
            Option::None => {
                if self.config.strict_resolution {
                    let rec = AuditRecord {
                        input_name: str_owned(team_name),
                        resolved_name: Option::None,
                        source: str_owned("the_odds_api"),
                        context: str_owned(context),
                        has_ratings: false,
                        timestamp: now,
                    };
                    self.store.record_audit(rec);
                    proof {
                        assert(self.store.audit@.subrange(0, old(self).store.audit@.len() as int)
                            =~= old(self).store.audit@);
                        assert(self.store.teams@.subrange(0, store0.teams@.len() as int)
                            =~= store0.teams@);
                        lemma_teams_persist(store0, self.store);
                    }
                    return Result::Err(ResolveError::UnresolvedEntity);
                }
                let canonical_name = normalize_team_name(team_name);
                let id = self.store.create_team(canonical_name.as_str(), random_id());
                let ghost mid = self.store;
                self.store.add_alias(id, team_name, "the_odds_api");
                proof {
                    let j = choose|j: int| 0 <= j < mid.teams@.len() && mid.teams@[j].id == id;
                    assert(self.store.teams@[j].id == id);
                    assert(self.store.has_team_id(id));
                    if store0.teams@.len() < self.store.teams@.len() {
                        assert(self.store.teams@.subrange(0, store0.teams@.len() as int)
                            == store0.teams@);
                    } else {
                        assert(self.store.teams@.subrange(0, store0.teams@.len() as int)
                            =~= store0.teams@);
                    }
                    lemma_teams_persist(store0, self.store);
                }
                Result::Ok(id)
            },
        }
    }

    /// Attaches the raw name as an alias when it differs from the
    /// canonical name, case-insensitively; a duplicate pair is a no-op.
    fn attach_alias_if_differs(&mut self, team_id: u128, raw_name: &str, canonical: &str)
        requires
            old(self).wf(),
        ensures
            final(self).wf(),
            final(self).config == old(self).config,
            final(self).game_cache == old(self).game_cache,
            final(self).freshness == old(self).freshness,
            final(self).rate_limiter == old(self).rate_limiter,
            final(self).health == old(self).health,
            final(self).store.teams == old(self).store.teams,
            final(self).store.games == old(self).store.games,
            final(self).store.snapshots == old(self).store.snapshots,
            final(self).store.audit == old(self).store.audit,
            final(self).store.rated_team_ids == old(self).store.rated_team_ids,
            crate::outside::lowered(raw_name@) != crate::outside::lowered(canonical@) ==> final(self).store.alias_pair_exists(raw_name@, "the_odds_api"@),
            crate::outside::lowered(raw_name@) != crate::outside::lowered(canonical@)
                && !old(self).store.alias_pair_exists(raw_name@, "the_odds_api"@)
                ==> final(self).store.alias_row_exists(team_id, raw_name@, "the_odds_api"@),
            crate::outside::lowered(raw_name@) == crate::outside::lowered(canonical@) ==> final(self).store.aliases == old(self).store.aliases,
    {
        let low_raw = to_lower(raw_name);
        let low_canon = to_lower(canonical);
        if !low_raw.eq(&low_canon) {
            self.store.add_alias(team_id, raw_name, "the_odds_api");
        }
    }

    /// Materializes one looked-up side: a hit gets the raw name attached
    /// as an alias when it differs from the canonical name; a miss (in
    /// permissive mode) creates the team under its normalized canonical
    /// name and attaches the raw name as an alias.
    fn materialize_side(&mut self, team_name: &str, looked_up: Option<(u128, String)>) -> (r:
        u128)
        requires
            old(self).wf(),
            looked_up is Some ==> old(self).store.has_team_id(looked_up->Some_0.0),
        ensures
            final(self).wf(),
            final(self).config == old(self).config,
            final(self).game_cache == old(self).game_cache,
            final(self).freshness == old(self).freshness,
            final(self).rate_limiter == old(self).rate_limiter,
            final(self).health == old(self).health,
            final(self).store.games == old(self).store.games,
            final(self).store.audit == old(self).store.audit,
            final(self).store.snapshots == old(self).store.snapshots,
            final(self).store.rated_team_ids == old(self).store.rated_team_ids,
            final(self).store.teams@.len() >= old(self).store.teams@.len(),
            final(self).store.teams@.subrange(0, old(self).store.teams@.len() as int) == old(self).store.teams@,
            final(self).store.has_team_id(r),
            looked_up is Some ==> r == looked_up->Some_0.0 && final(self).store.teams == old(self).store.teams,
    {
        match looked_up {
            Option::Some(p) => {
                let (id, canonical) = p;
                self.attach_alias_if_differs(id, team_name, canonical.as_str());
                proof {
                    assert(final(self).store.teams@.subrange(
                        0,
                        old(self).store.teams@.len() as int,
                    ) =~= old(self).store.teams@);
                }
                id
            },
            Option::None => {
                let c = normalize_team_name(team_name);
                let id = self.store.create_team(c.as_str(), random_id());
                let ghost mid = self.store;
                self.store.add_alias(id, team_name, "the_odds_api");
                proof {
                    let j = choose|j: int| 0 <= j < mid.teams@.len() && mid.teams@[j].id == id;
                    assert(self.store.teams@[j].id == id);
                    assert(self.store.has_team_id(id));
                    if old(self).store.teams@.len() < self.store.teams@.len() {
                        assert(self.store.teams@.subrange(
                            0,
                            old(self).store.teams@.len() as int,
                        ) == old(self).store.teams@);
                    } else {
                        assert(self.store.teams@.subrange(
                            0,
                            old(self).store.teams@.len() as int,
                        ) =~= old(self).store.teams@);
                    }
                }
                id
            },
        }
    }

    /// Commits one resolved event: writes the two per-side audit records
    /// and upserts the game row. `st0` is the store as it stood before
    /// the two sides were materialized; only teams and aliases may have
    /// grown since.
    fn commit_game(
        &mut self,
        event: &OddsApiEvent,
        now: u64,
        home_id: u128,
        away_id: u128,
        Ghost(st0): Ghost<IdentityStore>,
    ) -> (r: u128)
        requires
            old(self).wf(),
            home_id != away_id,
            old(self).store.games == st0.games,
            old(self).store.audit == st0.audit,
            old(self).store.rated_team_ids == st0.rated_team_ids,
            old(self).store.has_team_id(home_id),
            old(self).store.has_team_id(away_id),
        ensures
            final(self).wf(),
            final(self).config == old(self).config,
            final(self).game_cache == old(self).game_cache,
            final(self).freshness == old(self).freshness,
            final(self).rate_limiter == old(self).rate_limiter,
            final(self).health == old(self).health,
            final(self).store.snapshots == old(self).store.snapshots,
            final(self).store.rated_team_ids == old(self).store.rated_team_ids,
            final(self).store.teams == old(self).store.teams,
            final(self).store.aliases == old(self).store.aliases,
            game_written(st0, final(self).store, *event, now, home_id, away_id, r),
            final(self).store.has_external_id(event.id@),
            forall|id: u128|
                old(self).store.has_game_id(id) ==> final(self).store.has_game_id(id),
    {
        let home_canonical = self.store.canonical_name_of(home_id);
        let home_has_ratings = self.store.team_has_ratings(home_id);
        let rec_home = AuditRecord {
            input_name: str_owned(event.home_team.as_str()),
            resolved_name: home_canonical,
            source: str_owned("the_odds_api"),
            context: str_owned("home_team"),
            has_ratings: home_has_ratings,
            timestamp: now,
        };
        self.store.record_audit(rec_home);
        let away_canonical = self.store.canonical_name_of(away_id);
        let away_has_ratings = self.store.team_has_ratings(away_id);
        let rec_away = AuditRecord {
            input_name: str_owned(event.away_team.as_str()),
            resolved_name: away_canonical,
            source: str_owned("the_odds_api"),
            context: str_owned("away_team"),
            has_ratings: away_has_ratings,
            timestamp: now,
        };
        self.store.record_audit(rec_away);
        let commence: u64 = match event.commence_time {
            Option::Some(t) => t,
            Option::None => now,
        };
        let ghost pre = self.store;
        proof {
            assert(pre.games == st0.games);
            assert(pre.audit@ =~= st0.audit@ + seq![rec_home, rec_away]);
        }
        let gid = self.store.upsert_game(event.id.as_str(), home_id, away_id, commence,
        random_id());
        proof {
            assert(final(self).store.audit@.subrange(0, st0.audit@.len() as int)
                =~= st0.audit@);
            assert(final(self).store.audit@[st0.audit@.len() as int] == rec_home);
            assert(final(self).store.audit@[st0.audit@.len() as int + 1] == rec_away);
            assert(final(self).store.has_team_id(home_id)) by {
                let j = choose|j: int|
                    0 <= j < old(self).store.teams@.len() && old(self).store.teams@[j].id
                        == home_id;
                assert(final(self).store.teams@[j].id == home_id);
            }
            assert(final(self).store.has_team_id(away_id)) by {
                let j = choose|j: int|
                    0 <= j < old(self).store.teams@.len() && old(self).store.teams@[j].id
                        == away_id;
                assert(final(self).store.teams@[j].id == away_id);
            }
            assert(audit_rec_ok(rec_home, final(self).store, event.home_team@, "home_team"@,
            home_id, now)) by {
                match rec_home.resolved_name {
                    Option::Some(n) => {
                        let t = choose|t: int|
                            0 <= t < old(self).store.teams@.len() && old(self).store.teams@[t].id
                                == home_id && #[trigger] old(self).store.teams@[t].canonical_name@
                                == n@;
                        assert(final(self).store.teams@[t].id == home_id);
                    },
                    Option::None => {},
                }
            }
            assert(audit_rec_ok(rec_away, final(self).store, event.away_team@, "away_team"@,
            away_id, now)) by {
                match rec_away.resolved_name {
                    Option::Some(n) => {
                        let t = choose|t: int|
                            0 <= t < old(self).store.teams@.len() && old(self).store.teams@[t].id
                                == away_id && #[trigger] old(self).store.teams@[t].canonical_name@
                                == n@;
                        assert(final(self).store.teams@[t].id == away_id);
                    },
                    Option::None => {},
                }
            }
            if pre.has_external_id(event.id@) {
                let g = choose|g: int|
                    0 <= g < pre.games@.len() && #[trigger] pre.games@[g].external_id@
                        == event.id@ && gid == pre.games@[g].id && final(self).store.games@
                        == pre.games@.update(
                        g,
                        Game {
                            id: pre.games@[g].id,
                            external_id: pre.games@[g].external_id,
                            home_team_id: home_id,
                            away_team_id: away_id,
                            commence_time: commence,
                            status: GameStatus::Scheduled,
                        },
                    );
                assert(st0.games@[g].external_id@ == event.id@);
                assert(final(self).store.games@[g].id == gid);
                assert forall|id: u128| pre.has_game_id(id) implies final(self).store.has_game_id(
                    id,
                ) by {
                    let j = choose|j: int| 0 <= j < pre.games@.len() && pre.games@[j].id == id;
                    if j == g {
                        assert(final(self).store.games@[g].id == id);
                    } else {
                        assert(final(self).store.games@[j].id == id);
                    }
                }
            } else {
                assert(final(self).store.games@.last().id == gid);
                assert forall|id: u128| pre.has_game_id(id) implies final(self).store.has_game_id(
                    id,
                ) by {
                    let j = choose|j: int| 0 <= j < pre.games@.len() && pre.games@[j].id == id;
                    assert(final(self).store.games@.subrange(0, pre.games@.len() as int)[j]
                        == pre.games@[j]);
                    assert(final(self).store.games@[j].id == id);
                }
            }
            assert(game_written(st0, final(self).store, *event, now, home_id, away_id, gid));
            assert forall|id: u128|
                old(self).store.has_game_id(id) implies self.store.has_game_id(id) by {
                let j = choose|j: int|
                    0 <= j < old(self).store.games@.len() && old(self).store.games@[j].id == id;
                assert(pre.games@[j].id == id);
                assert(pre.has_game_id(id));
            }
            assert forall|kk: Seq<char>|
                #[trigger] self.game_cache.as_map().contains_key(kk) implies self.store.has_game_id(
                self.game_cache.as_map()[kk],
            ) by {
                assert(old(self).game_cache.as_map().contains_key(kk));
                let v = old(self).game_cache.as_map()[kk];
                assert(old(self).store.has_game_id(v));
                let j = choose|j: int|
                    0 <= j < old(self).store.games@.len() && old(self).store.games@[j].id == v;
                assert(pre.games@[j].id == v);
                assert(pre.has_game_id(v));
            }
        }
        gid
    }

    /// Resolves both teams of an event and upserts the game row keyed on
    /// the event's external id. Home and away must resolve to distinct
    /// entities; an equal pair fails with `AmbiguousTeamPair` and writes
    /// neither a game row nor audit records. On success one audit record
    /// per side captures the resolved canonical name and its ratings
    /// flag, and the stored row carries exactly the two resolved ids.
    #[verifier::rlimit(100)]
    pub fn get_or_create_game(&mut self, event: &OddsApiEvent, now: u64) -> (r: Result<
        u128,
        ResolveError,
    >)
        requires
            old(self).wf(),
        ensures
            final(self).wf(),
            final(self).config == old(self).config,
            final(self).game_cache == old(self).game_cache,
            final(self).freshness == old(self).freshness,
            final(self).rate_limiter == old(self).rate_limiter,
            final(self).health == old(self).health,
            final(self).store.snapshots == old(self).store.snapshots,
            final(self).store.rated_team_ids == old(self).store.rated_team_ids,
            r is Err ==> final(self).store.games == old(self).store.games,
            r == Result::<u128, ResolveError>::Err(ResolveError::AmbiguousTeamPair) ==> final(self).store.audit == old(self).store.audit,
            // Exact outcome when both sides resolve against the entry
            // store: equal entities are rejected untouched, distinct
            // entities yield the fully described write.
            ({
                let ho = resolve_outcome(old(self).store, event.home_team@);
                let ao = resolve_outcome(old(self).store, event.away_team@);
                ho is Some && ao is Some ==> {
                    let hid = old(self).store.teams@[ho->Some_0].id;
                    let aid = old(self).store.teams@[ao->Some_0].id;
                    if hid == aid {
                        r == Result::<u128, ResolveError>::Err(ResolveError::AmbiguousTeamPair)
                            && *final(self) == *old(self)
                    } else {
                        r is Ok && game_written(
                            old(self).store,
                            final(self).store,
                            *event,
                            now,
                            hid,
                            aid,
                            r->Ok_0,
                        )
                    }
                }
            }),
            // Strict-mode misses: the side that failed is audited with
            // no resolution and nothing else is written.
            old(self).config.strict_resolution && resolve_outcome(
                old(self).store,
                event.home_team@,
            ) is None ==> r == Result::<u128, ResolveError>::Err(ResolveError::UnresolvedEntity)
                && final(self).store.teams == old(self).store.teams && final(self).store.aliases
                == old(self).store.aliases && final(self).store.audit@.len() == old(self).store.audit@.len() + 1 && final(self).store.audit@.subrange(
                0,
                old(self).store.audit@.len() as int,
            ) == old(self).store.audit@ && audit_miss_ok(
                final(self).store.audit@.last(),
                event.home_team@,
                "home_team"@,
                now,
            ),
            old(self).config.strict_resolution && resolve_outcome(
                old(self).store,
                event.home_team@,
            ) is Some && resolve_outcome(old(self).store, event.away_team@) is None ==> r
                == Result::<u128, ResolveError>::Err(ResolveError::UnresolvedEntity)
                && final(self).store.teams == old(self).store.teams && final(self).store.aliases
                == old(self).store.aliases && final(self).store.audit@.len() == old(self).store.audit@.len() + 1 && final(self).store.audit@.subrange(
                0,
                old(self).store.audit@.len() as int,
            ) == old(self).store.audit@ && audit_miss_ok(
                final(self).store.audit@.last(),
                event.away_team@,
                "away_team"@,
                now,
            ),
            // Every success, creation paths included, is the described
            // write for some pair of distinct resolved entities.
            r is Ok ==> game_commit_ok(old(self).store, final(self).store, *event, now, r->Ok_0),
            r is Ok ==> final(self).store.has_external_id(event.id@),
            !old(self).config.strict_resolution ==> r != Result::<u128, ResolveError>::Err(
                ResolveError::UnresolvedEntity,
            ),
            forall|id: u128|
                old(self).store.has_game_id(id) ==> final(self).store.has_game_id(id),
            forall|id: u128|
                old(self).store.has_team_id(id) ==> final(self).store.has_team_id(id),
    {
        let ghost st0 = old(self).store;
        let home_lu = self.resolve_lookup(event.home_team.as_str());
        let away_lu = self.resolve_lookup(event.away_team.as_str());
        let ghost ho = resolve_outcome(st0, event.home_team@);
        let ghost ao = resolve_outcome(st0, event.away_team@);
        proof {
            lemma_resolve_outcome_range(st0, event.home_team@);
            lemma_resolve_outcome_range(st0, event.away_team@);
        }
        let strict = self.config.strict_resolution;
        if strict && home_lu.is_none() {
            let rec = AuditRecord {
                input_name: str_owned(event.home_team.as_str()),
                resolved_name: Option::None,
                source: str_owned("the_odds_api"),
                context: str_owned("home_team"),
                has_ratings: false,
                timestamp: now,
            };
            self.store.record_audit(rec);
            proof {
                assert(self.store.audit@.subrange(0, st0.audit@.len() as int) =~= st0.audit@);
            }
            return Result::Err(ResolveError::UnresolvedEntity);
        }
        if strict && away_lu.is_none() {
            let rec = AuditRecord {
                input_name: str_owned(event.away_team.as_str()),
                resolved_name: Option::None,
                source: str_owned("the_odds_api"),
                context: str_owned("away_team"),
                has_ratings: false,
                timestamp: now,
            };
            self.store.record_audit(rec);
            proof {
                assert(self.store.audit@.subrange(0, st0.audit@.len() as int) =~= st0.audit@);
            }
            return Result::Err(ResolveError::UnresolvedEntity);
        }
        match (&home_lu, &away_lu) {
            (Option::Some(h), Option::Some(a)) => {
                if h.0 == a.0 {
                    return Result::Err(ResolveError::AmbiguousTeamPair);
                }
            },
            _ => {},
        }
        proof {
            if ho is Some {
                assert(self.store.teams@[ho->Some_0].id == home_lu->Some_0.0);
                assert(self.store.has_team_id(home_lu->Some_0.0));
            }
        }
        let home_id: u128 = self.materialize_side(event.home_team.as_str(), home_lu);
        let ghost sth = self.store;
        proof {
            lemma_teams_persist(st0, sth);
            if ho is Some {
                assert(sth.teams@[ho->Some_0].id == home_id);
            }
        }
        proof {
            if ao is Some {
                assert(st0.teams@[ao->Some_0].id == away_lu->Some_0.0);
                assert(sth.teams@.subrange(0, st0.teams@.len() as int)[ao->Some_0]
                    == st0.teams@[ao->Some_0]);
                assert(sth.teams@[ao->Some_0].id == away_lu->Some_0.0);
                assert(sth.has_team_id(away_lu->Some_0.0));
            }
        }
        let away_id: u128 = self.materialize_side(event.away_team.as_str(), away_lu);
        let ghost sta = self.store;
        proof {
            lemma_teams_persist(sth, sta);
            assert(sta.teams@.subrange(0, st0.teams@.len() as int) =~= st0.teams@) by {
                assert forall|t: int| 0 <= t < st0.teams@.len() implies sta.teams@[t]
                    == st0.teams@[t] by {
                    assert(sta.teams@.subrange(0, sth.teams@.len() as int)[t] == sth.teams@[t]);
                    assert(sth.teams@.subrange(0, st0.teams@.len() as int)[t] == st0.teams@[t]);
                }
            }
            if ao is Some {
                assert(sta.teams@[ao->Some_0].id == away_id);
            }
            assert(sta.has_team_id(away_id));
            assert(sta.has_team_id(home_id)) by {
                let j = choose|j: int| 0 <= j < sth.teams@.len() && sth.teams@[j].id == home_id;
                assert(sta.teams@.subrange(0, sth.teams@.len() as int)[j] == sth.teams@[j]);
                assert(sta.teams@[j].id == home_id);
            }
        }
        if home_id == away_id {
            return Result::Err(ResolveError::AmbiguousTeamPair);
        }
        proof {
            assert(sta.games == st0.games && sta.audit == st0.audit
                && sta.rated_team_ids == st0.rated_team_ids);
        }
        let gid = self.commit_game(event, now, home_id, away_id, Ghost(st0));
        proof {
            assert(game_written(
                old(self).store,
                final(self).store,
                *event,
                now,
                home_id,
                away_id,
                gid,
            ));
            assert(game_commit_ok(old(self).store, final(self).store, *event, now, gid));
            assert forall|id: u128| st0.has_game_id(id) implies final(self).store.has_game_id(
                id,
            ) by {
                let j = choose|j: int| 0 <= j < st0.games@.len() && st0.games@[j].id == id;
                assert(sta.games@[j].id == id);
                assert(sta.has_game_id(id));
            }
            assert forall|id: u128| st0.has_team_id(id) implies final(self).store.has_team_id(
                id,
            ) by {
                assert(sta.has_team_id(id));
                let j = choose|j: int| 0 <= j < sta.teams@.len() && sta.teams@[j].id == id;
                assert(final(self).store.teams@[j].id == id);
            }
        }
        Result::Ok(gid)
    }

    /// Every snapshot in the batch is stamped at `now` and refers to a
    /// game row of the store.
    pub open spec fn snaps_wf(snaps: Seq<OddsSnapshot>, store: IdentityStore, now: u64) -> bool {
        forall|t: int|
            0 <= t < snaps.len() ==> (#[trigger] snaps[t].time) == now && store.has_game_id(
                snaps[t].game_id,
            )
    }

    /// Processes a batch of fetched events: each event's game id comes
    /// from the identity cache or is resolved and memoized; events whose
    /// resolution fails are skipped and counted, never fatal. The
    /// returned batch is exactly the in-order extraction of every
    /// recognized market of every resolved event, stamped at `now`.
    #[verifier::rlimit(100)]
    pub fn process_events(&mut self, events: &Vec<OddsApiEvent>, now: u64) -> (r: (
        Vec<OddsSnapshot>,
        usize,
    ))
        requires
            old(self).wf(),
        ensures
            final(self).wf(),
            final(self).config == old(self).config,
            final(self).freshness == old(self).freshness,
            final(self).rate_limiter == old(self).rate_limiter,
            final(self).health == old(self).health,
            final(self).store.snapshots == old(self).store.snapshots,
            r.1 <= events@.len(),
            Self::snaps_wf(r.0@, final(self).store, now),
            forall|id: u128|
                old(self).store.has_game_id(id) ==> final(self).store.has_game_id(id),
            forall|kk: Seq<char>|
                #[trigger] old(self).game_cache.as_map().contains_key(kk) ==> final(self).game_cache.as_map().contains_key(kk) && final(self).game_cache.as_map()[kk] == old(self).game_cache.as_map()[kk],
            exists|gids: Seq<Option<u128>>|
                #[trigger] process_post(
                    r.0@,
                    r.1,
                    events@,
                    gids,
                    now,
                    final(self).store,
                    old(self).game_cache.as_map(),
                    final(self).game_cache.as_map(),
                ),
    {
        let ghost evs = events@;
        let ghost cache0 = old(self).game_cache.as_map();
        let mut snaps: Vec<OddsSnapshot> = Vec::new();
        let mut skipped: usize = 0;
        let ghost mut gids: Seq<Option<u128>> = Seq::empty();
        let n = events.len();
        let mut e: usize = 0;
        while e < n
            invariant
                self.wf(),
                self.config == old(self).config,
                self.freshness == old(self).freshness,
                self.rate_limiter == old(self).rate_limiter,
                self.health == old(self).health,
                self.store.snapshots == old(self).store.snapshots,
                evs == events@,
                cache0 == old(self).game_cache.as_map(),
                n == evs.len(),
                e <= n,
                gids.len() == e,
                skipped == skipped_before(gids, e as int),
                skipped <= e,
                snaps@.len() == events_before(evs, gids, e as int),
                Self::snaps_wf(snaps@, self.store, now),
                forall|e2: int, b: int, m: int|
                    0 <= e2 < e && gids[e2] is Some && market_recognized(evs[e2], b, m)
                        ==> ((events_before(evs, gids, e2) + bookmakers_before(evs[e2], b)
                        + #[trigger] markets_before(evs[e2], b, m)) as int) < snaps@.len()
                        && market_snap_ok(
                        snaps@[(events_before(evs, gids, e2) + bookmakers_before(evs[e2], b)
                            + markets_before(evs[e2], b, m)) as int],
                        evs[e2],
                        b,
                        m,
                        gids[e2]->Some_0,
                        now,
                    ),
                forall|e2: int|
                    0 <= e2 < e && (#[trigger] gids[e2]) is Some ==> self.store.has_game_id(
                        gids[e2]->Some_0,
                    ) && self.game_cache.as_map().contains_key(evs[e2].id@),
                forall|e2: int|
                    0 <= e2 < e && cache0.contains_key(#[trigger] evs[e2].id@) ==> gids[e2]
                        == Option::Some(cache0[evs[e2].id@]),
                forall|kk: Seq<char>|
                    #[trigger] cache0.contains_key(kk) ==> self.game_cache.as_map().contains_key(
                        kk,
                    ) && self.game_cache.as_map()[kk] == cache0[kk],
                forall|id: u128|
                    old(self).store.has_game_id(id) ==> self.store.has_game_id(id),
            decreases n - e,
        {
            let ev = &events[e];
            let ghost spre = *self;
            proof {
                assert(Self::snaps_wf(snaps@, spre.store, now));
            }
            let mut gid_opt: Option<u128> = Option::None;
            match self.game_cache.get(ev.id.as_str()) {
                Option::Some(g) => {
                    proof {
                        assert(self.game_cache.as_map().contains_key(ev.id@));
                        assert(self.store.has_game_id(g));
                    }
                    gid_opt = Option::Some(g);
                },
                Option::None => {
                    match self.get_or_create_game(ev, now) {
                        Result::Ok(g) => {
                            proof {
                                assert(self.store.has_game_id(g));
                            }
                            let ghost mid = *self;
                            self.game_cache.insert(str_owned(ev.id.as_str()), g);
                            proof {
                                assert forall|k: Seq<char>|
                                    #[trigger] self.game_cache.as_map().contains_key(
                                        k,
                                    ) implies self.store.has_game_id(
                                    self.game_cache.as_map()[k],
                                ) by {
                                    if k == ev.id@ {
                                        assert(self.game_cache.as_map()[k] == g);
                                    } else {
                                        assert(mid.game_cache.as_map().contains_key(k));
                                        assert(self.game_cache.as_map()[k]
                                            == mid.game_cache.as_map()[k]);
                                    }
                                }
                            }
                            gid_opt = Option::Some(g);
                        },
                        Result::Err(_) => {},
                    }
                },
            }
            proof {
                // the id assigned to a cached event is its cached value
                if cache0.contains_key(evs[e as int].id@) {
                    assert(spre.game_cache.as_map().contains_key(evs[e as int].id@));
                    assert(gid_opt == Option::Some(cache0[evs[e as int].id@]));
                }
                // earlier snapshots and ids survive this event's writes
                assert forall|t: int|
                    0 <= t < snaps@.len() implies (#[trigger] snaps@[t].time) == now
                    && self.store.has_game_id(snaps@[t].game_id) by {
                    assert(snaps@[t].time == now);
                    assert(spre.store.has_game_id(snaps@[t].game_id));
                }
                assert forall|e2: int|
                    0 <= e2 < e && (#[trigger] gids[e2]) is Some implies self.store.has_game_id(
                    gids[e2]->Some_0,
                ) && self.game_cache.as_map().contains_key(evs[e2].id@) by {
                    assert(spre.store.has_game_id(gids[e2]->Some_0));
                    assert(spre.game_cache.as_map().contains_key(evs[e2].id@));
                }
                assert(Self::snaps_wf(snaps@, self.store, now));
                assert forall|id: u128|
                    old(self).store.has_game_id(id) implies self.store.has_game_id(id) by {
                    assert(spre.store.has_game_id(id));
                }
            }
            let ghost gids0 = gids;
            proof {
                gids = gids.push(gid_opt);
                lemma_events_before_push(evs, gids0, gid_opt, e as int);
                lemma_skipped_before_push(gids0, gid_opt, e as int);
                assert(events_before(evs, gids, e as int) == events_before(
                    evs,
                    gids0,
                    e as int,
                ));
                assert forall|e2: int, b: int, m: int|
                    0 <= e2 < e && gids[e2] is Some && market_recognized(
                        evs[e2],
                        b,
                        m,
                    ) implies ((events_before(evs, gids, e2) + bookmakers_before(evs[e2], b)
                    + #[trigger] markets_before(evs[e2], b, m)) as int) < snaps@.len()
                    && market_snap_ok(
                    snaps@[(events_before(evs, gids, e2) + bookmakers_before(evs[e2], b)
                        + markets_before(evs[e2], b, m)) as int],
                    evs[e2],
                    b,
                    m,
                    gids[e2]->Some_0,
                    now,
                ) by {
                    lemma_events_before_push(evs, gids0, gid_opt, e2);
                    assert(gids0[e2] == gids[e2]);
                }
            }
            let ghost base = snaps@.len();
            match gid_opt {
                Option::Some(gid) => {
                    let nb = ev.bookmakers.len();
                    let mut b: usize = 0;
                    while b < nb
                        invariant
                            self.wf(),
                            evs == events@,
                            0 <= e < evs.len(),
                            *ev == evs[e as int],
                            nb == ev.bookmakers@.len(),
                            b <= nb,
                            self.store.has_game_id(gid),
                            Self::snaps_wf(snaps@, self.store, now),
                            snaps@.len() == base + bookmakers_before(evs[e as int], b as int),
                            forall|e2: int, b2: int, m2: int|
                                0 <= e2 < e && gids[e2] is Some && market_recognized(
                                    evs[e2],
                                    b2,
                                    m2,
                                ) ==> ((events_before(evs, gids, e2) + bookmakers_before(
                                    evs[e2],
                                    b2,
                                ) + #[trigger] markets_before(evs[e2], b2, m2)) as int)
                                    < snaps@.len() && market_snap_ok(
                                    snaps@[(events_before(evs, gids, e2) + bookmakers_before(
                                        evs[e2],
                                        b2,
                                    ) + markets_before(evs[e2], b2, m2)) as int],
                                    evs[e2],
                                    b2,
                                    m2,
                                    gids[e2]->Some_0,
                                    now,
                                ),
                            forall|b2: int, m2: int|
                                0 <= b2 < b && market_recognized(evs[e as int], b2, m2) ==> ((base
                                    + bookmakers_before(evs[e as int], b2)
                                    + #[trigger] markets_before(evs[e as int], b2, m2)) as int)
                                    < snaps@.len() && market_snap_ok(
                                    snaps@[(base + bookmakers_before(evs[e as int], b2)
                                        + markets_before(evs[e as int], b2, m2)) as int],
                                    evs[e as int],
                                    b2,
                                    m2,
                                    gid,
                                    now,
                                ),
                        decreases nb - b,
                    {
                        let bk = &ev.bookmakers[b];
                        let nm = bk.markets.len();
                        let mut m: usize = 0;
                        while m < nm
                            invariant
                                self.wf(),
                                evs == events@,
                                0 <= e < evs.len(),
                                *ev == evs[e as int],
                                0 <= b < ev.bookmakers@.len(),
                                *bk == ev.bookmakers@[b as int],
                                nm == bk.markets@.len(),
                                m <= nm,
                                self.store.has_game_id(gid),
                                Self::snaps_wf(snaps@, self.store, now),
                                snaps@.len() == base + bookmakers_before(evs[e as int], b as int)
                                    + markets_before(evs[e as int], b as int, m as int),
                                forall|e2: int, b2: int, m2: int|
                                    0 <= e2 < e && gids[e2] is Some && market_recognized(
                                        evs[e2],
                                        b2,
                                        m2,
                                    ) ==> ((events_before(evs, gids, e2) + bookmakers_before(
                                        evs[e2],
                                        b2,
                                    ) + #[trigger] markets_before(evs[e2], b2, m2)) as int)
                                        < snaps@.len() && market_snap_ok(
                                        snaps@[(events_before(evs, gids, e2) + bookmakers_before(
                                            evs[e2],
                                            b2,
                                        ) + markets_before(evs[e2], b2, m2)) as int],
                                        evs[e2],
                                        b2,
                                        m2,
                                        gids[e2]->Some_0,
                                        now,
                                    ),
                                forall|b2: int, m2: int|
                                    0 <= b2 < b && market_recognized(evs[e as int], b2, m2)
                                        ==> ((base + bookmakers_before(evs[e as int], b2)
                                        + #[trigger] markets_before(evs[e as int], b2, m2)) as int)
                                        < snaps@.len() && market_snap_ok(
                                        snaps@[(base + bookmakers_before(evs[e as int], b2)
                                            + markets_before(evs[e as int], b2, m2)) as int],
                                        evs[e as int],
                                        b2,
                                        m2,
                                        gid,
                                        now,
                                    ),
                                forall|m2: int|
                                    0 <= m2 < m && market_recognized(evs[e as int], b as int, m2)
                                        ==> ((base + bookmakers_before(evs[e as int], b as int)
                                        + #[trigger] markets_before(
                                        evs[e as int],
                                        b as int,
                                        m2,
                                    )) as int) < snaps@.len() && market_snap_ok(
                                        snaps@[(base + bookmakers_before(
                                            evs[e as int],
                                            b as int,
                                        ) + markets_before(evs[e as int], b as int, m2)) as int],
                                        evs[e as int],
                                        b as int,
                                        m2,
                                        gid,
                                        now,
                                    ),
                            decreases nm - m,
                        {
                            match extract_odds_snapshot(
                                now,
                                gid,
                                ev.id.as_str(),
                                bk.key.as_str(),
                                &bk.markets[m],
                                ev.home_team.as_str(),
                            ) {
                                Option::Some(snap) => {
                                    proof {
                                        assert(market_recognized(evs[e as int], b as int,
                                        m as int));
                                        assert(market_snap_ok(snap, evs[e as int], b as int,
                                        m as int, gid, now));
                                    }
                                    let ghost sn0 = snaps@;
                                    snaps.push(snap);
                                    proof {
                                        assert(snaps@ == sn0.push(snap));
                                        assert(snaps@[sn0.len() as int] == snap);
                                        assert forall|t: int|
                                            0 <= t < snaps@.len() implies (#[trigger] snaps@[t].time)
                                            == now && self.store.has_game_id(
                                            snaps@[t].game_id,
                                        ) by {
                                            if t < sn0.len() {
                                                assert(snaps@[t] == sn0[t]);
                                                assert(sn0[t].time == now);
                                            } else {
                                                assert(snaps@[t] == snap);
                                            }
                                        }
                                        assert(Self::snaps_wf(snaps@, self.store, now));
                                    }
                                },
                                Option::None => {
                                    proof {
                                        assert(!market_recognized(evs[e as int], b as int,
                                        m as int));
                                    }
                                },
                            }
                            m += 1;
                        }
                        b += 1;
                    }
                    proof {
                        assert(snaps@.len() == base + event_snap_count(evs[e as int]));
                    }
                },
                Option::None => {
                    skipped = skipped + 1;
                },
            }
            e += 1;
            proof {
                assert(events_before(evs, gids, e as int) == events_before(
                    evs,
                    gids,
                    e as int - 1,
                ) + match gids[e as int - 1] {
                    Option::Some(_) => event_snap_count(evs[e as int - 1]),
                    Option::None => 0nat,
                });
                assert(skipped_before(gids, e as int) == skipped_before(gids, e as int - 1)
                    + if gids[e as int - 1] is None {
                    1nat
                } else {
                    0nat
                });
                assert(snaps@.len() == events_before(evs, gids, e as int));
            }
        }
        proof {
            assert(process_post(
                snaps@,
                skipped,
                evs,
                gids,
                now,
                self.store,
                cache0,
                self.game_cache.as_map(),
            ));
        }
        (snaps, skipped)
    }

    /// Which optional market sets this cycle should fetch: the
    /// half-game sets when enabled, and none at all in a one-shot run,
    /// which stays fast by taking full-game markets only.
    pub fn optional_market_sets(&self) -> (r: (bool, bool))
        ensures
            r.0 == (self.config.enable_first_half && !self.config.run_once),
            r.1 == (self.config.enable_second_half && !self.config.run_once),
    {
        (
            self.config.enable_first_half && !self.config.run_once,
            self.config.enable_second_half && !self.config.run_once,
        )
    }

    /// Persists a batch of snapshots into the identity store's snapshot
    /// series, upserting each on its natural key.
    pub fn store_snapshots(&mut self, snaps: &Vec<OddsSnapshot>)
        requires
            old(self).wf(),
        ensures
            final(self).wf(),
            final(self).config == old(self).config,
            final(self).game_cache == old(self).game_cache,
            final(self).freshness == old(self).freshness,
            final(self).rate_limiter == old(self).rate_limiter,
            final(self).health == old(self).health,
            final(self).store.teams == old(self).store.teams,
            final(self).store.aliases == old(self).store.aliases,
            final(self).store.rated_team_ids == old(self).store.rated_team_ids,
            final(self).store.audit == old(self).store.audit,
            final(self).store.games == old(self).store.games,
            final(self).store.snapshots@ == upsert_all(old(self).store.snapshots@, snaps@, 0),
    {
        self.store.store_snapshots(snaps);
    }

    /// One full poll cycle over already-fetched odds: the full-game
    /// events and, when enabled, the half-game event sets are resolved
    /// and extracted, the whole batch is committed to the store, and the
    /// cycle reports exactly the batch's length and the number of
    /// skipped events. The batch itself is returned for the sinks.
    #[verifier::rlimit(100)]
    pub fn poll_once(
        &mut self,
        events: &Vec<OddsApiEvent>,
        h1_events: &Vec<OddsApiEvent>,
        h2_events: &Vec<OddsApiEvent>,
        now: u64,
    ) -> (r: (CycleReport, Vec<OddsSnapshot>))
        requires
            old(self).wf(),
        ensures
            final(self).wf(),
            final(self).config == old(self).config,
            final(self).freshness == old(self).freshness,
            final(self).rate_limiter == old(self).rate_limiter,
            final(self).health == old(self).health,
            r.0.snapshot_count == r.1@.len(),
            final(self).store.snapshots@ == upsert_all(old(self).store.snapshots@, r.1@, 0),
            Self::snaps_wf(r.1@, final(self).store, now),
            r.0.skipped_events <= events@.len() + h1_events@.len() + h2_events@.len(),
            cycle_decomposes(
                r.1@,
                r.0.skipped_events,
                events@,
                h1_events@,
                h2_events@,
                now,
                old(self).config.enable_first_half,
                old(self).config.enable_second_half,
            ),
    {
        let (mut snaps, sk0) = self.process_events(events, now);
        let ghost s0 = snaps@;
        let ghost g0 = choose|gids: Seq<Option<u128>>|
            #[trigger] process_post(
                s0,
                sk0,
                events@,
                gids,
                now,
                self.store,
                old(self).game_cache.as_map(),
                self.game_cache.as_map(),
            );
        proof {
            assert(sk0 == skipped_before(g0, events@.len() as int));
            assert(sk0 <= events@.len());
        }
        let mut skipped = sk0;
        let ghost mut s1: Seq<OddsSnapshot> = Seq::empty();
        let ghost mut g1: Seq<Option<u128>> = Seq::empty();
        if self.config.enable_first_half {
            let ghost cpre = self.game_cache.as_map();
            let ghost spre = *self;
            let (mut h1_snaps, sk1) = self.process_events(h1_events, now);
            proof {
                s1 = h1_snaps@;
                g1 = choose|gids: Seq<Option<u128>>|
                    #[trigger] process_post(
                        h1_snaps@,
                        sk1,
                        h1_events@,
                        gids,
                        now,
                        self.store,
                        cpre,
                        self.game_cache.as_map(),
                    );
                assert(sk1 == skipped_before(g1, h1_events@.len() as int));
                assert(sk1 <= h1_events@.len());
            }
            let ghost snaps_pre = snaps@;
            snaps.append(&mut h1_snaps);
            proof {
                assert(snaps@ == snaps_pre + s1);
            }
            skipped = add_saturating(skipped, sk1);
        }
        let ghost mut s2: Seq<OddsSnapshot> = Seq::empty();
        let ghost mut g2: Seq<Option<u128>> = Seq::empty();
        if self.config.enable_second_half {
            let ghost cpre = self.game_cache.as_map();
            let (mut h2_snaps, sk2) = self.process_events(h2_events, now);
            proof {
                s2 = h2_snaps@;
                g2 = choose|gids: Seq<Option<u128>>|
                    #[trigger] process_post(
                        h2_snaps@,
                        sk2,
                        h2_events@,
                        gids,
                        now,
                        self.store,
                        cpre,
                        self.game_cache.as_map(),
                    );
                assert(sk2 == skipped_before(g2, h2_events@.len() as int));
                assert(sk2 <= h2_events@.len());
            }
            let ghost snaps_pre = snaps@;
            snaps.append(&mut h2_snaps);
            proof {
                assert(snaps@ == snaps_pre + s2);
            }
            skipped = add_saturating(skipped, sk2);
        }
        proof {
            assert(snaps@ =~= s0 + s1 + s2);
            // the batch survives the later half-set resolutions: game
            // ids only accumulate
            assert forall|t: int|
                0 <= t < snaps@.len() implies (#[trigger] snaps@[t].time) == now
                && self.store.has_game_id(snaps@[t].game_id) by {
                assert(snaps@[t].time == now);
            }
        }
        let ghost pre_store = self.store;
        self.store_snapshots(&snaps);
        proof {
            assert forall|t: int|
                0 <= t < snaps@.len() implies (#[trigger] snaps@[t].time) == now
                && self.store.has_game_id(snaps@[t].game_id) by {
                assert(snaps@[t].time == now);
                assert(pre_store.has_game_id(snaps@[t].game_id));
            }
            assert(Self::snaps_wf(snaps@, self.store, now));
        }
        let report = CycleReport { snapshot_count: snaps.len(), skipped_events: skipped };
        proof {
            assert(cycle_batches(
                snaps@,
                report.skipped_events,
                events@,
                h1_events@,
                h2_events@,
                s0,
                s1,
                s2,
                g0,
                g1,
                g2,
                now,
                old(self).config.enable_first_half,
                old(self).config.enable_second_half,
            ));
            assert(cycle_decomposes(
                snaps@,
                report.skipped_events,
                events@,
                h1_events@,
                h2_events@,
                now,
                old(self).config.enable_first_half,
                old(self).config.enable_second_half,
            ));
        }
        (report, snaps)
    }
}

/// `a + b`, saturating at the top of `usize`.
fn add_saturating(a: usize, b: usize) -> (r: usize)
    ensures
        r <= a + b,
        a + b <= usize::MAX ==> r == a + b,
        a + b > usize::MAX ==> r == usize::MAX,
{
    if a <= usize::MAX - b {
        a + b
    } else {
        usize::MAX
    }
}

} // verus!
