//! The identity store: teams with canonical names, append-only aliases
//! and audit records, games keyed by external id, and the odds snapshot
//! time series with upsert-on-conflict semantics. This models the
//! relational schema the pipeline commits to; an unverified shell can
//! mirror each operation onto an actual database.

use vstd::prelude::*;
use vstd::seq_lib::*;
use vstd::set_lib::*;

use crate::model::{same_snapshot_key, OddsSnapshot};
use crate::text::{chars_lex_lt, fuzzy_key, fuzzy_key_spec, lex_lt, str_to_chars};

verus! {

/// A team entity: a stable id and the single canonical display name.
pub struct Team {
    pub id: u128,
    pub canonical_name: String,
}

/// A recorded alternate spelling for a team, unique per (alias, source).
pub struct TeamAlias {
    pub team_id: u128,
    pub alias: String,
    pub source: String,
}

/// One append-only resolution audit record.
pub struct AuditRecord {
    pub input_name: String,
    pub resolved_name: Option<String>,
    pub source: String,
    pub context: String,
    pub has_ratings: bool,
    pub timestamp: u64,
}

/// The lifecycle state a stored game row carries.
#[derive(Clone, Copy, Debug, PartialEq, Eq, Structural)]
pub enum GameStatus {
    Scheduled,
}

/// A game row: unique external id, the two resolved team ids, and the
/// scheduled start in Unix seconds.
pub struct Game {
    pub id: u128,
    pub external_id: String,
    pub home_team_id: u128,
    pub away_team_id: u128,
    pub commence_time: u64,
    pub status: GameStatus,
}

/// The identity store state.
pub struct IdentityStore {
    pub teams: Vec<Team>,
    pub aliases: Vec<TeamAlias>,
    pub rated_team_ids: Vec<u128>,
    pub audit: Vec<AuditRecord>,
    pub games: Vec<Game>,
    pub snapshots: Vec<OddsSnapshot>,
}

impl IdentityStore {
    /// Whether some team carries the given id.
    pub open spec fn has_team_id(self, id: u128) -> bool {
        exists|i: int| 0 <= i < self.teams@.len() && self.teams@[i].id == id
    }

    /// Whether some team carries the given canonical name.
    pub open spec fn has_canonical(self, name: Seq<char>) -> bool {
        exists|i: int| 0 <= i < self.teams@.len() && self.teams@[i].canonical_name@ == name
    }

    /// Whether the team with the given id has ratings data.
    pub open spec fn is_rated_spec(self, id: u128) -> bool {
        self.rated_team_ids@.contains(id)
    }

    /// Whether an alias row with this (alias, source) pair exists.
    pub open spec fn alias_pair_exists(self, alias: Seq<char>, source: Seq<char>) -> bool {
        exists|i: int|
            0 <= i < self.aliases@.len() && self.aliases@[i].alias@ == alias
                && self.aliases@[i].source@ == source
    }

    /// Whether an alias row with this (alias, source) pair exists and is
    /// attached to the given team.
    pub open spec fn alias_row_exists(self, team_id: u128, alias: Seq<char>, source: Seq<char>) -> bool {
        exists|i: int|
            0 <= i < self.aliases@.len() && #[trigger] self.aliases@[i].team_id == team_id
                && self.aliases@[i].alias@ == alias && self.aliases@[i].source@ == source
    }

    /// Whether some game row carries the given external id.
    pub open spec fn has_external_id(self, ext: Seq<char>) -> bool {
        exists|i: int| 0 <= i < self.games@.len() && self.games@[i].external_id@ == ext
    }

    /// Whether some game row carries the given game id.
    pub open spec fn has_game_id(self, id: u128) -> bool {
        exists|i: int| 0 <= i < self.games@.len() && self.games@[i].id == id
    }

    /// The store invariant: team ids and canonical names are unique,
    /// (alias, source) pairs are unique, game ids and external ids are
    /// unique, every game pairs two distinct teams, and snapshot natural
    /// keys are unique.
    pub open spec fn wf(self) -> bool {
        (forall|i: int, j: int|
            0 <= i < j < self.teams@.len() ==> #[trigger] self.teams@[i].id
                != #[trigger] self.teams@[j].id && self.teams@[i].canonical_name@
                != self.teams@[j].canonical_name@) && (forall|i: int, j: int|
            0 <= i < j < self.aliases@.len() ==> !(#[trigger] self.aliases@[i].alias@
                == #[trigger] self.aliases@[j].alias@ && self.aliases@[i].source@
                == self.aliases@[j].source@)) && (forall|i: int, j: int|
            0 <= i < j < self.games@.len() ==> #[trigger] self.games@[i].id
                != #[trigger] self.games@[j].id && self.games@[i].external_id@
                != self.games@[j].external_id@) && (forall|i: int|
            0 <= i < self.games@.len() ==> #[trigger] self.games@[i].home_team_id
                != self.games@[i].away_team_id) && (forall|i: int, j: int|
            0 <= i < j < self.snapshots@.len() ==> !same_snapshot_key(
                #[trigger] self.snapshots@[i],
                #[trigger] self.snapshots@[j],
            ))
    }

    /// An empty store.
    pub fn new() -> (r: IdentityStore)
        ensures
            r.wf(),
            r.teams@.len() == 0,
            r.aliases@.len() == 0,
            r.rated_team_ids@.len() == 0,
            r.audit@.len() == 0,
            r.games@.len() == 0,
            r.snapshots@.len() == 0,
    {
        IdentityStore {
            teams: Vec::new(),
            aliases: Vec::new(),
            rated_team_ids: Vec::new(),
            audit: Vec::new(),
            games: Vec::new(),
            snapshots: Vec::new(),
        }
    }

    /// Decides whether a team with this id exists.
    pub fn contains_team_id(&self, id: u128) -> (r: bool)
        ensures
            r == self.has_team_id(id),
    {
        let mut i: usize = 0;
        while i < self.teams.len()
            invariant
                i <= self.teams@.len(),
                forall|j: int| 0 <= j < i ==> self.teams@[j].id != id,
            decreases self.teams@.len() - i,
        {
            if self.teams[i].id == id {
                return true;
            }
            i += 1;
        }
        false
    }

    /// Decides whether the team with this id carries ratings data.
    pub fn team_has_ratings(&self, id: u128) -> (r: bool)
        ensures
            r == self.is_rated_spec(id),
    {
        let mut i: usize = 0;
        while i < self.rated_team_ids.len()
            invariant
                i <= self.rated_team_ids@.len(),
                forall|j: int| 0 <= j < i ==> self.rated_team_ids@[j] != id,
            decreases self.rated_team_ids@.len() - i,
        {
            if self.rated_team_ids[i] == id {
                return true;
            }
            i += 1;
        }
        false
    }

    /// The canonical name of the team with this id, if one exists.
    pub fn canonical_name_of(&self, id: u128) -> (r: Option<String>)
        ensures
            match r {
                Option::Some(name) => exists|i: int|
                    0 <= i < self.teams@.len() && self.teams@[i].id == id
                        && #[trigger] self.teams@[i].canonical_name@ == name@,
                Option::None => !self.has_team_id(id),
            },
    {
        let mut i: usize = 0;
        while i < self.teams.len()
            invariant
                i <= self.teams@.len(),
                forall|j: int| 0 <= j < i ==> self.teams@[j].id != id,
            decreases self.teams@.len() - i,
        {
            if self.teams[i].id == id {
                let name = self.teams[i].canonical_name.clone();
                proof {
                    assert(self.teams@[i as int].id == id && self.teams@[i as int].canonical_name@
                        == name@);
                }
                return Option::Some(name);
            }
            i += 1;
        }
        Option::None
    }

    /// Appends one audit record; the trail is append-only.
    pub fn record_audit(&mut self, rec: AuditRecord)
        requires
            old(self).wf(),
        ensures
            final(self).wf(),
            final(self).audit@ == old(self).audit@ + seq![rec],
            final(self).teams == old(self).teams,
            final(self).aliases == old(self).aliases,
            final(self).rated_team_ids == old(self).rated_team_ids,
            final(self).games == old(self).games,
            final(self).snapshots == old(self).snapshots,
    {
        self.audit.push(rec);
        proof {
            assert(self.audit@ =~= old(self).audit@ + seq![rec]);
        }
    }

    /// Attaches an alias to a team; inserting a duplicate (alias,
    /// source) pair changes nothing.
    pub fn add_alias(&mut self, team_id: u128, alias: &str, source: &str)
        requires
            old(self).wf(),
        ensures
            final(self).wf(),
            final(self).teams == old(self).teams,
            final(self).rated_team_ids == old(self).rated_team_ids,
            final(self).audit == old(self).audit,
            final(self).games == old(self).games,
            final(self).snapshots == old(self).snapshots,
            old(self).alias_pair_exists(alias@, source@) ==> final(self).aliases
                == old(self).aliases,
            !old(self).alias_pair_exists(alias@, source@) ==> final(self).aliases@.len()
                == old(self).aliases@.len() + 1 && final(self).aliases@.subrange(
                0,
                old(self).aliases@.len() as int,
            ) == old(self).aliases@ && final(self).aliases@.last().team_id == team_id
                && final(self).aliases@.last().alias@ == alias@
                && final(self).aliases@.last().source@ == source@,
            final(self).alias_pair_exists(alias@, source@),
            !old(self).alias_pair_exists(alias@, source@) ==> final(self).alias_row_exists(
                team_id,
                alias@,
                source@,
            ),
    {
        let mut i: usize = 0;
        while i < self.aliases.len()
            invariant
                *self == *old(self),
                old(self).wf(),
                i <= self.aliases@.len(),
                forall|j: int|
                    0 <= j < i ==> !(#[trigger] self.aliases@[j].alias@ == alias@
                        && self.aliases@[j].source@ == source@),
            decreases self.aliases@.len() - i,
        {
            if crate::text::str_eq(self.aliases[i].alias.as_str(), alias) && crate::text::str_eq(
                self.aliases[i].source.as_str(),
                source,
            ) {
                proof {
                    assert(self.aliases@[i as int].alias@ == alias@ && self.aliases@[
                        i as int
                    ].source@ == source@);
                }
                return ;
            }
            i += 1;
        }
        let alias_own = crate::text::str_to_chars(alias);
        let source_own = crate::text::str_to_chars(source);
        let row = TeamAlias {
            team_id,
            alias: crate::text::chars_to_string(&alias_own),
            source: crate::text::chars_to_string(&source_own),
        };
        self.aliases.push(row);
        proof {
            assert(self.aliases@.subrange(0, old(self).aliases@.len() as int)
                =~= old(self).aliases@);
            assert(self.aliases@.last().alias@ == alias@);
        }
    }
}

/// An id that occurs nowhere in `ids`: the candidate when it is free,
/// otherwise the smallest free value in `0 ..= ids.len()`, which exists
/// by counting.
fn free_id(ids: &Vec<u128>, candidate: u128) -> (r: u128)
    ensures
        !ids@.contains(r),
{
    let mut taken = false;
    let mut i: usize = 0;
    while i < ids.len()
        invariant
            i <= ids@.len(),
            taken == exists|j: int| 0 <= j < i && ids@[j] == candidate,
        decreases ids@.len() - i,
    {
        if ids[i] == candidate {
            taken = true;
        }
        i += 1;
    }
    if !taken {
        return candidate;
    }
    let n = ids.len();
    let mut k: u128 = 0;
    while k <= n as u128
        invariant
            n == ids@.len(),
            n <= usize::MAX,
            k <= n as u128 + 1,
            forall|m: int| 0 <= m < k ==> ids@.contains(#[trigger] (m as u128)),
        decreases n as int + 1 - k,
    {
        let mut hit = false;
        let mut i2: usize = 0;
        while i2 < n
            invariant
                n == ids@.len(),
                i2 <= n,
                hit == exists|j: int| 0 <= j < i2 && ids@[j] == k,
            decreases n - i2,
        {
            if ids[i2] == k {
                hit = true;
            }
            i2 += 1;
        }
        if !hit {
            return k;
        }
        k += 1;
    }
    proof {
        lemma_small_free_value(ids@);
        let m = choose|m: int| 0 <= m <= ids@.len() && !ids@.contains(#[trigger] (m as u128));
        assert(ids@.contains(m as u128));
        assert(false);
    }
    0
}

/// Among the values `0 ..= ids.len()` at least one is missing from
/// `ids`: a sequence of that length cannot contain them all.
proof fn lemma_small_free_value(ids: Seq<u128>)
    requires
        ids.len() <= usize::MAX,
    ensures
        exists|m: int| 0 <= m <= ids.len() && !ids.contains(#[trigger] (m as u128)),
{
    let n = ids.len() as int;
    if forall|m: int| 0 <= m <= n ==> ids.contains(#[trigger] (m as u128)) {
        let ints = ids.map_values(|id: u128| id as int);
        assert forall|m: int| 0 <= m <= n implies #[trigger] ints.to_set().contains(m) by {
            assert(ids.contains(m as u128));
            let j = choose|j: int| 0 <= j < ids.len() && ids[j] == m as u128;
            assert(ints[j] == m);
            assert(ints.contains(m));
        }
        assert(set_int_range(0, n + 1) <= ints.to_set()) by {
            assert forall|m: int| set_int_range(0, n + 1).contains(m) implies ints.to_set()
                .contains(m) by {
                assert(0 <= m <= n);
            }
        }
        lemma_int_range(0, n + 1);
        ints.lemma_cardinality_of_set();
        lemma_len_subset(set_int_range(0, n + 1), ints.to_set());
        assert(n + 1 <= ints.to_set().len());
        assert(ints.to_set().len() <= ints.len());
        assert(false);
    }
}


impl IdentityStore {
    /// Creates a team under this canonical name, or returns the existing
    /// team's id when the name is already taken: creation is idempotent
    /// per canonical name and never hands out a dangling id. The
    /// caller's `candidate_id` is used when free; a conflicting one is
    /// replaced by a fresh id.
    pub fn create_team(&mut self, canonical_name: &str, candidate_id: u128) -> (r: u128)
        requires
            old(self).wf(),
        ensures
            final(self).wf(),
            final(self).aliases == old(self).aliases,
            final(self).rated_team_ids == old(self).rated_team_ids,
            final(self).audit == old(self).audit,
            final(self).games == old(self).games,
            final(self).snapshots == old(self).snapshots,
            old(self).has_canonical(canonical_name@) ==> final(self).teams == old(self).teams
                && exists|i: int|
                0 <= i < old(self).teams@.len() && #[trigger] old(self).teams@[i].canonical_name@
                    == canonical_name@ && old(self).teams@[i].id == r,
            !old(self).has_canonical(canonical_name@) ==> !old(self).has_team_id(r)
                && final(self).teams@.len() == old(self).teams@.len() + 1
                && final(self).teams@.subrange(0, old(self).teams@.len() as int)
                == old(self).teams@ && final(self).teams@.last().id == r
                && final(self).teams@.last().canonical_name@ == canonical_name@,
            final(self).has_team_id(r),
    {
        let mut i: usize = 0;
        while i < self.teams.len()
            invariant
                *self == *old(self),
                old(self).wf(),
                i <= self.teams@.len(),
                forall|j: int| 0 <= j < i ==> self.teams@[j].canonical_name@ != canonical_name@,
            decreases self.teams@.len() - i,
        {
            if crate::text::str_eq(self.teams[i].canonical_name.as_str(), canonical_name) {
                let id = self.teams[i].id;
                proof {
                    assert(self.teams@[i as int].canonical_name@ == canonical_name@
                        && self.teams@[i as int].id == id);
                }
                return id;
            }
            i += 1;
        }
        let mut ids: Vec<u128> = Vec::new();
        let mut k: usize = 0;
        while k < self.teams.len()
            invariant
                *self == *old(self),
                old(self).wf(),
                forall|j: int| 0 <= j < self.teams@.len() ==> self.teams@[j].canonical_name@
                    != canonical_name@,
                k <= self.teams@.len(),
                ids@.len() == k,
                forall|j: int| 0 <= j < k ==> ids@[j] == self.teams@[j].id,
            decreases self.teams@.len() - k,
        {
            ids.push(self.teams[k].id);
            k += 1;
        }
        let fresh = free_id(&ids, candidate_id);
        proof {
            assert forall|j: int| 0 <= j < self.teams@.len() implies self.teams@[j].id
                != fresh by {
                assert(ids@[j] == self.teams@[j].id);
                if self.teams@[j].id == fresh {
                    assert(ids@.contains(fresh));
                }
            }
        }
        let name_chars = str_to_chars(canonical_name);
        let row = Team { id: fresh, canonical_name: crate::text::chars_to_string(&name_chars) };
        self.teams.push(row);
        proof {
            assert(self.teams@.subrange(0, old(self).teams@.len() as int) =~= old(self).teams@);
            assert(final(self).teams@.last().canonical_name@ == canonical_name@);
        }
        fresh
    }

    /// Whether team `i` matches a fuzzy lookup key, through its
    /// canonical name or any of its aliases.
    pub open spec fn team_matches_key(self, i: int, key: Seq<char>) -> bool {
        fuzzy_key_spec(self.teams@[i].canonical_name@) == key || exists|j: int|
            0 <= j < self.aliases@.len() && #[trigger] self.aliases@[j].team_id
                == self.teams@[i].id && fuzzy_key_spec(self.aliases@[j].alias@) == key
    }

    /// The preference order of fuzzy matches: a rated team beats an
    /// unrated one, ties break by lexically smaller canonical name.
    pub open spec fn better_match(self, i: int, p: int) -> bool {
        let ri = self.is_rated_spec(self.teams@[i].id);
        let rp = self.is_rated_spec(self.teams@[p].id);
        (ri && !rp) || (ri == rp && lex_lt(
            self.teams@[i].canonical_name@,
            self.teams@[p].canonical_name@,
        ))
    }

    /// The preferred matching team index among `teams[..k]`, if any
    /// matches the key.
    pub open spec fn fuzzy_best_rec(self, key: Seq<char>, k: int) -> Option<int>
        decreases k,
    {
        if k <= 0 || k > self.teams@.len() {
            Option::None
        } else {
            let prev = self.fuzzy_best_rec(key, k - 1);
            if self.team_matches_key(k - 1, key) {
                match prev {
                    Option::None => Option::Some(k - 1),
                    Option::Some(p) => if self.better_match(k - 1, p) {
                        Option::Some(k - 1)
                    } else {
                        Option::Some(p)
                    },
                }
            } else {
                prev
            }
        }
    }

    /// The preferred team matching the key, over the whole store.
    pub open spec fn fuzzy_best(self, key: Seq<char>) -> Option<int> {
        self.fuzzy_best_rec(key, self.teams@.len() as int)
    }

    /// A fuzzy-best index always lies within the team table.
    pub proof fn lemma_fuzzy_best_range(self, key: Seq<char>, k: int)
        requires
            0 <= k <= self.teams@.len(),
        ensures
            self.fuzzy_best_rec(key, k) is Some ==> 0 <= self.fuzzy_best_rec(key, k)->Some_0 < k,
        decreases k,
    {
        if k > 0 {
            self.lemma_fuzzy_best_range(key, k - 1);
        }
    }

    fn team_matches_key_exec(&self, i: usize, key: &String) -> (r: bool)
        requires
            i < self.teams@.len(),
        ensures
            r == self.team_matches_key(i as int, key@),
    {
        let ck = fuzzy_key(self.teams[i].canonical_name.as_str());
        if ck.eq(key) {
            return true;
        }
        let tid = self.teams[i].id;
        let mut j: usize = 0;
        while j < self.aliases.len()
            invariant
                i < self.teams@.len(),
                tid == self.teams@[i as int].id,
                j <= self.aliases@.len(),
                forall|t: int|
                    0 <= t < j ==> !(#[trigger] self.aliases@[t].team_id == tid && fuzzy_key_spec(
                        self.aliases@[t].alias@,
                    ) == key@),
            decreases self.aliases@.len() - j,
        {
            if self.aliases[j].team_id == tid {
                let ak = fuzzy_key(self.aliases[j].alias.as_str());
                if ak.eq(key) {
                    return true;
                }
            }
            j += 1;
        }
        false
    }

    /// Fuzzy, punctuation- and case-insensitive resolution of a raw
    /// input against canonical names and aliases, preferring rated teams
    /// and breaking ties by canonical-name order. Returns the team id,
    /// its canonical name and whether it carries ratings.
    pub fn resolve_team_fuzzy(&self, input: &str) -> (r: Option<(u128, String, bool)>)
        ensures
            match r {
                Option::Some(t) => {
                    &&& self.fuzzy_best(fuzzy_key_spec(input@)) is Some
                    &&& {
                        let i = self.fuzzy_best(fuzzy_key_spec(input@))->Some_0;
                        0 <= i < self.teams@.len() && t.0 == self.teams@[i].id && t.1@
                            == self.teams@[i].canonical_name@ && t.2 == self.is_rated_spec(t.0)
                    }
                },
                Option::None => self.fuzzy_best(fuzzy_key_spec(input@)) is None,
            },
    {
        proof {
            self.lemma_fuzzy_best_range(fuzzy_key_spec(input@), self.teams@.len() as int);
        }
        let key = fuzzy_key(input);
        let n = self.teams.len();
        let mut best: Option<usize> = Option::None;
        let mut i: usize = 0;
        while i < n
            invariant
                n == self.teams@.len(),
                i <= n,
                match best {
                    Option::Some(b) => b < i && self.fuzzy_best_rec(key@, i as int)
                        == Option::Some(b as int),
                    Option::None => self.fuzzy_best_rec(key@, i as int) is None,
                },
            decreases n - i,
        {
            if self.team_matches_key_exec(i, &key) {
                match best {
                    Option::None => {
                        best = Option::Some(i);
                    },
                    Option::Some(b) => {
                        let ri = self.team_has_ratings(self.teams[i].id);
                        let rb = self.team_has_ratings(self.teams[b].id);
                        let li = str_to_chars(self.teams[i].canonical_name.as_str());
                        let lb = str_to_chars(self.teams[b].canonical_name.as_str());
                        if (ri && !rb) || (ri == rb && chars_lex_lt(&li, &lb)) {
                            best = Option::Some(i);
                        }
                    },
                }
            }
            i += 1;
        }
        match best {
            Option::None => Option::None,
            Option::Some(b) => {
                let id = self.teams[b].id;
                let name = self.teams[b].canonical_name.clone();
                let rated = self.team_has_ratings(id);
                Option::Some((id, name, rated))
            },
        }
    }
}


/// Home/away distinctness: every game row a well-formed store holds
/// pairs two distinct entities — violating inputs are rejected before
/// any write, so no stored game ever equates its sides.
pub proof fn lemma_home_away_distinct(store: IdentityStore, i: int)
    requires
        store.wf(),
        0 <= i < store.games@.len(),
    ensures
        store.games@[i].home_team_id != store.games@[i].away_team_id,
{
}

/// Rows with `s` upserted on its natural key: the first row sharing the
/// key is overwritten, otherwise `s` is appended.
pub open spec fn upsert_rows(rows: Seq<OddsSnapshot>, s: OddsSnapshot) -> Seq<OddsSnapshot>
    decreases rows.len(),
{
    if rows.len() == 0 {
        seq![s]
    } else if same_snapshot_key(rows[0], s) {
        seq![s] + rows.drop_first()
    } else {
        seq![rows[0]] + upsert_rows(rows.drop_first(), s)
    }
}

/// All of `snaps` upserted in order.
pub open spec fn upsert_all(rows: Seq<OddsSnapshot>, snaps: Seq<OddsSnapshot>, k: int) -> Seq<
    OddsSnapshot,
>
    decreases snaps.len() - k,
{
    if k < 0 || k >= snaps.len() {
        rows
    } else {
        upsert_all(upsert_rows(rows, snaps[k]), snaps, k + 1)
    }
}

proof fn lemma_upsert_rows_found(rows: Seq<OddsSnapshot>, s: OddsSnapshot, i: int)
    requires
        0 <= i < rows.len(),
        same_snapshot_key(rows[i], s),
        forall|j: int| 0 <= j < i ==> !same_snapshot_key(#[trigger] rows[j], s),
    ensures
        upsert_rows(rows, s) == rows.update(i, s),
    decreases rows.len(),
{
    if i == 0 {
        assert(upsert_rows(rows, s) =~= rows.update(0, s));
    } else {
        let rest = rows.drop_first();
        assert(forall|j: int| 0 <= j < i - 1 ==> #[trigger] rest[j] == rows[j + 1]);
        lemma_upsert_rows_found(rest, s, i - 1);
        assert(upsert_rows(rows, s) =~= rows.update(i, s));
    }
}

proof fn lemma_upsert_rows_missing(rows: Seq<OddsSnapshot>, s: OddsSnapshot)
    requires
        forall|j: int| 0 <= j < rows.len() ==> !same_snapshot_key(#[trigger] rows[j], s),
    ensures
        upsert_rows(rows, s) == rows.push(s),
    decreases rows.len(),
{
    if rows.len() == 0 {
        assert(upsert_rows(rows, s) =~= rows.push(s));
    } else {
        let rest = rows.drop_first();
        assert(forall|j: int| 0 <= j < rest.len() ==> #[trigger] rest[j] == rows[j + 1]);
        lemma_upsert_rows_missing(rest, s);
        assert(upsert_rows(rows, s) =~= rows.push(s));
    }
}

/// Upserting preserves uniqueness of natural keys and the invariant of
/// every other row.
proof fn lemma_upsert_rows_wf(rows: Seq<OddsSnapshot>, s: OddsSnapshot)
    requires
        forall|i: int, j: int|
            0 <= i < j < rows.len() ==> !same_snapshot_key(#[trigger] rows[i], #[trigger] rows[j]),
    ensures
        forall|i: int, j: int|
            0 <= i < j < upsert_rows(rows, s).len() ==> !same_snapshot_key(
                #[trigger] upsert_rows(rows, s)[i],
                #[trigger] upsert_rows(rows, s)[j],
            ),
    decreases rows.len(),
{
    if exists|i: int| 0 <= i < rows.len() && same_snapshot_key(#[trigger] rows[i], s) {
        let i = choose|i: int|
            0 <= i < rows.len() && same_snapshot_key(#[trigger] rows[i], s) && forall|j: int|
                0 <= j < i ==> !same_snapshot_key(#[trigger] rows[j], s);
        lemma_first_key_index(rows, s);
        lemma_upsert_rows_found(rows, s, i);
        let out = rows.update(i, s);
        assert forall|a: int, b: int| 0 <= a < b < out.len() implies !same_snapshot_key(
            #[trigger] out[a],
            #[trigger] out[b],
        ) by {
            if a != i && b != i {
                assert(out[a] == rows[a] && out[b] == rows[b]);
            } else if a == i {
                assert(out[b] == rows[b]);
                if same_snapshot_key(out[a], out[b]) {
                    assert(same_snapshot_key(rows[i], rows[b]));
                }
            } else {
                assert(out[a] == rows[a]);
                if same_snapshot_key(out[a], out[b]) {
                    assert(same_snapshot_key(rows[a], rows[i]));
                }
            }
        }
    } else {
        lemma_upsert_rows_missing(rows, s);
        let out = rows.push(s);
        assert forall|a: int, b: int| 0 <= a < b < out.len() implies !same_snapshot_key(
            #[trigger] out[a],
            #[trigger] out[b],
        ) by {
            if b < rows.len() {
                assert(out[a] == rows[a] && out[b] == rows[b]);
            } else {
                assert(out[a] == rows[a] && out[b] == s);
            }
        }
    }
}

/// When some row shares the key of `s`, a first such row exists.
proof fn lemma_first_key_index(rows: Seq<OddsSnapshot>, s: OddsSnapshot)
    requires
        exists|i: int| 0 <= i < rows.len() && same_snapshot_key(#[trigger] rows[i], s),
    ensures
        exists|i: int|
            0 <= i < rows.len() && same_snapshot_key(#[trigger] rows[i], s) && forall|j: int|
                0 <= j < i ==> !same_snapshot_key(#[trigger] rows[j], s),
    decreases rows.len(),
{
    if same_snapshot_key(rows[0], s) {
        assert(0 <= 0 < rows.len() && same_snapshot_key(rows[0], s) && forall|j: int|
            0 <= j < 0 ==> !same_snapshot_key(#[trigger] rows[j], s));
    } else {
        let rest = rows.drop_first();
        let w = choose|i: int| 0 <= i < rows.len() && same_snapshot_key(#[trigger] rows[i], s);
        assert(rest[w - 1] == rows[w]);
        lemma_first_key_index(rest, s);
        let i = choose|i: int|
            0 <= i < rest.len() && same_snapshot_key(#[trigger] rest[i], s) && forall|j: int|
                0 <= j < i ==> !same_snapshot_key(#[trigger] rest[j], s);
        assert(rows[i + 1] == rest[i]);
        assert forall|j: int| 0 <= j < i + 1 implies !same_snapshot_key(
            #[trigger] rows[j],
            s,
        ) by {
            if j > 0 {
                assert(rest[j - 1] == rows[j]);
            }
        }
    }
}

/// Writing the same natural key twice converges: the second write alone
/// decides the stored row, however the first one went.
pub proof fn lemma_snapshot_upsert_converges(
    rows: Seq<OddsSnapshot>,
    a: OddsSnapshot,
    b: OddsSnapshot,
)
    requires
        same_snapshot_key(a, b),
    ensures
        upsert_rows(upsert_rows(rows, a), b) == upsert_rows(rows, b),
    decreases rows.len(),
{
    if rows.len() == 0 {
        assert(upsert_rows(upsert_rows(rows, a), b) =~= upsert_rows(rows, b));
    } else if same_snapshot_key(rows[0], a) {
        assert(upsert_rows(rows, a) == seq![a] + rows.drop_first());
        assert((seq![a] + rows.drop_first())[0] == a);
        assert(same_snapshot_key((seq![a] + rows.drop_first())[0], b));
        assert((seq![a] + rows.drop_first()).drop_first() =~= rows.drop_first());
        assert(upsert_rows(upsert_rows(rows, a), b) =~= upsert_rows(rows, b));
    } else {
        let rest = rows.drop_first();
        lemma_snapshot_upsert_converges(rest, a, b);
        assert(upsert_rows(rows, a) == seq![rows[0]] + upsert_rows(rest, a));
        assert((seq![rows[0]] + upsert_rows(rest, a))[0] == rows[0]);
        assert(!same_snapshot_key(rows[0], b));
        assert((seq![rows[0]] + upsert_rows(rest, a)).drop_first() =~= upsert_rows(rest, a));
        assert(upsert_rows(upsert_rows(rows, a), b) =~= upsert_rows(rows, b));
    }
}

impl IdentityStore {
    /// Upserts one snapshot on its natural key.
    pub fn upsert_snapshot(&mut self, s: &OddsSnapshot)
        requires
            old(self).wf(),
        ensures
            final(self).wf(),
            final(self).teams == old(self).teams,
            final(self).aliases == old(self).aliases,
            final(self).rated_team_ids == old(self).rated_team_ids,
            final(self).audit == old(self).audit,
            final(self).games == old(self).games,
            final(self).snapshots@ == upsert_rows(old(self).snapshots@, *s),
    {
        let n = self.snapshots.len();
        let mut i: usize = 0;
        while i < n
            invariant
                *self == *old(self),
                old(self).wf(),
                n == self.snapshots@.len(),
                i <= n,
                forall|j: int|
                    0 <= j < i ==> !same_snapshot_key(#[trigger] self.snapshots@[j], *s),
            decreases n - i,
        {
            let row = &self.snapshots[i];
            let key_match = row.time == s.time && row.game_id == s.game_id && crate::text::str_eq(
                row.bookmaker.as_str(),
                s.bookmaker.as_str(),
            ) && row.market_type == s.market_type && row.period == s.period;
            if key_match {
                proof {
                    lemma_upsert_rows_found(self.snapshots@, *s, i as int);
                    lemma_upsert_rows_wf(self.snapshots@, *s);
                }
                self.snapshots[i] = s.duplicate();
                return ;
            }
            i += 1;
        }
        proof {
            lemma_upsert_rows_missing(self.snapshots@, *s);
            lemma_upsert_rows_wf(self.snapshots@, *s);
        }
        self.snapshots.push(s.duplicate());
    }

    /// Persists a batch of snapshots, upserting each in order; within
    /// the store model the batch is one atomic step.
    pub fn store_snapshots(&mut self, snaps: &Vec<OddsSnapshot>)
        requires
            old(self).wf(),
        ensures
            final(self).wf(),
            final(self).teams == old(self).teams,
            final(self).aliases == old(self).aliases,
            final(self).rated_team_ids == old(self).rated_team_ids,
            final(self).audit == old(self).audit,
            final(self).games == old(self).games,
            final(self).snapshots@ == upsert_all(old(self).snapshots@, snaps@, 0),
    {
        let mut k: usize = 0;
        while k < snaps.len()
            invariant
                self.wf(),
                self.teams == old(self).teams,
                self.aliases == old(self).aliases,
                self.rated_team_ids == old(self).rated_team_ids,
                self.audit == old(self).audit,
                self.games == old(self).games,
                k <= snaps@.len(),
                upsert_all(self.snapshots@, snaps@, k as int) == upsert_all(
                    old(self).snapshots@,
                    snaps@,
                    0,
                ),
            decreases snaps@.len() - k,
        {
            self.upsert_snapshot(&snaps[k]);
            k += 1;
        }
    }

    /// Upserts a game row keyed on its external id: on conflict the team
    /// associations and commence time are overwritten and the status is
    /// reset, so later resolver improvements heal old rows; the row id
    /// is kept. Returns the id of the stored row.
    pub fn upsert_game(
        &mut self,
        external_id: &str,
        home_team_id: u128,
        away_team_id: u128,
        commence_time: u64,
        candidate_id: u128,
    ) -> (r: u128)
        requires
            old(self).wf(),
            home_team_id != away_team_id,
        ensures
            final(self).wf(),
            final(self).teams == old(self).teams,
            final(self).aliases == old(self).aliases,
            final(self).rated_team_ids == old(self).rated_team_ids,
            final(self).audit == old(self).audit,
            final(self).snapshots == old(self).snapshots,
            old(self).has_external_id(external_id@) ==> exists|i: int|
                0 <= i < old(self).games@.len() && #[trigger] old(self).games@[i].external_id@
                    == external_id@ && r == old(self).games@[i].id && final(self).games@ == old(self).games@.update(
                    i,
                    Game {
                        id: old(self).games@[i].id,
                        external_id: old(self).games@[i].external_id,
                        home_team_id,
                        away_team_id,
                        commence_time,
                        status: GameStatus::Scheduled,
                    },
                ),
            !old(self).has_external_id(external_id@) ==> !old(self).has_game_id(r)
                && final(self).games@.len() == old(self).games@.len() + 1
                && final(self).games@.subrange(0, old(self).games@.len() as int)
                == old(self).games@ && final(self).games@.last().id == r
                && final(self).games@.last().external_id@ == external_id@
                && final(self).games@.last().home_team_id == home_team_id
                && final(self).games@.last().away_team_id == away_team_id
                && final(self).games@.last().commence_time == commence_time
                && final(self).games@.last().status == GameStatus::Scheduled,
            final(self).has_external_id(external_id@),
    {
        let n = self.games.len();
        let mut i: usize = 0;
        while i < n
            invariant
                *self == *old(self),
                old(self).wf(),
                home_team_id != away_team_id,
                n == self.games@.len(),
                i <= n,
                forall|j: int| 0 <= j < i ==> self.games@[j].external_id@ != external_id@,
            decreases n - i,
        {
            if crate::text::str_eq(self.games[i].external_id.as_str(), external_id) {
                let id = self.games[i].id;
                let ext = self.games[i].external_id.clone();
                let row = Game {
                    id,
                    external_id: ext,
                    home_team_id,
                    away_team_id,
                    commence_time,
                    status: GameStatus::Scheduled,
                };
                proof {
                    assert(self.games@[i as int].external_id@ == external_id@);
                }
                self.games[i] = row;
                proof {
                    assert(final(self).games@[i as int].external_id@ == external_id@);
                    assert forall|a: int, b: int|
                        0 <= a < b < final(self).games@.len() implies #[trigger] final(self).games@[a].id != #[trigger] final(self).games@[b].id && final(self).games@[a].external_id@ != final(self).games@[b].external_id@ by {
                        assert(old(self).games@[a].id != old(self).games@[b].id);
                        assert(final(self).games@[a].id == old(self).games@[a].id);
                        assert(final(self).games@[b].id == old(self).games@[b].id);
                        assert(final(self).games@[a].external_id@ == old(self).games@[a].external_id@);
                        assert(final(self).games@[b].external_id@ == old(self).games@[b].external_id@);
                    }
                }
                return id;
            }
            i += 1;
        }
        let mut ids: Vec<u128> = Vec::new();
        let mut k: usize = 0;
        while k < n
            invariant
                *self == *old(self),
                old(self).wf(),
                home_team_id != away_team_id,
                forall|j: int| 0 <= j < self.games@.len() ==> self.games@[j].external_id@
                    != external_id@,
                n == self.games@.len(),
                k <= n,
                ids@.len() == k,
                forall|j: int| 0 <= j < k ==> ids@[j] == self.games@[j].id,
            decreases n - k,
        {
            ids.push(self.games[k].id);
            k += 1;
        }
        let fresh = free_id(&ids, candidate_id);
        proof {
            assert forall|j: int| 0 <= j < self.games@.len() implies self.games@[j].id
                != fresh by {
                assert(ids@[j] == self.games@[j].id);
                if self.games@[j].id == fresh {
                    assert(ids@.contains(fresh));
                }
            }
        }
        let ext_chars = str_to_chars(external_id);
        let row = Game {
            id: fresh,
            external_id: crate::text::chars_to_string(&ext_chars),
            home_team_id,
            away_team_id,
            commence_time,
            status: GameStatus::Scheduled,
        };
        self.games.push(row);
        proof {
            assert(self.games@.subrange(0, old(self).games@.len() as int) =~= old(self).games@);
            assert(final(self).games@.last().external_id@ == external_id@);
        }
        fresh
    }
}

} // verus!
