//! The identity cache: a get-or-create map from an external event id to
//! the resolved game id. The contract of `get_or_insert_with` captures
//! the double-checked-lock discipline in its serialized form: the
//! factory is consulted only on a miss, its result is memoized before
//! anyone else can observe the entry, and a failure leaves no entry
//! behind. An unverified shell serializes concurrent callers through a
//! lock around exactly this operation.

use vstd::prelude::*;

use crate::text::{str_eq, str_to_chars};

verus! {

/// One memoized resolution.
pub struct CacheEntry {
    pub external_id: String,
    pub game_id: u128,
}

/// The identity cache.
pub struct GameCache {
    pub entries: Vec<CacheEntry>,
}

/// The id memoized for `k` in `entries[i..]`, if any: the first entry
/// for the key decides.
pub open spec fn lookup_from(entries: Seq<CacheEntry>, i: int, k: Seq<char>) -> Option<u128>
    decreases entries.len() - i,
{
    if i < 0 || i >= entries.len() {
        Option::None
    } else if entries[i].external_id@ == k {
        Option::Some(entries[i].game_id)
    } else {
        lookup_from(entries, i + 1, k)
    }
}

/// Lookup only reads entries from `j` on, so sequences that agree there
/// agree on the result.
proof fn lemma_lookup_agrees(a: Seq<CacheEntry>, b: Seq<CacheEntry>, j: int, k: Seq<char>)
    requires
        a.len() == b.len(),
        forall|t: int| j <= t < a.len() ==> a[t] == b[t],
    ensures
        lookup_from(a, j, k) == lookup_from(b, j, k),
    decreases a.len() - j,
{
    if j < 0 || j >= a.len() {
    } else {
        lemma_lookup_agrees(a, b, j + 1, k);
    }
}

proof fn lemma_lookup_after_update(
    entries: Seq<CacheEntry>,
    i: int,
    e: CacheEntry,
    k2: Seq<char>,
    j: int,
)
    requires
        0 <= j <= i < entries.len(),
        forall|t: int| j <= t < i ==> entries[t].external_id@ != e.external_id@,
        entries[i].external_id@ == e.external_id@,
    ensures
        lookup_from(entries.update(i, e), j, k2) == if k2 == e.external_id@ {
            Option::Some(e.game_id)
        } else {
            lookup_from(entries, j, k2)
        },
    decreases i - j,
{
    let up = entries.update(i, e);
    if j == i {
        if k2 == e.external_id@ {
        } else {
            assert(up[j].external_id@ != k2);
            assert(entries[j].external_id@ != k2);
            lemma_lookup_agrees(up, entries, j + 1, k2);
        }
    } else {
        assert(up[j] == entries[j]);
        lemma_lookup_after_update(entries, i, e, k2, j + 1);
    }
}

proof fn lemma_lookup_none(entries: Seq<CacheEntry>, j: int, k: Seq<char>)
    requires
        forall|t: int| j <= t < entries.len() ==> entries[t].external_id@ != k,
    ensures
        lookup_from(entries, j, k) is None,
    decreases entries.len() - j,
{
    if j < 0 || j >= entries.len() {
    } else {
        lemma_lookup_none(entries, j + 1, k);
    }
}

proof fn lemma_lookup_after_push(entries: Seq<CacheEntry>, e: CacheEntry, k2: Seq<char>, j: int)
    requires
        0 <= j <= entries.len(),
    ensures
        lookup_from(entries.push(e), j, k2) == match lookup_from(entries, j, k2) {
            Option::Some(v) => Option::Some(v),
            Option::None => if k2 == e.external_id@ {
                Option::Some(e.game_id)
            } else {
                Option::None
            },
        },
    decreases entries.len() - j,
{
    let up = entries.push(e);
    if j == entries.len() {
        assert(up[j] == e);
    } else {
        assert(up[j] == entries[j]);
        lemma_lookup_after_push(entries, e, k2, j + 1);
    }
}

impl GameCache {
    /// No two entries share a key, so the entry count is exactly the
    /// size of the represented map (`lemma_cache_size`).
    pub open spec fn wf(self) -> bool {
        forall|i: int, j: int|
            0 <= i < j < self.entries@.len() ==> #[trigger] self.entries@[i].external_id@
                != #[trigger] self.entries@[j].external_id@
    }

    /// The map this cache represents.
    pub open spec fn as_map(self) -> Map<Seq<char>, u128> {
        Map::new(
            |k: Seq<char>| lookup_from(self.entries@, 0, k) is Some,
            |k: Seq<char>| lookup_from(self.entries@, 0, k)->Some_0,
        )
    }

    /// An empty cache.
    pub fn new() -> (r: GameCache)
        ensures
            r.wf(),
            r.as_map() == Map::<Seq<char>, u128>::empty(),
    {
        let r = GameCache { entries: Vec::new() };
        proof {
            assert(r.as_map() =~= Map::<Seq<char>, u128>::empty());
        }
        r
    }

    /// The memoized id for an external id, if present.
    pub fn get(&self, external_id: &str) -> (r: Option<u128>)
        ensures
            match r {
                Option::Some(id) => self.as_map().contains_key(external_id@) && self.as_map()[
                    external_id@
                ] == id,
                Option::None => !self.as_map().contains_key(external_id@),
            },
    {
        let n = self.entries.len();
        let mut i: usize = 0;
        while i < n
            invariant
                n == self.entries@.len(),
                i <= n,
                lookup_from(self.entries@, 0, external_id@) == lookup_from(
                    self.entries@,
                    i as int,
                    external_id@,
                ),
            decreases n - i,
        {
            if str_eq(self.entries[i].external_id.as_str(), external_id) {
                return Option::Some(self.entries[i].game_id);
            }
            i += 1;
        }
        Option::None
    }

    /// Memoizes an id for an external id, overwriting any earlier entry.
    pub fn insert(&mut self, external_id: String, game_id: u128)
        ensures
            final(self).as_map() == old(self).as_map().insert(external_id@, game_id),
            old(self).wf() ==> final(self).wf(),
    {
        let n = self.entries.len();
        let mut i: usize = 0;
        while i < n
            invariant
                *self == *old(self),
                n == self.entries@.len(),
                i <= n,
                forall|t: int| 0 <= t < i ==> self.entries@[t].external_id@ != external_id@,
            decreases n - i,
        {
            if str_eq(self.entries[i].external_id.as_str(), external_id.as_str()) {
                let e = CacheEntry { external_id, game_id };
                proof {
                    assert(self.entries@[i as int].external_id@ == e.external_id@);
                }
                self.entries[i] = e;
                proof {
                    assert forall|k2: Seq<char>|
                        lookup_from(final(self).entries@, 0, k2) == (if k2 == e.external_id@ {
                            Option::Some(e.game_id)
                        } else {
                            lookup_from(old(self).entries@, 0, k2)
                        }) by {
                        lemma_lookup_after_update(old(self).entries@, i as int, e, k2, 0);
                    }
                    assert(final(self).as_map() =~= old(self).as_map().insert(
                        e.external_id@,
                        game_id,
                    ));
                }
                return ;
            }
            i += 1;
        }
        let e = CacheEntry { external_id, game_id };
        self.entries.push(e);
        proof {
            assert forall|k2: Seq<char>|
                lookup_from(final(self).entries@, 0, k2) == (match lookup_from(
                    old(self).entries@,
                    0,
                    k2,
                ) {
                    Option::Some(v) => Option::Some(v),
                    Option::None => if k2 == e.external_id@ {
                        Option::Some(e.game_id)
                    } else {
                        Option::None
                    },
                }) by {
                lemma_lookup_after_push(old(self).entries@, e, k2, 0);
            }
            lemma_lookup_none(old(self).entries@, 0, e.external_id@);
            assert(lookup_from(old(self).entries@, 0, e.external_id@) is None);
            assert(final(self).as_map() =~= old(self).as_map().insert(e.external_id@, game_id));
        }
    }

    /// Get-or-create: a hit returns the memoized id untouched; only on a
    /// miss is the factory consulted, and its successful result is
    /// memoized before the call returns. A factory failure leaves no
    /// entry, so a later call retries.
    pub fn get_or_insert_with<E, F: FnOnce() -> Result<u128, E>>(
        &mut self,
        external_id: &str,
        factory: F,
    ) -> (r: Result<u128, E>)
        requires
            call_requires(factory, ()),
        ensures
            old(self).as_map().contains_key(external_id@) ==> final(self).as_map() == old(
                self,
            ).as_map() && r == Result::<u128, E>::Ok(old(self).as_map()[external_id@]),
            !old(self).as_map().contains_key(external_id@) ==> call_ensures(factory, (), r)
                && (match r {
                Result::Ok(id) => final(self).as_map() == old(self).as_map().insert(
                    external_id@,
                    id,
                ),
                Result::Err(_) => final(self).as_map() == old(self).as_map(),
            }),
    {
        match self.get(external_id) {
            Option::Some(id) => Result::Ok(id),
            Option::None => {
                let out = factory();
                match out {
                    Result::Ok(id) => {
                        let key_chars = str_to_chars(external_id);
                        let key = crate::text::chars_to_string(&key_chars);
                        self.insert(key, id);
                        Result::Ok(id)
                    },
                    Result::Err(e) => Result::Err(e),
                }
            },
        }
    }

    /// Coarse bounded eviction: once the cache has grown past
    /// `max_size` entries it is cleared whole. Safe because the cache
    /// only memoizes an idempotent, persistently backed resolution.
    pub fn cleanup(&mut self, max_size: usize)
        ensures
            old(self).wf() ==> final(self).wf(),
            old(self).entries@.len() > max_size ==> final(self).as_map() == Map::<
                Seq<char>,
                u128,
            >::empty(),
            old(self).entries@.len() <= max_size ==> *final(self) == *old(self),
            old(self).wf() && old(self).as_map().dom().len() > max_size ==> final(self).as_map()
                == Map::<Seq<char>, u128>::empty(),
            old(self).wf() && old(self).as_map().dom().len() <= max_size ==> *final(self) == *old(
                self,
            ),
    {
        proof {
            if old(self).wf() {
                lemma_cache_size(*old(self));
            }
        }
        if self.entries.len() > max_size {
            self.entries = Vec::new();
            proof {
                assert(final(self).as_map() =~= Map::<Seq<char>, u128>::empty());
            }
        }
    }
}

/// With unique keys, the entry count is the cardinality of the
/// represented map, so the eviction threshold of `cleanup` speaks of
/// the map's size.
pub proof fn lemma_cache_size(c: GameCache)
    requires
        c.wf(),
    ensures
        c.as_map().dom().finite(),
        c.as_map().dom().len() == c.entries@.len(),
{
    let keys = c.entries@.map_values(|e: CacheEntry| e.external_id@);
    assert(keys.no_duplicates()) by {
        assert forall|i: int, j: int|
            0 <= i < keys.len() && 0 <= j < keys.len() && i != j implies keys[i] != keys[j] by {
            if i < j {
                assert(c.entries@[i].external_id@ != c.entries@[j].external_id@);
            } else {
                assert(c.entries@[j].external_id@ != c.entries@[i].external_id@);
            }
        }
    }
    keys.unique_seq_to_set();
    vstd::seq_lib::seq_to_set_is_finite(keys);
    assert(c.as_map().dom() =~= keys.to_set()) by {
        assert forall|k: Seq<char>| c.as_map().dom().contains(k) implies keys.to_set().contains(
            k,
        ) by {
            lemma_lookup_some_entry(c.entries@, 0, k);
            let i = choose|i: int|
                0 <= i < c.entries@.len() && c.entries@[i].external_id@ == k;
            assert(keys[i] == k);
        }
        assert forall|k: Seq<char>| keys.to_set().contains(k) implies c.as_map().dom().contains(
            k,
        ) by {
            let i = choose|i: int| 0 <= i < keys.len() && keys[i] == k;
            assert(c.entries@[i].external_id@ == k);
            if lookup_from(c.entries@, 0, k) is None {
                lemma_lookup_none_no_entry(c.entries@, 0, k);
            }
        }
    }
}

proof fn lemma_lookup_some_entry(entries: Seq<CacheEntry>, j: int, k: Seq<char>)
    requires
        0 <= j <= entries.len(),
        lookup_from(entries, j, k) is Some,
    ensures
        exists|i: int| j <= i < entries.len() && #[trigger] entries[i].external_id@ == k,
    decreases entries.len() - j,
{
    if j < entries.len() {
        if entries[j].external_id@ == k {
        } else {
            lemma_lookup_some_entry(entries, j + 1, k);
        }
    }
}

proof fn lemma_lookup_none_no_entry(entries: Seq<CacheEntry>, j: int, k: Seq<char>)
    requires
        0 <= j <= entries.len(),
        lookup_from(entries, j, k) is None,
    ensures
        forall|i: int| j <= i < entries.len() ==> #[trigger] entries[i].external_id@ != k,
    decreases entries.len() - j,
{
    if j < entries.len() {
        lemma_lookup_none_no_entry(entries, j + 1, k);
    }
}

/// The outcome of one serialized get-or-create step when the factory
/// would produce `fr` (`None` standing for a failure): a hit returns the
/// memoized id, a miss returns the factory's result.
pub open spec fn goc_result(m: Map<Seq<char>, u128>, k: Seq<char>, fr: Option<u128>) -> Option<
    u128,
> {
    if m.contains_key(k) {
        Option::Some(m[k])
    } else {
        fr
    }
}

/// The cache map after one serialized get-or-create step.
pub open spec fn goc_map(m: Map<Seq<char>, u128>, k: Seq<char>, fr: Option<u128>) -> Map<
    Seq<char>,
    u128,
> {
    if m.contains_key(k) {
        m
    } else {
        match fr {
            Option::Some(id) => m.insert(k, id),
            Option::None => m,
        }
    }
}

/// Race freedom of get-or-create in the serialized model: once the
/// winning call for a key has memoized its factory's id, every later
/// call for that key returns exactly that id and leaves the cache
/// unchanged, whatever its own factory would have produced — so among
/// any number of serialized callers the factory runs exactly once and
/// all of them observe the winner's id.
pub proof fn lemma_race_freedom(
    m: Map<Seq<char>, u128>,
    k: Seq<char>,
    winner: u128,
    fr2: Option<u128>,
)
    requires
        !m.contains_key(k),
    ensures
        goc_result(m, k, Option::Some(winner)) == Option::Some(winner),
        goc_result(goc_map(m, k, Option::Some(winner)), k, fr2) == Option::Some(winner),
        goc_map(goc_map(m, k, Option::Some(winner)), k, fr2) == goc_map(
            m,
            k,
            Option::Some(winner),
        ),
{
    let m1 = goc_map(m, k, Option::Some(winner));
    assert(m1 == m.insert(k, winner));
    assert(m1.contains_key(k) && m1[k] == winner);
}

} // verus!
