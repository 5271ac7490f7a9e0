//! The event-freshness tracker: decides which externally sourced event
//! ids are "new" (unseen, or last seen longer than the window ago), and
//! stamps every id it is shown. Old entries are pruned by age.

use vstd::prelude::*;

use crate::candidates::string_views;
use crate::text::{str_eq, str_to_chars};

verus! {

/// One tracked event id with the time it was last seen.
pub struct FreshnessEntry {
    pub external_id: String,
    pub last_seen: u64,
}

/// The freshness tracker.
pub struct EventFreshness {
    pub entries: Vec<FreshnessEntry>,
    /// How long an id stays "recently seen", in seconds.
    pub window_seconds: u64,
}

/// The stamp recorded for `k` in `entries[i..]`, if any: the first entry
/// for the key decides.
pub open spec fn seen_from(entries: Seq<FreshnessEntry>, i: int, k: Seq<char>) -> Option<u64>
    decreases entries.len() - i,
{
    if i < 0 || i >= entries.len() {
        Option::None
    } else if entries[i].external_id@ == k {
        Option::Some(entries[i].last_seen)
    } else {
        seen_from(entries, i + 1, k)
    }
}

proof fn lemma_seen_agrees(a: Seq<FreshnessEntry>, b: Seq<FreshnessEntry>, j: int, k: Seq<char>)
    requires
        a.len() == b.len(),
        forall|t: int| j <= t < a.len() ==> a[t] == b[t],
    ensures
        seen_from(a, j, k) == seen_from(b, j, k),
    decreases a.len() - j,
{
    if j < 0 || j >= a.len() {
    } else {
        lemma_seen_agrees(a, b, j + 1, k);
    }
}

proof fn lemma_seen_none(entries: Seq<FreshnessEntry>, j: int, k: Seq<char>)
    requires
        forall|t: int| j <= t < entries.len() ==> entries[t].external_id@ != k,
    ensures
        seen_from(entries, j, k) is None,
    decreases entries.len() - j,
{
    if j < 0 || j >= entries.len() {
    } else {
        lemma_seen_none(entries, j + 1, k);
    }
}

proof fn lemma_seen_after_update(
    entries: Seq<FreshnessEntry>,
    i: int,
    e: FreshnessEntry,
    k2: Seq<char>,
    j: int,
)
    requires
        0 <= j <= i < entries.len(),
        forall|t: int| j <= t < i ==> entries[t].external_id@ != e.external_id@,
        entries[i].external_id@ == e.external_id@,
    ensures
        seen_from(entries.update(i, e), j, k2) == if k2 == e.external_id@ {
            Option::Some(e.last_seen)
        } else {
            seen_from(entries, j, k2)
        },
    decreases i - j,
{
    let up = entries.update(i, e);
    if j == i {
        if k2 == e.external_id@ {
        } else {
            assert(up[j].external_id@ != k2);
            assert(entries[j].external_id@ != k2);
            lemma_seen_agrees(up, entries, j + 1, k2);
        }
    } else {
        assert(up[j] == entries[j]);
        lemma_seen_after_update(entries, i, e, k2, j + 1);
    }
}

proof fn lemma_seen_after_push(
    entries: Seq<FreshnessEntry>,
    e: FreshnessEntry,
    k2: Seq<char>,
    j: int,
)
    requires
        0 <= j <= entries.len(),
    ensures
        seen_from(entries.push(e), j, k2) == match seen_from(entries, j, k2) {
            Option::Some(v) => Option::Some(v),
            Option::None => if k2 == e.external_id@ {
                Option::Some(e.last_seen)
            } else {
                Option::None
            },
        },
    decreases entries.len() - j,
{
    let up = entries.push(e);
    if j == entries.len() {
        assert(up[j] == e);
    } else {
        assert(up[j] == entries[j]);
        lemma_seen_after_push(entries, e, k2, j + 1);
    }
}

/// Whether an id counts as new against a map of last-seen stamps: never
/// seen, or last seen more than the window ago.
pub open spec fn is_new_spec(m: Map<Seq<char>, u64>, k: Seq<char>, now: u64, window: u64) -> bool {
    !m.contains_key(k) || m[k] + window < now
}

/// The ids among `ids[k..]` that are new, processed in order with each
/// id stamped as it is passed, so a duplicate in one batch is new at
/// most once.
pub open spec fn filter_new_spec(
    m: Map<Seq<char>, u64>,
    ids: Seq<Seq<char>>,
    k: int,
    now: u64,
    window: u64,
) -> Seq<Seq<char>>
    decreases ids.len() - k,
{
    if k < 0 || k >= ids.len() {
        Seq::empty()
    } else {
        (if is_new_spec(m, ids[k], now, window) {
            seq![ids[k]]
        } else {
            Seq::<Seq<char>>::empty()
        }) + filter_new_spec(m.insert(ids[k], now), ids, k + 1, now, window)
    }
}

/// The stamp map after every id in `ids[k..]` is stamped to `now`.
pub open spec fn stamp_all_spec(
    m: Map<Seq<char>, u64>,
    ids: Seq<Seq<char>>,
    k: int,
    now: u64,
) -> Map<Seq<char>, u64>
    decreases ids.len() - k,
{
    if k < 0 || k >= ids.len() {
        m
    } else {
        stamp_all_spec(m.insert(ids[k], now), ids, k + 1, now)
    }
}

impl EventFreshness {
    /// The map of last-seen stamps this tracker represents.
    pub open spec fn as_map(self) -> Map<Seq<char>, u64> {
        Map::new(
            |k: Seq<char>| seen_from(self.entries@, 0, k) is Some,
            |k: Seq<char>| seen_from(self.entries@, 0, k)->Some_0,
        )
    }

    /// An empty tracker with the given window.
    pub fn new(window_seconds: u64) -> (r: EventFreshness)
        ensures
            r.as_map() == Map::<Seq<char>, u64>::empty(),
            r.window_seconds == window_seconds,
    {
        let r = EventFreshness { entries: Vec::new(), window_seconds };
        proof {
            assert(r.as_map() =~= Map::<Seq<char>, u64>::empty());
        }
        r
    }

    /// Stamps one id to `now`, overwriting any earlier stamp.
    fn stamp(&mut self, external_id: &str, now: u64)
        ensures
            final(self).as_map() == old(self).as_map().insert(external_id@, now),
            final(self).window_seconds == old(self).window_seconds,
    {
        let n = self.entries.len();
        let mut i: usize = 0;
        while i < n
            invariant
                *self == *old(self),
                n == self.entries@.len(),
                i <= n,
                forall|t: int| 0 <= t < i ==> self.entries@[t].external_id@ != external_id@,
            decreases n - i,
        {
            if str_eq(self.entries[i].external_id.as_str(), external_id) {
                let key_chars = str_to_chars(external_id);
                let e = FreshnessEntry {
                    external_id: crate::text::chars_to_string(&key_chars),
                    last_seen: now,
                };
                proof {
                    assert(self.entries@[i as int].external_id@ == e.external_id@);
                }
                self.entries[i] = e;
                proof {
                    assert forall|k2: Seq<char>|
                        seen_from(final(self).entries@, 0, k2) == (if k2 == external_id@ {
                            Option::Some(now)
                        } else {
                            seen_from(old(self).entries@, 0, k2)
                        }) by {
                        lemma_seen_after_update(old(self).entries@, i as int, e, k2, 0);
                    }
                    assert(final(self).as_map() =~= old(self).as_map().insert(external_id@, now));
                }
                return ;
            }
            i += 1;
        }
        let key_chars = str_to_chars(external_id);
        let e = FreshnessEntry {
            external_id: crate::text::chars_to_string(&key_chars),
            last_seen: now,
        };
        self.entries.push(e);
        proof {
            assert forall|k2: Seq<char>|
                seen_from(final(self).entries@, 0, k2) == (match seen_from(
                    old(self).entries@,
                    0,
                    k2,
                ) {
                    Option::Some(v) => Option::Some(v),
                    Option::None => if k2 == external_id@ {
                        Option::Some(now)
                    } else {
                        Option::None
                    },
                }) by {
                lemma_seen_after_push(old(self).entries@, e, k2, 0);
            }
            lemma_seen_none(old(self).entries@, 0, external_id@);
            assert(final(self).as_map() =~= old(self).as_map().insert(external_id@, now));
        }
    }

    /// The recorded stamp for an id.
    fn seen_time(&self, external_id: &str) -> (r: Option<u64>)
        ensures
            match r {
                Option::Some(t) => self.as_map().contains_key(external_id@) && self.as_map()[
                    external_id@
                ] == t,
                Option::None => !self.as_map().contains_key(external_id@),
            },
    {
        let n = self.entries.len();
        let mut i: usize = 0;
        while i < n
            invariant
                n == self.entries@.len(),
                i <= n,
                seen_from(self.entries@, 0, external_id@) == seen_from(
                    self.entries@,
                    i as int,
                    external_id@,
                ),
            decreases n - i,
        {
            if str_eq(self.entries[i].external_id.as_str(), external_id) {
                return Option::Some(self.entries[i].last_seen);
            }
            i += 1;
        }
        Option::None
    }

    /// Splits a batch of event ids into the new ones — unseen, or seen
    /// longer than the window ago — stamping every id to `now` either
    /// way.
    pub fn filter_new(&mut self, ids: &Vec<String>, now: u64) -> (r: Vec<String>)
        ensures
            string_views(r@) == filter_new_spec(
                old(self).as_map(),
                string_views(ids@),
                0,
                now,
                old(self).window_seconds,
            ),
            final(self).as_map() == stamp_all_spec(old(self).as_map(), string_views(ids@), 0, now),
            final(self).window_seconds == old(self).window_seconds,
    {
        let ghost l = string_views(ids@);
        let window = self.window_seconds;
        let mut out: Vec<String> = Vec::new();
        let mut k: usize = 0;
        while k < ids.len()
            invariant
                l == string_views(ids@),
                window == self.window_seconds,
                self.window_seconds == old(self).window_seconds,
                k <= ids@.len(),
                string_views(out@) + filter_new_spec(self.as_map(), l, k as int, now, window)
                    == filter_new_spec(old(self).as_map(), l, 0, now, window),
                stamp_all_spec(self.as_map(), l, k as int, now) == stamp_all_spec(
                    old(self).as_map(),
                    l,
                    0,
                    now,
                ),
            decreases ids@.len() - k,
        {
            let id = &ids[k];
            let fresh = match self.seen_time(id.as_str()) {
                Option::None => true,
                Option::Some(t) => if t > now {
                    false
                } else {
                    now - t > window
                },
            };
            proof {
                assert(fresh == is_new_spec(self.as_map(), l[k as int], now, window));
            }
            if fresh {
                let ghost prev = string_views(out@);
                out.push(id.clone());
                proof {
                    assert(string_views(out@) =~= prev + seq![l[k as int]]);
                }
            }
            self.stamp(id.as_str(), now);
            k += 1;
            proof {
                if fresh {
                    assert(string_views(out@) + filter_new_spec(
                        self.as_map(),
                        l,
                        k as int,
                        now,
                        window,
                    ) =~= string_views(out@).subrange(0, string_views(out@).len() - 1) + (seq![
                        l[k - 1]
                    ] + filter_new_spec(self.as_map(), l, k as int, now, window)));
                }
            }
        }
        proof {
            assert(string_views(out@) =~= string_views(out@) + filter_new_spec(
                self.as_map(),
                l,
                ids@.len() as int,
                now,
                window,
            ));
        }
        out
    }

    /// Drops entries last seen more than a day before `now`; the rest
    /// keep their stamps.
    pub fn prune(&mut self, now: u64)
        ensures
            final(self).entries@ == old(self).entries@.filter(
                |e: FreshnessEntry| e.last_seen + 86400 >= now,
            ),
            final(self).window_seconds == old(self).window_seconds,
    {
        let ghost pred = |e: FreshnessEntry| e.last_seen + 86400 >= now;
        let n = self.entries.len();
        let mut kept: Vec<FreshnessEntry> = Vec::new();
        let mut i: usize = 0;
        while i < n
            invariant
                *self == *old(self),
                n == self.entries@.len(),
                i <= n,
                kept@ == self.entries@.subrange(0, i as int).filter(
                    |e: FreshnessEntry| e.last_seen + 86400 >= now,
                ),
            decreases n - i,
        {
            let e = &self.entries[i];
            let keep = e.last_seen > u64::MAX - 86400 || e.last_seen + 86400 >= now;
            let ghost prefix = self.entries@.subrange(0, i as int);
            let ghost next_prefix = self.entries@.subrange(0, i as int + 1);
            proof {
                assert(next_prefix.drop_last() =~= prefix);

            }
            if keep {
                kept.push(FreshnessEntry {
                    external_id: self.entries[i].external_id.clone(),
                    last_seen: self.entries[i].last_seen,
                });
            }
            i += 1;
            proof {
                reveal(Seq::filter);
                assert(next_prefix.last() == self.entries@[i - 1]);
                assert(kept@ =~= next_prefix.filter(
                    |e: FreshnessEntry| e.last_seen + 86400 >= now,
                ));
            }
        }
        self.entries = kept;
        proof {
            assert(old(self).entries@.subrange(0, n as int) =~= old(self).entries@);
        }
    }
}

} // verus!
