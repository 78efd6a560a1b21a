//! The result cache: a keyed in-memory store for aggregated result sets in
//! which every entry lives for a fixed time from the moment it is written.
//! Time enters as an explicit clock value, so what a lookup yields is a
//! function of the store and the clock alone.

use crate::config::Config;
use crate::models::SearchResults;
use crate::models::SearchResultsView;
use crate::text;
use vstd::prelude::*;

verus! {

/// One stored result set, with its key and absolute expiry.
struct CacheEntry {
    key: String,
    value: SearchResults,
    expiry: u64,
}

/// Mathematical image of the cache: the configured lifetime and what each
/// key maps to, together with its absolute expiry.
pub struct CacheView {
    pub ttl: u64,
    pub entries: Map<Seq<char>, (SearchResultsView, u64)>,
}

spec fn entries_map(s: Seq<CacheEntry>) -> Map<Seq<char>, (SearchResultsView, u64)>
    decreases s.len(),
{
    if s.len() == 0 {
        Map::<Seq<char>, (SearchResultsView, u64)>::empty()
    } else {
        entries_map(s.drop_last()).insert(s.last().key@, (s.last().value@, s.last().expiry))
    }
}

spec fn keys_unique(s: Seq<CacheEntry>) -> bool {
    forall|i: int, j: int|
        0 <= i < j < s.len() ==> (#[trigger] s[i]).key@ != (#[trigger] s[j]).key@
}

/// What a lookup at clock `now` yields: the stored value while `now` is
/// before its expiry, nothing otherwise.
pub open spec fn spec_get(c: CacheView, key: Seq<char>, now: u64) -> Option<SearchResultsView> {
    if c.entries.contains_key(key) && now < c.entries[key].1 {
        Some(c.entries[key].0)
    } else {
        None
    }
}

/// The absolute expiry a write at clock `now` gets: `now` plus the
/// lifetime, capped at the largest representable clock value.
pub open spec fn spec_expiry(now: u64, ttl: u64) -> u64 {
    if now + ttl <= u64::MAX {
        (now + ttl) as u64
    } else {
        u64::MAX
    }
}

/// The cache after one value is written at clock `now`.
pub open spec fn spec_put(c: CacheView, key: Seq<char>, v: SearchResultsView, now: u64) -> CacheView {
    CacheView { ttl: c.ttl, entries: c.entries.insert(key, (v, spec_expiry(now, c.ttl))) }
}

/// The cache after a batch of values is written pairwise under the given
/// keys at clock `now`; a later write to the same key wins.
pub open spec fn spec_put_all(
    c: CacheView,
    keys: Seq<Seq<char>>,
    vals: Seq<SearchResultsView>,
    now: u64,
) -> CacheView
    decreases keys.len(),
{
    if keys.len() == 0 {
        c
    } else {
        spec_put(
            spec_put_all(c, keys.drop_last(), vals.drop_last(), now),
            keys.last(),
            vals.last(),
            now,
        )
    }
}

proof fn lemma_entries_map_contains(s: Seq<CacheEntry>, k: Seq<char>)
    ensures
        entries_map(s).contains_key(k) <==> exists|i: int| 0 <= i < s.len() && s[i].key@ == k,
    decreases s.len(),
{
    if s.len() > 0 {
        lemma_entries_map_contains(s.drop_last(), k);
        if entries_map(s).contains_key(k) {
            if s.last().key@ == k {
                assert(s[s.len() - 1].key@ == k);
            } else {
                let i = choose|i: int| 0 <= i < s.drop_last().len() && s.drop_last()[i].key@ == k;
                assert(s[i].key@ == k);
            }
        }
        if exists|i: int| 0 <= i < s.len() && s[i].key@ == k {
            let i = choose|i: int| 0 <= i < s.len() && s[i].key@ == k;
            if i < s.len() - 1 {
                assert(s.drop_last()[i].key@ == k);
            }
        }
    }
}

proof fn lemma_entries_map_index(s: Seq<CacheEntry>, i: int)
    requires
        keys_unique(s),
        0 <= i < s.len(),
    ensures
        entries_map(s).contains_key(s[i].key@),
        entries_map(s)[s[i].key@] == (s[i].value@, s[i].expiry),
    decreases s.len(),
{
    if i == s.len() - 1 {
        assert(s.last() == s[i]);
    } else {
        assert(keys_unique(s.drop_last())) by {
            assert(forall|a: int|
                0 <= a < s.len() - 1 ==> s.drop_last()[a] == #[trigger] s[a]);
        }
        assert(s.drop_last()[i] == s[i]);
        lemma_entries_map_index(s.drop_last(), i);
        assert(s[s.len() - 1].key@ != s[i].key@);
    }
}

proof fn lemma_entries_map_remove(s: Seq<CacheEntry>, i: int)
    requires
        keys_unique(s),
        0 <= i < s.len(),
    ensures
        entries_map(s.remove(i)) == entries_map(s).remove(s[i].key@),
    decreases s.len(),
{
    let k = s[i].key@;
    if i == s.len() - 1 {
        assert(s.remove(i) =~= s.drop_last());
        lemma_entries_map_contains(s.drop_last(), k);
        assert(!entries_map(s.drop_last()).contains_key(k)) by {
            if exists|a: int| 0 <= a < s.drop_last().len() && s.drop_last()[a].key@ == k {
                let a = choose|a: int| 0 <= a < s.drop_last().len() && s.drop_last()[a].key@ == k;
                assert(s[a].key@ == s[i].key@);
            }
        }
        assert(entries_map(s.remove(i)) =~= entries_map(s).remove(k));
    } else {
        assert(keys_unique(s.drop_last())) by {
            assert(forall|a: int|
                0 <= a < s.len() - 1 ==> s.drop_last()[a] == #[trigger] s[a]);
        }
        assert(s.drop_last()[i] == s[i]);
        lemma_entries_map_remove(s.drop_last(), i);
        assert(s.remove(i).drop_last() =~= s.drop_last().remove(i));
        assert(s.remove(i).last() == s.last());
        assert(s.last().key@ != k);
        assert(entries_map(s.remove(i)) =~= entries_map(s).remove(k));
    }
}

/// In-memory cache for aggregated result sets; entries live for the
/// configured time from the moment they are written. The embedding
/// application serializes access; the logic here is single-threaded.
pub struct Cache {
    entries: Vec<CacheEntry>,
    ttl: u64,
}

impl View for Cache {
    type V = CacheView;

    closed spec fn view(&self) -> CacheView {
        CacheView { ttl: self.ttl, entries: entries_map(self.entries@) }
    }
}

impl Cache {
    /// Every key is stored at most once.
    pub closed spec fn wf(&self) -> bool {
        keys_unique(self.entries@)
    }

    /// A fresh, empty cache whose entries will live `cache_expiry_time`
    /// seconds from their write.
    pub fn build(config: &Config) -> (c: Self)
        ensures
            c.wf(),
            c@.ttl == config.cache_expiry_time,
            c@.entries == Map::<Seq<char>, (SearchResultsView, u64)>::empty(),
    {
        let c = Cache { entries: Vec::new(), ttl: config.cache_expiry_time };
        proof {
            assert(c@.entries =~= Map::<Seq<char>, (SearchResultsView, u64)>::empty());
        }
        c
    }

    fn find_key(&self, key: &str) -> (r: Option<usize>)
        ensures
            match r {
                Some(i) => i < self.entries@.len() && self.entries@[i as int].key@ == key@,
                None => forall|i: int|
                    0 <= i < self.entries@.len() ==> (#[trigger] self.entries@[i]).key@ != key@,
            },
    {
        let mut i: usize = 0;
        while i < self.entries.len()
            invariant
                i <= self.entries@.len(),
                forall|t: int| 0 <= t < i ==> (#[trigger] self.entries@[t]).key@ != key@,
            decreases self.entries@.len() - i,
        {
            if text::str_eq(self.entries[i].key.as_str(), key) {
                return Some(i);
            }
            i += 1;
        }
        None
    }

    /// Retrieves the result set cached under the key, unless none is there
    /// or its lifetime has elapsed by clock `now`.
    pub fn cached_results(&self, key: &str, now: u64) -> (r: Option<SearchResults>)
        requires
            self.wf(),
        ensures
            match spec_get(self@, key@, now) {
                Some(sv) => r matches Some(v) && v@ == sv,
                None => r is None,
            },
    {
        match self.find_key(key) {
            Some(i) => {
                proof {
                    lemma_entries_map_index(self.entries@, i as int);
                }
                if now < self.entries[i].expiry {
                    Some(self.entries[i].value.duplicate())
                } else {
                    None
                }
            },
            None => {
                proof {
                    lemma_entries_map_contains(self.entries@, key@);
                }
                None
            },
        }
    }

    fn put_one(&mut self, key: &String, value: &SearchResults, now: u64)
        requires
            old(self).wf(),
        ensures
            final(self).wf(),
            final(self)@ == spec_put(old(self)@, key@, value@, now),
    {
        let ghost s0 = self.entries@;
        match self.find_key(key.as_str()) {
            Some(i) => {
                proof {
                    lemma_entries_map_remove(self.entries@, i as int);
                }
                self.entries.remove(i);
                proof {
                    assert(keys_unique(self.entries@)) by {
                        assert(forall|a: int|
                            0 <= a < self.entries@.len() ==> #[trigger] self.entries@[a] == if a
                                < i as int {
                                s0[a]
                            } else {
                                s0[a + 1]
                            });
                    }
                    assert(forall|a: int|
                        0 <= a < self.entries@.len() ==> (#[trigger] self.entries@[a]).key@
                            != key@) by {
                        assert(forall|a: int|
                            0 <= a < self.entries@.len() ==> #[trigger] self.entries@[a] == if a
                                < i as int {
                                s0[a]
                            } else {
                                s0[a + 1]
                            });
                    }
                }
            },
            None => {},
        }
        let ghost s1 = self.entries@;
        let expiry: u64 = if now <= u64::MAX - self.ttl {
            now + self.ttl
        } else {
            u64::MAX
        };
        let entry = CacheEntry { key: key.clone(), value: value.duplicate(), expiry };
        self.entries.push(entry);
        proof {
            assert(self.entries@.drop_last() =~= s1);
            assert(entries_map(self.entries@) == entries_map(s1).insert(
                key@,
                (value@, spec_expiry(now, self.ttl)),
            ));
            assert(entries_map(s1) == entries_map(s0) || entries_map(s1) == entries_map(
                s0,
            ).remove(key@));
            assert(entries_map(self.entries@) =~= entries_map(s0).insert(
                key@,
                (value@, spec_expiry(now, self.ttl)),
            ));
        }
    }

    /// Writes each result set under the key at the same position, every
    /// entry expiring the configured lifetime after clock `now`; when a key
    /// repeats, the later write wins.
    pub fn cache_results(&mut self, results: &Vec<SearchResults>, keys: &Vec<String>, now: u64)
        requires
            old(self).wf(),
            results@.len() == keys@.len(),
        ensures
            final(self).wf(),
            final(self)@ == spec_put_all(old(self)@, keys.deep_view(), results.deep_view(), now),
    {
        let mut i: usize = 0;
        proof {
            assert(keys.deep_view().take(0) =~= Seq::<Seq<char>>::empty());
        }
        while i < keys.len()
            invariant
                i <= keys@.len(),
                results@.len() == keys@.len(),
                self.wf(),
                self@ == spec_put_all(
                    old(self)@,
                    keys.deep_view().take(i as int),
                    results.deep_view().take(i as int),
                    now,
                ),
            decreases keys@.len() - i,
        {
            self.put_one(&keys[i], &results[i], now);
            proof {
                let kd = keys.deep_view();
                let rd = results.deep_view();
                assert(kd.take(i as int + 1).drop_last() =~= kd.take(i as int));
                assert(rd.take(i as int + 1).drop_last() =~= rd.take(i as int));
                assert(kd.take(i as int + 1).last() == kd[i as int]);
                assert(rd.take(i as int + 1).last() == rd[i as int]);
            }
            i += 1;
        }
        proof {
            assert(keys.deep_view().take(keys@.len() as int) =~= keys.deep_view());
            assert(results.deep_view().take(keys@.len() as int) =~= results.deep_view());
        }
    }
}

/// Cache round trip law: a value written at clock `t` reads back intact at
/// `t` itself while the lifetime is positive; once the lifetime has elapsed
/// it reads as absent; and the write leaves every other key untouched.
pub proof fn lemma_cache_round_trip(
    c: CacheView,
    key: Seq<char>,
    v: SearchResultsView,
    t: u64,
    t2: u64,
)
    ensures
        c.ttl > 0 && t < u64::MAX ==> spec_get(spec_put(c, key, v, t), key, t) == Some(v),
        t2 >= t + c.ttl ==> spec_get(spec_put(c, key, v, t), key, t2) == None::<SearchResultsView>,
        forall|k2: Seq<char>, t3: u64|
            k2 != key ==> #[trigger] spec_get(spec_put(c, key, v, t), k2, t3) == spec_get(
                c,
                k2,
                t3,
            ),
{
}

} // verus!
