//! Keyed store with an expiry policy.
//!
//! A value stored at time `t` is served unchanged to any read strictly
//! within `t + ttl` (milliseconds); at or past that point the caller's
//! computation runs again and its outcome — including a failed or absent
//! outcome — is stored with a fresh timestamp, so an unavailable probe is
//! not hammered on every call. The fresh-read path never mutates the cache.

use vstd::prelude::*;

verus! {

/// One cached value and the time it was recorded, in milliseconds.
pub struct CacheEntry<V> {
    pub value: V,
    pub recorded_at: u64,
}

/// Mathematical model of one cache entry.
#[verifier::ext_equal]
pub ghost struct EntryModel<V> {
    pub value: V,
    pub recorded_at: u64,
}

/// A value recorded at `recorded_at` is still fresh at `now` for this `ttl`.
/// A clock that went backwards (`now < recorded_at`) counts as fresh.
pub open spec fn fresh_at(recorded_at: u64, now: u64, ttl: u64) -> bool {
    now - recorded_at < ttl
}

/// What a fresh-only lookup yields.
pub open spec fn lookup_fresh<V>(
    m: Map<Seq<char>, EntryModel<V>>,
    key: Seq<char>,
    now: u64,
    ttl: u64,
) -> Option<V> {
    if m.contains_key(key) && fresh_at(m[key].recorded_at, now, ttl) {
        Some(m[key].value)
    } else {
        None
    }
}

/// Keyed time-boxed cache.
pub struct TtlCache<V> {
    entries: Vec<(String, CacheEntry<V>)>,
}

/// Model of the entry list as a key-to-entry map.
pub closed spec fn cache_model<V>(s: Seq<(String, CacheEntry<V>)>) -> Map<Seq<char>, EntryModel<V>>
    decreases s.len(),
{
    if s.len() == 0 {
        Map::empty()
    } else {
        cache_model(s.drop_last()).insert(
            s.last().0@,
            EntryModel { value: s.last().1.value, recorded_at: s.last().1.recorded_at },
        )
    }
}

/// No two entries share a key.
pub closed spec fn cache_distinct<V>(s: Seq<(String, CacheEntry<V>)>) -> bool {
    forall|i: int, j: int| 0 <= i < j < s.len() ==> s[i].0@ != s[j].0@
}

proof fn lemma_cache_model_char<V>(s: Seq<(String, CacheEntry<V>)>, k: Seq<char>)
    ensures
        cache_model(s).contains_key(k) <==> exists|i: int| 0 <= i < s.len() && s[i].0@ == k,
        cache_distinct(s) ==> forall|i: int|
            0 <= i < s.len() && s[i].0@ == k ==> cache_model(s)[k] == (EntryModel {
                value: s[i].1.value,
                recorded_at: s[i].1.recorded_at,
            }),
    decreases s.len(),
{
    if s.len() > 0 {
        lemma_cache_model_char(s.drop_last(), k);
        assert(forall|i: int| 0 <= i < s.len() - 1 ==> s.drop_last()[i] == s[i]);
        if s.last().0@ == k {
            assert(s[s.len() - 1].0@ == k);
        }
    }
}

proof fn lemma_cache_model_remove<V>(s: Seq<(String, CacheEntry<V>)>, i: int)
    requires
        0 <= i < s.len(),
        cache_distinct(s),
    ensures
        cache_distinct(s.remove(i)),
        cache_model(s.remove(i)) == cache_model(s).remove(s[i].0@),
    decreases s.len(),
{
    assert(cache_distinct(s.remove(i))) by {
        assert(forall|a: int, b: int|
            0 <= a < b < s.len() - 1 ==> (s.remove(i)[a] == (if a < i {
                s[a]
            } else {
                s[a + 1]
            }) && s.remove(i)[b] == (if b < i {
                s[b]
            } else {
                s[b + 1]
            })));
    }
    if i == s.len() - 1 {
        assert(s.remove(i) =~= s.drop_last());
        lemma_cache_model_char(s.drop_last(), s[i].0@);
        assert(!cache_model(s.drop_last()).contains_key(s[i].0@));
        assert(cache_model(s).remove(s[i].0@) =~= cache_model(s.drop_last()));
    } else {
        let t = s.drop_last();
        lemma_cache_model_remove(t, i);
        assert(s.remove(i).drop_last() =~= t.remove(i));
        assert(s.remove(i).last() == s.last());
        assert(s[i].0@ != s.last().0@);
        assert(cache_model(t.remove(i)).insert(
            s.last().0@,
            EntryModel { value: s.last().1.value, recorded_at: s.last().1.recorded_at },
        ) =~= cache_model(s).remove(s[i].0@));
    }
}

impl<V> TtlCache<V> {
    /// Well-formed: one entry per key.
    pub closed spec fn wf(&self) -> bool {
        cache_distinct(self.entries@)
    }

    /// The stored entries, keyed by name.
    pub closed spec fn model(&self) -> Map<Seq<char>, EntryModel<V>> {
        cache_model(self.entries@)
    }

    /// An empty cache.
    pub fn new() -> (r: TtlCache<V>)
        ensures
            r.wf(),
            r.model() == Map::<Seq<char>, EntryModel<V>>::empty(),
    {
        TtlCache { entries: Vec::new() }
    }

    /// Index of the entry for `key`, if any.
    fn find(&self, key: &String) -> (r: Option<usize>)
        ensures
            match r {
                Some(i) => i < self.entries@.len() && self.entries@[i as int].0@ == key@,
                None => forall|i: int| 0 <= i < self.entries@.len() ==> self.entries@[i].0@ != key@,
            },
    {
        let mut i: usize = 0;
        while i < self.entries.len()
            invariant
                i <= self.entries@.len(),
                forall|k: int| 0 <= k < i ==> self.entries@[k].0@ != key@,
            decreases self.entries@.len() - i,
        {
            if self.entries[i].0.eq(key) {
                return Some(i);
            }
            i += 1;
        }
        None
    }

    /// Read-only lookup of a still-fresh value; never mutates the cache.
    pub fn get_fresh(&self, key: &String, now: u64, ttl: u64) -> (r: Option<&V>)
        requires
            self.wf(),
        ensures
            match r {
                Some(v) => lookup_fresh(self.model(), key@, now, ttl) == Some(*v),
                None => lookup_fresh(self.model(), key@, now, ttl) is None,
            },
    {
        proof {
            lemma_cache_model_char(self.entries@, key@);
        }
        match self.find(key) {
            None => None,
            Some(i) => {
                let recorded_at = self.entries[i].1.recorded_at;
                if now < recorded_at || now - recorded_at < ttl {
                    Some(&self.entries[i].1.value)
                } else {
                    None
                }
            },
        }
    }

    /// Store an outcome for `key` at time `now`, replacing any prior entry.
    pub fn store(&mut self, key: &String, now: u64, value: V)
        requires
            old(self).wf(),
        ensures
            final(self).wf(),
            final(self).model() == old(self).model().insert(
                key@,
                EntryModel { value, recorded_at: now },
            ),
    {
        proof {
            lemma_cache_model_char(self.entries@, key@);
        }
        match self.find(key) {
            None => {
                let ghost pre = self.entries@;
                self.entries.push((key.clone(), CacheEntry { value, recorded_at: now }));
                proof {
                    assert(self.entries@.drop_last() =~= pre);
                    assert(forall|i: int| 0 <= i < pre.len() ==> pre[i].0@ != key@);
                }
            },
            Some(i) => {
                let ghost pre = self.entries@;
                let pair = self.entries.remove(i);
                self.entries.push((pair.0, CacheEntry { value, recorded_at: now }));
                proof {
                    lemma_cache_model_remove(pre, i as int);
                    assert(self.entries@.drop_last() =~= pre.remove(i as int));
                    lemma_cache_model_char(pre.remove(i as int), key@);
                    assert(forall|a: int|
                        0 <= a < pre.remove(i as int).len() ==> pre.remove(i as int)[a] == (if a
                            < i {
                            pre[a]
                        } else {
                            pre[a + 1]
                        }));
                    assert(forall|a: int|
                        0 <= a < pre.remove(i as int).len() ==> pre.remove(i as int)[a].0@ != key@);
                    assert(self.model() =~= cache_model(pre).insert(
                        key@,
                        EntryModel { value: self.entries@.last().1.value, recorded_at: now },
                    ));
                }
            },
        }
    }

    /// Serve the cached value if it is still fresh; otherwise run `compute`,
    /// store its outcome at time `now`, and serve that. The outcome is
    /// stored even when it represents a failure, so an unavailable probe is
    /// retried only once per TTL window.
    pub fn get_or_compute<F: FnOnce() -> V>(
        &mut self,
        key: &String,
        now: u64,
        ttl: u64,
        compute: F,
    ) -> (r: &V)
        requires
            old(self).wf(),
            call_requires(compute, ()),
        ensures
            final(self).wf(),
            lookup_fresh(old(self).model(), key@, now, ttl) matches Some(v) ==> *r == v
                && final(self).model() == old(self).model(),
            lookup_fresh(old(self).model(), key@, now, ttl) is None ==> call_ensures(
                compute,
                (),
                *r,
            ) && final(self).model() == old(self).model().insert(
                key@,
                EntryModel { value: *r, recorded_at: now },
            ),
    {
        proof {
            lemma_cache_model_char(self.entries@, key@);
        }
        let found = self.find(key);
        match found {
            Some(i) => {
                let recorded_at = self.entries[i].1.recorded_at;
                if now < recorded_at || now - recorded_at < ttl {
                    return &self.entries[i].1.value;
                }
                let value = compute();
                let ghost pre = self.entries@;
                let pair = self.entries.remove(i);
                self.entries.push((pair.0, CacheEntry { value, recorded_at: now }));
                proof {
                    lemma_cache_model_remove(pre, i as int);
                    assert(self.entries@.drop_last() =~= pre.remove(i as int));
                    lemma_cache_model_char(pre.remove(i as int), key@);
                    assert(forall|a: int|
                        0 <= a < pre.remove(i as int).len() ==> pre.remove(i as int)[a] == (if a
                            < i {
                            pre[a]
                        } else {
                            pre[a + 1]
                        }));
                    assert(forall|a: int|
                        0 <= a < pre.remove(i as int).len() ==> pre.remove(i as int)[a].0@ != key@);
                    assert(self.model() =~= cache_model(pre).insert(
                        key@,
                        EntryModel { value: self.entries@.last().1.value, recorded_at: now },
                    ));
                }
                let n = self.entries.len() - 1;
                &self.entries[n].1.value
            },
            None => {
                let value = compute();
                let ghost pre = self.entries@;
                self.entries.push((key.clone(), CacheEntry { value, recorded_at: now }));
                proof {
                    assert(self.entries@.drop_last() =~= pre);
                    assert(forall|i: int| 0 <= i < pre.len() ==> pre[i].0@ != key@);
                }
                let n = self.entries.len() - 1;
                &self.entries[n].1.value
            },
        }
    }
}

/// Cache freshness, over the model: a value recorded at `t0` is returned
/// unchanged by any fresh-only lookup strictly within the TTL — so the
/// computation behind it is not run again — and is no longer served once
/// the TTL has elapsed, which forces a recomputation.
pub proof fn lemma_cache_freshness<V>(
    m: Map<Seq<char>, EntryModel<V>>,
    key: Seq<char>,
    t0: u64,
    now: u64,
    ttl: u64,
)
    requires
        m.contains_key(key),
        m[key].recorded_at == t0,
    ensures
        now - t0 < ttl ==> lookup_fresh(m, key, now, ttl) == Some(m[key].value),
        now - t0 >= ttl ==> lookup_fresh(m, key, now, ttl) is None,
{
}

} // verus!
