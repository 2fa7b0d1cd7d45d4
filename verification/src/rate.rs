//! Keyed store of cumulative counter samples, turned into per-second rates.
//!
//! Each key holds at most one sample: the timestamp (milliseconds) and the
//! cumulative counter values seen last. A new observation for a key yields
//! one rate per counter — the clamped delta divided by the elapsed time —
//! and overwrites the stored sample, so the next call measures a correct
//! interval. Counter resets (a smaller counter than before) and
//! non-monotonic clocks yield zero rates, never negative ones; a sample
//! older than the stored one does not move the baseline backwards.

use vstd::prelude::*;

verus! {

/// Stored sample: a timestamp in milliseconds and cumulative counter values.
pub struct RateSample {
    pub timestamp: u64,
    pub cumulative_values: Vec<u64>,
}

/// Mathematical model of one stored sample.
#[verifier::ext_equal]
pub ghost struct SampleModel {
    pub timestamp: u64,
    pub values: Seq<u64>,
}

/// Per-second rate derived from two cumulative readings `dt_ms` apart.
/// A shrunken counter (reset or rollover) clamps to zero; a rate too large
/// for 64 bits saturates.
pub open spec fn rate_of(prev: u64, cur: u64, dt_ms: u64) -> u64
    recommends
        dt_ms > 0,
{
    if cur <= prev {
        0u64
    } else {
        let q = (cur - prev) * 1000 / (dt_ms as int);
        if q > u64::MAX {
            u64::MAX
        } else {
            q as u64
        }
    }
}

/// All-zero rates, one per counter.
pub open spec fn zero_rates(n: nat) -> Seq<u64> {
    Seq::new(n, |i: int| 0u64)
}

/// The rates one observation yields, given the store before it.
pub open spec fn observe_rates(
    m: Map<Seq<char>, SampleModel>,
    key: Seq<char>,
    timestamp: u64,
    values: Seq<u64>,
) -> Seq<u64> {
    if !m.contains_key(key) {
        zero_rates(values.len())
    } else {
        let prior = m[key];
        if timestamp <= prior.timestamp {
            zero_rates(values.len())
        } else {
            Seq::new(
                values.len(),
                |i: int|
                    if i < prior.values.len() {
                        rate_of(prior.values[i], values[i], (timestamp - prior.timestamp) as u64)
                    } else {
                        0u64
                    },
            )
        }
    }
}

/// The store after one observation: the sample is overwritten unless it
/// would move the key's timestamp backwards.
pub open spec fn observe_update(
    m: Map<Seq<char>, SampleModel>,
    key: Seq<char>,
    timestamp: u64,
    values: Seq<u64>,
) -> Map<Seq<char>, SampleModel> {
    if m.contains_key(key) && timestamp < m[key].timestamp {
        m
    } else {
        m.insert(key, SampleModel { timestamp, values })
    }
}

/// Keyed rate store; at most one sample is retained per key.
pub struct RateTracker {
    entries: Vec<(String, RateSample)>,
}

/// Model of a sample list as a key-to-sample map.
pub closed spec fn entries_model(s: Seq<(String, RateSample)>) -> Map<Seq<char>, SampleModel>
    decreases s.len(),
{
    if s.len() == 0 {
        Map::empty()
    } else {
        entries_model(s.drop_last()).insert(
            s.last().0@,
            SampleModel { timestamp: s.last().1.timestamp, values: s.last().1.cumulative_values@ },
        )
    }
}

/// No two entries share a key.
pub closed spec fn distinct_keys(s: Seq<(String, RateSample)>) -> bool {
    forall|i: int, j: int| 0 <= i < j < s.len() ==> s[i].0@ != s[j].0@
}

proof fn lemma_entries_model_char(s: Seq<(String, RateSample)>, k: Seq<char>)
    ensures
        entries_model(s).contains_key(k) <==> exists|i: int| 0 <= i < s.len() && s[i].0@ == k,
        distinct_keys(s) ==> forall|i: int|
            0 <= i < s.len() && s[i].0@ == k ==> entries_model(s)[k] == (SampleModel {
                timestamp: s[i].1.timestamp,
                values: s[i].1.cumulative_values@,
            }),
    decreases s.len(),
{
    if s.len() > 0 {
        lemma_entries_model_char(s.drop_last(), k);
        assert(forall|i: int|
            0 <= i < s.len() - 1 ==> s.drop_last()[i] == s[i]);
        if s.last().0@ == k {
            assert(s[s.len() - 1].0@ == k);
        }
    }
}

proof fn lemma_entries_model_remove(s: Seq<(String, RateSample)>, i: int)
    requires
        0 <= i < s.len(),
        distinct_keys(s),
    ensures
        distinct_keys(s.remove(i)),
        entries_model(s.remove(i)) == entries_model(s).remove(s[i].0@),
    decreases s.len(),
{
    assert(distinct_keys(s.remove(i))) by {
        assert(forall|a: int, b: int|
            0 <= a < b < s.len() - 1 ==> (s.remove(i)[a] == (if a < i {
                s[a]
            } else {
                s[a + 1]
            }) && s.remove(i)[b] == (if b < i {
                s[b]
            } else {
                s[b + 1]
            })));
    }
    if i == s.len() - 1 {
        assert(s.remove(i) =~= s.drop_last());
        assert(entries_model(s) == entries_model(s.drop_last()).insert(
            s.last().0@,
            SampleModel { timestamp: s.last().1.timestamp, values: s.last().1.cumulative_values@ },
        ));
        lemma_entries_model_char(s.drop_last(), s[i].0@);
        assert(!entries_model(s.drop_last()).contains_key(s[i].0@));
        assert(entries_model(s.drop_last()).remove(s[i].0@) =~= entries_model(s.drop_last()));
        assert(entries_model(s).remove(s[i].0@) =~= entries_model(s.drop_last()));
    } else {
        let t = s.drop_last();
        lemma_entries_model_remove(t, i);
        assert(s.remove(i).drop_last() =~= t.remove(i));
        assert(s.remove(i).last() == s.last());
        assert(entries_model(s.remove(i)) == entries_model(t.remove(i)).insert(
            s.last().0@,
            SampleModel { timestamp: s.last().1.timestamp, values: s.last().1.cumulative_values@ },
        ));
        assert(s[i].0@ != s.last().0@);
        assert(entries_model(t.remove(i)).insert(
            s.last().0@,
            SampleModel { timestamp: s.last().1.timestamp, values: s.last().1.cumulative_values@ },
        ) =~= entries_model(s).remove(s[i].0@));
    }
}

impl RateTracker {
    /// Well-formed: one sample per key.
    pub closed spec fn wf(&self) -> bool {
        distinct_keys(self.entries@)
    }

    /// The stored samples, keyed by name.
    pub closed spec fn model(&self) -> Map<Seq<char>, SampleModel> {
        entries_model(self.entries@)
    }

    /// An empty tracker.
    pub fn new() -> (r: RateTracker)
        ensures
            r.wf(),
            r.model() == Map::<Seq<char>, SampleModel>::empty(),
    {
        RateTracker { entries: Vec::new() }
    }

    /// Index of the entry for `key`, if any.
    fn find(&self, key: &String) -> (r: Option<usize>)
        ensures
            match r {
                Some(i) => i < self.entries@.len() && self.entries@[i as int].0@ == key@,
                None => forall|i: int| 0 <= i < self.entries@.len() ==> self.entries@[i].0@ != key@,
            },
    {
        let mut i: usize = 0;
        while i < self.entries.len()
            invariant
                i <= self.entries@.len(),
                forall|k: int| 0 <= k < i ==> self.entries@[k].0@ != key@,
            decreases self.entries@.len() - i,
        {
            if self.entries[i].0.eq(key) {
                return Some(i);
            }
            i += 1;
        }
        None
    }

    /// Record one observation: returns the per-counter rates against the
    /// prior sample (zero on first sight of the key, on a stale or repeated
    /// timestamp, and on counter resets) and advances the stored sample.
    pub fn observe(&mut self, key: &String, timestamp: u64, values: Vec<u64>) -> (rates: Vec<u64>)
        requires
            old(self).wf(),
        ensures
            final(self).wf(),
            rates@ == observe_rates(old(self).model(), key@, timestamp, values@),
            final(self).model() == observe_update(old(self).model(), key@, timestamp, values@),
            rates@.len() == values@.len(),
    {
        proof {
            lemma_entries_model_char(self.entries@, key@);
        }
        let found = self.find(key);
        match found {
            None => {
                let rates = zero_vec(values.len());
                let ghost pre = self.entries@;
                self.entries.push((key.clone(), RateSample { timestamp, cumulative_values: values }));
                proof {
                    assert(self.entries@.drop_last() =~= pre);
                    assert(forall|i: int| 0 <= i < pre.len() ==> pre[i].0@ != key@);
                    assert(self.model() =~= observe_update(
                        entries_model(pre),
                        key@,
                        timestamp,
                        self.entries@.last().1.cumulative_values@,
                    ));
                }
                rates
            },
            Some(i) => {
                let prior_ts = self.entries[i].1.timestamp;
                if timestamp < prior_ts {
                    let rates = zero_vec(values.len());
                    proof {
                        assert(observe_update(self.model(), key@, timestamp, values@) == self.model());
                    }
                    rates
                } else {
                    let mut rates: Vec<u64> = Vec::new();
                    let dt = timestamp - prior_ts;
                    if dt > 0 {
                        let mut j: usize = 0;
                        while j < values.len()
                            invariant
                                j <= values@.len(),
                                rates@.len() == j,
                                i < self.entries@.len(),
                                dt > 0,
                                forall|k: int|
                                    0 <= k < j ==> rates@[k] == (if k
                                        < self.entries@[i as int].1.cumulative_values@.len() {
                                        rate_of(
                                            self.entries@[i as int].1.cumulative_values@[k],
                                            values@[k],
                                            dt,
                                        )
                                    } else {
                                        0u64
                                    }),
                            decreases values@.len() - j,
                        {
                            if j < self.entries[i].1.cumulative_values.len() {
                                let prev = self.entries[i].1.cumulative_values[j];
                                rates.push(rate_between(prev, values[j], dt));
                            } else {
                                rates.push(0);
                            }
                            j += 1;
                        }
                    } else {
                        rates = zero_vec(values.len());
                    }
                    let ghost pre = self.entries@;
                    let pair = self.entries.remove(i);
                    self.entries.push((pair.0, RateSample { timestamp, cumulative_values: values }));
                    proof {
                        lemma_entries_model_remove(pre, i as int);
                        assert(self.entries@.drop_last() =~= pre.remove(i as int));
                        lemma_entries_model_char(pre.remove(i as int), key@);
                        assert(forall|a: int|
                            0 <= a < pre.remove(i as int).len() ==> pre.remove(i as int)[a] == (if a
                                < i {
                                pre[a]
                            } else {
                                pre[a + 1]
                            }));
                        assert(forall|a: int|
                            0 <= a < pre.remove(i as int).len() ==> pre.remove(i as int)[a].0@
                                != key@);
                        assert(self.entries@.last().0@ == key@);
                        assert(distinct_keys(self.entries@));
                        assert(self.model() =~= entries_model(pre).insert(
                            key@,
                            SampleModel {
                                timestamp,
                                values: self.entries@.last().1.cumulative_values@,
                            },
                        ));
                        assert(rates@ =~= observe_rates(
                            entries_model(pre),
                            key@,
                            timestamp,
                            self.entries@.last().1.cumulative_values@,
                        ));
                    }
                    rates
                }
            },
        }
    }
}

/// A vector of `n` zero rates.
fn zero_vec(n: usize) -> (r: Vec<u64>)
    ensures
        r@ == zero_rates(n as nat),
{
    let mut r: Vec<u64> = Vec::new();
    let mut i: usize = 0;
    while i < n
        invariant
            i <= n,
            r@.len() == i,
            forall|k: int| 0 <= k < i ==> r@[k] == 0u64,
        decreases n - i,
    {
        r.push(0);
        i += 1;
    }
    proof {
        assert(r@ =~= zero_rates(n as nat));
    }
    r
}

/// Per-second rate between two cumulative readings.
pub fn rate_between(prev: u64, cur: u64, dt_ms: u64) -> (r: u64)
    requires
        dt_ms > 0,
    ensures
        r == rate_of(prev, cur, dt_ms),
{
    if cur <= prev {
        0
    } else {
        let delta = cur - prev;
        let q: u128 = (delta as u128) * 1000 / (dt_ms as u128);
        if q > u64::MAX as u128 {
            u64::MAX
        } else {
            q as u64
        }
    }
}

/// Rates are never negative: a counter reset clamps to zero rather than
/// underflowing.
pub proof fn lemma_rate_non_negative(prev: u64, cur: u64, dt_ms: u64)
    ensures
        rate_of(prev, cur, dt_ms) >= 0,
{
}

/// The first observation for a previously-unseen key yields zero rates,
/// one per counter handed in.
pub proof fn lemma_first_observation_zero(
    m: Map<Seq<char>, SampleModel>,
    key: Seq<char>,
    timestamp: u64,
    values: Seq<u64>,
)
    requires
        !m.contains_key(key),
    ensures
        observe_rates(m, key, timestamp, values) == zero_rates(values.len()),
        observe_rates(m, key, timestamp, values).len() == values.len(),
        forall|i: int| 0 <= i < values.len() ==> observe_rates(m, key, timestamp, values)[i] == 0u64,
{
}

} // verus!
