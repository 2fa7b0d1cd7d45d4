use std::cell::Cell;

use nova_monitor::cache::TtlCache;
use nova_monitor::lazy::LazyResource;
use nova_monitor::rate::RateTracker;

#[test]
fn rate_first_observation_is_zero() {
    let mut tracker = RateTracker::new();
    let key = String::from("eth0");
    let rates = tracker.observe(&key, 0, vec![1000, 500]);
    assert_eq!(rates, vec![0, 0]);
}

#[test]
fn rate_two_samples_give_bytes_per_second() {
    let mut tracker = RateTracker::new();
    let key = String::from("eth0");
    let first = tracker.observe(&key, 0, vec![1000, 500]);
    assert_eq!(first, vec![0, 0]);
    let rates = tracker.observe(&key, 2000, vec![3000, 1500]);
    assert_eq!(rates, vec![1000, 500]);
}

#[test]
fn rate_counter_reset_clamps_to_zero() {
    let mut tracker = RateTracker::new();
    let key = String::from("eth0");
    tracker.observe(&key, 2000, vec![3000, 1500]);
    let rates = tracker.observe(&key, 3000, vec![2000, 1400]);
    assert_eq!(rates, vec![0, 0]);
}

#[test]
fn rate_zero_interval_gives_zero_rates() {
    let mut tracker = RateTracker::new();
    let key = String::from("wlan0");
    tracker.observe(&key, 1000, vec![100]);
    let rates = tracker.observe(&key, 1000, vec![600]);
    assert_eq!(rates, vec![0]);
}

#[test]
fn rate_clock_regression_gives_zero_and_keeps_baseline() {
    let mut tracker = RateTracker::new();
    let key = String::from("wlan0");
    tracker.observe(&key, 5000, vec![100]);
    let stale = tracker.observe(&key, 4000, vec![200]);
    assert_eq!(stale, vec![0]);
    // the baseline still sits at t=5000 with value 100
    let rates = tracker.observe(&key, 6000, vec![1100]);
    assert_eq!(rates, vec![1000]);
}

#[test]
fn rate_keys_are_independent() {
    let mut tracker = RateTracker::new();
    let a = String::from("eth0");
    let b = String::from("eth1");
    tracker.observe(&a, 0, vec![0]);
    let first_b = tracker.observe(&b, 1000, vec![4000]);
    assert_eq!(first_b, vec![0]);
    let rates_a = tracker.observe(&a, 2000, vec![1000]);
    assert_eq!(rates_a, vec![500]);
}

#[test]
fn cache_fresh_hit_returns_stored_value_without_recompute() {
    let mut cache: TtlCache<u64> = TtlCache::new();
    let key = String::from("probe");
    let calls = Cell::new(0u32);
    let first = *cache.get_or_compute(&key, 1000, 60000, || {
        calls.set(calls.get() + 1);
        41
    });
    let second = *cache.get_or_compute(&key, 60999, 60000, || {
        calls.set(calls.get() + 1);
        99
    });
    assert_eq!(first, 41);
    assert_eq!(second, 41);
    assert_eq!(calls.get(), 1);
}

#[test]
fn cache_expired_entry_is_recomputed() {
    let mut cache: TtlCache<u64> = TtlCache::new();
    let key = String::from("probe");
    let calls = Cell::new(0u32);
    cache.get_or_compute(&key, 1000, 60000, || {
        calls.set(calls.get() + 1);
        41
    });
    let second = *cache.get_or_compute(&key, 61000, 60000, || {
        calls.set(calls.get() + 1);
        99
    });
    assert_eq!(second, 99);
    assert_eq!(calls.get(), 2);
}

#[test]
fn cache_get_fresh_never_mutates() {
    let mut cache: TtlCache<u64> = TtlCache::new();
    let key = String::from("probe");
    assert!(cache.get_fresh(&key, 0, 1000).is_none());
    cache.store(&key, 500, 7);
    assert_eq!(cache.get_fresh(&key, 1499, 1000), Some(&7));
    assert!(cache.get_fresh(&key, 1500, 1000).is_none());
    // the stale entry is still there, only no longer served
    assert_eq!(cache.get_fresh(&key, 1400, 1000), Some(&7));
}

#[test]
fn cache_stores_failed_outcomes_too() {
    let mut cache: TtlCache<Option<u64>> = TtlCache::new();
    let key = String::from("device");
    let calls = Cell::new(0u32);
    let first = cache
        .get_or_compute(&key, 0, 60000, || {
            calls.set(calls.get() + 1);
            None
        })
        .clone();
    let second = cache
        .get_or_compute(&key, 30000, 60000, || {
            calls.set(calls.get() + 1);
            Some(5)
        })
        .clone();
    assert_eq!(first, None);
    assert_eq!(second, None);
    assert_eq!(calls.get(), 1);
}

#[test]
fn lazy_init_runs_exactly_once() {
    let mut lazy: LazyResource<u32> = LazyResource::new();
    let calls = Cell::new(0u32);
    assert!(!lazy.attempted());
    let first = lazy.get_or_init(|| {
        calls.set(calls.get() + 1);
        Some(7)
    });
    assert_eq!(first, Some(&7));
    let second = lazy.get_or_init(|| {
        calls.set(calls.get() + 1);
        Some(13)
    });
    assert_eq!(second, Some(&7));
    assert_eq!(calls.get(), 1);
    assert!(lazy.attempted());
    assert_eq!(lazy.peek(), Some(&7));
}

#[test]
fn lazy_unavailable_is_permanent() {
    let mut lazy: LazyResource<u32> = LazyResource::new();
    let calls = Cell::new(0u32);
    let first = lazy.get_or_init(|| {
        calls.set(calls.get() + 1);
        None
    });
    assert_eq!(first, None);
    let second = lazy.get_or_init(|| {
        calls.set(calls.get() + 1);
        Some(3)
    });
    assert_eq!(second, None);
    assert_eq!(calls.get(), 1);
    assert!(lazy.attempted());
    assert_eq!(lazy.peek(), None);
}
