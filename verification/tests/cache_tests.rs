use dns_recursor::cache::{
    write_plan, CacheKey, CacheState, CacheWrite, CachedEntry, DnsCaches, TtlPolicy,
    RCODE_NOERROR, RCODE_NXDOMAIN, RCODE_REFUSED, RCODE_SERVFAIL,
};
use dns_recursor::config::{CacheConfig, NegativeConfig};

fn cache_config() -> CacheConfig {
    CacheConfig {
        answer_cache_size: 100,
        negative_cache_size: 100,
        min_ttl: 5,
        max_ttl: 86400,
        negative_ttl: 300,
        prefetch_threshold_secs: 10,
        stale_window_secs: 30,
        negative: NegativeConfig {
            enabled: true,
            cache_nxdomain: true,
            cache_nodata: false,
            two_hit: true,
            probe_ttl_secs: 60,
            min_ttl: 5,
            max_ttl: 900,
        },
    }
}

fn policy() -> TtlPolicy {
    TtlPolicy::of_config(&cache_config())
}

#[test]
fn entry_invariant_on_insert() {
    let e = CachedEntry::new(vec![1, 2, 3], 1000, 60, 30);
    assert_eq!(e.expires_at, 1060);
    assert_eq!(e.stale_until, 1090);
    assert!(e.expires_at <= e.stale_until);
    assert_eq!(e.stale_until - e.expires_at, 30);
}

#[test]
fn clamp_ttl_bounds() {
    let caches = DnsCaches::new(&cache_config());
    // a zero TTL is clamped up to min_ttl
    assert_eq!(caches.clamp_ttl(0), 5);
    // a huge TTL is clamped down to max_ttl
    assert_eq!(caches.clamp_ttl(1_000_000), 86400);
    // an in-range TTL is kept
    assert_eq!(caches.clamp_ttl(300), 300);
}

#[test]
fn cache_states_over_time() {
    let e = CachedEntry::new(vec![], 1000, 60, 30);
    // expires_at 1060, stale_until 1090, prefetch threshold 10
    assert_eq!(e.state_at(10, 1000), CacheState::Fresh);
    assert_eq!(e.state_at(10, 1049), CacheState::Fresh);
    assert_eq!(e.state_at(10, 1050), CacheState::NearExpiry);
    assert_eq!(e.state_at(10, 1059), CacheState::NearExpiry);
    assert_eq!(e.state_at(10, 1060), CacheState::Stale);
    assert_eq!(e.state_at(10, 1089), CacheState::Stale);
    assert_eq!(e.state_at(10, 1090), CacheState::Dead);
}

#[test]
fn write_plan_never_caches_failures() {
    let p = policy();
    for rcode in [RCODE_SERVFAIL, RCODE_REFUSED] {
        for neg in [false, true] {
            for probe in [false, true] {
                assert_eq!(write_plan(&p, rcode, false, neg, probe), CacheWrite::NoWrite);
            }
        }
    }
}

#[test]
fn write_plan_two_hit_sequence() {
    let p = policy();
    // first observation: no negative entry, no probe -> leave a probe
    assert_eq!(write_plan(&p, RCODE_NXDOMAIN, false, false, false), CacheWrite::StoreProbe);
    // second observation while the probe stands -> store the negative
    assert_eq!(write_plan(&p, RCODE_NXDOMAIN, false, false, true), CacheWrite::StoreNegative);
    // entry already cached, probe gone -> nothing to do
    assert_eq!(write_plan(&p, RCODE_NXDOMAIN, false, true, false), CacheWrite::NoWrite);
    // positive answers are always stored
    assert_eq!(write_plan(&p, RCODE_NOERROR, true, false, false), CacheWrite::StorePositive);
}

#[test]
fn write_plan_respects_negative_config() {
    let mut p = policy();
    p.two_hit = false;
    assert_eq!(write_plan(&p, RCODE_NXDOMAIN, false, false, false), CacheWrite::StoreNegative);
    p.neg_enabled = false;
    assert_eq!(write_plan(&p, RCODE_NXDOMAIN, false, false, false), CacheWrite::NoWrite);
    let mut p = policy();
    // NODATA is cached only when configured
    assert_eq!(write_plan(&p, RCODE_NOERROR, false, false, true), CacheWrite::NoWrite);
    p.cache_nodata = true;
    assert_eq!(write_plan(&p, RCODE_NOERROR, false, false, true), CacheWrite::StoreNegative);
}

#[test]
fn store_insert_and_lookup() {
    let mut caches = DnsCaches::new(&cache_config());
    let key = CacheKey::of_query("example.com.", 1, false);
    let now = 1_700_000_000u64;
    caches.insert_answer(key.clone(), vec![9, 9, 9], 300, now);
    let entry = caches.peek_answer(&key).expect("entry present");
    assert_eq!(entry.bytes, vec![9, 9, 9]);
    assert_eq!(entry.expires_at, now + 300);
    assert_eq!(entry.stale_until, now + 300 + 30);
    match caches.lookup_positive(&key, now) {
        dns_recursor::cache::CacheLookup::Serve { bytes, refresh } => {
            assert_eq!(bytes, vec![9, 9, 9]);
            assert!(!refresh);
        },
        dns_recursor::cache::CacheLookup::Miss => panic!("expected a hit"),
    }
    // near expiry asks for a refresh
    match caches.lookup_positive(&key, now + 295) {
        dns_recursor::cache::CacheLookup::Serve { refresh, .. } => assert!(refresh),
        dns_recursor::cache::CacheLookup::Miss => panic!("expected a near-expiry hit"),
    }
    // stale is still served with a refresh
    match caches.lookup_positive(&key, now + 310) {
        dns_recursor::cache::CacheLookup::Serve { refresh, .. } => assert!(refresh),
        dns_recursor::cache::CacheLookup::Miss => panic!("expected a stale hit"),
    }
    // dead is a miss
    match caches.lookup_positive(&key, now + 331) {
        dns_recursor::cache::CacheLookup::Serve { .. } => panic!("expected a miss"),
        dns_recursor::cache::CacheLookup::Miss => {},
    }
}

#[test]
fn ttl_clamping_on_insert() {
    let mut caches = DnsCaches::new(&cache_config());
    let now = 2_000_000u64;
    // a zero record TTL is stored with min_ttl
    let key0 = CacheKey::of_query("zero.example.", 1, false);
    caches.insert_answer(key0.clone(), vec![], 0, now);
    let e = caches.peek_answer(&key0).expect("present");
    assert_eq!(e.expires_at, now + 5);
    // an overlong record TTL is stored with max_ttl
    let key1 = CacheKey::of_query("big.example.", 1, false);
    caches.insert_answer(key1.clone(), vec![], 10_000_000, now);
    let e = caches.peek_answer(&key1).expect("present");
    assert_eq!(e.expires_at, now + 86400);
}

#[test]
fn probe_and_negative_stores() {
    let mut caches = DnsCaches::new(&cache_config());
    let key = CacheKey::of_query("no-such.example.", 1, false);
    let now = 5_000u64;
    assert!(!caches.probe_present(&key, now));
    caches.insert_probe(key.clone(), now);
    assert!(caches.probe_present(&key, now));
    assert!(caches.probe_present(&key, now + 59));
    // an expired probe counts as absent
    assert!(!caches.probe_present(&key, now + 60));
    assert!(caches.lookup_negative(&key, now).is_none());
    caches.insert_negative(key.clone(), vec![7], None, now);
    // fallback negative_ttl 300 within [5, 900]
    let e = caches.peek_negative(&key).expect("present");
    assert_eq!(e.expires_at, now + 300);
    assert_eq!(caches.lookup_negative(&key, now), Some(vec![7]));
    // the SOA minimum drives the negative TTL when present, clamped
    let key2 = CacheKey::of_query("other.example.", 1, false);
    caches.insert_negative(key2.clone(), vec![], Some(10_000), now);
    let e = caches.peek_negative(&key2).expect("present");
    assert_eq!(e.expires_at, now + 900);
}
