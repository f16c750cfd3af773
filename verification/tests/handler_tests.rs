use dns_recursor::cache::{CacheKey, DnsCaches, RCODE_NXDOMAIN, RCODE_SERVFAIL};
use dns_recursor::config::{
    AppConfig, CacheConfig, FiltersConfig, NegativeConfig, RecursorConfig, ResolverMode,
    ZonesConfig,
};
use dns_recursor::filters::Filters;
use dns_recursor::forwarder::{forwarder_plan, parse_upstream, Proto, UpstreamAddr};
use dns_recursor::handler::{DnsHandler, PreResolve, ResolveOutcome};
use dns_recursor::recursor::recursor_plan;
use dns_recursor::wire::WireRecord;
use dns_recursor::zones::{ZoneStore, ZoneTextRecord, RRTYPE_A};

fn test_config() -> AppConfig {
    AppConfig {
        listen_udp: "127.0.0.1:0".to_string(),
        listen_tcp: "127.0.0.1:0".to_string(),
        upstreams: Some(vec!["1.1.1.1:53".to_string()]),
        roots: vec![],
        zones: ZonesConfig { zones_dir: "zones".to_string() },
        filters: FiltersConfig {
            allowlist_domains: vec![],
            blocklist_domains: vec!["ads.example".to_string(), "tracking.example".to_string()],
            deny_nets: vec!["127.0.0.0/8".to_string()],
            allow_nets: vec![],
        },
        cache: CacheConfig {
            answer_cache_size: 20000,
            negative_cache_size: 5000,
            min_ttl: 5,
            max_ttl: 86400,
            negative_ttl: 300,
            prefetch_threshold_secs: 10,
            stale_window_secs: 30,
            negative: NegativeConfig {
                enabled: true,
                cache_nxdomain: true,
                cache_nodata: false,
                two_hit: true,
                probe_ttl_secs: 60,
                min_ttl: 5,
                max_ttl: 900,
            },
        },
        recursor: RecursorConfig {
            ns_cache_size: 4096,
            record_cache_size: 32768,
            recursion_limit: 32,
            ns_recursion_limit: 16,
            timeout_ms: 1500,
            attempts: 2,
            case_randomization: true,
            dnssec: "off".to_string(),
        },
    }
}

fn test_handler() -> DnsHandler {
    let cfg = test_config();
    let filters = Filters::from_config(&cfg.filters).unwrap();
    let caches = DnsCaches::new(&cfg.cache);
    let mut zones = ZoneStore::new();
    zones
        .ingest_zone(
            "local.test.",
            120,
            &vec![ZoneTextRecord {
                name: "printer".to_string(),
                typ: "A".to_string(),
                value: "192.0.2.9".to_string(),
            }],
        )
        .unwrap();
    DnsHandler::new(cfg, zones, filters, caches, ResolverMode::Forwarder)
}

fn wire_name(labels: &[&str]) -> Vec<u8> {
    let mut out = Vec::new();
    for l in labels {
        out.push(l.len() as u8);
        out.extend_from_slice(l.as_bytes());
    }
    out.push(0);
    out
}

fn a_record(labels: &[&str], ttl: u32, ip: [u8; 4]) -> WireRecord {
    WireRecord { name: wire_name(labels), rtype: 1, rclass: 1, ttl, rdata: ip.to_vec() }
}

#[test]
fn no_query_is_servfail() {
    let h = test_handler();
    assert!(matches!(h.pre_resolve(None, false, 0), PreResolve::NoQuery));
}

#[test]
fn blocklisted_name_is_refused_and_never_cached() {
    let h = test_handler();
    match h.pre_resolve(Some(("ads.example.", 1)), false, 0) {
        PreResolve::Refused => {},
        _ => panic!("expected refused"),
    }
    match h.pre_resolve(Some(("sub.ads.example.", 1)), false, 0) {
        PreResolve::Refused => {},
        _ => panic!("expected refused"),
    }
    // nothing was written anywhere
    let key = CacheKey::of_query("ads.example.", 1, false);
    assert!(h.caches.peek_answer(&key).is_none());
    assert!(h.caches.peek_negative(&key).is_none());
    assert!(h.caches.peek_probe(&key).is_none());
}

#[test]
fn zone_answer_before_cache() {
    let h = test_handler();
    match h.pre_resolve(Some(("printer.local.test.", 1)), false, 0) {
        PreResolve::ZoneAnswer { records } => {
            assert_eq!(records.len(), 1);
            assert_eq!(records[0].rdata, vec![192, 0, 2, 9]);
        },
        _ => panic!("expected a zone answer"),
    }
}

#[test]
fn miss_then_answer_then_fresh_hit() {
    let mut h = test_handler();
    let now = 1_700_000_000u64;
    let key = match h.pre_resolve(Some(("example.com.", 1)), false, now) {
        PreResolve::NeedResolve { key } => key,
        _ => panic!("expected a miss"),
    };
    let outcome = ResolveOutcome::Answered {
        records: vec![a_record(&["example", "com"], 300, [93, 184, 216, 34])],
    };
    let reply = h.finish_query(key, outcome, 0x1111, true, now);
    assert_eq!(reply.header.id, 0x1111);
    assert!(reply.header.qr && reply.header.ra && reply.header.rd);
    assert!(!reply.header.aa && !reply.header.ad);
    assert_eq!(reply.header.rcode, 0);
    assert_eq!(reply.answers.len(), 1);
    // the next request is served from the cache, fresh, no refresh
    match h.pre_resolve(Some(("Example.COM.", 1)), false, now + 1) {
        PreResolve::CacheHit { bytes, refresh, .. } => {
            assert!(!refresh);
            let served = dns_recursor::handler::serve_cached(&bytes, 0x2222, false).unwrap();
            assert_eq!(served.header.id, 0x2222);
            assert_eq!(served.answers.len(), 1);
            assert_eq!(served.answers[0].rdata, vec![93, 184, 216, 34]);
        },
        _ => panic!("expected a cache hit"),
    }
    // near expiry the hit asks for a background refresh
    match h.pre_resolve(Some(("example.com.", 1)), false, now + 295) {
        PreResolve::CacheHit { refresh, .. } => assert!(refresh),
        _ => panic!("expected a near-expiry hit"),
    }
    // past the stale window the entry is dead and the name misses again
    match h.pre_resolve(Some(("example.com.", 1)), false, now + 331) {
        PreResolve::NeedResolve { .. } => {},
        _ => panic!("expected a miss after death"),
    }
}

#[test]
fn two_hit_negative_caching_end_to_end() {
    let mut h = test_handler();
    let now = 1_700_000_000u64;
    let qname = "no-such-name.invalid.";
    // first NXDOMAIN: reply carries the code, negative store stays empty
    let key = match h.pre_resolve(Some((qname, 1)), false, now) {
        PreResolve::NeedResolve { key } => key,
        _ => panic!("expected a miss"),
    };
    let reply = h.finish_query(
        key.clone(),
        ResolveOutcome::NoRecords { rcode: RCODE_NXDOMAIN, soa_minimum: Some(60) },
        1,
        true,
        now,
    );
    assert_eq!(reply.header.rcode, 3);
    assert!(reply.answers.is_empty());
    assert!(h.caches.peek_negative(&key).is_none());
    assert!(h.caches.peek_probe(&key).is_some());
    // second NXDOMAIN while the probe stands: the negative entry appears
    let key2 = match h.pre_resolve(Some((qname, 1)), false, now + 1) {
        PreResolve::NeedResolve { key } => key,
        _ => panic!("expected a miss"),
    };
    let reply = h.finish_query(
        key2,
        ResolveOutcome::NoRecords { rcode: RCODE_NXDOMAIN, soa_minimum: Some(60) },
        2,
        true,
        now + 1,
    );
    assert_eq!(reply.header.rcode, 3);
    assert!(h.caches.peek_negative(&key).is_some());
    // and the third request is a negative cache hit served without refresh
    match h.pre_resolve(Some((qname, 1)), false, now + 2) {
        PreResolve::NegativeHit { bytes } => {
            let served = dns_recursor::handler::serve_cached(&bytes, 7, false).unwrap();
            assert_eq!(served.header.rcode, 3);
            assert!(served.answers.is_empty());
        },
        _ => panic!("expected a negative hit"),
    }
    // the answer cache stays empty for this key
    assert!(h.caches.peek_answer(&key).is_none());
}

#[test]
fn transient_failure_is_servfail_and_uncached() {
    let mut h = test_handler();
    let now = 42u64;
    let key = match h.pre_resolve(Some(("flaky.example.", 1)), false, now) {
        PreResolve::NeedResolve { key } => key,
        _ => panic!("expected a miss"),
    };
    let reply = h.finish_query(key.clone(), ResolveOutcome::Failed, 9, false, now);
    assert_eq!(reply.header.rcode, 2);
    assert!(!reply.header.rd);
    assert!(reply.answers.is_empty());
    assert!(h.caches.peek_answer(&key).is_none());
    assert!(h.caches.peek_negative(&key).is_none());
    assert!(h.caches.peek_probe(&key).is_none());
    // an upstream ServFail code is equally uncached
    let reply = h.finish_query(
        key.clone(),
        ResolveOutcome::NoRecords { rcode: RCODE_SERVFAIL, soa_minimum: None },
        9,
        false,
        now,
    );
    assert_eq!(reply.header.rcode, 2);
    assert!(h.caches.peek_negative(&key).is_none());
    assert!(h.caches.peek_probe(&key).is_none());
}

#[test]
fn background_refresh_replaces_entry() {
    let mut h = test_handler();
    let now = 100u64;
    let key = CacheKey::of_query("refresh.example.", 1, false);
    h.caches.insert_answer(key.clone(), vec![1], 30, now);
    // a successful refresh replaces the entry
    h.refresh_complete(
        key.clone(),
        ResolveOutcome::Answered {
            records: vec![a_record(&["refresh", "example"], 600, [9, 9, 9, 9])],
        },
        now + 20,
    );
    let e = h.caches.peek_answer(&key).unwrap();
    assert_eq!(e.expires_at, now + 20 + 600);
    // a failed refresh is silent: the entry stands as it was
    h.refresh_complete(key.clone(), ResolveOutcome::Failed, now + 25);
    let e2 = h.caches.peek_answer(&key).unwrap();
    assert_eq!(e2.expires_at, now + 20 + 600);
}

#[test]
fn malformed_records_are_dropped_before_caching() {
    let mut h = test_handler();
    let now = 50u64;
    let key = CacheKey::of_query("mixed.example.", 1, false);
    let bad = WireRecord {
        // a compression pointer, not a plain label: not replayable
        name: vec![0xc0, 0x0c],
        rtype: 1,
        rclass: 1,
        ttl: 300,
        rdata: vec![1, 2, 3, 4],
    };
    let good = a_record(&["mixed", "example"], 300, [5, 6, 7, 8]);
    let reply = h.finish_query(
        key.clone(),
        ResolveOutcome::Answered { records: vec![bad, good] },
        3,
        true,
        now,
    );
    assert_eq!(reply.answers.len(), 1);
    assert_eq!(reply.answers[0].rdata, vec![5, 6, 7, 8]);
}

#[test]
fn forwarder_registers_udp_and_tcp_per_upstream() {
    let upstreams = vec![UpstreamAddr { addr: 0x01010101, v6: false, port: 53 }];
    let plan = forwarder_plan(&upstreams);
    assert_eq!(plan.len(), 2);
    assert_eq!(plan[0].proto, Proto::Udp);
    assert_eq!(plan[1].proto, Proto::Tcp);
    assert_eq!(plan[0].addr, upstreams[0]);
    assert_eq!(plan[1].addr, upstreams[0]);
    assert!(plan[0].trust_negative_responses && plan[1].trust_negative_responses);
}

#[test]
fn recursor_plan_validation() {
    let mut cfg = test_config();
    let filters = Filters::from_config(&cfg.filters).unwrap();
    // no roots: nothing to walk from
    assert!(recursor_plan(&cfg, &filters, false).is_err());
    cfg.roots = vec!["198.41.0.4".to_string(), "2001:503:ba3e::2:30".to_string()];
    cfg.recursor.attempts = 0;
    let plan = recursor_plan(&cfg, &filters, false).unwrap();
    assert_eq!(plan.roots.len(), 2);
    assert!(!plan.roots[0].v6);
    assert_eq!(plan.roots[0].addr, 0xc6290004);
    assert!(plan.roots[1].v6);
    // the retry budget is never below one attempt
    assert_eq!(plan.attempts, 1);
    assert_eq!(plan.recursion_limit, 32);
    // a root that is no IP address is fatal
    cfg.roots = vec!["not-an-ip".to_string()];
    assert!(recursor_plan(&cfg, &filters, false).is_err());
    // an unsupported DNSSEC policy is fatal
    cfg.roots = vec!["198.41.0.4".to_string()];
    cfg.recursor.dnssec = "validate".to_string();
    assert!(recursor_plan(&cfg, &filters, false).is_err());
}

#[test]
fn upstream_endpoint_parsing() {
    assert_eq!(
        parse_upstream("1.1.1.1:53"),
        Some(UpstreamAddr { addr: 0x01010101, v6: false, port: 53 })
    );
    assert_eq!(
        parse_upstream("192.0.2.1:65535"),
        Some(UpstreamAddr { addr: 0xc0000201, v6: false, port: 65535 })
    );
    let v6 = parse_upstream("[2001:db8::1]:853").unwrap();
    assert!(v6.v6);
    assert_eq!(v6.addr, 0x2001_0db8_0000_0000_0000_0000_0000_0001);
    assert_eq!(v6.port, 853);
    // the address alone, an empty port, an oversized port, an unbracketed
    // IPv6 address and a missing colon are all rejected
    assert_eq!(parse_upstream("1.1.1.1"), None);
    assert_eq!(parse_upstream("1.1.1.1:"), None);
    assert_eq!(parse_upstream("1.1.1.1:99999"), None);
    assert_eq!(parse_upstream("2001:db8::1:53"), None);
    assert_eq!(parse_upstream("[2001:db8::1]53"), None);
    assert_eq!(parse_upstream(""), None);
}
