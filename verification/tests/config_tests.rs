use dns_recursor::config::{
    parse_dnssec_policy, AppConfig, CacheConfig, ConfigError, DnssecPolicy, FiltersConfig,
    NegativeConfig, RecursorConfig, ResolverMode, ZonesConfig,
};
use dns_recursor::filters::Filters;

fn filters_config(
    allow: Vec<&str>,
    block: Vec<&str>,
    deny_nets: Vec<&str>,
    allow_nets: Vec<&str>,
) -> FiltersConfig {
    FiltersConfig {
        allowlist_domains: allow.into_iter().map(|s| s.to_string()).collect(),
        blocklist_domains: block.into_iter().map(|s| s.to_string()).collect(),
        deny_nets: deny_nets.into_iter().map(|s| s.to_string()).collect(),
        allow_nets: allow_nets.into_iter().map(|s| s.to_string()).collect(),
    }
}

fn base_config(upstreams: Option<Vec<&str>>, roots: Vec<&str>) -> AppConfig {
    AppConfig {
        listen_udp: "127.0.0.1:0".to_string(),
        listen_tcp: "127.0.0.1:0".to_string(),
        upstreams: upstreams.map(|v| v.into_iter().map(|s| s.to_string()).collect()),
        roots: roots.into_iter().map(|s| s.to_string()).collect(),
        zones: ZonesConfig { zones_dir: "zones".to_string() },
        filters: filters_config(vec![], vec![], vec![], vec![]),
        cache: CacheConfig {
            answer_cache_size: 1000,
            negative_cache_size: 1000,
            min_ttl: 5,
            max_ttl: 86400,
            negative_ttl: 300,
            prefetch_threshold_secs: 10,
            stale_window_secs: 30,
            negative: NegativeConfig {
                enabled: true,
                cache_nxdomain: true,
                cache_nodata: false,
                two_hit: true,
                probe_ttl_secs: 60,
                min_ttl: 5,
                max_ttl: 900,
            },
        },
        recursor: RecursorConfig {
            ns_cache_size: 4096,
            record_cache_size: 32768,
            recursion_limit: 32,
            ns_recursion_limit: 16,
            timeout_ms: 1500,
            attempts: 2,
            case_randomization: true,
            dnssec: "off".to_string(),
        },
    }
}

#[test]
fn dnssec_policy_words() {
    assert_eq!(parse_dnssec_policy("off", false), Ok(DnssecPolicy::SecurityUnaware));
    assert_eq!(parse_dnssec_policy("  OFF ", false), Ok(DnssecPolicy::SecurityUnaware));
    assert_eq!(
        parse_dnssec_policy("SecurityUnaware", false),
        Ok(DnssecPolicy::SecurityUnaware)
    );
    assert_eq!(parse_dnssec_policy("process", false), Err(ConfigError::DnssecUnsupported));
    assert_eq!(parse_dnssec_policy("validate", false), Err(ConfigError::DnssecUnsupported));
    assert_eq!(parse_dnssec_policy("process", true), Ok(DnssecPolicy::ValidationDisabled));
    assert_eq!(
        parse_dnssec_policy("validate", true),
        Ok(DnssecPolicy::ValidateWithStaticKey)
    );
    assert_eq!(parse_dnssec_policy("bogus", false), Err(ConfigError::UnknownDnssec));
    assert_eq!(parse_dnssec_policy("", true), Err(ConfigError::UnknownDnssec));
}

#[test]
fn resolver_mode_selection() {
    let fwd = base_config(Some(vec!["1.1.1.1:53"]), vec![]);
    assert_eq!(fwd.resolver_mode(), Ok(ResolverMode::Forwarder));
    let rec = base_config(None, vec!["198.41.0.4"]);
    assert_eq!(rec.resolver_mode(), Ok(ResolverMode::Iterative));
    let fwd_wins = base_config(Some(vec!["1.1.1.1:53"]), vec!["198.41.0.4"]);
    assert_eq!(fwd_wins.resolver_mode(), Ok(ResolverMode::Forwarder));
    let neither = base_config(None, vec![]);
    assert_eq!(neither.resolver_mode(), Err(ConfigError::NoResolverMode));
    let empty_upstreams = base_config(Some(vec![]), vec![]);
    assert_eq!(empty_upstreams.resolver_mode(), Err(ConfigError::NoResolverMode));
}

#[test]
fn filters_reject_malformed_cidr() {
    let cfg = filters_config(vec![], vec![], vec!["10.0.0.0/33"], vec![]);
    assert!(matches!(Filters::from_config(&cfg), Err(ConfigError::MalformedNet)));
    let cfg = filters_config(vec![], vec![], vec!["not-a-net"], vec![]);
    assert!(matches!(Filters::from_config(&cfg), Err(ConfigError::MalformedNet)));
}

#[test]
fn domain_filter_blocklist() {
    let cfg = filters_config(vec![], vec!["ads.example", "Tracking.Example."], vec![], vec![]);
    let f = Filters::from_config(&cfg).unwrap();
    assert!(!f.domain_allowed("ads.example."));
    assert!(!f.domain_allowed("WWW.ADS.EXAMPLE."));
    assert!(!f.domain_allowed("a.tracking.example"));
    assert!(f.domain_allowed("example.com."));
    assert!(f.domain_allowed("badads.example."));
}

#[test]
fn domain_filter_allowlist() {
    let cfg = filters_config(vec!["corp.example"], vec!["bad.corp.example"], vec![], vec![]);
    let f = Filters::from_config(&cfg).unwrap();
    assert!(f.domain_allowed("host.corp.example."));
    assert!(f.domain_allowed("corp.example."));
    assert!(!f.domain_allowed("example.com."));
    assert!(!f.domain_allowed("bad.corp.example."));
    assert!(!f.domain_allowed("x.bad.corp.example."));
}

#[test]
fn ip_filter_deny_nets() {
    let cfg = filters_config(
        vec![],
        vec![],
        vec!["127.0.0.0/8", "10.0.0.0/8", "::1/128", "fc00::/7"],
        vec![],
    );
    let f = Filters::from_config(&cfg).unwrap();
    // 127.0.0.1
    assert!(!f.ip_allowed(0x7f000001, false));
    // 10.255.0.1
    assert!(!f.ip_allowed(0x0aff0001, false));
    // 8.8.8.8
    assert!(f.ip_allowed(0x08080808, false));
    // ::1
    assert!(!f.ip_allowed(1, true));
    // fd00::1 lies in fc00::/7
    assert!(!f.ip_allowed(0xfd00_0000_0000_0000_0000_0000_0000_0001, true));
    // 2001:db8::1 does not
    assert!(f.ip_allowed(0x2001_0db8_0000_0000_0000_0000_0000_0001, true));
    // an IPv4 address never matches an IPv6 net and vice versa
    assert!(f.ip_allowed(1, false));
}

#[test]
fn ip_filter_allow_nets_restrict() {
    let cfg = filters_config(vec![], vec![], vec![], vec!["192.0.2.0/24"]);
    let f = Filters::from_config(&cfg).unwrap();
    assert!(f.ip_allowed(0xc0000201, false)); // 192.0.2.1
    assert!(!f.ip_allowed(0x08080808, false)); // 8.8.8.8
}

#[test]
fn cache_config_ttl_bounds() {
    let mut cfg = base_config(Some(vec!["1.1.1.1:53"]), vec![]).cache;
    assert!(cfg.validate().is_ok());
    cfg.min_ttl = 100;
    cfg.max_ttl = 5;
    assert_eq!(cfg.validate(), Err(ConfigError::TtlBounds));
    cfg.max_ttl = 100;
    cfg.negative.min_ttl = 1000;
    assert_eq!(cfg.validate(), Err(ConfigError::TtlBounds));
}
