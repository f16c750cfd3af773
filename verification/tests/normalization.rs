use dns_recursor::cache::CacheKey;
use dns_recursor::dname::{is_suffix, norm_domain, normalize_vec};

#[test]
fn norm_domain_lowercases_and_strips_dots() {
    assert_eq!(norm_domain("Example.COM."), "example.com");
    assert_eq!(norm_domain("ads.example"), "ads.example");
    assert_eq!(norm_domain("A.B.C..."), "a.b.c");
}

#[test]
fn norm_domain_trims_whitespace() {
    assert_eq!(norm_domain("  Example.Org.  "), "example.org");
    assert_eq!(norm_domain("\ttracking.example.\n"), "tracking.example");
}

#[test]
fn norm_domain_empty_becomes_dot() {
    assert_eq!(norm_domain(""), ".");
    assert_eq!(norm_domain("   "), ".");
    assert_eq!(norm_domain("..."), ".");
}

#[test]
fn normalize_vec_is_idempotent_at_runtime() {
    let once = normalize_vec(b"WWW.Example.COM.");
    let twice = normalize_vec(&once);
    assert_eq!(once, twice);
    assert_eq!(once, b"www.example.com".to_vec());
}

#[test]
fn is_suffix_matches_equal_and_dotted() {
    assert!(is_suffix("ads.example", "ads.example"));
    assert!(is_suffix("www.ads.example", "ads.example"));
    assert!(!is_suffix("badads.example", "ads.example"));
    assert!(!is_suffix("ads.example", "www.ads.example"));
    assert!(!is_suffix("example", "ads.example"));
}

#[test]
fn cache_key_normalizes_once() {
    let k1 = CacheKey::of_query("Example.COM.", 1, false);
    let k2 = CacheKey::of_query("example.com", 1, false);
    assert_eq!(k1, k2);
    assert_eq!(k1.qname_lc, "example.com");
    assert_eq!(k1.qtype, 1);
    assert!(!k1.do_bit);
    let k3 = CacheKey::of_query("example.com", 1, true);
    assert_ne!(k1, k3);
    let k4 = CacheKey::of_query("example.com", 28, false);
    assert_ne!(k1, k4);
}
