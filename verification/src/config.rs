//! Configuration model and validation.
//!
//! The structures mirror the TOML configuration file; loading the file and
//! deserializing it happen outside the library, which then validates the
//! plain values here.
use vstd::prelude::*;
use crate::dname::{lower_bytes, str_bytes, trim_end_ws, trim_start_ws};

verus! {

/// Where zone files are read from.
pub struct ZonesConfig {
    pub zones_dir: String,
}

/// Suffix lists for clients and CIDR lists for nameserver targets.
pub struct FiltersConfig {
    pub allowlist_domains: Vec<String>,
    pub blocklist_domains: Vec<String>,
    pub deny_nets: Vec<String>,
    pub allow_nets: Vec<String>,
}

/// Negative-caching policy: which negatives are cached, the two-hit probe,
/// and the negative TTL clamp.
pub struct NegativeConfig {
    pub enabled: bool,
    pub cache_nxdomain: bool,
    pub cache_nodata: bool,
    pub two_hit: bool,
    pub probe_ttl_secs: u64,
    pub min_ttl: u64,
    pub max_ttl: u64,
}

/// Cache sizes, TTL clamps, prefetch threshold and stale window.
pub struct CacheConfig {
    pub answer_cache_size: u64,
    pub negative_cache_size: u64,
    pub min_ttl: u64,
    pub max_ttl: u64,
    pub negative_ttl: u64,
    pub prefetch_threshold_secs: u64,
    pub stale_window_secs: u64,
    pub negative: NegativeConfig,
}

/// Iterative-recursor knobs.
pub struct RecursorConfig {
    pub ns_cache_size: usize,
    pub record_cache_size: usize,
    pub recursion_limit: u8,
    pub ns_recursion_limit: u8,
    pub timeout_ms: u64,
    pub attempts: usize,
    pub case_randomization: bool,
    pub dnssec: String,
}

/// The whole configuration.
pub struct AppConfig {
    pub listen_udp: String,
    pub listen_tcp: String,
    pub upstreams: Option<Vec<String>>,
    pub roots: Vec<String>,
    pub zones: ZonesConfig,
    pub filters: FiltersConfig,
    pub cache: CacheConfig,
    pub recursor: RecursorConfig,
}

/// The two mutually exclusive resolver modes.
#[derive(PartialEq, Eq, Structural, Clone, Copy, Debug)]
pub enum ResolverMode {
    Forwarder,
    Iterative,
}

/// Errors found while validating a configuration; all are fatal at startup.
#[derive(PartialEq, Eq, Structural, Clone, Copy, Debug)]
pub enum ConfigError {
    /// Neither upstreams nor roots are configured.
    NoResolverMode,
    /// A CIDR entry in the filters did not parse.
    MalformedNet,
    /// The DNSSEC policy word is not one of the known ones.
    UnknownDnssec,
    /// The DNSSEC policy asks for DNSSEC processing that this build lacks.
    DnssecUnsupported,
    /// TTL clamp bounds are inverted (`min_ttl > max_ttl`).
    TtlBounds,
    /// A root-hint entry is not an IP address.
    MalformedRoot,
}

/// True when the configuration enables forwarder mode: `upstreams` is
/// present and non-empty.
pub open spec fn spec_has_upstreams(upstreams: &Option<Vec<String>>) -> bool {
    match upstreams {
        Some(v) => v@.len() > 0,
        None => false,
    }
}

impl AppConfig {
    /// Which resolver mode the configuration selects: forwarder when
    /// `upstreams` is non-empty, else iterative when `roots` is non-empty,
    /// else an error (both empty is fatal).
    pub fn resolver_mode(&self) -> (r: Result<ResolverMode, ConfigError>)
        ensures
            spec_has_upstreams(&self.upstreams) ==> r == Ok::<ResolverMode, ConfigError>(
                ResolverMode::Forwarder,
            ),
            !spec_has_upstreams(&self.upstreams) && self.roots@.len() > 0 ==> r == Ok::<
                ResolverMode,
                ConfigError,
            >(ResolverMode::Iterative),
            !spec_has_upstreams(&self.upstreams) && self.roots@.len() == 0 ==> r == Err::<
                ResolverMode,
                ConfigError,
            >(ConfigError::NoResolverMode),
    {
        let has_upstreams = match &self.upstreams {
            Some(v) => v.len() > 0,
            None => false,
        };
        if has_upstreams {
            Ok(ResolverMode::Forwarder)
        } else if self.roots.len() > 0 {
            Ok(ResolverMode::Iterative)
        } else {
            Err(ConfigError::NoResolverMode)
        }
    }
}

impl CacheConfig {
    /// The TTL clamps must not be inverted, neither the positive nor the
    /// negative pair; inverted bounds are a fatal configuration error.
    pub fn validate(&self) -> (r: Result<(), ConfigError>)
        ensures
            r is Ok <==> self.min_ttl <= self.max_ttl && self.negative.min_ttl
                <= self.negative.max_ttl,
            r is Err ==> r == Err::<(), ConfigError>(ConfigError::TtlBounds),
    {
        if self.min_ttl > self.max_ttl || self.negative.min_ttl > self.negative.max_ttl {
            Err(ConfigError::TtlBounds)
        } else {
            Ok(())
        }
    }
}

/// The DNSSEC policy of the recursor.
#[derive(PartialEq, Eq, Structural, Clone, Copy, Debug)]
pub enum DnssecPolicy {
    /// DNSSEC records are neither requested nor validated.
    SecurityUnaware,
    /// Signed data is requested and passed through without validation.
    ValidationDisabled,
    /// Responses are validated against a static trust anchor.
    ValidateWithStaticKey,
}

/// The configuration word for a policy, after trimming ASCII whitespace and
/// lowercasing.
pub open spec fn policy_word(s: Seq<u8>) -> Seq<u8> {
    lower_bytes(trim_end_ws(trim_start_ws(s)))
}

/// The policy a word names, if any.
pub open spec fn spec_policy_of(w: Seq<u8>) -> Option<DnssecPolicy> {
    if w == str_bytes("off") || w == str_bytes("securityunaware") {
        Some(DnssecPolicy::SecurityUnaware)
    } else if w == str_bytes("process") || w == str_bytes("validationdisabled") {
        Some(DnssecPolicy::ValidationDisabled)
    } else if w == str_bytes("validate") || w == str_bytes("validatewithstatickey") {
        Some(DnssecPolicy::ValidateWithStaticKey)
    } else {
        None
    }
}

/// Compare a byte vector against a string literal's bytes.
fn vec_eq_str(v: &Vec<u8>, s: &str) -> (r: bool)
    ensures
        r == (v@ == str_bytes(s)),
{
    crate::dname::bytes_eq(v.as_slice(), s.as_bytes())
}

/// What parsing a DNSSEC policy word yields: the policy it names, an
/// error for an unknown word, and an error for a policy this build cannot
/// honor.
pub open spec fn spec_policy_result(s: Seq<u8>, dnssec_supported: bool) -> Result<
    DnssecPolicy,
    ConfigError,
> {
    match spec_policy_of(policy_word(s)) {
        None => Err(ConfigError::UnknownDnssec),
        Some(DnssecPolicy::SecurityUnaware) => Ok(DnssecPolicy::SecurityUnaware),
        Some(p) => if dnssec_supported {
            Ok(p)
        } else {
            Err(ConfigError::DnssecUnsupported)
        },
    }
}

/// Parse the configured DNSSEC policy word. `dnssec_supported` says whether
/// this build can process DNSSEC at all: without it, any policy besides
/// "off" is a configuration error, as is an unknown word.
pub fn parse_dnssec_policy(s: &str, dnssec_supported: bool) -> (r: Result<
    DnssecPolicy,
    ConfigError,
>)
    ensures
        r == spec_policy_result(str_bytes(s), dnssec_supported),
{
    let trimmed = crate::dname::trim_ws_vec(s.as_bytes());
    let word = crate::dname::lower_vec(trimmed.as_slice());
    if vec_eq_str(&word, "off") || vec_eq_str(&word, "securityunaware") {
        Ok(DnssecPolicy::SecurityUnaware)
    } else if vec_eq_str(&word, "process") || vec_eq_str(&word, "validationdisabled") {
        if dnssec_supported {
            Ok(DnssecPolicy::ValidationDisabled)
        } else {
            Err(ConfigError::DnssecUnsupported)
        }
    } else if vec_eq_str(&word, "validate") || vec_eq_str(&word, "validatewithstatickey") {
        if dnssec_supported {
            Ok(DnssecPolicy::ValidateWithStaticKey)
        } else {
            Err(ConfigError::DnssecUnsupported)
        }
    } else {
        Err(ConfigError::UnknownDnssec)
    }
}

} // verus!
