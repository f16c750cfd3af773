//! Iterative-recursor planning.
//!
//! The recursor walks the delegation chain from the root hints with
//! bounded recursion, a per-call deadline and a retry budget, keeping its
//! own NS and record caches and filtering which nameserver addresses it
//! may contact. The walk itself runs outside the library; the validated
//! plan it is built from is computed here.
use vstd::prelude::*;
use crate::config::{AppConfig, ConfigError, DnssecPolicy};
use crate::dname::{str_bytes, string_bytes};
use crate::filters::{Filters, IpNetV};
use crate::ipparse::spec_ipv4_of;
use crate::zones::ipv6_of;

verus! {

/// A parsed root-hint address (port 53 is implied).
#[derive(PartialEq, Eq, Structural, Clone, Copy, Debug)]
pub struct RootAddr {
    pub addr: u128,
    pub v6: bool,
}

/// What a root-hint string denotes: an IPv4 dotted quad, else an IPv6
/// address, else nothing.
pub open spec fn spec_root_of(s: Seq<u8>) -> Option<RootAddr> {
    match spec_ipv4_of(s) {
        Some(x) => Some(RootAddr { addr: x as u128, v6: false }),
        None => match ipv6_of(s) {
            Some(x) => Some(RootAddr { addr: x, v6: true }),
            None => None,
        },
    }
}

/// Parse one root-hint address.
pub fn parse_root(s: &str) -> (r: Option<RootAddr>)
    ensures
        r == spec_root_of(str_bytes(s)),
{
    match crate::ipparse::parse_ipv4_addr(s.as_bytes()) {
        Some(x) => Some(RootAddr { addr: x as u128, v6: false }),
        None => match crate::zones::parse_ipv6(s.as_bytes()) {
            Some(x) => Some(RootAddr { addr: x, v6: true }),
            None => None,
        },
    }
}

/// Everything the iterative recursor is built from: the parsed root
/// hints, cache sizes, recursion and retry bounds, case randomization,
/// the DNSSEC policy, and the nameserver address filter.
pub struct RecursorPlan {
    pub roots: Vec<RootAddr>,
    pub ns_cache_size: usize,
    pub record_cache_size: usize,
    pub recursion_limit: u8,
    pub ns_recursion_limit: u8,
    pub timeout_ms: u64,
    pub attempts: usize,
    pub case_randomization: bool,
    pub dnssec: DnssecPolicy,
    pub allow_nets: Vec<IpNetV>,
    pub deny_nets: Vec<IpNetV>,
}

/// Build the recursor plan from the configuration: empty root hints are
/// fatal (there is nothing to walk from), a root that is no IP address is
/// fatal, the DNSSEC word must name a policy this build supports, and the
/// retry budget is at least one attempt.
pub fn recursor_plan(cfg: &AppConfig, filters: &Filters, dnssec_supported: bool) -> (r: Result<
    RecursorPlan,
    ConfigError,
>)
    ensures
        r == Err::<RecursorPlan, ConfigError>(ConfigError::NoResolverMode) <==> cfg.roots@.len()
            == 0,
        r is Ok <==> (cfg.roots@.len() > 0 && (forall|i: int|
            0 <= i < cfg.roots@.len() ==> spec_root_of(
                string_bytes(&cfg.roots@[i]),
            ) is Some) && crate::config::spec_policy_result(
            string_bytes(&cfg.recursor.dnssec),
            dnssec_supported,
        ) is Ok),
        r == Err::<RecursorPlan, ConfigError>(ConfigError::MalformedRoot) ==> (exists|i: int|
            0 <= i < cfg.roots@.len() && spec_root_of(string_bytes(&cfg.roots@[i])) is None),
        (r matches Ok(plan) ==> {
            &&& cfg.roots@.len() > 0
            &&& plan.roots@.len() == cfg.roots@.len()
            &&& (forall|i: int|
                0 <= i < cfg.roots@.len() ==> Some(#[trigger] plan.roots@[i]) == spec_root_of(
                    string_bytes(&cfg.roots@[i]),
                ))
            &&& plan.ns_cache_size == cfg.recursor.ns_cache_size
            &&& plan.record_cache_size == cfg.recursor.record_cache_size
            &&& plan.recursion_limit == cfg.recursor.recursion_limit
            &&& plan.ns_recursion_limit == cfg.recursor.ns_recursion_limit
            &&& plan.timeout_ms == cfg.recursor.timeout_ms
            &&& plan.attempts == (if cfg.recursor.attempts < 1 {
                1usize
            } else {
                cfg.recursor.attempts
            })
            &&& plan.attempts >= 1
            &&& plan.case_randomization == cfg.recursor.case_randomization
            &&& Ok::<DnssecPolicy, ConfigError>(plan.dnssec) == crate::config::spec_policy_result(
                string_bytes(&cfg.recursor.dnssec),
                dnssec_supported,
            )
            &&& plan.allow_nets@ == filters.allow_nets@
            &&& plan.deny_nets@ == filters.deny_nets@
        }),
        (r matches Err(e) ==> e == ConfigError::NoResolverMode || e == ConfigError::MalformedRoot
            || crate::config::spec_policy_result(string_bytes(&cfg.recursor.dnssec), dnssec_supported)
            == Err::<DnssecPolicy, ConfigError>(e)),
{
    if cfg.roots.len() == 0 {
        return Err(ConfigError::NoResolverMode);
    }
    let n = cfg.roots.len();
    let mut roots: Vec<RootAddr> = Vec::new();
    let mut i: usize = 0;
    while i < n
        invariant
            n == cfg.roots@.len(),
            0 <= i <= n,
            roots@.len() == i,
            forall|k: int|
                0 <= k < i ==> Some(#[trigger] roots@[k]) == spec_root_of(
                    string_bytes(&cfg.roots@[k]),
                ),
        decreases n - i,
    {
        match parse_root(cfg.roots[i].as_str()) {
            Some(root) => {
                roots.push(root);
            },
            None => {
                proof {
                    assert(spec_root_of(string_bytes(&cfg.roots@[i as int])) is None);
                }
                return Err(ConfigError::MalformedRoot);
            },
        }
        i = i + 1;
    }
    proof {
        assert forall|ii: int| 0 <= ii < cfg.roots@.len() implies spec_root_of(
            string_bytes(&cfg.roots@[ii]),
        ) is Some by {
            assert(Some(roots@[ii]) == spec_root_of(string_bytes(&cfg.roots@[ii])));
        }
    }
    let dnssec = match crate::config::parse_dnssec_policy(
        cfg.recursor.dnssec.as_str(),
        dnssec_supported,
    ) {
        Ok(p) => p,
        Err(e) => {
            proof {
                assert(e == ConfigError::UnknownDnssec || e == ConfigError::DnssecUnsupported);
            }
            return Err(e);
        },
    };
    let attempts = if cfg.recursor.attempts < 1 {
        1
    } else {
        cfg.recursor.attempts
    };
    Ok(
        RecursorPlan {
            roots,
            ns_cache_size: cfg.recursor.ns_cache_size,
            record_cache_size: cfg.recursor.record_cache_size,
            recursion_limit: cfg.recursor.recursion_limit,
            ns_recursion_limit: cfg.recursor.ns_recursion_limit,
            timeout_ms: cfg.recursor.timeout_ms,
            attempts,
            case_randomization: cfg.recursor.case_randomization,
            dnssec,
            allow_nets: copy_nets(&filters.allow_nets),
            deny_nets: copy_nets(&filters.deny_nets),
        },
    )
}

/// Copy a network list.
fn copy_nets(nets: &Vec<IpNetV>) -> (r: Vec<IpNetV>)
    ensures
        r@ == nets@,
{
    let n = nets.len();
    let mut out: Vec<IpNetV> = Vec::new();
    let mut i: usize = 0;
    while i < n
        invariant
            n == nets@.len(),
            0 <= i <= n,
            out@ == nets@.take(i as int),
        decreases n - i,
    {
        out.push(nets[i]);
        proof {
            assert(nets@.take(i as int).push(nets@[i as int]) =~= nets@.take(i as int + 1));
        }
        i = i + 1;
    }
    proof {
        assert(nets@.take(n as int) =~= nets@);
    }
    out
}

} // verus!
