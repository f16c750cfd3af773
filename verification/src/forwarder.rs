//! Forwarder-mode planning.
//!
//! In forwarder mode every configured upstream endpoint is registered
//! twice — once over UDP and once over TCP to the same address — so that a
//! truncated UDP reply can be retried over TCP; upstream negative answers
//! are trusted and surface verbatim. The plan is computed here; the
//! resolver it configures runs outside the library.
use vstd::prelude::*;
use crate::dname::str_bytes;
use crate::ipparse::{
    all_digits, dec_val, dec_value5, is_split, lemma_split_unique, parse_ipv4_addr, spec_ipv4_of,
    split_on, views_of,
};
use crate::zones::ipv6_of;

verus! {

/// A parsed upstream address: the IP (low 32 bits for IPv4), family and
/// port.
#[derive(PartialEq, Eq, Structural, Clone, Copy, Debug)]
pub struct UpstreamAddr {
    pub addr: u128,
    pub v6: bool,
    pub port: u16,
}

/// The transport of one registered endpoint.
#[derive(PartialEq, Eq, Structural, Clone, Copy, Debug)]
pub enum Proto {
    Udp,
    Tcp,
}

/// One endpoint registration of the resolver configuration.
#[derive(PartialEq, Eq, Structural, Clone, Copy, Debug)]
pub struct EndpointPlan {
    pub addr: UpstreamAddr,
    pub proto: Proto,
    pub trust_negative_responses: bool,
}

/// A port field: one to five digits naming at most 65535.
pub open spec fn valid_port(p: Seq<u8>) -> bool {
    1 <= p.len() <= 5 && all_digits(p) && dec_val(p) <= 65535
}

/// What an upstream endpoint string denotes: a dotted-quad IPv4 address
/// and a port joined by one colon, or a bracketed IPv6 address followed
/// by a colon and a port; anything else is rejected.
pub open spec fn spec_upstream_of(s: Seq<u8>) -> Option<UpstreamAddr> {
    if s.len() > 0 && s[0] == 0x5b {
        let t = s.skip(1);
        if exists|parts: Seq<Seq<u8>>| is_split(t, 0x5d, parts) && parts.len() == 2 {
            let parts = choose|parts: Seq<Seq<u8>>| is_split(t, 0x5d, parts) && parts.len() == 2;
            let cp = parts[1];
            if cp.len() >= 1 && cp[0] == 0x3a && valid_port(cp.skip(1)) {
                match ipv6_of(parts[0]) {
                    Some(x) => Some(
                        UpstreamAddr { addr: x, v6: true, port: dec_val(cp.skip(1)) as u16 },
                    ),
                    None => None,
                }
            } else {
                None
            }
        } else {
            None
        }
    } else {
        if exists|parts: Seq<Seq<u8>>| is_split(s, 0x3a, parts) && parts.len() == 2 {
            let parts = choose|parts: Seq<Seq<u8>>| is_split(s, 0x3a, parts) && parts.len() == 2;
            if valid_port(parts[1]) {
                match spec_ipv4_of(parts[0]) {
                    Some(x) => Some(
                        UpstreamAddr {
                            addr: x as u128,
                            v6: false,
                            port: dec_val(parts[1]) as u16,
                        },
                    ),
                    None => None,
                }
            } else {
                None
            }
        } else {
            None
        }
    }
}

/// Parse one configured upstream endpoint, as `spec_upstream_of`
/// describes it.
pub fn parse_upstream(s: &str) -> (r: Option<UpstreamAddr>)
    ensures
        r == spec_upstream_of(str_bytes(s)),
{
    let b = s.as_bytes();
    if b.len() > 0 && b[0] == 0x5b {
        let t = vstd::slice::slice_subrange(b, 1, b.len());
        proof {
            assert(t@ =~= str_bytes(s).skip(1));
        }
        let parts = split_on(t, 0x5d);
        let ghost pv = views_of(parts@);
        proof {
            assert forall|other: Seq<Seq<u8>>|
                is_split(t@, 0x5d, other) && other.len() == 2 implies other == pv by {
                lemma_split_unique(t@, 0x5d, other, pv);
            }
        }
        if parts.len() != 2 {
            return None;
        }
        let cp = &parts[1];
        proof {
            assert(pv[1] == cp@);
            assert(pv[0] == parts@[0]@);
        }
        if cp.len() < 1 || cp[0] != 0x3a {
            return None;
        }
        let port_bytes = vstd::slice::slice_subrange(cp.as_slice(), 1, cp.len());
        proof {
            assert(port_bytes@ =~= cp@.skip(1));
        }
        let port = match dec_value5(port_bytes) {
            Some(v) => {
                if v > 65535 {
                    return None;
                }
                v as u16
            },
            None => {
                return None;
            },
        };
        proof {
            assert(valid_port(cp@.skip(1)));
        }
        match crate::zones::parse_ipv6(parts[0].as_slice()) {
            Some(x) => Some(UpstreamAddr { addr: x, v6: true, port }),
            None => None,
        }
    } else {
        let parts = split_on(b, 0x3a);
        let ghost pv = views_of(parts@);
        proof {
            assert forall|other: Seq<Seq<u8>>|
                is_split(str_bytes(s), 0x3a, other) && other.len() == 2 implies other == pv by {
                lemma_split_unique(str_bytes(s), 0x3a, other, pv);
            }
        }
        if parts.len() != 2 {
            return None;
        }
        proof {
            assert(pv[0] == parts@[0]@);
            assert(pv[1] == parts@[1]@);
        }
        let port = match dec_value5(parts[1].as_slice()) {
            Some(v) => {
                if v > 65535 {
                    return None;
                }
                v as u16
            },
            None => {
                return None;
            },
        };
        proof {
            assert(valid_port(pv[1]));
        }
        match parse_ipv4_addr(parts[0].as_slice()) {
            Some(x) => Some(UpstreamAddr { addr: x as u128, v6: false, port }),
            None => None,
        }
    }
}

/// The endpoint list of the forwarder: each upstream appears exactly
/// twice, UDP first then TCP, both trusting negative responses — the
/// configuration that lets a truncated UDP answer be retried over TCP.
pub fn forwarder_plan(upstreams: &Vec<UpstreamAddr>) -> (plan: Vec<EndpointPlan>)
    ensures
        plan@.len() == 2 * upstreams@.len(),
        forall|i: int|
            0 <= i < upstreams@.len() ==> plan@[2 * i] == (EndpointPlan {
                addr: upstreams@[i],
                proto: Proto::Udp,
                trust_negative_responses: true,
            }) && plan@[2 * i + 1] == (EndpointPlan {
                addr: upstreams@[i],
                proto: Proto::Tcp,
                trust_negative_responses: true,
            }),
{
    let n = upstreams.len();
    let mut plan: Vec<EndpointPlan> = Vec::new();
    let mut i: usize = 0;
    while i < n
        invariant
            n == upstreams@.len(),
            0 <= i <= n,
            plan@.len() == 2 * i,
            forall|k: int|
                0 <= k < i ==> plan@[2 * k] == (EndpointPlan {
                    addr: upstreams@[k],
                    proto: Proto::Udp,
                    trust_negative_responses: true,
                }) && plan@[2 * k + 1] == (EndpointPlan {
                    addr: upstreams@[k],
                    proto: Proto::Tcp,
                    trust_negative_responses: true,
                }),
        decreases n - i,
    {
        let u = upstreams[i];
        plan.push(EndpointPlan { addr: u, proto: Proto::Udp, trust_negative_responses: true });
        plan.push(EndpointPlan { addr: u, proto: Proto::Tcp, trust_negative_responses: true });
        i = i + 1;
    }
    plan
}

} // verus!
