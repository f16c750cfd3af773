//! Domain and nameserver-address filtering.
//!
//! The domain filter compares the normalized query name against configured
//! suffix lists; the IP filter governs which nameserver addresses the
//! recursor may contact, by CIDR allow and deny lists. Networks are
//! modelled as a network address, a prefix length and an address family;
//! only the textual CIDR parse is delegated to an outside crate.
use vstd::prelude::*;
use crate::config::{ConfigError, FiltersConfig};
use crate::dname::{is_suffix, is_suffix_bytes, norm_domain, norm_domain_bytes, str_bytes, string_bytes};

verus! {

/// A CIDR network: the network address (host bits zero), the prefix
/// length, and whether it is an IPv6 network. IPv4 addresses sit in the
/// low 32 bits.
#[derive(PartialEq, Eq, Structural, Clone, Copy, Debug)]
pub struct IpNetV {
    pub addr: u128,
    pub prefix: u8,
    pub v6: bool,
}

/// What a CIDR string denotes: the network address with host bits zeroed,
/// the prefix length, and the family — or nothing if malformed.
pub uninterp spec fn net_of(s: Seq<u8>) -> Option<(u128, u8, bool)>;

/// Relies on `ipnet::IpNet::from_str` together with `network` and
/// `prefix_len`: a CIDR string parses to its network address (host bits
/// zeroed), prefix length (within the family's bit width) and family;
/// a malformed string is rejected.
#[verifier::external_body]
fn parse_net(s: &str) -> (r: Option<IpNetV>)
    ensures
        (r matches Some(n) ==> net_of(str_bytes(s)) == Some((n.addr, n.prefix, n.v6)) && (n.v6
            ==> n.prefix <= 128) && (!n.v6 ==> n.prefix <= 32 && n.addr < 0x100000000)),
        r is None ==> net_of(str_bytes(s)) is None,
{
    match s.parse::<ipnet::IpNet>() {
        Ok(ipnet::IpNet::V4(n)) => Some(
            IpNetV { addr: u32::from(n.network()) as u128, prefix: n.prefix_len(), v6: false },
        ),
        Ok(ipnet::IpNet::V6(n)) => Some(
            IpNetV { addr: u128::from(n.network()), prefix: n.prefix_len(), v6: true },
        ),
        Err(_) => None,
    }
}

/// Whether an address lies in a network: same family, and the top
/// `prefix` bits agree.
pub open spec fn spec_net_contains(n: IpNetV, addr: u128, v6: bool) -> bool {
    n.v6 == v6 && (if n.prefix == 0 {
        true
    } else {
        let width: u128 = if n.v6 {
            128
        } else {
            32
        };
        if n.prefix as u128 > width {
            false
        } else {
            (addr >> ((width - n.prefix as u128) as u128)) == (n.addr >> ((width
                - n.prefix as u128) as u128))
        }
    })
}

/// Exec form of the containment test.
pub fn net_contains(n: &IpNetV, addr: u128, v6: bool) -> (r: bool)
    ensures
        r == spec_net_contains(*n, addr, v6),
{
    if n.v6 != v6 {
        return false;
    }
    if n.prefix == 0 {
        return true;
    }
    let width: u128 = if n.v6 {
        128
    } else {
        32
    };
    if n.prefix as u128 > width {
        return false;
    }
    let shift: u128 = width - (n.prefix as u128);
    (addr >> shift) == (n.addr >> shift)
}

/// The byte sequences of a list of strings.
pub open spec fn strings_bytes(v: Seq<String>) -> Seq<Seq<u8>> {
    v.map_values(|s: String| string_bytes(&s))
}

/// The client-facing suffix lists and the nameserver CIDR lists.
pub struct Filters {
    pub allowlist_domains: Vec<String>,
    pub blocklist_domains: Vec<String>,
    pub deny_nets: Vec<IpNetV>,
    pub allow_nets: Vec<IpNetV>,
}

/// The domain filter's decision: with an allowlist configured the name
/// must match one of its suffixes, and it must match no blocklist suffix.
pub open spec fn spec_domain_allowed(allow: Seq<Seq<u8>>, block: Seq<Seq<u8>>, qname: Seq<u8>) -> bool {
    let q = norm_domain_bytes(qname);
    (allow.len() == 0 || (exists|i: int|
        0 <= i < allow.len() && is_suffix_bytes(q, #[trigger] allow[i]))) && !(exists|i: int|
        0 <= i < block.len() && is_suffix_bytes(q, #[trigger] block[i]))
}

/// The IP filter's decision: with an allow list configured the address
/// must lie in one of its networks, and it must lie in no deny network.
pub open spec fn spec_ip_allowed(
    allow: Seq<IpNetV>,
    deny: Seq<IpNetV>,
    addr: u128,
    v6: bool,
) -> bool {
    (allow.len() == 0 || (exists|i: int|
        0 <= i < allow.len() && spec_net_contains(#[trigger] allow[i], addr, v6))) && !(exists|
        i: int,
    | 0 <= i < deny.len() && spec_net_contains(#[trigger] deny[i], addr, v6))
}

/// Does the name match some suffix of the list?
fn matches_any_suffix(q: &str, list: &Vec<String>) -> (r: bool)
    ensures
        r == (exists|i: int|
            0 <= i < list@.len() && is_suffix_bytes(str_bytes(q), #[trigger] strings_bytes(list@)[i])),
{
    let n = list.len();
    let mut i: usize = 0;
    while i < n
        invariant
            n == list@.len(),
            0 <= i <= n,
            forall|k: int|
                0 <= k < i ==> !is_suffix_bytes(str_bytes(q), #[trigger] strings_bytes(list@)[k]),
        decreases n - i,
    {
        if is_suffix(q, list[i].as_str()) {
            proof {
                assert(strings_bytes(list@)[i as int] == string_bytes(&list@[i as int]));
            }
            return true;
        }
        proof {
            assert(strings_bytes(list@)[i as int] == string_bytes(&list@[i as int]));
        }
        i = i + 1;
    }
    false
}

/// Does the address lie in some network of the list?
fn in_any_net(list: &Vec<IpNetV>, addr: u128, v6: bool) -> (r: bool)
    ensures
        r == (exists|i: int|
            0 <= i < list@.len() && spec_net_contains(#[trigger] list@[i], addr, v6)),
{
    let n = list.len();
    let mut i: usize = 0;
    while i < n
        invariant
            n == list@.len(),
            0 <= i <= n,
            forall|k: int| 0 <= k < i ==> !spec_net_contains(#[trigger] list@[k], addr, v6),
        decreases n - i,
    {
        if net_contains(&list[i], addr, v6) {
            return true;
        }
        i = i + 1;
    }
    false
}

impl Filters {
    /// Build the filters from the configuration: domain-list entries are
    /// normalized here, once; a CIDR entry that does not parse is a fatal
    /// configuration error.
    pub fn from_config(cfg: &FiltersConfig) -> (r: Result<Filters, ConfigError>)
        requires
            forall|i: int|
                0 <= i < cfg.allowlist_domains@.len() ==> (#[trigger] cfg.allowlist_domains@[i]).is_ascii(),
            forall|i: int|
                0 <= i < cfg.blocklist_domains@.len() ==> (#[trigger] cfg.blocklist_domains@[i]).is_ascii(),
        ensures
            (r matches Ok(f) ==> {
                &&& strings_bytes(f.allowlist_domains@) =~= strings_bytes(
                    cfg.allowlist_domains@,
                ).map_values(|s: Seq<u8>| norm_domain_bytes(s))
                &&& strings_bytes(f.blocklist_domains@) =~= strings_bytes(
                    cfg.blocklist_domains@,
                ).map_values(|s: Seq<u8>| norm_domain_bytes(s))
                &&& f.deny_nets@.len() == cfg.deny_nets@.len()
                &&& (forall|i: int|
                    0 <= i < cfg.deny_nets@.len() ==> net_of(
                        #[trigger] strings_bytes(cfg.deny_nets@)[i],
                    ) == Some(
                        (f.deny_nets@[i].addr, f.deny_nets@[i].prefix, f.deny_nets@[i].v6),
                    ))
                &&& f.allow_nets@.len() == cfg.allow_nets@.len()
                &&& (forall|i: int|
                    0 <= i < cfg.allow_nets@.len() ==> net_of(
                        #[trigger] strings_bytes(cfg.allow_nets@)[i],
                    ) == Some(
                        (f.allow_nets@[i].addr, f.allow_nets@[i].prefix, f.allow_nets@[i].v6),
                    ))
            }),
            r is Err ==> r == Err::<Filters, ConfigError>(ConfigError::MalformedNet) && ((exists|
                i: int,
            |
                0 <= i < cfg.deny_nets@.len() && net_of(#[trigger] strings_bytes(cfg.deny_nets@)[i])
                    is None) || (exists|i: int|
                0 <= i < cfg.allow_nets@.len() && net_of(#[trigger] strings_bytes(cfg.allow_nets@)[i])
                    is None)),
    {
        let mut deny_nets: Vec<IpNetV> = Vec::new();
        let nd = cfg.deny_nets.len();
        let mut i: usize = 0;
        while i < nd
            invariant
                nd == cfg.deny_nets@.len(),
                0 <= i <= nd,
                deny_nets@.len() == i,
                forall|k: int|
                    0 <= k < i ==> net_of(#[trigger] strings_bytes(cfg.deny_nets@)[k]) == Some(
                        (deny_nets@[k].addr, deny_nets@[k].prefix, deny_nets@[k].v6),
                    ),
            decreases nd - i,
        {
            proof {
                assert(strings_bytes(cfg.deny_nets@)[i as int] == string_bytes(
                    &cfg.deny_nets@[i as int],
                ));
            }
            match parse_net(cfg.deny_nets[i].as_str()) {
                Some(n) => {
                    deny_nets.push(n);
                },
                None => {
                    return Err(ConfigError::MalformedNet);
                },
            }
            i = i + 1;
        }
        let mut allow_nets: Vec<IpNetV> = Vec::new();
        let na = cfg.allow_nets.len();
        let mut j: usize = 0;
        while j < na
            invariant
                na == cfg.allow_nets@.len(),
                0 <= j <= na,
                allow_nets@.len() == j,
                forall|k: int|
                    0 <= k < j ==> net_of(#[trigger] strings_bytes(cfg.allow_nets@)[k]) == Some(
                        (allow_nets@[k].addr, allow_nets@[k].prefix, allow_nets@[k].v6),
                    ),
            decreases na - j,
        {
            proof {
                assert(strings_bytes(cfg.allow_nets@)[j as int] == string_bytes(
                    &cfg.allow_nets@[j as int],
                ));
            }
            match parse_net(cfg.allow_nets[j].as_str()) {
                Some(n) => {
                    allow_nets.push(n);
                },
                None => {
                    return Err(ConfigError::MalformedNet);
                },
            }
            j = j + 1;
        }
        let allowlist_domains = norm_domain_list(&cfg.allowlist_domains);
        let blocklist_domains = norm_domain_list(&cfg.blocklist_domains);
        Ok(Filters { allowlist_domains, blocklist_domains, deny_nets, allow_nets })
    }

    /// The domain filter of the pipeline: an allowlisted-or-unrestricted
    /// name that matches no blocklist suffix is allowed.
    pub fn domain_allowed(&self, qname: &str) -> (r: bool)
        requires
            qname.is_ascii(),
        ensures
            r == spec_domain_allowed(
                strings_bytes(self.allowlist_domains@),
                strings_bytes(self.blocklist_domains@),
                str_bytes(qname),
            ),
    {
        let q = norm_domain(qname);
        if self.allowlist_domains.len() > 0 {
            if !matches_any_suffix(q.as_str(), &self.allowlist_domains) {
                return false;
            }
        }
        !matches_any_suffix(q.as_str(), &self.blocklist_domains)
    }

    /// The nameserver-address filter of the recursor.
    pub fn ip_allowed(&self, addr: u128, v6: bool) -> (r: bool)
        ensures
            r == spec_ip_allowed(self.allow_nets@, self.deny_nets@, addr, v6),
    {
        if self.allow_nets.len() > 0 {
            if !in_any_net(&self.allow_nets, addr, v6) {
                return false;
            }
        }
        !in_any_net(&self.deny_nets, addr, v6)
    }
}

/// Normalize every entry of a domain list.
fn norm_domain_list(list: &Vec<String>) -> (r: Vec<String>)
    requires
        forall|i: int| 0 <= i < list@.len() ==> (#[trigger] list@[i]).is_ascii(),
    ensures
        strings_bytes(r@) =~= strings_bytes(list@).map_values(|s: Seq<u8>| norm_domain_bytes(s)),
{
    let n = list.len();
    let mut out: Vec<String> = Vec::new();
    let mut i: usize = 0;
    while i < n
        invariant
            n == list@.len(),
            0 <= i <= n,
            out@.len() == i,
            forall|k: int| 0 <= k < n ==> (#[trigger] list@[k]).is_ascii(),
            forall|k: int|
                0 <= k < i ==> string_bytes(&out@[k]) == norm_domain_bytes(
                    #[trigger] string_bytes(&list@[k]),
                ),
        decreases n - i,
    {
        out.push(norm_domain(list[i].as_str()));
        i = i + 1;
    }
    proof {
        assert forall|k: int| 0 <= k < n implies strings_bytes(out@)[k] == strings_bytes(
            list@,
        ).map_values(|s: Seq<u8>| norm_domain_bytes(s))[k] by {
            assert(strings_bytes(out@)[k] == string_bytes(&out@[k]));
            assert(strings_bytes(list@)[k] == string_bytes(&list@[k]));
        }
    }
    out
}

} // verus!
