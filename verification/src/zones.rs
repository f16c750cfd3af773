//! Local zone store.
//!
//! A read-only store of records for statically configured names, built
//! once at startup from zone files (read and deserialized outside the
//! library, handed in as plain text records) and then only looked up.
//! Lookup is by exact normalized name; `ANY` matches every type.
use vstd::prelude::*;
use crate::dname::{lower_bytes, normalize_bytes, normalize_vec, str_bytes, trim_end_ws, trim_start_ws};
use crate::ipparse::{all_digits, dec_val, is_split, split_on, views_of};
use crate::wire::{enc_u16, enc_u32, valid_name, RecordView, WireRecord};

verus! {

/// Record types the zone files support, and `ANY`.
pub const RRTYPE_A: u16 = 1;

pub const RRTYPE_NS: u16 = 2;

pub const RRTYPE_CNAME: u16 = 5;

pub const RRTYPE_MX: u16 = 15;

pub const RRTYPE_TXT: u16 = 16;

pub const RRTYPE_AAAA: u16 = 28;

pub const RRTYPE_ANY: u16 = 255;

/// The DNS class of every zone record (IN).
pub const RRCLASS_IN: u16 = 1;

/// The type a zone-file type word names, after trimming and uppercasing
/// (compared lowercased here).
pub open spec fn spec_rrtype_of(w: Seq<u8>) -> Option<u16> {
    let x = lower_bytes(trim_end_ws(trim_start_ws(w)));
    if x == str_bytes("a") {
        Some(RRTYPE_A)
    } else if x == str_bytes("ns") {
        Some(RRTYPE_NS)
    } else if x == str_bytes("cname") {
        Some(RRTYPE_CNAME)
    } else if x == str_bytes("mx") {
        Some(RRTYPE_MX)
    } else if x == str_bytes("txt") {
        Some(RRTYPE_TXT)
    } else if x == str_bytes("aaaa") {
        Some(RRTYPE_AAAA)
    } else {
        None
    }
}

/// Parse a zone-file type word.
pub fn parse_rrtype(s: &str) -> (r: Option<u16>)
    ensures
        r == spec_rrtype_of(str_bytes(s)),
{
    let trimmed = crate::dname::trim_ws_vec(s.as_bytes());
    let word = crate::dname::lower_vec(trimmed.as_slice());
    if vec_eq_lit(&word, "a") {
        Some(RRTYPE_A)
    } else if vec_eq_lit(&word, "ns") {
        Some(RRTYPE_NS)
    } else if vec_eq_lit(&word, "cname") {
        Some(RRTYPE_CNAME)
    } else if vec_eq_lit(&word, "mx") {
        Some(RRTYPE_MX)
    } else if vec_eq_lit(&word, "txt") {
        Some(RRTYPE_TXT)
    } else if vec_eq_lit(&word, "aaaa") {
        Some(RRTYPE_AAAA)
    } else {
        None
    }
}

/// Compare a byte vector against a literal's bytes.
fn vec_eq_lit(v: &Vec<u8>, s: &str) -> (r: bool)
    ensures
        r == (v@ == str_bytes(s)),
{
    crate::dname::bytes_eq(v.as_slice(), s.as_bytes())
}

/// The fully qualified form of a zone name: a name with a trailing dot
/// stands alone, any other is composed with the origin; the result is
/// normalized (lowercased, trailing dots stripped).
pub open spec fn spec_fqdn(name: Seq<u8>, origin: Seq<u8>) -> Seq<u8> {
    if name.len() > 0 && name.last() == 0x2e {
        normalize_bytes(name)
    } else {
        normalize_bytes(name + seq![0x2eu8] + origin)
    }
}

/// Build the normalized fully qualified name of a zone entry.
pub fn make_fqdn(name: &str, origin: &str) -> (r: Vec<u8>)
    ensures
        r@ == spec_fqdn(str_bytes(name), str_bytes(origin)),
{
    make_fqdn_bytes(name.as_bytes(), origin.as_bytes())
}

/// Byte-level form of `make_fqdn`.
pub fn make_fqdn_bytes(nb: &[u8], ob: &[u8]) -> (r: Vec<u8>)
    ensures
        r@ == spec_fqdn(nb@, ob@),
{
    if nb.len() > 0 && nb[nb.len() - 1] == 0x2e {
        normalize_vec(nb)
    } else {
        let mut joined: Vec<u8> = Vec::new();
        let mut i: usize = 0;
        let n = nb.len();
        while i < n
            invariant
                n == nb@.len(),
                0 <= i <= n,
                joined@ == nb@.take(i as int),
            decreases n - i,
        {
            joined.push(nb[i]);
            proof {
                assert(nb@.take(i as int).push(nb@[i as int]) =~= nb@.take(i as int + 1));
            }
            i = i + 1;
        }
        joined.push(0x2e);
        let m = ob.len();
        let mut j: usize = 0;
        while j < m
            invariant
                m == ob@.len(),
                0 <= j <= m,
                joined@ == nb@ + seq![0x2eu8] + ob@.take(j as int),
            decreases m - j,
        {
            joined.push(ob[j]);
            proof {
                assert((nb@ + seq![0x2eu8] + ob@.take(j as int)).push(ob@[j as int]) =~= nb@ + seq![
                    0x2eu8,
                ] + ob@.take(j as int + 1));
            }
            j = j + 1;
        }
        proof {
            assert(nb@.take(n as int) =~= nb@);
            assert(nb@.push(0x2eu8) =~= nb@ + seq![0x2eu8] + ob@.take(0));
            assert(ob@.take(m as int) =~= ob@);
        }
        normalize_vec(joined.as_slice())
    }
}

/// The wire form of a name given as dot-separated labels.
pub open spec fn wire_name_of(parts: Seq<Seq<u8>>) -> Seq<u8>
    decreases parts.len(),
{
    if parts.len() == 0 {
        seq![0u8]
    } else {
        seq![parts[0].len() as u8] + parts[0] + wire_name_of(parts.skip(1))
    }
}

/// Labels a name may carry on the wire: one to 63 bytes each.
pub open spec fn valid_labels(parts: Seq<Seq<u8>>) -> bool {
    forall|i: int| 0 <= i < parts.len() ==> 1 <= (#[trigger] parts[i]).len() <= 63
}

/// The wire form of valid labels is a valid wire name.
pub proof fn lemma_wire_name_valid(parts: Seq<Seq<u8>>)
    requires
        valid_labels(parts),
    ensures
        valid_name(wire_name_of(parts)),
        wire_name_of(parts).len() >= 1,
    decreases parts.len(),
{
    if parts.len() == 0 {
    } else {
        lemma_wire_name_valid(parts.skip(1));
        let w = wire_name_of(parts);
        let l = parts[0].len() as int;
        assert(w[0] == l as u8);
        assert(w.skip(l + 1) =~= wire_name_of(parts.skip(1)));
    }
}

/// Turn a normalized textual name into wire label form. Succeeds exactly
/// when every dot-separated label has 1 to 63 bytes and the whole wire
/// name fits the 255-byte bound.
fn text_name_to_wire(name: &[u8]) -> (r: Option<Vec<u8>>)
    ensures
        (r matches Some(w) ==> exists|parts: Seq<Seq<u8>>|
            is_split(name@, 0x2e, parts) && valid_labels(parts) && w@ == wire_name_of(parts)
                && valid_name(w@) && w@.len() <= 255),
        r is None ==> (forall|parts: Seq<Seq<u8>>|
            is_split(name@, 0x2e, parts) ==> !(valid_labels(parts) && wire_name_of(parts).len()
                <= 255)),
{
    let parts = split_on(name, 0x2e);
    let ghost pv = views_of(parts@);
    let n = parts.len();
    let mut out: Vec<u8> = Vec::new();
    let mut i: usize = 0;
    while i < n
        invariant
            n == parts@.len(),
            0 <= i <= n,
            pv == views_of(parts@),
            is_split(name@, 0x2e, pv),
            forall|k: int| 0 <= k < i ==> 1 <= (#[trigger] pv[k]).len() <= 63,
            out@ == wire_name_of_prefix(pv, i as int),
            out@.len() <= 255,
        decreases n - i,
    {
        let lab = &parts[i];
        if lab.len() < 1 || lab.len() > 63 {
            proof {
                assert(pv[i as int] == lab@);
                assert(!valid_labels(pv));
                assert forall|other: Seq<Seq<u8>>| is_split(name@, 0x2e, other) implies !(
                valid_labels(other) && wire_name_of(other).len() <= 255) by {
                    crate::ipparse::lemma_split_unique(name@, 0x2e, other, pv);
                }
            }
            return None;
        }
        let ghost out0 = out@;
        out.push(lab.len() as u8);
        let mut k: usize = 0;
        let ll = lab.len();
        while k < ll
            invariant
                ll == lab@.len(),
                0 <= k <= ll,
                out@ == out0 + seq![ll as u8] + lab@.take(k as int),
            decreases ll - k,
        {
            out.push(lab[k]);
            proof {
                assert((out0 + seq![ll as u8] + lab@.take(k as int)).push(lab@[k as int]) =~= out0
                    + seq![ll as u8] + lab@.take(k as int + 1));
            }
            k = k + 1;
        }
        if out.len() > 255 {
            proof {
                lemma_wire_name_len_mono(pv, i as int + 1);
                assert(lab@.take(ll as int) =~= lab@);
                assert(pv[i as int] == lab@);
                assert(out@ =~= wire_name_of_prefix(pv, i as int + 1));
                assert forall|other: Seq<Seq<u8>>| is_split(name@, 0x2e, other) implies !(
                valid_labels(other) && wire_name_of(other).len() <= 255) by {
                    crate::ipparse::lemma_split_unique(name@, 0x2e, other, pv);
                }
            }
            return None;
        }
        proof {
            assert(lab@.take(ll as int) =~= lab@);
            assert(pv[i as int] == lab@);
            assert(out@ =~= wire_name_of_prefix(pv, i as int + 1));
        }
        i = i + 1;
    }
    out.push(0);
    proof {
        lemma_wire_name_shift(pv, n as int);
        assert(pv.skip(n as int) =~= Seq::<Seq<u8>>::empty());
        assert(wire_name_of(Seq::<Seq<u8>>::empty()) == seq![0u8]);
        assert(out@ =~= wire_name_of(pv));
        assert(valid_labels(pv));
        lemma_wire_name_valid(pv);
    }
    if out.len() > 255 {
        proof {
            assert forall|other: Seq<Seq<u8>>| is_split(name@, 0x2e, other) implies !(valid_labels(
                other,
            ) && wire_name_of(other).len() <= 255) by {
                crate::ipparse::lemma_split_unique(name@, 0x2e, other, pv);
            }
        }
        return None;
    }
    Some(out)
}

/// The 16 big-endian bytes of a 128-bit address.
pub open spec fn enc_u128(x: u128) -> Seq<u8> {
    seq![
        ((x >> 120) & 0xff) as u8,
        ((x >> 112) & 0xff) as u8,
        ((x >> 104) & 0xff) as u8,
        ((x >> 96) & 0xff) as u8,
        ((x >> 88) & 0xff) as u8,
        ((x >> 80) & 0xff) as u8,
        ((x >> 72) & 0xff) as u8,
        ((x >> 64) & 0xff) as u8,
        ((x >> 56) & 0xff) as u8,
        ((x >> 48) & 0xff) as u8,
        ((x >> 40) & 0xff) as u8,
        ((x >> 32) & 0xff) as u8,
        ((x >> 24) & 0xff) as u8,
        ((x >> 16) & 0xff) as u8,
        ((x >> 8) & 0xff) as u8,
        (x & 0xff) as u8,
    ]
}

/// Exec form of `enc_u128`.
pub fn u128_bytes(x: u128) -> (r: Vec<u8>)
    ensures
        r@ == enc_u128(x),
{
    let mut out: Vec<u8> = Vec::new();
    out.push(((x >> 120) & 0xff) as u8);
    out.push(((x >> 112) & 0xff) as u8);
    out.push(((x >> 104) & 0xff) as u8);
    out.push(((x >> 96) & 0xff) as u8);
    out.push(((x >> 88) & 0xff) as u8);
    out.push(((x >> 80) & 0xff) as u8);
    out.push(((x >> 72) & 0xff) as u8);
    out.push(((x >> 64) & 0xff) as u8);
    out.push(((x >> 56) & 0xff) as u8);
    out.push(((x >> 48) & 0xff) as u8);
    out.push(((x >> 40) & 0xff) as u8);
    out.push(((x >> 32) & 0xff) as u8);
    out.push(((x >> 24) & 0xff) as u8);
    out.push(((x >> 16) & 0xff) as u8);
    out.push(((x >> 8) & 0xff) as u8);
    out.push((x & 0xff) as u8);
    proof {
        assert(out@ =~= enc_u128(x));
    }
    out
}

/// What an IPv6 address string denotes, if anything.
pub uninterp spec fn ipv6_of(s: Seq<u8>) -> Option<u128>;

/// Relies on `core::net::Ipv6Addr`'s `FromStr` implementation: an IPv6
/// address string parses to its 128-bit value, and anything else —
/// malformed text or bytes that are no UTF-8 at all — is rejected; the
/// result depends on the bytes alone. (`core::str::from_utf8` only
/// converts the argument for the call.)
#[verifier::external_body]
pub(crate) fn parse_ipv6(s: &[u8]) -> (r: Option<u128>)
    ensures
        r == ipv6_of(s@),
{
    match core::str::from_utf8(s) {
        Ok(t) => match t.parse::<core::net::Ipv6Addr>() {
            Ok(a) => Some(u128::from(a)),
            Err(_) => None,
        },
        Err(_) => None,
    }
}

/// The wire name a textual name denotes: the compact form of the relation
/// `text_name_to_wire` decides.
pub open spec fn spec_text_wire_name(s: Seq<u8>) -> Option<Seq<u8>> {
    if exists|parts: Seq<Seq<u8>>|
        is_split(s, 0x2e, parts) && valid_labels(parts) && wire_name_of(parts).len() <= 255 {
        Some(
            wire_name_of(
                choose|parts: Seq<Seq<u8>>|
                    is_split(s, 0x2e, parts) && valid_labels(parts) && wire_name_of(parts).len()
                        <= 255,
            ),
        )
    } else {
        None
    }
}

/// A witness decomposition settles the compact wire-name form.
pub proof fn lemma_text_wire_name_some(s: Seq<u8>, parts: Seq<Seq<u8>>)
    requires
        is_split(s, 0x2e, parts),
        valid_labels(parts),
        wire_name_of(parts).len() <= 255,
    ensures
        spec_text_wire_name(s) == Some(wire_name_of(parts)),
{
    let picked = choose|p: Seq<Seq<u8>>|
        is_split(s, 0x2e, p) && valid_labels(p) && wire_name_of(p).len() <= 255;
    crate::ipparse::lemma_split_unique(s, 0x2e, picked, parts);
}

/// Turn a normalized textual name into wire label form, as
/// `spec_text_wire_name` describes it.
pub fn wire_name_of_text(name: &[u8]) -> (r: Option<Vec<u8>>)
    ensures
        (r matches Some(w) ==> spec_text_wire_name(name@) == Some(w@) && valid_name(w@)
            && w@.len() <= 255),
        r is None ==> spec_text_wire_name(name@) is None,
{
    let r = text_name_to_wire(name);
    proof {
        if r is Some {
            let w = r->0;
            let parts = choose|parts: Seq<Seq<u8>>|
                is_split(name@, 0x2e, parts) && valid_labels(parts) && w@ == wire_name_of(parts)
                    && valid_name(w@) && w@.len() <= 255;
            lemma_text_wire_name_some(name@, parts);
        }
    }
    r
}

/// The wire bytes of the first `k` labels.
pub open spec fn wire_name_of_prefix(parts: Seq<Seq<u8>>, k: int) -> Seq<u8>
    decreases k,
{
    if k <= 0 {
        Seq::empty()
    } else {
        wire_name_of_prefix(parts, k - 1) + seq![parts[k - 1].len() as u8] + parts[k - 1]
    }
}

/// A prefix of the labels never makes the wire name shorter.
proof fn lemma_wire_name_len_mono(parts: Seq<Seq<u8>>, k: int)
    requires
        0 <= k <= parts.len(),
    ensures
        wire_name_of_prefix(parts, k).len() < wire_name_of(parts).len(),
    decreases k,
{
    if k == 0 {
        lemma_wire_name_nonempty(parts);
    } else {
        lemma_wire_name_shift(parts, k);
    }
}

/// A wire name has at least its closing zero byte.
proof fn lemma_wire_name_nonempty(parts: Seq<Seq<u8>>)
    ensures
        wire_name_of(parts).len() >= 1,
    decreases parts.len(),
{
    if parts.len() > 0 {
        lemma_wire_name_nonempty(parts.skip(1));
    }
}

/// The whole wire name is the first `k` labels followed by the rest.
proof fn lemma_wire_name_shift(parts: Seq<Seq<u8>>, k: int)
    requires
        0 < k <= parts.len(),
    ensures
        wire_name_of(parts) == wire_name_of_prefix(parts, k) + wire_name_of(parts.skip(k)),
        wire_name_of_prefix(parts, k).len() < wire_name_of(parts).len(),
    decreases k,
{
    lemma_wire_name_nonempty(parts.skip(k));
    if k == 1 {
        assert(wire_name_of(parts) == seq![parts[0].len() as u8] + parts[0] + wire_name_of(
            parts.skip(1),
        ));
        assert(wire_name_of_prefix(parts, 1) =~= seq![parts[0].len() as u8] + parts[0]);
        assert(wire_name_of(parts) =~= wire_name_of_prefix(parts, 1) + wire_name_of(parts.skip(1)));
    } else {
        lemma_wire_name_shift(parts, k - 1);
        assert(parts.skip(k - 1)[0] == parts[k - 1]);
        assert(wire_name_of(parts.skip(k - 1)) == seq![parts[k - 1].len() as u8] + parts[k - 1]
            + wire_name_of(parts.skip(k - 1).skip(1)));
        assert(parts.skip(k - 1).skip(1) =~= parts.skip(k));
        assert(wire_name_of(parts) =~= wire_name_of_prefix(parts, k) + wire_name_of(parts.skip(k)));
    }
}

/// The two fields of an MX value: a preference number of one to five
/// digits (at most 65535) and a host name, separated by one space.
pub open spec fn mx_parts_ok(parts: Seq<Seq<u8>>) -> bool {
    parts.len() == 2 && 1 <= parts[0].len() <= 5 && all_digits(parts[0]) && dec_val(parts[0])
        <= 65535
}

/// The RDATA an MX value denotes: the preference in two bytes, then the
/// wire form of the (origin-composed) host name.
pub open spec fn spec_mx_rdata(value: Seq<u8>, origin: Seq<u8>) -> Option<Seq<u8>> {
    if exists|parts: Seq<Seq<u8>>| is_split(value, 0x20, parts) && mx_parts_ok(parts) {
        let parts = choose|parts: Seq<Seq<u8>>| is_split(value, 0x20, parts) && mx_parts_ok(parts);
        match spec_text_wire_name(spec_fqdn(parts[1], origin)) {
            Some(w) => Some(enc_u16(dec_val(parts[0]) as u16) + w),
            None => None,
        }
    } else {
        None
    }
}

/// The RDATA a zone-file value denotes for each supported record type:
/// the four address bytes for A, the sixteen for AAAA, one
/// length-prefixed character-string for TXT, a wire name for CNAME and
/// NS, preference and wire name for MX.
pub open spec fn spec_rdata_of(rtype: u16, value: Seq<u8>, origin: Seq<u8>) -> Option<Seq<u8>> {
    if rtype == RRTYPE_A {
        match crate::ipparse::spec_ipv4_of(value) {
            Some(x) => Some(enc_u32(x)),
            None => None,
        }
    } else if rtype == RRTYPE_AAAA {
        match ipv6_of(value) {
            Some(x) => Some(enc_u128(x)),
            None => None,
        }
    } else if rtype == RRTYPE_TXT {
        if value.len() <= 255 {
            Some(seq![value.len() as u8] + value)
        } else {
            None
        }
    } else if rtype == RRTYPE_CNAME || rtype == RRTYPE_NS {
        spec_text_wire_name(spec_fqdn(value, origin))
    } else if rtype == RRTYPE_MX {
        spec_mx_rdata(value, origin)
    } else {
        None
    }
}

/// Parse the RDATA of one zone record value.
pub fn parse_rdata(rtype: u16, value: &str, origin: &str) -> (r: Option<Vec<u8>>)
    ensures
        (r matches Some(b) ==> spec_rdata_of(rtype, str_bytes(value), str_bytes(origin)) == Some(
            b@,
        )),
        r is None ==> spec_rdata_of(rtype, str_bytes(value), str_bytes(origin)) is None,
{
    if rtype == RRTYPE_A {
        match crate::ipparse::parse_ipv4_addr(value.as_bytes()) {
            Some(x) => {
                let mut out: Vec<u8> = Vec::new();
                crate::wire::push_u32(&mut out, x);
                proof {
                    assert(out@ =~= enc_u32(x));
                }
                Some(out)
            },
            None => None,
        }
    } else if rtype == RRTYPE_AAAA {
        match parse_ipv6(value.as_bytes()) {
            Some(x) => Some(u128_bytes(x)),
            None => None,
        }
    } else if rtype == RRTYPE_TXT {
        let vb = value.as_bytes();
        if vb.len() > 255 {
            return None;
        }
        let mut out: Vec<u8> = Vec::new();
        out.push(vb.len() as u8);
        let n = vb.len();
        let mut i: usize = 0;
        while i < n
            invariant
                n == vb@.len(),
                n <= 255,
                0 <= i <= n,
                out@ == seq![n as u8] + vb@.take(i as int),
            decreases n - i,
        {
            out.push(vb[i]);
            proof {
                assert((seq![n as u8] + vb@.take(i as int)).push(vb@[i as int]) =~= seq![n as u8]
                    + vb@.take(i as int + 1));
            }
            i = i + 1;
        }
        proof {
            assert(vb@.take(n as int) =~= vb@);
        }
        Some(out)
    } else if rtype == RRTYPE_CNAME || rtype == RRTYPE_NS {
        let fqdn = make_fqdn(value, origin);
        wire_name_of_text(fqdn.as_slice())
    } else if rtype == RRTYPE_MX {
        parse_mx(value, origin)
    } else {
        None
    }
}

/// Parse an MX value "<pref> <host>".
fn parse_mx(value: &str, origin: &str) -> (r: Option<Vec<u8>>)
    ensures
        (r matches Some(b) ==> spec_mx_rdata(str_bytes(value), str_bytes(origin)) == Some(b@)),
        r is None ==> spec_mx_rdata(str_bytes(value), str_bytes(origin)) is None,
{
    let parts = split_on(value.as_bytes(), 0x20);
    let ghost pv = views_of(parts@);
    proof {
        assert forall|other: Seq<Seq<u8>>|
            is_split(str_bytes(value), 0x20, other) && mx_parts_ok(other) implies other == pv by {
            crate::ipparse::lemma_split_unique(str_bytes(value), 0x20, other, pv);
        }
    }
    if parts.len() != 2 {
        return None;
    }
    let pref = match crate::ipparse::dec_value5(parts[0].as_slice()) {
        Some(v) => {
            if v > 65535 {
                proof {
                    assert(pv[0] == parts@[0]@);
                    assert(!mx_parts_ok(pv));
                }
                return None;
            }
            v as u16
        },
        None => {
            proof {
                assert(pv[0] == parts@[0]@);
                assert(!mx_parts_ok(pv));
            }
            return None;
        },
    };
    proof {
        assert(pv[0] == parts@[0]@);
        assert(pv[1] == parts@[1]@);
        assert(mx_parts_ok(pv));
    }
    let host_str = &parts[1];
    let fqdn = make_fqdn_bytes(host_str.as_slice(), origin.as_bytes());
    proof {
        assert(fqdn@ == spec_fqdn(pv[1], str_bytes(origin)));
    }
    match wire_name_of_text(fqdn.as_slice()) {
        Some(w) => {
            let mut out: Vec<u8> = Vec::new();
            crate::wire::push_u16(&mut out, pref);
            let ghost pref_bytes = out@;
            let n = w.len();
            let mut i: usize = 0;
            while i < n
                invariant
                    n == w@.len(),
                    0 <= i <= n,
                    out@ == pref_bytes + w@.take(i as int),
                decreases n - i,
            {
                out.push(w[i]);
                proof {
                    assert((pref_bytes + w@.take(i as int)).push(w@[i as int]) =~= pref_bytes
                        + w@.take(i as int + 1));
                }
                i = i + 1;
            }
            proof {
                assert(w@.take(n as int) =~= w@);
                assert(out@ =~= enc_u16(dec_val(pv[0]) as u16) + w@);
            }
            Some(out)
        },
        None => None,
    }
}

/// One stored record: the normalized owner name it is filed under, and
/// the record itself.
pub struct ZoneItem {
    pub name_lc: Vec<u8>,
    pub record: WireRecord,
}

impl View for ZoneItem {
    type V = (Seq<u8>, RecordView);

    open spec fn view(&self) -> (Seq<u8>, RecordView) {
        (self.name_lc@, self.record@)
    }
}

/// The views of the stored items.
pub open spec fn items_view(items: Seq<ZoneItem>) -> Seq<(Seq<u8>, RecordView)> {
    items.map_values(|it: ZoneItem| it@)
}

/// A stored item answers the query: filed under the normalized query
/// name, with the asked type or under `ANY`.
pub open spec fn zone_match(it: (Seq<u8>, RecordView), q: Seq<u8>, qtype: u16) -> bool {
    it.0 == normalize_bytes(q) && (it.1.1 == qtype || qtype == RRTYPE_ANY)
}

/// The records a lookup returns, in storage order.
pub open spec fn spec_zone_lookup(
    items: Seq<(Seq<u8>, RecordView)>,
    q: Seq<u8>,
    qtype: u16,
) -> Seq<RecordView>
    decreases items.len(),
{
    if items.len() == 0 {
        Seq::empty()
    } else {
        let rest = spec_zone_lookup(items.drop_last(), q, qtype);
        if zone_match(items.last(), q, qtype) {
            rest.push(items.last().1)
        } else {
            rest
        }
    }
}

/// One text record of a zone file.
pub struct ZoneTextRecord {
    pub name: String,
    pub typ: String,
    pub value: String,
}

impl View for ZoneTextRecord {
    type V = (Seq<u8>, Seq<u8>, Seq<u8>);

    open spec fn view(&self) -> (Seq<u8>, Seq<u8>, Seq<u8>) {
        (crate::dname::string_bytes(&self.name), crate::dname::string_bytes(&self.typ), crate::dname::string_bytes(&self.value))
    }
}

/// Why a zone record was rejected.
#[derive(PartialEq, Eq, Structural, Clone, Copy, Debug)]
pub enum ZoneError {
    /// The type word is not one of the supported record types.
    BadType,
    /// The composed owner name has an invalid or overlong label.
    BadName,
    /// The value does not parse for the record's type.
    BadValue,
}

/// The stored item one text record denotes, if it is well formed.
pub open spec fn spec_make_item(
    origin: Seq<u8>,
    default_ttl: u32,
    rec: (Seq<u8>, Seq<u8>, Seq<u8>),
) -> Option<(Seq<u8>, RecordView)> {
    match spec_rrtype_of(rec.1) {
        None => None,
        Some(rt) => {
            let key = spec_fqdn(rec.0, origin);
            match spec_text_wire_name(key) {
                None => None,
                Some(w) => match spec_rdata_of(rt, rec.2, origin) {
                    None => None,
                    Some(rd) => Some((key, (w, rt, RRCLASS_IN, default_ttl, rd))),
                },
            }
        },
    }
}

/// Build the stored item of one text record; each rejection names the
/// part that failed.
pub fn make_zone_item(origin: &str, default_ttl: u32, rec: &ZoneTextRecord) -> (r: Result<
    ZoneItem,
    ZoneError,
>)
    ensures
        (r matches Ok(item) ==> spec_make_item(str_bytes(origin), default_ttl, rec@) == Some(
            item@,
        )),
        r == Err::<ZoneItem, ZoneError>(ZoneError::BadType) <==> spec_rrtype_of(rec@.1) is None,
        r == Err::<ZoneItem, ZoneError>(ZoneError::BadName) <==> (spec_rrtype_of(rec@.1) is Some
            && spec_text_wire_name(spec_fqdn(rec@.0, str_bytes(origin))) is None),
        r is Err ==> spec_make_item(str_bytes(origin), default_ttl, rec@) is None,
        r is Ok <==> spec_make_item(str_bytes(origin), default_ttl, rec@) is Some,
{
    let rt = match parse_rrtype(self_str(&rec.typ)) {
        Some(rt) => rt,
        None => {
            return Err(ZoneError::BadType);
        },
    };
    let key = make_fqdn(self_str(&rec.name), origin);
    let wire_name = match wire_name_of_text(key.as_slice()) {
        Some(w) => w,
        None => {
            return Err(ZoneError::BadName);
        },
    };
    let rdata = match parse_rdata(rt, self_str(&rec.value), origin) {
        Some(rd) => rd,
        None => {
            return Err(ZoneError::BadValue);
        },
    };
    Ok(
        ZoneItem {
            name_lc: key,
            record: WireRecord {
                name: wire_name,
                rtype: rt,
                rclass: RRCLASS_IN,
                ttl: default_ttl,
                rdata,
            },
        },
    )
}

/// Borrow a `String` as `&str`.
fn self_str(s: &String) -> (r: &str)
    ensures
        r@ == s@,
{
    s.as_str()
}

/// The read-only local zone store.
pub struct ZoneStore {
    pub items: Vec<ZoneItem>,
}

impl ZoneStore {
    /// An empty store.
    pub fn new() -> (z: ZoneStore)
        ensures
            z.items@.len() == 0,
    {
        ZoneStore { items: Vec::new() }
    }

    /// Ingest one zone file's records. All records must be well formed;
    /// the first rejected one names the error and leaves the store
    /// unchanged.
    pub fn ingest_zone(
        &mut self,
        origin: &str,
        default_ttl: u32,
        records: &Vec<ZoneTextRecord>,
    ) -> (r: Result<(), ZoneError>)
        ensures
            (r is Ok <==> (forall|i: int|
                0 <= i < records@.len() ==> spec_make_item(
                    str_bytes(origin),
                    default_ttl,
                    (#[trigger] records@[i])@,
                ) is Some)),
            r is Ok ==> {
                &&& final(self).items@.len() == old(self).items@.len() + records@.len()
                &&& (forall|i: int|
                    0 <= i < old(self).items@.len() ==> final(self).items@[i]@ == #[trigger] old(
                        self,
                    ).items@[i]@)
                &&& (forall|i: int|
                    0 <= i < records@.len() ==> Some(
                        #[trigger] final(self).items@[old(self).items@.len() + i]@,
                    ) == spec_make_item(str_bytes(origin), default_ttl, records@[i]@))
            },
            r is Err ==> final(self).items@ == old(self).items@,
    {
        let n = records.len();
        let mut staged: Vec<ZoneItem> = Vec::new();
        let mut i: usize = 0;
        while i < n
            invariant
                n == records@.len(),
                0 <= i <= n,
                staged@.len() == i,
                forall|k: int|
                    0 <= k < i ==> Some(#[trigger] staged@[k]@) == spec_make_item(
                        str_bytes(origin),
                        default_ttl,
                        records@[k]@,
                    ),
            decreases n - i,
        {
            match make_zone_item(origin, default_ttl, &records[i]) {
                Ok(item) => {
                    staged.push(item);
                },
                Err(e) => {
                    return Err(e);
                },
            }
            i = i + 1;
        }
        let ghost old_items = self.items@;
        let m = staged.len();
        let mut j: usize = 0;
        while j < m
            invariant
                m == records@.len(),
                0 <= j <= m,
                staged@.len() == m - j,
                self.items@.len() == old_items.len() + j,
                forall|k: int|
                    0 <= k < old_items.len() ==> #[trigger] self.items@[k]@ == old_items[k]@,
                forall|k: int|
                    0 <= k < j ==> Some(#[trigger] self.items@[old_items.len() + k]@)
                        == spec_make_item(str_bytes(origin), default_ttl, records@[k]@),
                forall|k: int|
                    0 <= k < staged@.len() ==> Some(#[trigger] staged@[k]@) == spec_make_item(
                        str_bytes(origin),
                        default_ttl,
                        records@[j + k]@,
                    ),
            decreases m - j,
        {
            let ghost staged0 = staged@;
            let item = take_item(&mut staged);
            self.items.push(item);
            proof {
                assert(forall|k: int|
                    0 <= k < staged@.len() ==> #[trigger] staged@[k] == staged0[k + 1]);
            }
            j = j + 1;
        }
        proof {
            assert forall|ii: int| 0 <= ii < records@.len() implies spec_make_item(
                str_bytes(origin),
                default_ttl,
                (#[trigger] records@[ii])@,
            ) is Some by {
                assert(Some(self.items@[old_items.len() + ii]@) == spec_make_item(
                    str_bytes(origin),
                    default_ttl,
                    records@[ii]@,
                ));
            }
        }
        Ok(())
    }

    /// Look a query up: the stored records filed under the normalized
    /// name whose type matches (or all of them for `ANY`), or nothing.
    pub fn lookup(&self, qname: &str, qtype: u16) -> (r: Option<Vec<WireRecord>>)
        ensures
            (r matches Some(v) ==> v@.map_values(|rec: WireRecord| rec@) == spec_zone_lookup(
                items_view(self.items@),
                str_bytes(qname),
                qtype,
            ) && v@.len() > 0),
            r is None ==> spec_zone_lookup(items_view(self.items@), str_bytes(qname), qtype).len()
                == 0,
    {
        let key = normalize_vec(qname.as_bytes());
        let n = self.items.len();
        let mut out: Vec<WireRecord> = Vec::new();
        let mut i: usize = 0;
        while i < n
            invariant
                n == self.items@.len(),
                0 <= i <= n,
                key@ == normalize_bytes(str_bytes(qname)),
                out@.map_values(|rec: WireRecord| rec@) == spec_zone_lookup(
                    items_view(self.items@).take(i as int),
                    str_bytes(qname),
                    qtype,
                ),
            decreases n - i,
        {
            let it = &self.items[i];
            let ghost pre = out@.map_values(|rec: WireRecord| rec@);
            proof {
                assert(items_view(self.items@).take(i as int + 1).drop_last() =~= items_view(
                    self.items@,
                ).take(i as int));
                assert(items_view(self.items@).take(i as int + 1).last() == items_view(
                    self.items@,
                )[i as int]);
                assert(items_view(self.items@)[i as int] == it@);
            }
            if crate::dname::bytes_eq(it.name_lc.as_slice(), key.as_slice()) && (it.record.rtype
                == qtype || qtype == RRTYPE_ANY) {
                out.push(clone_record(&it.record));
                proof {
                    assert(out@.map_values(|rec: WireRecord| rec@) =~= pre.push(it.record@));
                }
            } else {
                proof {
                    assert(!zone_match(it@, str_bytes(qname), qtype));
                }
            }
            i = i + 1;
        }
        proof {
            assert(items_view(self.items@).take(n as int) =~= items_view(self.items@));
        }
        if out.len() == 0 {
            None
        } else {
            Some(out)
        }
    }
}

/// Take the first staged item out.
fn take_item(staged: &mut Vec<ZoneItem>) -> (item: ZoneItem)
    requires
        old(staged)@.len() > 0,
    ensures
        item == old(staged)@[0],
        final(staged)@ == old(staged)@.skip(1),
{
    let item = staged.remove(0);
    proof {
        assert(staged@ =~= old(staged)@.skip(1));
    }
    item
}

/// Copy a record.
pub fn clone_record(r: &WireRecord) -> (c: WireRecord)
    ensures
        c@ == r@,
{
    WireRecord {
        name: vstd::slice::slice_to_vec(r.name.as_slice()),
        rtype: r.rtype,
        rclass: r.rclass,
        ttl: r.ttl,
        rdata: vstd::slice::slice_to_vec(r.rdata.as_slice()),
    }
}

} // verus!
