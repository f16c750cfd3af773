//! Cache keys, cached entries, freshness states, the TTL policy and the
//! write-through rules (including two-hit negative caching).
use vstd::prelude::*;
use crate::config::CacheConfig;
use crate::dname::{normalize_bytes, normalize_vec, str_bytes, string_bytes, string_from_ascii};
use crate::store::{store_contents, store_get, store_insert, store_new, EntryView, KeyView};

verus! {

/// Key of both cache stores: the normalized query name (ASCII-lowercased,
/// no trailing dot), the 16-bit record type, and the EDNS DO bit.
#[derive(Debug, Clone, Hash, PartialEq, Eq)]
pub struct CacheKey {
    pub qname_lc: String,
    pub qtype: u16,
    pub do_bit: bool,
}

impl View for CacheKey {
    type V = (Seq<u8>, u16, bool);

    open spec fn view(&self) -> (Seq<u8>, u16, bool) {
        (string_bytes(&self.qname_lc), self.qtype, self.do_bit)
    }
}

/// The key a query maps to: its name normalized, with type and DO bit.
pub open spec fn key_of(qname: Seq<u8>, qtype: u16, do_bit: bool) -> (Seq<u8>, u16, bool) {
    (normalize_bytes(qname), qtype, do_bit)
}

impl CacheKey {
    /// The name stored in the key is already normalized.
    pub open spec fn wf(&self) -> bool {
        string_bytes(&self.qname_lc) == normalize_bytes(string_bytes(&self.qname_lc))
    }

    /// Build the cache key of a query: the name is lowercased and its
    /// trailing dots stripped, exactly once, here.
    pub fn of_query(qname: &str, qtype: u16, do_bit: bool) -> (k: CacheKey)
        requires
            qname.is_ascii(),
        ensures
            k@ == key_of(str_bytes(qname), qtype, do_bit),
            k.wf(),
    {
        let norm = normalize_vec(qname.as_bytes());
        proof {
            vstd::utf8::is_ascii_chars_encode_utf8(qname@);
            assert(crate::dname::all_ascii_bytes(str_bytes(qname)));
            crate::dname::lemma_normalize_ascii(str_bytes(qname));
            crate::dname::lemma_normalize_idempotent(str_bytes(qname));
        }
        CacheKey { qname_lc: string_from_ascii(norm), qtype, do_bit }
    }
}

/// Normalizing a query name before building its key changes nothing: the
/// key of `q` and the key of `normalize(q)` are one and the same.
pub proof fn lemma_key_of_normalized(qname: Seq<u8>, qtype: u16, do_bit: bool)
    ensures
        key_of(qname, qtype, do_bit) == key_of(normalize_bytes(qname), qtype, do_bit),
{
    crate::dname::lemma_normalize_idempotent(qname);
}

/// A cached response: self-contained wire bytes and the two freshness
/// timestamps. Immutable after insertion.
#[derive(Debug, Clone)]
pub struct CachedEntry {
    pub bytes: Vec<u8>,
    pub expires_at: u64,
    pub stale_until: u64,
}

impl View for CachedEntry {
    type V = (Seq<u8>, u64, u64);

    open spec fn view(&self) -> (Seq<u8>, u64, u64) {
        (self.bytes@, self.expires_at, self.stale_until)
    }
}

impl CachedEntry {
    /// The entry's invariant: it cannot expire after its stale deadline.
    pub open spec fn wf(&self) -> bool {
        self.expires_at <= self.stale_until
    }

    /// Build an entry from response bytes at insertion time:
    /// `expires_at = now + ttl` and `stale_until = expires_at + stale_window`.
    pub fn new(bytes: Vec<u8>, now: u64, ttl: u64, stale_window: u64) -> (e: CachedEntry)
        requires
            now + ttl + stale_window <= u64::MAX,
        ensures
            e.bytes@ == bytes@,
            e.expires_at == now + ttl,
            e.stale_until == now + ttl + stale_window,
            e.wf(),
            e.stale_until - e.expires_at == stale_window,
    {
        let expires_at = now + ttl;
        CachedEntry { bytes, expires_at, stale_until: expires_at + stale_window }
    }
}

/// Freshness of a cache entry at read time.
#[derive(PartialEq, Eq, Structural, Clone, Copy, Debug)]
pub enum CacheState {
    Fresh,
    NearExpiry,
    Stale,
    Dead,
}

/// Which state an entry is in at time `now`, given the prefetch threshold:
/// `Fresh` strictly before the prefetch window opens, `NearExpiry` inside
/// it, `Stale` between expiry and the stale deadline, `Dead` after that.
pub open spec fn spec_state_at(expires_at: u64, stale_until: u64, prefetch: u64, now: u64) -> CacheState {
    if now + prefetch < expires_at {
        CacheState::Fresh
    } else if now < expires_at {
        CacheState::NearExpiry
    } else if now < stale_until {
        CacheState::Stale
    } else {
        CacheState::Dead
    }
}

impl CachedEntry {
    /// Classify this entry at time `now`.
    pub fn state_at(&self, prefetch: u64, now: u64) -> (s: CacheState)
        ensures
            s == spec_state_at(self.expires_at, self.stale_until, prefetch, now),
    {
        if now < self.expires_at && self.expires_at - now > prefetch {
            CacheState::Fresh
        } else if now < self.expires_at {
            CacheState::NearExpiry
        } else if now < self.stale_until {
            CacheState::Stale
        } else {
            CacheState::Dead
        }
    }
}

/// Clamp a TTL into `[lo, hi]`.
pub open spec fn spec_clamp(x: u64, lo: u64, hi: u64) -> u64 {
    if x < lo {
        lo
    } else if x > hi {
        hi
    } else {
        x
    }
}

/// Exec clamp; the bounds must not be inverted.
pub fn clamp_u64(x: u64, lo: u64, hi: u64) -> (r: u64)
    requires
        lo <= hi,
    ensures
        r == spec_clamp(x, lo, hi),
        lo <= r <= hi,
{
    if x < lo {
        lo
    } else if x > hi {
        hi
    } else {
        x
    }
}

/// DNS response codes the pipeline decides over.
pub const RCODE_NOERROR: u16 = 0;

pub const RCODE_SERVFAIL: u16 = 2;

pub const RCODE_NXDOMAIN: u16 = 3;

pub const RCODE_REFUSED: u16 = 5;

/// TTL and negative-caching policy, copied out of the configuration once.
#[derive(PartialEq, Eq, Structural, Clone, Copy, Debug)]
pub struct TtlPolicy {
    pub min_ttl: u64,
    pub max_ttl: u64,
    pub negative_ttl: u64,
    pub neg_min_ttl: u64,
    pub neg_max_ttl: u64,
    pub probe_ttl_secs: u64,
    pub prefetch_threshold_secs: u64,
    pub stale_window_secs: u64,
    pub neg_enabled: bool,
    pub cache_nxdomain: bool,
    pub cache_nodata: bool,
    pub two_hit: bool,
}

impl TtlPolicy {
    /// Clamp bounds must not be inverted.
    pub open spec fn wf(&self) -> bool {
        self.min_ttl <= self.max_ttl && self.neg_min_ttl <= self.neg_max_ttl
    }

    /// The policy a cache configuration sets.
    pub open spec fn spec_of_config(cfg: &CacheConfig) -> TtlPolicy {
        TtlPolicy {
            min_ttl: cfg.min_ttl,
            max_ttl: cfg.max_ttl,
            negative_ttl: cfg.negative_ttl,
            neg_min_ttl: cfg.negative.min_ttl,
            neg_max_ttl: cfg.negative.max_ttl,
            probe_ttl_secs: cfg.negative.probe_ttl_secs,
            prefetch_threshold_secs: cfg.prefetch_threshold_secs,
            stale_window_secs: cfg.stale_window_secs,
            neg_enabled: cfg.negative.enabled,
            cache_nxdomain: cfg.negative.cache_nxdomain,
            cache_nodata: cfg.negative.cache_nodata,
            two_hit: cfg.negative.two_hit,
        }
    }

    /// Read the policy out of a cache configuration.
    pub fn of_config(cfg: &CacheConfig) -> (p: TtlPolicy)
        ensures
            p == TtlPolicy::spec_of_config(cfg),
    {
        TtlPolicy {
            min_ttl: cfg.min_ttl,
            max_ttl: cfg.max_ttl,
            negative_ttl: cfg.negative_ttl,
            neg_min_ttl: cfg.negative.min_ttl,
            neg_max_ttl: cfg.negative.max_ttl,
            probe_ttl_secs: cfg.negative.probe_ttl_secs,
            prefetch_threshold_secs: cfg.prefetch_threshold_secs,
            stale_window_secs: cfg.stale_window_secs,
            neg_enabled: cfg.negative.enabled,
            cache_nxdomain: cfg.negative.cache_nxdomain,
            cache_nodata: cfg.negative.cache_nodata,
            two_hit: cfg.negative.two_hit,
        }
    }
}

/// The TTL a positive answer is stored with: the minimum record TTL
/// clamped into `[min_ttl, max_ttl]`.
pub open spec fn spec_positive_ttl(p: TtlPolicy, min_record_ttl: u64) -> u64 {
    spec_clamp(min_record_ttl, p.min_ttl, p.max_ttl)
}

/// The TTL a negative answer is stored with: the SOA minimum if the
/// upstream sent one, else the configured fallback, clamped into the
/// negative bounds.
pub open spec fn spec_negative_ttl(p: TtlPolicy, soa_minimum: Option<u32>) -> u64 {
    let base = match soa_minimum {
        Some(m) => m as u64,
        None => p.negative_ttl,
    };
    spec_clamp(base, p.neg_min_ttl, p.neg_max_ttl)
}

/// A zero upstream TTL is clamped up to the configured floor on insert.
pub proof fn lemma_ttl_zero_clamped(p: TtlPolicy)
    requires
        p.wf(),
    ensures
        spec_positive_ttl(p, 0) == p.min_ttl,
{
}

/// A TTL above the configured ceiling is clamped down to it.
pub proof fn lemma_ttl_ceiling(p: TtlPolicy, ttl: u64)
    requires
        p.wf(),
        ttl > p.max_ttl,
    ensures
        spec_positive_ttl(p, ttl) == p.max_ttl,
{
}

/// What the write-through step stores after a resolution.
#[derive(PartialEq, Eq, Structural, Clone, Copy, Debug)]
pub enum CacheWrite {
    /// A positive answer goes into the answer store.
    StorePositive,
    /// A first negative observation only leaves a probe marker.
    StoreProbe,
    /// A negative answer goes into the negative store.
    StoreNegative,
    /// Nothing is cached.
    NoWrite,
}

/// A response that the negative-caching policy may store: NXDOMAIN when
/// configured, or NODATA (NoError without records) when configured.
pub open spec fn spec_cacheable_negative(p: TtlPolicy, rcode: u16, has_records: bool) -> bool {
    p.neg_enabled && ((rcode == RCODE_NXDOMAIN && p.cache_nxdomain) || (rcode == RCODE_NOERROR
        && !has_records && p.cache_nodata))
}

/// The write-through decision of the pipeline: positive answers are stored;
/// cacheable negatives follow the two-hit policy (probe first, store on the
/// second observation); `ServFail` and `Refused` are never cached.
pub open spec fn spec_write_plan(
    p: TtlPolicy,
    rcode: u16,
    has_records: bool,
    neg_present: bool,
    probe_present: bool,
) -> CacheWrite {
    if rcode == RCODE_NOERROR && has_records {
        CacheWrite::StorePositive
    } else if spec_cacheable_negative(p, rcode, has_records) {
        if !p.two_hit {
            CacheWrite::StoreNegative
        } else if probe_present {
            CacheWrite::StoreNegative
        } else if neg_present {
            CacheWrite::NoWrite
        } else {
            CacheWrite::StoreProbe
        }
    } else {
        CacheWrite::NoWrite
    }
}

/// Exec form of the write-through decision.
pub fn write_plan(
    p: &TtlPolicy,
    rcode: u16,
    has_records: bool,
    neg_present: bool,
    probe_present: bool,
) -> (r: CacheWrite)
    ensures
        r == spec_write_plan(*p, rcode, has_records, neg_present, probe_present),
{
    if rcode == RCODE_NOERROR && has_records {
        CacheWrite::StorePositive
    } else if p.neg_enabled && ((rcode == RCODE_NXDOMAIN && p.cache_nxdomain) || (rcode
        == RCODE_NOERROR && !has_records && p.cache_nodata)) {
        if !p.two_hit {
            CacheWrite::StoreNegative
        } else if probe_present {
            CacheWrite::StoreNegative
        } else if neg_present {
            CacheWrite::NoWrite
        } else {
            CacheWrite::StoreProbe
        }
    } else {
        CacheWrite::NoWrite
    }
}

/// No cache entry is ever created for a `ServFail` or `Refused` response:
/// the write-through decision for those codes is always `NoWrite`.
pub proof fn lemma_never_cache_failures(
    p: TtlPolicy,
    rcode: u16,
    has_records: bool,
    neg_present: bool,
    probe_present: bool,
)
    requires
        rcode == RCODE_SERVFAIL || rcode == RCODE_REFUSED,
    ensures
        spec_write_plan(p, rcode, has_records, neg_present, probe_present) == CacheWrite::NoWrite,
{
}

/// Apply a write decision to models of the negative and probe stores.
pub open spec fn apply_negative_write(
    plan: CacheWrite,
    key: KeyView,
    entry: EntryView,
    neg: Map<KeyView, EntryView>,
    probe: Map<KeyView, EntryView>,
) -> (Map<KeyView, EntryView>, Map<KeyView, EntryView>) {
    match plan {
        CacheWrite::StoreNegative => (neg.insert(key, entry), probe),
        CacheWrite::StoreProbe => (neg, probe.insert(key, entry)),
        _ => (neg, probe),
    }
}

/// The two-hit law: starting from stores that know nothing of `key`, the
/// first cacheable NXDOMAIN observation leaves the negative store without
/// the key (only a probe), and a second observation while the probe stands
/// stores the negative entry.
pub proof fn lemma_two_hit_negative(
    p: TtlPolicy,
    key: KeyView,
    e1: EntryView,
    e2: EntryView,
    neg0: Map<KeyView, EntryView>,
    probe0: Map<KeyView, EntryView>,
)
    requires
        p.neg_enabled,
        p.cache_nxdomain,
        p.two_hit,
        !neg0.contains_key(key),
        !probe0.contains_key(key),
    ensures
        ({
            let plan1 = spec_write_plan(p, RCODE_NXDOMAIN, false, false, false);
            let (neg1, probe1) = apply_negative_write(plan1, key, e1, neg0, probe0);
            let plan2 = spec_write_plan(
                p,
                RCODE_NXDOMAIN,
                false,
                neg1.contains_key(key),
                probe1.contains_key(key),
            );
            let (neg2, probe2) = apply_negative_write(plan2, key, e2, neg1, probe1);
            &&& plan1 == CacheWrite::StoreProbe
            &&& !neg1.contains_key(key)
            &&& plan2 == CacheWrite::StoreNegative
            &&& neg2.contains_key(key)
            &&& neg2[key] == e2
        }),
{
}

/// The cache front: the positive, negative and probe stores plus the TTL
/// policy that governs inserts and freshness.
pub struct DnsCaches {
    pub answers: moka::sync::Cache<CacheKey, CachedEntry>,
    pub negative: moka::sync::Cache<CacheKey, CachedEntry>,
    pub negative_probe: moka::sync::Cache<CacheKey, CachedEntry>,
    pub policy: TtlPolicy,
}

/// What a positive-cache lookup tells the pipeline to do.
pub enum CacheLookup {
    /// Serve these cached bytes; `refresh` asks for a background refresh
    /// (the entry was near expiry or stale).
    Serve { bytes: Vec<u8>, refresh: bool },
    /// Nothing servable; go on resolving.
    Miss,
}

impl DnsCaches {
    /// The policy bounds are not inverted.
    pub open spec fn wf(&self) -> bool {
        self.policy.wf()
    }

    /// Build the three stores, empty, with the configured capacities.
    pub fn new(cfg: &CacheConfig) -> (c: DnsCaches)
        requires
            cfg.min_ttl <= cfg.max_ttl,
            cfg.negative.min_ttl <= cfg.negative.max_ttl,
        ensures
            c.wf(),
            c.policy == TtlPolicy::spec_of_config(cfg),
            store_contents(c.answers).dom() == Set::<KeyView>::empty(),
            store_contents(c.negative).dom() == Set::<KeyView>::empty(),
            store_contents(c.negative_probe).dom() == Set::<KeyView>::empty(),
    {
        DnsCaches {
            answers: store_new(cfg.answer_cache_size),
            negative: store_new(cfg.negative_cache_size),
            negative_probe: store_new(cfg.negative_cache_size),
            policy: TtlPolicy::of_config(cfg),
        }
    }

    /// Clamp a positive TTL into the configured bounds.
    pub fn clamp_ttl(&self, ttl: u64) -> (r: u64)
        requires
            self.wf(),
        ensures
            r == spec_positive_ttl(self.policy, ttl),
    {
        clamp_u64(ttl, self.policy.min_ttl, self.policy.max_ttl)
    }

    /// Look the stored entry up in the answer store, for inspection.
    pub fn peek_answer(&self, key: &CacheKey) -> (r: Option<CachedEntry>)
        ensures
            (r matches Some(e) ==> store_contents(self.answers).contains_key(key@)
                && store_contents(self.answers)[key@] == e@),
    {
        store_get(&self.answers, key)
    }

    /// Look the stored entry up in the negative store, for inspection.
    pub fn peek_negative(&self, key: &CacheKey) -> (r: Option<CachedEntry>)
        ensures
            (r matches Some(e) ==> store_contents(self.negative).contains_key(key@)
                && store_contents(self.negative)[key@] == e@),
    {
        store_get(&self.negative, key)
    }

    /// Look the stored probe marker up, for inspection.
    pub fn peek_probe(&self, key: &CacheKey) -> (r: Option<CachedEntry>)
        ensures
            (r matches Some(e) ==> store_contents(self.negative_probe).contains_key(key@)
                && store_contents(self.negative_probe)[key@] == e@),
    {
        store_get(&self.negative_probe, key)
    }

    /// Look a key up in the positive store and decide what to do with the
    /// hit: a fresh entry is served as it is, a near-expiry or stale one is
    /// served with a background refresh requested, a dead one is a miss.
    pub fn lookup_positive(&self, key: &CacheKey, now: u64) -> (r: CacheLookup)
        ensures
            (r matches CacheLookup::Serve { bytes, refresh } ==> {
                let m = store_contents(self.answers);
                let st = spec_state_at(m[key@].1, m[key@].2, self.policy.prefetch_threshold_secs, now);
                &&& m.contains_key(key@)
                &&& bytes@ == m[key@].0
                &&& st != CacheState::Dead
                &&& refresh == (st != CacheState::Fresh)
            }),
    {
        match store_get(&self.answers, key) {
            Some(entry) => {
                let st = entry.state_at(self.policy.prefetch_threshold_secs, now);
                if st == CacheState::Dead {
                    CacheLookup::Miss
                } else {
                    CacheLookup::Serve { bytes: entry.bytes, refresh: st != CacheState::Fresh }
                }
            },
            None => CacheLookup::Miss,
        }
    }

    /// Look a key up in the negative store: a live entry is served, but a
    /// negative hit never asks for a background refresh.
    pub fn lookup_negative(&self, key: &CacheKey, now: u64) -> (r: Option<Vec<u8>>)
        ensures
            (r matches Some(bytes) ==> {
                let m = store_contents(self.negative);
                &&& m.contains_key(key@)
                &&& bytes@ == m[key@].0
                &&& spec_state_at(m[key@].1, m[key@].2, self.policy.prefetch_threshold_secs, now)
                    != CacheState::Dead
            }),
    {
        match store_get(&self.negative, key) {
            Some(entry) => {
                let st = entry.state_at(self.policy.prefetch_threshold_secs, now);
                if st == CacheState::Dead {
                    None
                } else {
                    Some(entry.bytes)
                }
            },
            None => None,
        }
    }

    /// Is a negative entry present for this key (live or not yet dead)?
    /// Feeds the two-hit decision.
    pub fn negative_present(&self, key: &CacheKey, now: u64) -> (r: bool)
        ensures
            r ==> store_contents(self.negative).contains_key(key@),
    {
        match store_get(&self.negative, key) {
            Some(entry) => {
                let st = entry.state_at(self.policy.prefetch_threshold_secs, now);
                st != CacheState::Dead
            },
            None => false,
        }
    }

    /// Is a live probe marker present for this key? Feeds the two-hit
    /// decision; an expired probe counts as absent.
    pub fn probe_present(&self, key: &CacheKey, now: u64) -> (r: bool)
        ensures
            r ==> {
                let m = store_contents(self.negative_probe);
                &&& m.contains_key(key@)
                &&& now < m[key@].1
            },
    {
        match store_get(&self.negative_probe, key) {
            Some(entry) => now < entry.expires_at,
            None => false,
        }
    }

    /// Store a positive answer: the minimum record TTL is clamped into the
    /// positive bounds, and the stale window is appended after expiry.
    pub fn insert_answer(&mut self, key: CacheKey, bytes: Vec<u8>, min_record_ttl: u64, now: u64)
        requires
            old(self).wf(),
            now + old(self).policy.max_ttl + old(self).policy.stale_window_secs <= u64::MAX,
            now + old(self).policy.min_ttl + old(self).policy.stale_window_secs <= u64::MAX,
        ensures
            final(self).policy == old(self).policy,
            final(self).negative == old(self).negative,
            final(self).negative_probe == old(self).negative_probe,
            ({
                let ttl = spec_positive_ttl(old(self).policy, min_record_ttl);
                let entry = (
                    bytes@,
                    (now + ttl) as u64,
                    (now + ttl + old(self).policy.stale_window_secs) as u64,
                );
                store_contents(final(self).answers).submap_of(
                    store_contents(old(self).answers).insert(key@, entry),
                )
            }),
    {
        let ttl = clamp_u64(min_record_ttl, self.policy.min_ttl, self.policy.max_ttl);
        let entry = CachedEntry::new(bytes, now, ttl, self.policy.stale_window_secs);
        store_insert(&mut self.answers, key, entry);
    }

    /// Store a negative answer under the negative TTL clamp.
    pub fn insert_negative(&mut self, key: CacheKey, bytes: Vec<u8>, soa_minimum: Option<u32>, now: u64)
        requires
            old(self).wf(),
            now + old(self).policy.neg_max_ttl + old(self).policy.stale_window_secs <= u64::MAX,
            now + old(self).policy.neg_min_ttl + old(self).policy.stale_window_secs <= u64::MAX,
        ensures
            final(self).policy == old(self).policy,
            final(self).answers == old(self).answers,
            final(self).negative_probe == old(self).negative_probe,
            ({
                let ttl = spec_negative_ttl(old(self).policy, soa_minimum);
                let entry = (
                    bytes@,
                    (now + ttl) as u64,
                    (now + ttl + old(self).policy.stale_window_secs) as u64,
                );
                store_contents(final(self).negative).submap_of(
                    store_contents(old(self).negative).insert(key@, entry),
                )
            }),
    {
        let base = match soa_minimum {
            Some(m) => m as u64,
            None => self.policy.negative_ttl,
        };
        let ttl = clamp_u64(base, self.policy.neg_min_ttl, self.policy.neg_max_ttl);
        let entry = CachedEntry::new(bytes, now, ttl, self.policy.stale_window_secs);
        store_insert(&mut self.negative, key, entry);
    }

    /// Leave a probe marker with the fixed probe TTL and no stale window.
    pub fn insert_probe(&mut self, key: CacheKey, now: u64)
        requires
            now + old(self).policy.probe_ttl_secs <= u64::MAX,
        ensures
            final(self).policy == old(self).policy,
            final(self).answers == old(self).answers,
            final(self).negative == old(self).negative,
            ({
                let entry = (
                    Seq::<u8>::empty(),
                    (now + old(self).policy.probe_ttl_secs) as u64,
                    (now + old(self).policy.probe_ttl_secs) as u64,
                );
                store_contents(final(self).negative_probe).submap_of(
                    store_contents(old(self).negative_probe).insert(key@, entry),
                )
            }),
    {
        let entry = CachedEntry::new(Vec::new(), now, self.policy.probe_ttl_secs, 0);
        store_insert(&mut self.negative_probe, key, entry);
    }
}

} // verus!
