//! The query-processing pipeline.
//!
//! Each request runs through: parse, domain filter, local zones, positive
//! cache, negative cache, resolve, emit, write-through. The resolver call
//! and all socket work are asynchronous and live outside the library; the
//! pipeline is split around them into `pre_resolve` (everything before the
//! resolver) and `finish_query` (outcome mapping, write-through and the
//! reply), with `serve_cached` rebuilding a reply from stored bytes and
//! `refresh_complete` finishing a background refresh.
use vstd::prelude::*;
use crate::cache::{
    key_of, spec_negative_ttl, spec_positive_ttl, spec_state_at, spec_write_plan, CacheKey,
    CacheLookup, CacheState, CacheWrite, DnsCaches, TtlPolicy, RCODE_NOERROR, RCODE_REFUSED,
    RCODE_SERVFAIL,
};
use crate::config::{AppConfig, ResolverMode};
use crate::dname::str_bytes;
use crate::filters::{spec_domain_allowed, strings_bytes, Filters};
use crate::store::{store_contents, EntryView, KeyView};
use crate::wire::{
    dec_message, decode_message, encode_message, enc_message, wf_message, wf_record, CachedMessage,
    MessageHeader, RecordView, WireRecord,
};
use crate::zones::{items_view, spec_zone_lookup, ZoneStore};

verus! {

/// In-handler retry policy for the iterative path: attempts and spacing.
pub const HANDLER_RETRY_ATTEMPTS: u32 = 3;

pub const HANDLER_RETRY_SPACING_MS: u64 = 100;

/// The header every reply carries: the request id, response bit set,
/// recursion available, not authoritative, no authentic-data claim, and
/// the request's recursion-desired bit echoed.
pub open spec fn response_header(id: u16, rd: bool, rcode: u8) -> MessageHeader {
    MessageHeader {
        id,
        qr: true,
        opcode: 0,
        aa: false,
        tc: false,
        rd,
        ra: true,
        ad: false,
        cd: false,
        rcode,
    }
}

/// Response flags law: in every reply `QR = 1`, `RA = 1`, `AA = 0`,
/// `AD = 0`, and `RD` echoes the request.
pub proof fn lemma_response_flags(id: u16, rd: bool, rcode: u8)
    ensures
        response_header(id, rd, rcode).qr,
        response_header(id, rd, rcode).ra,
        !response_header(id, rd, rcode).aa,
        !response_header(id, rd, rcode).ad,
        response_header(id, rd, rcode).rd == rd,
        response_header(id, rd, rcode).id == id,
{
}

/// Build a reply message: the response header over the given answers.
pub fn compose_response(req_id: u16, req_rd: bool, rcode: u16, answers: Vec<WireRecord>) -> (m:
    CachedMessage)
    ensures
        m.header == response_header(req_id, req_rd, (rcode & 0xf) as u8),
        m.answers@ == answers@,
        m.header.wf(),
{
    proof {
        assert((rcode & 0xf) <= 0xf) by (bit_vector);
    }
    CachedMessage {
        header: MessageHeader {
            id: req_id,
            qr: true,
            opcode: 0,
            aa: false,
            tc: false,
            rd: req_rd,
            ra: true,
            ad: false,
            cd: false,
            rcode: (rcode & 0xf) as u8,
        },
        answers,
    }
}

/// Rebuild a reply from cached wire bytes: decode them, keep the stored
/// answers and response code, and put the requester's id and flags on.
/// Nothing is returned for bytes that do not decode.
pub fn serve_cached(bytes: &[u8], req_id: u16, req_rd: bool) -> (r: Option<CachedMessage>)
    ensures
        (r matches Some(m) ==> {
            let cached = dec_message(bytes@)->0;
            &&& dec_message(bytes@) is Some
            &&& m.header == response_header(req_id, req_rd, cached.0.rcode)
            &&& m.answers@.map_values(|rec: WireRecord| rec@) == cached.1
        }),
        r is None ==> dec_message(bytes@) is None,
{
    match decode_message(bytes) {
        Some(cached) => {
            let rcode = cached.header.rcode;
            proof {
                let f = crate::wire::dec_u16_at(bytes@, 2);
                let mv = dec_message(bytes@)->0;
                assert(mv.0.rcode == (f & 0xf) as u8);
                assert(((f & 0xf) as u8) <= 0xf) by (bit_vector);
            }
            let m = compose_response(req_id, req_rd, rcode as u16, cached.answers);
            proof {
                assert((rcode as u16 & 0xf) as u8 == rcode) by (bit_vector)
                    requires
                        rcode <= 0xf,
                ;
            }
            Some(m)
        },
        None => None,
    }
}

/// What the resolver step came back with, reduced to plain values: a
/// successful lookup's records, an upstream's structured no-records answer
/// with its response code (and the SOA minimum if one was sent), or any
/// other failure.
pub enum ResolveOutcome {
    Answered { records: Vec<WireRecord> },
    NoRecords { rcode: u16, soa_minimum: Option<u32> },
    Failed,
}

/// The records-and-code mapping of the resolver outcome: answers surface
/// as `NoError`, structured no-records surface verbatim, anything else is
/// `ServFail`.
pub open spec fn spec_outcome_rcode(outcome: &ResolveOutcome) -> u16 {
    match outcome {
        ResolveOutcome::Answered { .. } => RCODE_NOERROR,
        ResolveOutcome::NoRecords { rcode, .. } => *rcode,
        ResolveOutcome::Failed => RCODE_SERVFAIL,
    }
}

/// The well-formed records of a run, in order.
pub open spec fn wf_filter(rs: Seq<RecordView>) -> Seq<RecordView>
    decreases rs.len(),
{
    if rs.len() == 0 {
        Seq::empty()
    } else {
        let rest = wf_filter(rs.drop_last());
        if wf_record(rs.last()) {
            rest.push(rs.last())
        } else {
            rest
        }
    }
}

/// Keep the well-formed records (those whose owner name is a valid wire
/// name within bounds and whose RDATA fits its length field): only those
/// can be cached and replayed.
pub fn sanitize_records(records: Vec<WireRecord>) -> (r: Vec<WireRecord>)
    ensures
        r@.map_values(|rec: WireRecord| rec@) == wf_filter(
            records@.map_values(|rec: WireRecord| rec@),
        ),
        r@.len() <= records@.len(),
{
    let ghost rsv = records@.map_values(|rec: WireRecord| rec@);
    let n = records.len();
    let mut out: Vec<WireRecord> = Vec::new();
    let mut i: usize = 0;
    while i < n
        invariant
            n == records@.len(),
            0 <= i <= n,
            rsv == records@.map_values(|rec: WireRecord| rec@),
            out@.len() <= i,
            out@.map_values(|rec: WireRecord| rec@) == wf_filter(rsv.take(i as int)),
        decreases n - i,
    {
        let rec = &records[i];
        let ghost pre = out@.map_values(|x: WireRecord| x@);
        proof {
            assert(rsv.take(i as int + 1).drop_last() =~= rsv.take(i as int));
            assert(rsv.take(i as int + 1).last() == rsv[i as int]);
            assert(rsv[i as int] == rec@);
        }
        if crate::wire::record_is_wf(rec) {
            out.push(crate::zones::clone_record(rec));
            proof {
                assert(out@.map_values(|x: WireRecord| x@) =~= pre.push(rec@));
            }
        }
        i = i + 1;
    }
    proof {
        assert(rsv.take(n as int) =~= rsv);
    }
    out
}

/// The smallest TTL among a run of records (`u64::MAX` for none).
pub open spec fn spec_min_ttl(rs: Seq<RecordView>) -> u64
    decreases rs.len(),
{
    if rs.len() == 0 {
        u64::MAX
    } else {
        let rest = spec_min_ttl(rs.drop_last());
        if (rs.last().3 as u64) < rest {
            rs.last().3 as u64
        } else {
            rest
        }
    }
}

/// The minimum record TTL of a response, or nothing for an empty one.
pub fn min_ttl_from_records(records: &Vec<WireRecord>) -> (r: Option<u64>)
    ensures
        records@.len() == 0 <==> r is None,
        (r matches Some(v) ==> v == spec_min_ttl(records@.map_values(|rec: WireRecord| rec@))),
{
    let ghost rsv = records@.map_values(|rec: WireRecord| rec@);
    let n = records.len();
    if n == 0 {
        return None;
    }
    let mut min: u64 = u64::MAX;
    let mut i: usize = 0;
    while i < n
        invariant
            n == records@.len(),
            0 <= i <= n,
            rsv == records@.map_values(|rec: WireRecord| rec@),
            min == spec_min_ttl(rsv.take(i as int)),
        decreases n - i,
    {
        proof {
            assert(rsv.take(i as int + 1).drop_last() =~= rsv.take(i as int));
            assert(rsv.take(i as int + 1).last() == rsv[i as int]);
            assert(rsv[i as int] == records@[i as int]@);
        }
        let t = records[i].ttl as u64;
        if t < min {
            min = t;
        }
        i = i + 1;
    }
    proof {
        assert(rsv.take(n as int) =~= rsv);
    }
    Some(min)
}

/// The arithmetic headroom the write-through needs: no expiry computation
/// may overflow at time `now`.
pub open spec fn spec_time_headroom(p: TtlPolicy, now: u64) -> bool {
    &&& now + p.max_ttl + p.stale_window_secs <= u64::MAX
    &&& now + p.min_ttl + p.stale_window_secs <= u64::MAX
    &&& now + p.neg_max_ttl + p.stale_window_secs <= u64::MAX
    &&& now + p.neg_min_ttl + p.stale_window_secs <= u64::MAX
    &&& now + p.probe_ttl_secs <= u64::MAX
}

/// What the first half of the pipeline decides.
pub enum PreResolve {
    /// No query in the request: reply `ServFail`, touch nothing.
    NoQuery,
    /// The domain filter denied the name: reply `Refused`, touch nothing.
    Refused,
    /// The local zones answer: reply `NoError` with these records.
    ZoneAnswer { records: Vec<WireRecord> },
    /// A live positive cache entry: serve its bytes; `refresh` asks for a
    /// background refresh (near expiry or stale).
    CacheHit { key: CacheKey, bytes: Vec<u8>, refresh: bool },
    /// A live negative cache entry: serve its bytes, never refresh.
    NegativeHit { bytes: Vec<u8> },
    /// Nothing local: resolve, then call `finish_query` with the outcome.
    NeedResolve { key: CacheKey },
}

/// The handler: configuration, the read-only zone store and filters, the
/// cache front, and which resolver mode serves misses.
pub struct DnsHandler {
    pub cfg: AppConfig,
    pub zones: ZoneStore,
    pub filters: Filters,
    pub caches: DnsCaches,
    pub mode: ResolverMode,
}

impl DnsHandler {
    /// The cache policy bounds are sane.
    pub open spec fn wf(&self) -> bool {
        self.caches.wf()
    }

    /// Assemble a handler.
    pub fn new(
        cfg: AppConfig,
        zones: ZoneStore,
        filters: Filters,
        caches: DnsCaches,
        mode: ResolverMode,
    ) -> (h: DnsHandler)
        requires
            caches.wf(),
        ensures
            h.wf(),
            h.zones == zones,
            h.filters == filters,
            h.caches == caches,
            h.mode == mode,
    {
        DnsHandler { cfg, zones, filters, caches, mode }
    }

    /// Everything before the resolver, in the pipeline's order: no query
    /// is `ServFail`; a denied name is `Refused`; a local-zone hit answers
    /// directly; then the positive cache (a fresh hit serves, a near-expiry
    /// or stale one serves and asks for a refresh), the negative cache
    /// (serves without refresh), and only then the resolver. Nothing here
    /// writes to any store.
    pub fn pre_resolve(&self, query: Option<(&str, u16)>, do_bit: bool, now: u64) -> (r: PreResolve)
        requires
            (query matches Some(q) ==> q.0.is_ascii()),
        ensures
            query is None <==> r is NoQuery,
            (query matches Some(q) ==> {
                let qb = str_bytes(q.0);
                let allowed = spec_domain_allowed(
                    strings_bytes(self.filters.allowlist_domains@),
                    strings_bytes(self.filters.blocklist_domains@),
                    qb,
                );
                let zone = spec_zone_lookup(items_view(self.zones.items@), qb, q.1);
                &&& (r is Refused <==> !allowed)
                &&& (r matches PreResolve::ZoneAnswer { records } ==> allowed && records@.map_values(
                    |rec: WireRecord| rec@,
                ) == zone && zone.len() > 0)
                &&& (allowed && zone.len() > 0 ==> r is ZoneAnswer)
                &&& (r matches PreResolve::CacheHit { key, bytes, refresh } ==> {
                    let m = store_contents(self.caches.answers);
                    let st = spec_state_at(
                        m[key@].1,
                        m[key@].2,
                        self.caches.policy.prefetch_threshold_secs,
                        now,
                    );
                    &&& allowed
                    &&& zone.len() == 0
                    &&& key@ == key_of(qb, q.1, do_bit)
                    &&& m.contains_key(key@)
                    &&& bytes@ == m[key@].0
                    &&& st != CacheState::Dead
                    &&& refresh == (st != CacheState::Fresh)
                })
                &&& (r matches PreResolve::NegativeHit { bytes } ==> {
                    let m = store_contents(self.caches.negative);
                    let key = key_of(qb, q.1, do_bit);
                    &&& allowed
                    &&& zone.len() == 0
                    &&& m.contains_key(key)
                    &&& bytes@ == m[key].0
                    &&& spec_state_at(
                        m[key].1,
                        m[key].2,
                        self.caches.policy.prefetch_threshold_secs,
                        now,
                    ) != CacheState::Dead
                })
                &&& (r matches PreResolve::NeedResolve { key } ==> allowed && zone.len() == 0
                    && key@ == key_of(qb, q.1, do_bit) && key.wf())
                &&& (allowed && zone.len() == 0 ==> (r is CacheHit || r is NegativeHit
                    || r is NeedResolve))
            }),
    {
        let (qname, qtype) = match query {
            Some(q) => q,
            None => {
                return PreResolve::NoQuery;
            },
        };
        if !self.filters.domain_allowed(qname) {
            return PreResolve::Refused;
        }
        if let Some(records) = self.zones.lookup(qname, qtype) {
            return PreResolve::ZoneAnswer { records };
        }
        let key = CacheKey::of_query(qname, qtype, do_bit);
        match self.caches.lookup_positive(&key, now) {
            CacheLookup::Serve { bytes, refresh } => {
                return PreResolve::CacheHit { key, bytes, refresh };
            },
            CacheLookup::Miss => {},
        }
        if let Some(bytes) = self.caches.lookup_negative(&key, now) {
            return PreResolve::NegativeHit { bytes };
        }
        PreResolve::NeedResolve { key }
    }

    /// Finish a request after the resolver came back: map the outcome to
    /// records and a response code, write through the caches (positive
    /// answers stored under the clamped TTL; cacheable negatives under the
    /// two-hit policy; `ServFail` never cached), and build the reply.
    pub fn finish_query(
        &mut self,
        key: CacheKey,
        outcome: ResolveOutcome,
        req_id: u16,
        req_rd: bool,
        now: u64,
    ) -> (m: CachedMessage)
        requires
            old(self).wf(),
            spec_time_headroom(old(self).caches.policy, now),
        ensures
            final(self).wf(),
            final(self).cfg == old(self).cfg,
            final(self).zones == old(self).zones,
            final(self).filters == old(self).filters,
            final(self).mode == old(self).mode,
            final(self).caches.policy == old(self).caches.policy,
            ({
                let rcode = spec_outcome_rcode(&outcome);
                let answers = spec_reply_answers(&outcome);
                let p = old(self).caches.policy;
                &&& m.header == response_header(req_id, req_rd, (rcode & 0xf) as u8)
                &&& m.answers@.map_values(|rec: WireRecord| rec@) == answers
                &&& (rcode == RCODE_SERVFAIL ==> store_contents(final(self).caches.answers)
                    == store_contents(old(self).caches.answers) && store_contents(
                    final(self).caches.negative,
                ) == store_contents(old(self).caches.negative) && store_contents(
                    final(self).caches.negative_probe,
                ) == store_contents(old(self).caches.negative_probe))
                &&& (rcode == RCODE_NOERROR && answers.len() > 0 ==> {
                    let ttl = spec_positive_ttl(p, spec_min_ttl(answers));
                    &&& store_contents(final(self).caches.negative) == store_contents(
                        old(self).caches.negative,
                    )
                    &&& store_contents(final(self).caches.negative_probe) == store_contents(
                        old(self).caches.negative_probe,
                    )
                    &&& store_contents(final(self).caches.answers).submap_of(
                        store_contents(old(self).caches.answers).insert(
                            key@,
                            (
                                spec_stored_bytes(rcode, answers),
                                (now + ttl) as u64,
                                (now + ttl + p.stale_window_secs) as u64,
                            ),
                        ),
                    )
                })
                &&& (rcode == RCODE_REFUSED ==> store_contents(final(self).caches.answers)
                    == store_contents(old(self).caches.answers) && store_contents(
                    final(self).caches.negative,
                ) == store_contents(old(self).caches.negative) && store_contents(
                    final(self).caches.negative_probe,
                ) == store_contents(old(self).caches.negative_probe))
                &&& (!(rcode == RCODE_NOERROR && answers.len() > 0) && rcode != RCODE_SERVFAIL
                    ==> {
                    &&& store_contents(final(self).caches.answers) == store_contents(
                        old(self).caches.answers,
                    )
                    &&& exists|np: bool, pp: bool|
                        #[trigger] spec_negative_effect_with(
                            np,
                            pp,
                            store_contents(old(self).caches.negative),
                            store_contents(old(self).caches.negative_probe),
                            store_contents(final(self).caches.negative),
                            store_contents(final(self).caches.negative_probe),
                            p,
                            key@,
                            rcode,
                            spec_outcome_soa(&outcome),
                            now,
                        )
                })
            }),
    {
        match outcome {
            ResolveOutcome::Answered { records } => {
                let ghost rsv = records@.map_values(|rec: WireRecord| rec@);
                let mut keep = sanitize_records(records);
                proof {
                    lemma_wf_filter_wf(rsv);
                }
                if keep.len() > 0xffff {
                    keep.truncate(0xffff);
                    proof {
                        assert(keep@.map_values(|rec: WireRecord| rec@) =~= wf_filter(rsv).take(
                            0xffff,
                        ));
                    }
                }
                proof {
                    assert(keep@.map_values(|rec: WireRecord| rec@) == spec_reply_answers(
                        &ResolveOutcome::Answered { records },
                    ));
                }
                if keep.len() > 0 {
                    let min_ttl = match min_ttl_from_records(&keep) {
                        Some(v) => v,
                        None => 0,
                    };
                    let stored = compose_response(0, false, RCODE_NOERROR, keep);
                    proof {
                        assert((RCODE_NOERROR & 0xf) == 0) by (bit_vector);
                        assert(wf_message(stored@));
                    }
                    let bytes = encode_message(&stored);
                    let keep2 = stored.answers;
                    self.caches.insert_answer(key, bytes, min_ttl, now);
                    compose_response(req_id, req_rd, RCODE_NOERROR, keep2)
                } else {
                    self.negative_write(key, RCODE_NOERROR, None, now);
                    compose_response(req_id, req_rd, RCODE_NOERROR, keep)
                }
            },
            ResolveOutcome::NoRecords { rcode, soa_minimum } => {
                if rcode == RCODE_SERVFAIL {
                    return compose_response(req_id, req_rd, RCODE_SERVFAIL, Vec::new());
                }
                self.negative_write(key, rcode, soa_minimum, now);
                compose_response(req_id, req_rd, rcode, Vec::new())
            },
            ResolveOutcome::Failed => compose_response(req_id, req_rd, RCODE_SERVFAIL, Vec::new()),
        }
    }

    /// The write-through of a no-records outcome: compute the two-hit
    /// decision and store a probe, a negative entry, or nothing. `ServFail`
    /// and `Refused` never store anything.
    fn negative_write(&mut self, key: CacheKey, rcode: u16, soa: Option<u32>, now: u64)
        requires
            old(self).wf(),
            spec_time_headroom(old(self).caches.policy, now),
        ensures
            final(self).wf(),
            final(self).cfg == old(self).cfg,
            final(self).zones == old(self).zones,
            final(self).filters == old(self).filters,
            final(self).mode == old(self).mode,
            final(self).caches.policy == old(self).caches.policy,
            store_contents(final(self).caches.answers) == store_contents(old(self).caches.answers),
            exists|np: bool, pp: bool|
                #[trigger] spec_negative_effect_with(
                    np,
                    pp,
                    store_contents(old(self).caches.negative),
                    store_contents(old(self).caches.negative_probe),
                    store_contents(final(self).caches.negative),
                    store_contents(final(self).caches.negative_probe),
                    old(self).caches.policy,
                    key@,
                    rcode,
                    soa,
                    now,
                ),
            rcode == RCODE_SERVFAIL || rcode == RCODE_REFUSED ==> store_contents(
                final(self).caches.negative,
            ) == store_contents(old(self).caches.negative) && store_contents(
                final(self).caches.negative_probe,
            ) == store_contents(old(self).caches.negative_probe),
    {
        let ghost kv = key@;
        let neg_present = self.caches.negative_present(&key, now);
        let probe_present = self.caches.probe_present(&key, now);
        let plan = crate::cache::write_plan(
            &self.caches.policy,
            rcode,
            false,
            neg_present,
            probe_present,
        );
        proof {
            if rcode == RCODE_SERVFAIL || rcode == crate::cache::RCODE_REFUSED {
                crate::cache::lemma_never_cache_failures(
                    self.caches.policy,
                    rcode,
                    false,
                    neg_present,
                    probe_present,
                );
            }
        }
        match plan {
            CacheWrite::StoreNegative => {
                let stored = compose_response(0, false, rcode, Vec::new());
                proof {
                    assert(wf_message(stored@));
                    assert(stored.answers@.map_values(|rec: WireRecord| rec@)
                        =~= Seq::<RecordView>::empty());
                }
                let bytes = encode_message(&stored);
                proof {
                    assert(stored@ == (
                        response_header(0, false, (rcode & 0xf) as u8),
                        Seq::<RecordView>::empty(),
                    ));
                    assert(bytes@ == spec_stored_bytes(rcode, Seq::empty()));
                }
                self.caches.insert_negative(key, bytes, soa, now);
            },
            CacheWrite::StoreProbe => {
                self.caches.insert_probe(key, now);
            },
            _ => {},
        }
        proof {
            assert(spec_negative_effect_with(
                neg_present,
                probe_present,
                store_contents(old(self).caches.negative),
                store_contents(old(self).caches.negative_probe),
                store_contents(self.caches.negative),
                store_contents(self.caches.negative_probe),
                old(self).caches.policy,
                kv,
                rcode,
                soa,
                now,
            ));
        }
    }

    /// Finish a background refresh: a successful answer replaces the
    /// cached entry; every other outcome is dropped in silence and the
    /// stores stand as they were.
    pub fn refresh_complete(&mut self, key: CacheKey, outcome: ResolveOutcome, now: u64)
        requires
            old(self).wf(),
            spec_time_headroom(old(self).caches.policy, now),
        ensures
            final(self).wf(),
            final(self).cfg == old(self).cfg,
            final(self).zones == old(self).zones,
            final(self).filters == old(self).filters,
            final(self).mode == old(self).mode,
            final(self).caches.policy == old(self).caches.policy,
            store_contents(final(self).caches.negative) == store_contents(
                old(self).caches.negative,
            ),
            store_contents(final(self).caches.negative_probe) == store_contents(
                old(self).caches.negative_probe,
            ),
            ({
                let answers = spec_reply_answers(&outcome);
                let p = old(self).caches.policy;
                &&& (outcome matches ResolveOutcome::Answered { .. } && answers.len() > 0 ==> {
                    let ttl = spec_positive_ttl(p, spec_min_ttl(answers));
                    store_contents(final(self).caches.answers).submap_of(
                        store_contents(old(self).caches.answers).insert(
                            key@,
                            (
                                spec_stored_bytes(RCODE_NOERROR, answers),
                                (now + ttl) as u64,
                                (now + ttl + p.stale_window_secs) as u64,
                            ),
                        ),
                    )
                })
                &&& (!(outcome matches ResolveOutcome::Answered { .. } && answers.len() > 0)
                    ==> store_contents(final(self).caches.answers) == store_contents(
                    old(self).caches.answers,
                ))
            }),
    {
        match outcome {
            ResolveOutcome::Answered { records } => {
                let ghost rsv = records@.map_values(|rec: WireRecord| rec@);
                let mut keep = sanitize_records(records);
                proof {
                    lemma_wf_filter_wf(rsv);
                }
                if keep.len() > 0xffff {
                    keep.truncate(0xffff);
                    proof {
                        assert(keep@.map_values(|rec: WireRecord| rec@) =~= wf_filter(rsv).take(
                            0xffff,
                        ));
                    }
                }
                proof {
                    assert(keep@.map_values(|rec: WireRecord| rec@) == spec_reply_answers(
                        &ResolveOutcome::Answered { records },
                    ));
                }
                if keep.len() > 0 {
                    let min_ttl = match min_ttl_from_records(&keep) {
                        Some(v) => v,
                        None => 0,
                    };
                    let stored = compose_response(0, false, RCODE_NOERROR, keep);
                    proof {
                        assert((RCODE_NOERROR & 0xf) == 0) by (bit_vector);
                        assert(wf_message(stored@));
                    }
                    let bytes = encode_message(&stored);
                    self.caches.insert_answer(key, bytes, min_ttl, now);
                }
            },
            ResolveOutcome::NoRecords { .. } => {},
            ResolveOutcome::Failed => {},
        }
    }
}

/// The bytes a cached entry stores: a replayable message whose header
/// carries the response code with neutral client flags, and the answers.
pub open spec fn spec_stored_bytes(rcode: u16, answers: Seq<RecordView>) -> Seq<u8> {
    enc_message((response_header(0, false, (rcode & 0xf) as u8), answers))
}

/// What the write-through stores always serves again: the stored bytes
/// are the encoding of a well-formed message, so decoding them yields
/// exactly the stored response code and answers back.
pub proof fn lemma_stored_bytes_decodable(rcode: u16, answers: Seq<RecordView>)
    requires
        answers.len() <= 0xffff,
        forall|i: int| 0 <= i < answers.len() ==> wf_record(#[trigger] answers[i]),
    ensures
        dec_message(spec_stored_bytes(rcode, answers)) == Some(
            (response_header(0, false, (rcode & 0xf) as u8), answers),
        ),
{
    assert((rcode & 0xf) <= 0xf) by (bit_vector);
    crate::wire::lemma_encode_then_decode((response_header(0, false, (rcode & 0xf) as u8), answers));
}

/// The effect a no-records write-through has on the negative and probe
/// stores, for given read-back flags: the flags are sound readings of the
/// stores before the write (a set flag means the entry was there), and
/// exactly the store the write plan directs may change, by an insert of
/// the planned entry — which the cache's approximate eviction may still
/// undo; the other store stands untouched.
pub open spec fn spec_negative_effect_with(
    np: bool,
    pp: bool,
    pre_neg: Map<KeyView, EntryView>,
    pre_probe: Map<KeyView, EntryView>,
    post_neg: Map<KeyView, EntryView>,
    post_probe: Map<KeyView, EntryView>,
    p: TtlPolicy,
    key: KeyView,
    rcode: u16,
    soa: Option<u32>,
    now: u64,
) -> bool {
    let negttl = spec_negative_ttl(p, soa);
    &&& (np ==> pre_neg.contains_key(key))
    &&& (pp ==> pre_probe.contains_key(key) && now < pre_probe[key].1)
    &&& match spec_write_plan(p, rcode, false, np, pp) {
        CacheWrite::StoreNegative => post_probe == pre_probe && post_neg.submap_of(
            pre_neg.insert(
                key,
                (
                    spec_stored_bytes(rcode, Seq::empty()),
                    (now + negttl) as u64,
                    (now + negttl + p.stale_window_secs) as u64,
                ),
            ),
        ),
        CacheWrite::StoreProbe => post_neg == pre_neg && post_probe.submap_of(
            pre_probe.insert(
                key,
                (Seq::empty(), (now + p.probe_ttl_secs) as u64, (now + p.probe_ttl_secs) as u64),
            ),
        ),
        _ => post_neg == pre_neg && post_probe == pre_probe,
    }
}

/// Two-hit at the store level, first half: whatever flags a write-through
/// effect was justified with, against stores that know nothing of the key
/// the flags can only have read false, so a first cacheable NXDOMAIN
/// leaves the negative store exactly as it was and touches at most the
/// probe store. (The second observation's negative insert is directed by
/// the plan in the same way but, like every store write, may still be
/// undone by the cache's approximate eviction.)
pub proof fn lemma_two_hit_first_store_level(
    np: bool,
    pp: bool,
    pre_neg: Map<KeyView, EntryView>,
    pre_probe: Map<KeyView, EntryView>,
    post_neg: Map<KeyView, EntryView>,
    post_probe: Map<KeyView, EntryView>,
    p: TtlPolicy,
    key: KeyView,
    soa: Option<u32>,
    now: u64,
)
    requires
        p.neg_enabled,
        p.cache_nxdomain,
        p.two_hit,
        !pre_neg.contains_key(key),
        !pre_probe.contains_key(key),
        spec_negative_effect_with(
            np,
            pp,
            pre_neg,
            pre_probe,
            post_neg,
            post_probe,
            p,
            key,
            crate::cache::RCODE_NXDOMAIN,
            soa,
            now,
        ),
    ensures
        post_neg == pre_neg,
        post_probe.submap_of(
            pre_probe.insert(
                key,
                (Seq::empty(), (now + p.probe_ttl_secs) as u64, (now + p.probe_ttl_secs) as u64),
            ),
        ),
{
    assert(!np && !pp);
    assert(spec_write_plan(p, crate::cache::RCODE_NXDOMAIN, false, np, pp)
        == CacheWrite::StoreProbe);
}

/// The SOA minimum an outcome carries, if any.
pub open spec fn spec_outcome_soa(outcome: &ResolveOutcome) -> Option<u32> {
    match outcome {
        ResolveOutcome::NoRecords { soa_minimum, .. } => *soa_minimum,
        _ => None,
    }
}

/// The answers a reply carries: the well-formed records of a successful
/// lookup (capped at the wire count bound), nothing otherwise.
pub open spec fn spec_reply_answers(outcome: &ResolveOutcome) -> Seq<RecordView> {
    match outcome {
        ResolveOutcome::Answered { records } => {
            let w = wf_filter(records@.map_values(|rec: WireRecord| rec@));
            if w.len() > 0xffff {
                w.take(0xffff)
            } else {
                w
            }
        },
        _ => Seq::empty(),
    }
}

/// Every record the well-formedness filter keeps is well formed, and
/// none are added.
pub proof fn lemma_wf_filter_wf(rs: Seq<RecordView>)
    ensures
        forall|i: int| 0 <= i < wf_filter(rs).len() ==> wf_record(#[trigger] wf_filter(rs)[i]),
        wf_filter(rs).len() <= rs.len(),
    decreases rs.len(),
{
    if rs.len() > 0 {
        lemma_wf_filter_wf(rs.drop_last());
    }
}

} // verus!
