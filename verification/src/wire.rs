//! Wire codec for cached responses.
//!
//! A cached entry stores a self-contained RFC 1035 message: a 12-byte
//! header (question, authority and additional counts all zero) followed by
//! the answer records. Names inside records are stored in uncompressed
//! label form, so the bytes can be replayed after rewriting only the
//! transaction id and the client-facing flags.
use vstd::prelude::*;

verus! {

/// A decoded DNS header: transaction id and the flag fields, kept apart so
/// that contracts can speak of each flag by name.
#[derive(PartialEq, Eq, Structural, Clone, Copy, Debug)]
pub struct MessageHeader {
    pub id: u16,
    pub qr: bool,
    pub opcode: u8,
    pub aa: bool,
    pub tc: bool,
    pub rd: bool,
    pub ra: bool,
    pub ad: bool,
    pub cd: bool,
    pub rcode: u8,
}

impl MessageHeader {
    /// Opcode and response code are 4-bit fields.
    pub open spec fn wf(&self) -> bool {
        self.opcode <= 0xf && self.rcode <= 0xf
    }
}

/// A resource record as stored in a cached answer: the owner name in
/// uncompressed wire label form, type, class, TTL, and opaque RDATA.
#[derive(Debug, Clone)]
pub struct WireRecord {
    pub name: Vec<u8>,
    pub rtype: u16,
    pub rclass: u16,
    pub ttl: u32,
    pub rdata: Vec<u8>,
}

/// View of a record: the five fields with the byte vectors as sequences.
pub type RecordView = (Seq<u8>, u16, u16, u32, Seq<u8>);

impl View for WireRecord {
    type V = RecordView;

    open spec fn view(&self) -> RecordView {
        (self.name@, self.rtype, self.rclass, self.ttl, self.rdata@)
    }
}

/// A message as cached: header plus answer records.
#[derive(Debug, Clone)]
pub struct CachedMessage {
    pub header: MessageHeader,
    pub answers: Vec<WireRecord>,
}

/// View of a message.
pub type MessageView = (MessageHeader, Seq<RecordView>);

impl View for CachedMessage {
    type V = MessageView;

    open spec fn view(&self) -> MessageView {
        (self.header, self.answers@.map_values(|r: WireRecord| r@))
    }
}

/// A name in wire form: labels of 1 to 63 bytes, each preceded by its
/// length, closed by a zero byte. No compression pointers.
pub open spec fn valid_name(s: Seq<u8>) -> bool
    decreases s.len(),
{
    if s.len() < 1 {
        false
    } else if s[0] == 0 {
        s.len() == 1
    } else {
        1 <= s[0] <= 63 && s.len() > s[0] && valid_name(s.skip(s[0] + 1))
    }
}

/// A record that can be encoded: a valid name, and RDATA that fits its
/// 16-bit length field. The name also fits the 255-byte DNS bound.
pub open spec fn wf_record(r: RecordView) -> bool {
    valid_name(r.0) && r.0.len() <= 255 && r.4.len() <= 0xffff
}

/// A message that can be encoded: a well-formed header and at most
/// 0xffff well-formed answers.
pub open spec fn wf_message(m: MessageView) -> bool {
    m.0.wf() && m.1.len() <= 0xffff && (forall|i: int| 0 <= i < m.1.len() ==> wf_record(#[trigger] m.1[i]))
}

/// Big-endian bytes of a 16-bit integer.
pub open spec fn enc_u16(x: u16) -> Seq<u8> {
    seq![(x >> 8) as u8, (x & 0xff) as u8]
}

/// Big-endian bytes of a 32-bit integer.
pub open spec fn enc_u32(x: u32) -> Seq<u8> {
    seq![
        ((x >> 24) & 0xff) as u8,
        ((x >> 16) & 0xff) as u8,
        ((x >> 8) & 0xff) as u8,
        (x & 0xff) as u8,
    ]
}

/// The flag word of a header.
pub open spec fn enc_flags(h: MessageHeader) -> u16 {
    (((if h.qr {
        0x8000u16
    } else {
        0u16
    }) | ((h.opcode as u16) << 11) | (if h.aa {
        0x400u16
    } else {
        0u16
    }) | (if h.tc {
        0x200u16
    } else {
        0u16
    }) | (if h.rd {
        0x100u16
    } else {
        0u16
    }) | (if h.ra {
        0x80u16
    } else {
        0u16
    }) | (if h.ad {
        0x20u16
    } else {
        0u16
    }) | (if h.cd {
        0x10u16
    } else {
        0u16
    }) | (h.rcode as u16)) as u16)
}

/// Bytes of one encoded record.
pub open spec fn enc_record(r: RecordView) -> Seq<u8> {
    r.0 + enc_u16(r.1) + enc_u16(r.2) + enc_u32(r.3) + enc_u16(r.4.len() as u16) + r.4
}

/// Bytes of a run of encoded records.
pub open spec fn enc_records(rs: Seq<RecordView>) -> Seq<u8>
    decreases rs.len(),
{
    if rs.len() == 0 {
        Seq::empty()
    } else {
        enc_record(rs[0]) + enc_records(rs.skip(1))
    }
}

/// Bytes of a whole cached message: header with zero question, authority
/// and additional counts, then the answers.
pub open spec fn enc_message(m: MessageView) -> Seq<u8> {
    enc_u16(m.0.id) + enc_u16(enc_flags(m.0)) + enc_u16(0) + enc_u16(m.1.len() as u16) + enc_u16(0)
        + enc_u16(0) + enc_records(m.1)
}

/// Append the big-endian bytes of a 16-bit integer.
pub fn push_u16(out: &mut Vec<u8>, x: u16)
    ensures
        final(out)@ == old(out)@ + enc_u16(x),
{
    out.push((x >> 8) as u8);
    out.push((x & 0xff) as u8);
    proof {
        assert(out@ =~= old(out)@ + enc_u16(x));
    }
}

/// Append the big-endian bytes of a 32-bit integer.
pub fn push_u32(out: &mut Vec<u8>, x: u32)
    ensures
        final(out)@ == old(out)@ + enc_u32(x),
{
    out.push(((x >> 24) & 0xff) as u8);
    out.push(((x >> 16) & 0xff) as u8);
    out.push(((x >> 8) & 0xff) as u8);
    out.push((x & 0xff) as u8);
    proof {
        assert(out@ =~= old(out)@ + enc_u32(x));
    }
}

/// Append a byte slice.
fn push_bytes(out: &mut Vec<u8>, b: &[u8])
    ensures
        final(out)@ == old(out)@ + b@,
{
    let n = b.len();
    let mut i: usize = 0;
    while i < n
        invariant
            n == b@.len(),
            0 <= i <= n,
            out@ == old(out)@ + b@.take(i as int),
        decreases n - i,
    {
        out.push(b[i]);
        proof {
            assert(old(out)@ + b@.take(i as int) + seq![b@[i as int]] =~= old(out)@ + b@.take(
                i as int + 1,
            ));
        }
        i = i + 1;
    }
    proof {
        assert(b@.take(n as int) =~= b@);
    }
}

/// Pack the flag fields into the 16-bit flag word.
pub fn pack_flags(h: &MessageHeader) -> (f: u16)
    requires
        h.wf(),
    ensures
        f == enc_flags(*h),
{
    let f: u16 = (if h.qr {
        0x8000u16
    } else {
        0u16
    }) | ((h.opcode as u16) << 11u16) | (if h.aa {
        0x400u16
    } else {
        0u16
    }) | (if h.tc {
        0x200u16
    } else {
        0u16
    }) | (if h.rd {
        0x100u16
    } else {
        0u16
    }) | (if h.ra {
        0x80u16
    } else {
        0u16
    }) | (if h.ad {
        0x20u16
    } else {
        0u16
    }) | (if h.cd {
        0x10u16
    } else {
        0u16
    }) | (h.rcode as u16);
    f
}

/// Encode a whole message. Only well-formed messages are encodable; the
/// result is exactly the model encoding.
pub fn encode_message(m: &CachedMessage) -> (out: Vec<u8>)
    requires
        wf_message(m@),
    ensures
        out@ == enc_message(m@),
{
    let mut out: Vec<u8> = Vec::new();
    push_u16(&mut out, m.header.id);
    let flags = pack_flags(&m.header);
    push_u16(&mut out, flags);
    push_u16(&mut out, 0);
    push_u16(&mut out, m.answers.len() as u16);
    push_u16(&mut out, 0);
    push_u16(&mut out, 0);
    let n = m.answers.len();
    let ghost header_part = out@;
    let mut i: usize = 0;
    while i < n
        invariant
            n == m.answers@.len(),
            0 <= i <= n,
            wf_message(m@),
            header_part == enc_u16(m.header.id) + enc_u16(enc_flags(m.header)) + enc_u16(0)
                + enc_u16(n as u16) + enc_u16(0) + enc_u16(0),
            out@ == header_part + enc_records(m@.1.take(i as int)),
        decreases n - i,
    {
        proof {
            assert(m@.1[i as int] == m.answers@[i as int]@);
            assert(wf_record(m@.1[i as int]));
        }
        let r = &m.answers[i];
        push_bytes(&mut out, r.name.as_slice());
        push_u16(&mut out, r.rtype);
        push_u16(&mut out, r.rclass);
        push_u32(&mut out, r.ttl);
        push_u16(&mut out, r.rdata.len() as u16);
        push_bytes(&mut out, r.rdata.as_slice());
        proof {
            let rv = m@.1[i as int];
            assert(rv.4.len() <= 0xffff);
            assert(enc_u16(rv.4.len() as u16) == enc_u16(r.rdata@.len() as u16));
            lemma_enc_records_snoc(m@.1.take(i as int + 1));
            assert(m@.1.take(i as int + 1).drop_last() =~= m@.1.take(i as int));
            assert(m@.1.take(i as int + 1).last() == rv);
            assert(out@ =~= header_part + enc_records(m@.1.take(i as int)) + enc_record(rv));
        }
        i = i + 1;
    }
    proof {
        assert(m@.1.take(n as int) =~= m@.1);
        assert(out@ =~= enc_message(m@));
    }
    out
}

/// The 16-bit integer whose big-endian bytes sit at `i`.
pub open spec fn dec_u16_at(b: Seq<u8>, i: int) -> u16 {
    (((b[i] as u16) << 8) | (b[i + 1] as u16)) as u16
}

/// The 32-bit integer whose big-endian bytes sit at `i`.
pub open spec fn dec_u32_at(b: Seq<u8>, i: int) -> u32 {
    (((b[i] as u32) << 24) | ((b[i + 1] as u32) << 16) | ((b[i + 2] as u32) << 8) | (b[i + 3]
        as u32)) as u32
}

/// Where the name starting at `pos` ends (exclusive), when the bytes there
/// form a valid uncompressed name.
pub open spec fn name_end(b: Seq<u8>, pos: int) -> Option<int>
    decreases b.len() - pos,
{
    if pos < 0 || pos >= b.len() {
        None
    } else if b[pos] == 0 {
        Some(pos + 1)
    } else if b[pos] > 63 || pos + 1 + b[pos] > b.len() {
        None
    } else {
        name_end(b, pos + 1 + b[pos])
    }
}

/// The header named by an id and a flag word.
pub open spec fn header_of(id: u16, f: u16) -> MessageHeader {
    MessageHeader {
        id,
        qr: f & 0x8000 != 0,
        opcode: ((f >> 11) & 0xf) as u8,
        aa: f & 0x400 != 0,
        tc: f & 0x200 != 0,
        rd: f & 0x100 != 0,
        ra: f & 0x80 != 0,
        ad: f & 0x20 != 0,
        cd: f & 0x10 != 0,
        rcode: (f & 0xf) as u8,
    }
}

/// Decode one record at `pos`: name, type, class, TTL, RDATA. The name is
/// held to the 255-byte DNS bound so that what decodes also re-encodes.
pub open spec fn dec_record_at(b: Seq<u8>, pos: int) -> Option<(RecordView, int)> {
    match name_end(b, pos) {
        None => None,
        Some(ne) => if ne - pos > 255 || ne + 10 > b.len() {
            None
        } else {
            let rdlen = dec_u16_at(b, ne + 8) as int;
            if ne + 10 + rdlen > b.len() {
                None
            } else {
                Some(
                    (
                        (
                            b.subrange(pos, ne),
                            dec_u16_at(b, ne),
                            dec_u16_at(b, ne + 2),
                            dec_u32_at(b, ne + 4),
                            b.subrange(ne + 10, ne + 10 + rdlen),
                        ),
                        ne + 10 + rdlen,
                    ),
                )
            }
        },
    }
}

/// Decode `n` records in a row.
pub open spec fn dec_records_at(b: Seq<u8>, pos: int, n: nat) -> Option<(Seq<RecordView>, int)>
    decreases n,
{
    if n == 0 {
        Some((Seq::empty(), pos))
    } else {
        match dec_record_at(b, pos) {
            None => None,
            Some((r, p2)) => match dec_records_at(b, p2, (n - 1) as nat) {
                None => None,
                Some((rs, e)) => Some((seq![r] + rs, e)),
            },
        }
    }
}

/// Decode a whole cached message: the 12-byte header with zero question,
/// authority and additional counts, a clear Z bit, and exactly the answer
/// records, nothing after them.
pub open spec fn dec_message(b: Seq<u8>) -> Option<MessageView> {
    if b.len() < 12 {
        None
    } else {
        let id = dec_u16_at(b, 0);
        let f = dec_u16_at(b, 2);
        let qd = dec_u16_at(b, 4);
        let an = dec_u16_at(b, 6);
        let ns = dec_u16_at(b, 8);
        let ar = dec_u16_at(b, 10);
        if qd != 0 || ns != 0 || ar != 0 || f & 0x40 != 0 {
            None
        } else {
            match dec_records_at(b, 12, an as nat) {
                None => None,
                Some((rs, e)) => if e == b.len() {
                    Some((header_of(id, f), rs))
                } else {
                    None
                },
            }
        }
    }
}

/// A 16-bit value survives the byte round trip.
proof fn lemma_u16_round_trip(x: u16)
    ensures
        ((((x >> 8) as u8) as u16) << 8) | (((x & 0xff) as u8) as u16) == x,
    decreases 0int,
{
    assert(((((x >> 8) as u8) as u16) << 8) | (((x & 0xff) as u8) as u16) == x) by (bit_vector);
}

/// Two bytes survive the 16-bit round trip.
proof fn lemma_u16_bytes_round_trip(a: u8, c: u8)
    ensures
        ((((((a as u16) << 8) | (c as u16)) as u16) >> 8) as u8) == a,
        ((((((a as u16) << 8) | (c as u16)) as u16) & 0xff) as u8) == c,
{
    assert(((((((a as u16) << 8) | (c as u16)) as u16) >> 8) as u8) == a && ((((((a as u16) << 8) | (
    c as u16)) as u16) & 0xff) as u8) == c) by (bit_vector);
}

/// Reading back what `enc_u16` wrote gives the value again.
proof fn lemma_dec_of_enc_u16(b: Seq<u8>, i: int, x: u16)
    requires
        0 <= i,
        i + 2 <= b.len(),
        b[i] == enc_u16(x)[0],
        b[i + 1] == enc_u16(x)[1],
    ensures
        dec_u16_at(b, i) == x,
{
    lemma_u16_round_trip(x);
}

/// Re-encoding what `dec_u16_at` read gives the bytes again.
proof fn lemma_enc_of_dec_u16(b: Seq<u8>, i: int)
    requires
        0 <= i,
        i + 2 <= b.len(),
    ensures
        enc_u16(dec_u16_at(b, i)) == seq![b[i], b[i + 1]],
{
    lemma_u16_bytes_round_trip(b[i], b[i + 1]);
    assert(enc_u16(dec_u16_at(b, i)) =~= seq![b[i], b[i + 1]]);
}

/// A 32-bit value survives the byte round trip.
proof fn lemma_u32_round_trip(x: u32)
    ensures
        dec_u32_at(enc_u32(x), 0) == x,
{
    let b = enc_u32(x);
    assert(((((((x >> 24) & 0xff) as u8) as u32) << 24) | (((((x >> 16) & 0xff) as u8) as u32)
        << 16) | (((((x >> 8) & 0xff) as u8) as u32) << 8) | (((x & 0xff) as u8) as u32)) as u32
        == x) by (bit_vector);
}

/// Reading back what `enc_u32` wrote gives the value again.
proof fn lemma_dec_of_enc_u32(b: Seq<u8>, i: int, x: u32)
    requires
        0 <= i,
        i + 4 <= b.len(),
        b[i] == enc_u32(x)[0],
        b[i + 1] == enc_u32(x)[1],
        b[i + 2] == enc_u32(x)[2],
        b[i + 3] == enc_u32(x)[3],
    ensures
        dec_u32_at(b, i) == x,
{
    lemma_u32_round_trip(x);
}

/// Re-encoding what `dec_u32_at` read gives the bytes again.
proof fn lemma_enc_of_dec_u32(b: Seq<u8>, i: int)
    requires
        0 <= i,
        i + 4 <= b.len(),
    ensures
        enc_u32(dec_u32_at(b, i)) == seq![b[i], b[i + 1], b[i + 2], b[i + 3]],
{
    let p = b[i];
    let q = b[i + 1];
    let r = b[i + 2];
    let s = b[i + 3];
    let x = dec_u32_at(b, i);
    assert(x == (((p as u32) << 24) | ((q as u32) << 16) | ((r as u32) << 8) | (s as u32)) as u32);
    assert(((x >> 24) & 0xff) as u8 == p && ((x >> 16) & 0xff) as u8 == q && ((x >> 8) & 0xff) as u8
        == r && (x & 0xff) as u8 == s) by (bit_vector)
        requires
            x == (((p as u32) << 24) | ((q as u32) << 16) | ((r as u32) << 8) | (s as u32)) as u32,
    ;
    assert(enc_u32(x) =~= seq![p, q, r, s]);
}

/// A valid name laid down at `pos` is found there, ending where it ends.
proof fn lemma_name_end_of_embedded(n: Seq<u8>, b: Seq<u8>, pos: int)
    requires
        valid_name(n),
        0 <= pos,
        pos + n.len() <= b.len(),
        b.subrange(pos, pos + n.len()) == n,
    ensures
        name_end(b, pos) == Some(pos + n.len()),
    decreases n.len(),
{
    assert(b[pos] == n[0]);
    if n[0] == 0 {
        assert(n.len() == 1);
    } else {
        let l = n[0] as int;
        assert(n.skip(l + 1) =~= b.subrange(pos + l + 1, pos + n.len()));
        lemma_name_end_of_embedded(n.skip(l + 1), b, pos + l + 1);
    }
}

/// What `name_end` accepts is a valid name.
proof fn lemma_name_end_sound(b: Seq<u8>, pos: int)
    requires
        name_end(b, pos) is Some,
    ensures
        pos < name_end(b, pos)->0 <= b.len(),
        valid_name(b.subrange(pos, name_end(b, pos)->0)),
    decreases b.len() - pos,
{
    let e = name_end(b, pos)->0;
    if b[pos] == 0 {
        assert(b.subrange(pos, e) =~= seq![b[pos]]);
    } else {
        let l = b[pos] as int;
        lemma_name_end_sound(b, pos + 1 + l);
        assert(b.subrange(pos, e).skip(l + 1) =~= b.subrange(pos + 1 + l, e));
        assert(b.subrange(pos, e)[0] == b[pos]);
    }
}

/// The flag word of a well-formed header decodes back to its fields, and
/// its Z bit is clear.
proof fn lemma_flags_round_trip(h: MessageHeader)
    requires
        h.wf(),
    ensures
        enc_flags(h) & 0x40 == 0,
        header_of(h.id, enc_flags(h)) == h,
{
    let qr = h.qr;
    let opcode = h.opcode;
    let aa = h.aa;
    let tc = h.tc;
    let rd = h.rd;
    let ra = h.ra;
    let ad = h.ad;
    let cd = h.cd;
    let rcode = h.rcode;
    let f = enc_flags(h);
    assert(f == (((if qr {
        0x8000u16
    } else {
        0u16
    }) | ((opcode as u16) << 11) | (if aa {
        0x400u16
    } else {
        0u16
    }) | (if tc {
        0x200u16
    } else {
        0u16
    }) | (if rd {
        0x100u16
    } else {
        0u16
    }) | (if ra {
        0x80u16
    } else {
        0u16
    }) | (if ad {
        0x20u16
    } else {
        0u16
    }) | (if cd {
        0x10u16
    } else {
        0u16
    }) | (rcode as u16)) as u16));
    assert(f & 0x40 == 0 && (f & 0x8000 != 0) == qr && ((f >> 11) & 0xf) as u8 == opcode && (f
        & 0x400 != 0) == aa && (f & 0x200 != 0) == tc && (f & 0x100 != 0) == rd && (f & 0x80 != 0)
        == ra && (f & 0x20 != 0) == ad && (f & 0x10 != 0) == cd && (f & 0xf) as u8
        == rcode) by (bit_vector)
        requires
            opcode <= 0xf,
            rcode <= 0xf,
            f == (((if qr {
                0x8000u16
            } else {
                0u16
            }) | ((opcode as u16) << 11) | (if aa {
                0x400u16
            } else {
                0u16
            }) | (if tc {
                0x200u16
            } else {
                0u16
            }) | (if rd {
                0x100u16
            } else {
                0u16
            }) | (if ra {
                0x80u16
            } else {
                0u16
            }) | (if ad {
                0x20u16
            } else {
                0u16
            }) | (if cd {
                0x10u16
            } else {
                0u16
            }) | (rcode as u16)) as u16),
    ;
}

/// A flag word with a clear Z bit re-encodes from its decoded fields.
proof fn lemma_flags_reencode(id: u16, f: u16)
    requires
        f & 0x40 == 0,
    ensures
        header_of(id, f).wf(),
        enc_flags(header_of(id, f)) == f,
{
    let qr = f & 0x8000 != 0;
    let opcode = ((f >> 11) & 0xf) as u8;
    let aa = f & 0x400 != 0;
    let tc = f & 0x200 != 0;
    let rd = f & 0x100 != 0;
    let ra = f & 0x80 != 0;
    let ad = f & 0x20 != 0;
    let cd = f & 0x10 != 0;
    let rcode = (f & 0xf) as u8;
    assert(opcode <= 0xf && rcode <= 0xf && (((if qr {
        0x8000u16
    } else {
        0u16
    }) | ((opcode as u16) << 11) | (if aa {
        0x400u16
    } else {
        0u16
    }) | (if tc {
        0x200u16
    } else {
        0u16
    }) | (if rd {
        0x100u16
    } else {
        0u16
    }) | (if ra {
        0x80u16
    } else {
        0u16
    }) | (if ad {
        0x20u16
    } else {
        0u16
    }) | (if cd {
        0x10u16
    } else {
        0u16
    }) | (rcode as u16)) as u16) == f) by (bit_vector)
        requires
            f & 0x40 == 0,
            qr == (f & 0x8000 != 0),
            opcode == ((f >> 11) & 0xf) as u8,
            aa == (f & 0x400 != 0),
            tc == (f & 0x200 != 0),
            rd == (f & 0x100 != 0),
            ra == (f & 0x80 != 0),
            ad == (f & 0x20 != 0),
            cd == (f & 0x10 != 0),
            rcode == (f & 0xf) as u8,
    ;
}

/// Encoding a run of records one more at the end.
pub proof fn lemma_enc_records_snoc(rs: Seq<RecordView>)
    requires
        rs.len() > 0,
    ensures
        enc_records(rs) == enc_records(rs.drop_last()) + enc_record(rs.last()),
    decreases rs.len(),
{
    if rs.len() == 1 {
        assert(rs.drop_last() =~= Seq::<RecordView>::empty());
        assert(enc_records(rs.skip(1)) == Seq::<u8>::empty());
        assert(enc_records(rs) =~= enc_records(rs.drop_last()) + enc_record(rs.last()));
    } else {
        lemma_enc_records_snoc(rs.skip(1));
        assert(rs.skip(1).drop_last() =~= rs.drop_last().skip(1));
        assert(rs.skip(1).last() == rs.last());
        assert(rs.drop_last()[0] == rs[0]);
        assert(rs.drop_last().len() > 0);
        assert(enc_records(rs.drop_last()) == enc_record(rs[0]) + enc_records(
            rs.drop_last().skip(1),
        ));
        assert(enc_records(rs) =~= enc_records(rs.drop_last()) + enc_record(rs.last()));
    }
}

/// Read the 16-bit integer at `pos`.
fn read_u16(b: &[u8], pos: usize) -> (x: u16)
    requires
        pos + 2 <= b@.len(),
    ensures
        x == dec_u16_at(b@, pos as int),
{
    ((b[pos] as u16) << 8u16) | (b[pos + 1] as u16)
}

/// Read the 32-bit integer at `pos`.
fn read_u32(b: &[u8], pos: usize) -> (x: u32)
    requires
        pos + 4 <= b@.len(),
    ensures
        x == dec_u32_at(b@, pos as int),
{
    ((b[pos] as u32) << 24u32) | ((b[pos + 1] as u32) << 16u32) | ((b[pos + 2] as u32) << 8u32) | (
    b[pos + 3] as u32)
}

/// Walk the labels of a name starting at `pos`; where it ends, if valid.
fn find_name_end(b: &[u8], pos: usize) -> (r: Option<usize>)
    requires
        pos <= b@.len(),
    ensures
        (r matches Some(e) ==> name_end(b@, pos as int) == Some(e as int) && pos < e <= b@.len()),
        r is None ==> name_end(b@, pos as int) is None,
{
    let n = b.len();
    let mut cur = pos;
    loop
        invariant
            pos <= cur <= n,
            n == b@.len(),
            name_end(b@, pos as int) == name_end(b@, cur as int),
        decreases n - cur,
    {
        if cur >= n {
            return None;
        }
        let l = b[cur];
        if l == 0 {
            proof {
                lemma_name_end_sound(b@, pos as int);
            }
            return Some(cur + 1);
        }
        if l > 63 || (l as usize) > n - cur - 1 {
            return None;
        }
        cur = cur + 1 + (l as usize);
    }
}

/// Check that bytes form one whole valid wire name.
pub fn check_valid_name(b: &[u8]) -> (r: bool)
    ensures
        r == valid_name(b@),
{
    proof {
        if valid_name(b@) {
            assert(b@.subrange(0, b@.len() as int) =~= b@);
            lemma_name_end_of_embedded(b@, b@, 0);
        }
    }
    match find_name_end(b, 0) {
        Some(e) => {
            if e == b.len() {
                proof {
                    lemma_name_end_sound(b@, 0);
                    assert(b@.subrange(0, e as int) =~= b@);
                }
                true
            } else {
                false
            }
        },
        None => false,
    }
}

/// Check that a record can be stored and replayed.
pub fn record_is_wf(r: &WireRecord) -> (ok: bool)
    ensures
        ok == wf_record(r@),
{
    if r.name.len() > 255 || r.rdata.len() > 0xffff {
        return false;
    }
    check_valid_name(r.name.as_slice())
}

/// Decode one record at `pos`.
fn decode_record(b: &[u8], pos: usize) -> (r: Option<(WireRecord, usize)>)
    requires
        pos <= b@.len(),
    ensures
        (r matches Some(p) ==> dec_record_at(b@, pos as int) == Some((p.0@, p.1 as int)) && pos
            < p.1 <= b@.len()),
        r is None ==> dec_record_at(b@, pos as int) is None,
{
    let ne = match find_name_end(b, pos) {
        Some(e) => e,
        None => {
            return None;
        },
    };
    if ne - pos > 255 || b.len() - ne < 10 {
        return None;
    }
    let rtype = read_u16(b, ne);
    let rclass = read_u16(b, ne + 2);
    let ttl = read_u32(b, ne + 4);
    let rdlen = read_u16(b, ne + 8) as usize;
    if rdlen > b.len() - ne - 10 {
        return None;
    }
    let name = vstd::slice::slice_to_vec(vstd::slice::slice_subrange(b, pos, ne));
    let rdata = vstd::slice::slice_to_vec(vstd::slice::slice_subrange(b, ne + 10, ne + 10 + rdlen));
    Some((WireRecord { name, rtype, rclass, ttl, rdata }, ne + 10 + rdlen))
}

/// Decode a whole cached message; `None` exactly on bytes that are not the
/// encoding of a well-formed message.
pub fn decode_message(b: &[u8]) -> (r: Option<CachedMessage>)
    ensures
        (r matches Some(m) ==> dec_message(b@) == Some(m@)),
        r is None ==> dec_message(b@) is None,
{
    if b.len() < 12 {
        return None;
    }
    let id = read_u16(b, 0);
    let f = read_u16(b, 2);
    let qd = read_u16(b, 4);
    let an = read_u16(b, 6);
    let ns = read_u16(b, 8);
    let ar = read_u16(b, 10);
    if qd != 0 || ns != 0 || ar != 0 || f & 0x40 != 0 {
        return None;
    }
    proof {
        assert(((f >> 11u16) & 0xf) < 256 && (f & 0xf) < 256) by (bit_vector);
    }
    let header = MessageHeader {
        id,
        qr: f & 0x8000 != 0,
        opcode: ((f >> 11u16) & 0xf) as u8,
        aa: f & 0x400 != 0,
        tc: f & 0x200 != 0,
        rd: f & 0x100 != 0,
        ra: f & 0x80 != 0,
        ad: f & 0x20 != 0,
        cd: f & 0x10 != 0,
        rcode: (f & 0xf) as u8,
    };
    proof {
        assert(header == header_of(dec_u16_at(b@, 0), dec_u16_at(b@, 2)));
    }
    let mut answers: Vec<WireRecord> = Vec::new();
    let mut pos: usize = 12;
    let mut i: u16 = 0;
    while i < an
        invariant
            12 <= pos <= b@.len(),
            0 <= i <= an,
            answers@.len() == i,
            dec_u16_at(b@, 4) == 0,
            dec_u16_at(b@, 8) == 0,
            dec_u16_at(b@, 10) == 0,
            dec_u16_at(b@, 2) & 0x40 == 0,
            an == dec_u16_at(b@, 6),
            ({
                let whole = dec_records_at(b@, 12, an as nat);
                let rest = dec_records_at(b@, pos as int, (an - i) as nat);
                match rest {
                    None => whole is None,
                    Some((rs, e)) => whole == Some(
                        (answers@.map_values(|x: WireRecord| x@) + rs, e),
                    ),
                }
            }),
        decreases an - i,
    {
        let ghost pos0 = pos as int;
        let ghost acc0 = answers@.map_values(|x: WireRecord| x@);
        match decode_record(b, pos) {
            Some((rec, p2)) => {
                proof {
                    assert(dec_record_at(b@, pos0) == Some((rec@, p2 as int)));
                }
                answers.push(rec);
                pos = p2;
                proof {
                    let rest0 = dec_records_at(b@, pos0, (an - i) as nat);
                    let rest1 = dec_records_at(b@, p2 as int, (an - i - 1) as nat);
                    assert(answers@.map_values(|x: WireRecord| x@) =~= acc0 + seq![rec@]);
                    match rest1 {
                        None => {
                            assert(rest0 is None);
                        },
                        Some((rs1, e1)) => {
                            assert(rest0 == Some((seq![rec@] + rs1, e1)));
                            assert(acc0 + (seq![rec@] + rs1) =~= (acc0 + seq![rec@]) + rs1);
                        },
                    }
                }
                i = i + 1;
            },
            None => {
                proof {
                    assert(dec_records_at(b@, pos0, (an - i) as nat) is None);
                }
                return None;
            },
        }
    }
    if pos != b.len() {
        proof {
            let rest = dec_records_at(b@, pos as int, 0);
            assert(rest == Some((Seq::<RecordView>::empty(), pos as int)));
            assert(answers@.map_values(|x: WireRecord| x@) + Seq::<RecordView>::empty()
                =~= answers@.map_values(|x: WireRecord| x@));
        }
        return None;
    }
    proof {
        let rest = dec_records_at(b@, pos as int, 0);
        assert(rest == Some((Seq::<RecordView>::empty(), pos as int)));
        assert(answers@.map_values(|x: WireRecord| x@) + Seq::<RecordView>::empty()
            =~= answers@.map_values(|x: WireRecord| x@));
    }
    Some(CachedMessage { header, answers })
}

/// A record encoded at `pos` decodes to itself.
proof fn lemma_dec_of_enc_record(b: Seq<u8>, pos: int, r: RecordView)
    requires
        wf_record(r),
        0 <= pos,
        pos + enc_record(r).len() <= b.len(),
        b.subrange(pos, pos + enc_record(r).len()) == enc_record(r),
    ensures
        dec_record_at(b, pos) == Some((r, pos + enc_record(r).len())),
{
    let er = enc_record(r);
    let nl = r.0.len() as int;
    let rl = r.4.len() as int;
    assert(er.len() == nl + 10 + rl);
    assert(forall|j: int| 0 <= j < er.len() ==> b[pos + j] == er[j]) by {
        assert(forall|j: int|
            0 <= j < er.len() ==> b.subrange(pos, pos + er.len())[j] == #[trigger] b[pos + j]);
    }
    assert(b.subrange(pos, pos + nl) =~= r.0);
    lemma_name_end_of_embedded(r.0, b, pos);
    let ne = pos + nl;
    assert(er[nl] == enc_u16(r.1)[0] && er[nl + 1] == enc_u16(r.1)[1]);
    lemma_dec_of_enc_u16(b, ne, r.1);
    assert(er[nl + 2] == enc_u16(r.2)[0] && er[nl + 3] == enc_u16(r.2)[1]);
    lemma_dec_of_enc_u16(b, ne + 2, r.2);
    assert(er[nl + 4] == enc_u32(r.3)[0] && er[nl + 5] == enc_u32(r.3)[1] && er[nl + 6] == enc_u32(
        r.3,
    )[2] && er[nl + 7] == enc_u32(r.3)[3]);
    lemma_dec_of_enc_u32(b, ne + 4, r.3);
    assert(er[nl + 8] == enc_u16(r.4.len() as u16)[0] && er[nl + 9] == enc_u16(
        r.4.len() as u16,
    )[1]);
    lemma_dec_of_enc_u16(b, ne + 8, r.4.len() as u16);
    assert(dec_u16_at(b, ne + 8) as int == rl);
    assert forall|j: int| 0 <= j < rl implies b[ne + 10 + j] == r.4[j] by {
        assert(b[pos + (nl + 10 + j)] == er[nl + 10 + j]);
        assert(er[nl + 10 + j] == r.4[j]);
    }
    assert(b.subrange(ne + 10, ne + 10 + rl) =~= r.4);
}

/// A run of records encoded at `pos` decodes to itself.
proof fn lemma_dec_of_enc_records(b: Seq<u8>, pos: int, rs: Seq<RecordView>)
    requires
        forall|i: int| 0 <= i < rs.len() ==> wf_record(#[trigger] rs[i]),
        0 <= pos,
        pos + enc_records(rs).len() <= b.len(),
        b.subrange(pos, pos + enc_records(rs).len()) == enc_records(rs),
    ensures
        dec_records_at(b, pos, rs.len() as nat) == Some((rs, pos + enc_records(rs).len())),
    decreases rs.len(),
{
    if rs.len() == 0 {
        assert(rs =~= Seq::<RecordView>::empty());
    } else {
        let head = enc_record(rs[0]);
        let tail = enc_records(rs.skip(1));
        assert(enc_records(rs) == head + tail);
        assert(forall|j: int|
            0 <= j < enc_records(rs).len() ==> b.subrange(pos, pos + enc_records(rs).len())[j]
                == #[trigger] b[pos + j]);
        assert(b.subrange(pos, pos + head.len()) =~= head);
        lemma_dec_of_enc_record(b, pos, rs[0]);
        assert forall|j: int| 0 <= j < tail.len() implies b[pos + head.len() + j] == tail[j] by {
            assert(b[pos + (head.len() + j)] == enc_records(rs)[head.len() + j]);
            assert(enc_records(rs)[head.len() + j] == tail[j]);
        }
        assert(b.subrange(pos + head.len(), pos + head.len() + tail.len()) =~= tail);
        lemma_dec_of_enc_records(b, pos + head.len(), rs.skip(1));
        assert(seq![rs[0]] + rs.skip(1) =~= rs);
    }
}

/// Whatever decodes as one record is well formed and re-encodes to the
/// bytes it came from.
proof fn lemma_enc_of_dec_record(b: Seq<u8>, pos: int)
    requires
        dec_record_at(b, pos) is Some,
    ensures
        ({
            let (r, e) = dec_record_at(b, pos)->0;
            &&& wf_record(r)
            &&& pos < e <= b.len()
            &&& enc_record(r) == b.subrange(pos, e)
        }),
{
    let (r, e) = dec_record_at(b, pos)->0;
    let ne = name_end(b, pos)->0;
    lemma_name_end_sound(b, pos);
    lemma_enc_of_dec_u16(b, ne);
    lemma_enc_of_dec_u16(b, ne + 2);
    lemma_enc_of_dec_u32(b, ne + 4);
    lemma_enc_of_dec_u16(b, ne + 8);
    let rl = dec_u16_at(b, ne + 8) as int;
    assert(r.4 == b.subrange(ne + 10, ne + 10 + rl));
    assert(r.4.len() == rl);
    assert(r.4.len() as u16 == dec_u16_at(b, ne + 8));
    assert(enc_record(r) =~= b.subrange(pos, e));
}

/// Whatever decodes as a run of `n` records is `n` well-formed records
/// that re-encode to the bytes they came from.
proof fn lemma_enc_of_dec_records(b: Seq<u8>, pos: int, n: nat)
    requires
        0 <= pos <= b.len(),
        dec_records_at(b, pos, n) is Some,
    ensures
        ({
            let (rs, e) = dec_records_at(b, pos, n)->0;
            &&& rs.len() == n
            &&& (forall|i: int| 0 <= i < rs.len() ==> wf_record(#[trigger] rs[i]))
            &&& pos <= e <= b.len()
            &&& enc_records(rs) == b.subrange(pos, e)
        }),
    decreases n,
{
    let (rs, e) = dec_records_at(b, pos, n)->0;
    if n == 0 {
        assert(enc_records(rs) =~= b.subrange(pos, pos));
    } else {
        let (r0, p2) = dec_record_at(b, pos)->0;
        lemma_enc_of_dec_record(b, pos);
        lemma_enc_of_dec_records(b, p2, (n - 1) as nat);
        let (rtail, e2) = dec_records_at(b, p2, (n - 1) as nat)->0;
        assert(rs == seq![r0] + rtail);
        assert(rs[0] == r0);
        assert(forall|i: int| 0 < i < rs.len() ==> rs[i] == rtail[i - 1]);
        assert(enc_records(rs) == enc_record(rs[0]) + enc_records(rs.skip(1)));
        assert(rs.skip(1) =~= rtail);
        assert(enc_records(rs) =~= b.subrange(pos, e));
    }
}

/// Encoding a well-formed message and decoding the bytes gives the same
/// message back.
pub proof fn lemma_encode_then_decode(m: MessageView)
    requires
        wf_message(m),
    ensures
        dec_message(enc_message(m)) == Some(m),
{
    let b = enc_message(m);
    let f = enc_flags(m.0);
    let an = m.1.len() as u16;
    let recs = enc_records(m.1);
    assert(b == enc_u16(m.0.id) + enc_u16(f) + enc_u16(0) + enc_u16(an) + enc_u16(0) + enc_u16(0)
        + recs);
    assert(b.len() == 12 + recs.len());
    assert(b[0] == enc_u16(m.0.id)[0] && b[1] == enc_u16(m.0.id)[1]);
    lemma_dec_of_enc_u16(b, 0, m.0.id);
    assert(b[2] == enc_u16(f)[0] && b[3] == enc_u16(f)[1]);
    lemma_dec_of_enc_u16(b, 2, f);
    assert(b[4] == enc_u16(0)[0] && b[5] == enc_u16(0)[1]);
    lemma_dec_of_enc_u16(b, 4, 0);
    assert(b[6] == enc_u16(an)[0] && b[7] == enc_u16(an)[1]);
    lemma_dec_of_enc_u16(b, 6, an);
    assert(b[8] == enc_u16(0)[0] && b[9] == enc_u16(0)[1]);
    lemma_dec_of_enc_u16(b, 8, 0);
    assert(b[10] == enc_u16(0)[0] && b[11] == enc_u16(0)[1]);
    lemma_dec_of_enc_u16(b, 10, 0);
    lemma_flags_round_trip(m.0);
    assert(b.subrange(12, 12 + recs.len() as int) =~= recs);
    lemma_dec_of_enc_records(b, 12, m.1);
    assert(an as nat == m.1.len());
    assert(dec_message(b) == Some((header_of(m.0.id, f), m.1)));
    assert(header_of(m.0.id, f) == m.0);
}

/// Whatever decodes as a message is well formed and re-encodes to exactly
/// the bytes it came from: decoding and re-encoding a stored entry is the
/// identity on its bytes.
pub proof fn lemma_decode_then_encode(b: Seq<u8>)
    requires
        dec_message(b) is Some,
    ensures
        wf_message(dec_message(b)->0),
        enc_message(dec_message(b)->0) == b,
{
    let m = dec_message(b)->0;
    let id = dec_u16_at(b, 0);
    let f = dec_u16_at(b, 2);
    let an = dec_u16_at(b, 6);
    lemma_flags_reencode(id, f);
    lemma_enc_of_dec_records(b, 12, an as nat);
    let (rs, e) = dec_records_at(b, 12, an as nat)->0;
    assert(m == (header_of(id, f), rs));
    assert(rs.len() == an as nat);
    assert(rs.len() as u16 == an);
    lemma_enc_of_dec_u16(b, 0);
    lemma_enc_of_dec_u16(b, 2);
    lemma_enc_of_dec_u16(b, 4);
    lemma_enc_of_dec_u16(b, 6);
    lemma_enc_of_dec_u16(b, 8);
    lemma_enc_of_dec_u16(b, 10);
    assert(dec_u16_at(b, 4) == 0 && dec_u16_at(b, 8) == 0 && dec_u16_at(b, 10) == 0);
    let bm = enc_message(m);
    assert(enc_records(rs) == b.subrange(12, e));
    assert(e == b.len());
    assert(bm.len() == b.len());
    assert forall|i: int| 0 <= i < b.len() implies bm[i] == b[i] by {
        if i < 2 {
            assert(bm[i] == enc_u16(id)[i]);
            assert(enc_u16(id) == seq![b[0], b[1]]);
        } else if i < 4 {
            assert(bm[i] == enc_u16(f)[i - 2]);
            assert(enc_u16(f) == seq![b[2], b[3]]);
        } else if i < 6 {
            assert(bm[i] == enc_u16(0)[i - 4]);
            assert(enc_u16(dec_u16_at(b, 4)) == seq![b[4], b[5]]);
        } else if i < 8 {
            assert(bm[i] == enc_u16(an)[i - 6]);
            assert(enc_u16(an) == seq![b[6], b[7]]);
        } else if i < 10 {
            assert(bm[i] == enc_u16(0)[i - 8]);
            assert(enc_u16(dec_u16_at(b, 8)) == seq![b[8], b[9]]);
        } else if i < 12 {
            assert(bm[i] == enc_u16(0)[i - 10]);
            assert(enc_u16(dec_u16_at(b, 10)) == seq![b[10], b[11]]);
        } else {
            assert(bm[i] == enc_records(rs)[i - 12]);
            assert(b.subrange(12, e)[i - 12] == b[i]);
        }
    }
    assert(enc_message(m) =~= b);
}

} // verus!
