use dns_recursor::handler::serve_cached;
use hickory_proto::serialize::binary::BinDecodable;
use dns_recursor::wire::{
    decode_message, encode_message, pack_flags, CachedMessage, MessageHeader, WireRecord,
};

fn example_header() -> MessageHeader {
    MessageHeader {
        id: 0x1234,
        qr: true,
        opcode: 0,
        aa: false,
        tc: false,
        rd: true,
        ra: true,
        ad: false,
        cd: false,
        rcode: 0,
    }
}

// example.com in wire label form
fn example_name() -> Vec<u8> {
    let mut n = vec![7u8];
    n.extend_from_slice(b"example");
    n.push(3);
    n.extend_from_slice(b"com");
    n.push(0);
    n
}

fn a_record(ttl: u32, ip: [u8; 4]) -> WireRecord {
    WireRecord { name: example_name(), rtype: 1, rclass: 1, ttl, rdata: ip.to_vec() }
}

#[test]
fn flags_pack_known_value() {
    // QR|RD|RA with rcode 0 is 0x8180
    assert_eq!(pack_flags(&example_header()), 0x8180);
    let mut h = example_header();
    h.rcode = 3;
    assert_eq!(pack_flags(&h), 0x8183);
}

#[test]
fn encode_layout_of_empty_message() {
    let m = CachedMessage { header: example_header(), answers: vec![] };
    let bytes = encode_message(&m);
    assert_eq!(
        bytes,
        vec![0x12, 0x34, 0x81, 0x80, 0, 0, 0, 0, 0, 0, 0, 0]
    );
}

#[test]
fn round_trip_with_answers() {
    let m = CachedMessage {
        header: example_header(),
        answers: vec![a_record(300, [93, 184, 216, 34]), a_record(60, [93, 184, 216, 35])],
    };
    let bytes = encode_message(&m);
    let back = decode_message(&bytes).expect("decodes");
    assert_eq!(back.header, m.header);
    assert_eq!(back.answers.len(), 2);
    assert_eq!(back.answers[0].name, example_name());
    assert_eq!(back.answers[0].rtype, 1);
    assert_eq!(back.answers[0].rclass, 1);
    assert_eq!(back.answers[0].ttl, 300);
    assert_eq!(back.answers[0].rdata, vec![93, 184, 216, 34]);
    assert_eq!(back.answers[1].ttl, 60);
    // re-encoding the decoded message gives the same bytes
    let again = encode_message(&back);
    assert_eq!(again, bytes);
}

#[test]
fn decode_rejects_garbage() {
    assert!(decode_message(&[]).is_none());
    assert!(decode_message(&[0u8; 11]).is_none());
    // question count non-zero
    let m = CachedMessage { header: example_header(), answers: vec![] };
    let mut bytes = encode_message(&m);
    bytes[5] = 1;
    assert!(decode_message(&bytes).is_none());
    // trailing bytes
    let mut bytes = encode_message(&m);
    bytes.push(0);
    assert!(decode_message(&bytes).is_none());
    // compression pointers are refused
    let mut bytes = encode_message(&CachedMessage {
        header: example_header(),
        answers: vec![a_record(1, [1, 2, 3, 4])],
    });
    bytes[12] = 0xc0;
    assert!(decode_message(&bytes).is_none());
}

#[test]
fn hickory_parses_our_wire_format() {
    let m = CachedMessage {
        header: example_header(),
        answers: vec![a_record(300, [93, 184, 216, 34])],
    };
    let bytes = encode_message(&m);
    let parsed = hickory_proto::op::Message::from_bytes(&bytes).expect("hickory parses");
    assert_eq!(parsed.id(), 0x1234);
    assert_eq!(parsed.answers().len(), 1);
    assert_eq!(parsed.answers()[0].name().to_ascii(), "example.com.");
    assert_eq!(parsed.answers()[0].ttl(), 300);
    assert_eq!(parsed.response_code(), hickory_proto::op::ResponseCode::NoError);
}

#[test]
fn serve_cached_rewrites_id_and_flags() {
    let mut stored_header = example_header();
    stored_header.id = 0;
    stored_header.rd = false;
    stored_header.rcode = 3;
    let stored = CachedMessage { header: stored_header, answers: vec![a_record(5, [1, 2, 3, 4])] };
    let bytes = encode_message(&stored);
    let reply = serve_cached(&bytes, 0xbeef, true).expect("serves");
    assert_eq!(reply.header.id, 0xbeef);
    assert!(reply.header.qr);
    assert!(reply.header.ra);
    assert!(reply.header.rd);
    assert!(!reply.header.aa);
    assert!(!reply.header.ad);
    assert_eq!(reply.header.rcode, 3);
    assert_eq!(reply.answers.len(), 1);
    assert_eq!(reply.answers[0].rdata, vec![1, 2, 3, 4]);
    assert!(serve_cached(&[1, 2, 3], 0, false).is_none());
}
