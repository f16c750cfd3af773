use dns_recursor::ipparse::parse_ipv4_addr;
use dns_recursor::zones::{
    make_fqdn, parse_rrtype, ZoneError, ZoneStore, ZoneTextRecord, RRTYPE_A, RRTYPE_AAAA,
    RRTYPE_ANY, RRTYPE_CNAME, RRTYPE_MX, RRTYPE_NS, RRTYPE_TXT,
};

fn rec(name: &str, typ: &str, value: &str) -> ZoneTextRecord {
    ZoneTextRecord { name: name.to_string(), typ: typ.to_string(), value: value.to_string() }
}

#[test]
fn rrtype_words() {
    assert_eq!(parse_rrtype("A"), Some(RRTYPE_A));
    assert_eq!(parse_rrtype("aaaa"), Some(RRTYPE_AAAA));
    assert_eq!(parse_rrtype(" Cname "), Some(RRTYPE_CNAME));
    assert_eq!(parse_rrtype("TXT"), Some(RRTYPE_TXT));
    assert_eq!(parse_rrtype("MX"), Some(RRTYPE_MX));
    assert_eq!(parse_rrtype("NS"), Some(RRTYPE_NS));
    assert_eq!(parse_rrtype("SRV"), None);
}

#[test]
fn fqdn_composition() {
    assert_eq!(make_fqdn("www", "Example.COM."), b"www.example.com".to_vec());
    assert_eq!(make_fqdn("Mail.Example.com.", "other.org."), b"mail.example.com".to_vec());
    assert_eq!(make_fqdn("x", "example.org"), b"x.example.org".to_vec());
}

#[test]
fn ingest_and_lookup_a_record() {
    let mut store = ZoneStore::new();
    store
        .ingest_zone("example.com.", 120, &vec![rec("www", "A", "192.0.2.7")])
        .expect("ingests");
    let records = store.lookup("WWW.Example.COM.", RRTYPE_A).expect("found");
    assert_eq!(records.len(), 1);
    assert_eq!(records[0].rtype, RRTYPE_A);
    assert_eq!(records[0].rclass, 1);
    assert_eq!(records[0].ttl, 120);
    assert_eq!(records[0].rdata, vec![192, 0, 2, 7]);
    // wire-form owner name
    let mut name = vec![3u8];
    name.extend_from_slice(b"www");
    name.push(7);
    name.extend_from_slice(b"example");
    name.push(3);
    name.extend_from_slice(b"com");
    name.push(0);
    assert_eq!(records[0].name, name);
    // wrong type and wrong name find nothing
    assert!(store.lookup("www.example.com.", RRTYPE_AAAA).is_none());
    assert!(store.lookup("other.example.com.", RRTYPE_A).is_none());
    // ANY matches all types for the name
    assert!(store.lookup("www.example.com.", RRTYPE_ANY).is_some());
}

#[test]
fn ingest_aaaa_and_txt_and_cname() {
    let mut store = ZoneStore::new();
    store
        .ingest_zone(
            "example.org.",
            60,
            &vec![
                rec("v6", "AAAA", "2001:db8::1"),
                rec("note", "TXT", "hello world"),
                rec("alias", "CNAME", "target"),
            ],
        )
        .expect("ingests");
    let v6 = store.lookup("v6.example.org.", RRTYPE_AAAA).expect("aaaa");
    let mut expected = vec![0x20, 0x01, 0x0d, 0xb8];
    expected.extend_from_slice(&[0; 11]);
    expected.push(1);
    assert_eq!(v6[0].rdata, expected);
    let txt = store.lookup("note.example.org.", RRTYPE_TXT).expect("txt");
    let mut expected = vec![11u8];
    expected.extend_from_slice(b"hello world");
    assert_eq!(txt[0].rdata, expected);
    let cname = store.lookup("alias.example.org.", RRTYPE_CNAME).expect("cname");
    // target.example.org in wire form
    let mut expected = vec![6u8];
    expected.extend_from_slice(b"target");
    expected.push(7);
    expected.extend_from_slice(b"example");
    expected.push(3);
    expected.extend_from_slice(b"org");
    expected.push(0);
    assert_eq!(cname[0].rdata, expected);
}

#[test]
fn ingest_mx_and_ns() {
    let mut store = ZoneStore::new();
    store
        .ingest_zone(
            "example.net.",
            300,
            &vec![rec("mail", "MX", "10 mx1"), rec("sub", "NS", "ns1.example.net.")],
        )
        .expect("ingests");
    let mx = store.lookup("mail.example.net.", RRTYPE_MX).expect("mx");
    assert_eq!(&mx[0].rdata[0..2], &[0, 10]);
    let mut host = vec![3u8];
    host.extend_from_slice(b"mx1");
    host.push(7);
    host.extend_from_slice(b"example");
    host.push(3);
    host.extend_from_slice(b"net");
    host.push(0);
    assert_eq!(&mx[0].rdata[2..], &host[..]);
    let ns = store.lookup("sub.example.net.", RRTYPE_NS).expect("ns");
    assert_eq!(ns[0].rtype, RRTYPE_NS);
}

#[test]
fn ingest_rejects_bad_records() {
    let mut store = ZoneStore::new();
    assert_eq!(
        store.ingest_zone("example.com.", 60, &vec![rec("x", "SRV", "whatever")]),
        Err(ZoneError::BadType)
    );
    assert_eq!(
        store.ingest_zone("example.com.", 60, &vec![rec("a..b", "A", "1.2.3.4")]),
        Err(ZoneError::BadName)
    );
    assert_eq!(
        store.ingest_zone("example.com.", 60, &vec![rec("x", "A", "300.2.3.4")]),
        Err(ZoneError::BadValue)
    );
    assert_eq!(
        store.ingest_zone("example.com.", 60, &vec![rec("x", "A", "01.2.3.4")]),
        Err(ZoneError::BadValue)
    );
    assert_eq!(
        store.ingest_zone("example.com.", 60, &vec![rec("x", "AAAA", "not-an-ip")]),
        Err(ZoneError::BadValue)
    );
    assert_eq!(
        store.ingest_zone("example.com.", 60, &vec![rec("x", "MX", "banana host")]),
        Err(ZoneError::BadValue)
    );
    // a failed file leaves the store unchanged
    assert!(store.lookup("x.example.com.", RRTYPE_ANY).is_none());
}

#[test]
fn ipv4_parse_exact() {
    assert_eq!(parse_ipv4_addr(b"1.2.3.4"), Some(0x01020304));
    assert_eq!(parse_ipv4_addr(b"255.255.255.255"), Some(0xffffffff));
    assert_eq!(parse_ipv4_addr(b"0.0.0.0"), Some(0));
    assert_eq!(parse_ipv4_addr(b"192.0.2.7"), Some(0xc0000207));
    assert_eq!(parse_ipv4_addr(b"256.0.0.1"), None);
    assert_eq!(parse_ipv4_addr(b"1.2.3"), None);
    assert_eq!(parse_ipv4_addr(b"1.2.3.4.5"), None);
    assert_eq!(parse_ipv4_addr(b"01.2.3.4"), None);
    assert_eq!(parse_ipv4_addr(b"1.2.3."), None);
    assert_eq!(parse_ipv4_addr(b""), None);
}
