use hickory_proto::op::{Message as WireMessage, MessageType as WireType, OpCode};
use hickory_proto::rr::rdata::{CNAME, HINFO};
use hickory_proto::rr::{
    Name as WireName, RData as WireData, Record as WireRecord, RecordType as WireRecordType,
};

use nmdns::addr::{Ipv4Addr, Ipv6Addr};
use nmdns::dns::{
    Message, MessageType, Name, Question, RData, Record, RecordType, CLASS_ANY, CLASS_IN,
};
use nmdns::record_key::{rdata_eq, RecordKey};

fn host(name: &str) -> Name {
    Name::from_str(name).unwrap()
}

fn question(name: &str, qtype: RecordType, unicast_response: bool) -> Question {
    Question { name: host(name), qtype, qclass: CLASS_IN, unicast_response }
}

#[test]
fn wire_message_round_trips_through_hickory() {
    let mut msg = Message::new(0, MessageType::Query);
    msg.queries.push(question("router.local.", RecordType::A, false));
    let bytes = msg.to_vec().expect("encode");

    let parsed = Message::from_vec(&bytes).expect("decode");
    assert_eq!(parsed.message_type, MessageType::Query);
    assert_eq!(parsed.queries.len(), 1);
    assert_eq!(parsed.queries[0].qtype, RecordType::A);
    assert!(parsed.queries[0].name == host("router.local."));
}

#[test]
fn wire_response_with_full_dnssd_set_round_trips() {
    let h = host("router.local.");
    let inst = host("Admin._http._tcp.local.");
    let svc_type = host("_http._tcp.local.");
    let meta = host("_services._dns-sd._udp.local.");

    let a = Record::from_rdata(h.clone(), 120, RData::A(Ipv4Addr::new(10, 0, 0, 1)));
    let aaaa = Record::from_rdata(
        h.clone(),
        120,
        RData::AAAA(Ipv6Addr::from_bits(0xfe80_0000_0000_0000_0000_0000_0000_0001u128)),
    );
    let ptr_inst = Record::from_rdata(svc_type.clone(), 4500, RData::PTR(inst.clone()));
    let ptr_meta = Record::from_rdata(meta, 4500, RData::PTR(svc_type));
    let srv = Record::from_rdata(
        inst.clone(),
        120,
        RData::SRV { priority: 0, weight: 0, port: 80, target: h.clone() },
    );
    let txt = Record::from_rdata(inst, 4500, RData::TXT(vec![b"path=/".to_vec()]));

    let mut msg = Message::new(0, MessageType::Response);
    msg.authoritative = true;
    let all = [a, aaaa, ptr_inst, ptr_meta, srv, txt];
    for r in &all {
        msg.answers.push(r.clone());
    }

    let bytes = msg.to_vec().expect("encode response");
    let parsed = Message::from_vec(&bytes).expect("decode response");
    assert_eq!(parsed.message_type, MessageType::Response);
    assert!(parsed.authoritative);
    assert_eq!(parsed.answers.len(), 6);
    assert!(parsed.answers.iter().any(|r| r.record_type() == RecordType::AAAA));
    for (got, want) in parsed.answers.iter().zip(all.iter()) {
        assert!(got == want);
        assert_eq!(got.ttl, want.ttl);
    }
}

#[test]
fn rfc6762_s8_1_probe_message_format() {
    let mut unique =
        Record::from_rdata(host("router.local."), 120, RData::A(Ipv4Addr::new(10, 0, 0, 1)));
    unique.mdns_cache_flush = true;

    let mut msg = Message::new(0, MessageType::Query);
    msg.queries.push(question("router.local.", RecordType::ANY, true));
    msg.authorities.push(unique);

    let bytes = msg.to_vec().expect("encode");
    let parsed = Message::from_vec(&bytes).expect("decode");

    assert_eq!(parsed.queries.len(), 1);
    let pq = &parsed.queries[0];
    assert_eq!(pq.qtype, RecordType::ANY);
    assert_eq!(pq.qclass, CLASS_IN);
    assert!(pq.unicast_response, "QU bit must be set on probes");
    assert_eq!(parsed.authorities.len(), 1);
}

#[test]
fn rfc6762_s18_4_responses_set_authoritative_bit() {
    let mut msg = Message::new(0, MessageType::Response);
    msg.authoritative = true;
    msg.answers.push(Record::from_rdata(
        host("router.local."),
        120,
        RData::A(Ipv4Addr::new(10, 0, 0, 1)),
    ));
    let bytes = msg.to_vec().unwrap();
    let parsed = Message::from_vec(&bytes).unwrap();
    assert_eq!(parsed.message_type, MessageType::Response);
    assert!(parsed.authoritative, "AA bit must be set");
}

#[test]
fn header_sections_and_flags_survive() {
    let rec = |ip: u8, ttl: u32, flush: bool| {
        let mut r = Record::from_rdata(host("a.local."), ttl, RData::A(Ipv4Addr::new(1, 2, 3, ip)));
        r.mdns_cache_flush = flush;
        r
    };
    let mut msg = Message::new(0x1234, MessageType::Query);
    msg.truncation = true;
    msg.queries.push(question("a.local.", RecordType::Other(65), true));
    msg.queries.push(question("b.local.", RecordType::TXT, false));
    msg.answers.push(rec(1, 10, false));
    msg.authorities.push(rec(2, 20, true));
    msg.authorities.push(rec(3, 30, false));
    let mut any = rec(4, 40, true);
    any.dns_class = CLASS_ANY;
    msg.additionals.push(any);

    let m = Message::from_vec(&msg.to_vec().unwrap()).unwrap();
    assert_eq!(m.id, 0x1234);
    assert!(m.truncation);
    assert!(!m.authoritative);
    assert_eq!(m.queries.len(), 2);
    assert_eq!(m.queries[0].qtype, RecordType::Other(65));
    assert!(m.queries[0].unicast_response);
    assert!(!m.queries[1].unicast_response);
    assert_eq!(m.answers.len(), 1);
    assert_eq!(m.authorities.len(), 2);
    assert_eq!(m.additionals.len(), 1);
    assert!(m.authorities[0].mdns_cache_flush);
    assert!(!m.authorities[1].mdns_cache_flush);
    assert_eq!(m.authorities[1].ttl, 30);
    assert_eq!(m.additionals[0].dns_class, CLASS_ANY);
    assert!(m.additionals[0].mdns_cache_flush);
    assert!(m.additionals[0].data == RData::A(Ipv4Addr::new(1, 2, 3, 4)));
}

#[test]
fn data_of_other_types_is_kept_and_sent_on() {
    let name = |s: &str| s.parse::<WireName>().unwrap();
    let ascii = |s: &str| WireName::from_ascii(s).unwrap();
    let mut wire = WireMessage::new(7, WireType::Response, OpCode::Query);
    wire.add_answer(WireRecord::from_rdata(
        name("alias.local."),
        60,
        WireData::CNAME(CNAME(ascii("Real.Host.local."))),
    ));
    wire.add_answer(WireRecord::from_rdata(
        name("alias.local."),
        60,
        WireData::HINFO(HINFO::new("cpu".into(), "os".into())),
    ));
    let m = Message::from_vec(&wire.to_vec().unwrap()).unwrap();
    assert_eq!(m.answers[0].record_type(), RecordType::Other(5));
    assert_eq!(m.answers[1].record_type(), RecordType::Other(13));
    match &m.answers[0].data {
        RData::Other { code, wire, canonical } => {
            assert_eq!(*code, 5);
            assert_eq!(wire, b"\x04Real\x04Host\x05local\x00");
            assert_eq!(canonical, b"\x04real\x04host\x05local\x00");
        }
        other => panic!("{other:?}"),
    }
    match &m.answers[1].data {
        RData::Other { code, wire, .. } => {
            assert_eq!(*code, 13);
            assert_eq!(wire, b"\x03cpu\x02os");
        }
        other => panic!("{other:?}"),
    }
    let again = Message::from_vec(&m.to_vec().unwrap()).unwrap();
    assert!(again.answers[0] == m.answers[0]);
    assert!(again.answers[1] == m.answers[1]);
    let sent = WireMessage::from_vec(&m.to_vec().unwrap()).unwrap();
    assert_eq!(sent.answers, wire.answers);
}

#[test]
fn octets_that_are_no_message_are_refused() {
    assert!(Message::from_vec(&[]).is_err());
    assert!(Message::from_vec(&[0, 1, 2, 3]).is_err());
}

#[test]
fn strings_that_do_not_fit_cannot_be_sent() {
    let mut m = Message::new(0, MessageType::Response);
    m.answers.push(Record::from_rdata(host("a.local."), 1, RData::TXT(vec![vec![b'x'; 256]])));
    assert!(m.to_vec().is_err());
}

#[test]
fn names_are_read_and_written() {
    assert_eq!(host("_http._tcp.local.").to_string(), "_http._tcp.local.");
    assert_eq!(host("router.local").to_string(), "router.local");
    assert!(!host("router.local").is_fqdn());
    assert!(host("router.local.").is_fqdn());
    assert_eq!(host("Router.Local.").to_string(), "router.local.");
    assert_eq!(host("_Http.local.").to_string(), "_Http.local.");
    assert_eq!(host(".").num_labels(), 0);
    assert!(host(".") == Name::root());
    assert_eq!(host(".").to_string(), ".");
    assert!(Name::from_str("a..b.").is_err());
    assert!(Name::from_str("a b.").is_err());
    assert!(Name::from_str(&"x".repeat(64)).is_err());
}

#[test]
fn names_are_made_of_labels() {
    let labels = |v: &[&str]| v.iter().map(|s| s.as_bytes().to_vec()).collect::<Vec<_>>();
    let n = Name::from_labels(&labels(&["Two words", "local"])).unwrap();
    assert!(n.is_fqdn());
    assert_eq!(n.num_labels(), 2);
    assert!(Name::from_labels(&labels(&["", "local"])).is_err());
    assert!(Name::from_labels(&labels(&[&"x".repeat(63)])).is_ok());
    assert!(Name::from_labels(&labels(&[&"x".repeat(64)])).is_err());
    let full = "x".repeat(63);
    assert!(Name::from_labels(&labels(&[&full, &full, &full, &full[..61]])).is_ok());
    assert!(Name::from_labels(&labels(&[&full, &full, &full, &full[..62]])).is_err());
}

#[test]
fn names_are_joined() {
    let head = Name::from_labels(&vec![b"Admin".to_vec()]).unwrap();
    let n = head.append_name(&host("_http._tcp.local.")).unwrap();
    assert_eq!(n.to_string(), "Admin._http._tcp.local.");
    assert!(n.is_fqdn());
    assert!(!head.append_name(&host("local")).unwrap().is_fqdn());
    let long = Name::from_labels(&vec![vec![b'x'; 63]; 3]).unwrap();
    assert!(long.append_name(&long).is_err());
}

#[test]
fn names_and_data_are_the_same_in_any_case() {
    let upper = Name::from_labels(&vec![b"FOO".to_vec(), b"Local".to_vec()]).unwrap();
    assert!(upper == host("foo.local."));
    assert!(upper != host("foo.local"));
    assert!(upper != host("fop.local."));
    assert!(upper != host("local."));
    assert!(rdata_eq(&RData::PTR(upper.clone()), &RData::PTR(host("foo.local."))));
    assert!(!rdata_eq(&RData::PTR(upper.clone()), &RData::PTR(host("bar.local."))));
    assert!(!rdata_eq(
        &RData::TXT(vec![b"A=1".to_vec()]),
        &RData::TXT(vec![b"a=1".to_vec()])
    ));
    let srv = |target: Name, port: u16| RData::SRV { priority: 1, weight: 2, port, target };
    assert!(rdata_eq(&srv(upper.clone(), 80), &srv(host("foo.local."), 80)));
    assert!(!rdata_eq(&srv(upper.clone(), 80), &srv(host("foo.local."), 81)));
    let other = |wire: &[u8], canonical: &[u8]| RData::Other {
        code: 5,
        wire: wire.to_vec(),
        canonical: canonical.to_vec(),
    };
    assert!(rdata_eq(&other(b"A", b"a"), &other(b"a", b"a")));
    assert!(!rdata_eq(&other(b"a", b"a"), &other(b"b", b"b")));
    assert!(!rdata_eq(&RData::PTR(upper), &other(b"", b"")));
    let https = |octets: &[u8]| RData::Other {
        code: 65,
        wire: octets.to_vec(),
        canonical: octets.to_vec(),
    };
    let a = https(b"\x00\x01\x03FOO\x05Local\x00ALPN");
    assert!(rdata_eq(&a, &https(b"\x00\x01\x03foo\x05local\x00ALPN")));
    assert!(!rdata_eq(&a, &https(b"\x00\x01\x03foo\x05local\x00alpn")));
    assert!(!rdata_eq(&https(b"\x00A\x09FOO"), &https(b"\x00a\x09foo")));
    assert!(rdata_eq(&https(b"\x00A\x09FOO"), &https(b"\x00A\x09foo")));
}

#[test]
fn identity_leaves_out_the_lifetime() {
    let a = Record::from_rdata(host("foo.local."), 1, RData::A(Ipv4Addr::new(1, 2, 3, 4)));
    let mut b = Record::from_rdata(host("FOO.local."), 2, RData::A(Ipv4Addr::new(1, 2, 3, 4)));
    b.mdns_cache_flush = true;
    assert!(RecordKey::of(&a) == RecordKey::of(&b));
    assert!(a == b);
    let mut c = a.clone();
    c.dns_class = CLASS_ANY;
    assert!(RecordKey::of(&a) != RecordKey::of(&c));
    assert!(a != c);
    assert_eq!(RecordKey::of(&a).rtype, RecordType::A);
}

#[test]
fn record_types_have_their_numbers() {
    let named = [
        (RecordType::A, 1),
        (RecordType::AAAA, 28),
        (RecordType::PTR, 12),
        (RecordType::SRV, 33),
        (RecordType::TXT, 16),
        (RecordType::ANY, 255),
        (RecordType::Other(5), 5),
    ];
    for (t, n) in named {
        assert_eq!(t.code(), n);
        assert_eq!(RecordType::from_code(n), t);
    }
}

fn same_message(a: &Message, b: &Message) -> bool {
    format!("{:?}", a) == format!("{:?}", b)
}

fn label(len: usize) -> Vec<u8> {
    vec![b'X'; len]
}

#[test]
fn legible_messages_arrive_as_they_were_sent() {
    let long = Name::from_labels(&vec![label(63), label(63), label(63), label(61)]).unwrap();
    let odd = Name::from_labels(&vec![vec![0, b'.', 0xc0, b'A'], b"LoCaL".to_vec()]).unwrap();
    let mut msg = Message::new(0xabcd, MessageType::Query);
    msg.truncation = true;
    msg.queries.push(question("FOO.local.", RecordType::Other(47), true));
    msg.queries.push(Question {
        name: Name::root(),
        qtype: RecordType::ANY,
        qclass: 0x7fff,
        unicast_response: false,
    });
    for i in 0..200u32 {
        let name = Name::from_labels(&vec![format!("Host{}", i).into_bytes(), b"local".to_vec()]);
        let name = name.unwrap();
        let mut r = Record::from_rdata(
            name.clone(),
            u32::MAX - i,
            RData::SRV { priority: 1, weight: 2, port: 3, target: long.clone() },
        );
        r.mdns_cache_flush = i % 2 == 0;
        r.dns_class = CLASS_ANY;
        msg.answers.push(r);
        msg.authorities.push(Record::from_rdata(name, 0, RData::PTR(odd.clone())));
    }
    msg.additionals.push(Record::from_rdata(long, 7, RData::TXT(vec![vec![0xff; 255], vec![]])));
    msg.additionals.push(Record::from_rdata(odd, 8, RData::AAAA(Ipv6Addr::from_bits(u128::MAX))));
    let bytes = msg.to_vec().unwrap();
    assert!(bytes.len() > 0x4000);
    assert!(same_message(&Message::from_vec(&bytes).unwrap(), &msg));
}

#[test]
fn other_messages_may_arrive_otherwise() {
    let mut relative = Message::new(0, MessageType::Query);
    relative.queries.push(question("foo.local", RecordType::A, false));
    let parsed = Message::from_vec(&relative.to_vec().unwrap()).unwrap();
    assert!(parsed.queries[0].name == host("foo.local."));

    let mut empty = Message::new(0, MessageType::Response);
    empty.answers.push(Record::from_rdata(host("foo.local."), 1, RData::TXT(vec![])));
    assert!(Message::from_vec(&empty.to_vec().unwrap()).is_err());

    let mut large = Message::new(0, MessageType::Response);
    for _ in 0..300 {
        let text = RData::TXT(vec![vec![b'x'; 250]]);
        large.answers.push(Record::from_rdata(host("foo.local."), 1, text));
    }
    let parsed = Message::from_vec(&large.to_vec().unwrap()).unwrap();
    assert!(parsed.truncation);
    assert!(parsed.answers.len() < 300);
}

#[test]
fn records_without_data_are_read_and_sent_on() {
    let mut update = WireMessage::new(3, WireType::Response, OpCode::Update);
    update.add_answer(WireRecord::update0(
        WireName::from_ascii("foo.local.").unwrap(),
        120,
        WireRecordType::Unknown(4711),
    ));
    let m = Message::from_vec(&update.to_vec().unwrap()).unwrap();
    assert_eq!(m.answers.len(), 1);
    let data = RData::Other { code: 4711, wire: vec![], canonical: vec![] };
    assert!(rdata_eq(&m.answers[0].data, &data));

    let mut msg = Message::new(0, MessageType::Response);
    msg.answers.push(m.answers[0].clone());
    let octets = msg.to_vec().unwrap();
    let tail = [0x12, 0x67, 0, 1, 0, 0, 0, 120, 0, 0];
    assert_eq!(&octets[octets.len() - tail.len()..], &tail);
}

#[test]
fn lists_of_types_are_the_same_however_they_are_written() {
    let csync = |octets: &[u8]| RData::Other {
        code: 62,
        wire: octets.to_vec(),
        canonical: octets.to_vec(),
    };
    let a = csync(b"\x00\x00\x00\x01\x00\x03\x00\x01\x60");
    assert!(rdata_eq(&a, &csync(b"\x00\x00\x00\x01\x00\x03\x00\x03\x60\x00\x00")));
    assert!(rdata_eq(&a, &csync(b"\x00\x00\x00\x01\x00\x03\x00\x01\x40\x00\x01\x20")));
    assert!(rdata_eq(&a, &csync(b"\x00\x00\x00\x01\x00\x03\x00\x01\x60\x05\x01\x00")));
    assert!(!rdata_eq(&a, &csync(b"\x00\x00\x00\x01\x00\x03\x00\x01\x40")));
    assert!(!rdata_eq(&a, &csync(b"\x00\x00\x00\x01\x00\x03\x01\x01\x60")));
    assert!(!rdata_eq(&a, &csync(b"\x00\x00\x00\x02\x00\x03\x00\x01\x60")));
    assert!(!rdata_eq(&a, &csync(b"\x00\x00\x00\x01\x00\x03")));
    assert!(!rdata_eq(&csync(b""), &csync(b"\x00\x00\x00\x01\x00\x03")));
    let other = |code: u16, octets: &[u8]| RData::Other {
        code,
        wire: octets.to_vec(),
        canonical: octets.to_vec(),
    };
    assert!(!rdata_eq(&other(47, b"\x00\x01\x60"), &other(47, b"\x00\x02\x60\x00")));
}
