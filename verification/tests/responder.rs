use nmdns::addr::{Ipv4Addr, Ipv6Addr};
use nmdns::clock::NANOS_PER_SEC;
use nmdns::config::{default_browse, RawConfig, Resolved, ServiceConfig};
use nmdns::dns::{Message, MessageType, Name, Question, RData, Record, RecordType, CLASS_IN};
use nmdns::iface::{Iface, IfaceV4};
use nmdns::responder::{
    answer_uniqueness, apply_known_answers, build_response, cached_additionals,
    candidate_answers, classify_delay, finish_response, finish_response_at, is_probe_for_us,
    plan_response, plan_response_at,
};
use nmdns::services::{build, Published};
use nmdns::state::State;
use nmdns::timing::{DelayClass, MulticastTracker};

const LOCALHOST_V6: Ipv6Addr = Ipv6Addr { bits: 1 };

fn host(name: &str) -> Name {
    Name::from_str(name).unwrap()
}

fn fake_iface(name: &str, ip: [u8; 4], ifindex: u32) -> Iface {
    Iface {
        name: name.into(),
        ifindex,
        v4: Some(IfaceV4 {
            addr: Ipv4Addr::new(ip[0], ip[1], ip[2], ip[3]),
            mask: Ipv4Addr::new(255, 255, 255, 0),
            net: Ipv4Addr::new(ip[0], ip[1], ip[2], 0),
        }),
        v6: None,
    }
}

fn trusted() -> Iface {
    fake_iface("trusted", [192, 168, 10, 1], 10)
}

fn iot() -> Iface {
    fake_iface("iot", [192, 168, 20, 1], 20)
}

fn test_state(ifaces: Vec<Iface>, answer_from_cache: bool) -> State {
    let cfg = Resolved::parse(RawConfig {
        interfaces: vec!["test0".to_string()],
        repeat: true,
        answer_from_cache,
        blacklist: vec![],
        whitelist: vec![],
        hostname: None,
        browse: default_browse(),
        browse_interval_secs: 60,
        cache_tick_secs: 5,
        max_cache_entries: 4096,
        cache_max_ttl_secs: None,
        services: vec![],
    })
    .unwrap();
    State::new(cfg, ifaces)
}

fn nothing_published() -> Published {
    Published {
        hostname: host("router.local."),
        host_a: Vec::new(),
        host_aaaa: Vec::new(),
        services: Vec::new(),
    }
}

fn question(name: &str, qtype: RecordType) -> Question {
    Question { name: host(name), qtype, qclass: CLASS_IN, unicast_response: false }
}

fn query(name: &str, rtype: RecordType) -> Message {
    let mut msg = Message::new(0, MessageType::Query);
    msg.queries.push(question(name, rtype));
    msg
}

fn a_record(name: &str, ttl: u32, ip: [u8; 4]) -> Record {
    Record::from_rdata(host(name), ttl, RData::A(Ipv4Addr::new(ip[0], ip[1], ip[2], ip[3])))
}

#[test]
fn known_answer_suppresses_fresh_match() {
    let mut ans = vec![a_record("foo.local.", 120, [1, 2, 3, 4])];
    let mut q = Message::new(0, MessageType::Query);
    q.answers.push(a_record("foo.local.", 120, [1, 2, 3, 4]));
    apply_known_answers(&mut ans, &q);
    assert!(ans.is_empty());
}

#[test]
fn known_answer_keeps_stale_match() {
    let mut ans = vec![a_record("foo.local.", 120, [1, 2, 3, 4])];
    let mut q = Message::new(0, MessageType::Query);
    q.answers.push(a_record("foo.local.", 30, [1, 2, 3, 4]));
    apply_known_answers(&mut ans, &q);
    assert_eq!(ans.len(), 1);
}

#[test]
fn probe_detection() {
    let mut unique = a_record("foo.local.", 120, [1, 2, 3, 4]);
    unique.mdns_cache_flush = true;

    let mut probe = query("foo.local.", RecordType::ANY);
    probe.authorities.push(unique.clone());
    assert!(is_probe_for_us(&probe, &vec![unique.clone()]));

    let plain = query("foo.local.", RecordType::A);
    assert!(!is_probe_for_us(&plain, &vec![unique]));
}

#[test]
fn cache_relayed_answers_clear_cache_flush_bit() {
    let mut state = test_state(vec![trusted(), iot()], true);
    let mut owned_by_peer = a_record("printer.local.", 120, [192, 168, 20, 50]);
    owned_by_peer.mdns_cache_flush = true;
    state.cache.insert_from(owned_by_peer, Some(iot().ifindex));

    let msg = query("printer.local.", RecordType::A);
    let answers = candidate_answers(&state, &msg, &trusted(), &nothing_published());
    assert_eq!(answers.len(), 1);
    assert!(
        !answers[0].mdns_cache_flush,
        "a relayed cache record must not assert ownership on another link"
    );
}

#[test]
fn cache_relayed_single_answer_is_jittered_not_zero_delay() {
    let msg = query("printer.local.", RecordType::A);
    let relayed = vec![a_record("printer.local.", 120, [1, 2, 3, 4])];
    assert!(matches!(classify_delay(&msg, &relayed, false), DelayClass::Shared));

    let mut owned = relayed;
    owned[0].mdns_cache_flush = true;
    assert!(matches!(classify_delay(&msg, &owned, false), DelayClass::UniqueAnswer));
}

#[test]
fn cached_answers_only_use_records_from_other_ifaces() {
    let mut state = test_state(vec![trusted(), iot()], true);
    state.cache.insert_from(
        a_record("printer.local.", 120, [192, 168, 20, 50]),
        Some(iot().ifindex),
    );

    let msg = query("printer.local.", RecordType::A);
    let trusted_answers = candidate_answers(&state, &msg, &trusted(), &nothing_published());
    assert_eq!(trusted_answers.len(), 1);

    let iot_answers = candidate_answers(&state, &msg, &iot(), &nothing_published());
    assert!(iot_answers.is_empty());
}

fn printer_state() -> State {
    let mut state = test_state(vec![trusted(), iot()], true);
    let service_type = host("_ipp._tcp.local.");
    let instance = host("Office-Printer._ipp._tcp.local.");
    let target = host("printer.local.");
    let from = Some(iot().ifindex);

    state.cache.insert_from(
        Record::from_rdata(service_type, 4500, RData::PTR(instance.clone())),
        from,
    );
    state.cache.insert_from(
        Record::from_rdata(
            instance.clone(),
            120,
            RData::SRV { priority: 0, weight: 0, port: 631, target: target.clone() },
        ),
        from,
    );
    state.cache.insert_from(
        Record::from_rdata(instance, 4500, RData::TXT(vec![b"rp=ipp/print".to_vec()])),
        from,
    );
    state.cache.insert_from(
        Record::from_rdata(target, 120, RData::A(Ipv4Addr::new(192, 168, 20, 50))),
        from,
    );
    state.cache.insert_from(
        Record::from_rdata(
            host("printer.local."),
            120,
            RData::AAAA(Ipv6Addr::from_bits(0xfe80_0000_0000_0000_0000_0000_0000_0050)),
        ),
        from,
    );
    state
}

#[test]
fn cached_ptr_answers_include_srv_txt_and_address_additionals() {
    let state = printer_state();
    let msg = query("_ipp._tcp.local.", RecordType::PTR);
    let answers = candidate_answers(&state, &msg, &trusted(), &nothing_published());
    let additionals = cached_additionals(&state, &answers, &trusted());

    assert_eq!(answers.len(), 1);
    assert!(additionals.iter().any(|r| r.record_type() == RecordType::SRV));
    assert!(additionals.iter().any(|r| r.record_type() == RecordType::TXT));
    assert!(additionals.iter().any(|r| r.record_type() == RecordType::A));
    assert!(additionals.iter().any(|r| r.record_type() == RecordType::AAAA));
}

#[test]
fn rfc6762_s7_1_known_answer_suppression_fresh() {
    let mut answers = vec![a_record("foo.local.", 120, [1, 2, 3, 4])];
    let mut q = Message::new(0, MessageType::Query);
    q.answers.push(a_record("foo.local.", 120, [1, 2, 3, 4]));
    apply_known_answers(&mut answers, &q);
    assert!(answers.is_empty(), "fresh known-answer must be suppressed");
}

#[test]
fn rfc6762_s7_1_known_answer_keeps_stale() {
    let mut answers = vec![a_record("foo.local.", 120, [1, 2, 3, 4])];
    let mut q = Message::new(0, MessageType::Query);
    q.answers.push(a_record("foo.local.", 30, [1, 2, 3, 4]));
    apply_known_answers(&mut answers, &q);
    assert_eq!(answers.len(), 1, "stale known-answer must NOT suppress");
}

#[test]
fn rfc6762_s7_1_known_answer_suppression_aaaa_fresh() {
    let aaaa = || Record::from_rdata(host("foo.local."), 120, RData::AAAA(LOCALHOST_V6));
    let mut answers = vec![aaaa()];
    let mut q = Message::new(0, MessageType::Query);
    q.answers.push(aaaa());
    apply_known_answers(&mut answers, &q);
    assert!(answers.is_empty(), "fresh AAAA known-answer must be suppressed");
}

#[test]
fn rfc6762_s8_1_probe_detected_via_authority_section() {
    let mut unique = a_record("foo.local.", 120, [1, 2, 3, 4]);
    unique.mdns_cache_flush = true;

    let mut probe = query("foo.local.", RecordType::ANY);
    probe.authorities.push(unique.clone());
    assert!(is_probe_for_us(&probe, &vec![unique.clone()]));

    let plain = query("foo.local.", RecordType::A);
    assert!(!is_probe_for_us(&plain, &vec![unique]));
}

#[test]
fn rfc6762_s8_1_probe_detected_for_aaaa_authority() {
    let mut unique = Record::from_rdata(host("foo.local."), 120, RData::AAAA(LOCALHOST_V6));
    unique.mdns_cache_flush = true;

    let mut probe = query("foo.local.", RecordType::ANY);
    probe.authorities.push(unique.clone());
    assert!(is_probe_for_us(&probe, &vec![unique]));
}

#[test]
fn probes_with_other_data_are_seen() {
    let unique = vec![a_record("foo.local.", 120, [1, 2, 3, 4])];
    let mut probe = query("foo.local.", RecordType::ANY);
    probe.authorities.push(a_record("FOO.local.", 120, [9, 9, 9, 9]));
    assert!(is_probe_for_us(&probe, &unique));

    let mut other_type = query("foo.local.", RecordType::ANY);
    let aaaa = Record::from_rdata(host("foo.local."), 120, RData::AAAA(LOCALHOST_V6));
    other_type.authorities.push(aaaa);
    assert!(!is_probe_for_us(&other_type, &unique));
}

#[test]
fn half_the_lifetime_suppresses_and_less_does_not() {
    let with = |known: u32| {
        let mut answers = vec![a_record("foo.local.", 121, [1, 2, 3, 4])];
        let mut q = Message::new(0, MessageType::Query);
        q.answers.push(a_record("foo.local.", known, [1, 2, 3, 4]));
        apply_known_answers(&mut answers, &q);
        answers.len()
    };
    assert_eq!(with(60), 1);
    assert_eq!(with(61), 0);
    assert_eq!(with(u32::MAX), 0);
}

#[test]
fn additional_records_follow_service_answers_too() {
    let state = printer_state();
    let msg = query("Office-Printer._ipp._tcp.local.", RecordType::SRV);
    let answers = candidate_answers(&state, &msg, &trusted(), &nothing_published());
    assert_eq!(answers.len(), 1);
    let additionals = cached_additionals(&state, &answers, &trusted());
    assert_eq!(additionals.len(), 2);
    assert!(additionals.iter().all(|r| r.name == host("printer.local.")));
    assert!(additionals.iter().all(|r| !r.mdns_cache_flush));
}

#[test]
fn without_answering_from_the_cache_there_are_no_relayed_records() {
    let mut state = printer_state();
    state.config.answer_from_cache = false;
    let msg = query("_ipp._tcp.local.", RecordType::PTR);
    assert!(candidate_answers(&state, &msg, &trusted(), &nothing_published()).is_empty());
    let ptr = Record::from_rdata(
        host("_ipp._tcp.local."),
        4500,
        RData::PTR(host("Office-Printer._ipp._tcp.local.")),
    );
    assert!(cached_additionals(&state, &vec![ptr], &trusted()).is_empty());
}

fn published() -> Published {
    let svcs = vec![ServiceConfig {
        name: "Admin".into(),
        service: "_http._tcp.local.".into(),
        port: 80,
        txt: vec!["path=/".into()],
        host: None,
    }];
    build(host("router.local."), &svcs, &vec![trusted(), iot()]).unwrap()
}

#[test]
fn only_the_address_of_the_interface_is_answered() {
    let state = test_state(vec![trusted(), iot()], true);
    let msg = query("router.local.", RecordType::A);
    let answers = candidate_answers(&state, &msg, &trusted(), &published());
    assert_eq!(answers.len(), 1);
    assert!(answers[0].data == RData::A(Ipv4Addr::new(192, 168, 10, 1)));
    let answers = candidate_answers(&state, &msg, &iot(), &published());
    assert_eq!(answers.len(), 1);
    assert!(answers[0].data == RData::A(Ipv4Addr::new(192, 168, 20, 1)));
}

#[test]
fn a_record_is_answered_once_however_often_it_is_asked_for() {
    let state = test_state(vec![trusted(), iot()], true);
    let mut msg = query("router.local.", RecordType::A);
    msg.queries.push(question("ROUTER.local.", RecordType::ANY));
    let answers = candidate_answers(&state, &msg, &trusted(), &published());
    assert_eq!(answers.len(), 1);
}

#[test]
fn uniqueness_of_answers() {
    let mut a = a_record("a.local.", 120, [1, 2, 3, 4]);
    let b = a_record("b.local.", 120, [1, 2, 3, 4]);
    a.mdns_cache_flush = true;
    assert_eq!(answer_uniqueness(&vec![]), (true, false));
    assert_eq!(answer_uniqueness(&vec![a.clone()]), (true, true));
    assert_eq!(answer_uniqueness(&vec![a, b.clone()]), (false, true));
    assert_eq!(answer_uniqueness(&vec![b]), (false, false));
}

#[test]
fn classes_of_delay() {
    let mut owned = a_record("a.local.", 120, [1, 2, 3, 4]);
    owned.mdns_cache_flush = true;
    let answers = vec![owned];
    let mut msg = query("a.local.", RecordType::A);
    assert_eq!(classify_delay(&msg, &answers, true), DelayClass::ProbeDefense);
    assert_eq!(classify_delay(&msg, &answers, false), DelayClass::UniqueAnswer);
    assert_eq!(classify_delay(&msg, &vec![], false), DelayClass::Shared);
    msg.queries.push(question("b.local.", RecordType::A));
    assert_eq!(classify_delay(&msg, &answers, false), DelayClass::Shared);
    msg.truncation = true;
    assert_eq!(classify_delay(&msg, &answers, false), DelayClass::Truncated);
    assert_eq!(classify_delay(&msg, &answers, true), DelayClass::ProbeDefense);
}

#[test]
fn a_query_is_planned_delayed_and_answered_once_per_second() {
    let state = test_state(vec![trusted(), iot()], true);
    let mut msg = query("router.local.", RecordType::A);
    msg.id = 77;
    let plan = plan_response_at(&state, &msg, &trusted(), &published(), 0).unwrap();
    assert_eq!(plan.class, DelayClass::UniqueAnswer);
    assert!(!plan.probe_defense);
    assert_eq!(plan.answers.len(), 1);
    assert!(plan.additionals.is_empty());

    let mut tracker = MulticastTracker::new();
    let bytes = finish_response_at(&mut tracker, 10, &plan, 0).unwrap();
    let sent = Message::from_vec(&bytes).unwrap();
    assert_eq!(sent.id, 77);
    assert_eq!(sent.message_type, MessageType::Response);
    assert!(sent.authoritative);
    assert_eq!(sent.answers.len(), 1);
    assert!(sent.answers[0].mdns_cache_flush);
    assert_eq!(sent.answers[0].ttl, 120);

    assert!(finish_response_at(&mut tracker, 10, &plan, NANOS_PER_SEC - 1).is_none());
    assert!(finish_response_at(&mut tracker, 20, &plan, NANOS_PER_SEC - 1).is_some());
    assert!(finish_response_at(&mut tracker, 10, &plan, NANOS_PER_SEC).is_some());
}

#[test]
fn probes_are_answered_at_once_and_after_a_quarter_of_a_second() {
    let state = test_state(vec![trusted(), iot()], true);
    let mut msg = query("router.local.", RecordType::ANY);
    msg.authorities.push(a_record("router.local.", 120, [9, 9, 9, 9]));
    let plan = plan_response_at(&state, &msg, &trusted(), &published(), 0).unwrap();
    assert!(plan.probe_defense);
    assert_eq!(plan.class, DelayClass::ProbeDefense);
    let mut tracker = MulticastTracker::new();
    assert!(finish_response_at(&mut tracker, 10, &plan, 0).is_some());
    assert!(finish_response_at(&mut tracker, 10, &plan, 249_999_999).is_none());
    assert!(finish_response_at(&mut tracker, 10, &plan, 250_000_000).is_some());
}

#[test]
fn what_is_not_answered() {
    let state = test_state(vec![trusted(), iot()], true);
    let mut response = query("router.local.", RecordType::A);
    response.message_type = MessageType::Response;
    assert!(plan_response(&state, &response, &trusted(), &published()).is_none());

    let empty = Message::new(0, MessageType::Query);
    assert!(plan_response(&state, &empty, &trusted(), &published()).is_none());

    let unknown = query("nowhere.local.", RecordType::A);
    assert!(plan_response(&state, &unknown, &trusted(), &published()).is_none());

    let mut known = query("router.local.", RecordType::A);
    known.answers.push(a_record("router.local.", 60, [192, 168, 10, 1]));
    assert!(plan_response(&state, &known, &trusted(), &published()).is_none());

    let plain = query("router.local.", RecordType::A);
    let plan = plan_response(&state, &plain, &trusted(), &published()).unwrap();
    let mut tracker = MulticastTracker::new();
    assert!(finish_response(&mut tracker, 10, &plan).is_some());
    assert!(finish_response(&mut tracker, 10, &plan).is_none());
}

#[test]
fn a_response_needs_answers() {
    let extra = a_record("a.local.", 120, [1, 2, 3, 4]);
    assert!(build_response(1, vec![], vec![extra.clone()]).is_none());
    let bytes = build_response(1, vec![extra.clone()], vec![extra]).unwrap();
    let m = Message::from_vec(&bytes).unwrap();
    assert_eq!(m.answers.len(), 1);
    assert_eq!(m.additionals.len(), 1);
}

#[test]
fn relayed_answers_carry_their_additional_records() {
    let state = printer_state();
    let msg = query("_ipp._tcp.local.", RecordType::PTR);
    let plan = plan_response(&state, &msg, &trusted(), &nothing_published()).unwrap();
    assert_eq!(plan.class, DelayClass::Shared);
    assert_eq!(plan.additionals.len(), 4);
    let mut tracker = MulticastTracker::new();
    let bytes = finish_response(&mut tracker, 10, &plan).unwrap();
    let m = Message::from_vec(&bytes).unwrap();
    assert_eq!(m.answers.len(), 1);
    assert_eq!(m.additionals.len(), 4);
    assert_eq!(tracker.len(), 5);
}
