use nmdns::addr::{IpAddr, Ipv4Addr, SocketAddr};
use nmdns::announce::{
    announce_message, build_announce, build_goodbye, build_probe, goodbye_message,
    mark_announced_at, probe_message, probe_names, probe_next, probe_start, probe_wait,
    round_next, round_start, round_wait, ProbeEvent, ProbeState, RoundEvent, RoundState,
    ANNOUNCE_ROUNDS, PROBE_COUNT,
};
use nmdns::browser::{
    browse_names, browse_next, browse_start, next_delay, query_message, BrowseEvent, BrowseState,
};
use nmdns::config::{default_browse, RawConfig, Resolved, ServiceConfig};
use nmdns::daemon::parse_pid;
use nmdns::dns::{Message, MessageType, Name, Question, RData, Record, RecordType, CLASS_IN};
use nmdns::engine::{
    handle_datagram, handle_response_msg, is_mdns_source, sweep, sweep_at, sweep_interval_secs,
    triage, CacheUpdate, MAX_INFLIGHT_HANDLERS,
};
use nmdns::iface::{Datagram, Iface, IfaceV4, IpFamily};
use nmdns::services::{build, Published};
use nmdns::state::State;
use nmdns::timing::{MulticastTracker, ANNOUNCE_GAP, MIN_MULTICAST_INTERVAL, PROBE_INTERVAL};

fn host(name: &str) -> Name {
    Name::from_str(name).unwrap()
}

fn v4(a: u8, b: u8, c: u8, d: u8) -> IpAddr {
    IpAddr::V4(Ipv4Addr::new(a, b, c, d))
}

fn fake_iface(name: &str, ip: [u8; 4], ifindex: u32) -> Iface {
    Iface {
        name: name.into(),
        ifindex,
        v4: Some(IfaceV4 {
            addr: Ipv4Addr::new(ip[0], ip[1], ip[2], ip[3]),
            mask: Ipv4Addr::new(255, 255, 255, 0),
            net: Ipv4Addr::new(ip[0], ip[1], ip[2], 0),
        }),
        v6: None,
    }
}

fn ifaces() -> Vec<Iface> {
    vec![
        fake_iface("eth0", [10, 0, 0, 1], 5),
        fake_iface("eth1", [192, 168, 1, 1], 7),
        fake_iface("eth2", [192, 168, 2, 1], 9),
    ]
}

fn config(repeat: bool, blacklist: &[&str]) -> Resolved {
    Resolved::parse(RawConfig {
        interfaces: vec!["eth0".to_string()],
        repeat,
        answer_from_cache: true,
        blacklist: blacklist.iter().map(|s| s.to_string()).collect(),
        whitelist: vec![],
        hostname: None,
        browse: default_browse(),
        browse_interval_secs: 60,
        cache_tick_secs: 0,
        max_cache_entries: 4096,
        cache_max_ttl_secs: Some(60),
        services: vec![],
    })
    .unwrap()
}

fn state(repeat: bool) -> State {
    State::new(config(repeat, &[]), ifaces())
}

fn published() -> Published {
    let svcs = vec![ServiceConfig {
        name: "Admin".into(),
        service: "_http._tcp.local.".into(),
        port: 80,
        txt: vec![],
        host: None,
    }];
    build(host("router.local."), &svcs, &ifaces()).unwrap()
}

fn source(port: u16) -> SocketAddr {
    SocketAddr { ip: v4(10, 0, 0, 5), port }
}

fn datagram(data: Vec<u8>, ip: IpAddr, port: u16, ifindex: Option<u32>) -> Datagram {
    Datagram {
        data,
        source: SocketAddr { ip, port },
        family: IpFamily::V4,
        recv_ifindex: ifindex,
    }
}

fn query_bytes() -> Vec<u8> {
    let mut m = Message::new(3, MessageType::Query);
    m.queries.push(Question {
        name: host("router.local."),
        qtype: RecordType::A,
        qclass: CLASS_IN,
        unicast_response: false,
    });
    m.to_vec().unwrap()
}

fn a_record(name: &str, ttl: u32, last: u8) -> Record {
    Record::from_rdata(host(name), ttl, RData::A(Ipv4Addr::new(10, 0, 0, last)))
}

#[test]
fn only_port_5353_is_accepted_as_mdns() {
    assert!(is_mdns_source(&source(5353)));
    assert!(
        !is_mdns_source(&source(40000)),
        "an ephemeral source port must be rejected (RFC 6762 §6/§11)"
    );
}

#[test]
fn which_datagrams_are_handled() {
    let c = config(true, &["10.0.0.66/32"]);
    let ifs = ifaces();
    let of = |ip: IpAddr, port: u16, ifindex: Option<u32>| {
        triage(&c, &ifs, &datagram(vec![], ip, port, ifindex))
    };
    assert_eq!(of(v4(10, 0, 0, 5), 5353, Some(7)), Some(Some(1)));
    assert_eq!(of(v4(10, 0, 0, 5), 5353, None), Some(Some(0)));
    assert_eq!(of(v4(8, 8, 8, 8), 5353, None), Some(None));
    assert_eq!(of(v4(10, 0, 0, 5), 5354, Some(7)), None);
    assert_eq!(of(v4(192, 168, 1, 1), 5353, Some(7)), None);
    assert_eq!(of(v4(10, 0, 0, 66), 5353, Some(5)), None);
    let quiet = config(false, &[]);
    assert_eq!(triage(&quiet, &ifs, &datagram(vec![], v4(8, 8, 8, 8), 5353, None)), None);
    assert_eq!(MAX_INFLIGHT_HANDLERS, 256);
}

#[test]
fn queries_are_answered_and_repeated() {
    let mut s = state(true);
    let pkt = datagram(query_bytes(), v4(192, 168, 1, 50), 5353, Some(7));
    let h = handle_datagram(&mut s, &published(), &pkt).unwrap();
    assert_eq!(h.recv_idx, Some(1));
    assert_eq!(h.targets, vec![0, 2]);
    assert!(h.update.is_none());
    let plan = h.response.unwrap();
    assert_eq!(plan.id, 3);
    assert!(plan.answers[0].data == RData::A(Ipv4Addr::new(192, 168, 1, 1)));
    assert!(s.cache.is_empty());
}

#[test]
fn responses_are_cached_with_their_interface() {
    let mut s = state(false);
    let mut m = Message::new(0, MessageType::Response);
    m.answers.push(a_record("a.local.", 4500, 1));
    m.authorities.push(a_record("b.local.", 120, 2));
    m.additionals.push(a_record("a.local.", 120, 1));
    m.additionals.push(a_record("c.local.", 0, 3));
    m.additionals.push(a_record("b.local.", 0, 2));
    let pkt = datagram(m.to_vec().unwrap(), v4(10, 0, 0, 50), 5353, Some(5));
    let h = handle_datagram(&mut s, &published(), &pkt).unwrap();
    assert_eq!(
        h.update,
        Some(CacheUpdate { inserted: 2, refreshed: 1, goodbyes: 1, rejected: 0 })
    );
    assert!(h.response.is_none());
    assert!(h.targets.is_empty());
    assert_eq!(s.cache.len(), 1);
    assert_eq!(s.cache.lookup(&host("a.local."), RecordType::A)[0].ttl, 60);
    assert!(s.cache.lookup_from_other_ifaces(&host("a.local."), RecordType::A, 5).is_empty());
    assert_eq!(s.cache.lookup_from_other_ifaces(&host("a.local."), RecordType::A, 7).len(), 1);
}

#[test]
fn what_is_no_message_is_still_repeated() {
    let mut s = state(true);
    let pkt = datagram(vec![1, 2, 3], v4(192, 168, 1, 50), 5353, Some(7));
    let h = handle_datagram(&mut s, &published(), &pkt).unwrap();
    assert!(h.response.is_none());
    assert!(h.update.is_none());
    assert_eq!(h.targets, vec![0, 2]);
    let foreign = datagram(query_bytes(), v4(192, 168, 1, 50), 40000, Some(7));
    assert!(handle_datagram(&mut s, &published(), &foreign).is_none());
}

#[test]
fn queries_without_a_known_interface_are_not_answered() {
    let mut s = state(true);
    let pkt = datagram(query_bytes(), v4(8, 8, 8, 8), 5353, None);
    let h = handle_datagram(&mut s, &published(), &pkt).unwrap();
    assert_eq!(h.recv_idx, None);
    assert!(h.response.is_none());
    assert!(h.targets.is_empty());
}

#[test]
fn responses_update_a_cache_directly() {
    let mut s = state(false);
    let mut m = Message::new(0, MessageType::Response);
    m.answers.push(a_record("a.local.", 120, 1));
    let u = handle_response_msg(&mut s.cache, &m, None);
    assert_eq!(u, CacheUpdate { inserted: 1, refreshed: 0, goodbyes: 0, rejected: 0 });
    let u = handle_response_msg(&mut s.cache, &m, Some(5));
    assert_eq!(u, CacheUpdate { inserted: 0, refreshed: 1, goodbyes: 0, rejected: 0 });
}

#[test]
fn sweeping_clears_the_cache_and_the_rate_limiter() {
    let mut s = state(false);
    s.cache.insert_from_at(a_record("a.local.", 1, 1), None, 0);
    s.cache.insert_from_at(a_record("b.local.", 50, 2), None, 0);
    s.mc_tracker.mark_at(5, &a_record("a.local.", 1, 1), 0);
    assert_eq!(sweep_at(&mut s, 1_000_000_000, MIN_MULTICAST_INTERVAL), 1);
    assert_eq!(s.cache.len(), 1);
    assert!(s.mc_tracker.is_empty());
    assert_eq!(sweep(&mut s), 0);
    assert_eq!(sweep_interval_secs(&s.config), 1);
    s.config.cache_tick_secs = 5;
    assert_eq!(sweep_interval_secs(&s.config), 5);
}

#[test]
fn announcements_hold_all_records_of_the_interface() {
    let p = published();
    let ifs = ifaces();
    let m = announce_message(&p, &ifs[1]);
    assert_eq!(m.message_type, MessageType::Response);
    assert!(m.authoritative);
    assert_eq!(m.id, 0);
    let types: Vec<RecordType> = m.answers.iter().map(|r| r.record_type()).collect();
    assert_eq!(
        types,
        vec![RecordType::A, RecordType::PTR, RecordType::PTR, RecordType::SRV, RecordType::TXT]
    );
    assert!(m.answers[0].data == RData::A(Ipv4Addr::new(192, 168, 1, 1)));
    let sent = Message::from_vec(&build_announce(&p, &ifs[1]).unwrap()).unwrap();
    assert_eq!(sent.answers.len(), 5);

    let none = build(host("router.local."), &vec![], &vec![]).unwrap();
    assert!(build_announce(&none, &ifs[0]).is_none());
    assert!(build_goodbye(&none).is_none());
}

#[test]
fn goodbyes_are_sent_for_all_interfaces_at_once() {
    let p = published();
    let m = goodbye_message(&p);
    assert_eq!(m.answers.len(), 7);
    assert!(m.answers.iter().all(|r| r.ttl == 0));
    for iface in &ifaces() {
        for r in &announce_message(&p, iface).answers {
            assert!(m.answers.iter().any(|g| g == r));
        }
    }
    let sent = Message::from_vec(&build_goodbye(&p).unwrap()).unwrap();
    assert_eq!(sent.answers.len(), 7);
    assert!(sent.authoritative);
}

#[test]
fn announced_records_are_not_answered_within_a_second() {
    let p = published();
    let ifs = ifaces();
    let mut t = MulticastTracker::new();
    mark_announced_at(&mut t, &p, &ifs[0], 100);
    assert_eq!(t.len(), 3);
    for r in p.unique_for_iface(&ifs[0]) {
        assert!(!t.allows_at(5, &r, MIN_MULTICAST_INTERVAL, 100 + MIN_MULTICAST_INTERVAL - 1));
        assert!(t.allows_at(5, &r, MIN_MULTICAST_INTERVAL, 100 + MIN_MULTICAST_INTERVAL));
        assert!(t.allows_at(7, &r, MIN_MULTICAST_INTERVAL, 100));
    }
}

#[test]
fn probes_ask_for_each_name_once() {
    let p = published();
    let ifs = ifaces();
    let unique = p.unique_for_iface(&ifs[0]);
    assert_eq!(unique.len(), 3);
    assert_eq!(probe_names(&unique).len(), 2);
    let m = probe_message(9, unique);
    assert_eq!(m.id, 9);
    assert_eq!(m.message_type, MessageType::Query);
    assert_eq!(m.queries.len(), 2);
    assert!(m.queries.iter().all(|q| q.qtype == RecordType::ANY && q.unicast_response));
    assert!(m.queries[0].name == host("router.local."));
    assert_eq!(m.authorities.len(), 3);
    let sent = Message::from_vec(&build_probe(&p, &ifs[0]).unwrap()).unwrap();
    assert_eq!(sent.queries.len(), 2);
    assert_eq!(sent.authorities.len(), 3);
    assert!(sent.authorities.iter().all(|r| r.mdns_cache_flush));
    let ids: Vec<u16> = (0..20)
        .map(|_| Message::from_vec(&build_probe(&p, &ifs[0]).unwrap()).unwrap().id)
        .collect();
    assert!(ids.iter().any(|id| *id != ids[0]));
}

#[test]
fn three_probes_go_out_on_each_interface_that_needs_them() {
    let wanted = vec![false, true, false, true];
    let mut state = probe_start(&wanted);
    let mut sent: Vec<(usize, u8)> = vec![];
    let mut gaps: u32 = 0;
    while state != ProbeState::Done {
        match state {
            ProbeState::Jitter { .. } => assert!(probe_wait(state).unwrap() <= 250_000_000),
            ProbeState::Gap { .. } => {
                assert_eq!(probe_wait(state), Some(PROBE_INTERVAL));
                gaps += 1;
            }
            ProbeState::Send { iface, probe } => {
                assert_eq!(probe_wait(state), None);
                sent.push((iface, probe));
            }
            ProbeState::Done => unreachable!(),
        }
        state = probe_next(&wanted, state, ProbeEvent::Proceed);
    }
    assert_eq!(sent, vec![(1, 1), (1, 2), (1, 3), (3, 1), (3, 2), (3, 3)]);
    assert_eq!(gaps, 4);
    assert_eq!(PROBE_COUNT, 3);
    assert_eq!(probe_start(&vec![false]), ProbeState::Done);
}

#[test]
fn a_failed_probe_ends_the_interface() {
    let wanted = vec![true, true];
    let state = ProbeState::Send { iface: 0, probe: 1 };
    assert_eq!(
        probe_next(&wanted, state, ProbeEvent::SendFailed),
        ProbeState::Jitter { iface: 1 }
    );
    let state = ProbeState::Send { iface: 1, probe: 2 };
    assert_eq!(probe_next(&wanted, state, ProbeEvent::SendFailed), ProbeState::Done);
}

#[test]
fn announcements_go_out_in_two_rounds() {
    let mut state = round_start(2);
    let mut sent: Vec<(u8, usize)> = vec![];
    let mut waits: u32 = 0;
    while state != RoundState::Done {
        match state {
            RoundState::Send { round, iface } => {
                assert_eq!(round_wait(state), None);
                sent.push((round, iface));
            }
            RoundState::Gap { .. } => {
                assert_eq!(round_wait(state), Some(ANNOUNCE_GAP));
                waits += 1;
            }
            RoundState::Done => unreachable!(),
        }
        state = round_next(2, state, RoundEvent::Proceed);
    }
    assert_eq!(sent, vec![(0, 0), (0, 1), (1, 0), (1, 1)]);
    assert_eq!(waits, 1);
    assert_eq!(ANNOUNCE_ROUNDS, 2);
    assert_eq!(round_start(0), RoundState::Gap { round: 0 });
    assert_eq!(round_next(0, RoundState::Gap { round: 0 }, RoundEvent::Proceed), RoundState::Done);
    assert_eq!(
        round_next(2, RoundState::Gap { round: 0 }, RoundEvent::Cancelled),
        RoundState::Done
    );
}

#[test]
fn rfc6762_s5_2_browser_exponential_backoff() {
    let cap: u64 = 60;
    let mut d: u64 = 1;
    let expected = [1, 2, 4, 8, 16, 32, 60, 60, 60];
    for &want in &expected {
        assert_eq!(d, want);
        d = next_delay(d, cap);
    }
}

#[test]
fn browsing_waits_longer_and_longer() {
    let mut state = browse_start(1);
    assert_eq!(state, BrowseState::FirstWait);
    let mut waits: Vec<u64> = vec![];
    for _ in 0..18 {
        state = browse_next(state, BrowseEvent::Proceed, 60);
        if let BrowseState::Wait { delay } = state {
            waits.push(delay);
        }
    }
    assert_eq!(waits, vec![1, 2, 4, 8, 16, 32, 60, 60, 60]);
    assert_eq!(browse_next(state, BrowseEvent::Cancelled, 60), BrowseState::Done);
    assert_eq!(browse_start(0), BrowseState::Done);
    let wait = BrowseState::Wait { delay: 1 };
    assert_eq!(browse_next(wait, BrowseEvent::Proceed, 0), BrowseState::Query { delay: 1 });
    assert_eq!(next_delay(u64::MAX, u64::MAX), u64::MAX);
}

#[test]
fn browse_targets_that_are_no_names_are_skipped() {
    let browse = vec!["_http._tcp.local.".to_string(), "a..b.".to_string(), "_x.local.".to_string()];
    let names = browse_names(&browse);
    assert_eq!(names.len(), 2);
    let m = query_message(&names);
    assert_eq!(m.id, 0);
    assert_eq!(m.queries.len(), 2);
    assert!(m.queries.iter().all(|q| q.qtype == RecordType::PTR && !q.unicast_response));
    assert!(m.queries[1].name == host("_x.local."));
    let sent = Message::from_vec(&m.to_vec().unwrap()).unwrap();
    assert_eq!(sent.queries.len(), 2);
}

#[test]
fn pidfiles_hold_a_number_in_white_space() {
    assert_eq!(parse_pid("1234"), Some(1234));
    assert_eq!(parse_pid(" \t+42\r\n\u{a0}\u{3000}"), Some(42));
    assert_eq!(parse_pid("-7\n"), Some(-7));
    assert_eq!(parse_pid("-2147483648"), Some(-2147483648));
    assert_eq!(parse_pid("2147483647"), Some(2147483647));
    assert_eq!(parse_pid("2147483648"), None);
    assert_eq!(parse_pid("-2147483649"), None);
    assert_eq!(parse_pid(""), None);
    assert_eq!(parse_pid("-"), None);
    assert_eq!(parse_pid("12 34"), None);
    assert_eq!(parse_pid("12a"), None);
}
