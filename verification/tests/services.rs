use nmdns::addr::{Ipv4Addr, Ipv6Addr};
use nmdns::cache::Cache;
use nmdns::config::ServiceConfig;
use nmdns::dns::{Name, RData, RecordType, CLASS_IN};
use nmdns::iface::{ipv6_net, Iface, IfaceV4, IfaceV6};
use nmdns::services::{
    build, goodbye, resolve_hostname, resolve_hostname_from, validate, Published, ServiceError,
    TTL_HOST, TTL_SERVICE,
};

const IP6_A: Ipv6Addr = Ipv6Addr { bits: 0xfe80_0000_0000_0000_0000_0000_0000_0001 };
const IP6_B: Ipv6Addr = Ipv6Addr { bits: 0xfe80_0000_0000_0000_0000_0000_0000_0002 };
const LOCALHOST_V6: Ipv6Addr = Ipv6Addr { bits: 1 };

fn host(name: &str) -> Name {
    Name::from_str(name).unwrap()
}

fn fake_iface_dual(
    name: &str,
    v4: Option<([u8; 4], [u8; 4])>,
    v6: Option<(Ipv6Addr, u8)>,
    ifindex: u32,
) -> Iface {
    let addr = |a: [u8; 4]| Ipv4Addr::new(a[0], a[1], a[2], a[3]);
    Iface {
        name: name.into(),
        ifindex,
        v4: v4.map(|(ip, mask)| IfaceV4 {
            addr: addr(ip),
            mask: addr(mask),
            net: Ipv4Addr { bits: addr(ip).bits & addr(mask).bits },
        }),
        v6: v6.map(|(addr, prefix_len)| IfaceV6 {
            addr,
            prefix_len,
            net: ipv6_net(addr, prefix_len),
            scope_id: ifindex,
        }),
    }
}

fn fake_iface(name: &str, ip: [u8; 4], mask: [u8; 4], ifindex: u32) -> Iface {
    fake_iface_dual(name, Some((ip, mask)), None, ifindex)
}

fn fake_iface_v6(name: &str, ip: Ipv6Addr, prefix_len: u8, ifindex: u32) -> Iface {
    fake_iface_dual(name, None, Some((ip, prefix_len)), ifindex)
}

fn service(name: &str, service: &str, port: u16, txt: &[&str]) -> ServiceConfig {
    ServiceConfig {
        name: name.into(),
        service: service.into(),
        port,
        txt: txt.iter().map(|s| s.to_string()).collect(),
        host: None,
    }
}

fn build_published(host_name: &str, ifaces: &Vec<Iface>) -> Published {
    let svcs = vec![
        service("Admin", "_http._tcp.local.", 80, &["path=/"]),
        service("SSH", "_ssh._tcp.local.", 22, &[]),
    ];
    build(host(host_name), &svcs, ifaces).expect("build")
}

fn eth0() -> Vec<Iface> {
    vec![fake_iface("eth0", [10, 0, 0, 1], [255, 255, 255, 0], 1)]
}

fn published_with_one_service() -> Published {
    let svcs = vec![service("Admin", "_http._tcp.local.", 80, &["path=/"])];
    build(host("router.local."), &svcs, &eth0()).unwrap()
}

fn published_with_ipv6_host() -> Published {
    build(host("router.local."), &vec![], &vec![fake_iface_v6("test0", IP6_A, 64, 0)]).unwrap()
}

#[test]
fn build_publishes_host_a_and_services() {
    let h = host("router.local.");
    let p = published_with_one_service();
    assert_eq!(p.host_a.len(), 1);
    assert_eq!(p.services.len(), 1);

    let ans = p.answer(&h, RecordType::ANY);
    assert!(ans.iter().any(|r| r.record_type() == RecordType::A));

    let svc_type = host("_http._tcp.local.");
    let ans = p.answer(&svc_type, RecordType::PTR);
    assert_eq!(ans.len(), 1);
}

#[test]
fn goodbye_zeroes_ttl() {
    let p = build(host("r.local."), &vec![], &eth0()).unwrap();
    let g = goodbye(&p);
    assert!(g.iter().all(|r| r.ttl == 0));
}

#[test]
fn services_build_emits_host_a_per_iface() {
    let ifs = vec![
        fake_iface("eth0", [10, 0, 0, 1], [255, 255, 255, 0], 1),
        fake_iface("eth1", [192, 168, 1, 1], [255, 255, 255, 0], 2),
    ];
    let p = build_published("router.local.", &ifs);
    assert_eq!(p.host_a.len(), 2);
    assert_eq!(p.services.len(), 2);
}

#[test]
fn services_build_emits_host_aaaa_per_ipv6_iface() {
    let ifs = vec![fake_iface_v6("eth0", IP6_A, 64, 1), fake_iface_v6("eth1", IP6_B, 64, 2)];
    let p = build_published("router.local.", &ifs);
    assert!(p.host_a.is_empty());
    assert_eq!(p.host_aaaa.len(), 2);
    assert!(p.host_aaaa.iter().all(|r| r.mdns_cache_flush));
}

#[test]
fn services_build_with_mixed_ipv4_ipv6_ifaces() {
    let ifs = vec![
        fake_iface("eth0", [10, 0, 0, 1], [255, 255, 255, 0], 1),
        fake_iface_v6("eth1", IP6_A, 64, 2),
        fake_iface_dual(
            "eth2",
            Some(([192, 168, 1, 1], [255, 255, 255, 0])),
            Some((IP6_B, 64)),
            3,
        ),
    ];
    let p = build_published("router.local.", &ifs);
    assert_eq!(p.host_a.len(), 2);
    assert_eq!(p.host_aaaa.len(), 2);
}

#[test]
fn services_answer_any_for_hostname_returns_all_a() {
    let p = build_published("router.local.", &eth0());
    let ans = p.answer(&host("router.local."), RecordType::ANY);
    assert!(ans.iter().any(|r| r.record_type() == RecordType::A));
}

#[test]
fn services_answer_aaaa_query_returns_only_aaaa() {
    let p = build_published("router.local.", &vec![fake_iface_v6("eth0", IP6_A, 64, 1)]);
    let ans = p.answer(&host("router.local."), RecordType::AAAA);
    assert_eq!(ans.len(), 1);
    assert_eq!(ans[0].record_type(), RecordType::AAAA);
}

#[test]
fn services_answer_a_query_returns_only_a() {
    let p = build_published("router.local.", &eth0());
    let ans = p.answer(&host("router.local."), RecordType::A);
    assert_eq!(ans.len(), 1);
    assert_eq!(ans[0].record_type(), RecordType::A);
}

#[test]
fn services_answer_ptr_for_service_type_returns_instance() {
    let p = build_published("router.local.", &eth0());
    let ans = p.answer(&host("_http._tcp.local."), RecordType::PTR);
    assert_eq!(ans.len(), 1);
    assert_eq!(ans[0].record_type(), RecordType::PTR);
    if let RData::PTR(name) = &ans[0].data {
        let s = name.to_string().to_ascii_lowercase();
        assert!(s.contains("admin"), "got {s}");
        assert!(s.contains("_http._tcp.local."), "got {s}");
    } else {
        panic!("expected PTR rdata");
    }
}

#[test]
fn services_answer_ptr_for_meta_returns_service_types() {
    let p = build_published("router.local.", &eth0());
    let meta = host("_services._dns-sd._udp.local.");
    let ans = p.answer(&meta, RecordType::PTR);
    assert_eq!(ans.len(), 2);
}

#[test]
fn services_answer_srv_and_txt_for_instance() {
    let p = build_published("router.local.", &eth0());
    let inst = host("Admin._http._tcp.local.");
    let srv = p.answer(&inst, RecordType::SRV);
    assert_eq!(srv.len(), 1);
    if let RData::SRV { port, .. } = &srv[0].data {
        assert_eq!(*port, 80);
    } else {
        panic!("expected SRV");
    }
    let txt = p.answer(&inst, RecordType::TXT);
    assert_eq!(txt.len(), 1);
    if let RData::TXT(strings) = &txt[0].data {
        let entries: Vec<String> =
            strings.iter().map(|s| String::from_utf8_lossy(s).into_owned()).collect();
        assert!(entries.iter().any(|s| s == "path=/"));
    } else {
        panic!("expected TXT");
    }
}

#[test]
fn services_empty_txt_emits_zero_length_string() {
    let p = build_published("router.local.", &eth0());
    let inst = host("SSH._ssh._tcp.local.");
    let txt = p.answer(&inst, RecordType::TXT);
    assert_eq!(txt.len(), 1);
    if let RData::TXT(parts) = &txt[0].data {
        assert_eq!(parts.len(), 1);
        assert!(parts[0].is_empty());
    } else {
        panic!("expected TXT");
    }
}

#[test]
fn services_unrelated_query_returns_nothing() {
    let p = build_published("router.local.", &eth0());
    let ans = p.answer(&host("nowhere.local."), RecordType::ANY);
    assert!(ans.is_empty());
}

#[test]
fn services_host_a_for_filters_by_address() {
    let ifs = vec![
        fake_iface("eth0", [10, 0, 0, 1], [255, 255, 255, 0], 1),
        fake_iface("eth1", [192, 168, 1, 1], [255, 255, 255, 0], 2),
    ];
    let p = build_published("router.local.", &ifs);
    let only = p.host_a_for(Ipv4Addr::new(10, 0, 0, 1));
    assert_eq!(only.len(), 1);
    if let RData::A(a) = &only[0].data {
        assert_eq!(*a, Ipv4Addr::new(10, 0, 0, 1));
    } else {
        panic!("expected A");
    }
    assert!(p.host_a_for(Ipv4Addr::new(8, 8, 8, 8)).is_empty());
}

#[test]
fn services_host_aaaa_for_filters_by_address() {
    let ifs = vec![fake_iface_v6("eth0", IP6_A, 64, 1), fake_iface_v6("eth1", IP6_B, 64, 2)];
    let p = build_published("router.local.", &ifs);
    let only = p.host_aaaa_for(IP6_A);
    assert_eq!(only.len(), 1);
    if let RData::AAAA(a) = &only[0].data {
        assert_eq!(*a, IP6_A);
    } else {
        panic!("expected AAAA");
    }
    assert!(p.host_aaaa_for(LOCALHOST_V6).is_empty());
}

#[test]
fn services_goodbye_zeroes_every_ttl() {
    let p = build_published("router.local.", &eth0());
    let g = goodbye(&p);
    assert!(!g.is_empty());
    assert!(g.iter().all(|r| r.ttl == 0));
}

#[test]
fn services_resolve_hostname_uses_explicit_override() {
    let n = resolve_hostname(&Some("custom".into()));
    assert_eq!(n.to_string(), "custom.local.");
}

#[test]
fn services_resolve_hostname_strips_trailing_domain() {
    let n = resolve_hostname(&Some("router.lan.example".into()));
    assert_eq!(n.to_string(), "router.local.");
}

#[test]
fn rfc6762_s3_hostname_ends_in_local() {
    let h = resolve_hostname(&Some("myhost".into()));
    assert!(h.to_string().ends_with(".local."), "got {}", h.to_string());
    assert!(h.is_fqdn());

    let h = resolve_hostname(&Some("foo.example.com".into()));
    assert_eq!(h.to_string(), "foo.local.");
}

#[test]
fn rfc6762_s10_1_goodbye_records_have_ttl_zero() {
    let p = published_with_one_service();
    let g = goodbye(&p);
    assert!(!g.is_empty(), "goodbye records must be produced");
    for r in &g {
        assert_eq!(r.ttl, 0, "goodbye record {} has TTL {}", r.name.to_string(), r.ttl);
    }
    assert!(g.iter().any(|r| r.record_type() == RecordType::A));
    assert!(g.iter().any(|r| r.record_type() == RecordType::PTR));
    assert!(g.iter().any(|r| r.record_type() == RecordType::SRV));
    assert!(g.iter().any(|r| r.record_type() == RecordType::TXT));
}

#[test]
fn rfc6762_s10_1_goodbye_includes_aaaa_records() {
    let p = published_with_ipv6_host();
    let g = goodbye(&p);
    assert!(g.iter().any(|r| r.record_type() == RecordType::AAAA));
    assert!(g.iter().all(|r| r.ttl == 0));
}

#[test]
fn rfc6762_s10_2_cache_flush_bit_on_unique_only() {
    let p = published_with_one_service();
    for r in &p.host_a {
        assert!(r.mdns_cache_flush, "host A {} must have cache-flush", r.name.to_string());
    }
    for s in &p.services {
        assert!(s.srv.mdns_cache_flush, "SRV must have cache-flush");
        assert!(s.txt.mdns_cache_flush, "TXT must have cache-flush");
        assert!(
            !s.ptr_type_to_instance.mdns_cache_flush,
            "type-to-instance PTR is shared, must not have cache-flush"
        );
        assert!(
            !s.ptr_meta_to_type.mdns_cache_flush,
            "_services._dns-sd PTR is shared, must not have cache-flush"
        );
    }
}

#[test]
fn rfc6762_s10_2_cache_flush_bit_on_host_aaaa() {
    let p = published_with_ipv6_host();
    assert_eq!(p.host_aaaa.len(), 1);
    assert!(p.host_aaaa[0].mdns_cache_flush);
}

#[test]
fn records_of_a_service_in_full() {
    let p = published_with_one_service();
    let s = &p.services[0];
    let inst = host("_http._tcp.local.");
    assert!(s.service_type == inst);
    assert_eq!(s.instance_name.to_string(), "Admin._http._tcp.local.");
    assert_eq!(s.ptr_type_to_instance.ttl, TTL_SERVICE);
    assert_eq!(s.ptr_meta_to_type.ttl, TTL_SERVICE);
    assert_eq!(s.srv.ttl, TTL_HOST);
    assert_eq!(s.txt.ttl, TTL_SERVICE);
    assert_eq!(TTL_HOST, 120);
    assert_eq!(TTL_SERVICE, 4500);
    assert_eq!(s.ptr_meta_to_type.name.to_string(), "_services._dns-sd._udp.local.");
    assert!(s.ptr_meta_to_type.data == RData::PTR(host("_http._tcp.local.")));
    assert!(
        s.srv.data
            == RData::SRV { priority: 0, weight: 0, port: 80, target: host("router.local.") }
    );
    assert!(s.txt.data == RData::TXT(vec![b"path=/".to_vec()]));
    assert_eq!(s.srv.dns_class, CLASS_IN);
}

#[test]
fn instance_labels_may_hold_any_text() {
    let svcs = vec![service("Büro / 2. Stock", "_http._tcp.local.", 80, &[])];
    let p = build(host("router.local."), &svcs, &eth0()).unwrap();
    let mut labels = vec!["Büro / 2. Stock".as_bytes().to_vec()];
    labels.extend([b"_http".to_vec(), b"_tcp".to_vec(), b"local".to_vec()]);
    assert!(p.services[0].instance_name == Name::from_labels(&labels).unwrap());
    assert_eq!(p.services[0].instance_name.num_labels(), 4);
}

#[test]
fn a_service_may_point_at_another_host() {
    let mut sc = service("Admin", "_http._tcp.local.", 80, &[]);
    sc.host = Some("elsewhere.local.".into());
    let p = build(host("router.local."), &vec![sc], &eth0()).unwrap();
    match &p.services[0].srv.data {
        RData::SRV { target, .. } => assert!(*target == host("elsewhere.local.")),
        other => panic!("{other:?}"),
    }
}

#[test]
fn every_reason_why_a_service_is_refused() {
    let h = host("router.local.");
    let long = "x".repeat(64);
    let type_of = |n: usize| format!("{}_tcp.local.", "_abcdefghijklmnopqrstuvwxyz012345.".repeat(n));

    let svcs = vec![service("Admin", "a..b.", 80, &[])];
    assert!(matches!(validate(&h, &svcs), Err(ServiceError::BadServiceType(s, _)) if s == "a..b."));

    let svcs = vec![service("", "_http._tcp.local.", 80, &[])];
    assert!(matches!(validate(&h, &svcs), Err(ServiceError::BadInstanceName(s, _)) if s.is_empty()));

    let svcs = vec![service(&long, "_http._tcp.local.", 80, &[])];
    assert!(matches!(validate(&h, &svcs), Err(ServiceError::BadInstanceName(s, _)) if s == long));

    let svcs = vec![service(&long[..63], &type_of(6), 80, &[])];
    assert!(matches!(
        validate(&h, &svcs),
        Err(ServiceError::BadInstanceCompose(n, t, _)) if n == long[..63] && t == type_of(6)
    ));

    let mut sc = service("Admin", "_http._tcp.local.", 80, &[]);
    sc.host = Some("a..b.".into());
    assert!(matches!(validate(&h, &vec![sc]), Err(ServiceError::BadHost(s, _)) if s == "a..b."));

    assert!(validate(&h, &vec![service(&long[..63], "_http._tcp.local.", 80, &[])]).is_ok());
}

#[test]
fn building_fails_as_validation_does() {
    let svcs = vec![
        service("Admin", "_http._tcp.local.", 80, &[]),
        service("", "_http._tcp.local.", 80, &[]),
        service("x", "a..b.", 80, &[]),
    ];
    assert!(matches!(
        build(host("router.local."), &svcs, &eth0()),
        Err(ServiceError::BadInstanceName(s, _)) if s.is_empty()
    ));
    assert!(matches!(
        validate(&host("router.local."), &svcs),
        Err(ServiceError::BadInstanceName(s, _)) if s.is_empty()
    ));
}

#[test]
fn unique_records_of_an_interface() {
    let ifs = vec![
        fake_iface("eth0", [10, 0, 0, 1], [255, 255, 255, 0], 1),
        fake_iface_dual(
            "eth1",
            Some(([192, 168, 1, 1], [255, 255, 255, 0])),
            Some((IP6_A, 64)),
            2,
        ),
    ];
    let p = build_published("router.local.", &ifs);
    assert_eq!(p.host_records_for_iface(&ifs[0]).len(), 1);
    assert_eq!(p.host_records_for_iface(&ifs[1]).len(), 2);
    assert_eq!(p.unique_service_records().len(), 4);
    let unique = p.unique_for_iface(&ifs[1]);
    assert_eq!(unique.len(), 6);
    assert!(unique.iter().all(|r| r.mdns_cache_flush));
    assert_eq!(unique[0].record_type(), RecordType::A);
    assert_eq!(unique[1].record_type(), RecordType::AAAA);
    assert_eq!(unique[2].record_type(), RecordType::SRV);
    assert_eq!(unique[3].record_type(), RecordType::TXT);
}

#[test]
fn host_names_that_cannot_be_read_fall_back_to_router() {
    assert_eq!(resolve_hostname(&Some("".into())).to_string(), "router.local.");
    assert_eq!(resolve_hostname(&Some("a b".into())).to_string(), "router.local.");
    assert_eq!(resolve_hostname_from(&None, &None).to_string(), "router.local.");
    assert_eq!(resolve_hostname_from(&None, &Some("box.lan".into())).to_string(), "box.local.");
    assert_eq!(
        resolve_hostname_from(&Some("own".into()), &Some("box".into())).to_string(),
        "own.local."
    );
}

#[test]
fn the_system_name_gives_a_local_name() {
    let n = resolve_hostname(&None);
    assert!(n.is_fqdn());
    assert!(n.to_string().ends_with("local."));
}

#[test]
fn a_peer_forgets_what_was_announced_when_it_hears_the_goodbye() {
    let p = published_with_one_service();
    let mut peer = Cache::new();
    for r in p.unique_for_iface(&eth0()[0]) {
        peer.insert(r);
    }
    peer.insert(p.services[0].ptr_type_to_instance.clone());
    peer.insert(p.services[0].ptr_meta_to_type.clone());
    assert_eq!(peer.len(), 5);
    for r in goodbye(&p) {
        peer.insert(r);
    }
    assert!(peer.is_empty());
}
