use nmdns::addr::{IpAddr, Ipv4Addr, Ipv6Addr, SocketAddr};
use nmdns::iface::{
    discover, iface_addrs, ipv6_net, ipv6_prefix_len, mdns_sockaddr_v4, mdns_sockaddr_v6, setup,
    tally_sends, AddrEntry, Datagram, Iface, IfaceV4, IfaceV6, IpFamily, MulticastTarget,
    SetupStep, SystemAddr, MAX_PACKET, MDNS_ADDR, MDNS_ADDR_V4, MDNS_ADDR_V6, MDNS_PORT,
};
use nmdns::repeater::{forward_targets, identify_recv_iface};

fn fake_iface(name: &str, ip: [u8; 4], mask: [u8; 4], ifindex: u32) -> Iface {
    let addr = |a: [u8; 4]| Ipv4Addr::new(a[0], a[1], a[2], a[3]);
    Iface {
        name: name.into(),
        ifindex,
        v4: Some(IfaceV4 {
            addr: addr(ip),
            mask: addr(mask),
            net: Ipv4Addr { bits: addr(ip).bits & addr(mask).bits },
        }),
        v6: None,
    }
}

fn fake_iface_v6(name: &str, ip: Ipv6Addr, prefix_len: u8, ifindex: u32) -> Iface {
    Iface {
        name: name.into(),
        ifindex,
        v4: None,
        v6: Some(IfaceV6 {
            addr: ip,
            prefix_len,
            net: ipv6_net(ip, prefix_len),
            scope_id: ifindex,
        }),
    }
}

fn v4(a: u8, b: u8, c: u8, d: u8) -> IpAddr {
    IpAddr::V4(Ipv4Addr::new(a, b, c, d))
}

fn datagram(src: [u8; 4], ifindex: Option<u32>) -> Datagram {
    Datagram {
        data: vec![0u8; 8],
        source: SocketAddr { ip: v4(src[0], src[1], src[2], src[3]), port: 5353 },
        family: IpFamily::V4,
        recv_ifindex: ifindex,
    }
}

fn datagram_v6(src: Ipv6Addr, ifindex: Option<u32>) -> Datagram {
    Datagram {
        data: vec![0u8; 8],
        source: SocketAddr { ip: IpAddr::V6(src), port: 5353 },
        family: IpFamily::V6,
        recv_ifindex: ifindex,
    }
}

fn two_ifaces() -> Vec<Iface> {
    vec![
        fake_iface("eth0", [10, 0, 0, 1], [255, 255, 255, 0], 5),
        fake_iface("eth1", [192, 168, 1, 1], [255, 255, 255, 0], 7),
    ]
}

#[test]
fn repeater_identify_recv_iface_via_pktinfo() {
    let pkt = datagram([10, 0, 0, 99], Some(7));
    assert_eq!(identify_recv_iface(&pkt, &two_ifaces()), Some(1));
}

#[test]
fn repeater_identify_recv_iface_via_subnet_fallback() {
    let pkt = datagram([192, 168, 1, 50], None);
    assert_eq!(identify_recv_iface(&pkt, &two_ifaces()), Some(1));
}

#[test]
fn repeater_identify_recv_iface_ipv6_link_local_requires_pktinfo() {
    let ip6_a = Ipv6Addr::from_bits(0xfe80_0000_0000_0000_0000_0000_0000_0001u128);
    let ip6_b = Ipv6Addr::from_bits(0xfe80_0000_0000_0000_0000_0000_0000_0002u128);
    let ifs = vec![fake_iface_v6("eth0", ip6_a, 64, 5), fake_iface_v6("eth1", ip6_b, 64, 7)];
    let src = Ipv6Addr::from_bits(0xfe80_0000_0000_0000_0000_0000_0000_0050u128);
    assert!(
        identify_recv_iface(&datagram_v6(src, None), &ifs).is_none(),
        "link-local v6 source without PKTINFO must not be guessed"
    );
    assert_eq!(
        identify_recv_iface(&datagram_v6(src, Some(7)), &ifs),
        Some(1),
        "PKTINFO ifindex still resolves the arrival iface"
    );
}

#[test]
fn repeater_forward_targets_skip_recv_iface() {
    let src = v4(10, 0, 0, 99);
    assert_eq!(forward_targets(Some(0), src, &two_ifaces()), vec![1]);
}

#[test]
fn repeater_forward_targets_unidentified_offlink_is_empty() {
    let off_link = v4(8, 8, 8, 8);
    assert!(forward_targets(None, off_link, &two_ifaces()).is_empty());
}

#[test]
fn repeater_forward_targets_unidentified_onlink_skips_source_subnet() {
    let on_eth0 = v4(10, 0, 0, 50);
    assert_eq!(forward_targets(None, on_eth0, &two_ifaces()), vec![1]);
}

#[test]
fn repeater_identify_recv_iface_unknown_subnet_returns_none() {
    let ifs = vec![fake_iface("eth0", [10, 0, 0, 1], [255, 255, 255, 0], 5)];
    let pkt = datagram([8, 8, 8, 8], None);
    assert!(identify_recv_iface(&pkt, &ifs).is_none());
}

#[test]
fn repeater_identify_recv_iface_unknown_ifindex_falls_back_to_subnet() {
    let ifs = vec![fake_iface("eth0", [10, 0, 0, 1], [255, 255, 255, 0], 5)];
    let pkt = datagram([10, 0, 0, 50], Some(99));
    assert_eq!(identify_recv_iface(&pkt, &ifs), Some(0));
}

#[test]
fn iface_contains_uses_mask() {
    let ifs = [fake_iface("eth0", [10, 1, 0, 1], [255, 255, 0, 0], 1)];
    assert!(ifs[0].contains(v4(10, 1, 99, 250)));
    assert!(!ifs[0].contains(v4(10, 2, 0, 1)));
}

#[test]
fn iface_contains_uses_ipv6_prefix() {
    let ip6 = Ipv6Addr::from_bits(0xfe80_0000_0000_0001_0000_0000_0000_0001u128);
    let iface = fake_iface_v6("eth0", ip6, 64, 1);
    let at = |bits: u128| IpAddr::V6(Ipv6Addr::from_bits(bits));
    assert!(iface.contains(at(0xfe80_0000_0000_0001_0000_0000_0000_0050)));
    assert!(!iface.contains(at(0xfe80_0000_0000_0002_0000_0000_0000_0050)));
}

#[test]
fn rfc6762_ipv6_multicast_address_is_ff02_fb() {
    assert_eq!(MDNS_ADDR_V6, 0xff02_0000_0000_0000_0000_0000_0000_00fb);
}

#[test]
fn rfc6762_s3_ipv6_multicast_address_ff02_fb() {
    assert_eq!(MDNS_ADDR_V6, 0xff02_0000_0000_0000_0000_0000_0000_00fb);
}

#[test]
fn ipv6_net_applies_prefix() {
    let addr = Ipv6Addr::from_bits(0xfe80_0000_0000_0001_1234_5678_9abc_def0u128);
    assert_eq!(
        ipv6_net(addr, 64),
        Ipv6Addr::from_bits(0xfe80_0000_0000_0001_0000_0000_0000_0000u128)
    );
    assert_eq!(ipv6_net(addr, 0), Ipv6Addr::from_bits(0));
    assert_eq!(ipv6_net(addr, 128), addr);
}

#[test]
fn ipv6_mdns_multicast_constant_is_ff02_fb() {
    assert_eq!(MDNS_ADDR_V6, 0xff02_0000_0000_0000_0000_0000_0000_00fb);
    assert_eq!(mdns_sockaddr_v6().port, MDNS_PORT);
}

#[test]
fn multicast_destinations() {
    assert_eq!(MDNS_ADDR_V4, Ipv4Addr::new(224, 0, 0, 251).bits);
    assert_eq!(MDNS_ADDR, MDNS_ADDR_V4);
    assert_eq!(MAX_PACKET, 9000);
    assert_eq!(mdns_sockaddr_v4(), SocketAddr { ip: v4(224, 0, 0, 251), port: 5353 });
    let mut iface = fake_iface_v6("eth0", Ipv6Addr::from_bits(0xfe80u128 << 112), 64, 9);
    assert_eq!(iface.multicast_target(IpFamily::V4), None);
    assert_eq!(
        iface.multicast_target(IpFamily::V6),
        Some(MulticastTarget::V6 { scope_id: 9 })
    );
    iface.v6.as_mut().unwrap().scope_id = 0;
    iface.ifindex = 4;
    assert_eq!(
        iface.multicast_target(IpFamily::V6),
        Some(MulticastTarget::V6 { scope_id: 4 })
    );
    let iface = fake_iface("eth0", [10, 0, 0, 1], [255, 255, 255, 0], 1);
    assert_eq!(iface.multicast_target(IpFamily::V4), Some(MulticastTarget::V4));
    assert_eq!(iface.multicast_target(IpFamily::V6), None);
}

#[test]
fn families_and_addresses() {
    let iface = fake_iface("eth0", [10, 0, 0, 1], [255, 255, 255, 0], 1);
    assert_eq!(iface.families(), vec![IpFamily::V4]);
    assert_eq!(iface.addr_v4(), Some(Ipv4Addr::new(10, 0, 0, 1)));
    assert_eq!(iface.addr_v6(), None);
    assert!(iface.has_addr(v4(10, 0, 0, 1)));
    assert!(!iface.has_addr(v4(10, 0, 0, 2)));
    assert!(!iface.has_addr(IpAddr::V6(Ipv6Addr::from_bits(1))));
}

#[test]
fn sends_are_tallied() {
    assert_eq!(tally_sends(&vec![]), None);
    assert_eq!(tally_sends(&vec![false, false]), None);
    assert_eq!(tally_sends(&vec![true, false]), Some(1));
    assert_eq!(tally_sends(&vec![true, true]), Some(2));
}

#[test]
fn prefix_length_counts_leading_ones() {
    let of = |bits: u128| ipv6_prefix_len(Ipv6Addr::from_bits(bits));
    assert_eq!(of(0), 0);
    assert_eq!(of(u128::MAX), 128);
    assert_eq!(of(u128::MAX << 64), 64);
    assert_eq!(of(0xffc0u128 << 112), 10);
    assert_eq!(of(0xfeffu128 << 112), 7);
}

fn entry(name: &str, address: Option<SystemAddr>, netmask: Option<SystemAddr>) -> AddrEntry {
    AddrEntry { interface_name: name.into(), address, netmask }
}

#[test]
fn first_usable_addresses_are_taken() {
    let ll = Ipv6Addr::from_bits(0xfe80_0000_0000_0000_0000_0000_0000_0007);
    let global = Ipv6Addr::from_bits(0x2001_0db8_0000_0000_0000_0000_0000_0007);
    let mask6 = SystemAddr::V6 { addr: Ipv6Addr::from_bits(u128::MAX << 56), scope_id: 0 };
    let a = |x: u8| SystemAddr::V4(Ipv4Addr::new(10, 0, 0, x));
    let entries = vec![
        entry("lo", Some(a(9)), None),
        entry("eth0", None, None),
        entry("eth0", Some(SystemAddr::V6 { addr: global, scope_id: 0 }), None),
        entry("eth0", Some(a(1)), Some(SystemAddr::V4(Ipv4Addr::new(255, 0, 0, 0)))),
        entry("eth0", Some(a(2)), None),
        entry("eth0", Some(SystemAddr::V6 { addr: ll, scope_id: 0 }), Some(mask6)),
        entry("eth1", Some(a(3)), None),
        entry("eth2", Some(SystemAddr::V6 { addr: ll, scope_id: 8 }), None),
    ];
    let (v4, v6) = iface_addrs(&"eth0".to_string(), 3, &entries);
    let v4 = v4.unwrap();
    assert_eq!(v4.addr, Ipv4Addr::new(10, 0, 0, 1));
    assert_eq!(v4.mask, Ipv4Addr::new(255, 0, 0, 0));
    assert_eq!(v4.net, Ipv4Addr::new(10, 0, 0, 0));
    let v6 = v6.unwrap();
    assert_eq!(v6.addr, ll);
    assert_eq!(v6.prefix_len, 72);
    assert_eq!(v6.net, ipv6_net(ll, 72));
    assert_eq!(v6.scope_id, 3);

    let (v4, v6) = iface_addrs(&"eth1".to_string(), 4, &entries);
    assert_eq!(v4.unwrap().mask, Ipv4Addr::new(255, 255, 255, 0));
    assert!(v6.is_none());

    let eth2 = discover("eth2".to_string(), 5, &entries).unwrap();
    assert_eq!(eth2.ifindex, 5);
    assert!(eth2.v4.is_none());
    assert_eq!(eth2.v6.unwrap().prefix_len, 64);
    assert_eq!(eth2.v6.unwrap().scope_id, 8);
    assert!(eth2.contains(IpAddr::V6(ll)));

    assert!(discover("wlan0".to_string(), 6, &entries).is_none());
}

#[test]
fn sockets_are_set_up_in_order() {
    let v6 = fake_iface_v6("eth1", Ipv6Addr::from_bits(0xfe80u128 << 112), 64, 2);
    let mut both = fake_iface("eth2", [10, 0, 0, 1], [255, 255, 255, 0], 3);
    both.v6 = v6.v6;
    let ifs = vec![v6, both];
    assert_eq!(
        setup(&ifs),
        vec![
            SetupStep::OpenReceive(IpFamily::V4),
            SetupStep::OpenReceive(IpFamily::V6),
            SetupStep::OpenSend(0, IpFamily::V6),
            SetupStep::JoinGroup(0, IpFamily::V6),
            SetupStep::OpenSend(1, IpFamily::V4),
            SetupStep::JoinGroup(1, IpFamily::V4),
            SetupStep::OpenSend(1, IpFamily::V6),
            SetupStep::JoinGroup(1, IpFamily::V6),
        ]
    );
    assert_eq!(setup(&vec![]), vec![]);
}

#[test]
fn link_local_addresses_have_the_prefix_fe80() {
    assert!(Ipv6Addr::from_bits(0xfe80u128 << 112).is_unicast_link_local());
    assert!(Ipv6Addr::from_bits(0xfebfu128 << 112).is_unicast_link_local());
    assert!(!Ipv6Addr::from_bits(0xfec0u128 << 112).is_unicast_link_local());
    assert!(!Ipv6Addr::from_bits(0xfe7fu128 << 112).is_unicast_link_local());
}
