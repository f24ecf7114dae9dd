//! Laws of the repeater and of interface networks.

use vstd::prelude::*;

use crate::addr::{IpAddr, Ipv4Addr, Ipv6Addr};
use crate::engine::MAX_INFLIGHT_HANDLERS;
use crate::iface::{
    all_steps, bit_from_top, entry_v4, entry_v6, family_steps, first_of, iface_steps,
    is_prefix_len, net_v6, receive_steps, successes, uses_family, AddrEntry, Iface, IpFamily,
    MulticastTarget, SetupStep, SystemAddr, MAX_PACKET, MDNS_ADDR_V4, MDNS_ADDR_V6, MDNS_PORT,
};
use crate::repeater::{
    first_on_link, first_with_index, index_known, is_link_local, is_target, on_some_link,
    recv_iface, targets,
};

verus! {

/// The targets are exactly the interfaces that qualify, in ascending order and
/// each at most once.
pub proof fn targets_are_the_qualifying_interfaces(
    recv_idx: Option<usize>,
    source: IpAddr,
    ifaces: Seq<Iface>,
    n: nat,
)
    requires
        n <= ifaces.len() <= usize::MAX,
    ensures
        forall|j: int|
            0 <= j < n ==> (#[trigger] targets(recv_idx, source, ifaces, n).contains(j as usize)
                == is_target(recv_idx, source, ifaces, j)),
        forall|k: int| #![trigger targets(recv_idx, source, ifaces, n)[k]]
            0 <= k < targets(recv_idx, source, ifaces, n).len() ==> targets(
                recv_idx,
                source,
                ifaces,
                n,
            )[k] < n,
        forall|a: int, b: int|
            #![trigger targets(recv_idx, source, ifaces, n)[a],
                targets(recv_idx, source, ifaces, n)[b]]
            0 <= a < b < targets(recv_idx, source, ifaces, n).len() ==> targets(
                recv_idx,
                source,
                ifaces,
                n,
            )[a] < targets(recv_idx, source, ifaces, n)[b],
        targets(recv_idx, source, ifaces, n).len() <= n,
    decreases n,
{
    if n > 0 {
        let m = (n - 1) as nat;
        targets_are_the_qualifying_interfaces(recv_idx, source, ifaces, m);
        let rest = targets(recv_idx, source, ifaces, m);
        let out = targets(recv_idx, source, ifaces, n);
        assert forall|j: int| 0 <= j < n implies (#[trigger] out.contains(j as usize) == is_target(
            recv_idx,
            source,
            ifaces,
            j,
        )) by {
            if j < m {
                assert(rest.contains(j as usize) == is_target(recv_idx, source, ifaces, j));
                if rest.contains(j as usize) {
                    let k = choose|k: int| 0 <= k < rest.len() && rest[k] == j as usize;
                    assert(out[k] == j as usize);
                }
                if out.contains(j as usize) {
                    let k = choose|k: int| 0 <= k < out.len() && out[k] == j as usize;
                    assert(k < rest.len());
                    assert(rest[k] == j as usize);
                }
            } else {
                if is_target(recv_idx, source, ifaces, j) {
                    assert(out[rest.len() as int] == j as usize);
                }
                if out.contains(j as usize) {
                    let k = choose|k: int| 0 <= k < out.len() && out[k] == j as usize;
                    if k < rest.len() {
                        assert(rest[k] == out[k]);
                        assert(rest[k] < m);
                    }
                }
            }
        }
    }
}

/// A datagram is never sent back to the interface on which it arrived.
pub proof fn ingress_is_no_target(recv_idx: usize, source: IpAddr, ifaces: Seq<Iface>)
    requires
        ifaces.len() <= usize::MAX,
    ensures
        !targets(Some(recv_idx), source, ifaces, ifaces.len()).contains(recv_idx),
{
    targets_are_the_qualifying_interfaces(Some(recv_idx), source, ifaces, ifaces.len());
    let out = targets(Some(recv_idx), source, ifaces, ifaces.len());
    if out.contains(recv_idx) {
        let k = choose|k: int| 0 <= k < out.len() && out[k] == recv_idx;
        assert(out[k] < ifaces.len());
        assert(out.contains((recv_idx as int) as usize));
    }
}

/// With an unknown ingress a datagram never goes to an interface whose network
/// holds its source, and goes nowhere when no network does.
pub proof fn unknown_ingress_is_not_echoed(source: IpAddr, ifaces: Seq<Iface>, j: int)
    requires
        ifaces.len() <= usize::MAX,
        0 <= j < ifaces.len(),
        ifaces[j].on_link(source) || !on_some_link(ifaces, source),
    ensures
        !targets(None, source, ifaces, ifaces.len()).contains(j as usize),
        !on_some_link(ifaces, source) ==> targets(None, source, ifaces, ifaces.len()).len() == 0,
{
    targets_are_the_qualifying_interfaces(None, source, ifaces, ifaces.len());
    let out = targets(None, source, ifaces, ifaces.len());
    assert(out.contains(j as usize) == is_target(None, source, ifaces, j));
    if !on_some_link(ifaces, source) && out.len() > 0 {
        let t = out[0];
        assert(t < ifaces.len());
        assert(out.contains((t as int) as usize));
        assert(is_target(None, source, ifaces, t as int));
    }
}

/// With a known ingress every other interface is a target.
pub proof fn every_other_interface_is_a_target(
    recv_idx: usize,
    source: IpAddr,
    ifaces: Seq<Iface>,
    j: int,
)
    requires
        ifaces.len() <= usize::MAX,
        0 <= j < ifaces.len(),
        j != recv_idx,
    ensures
        targets(Some(recv_idx), source, ifaces, ifaces.len()).contains(j as usize),
{
    targets_are_the_qualifying_interfaces(Some(recv_idx), source, ifaces, ifaces.len());
    assert(is_target(Some(recv_idx), source, ifaces, j));
}

/// The interface that the system reports wins over the network of the source; a
/// link-local source without a known interface is attributed to none.
pub proof fn reported_interface_wins(
    source: IpAddr,
    recv_ifindex: Option<u32>,
    ifaces: Seq<Iface>,
    i: int,
)
    requires
        ifaces.len() <= usize::MAX,
    ensures
        recv_ifindex is Some && first_with_index(ifaces, recv_ifindex->0, i) ==> recv_iface(
            source,
            recv_ifindex,
            ifaces,
        ) == Some(i as usize),
        is_link_local(source) && (recv_ifindex is None || !index_known(ifaces, recv_ifindex->0))
            ==> recv_iface(source, recv_ifindex, ifaces) is None,
        recv_ifindex is None && !is_link_local(source) && first_on_link(ifaces, source, i)
            ==> recv_iface(source, recv_ifindex, ifaces) == Some(i as usize),
{
    if recv_ifindex is Some && first_with_index(ifaces, recv_ifindex->0, i) {
        let chosen = choose|k: int| first_with_index(ifaces, recv_ifindex->0, k);
        assert(first_with_index(ifaces, recv_ifindex->0, chosen));
        assert(ifaces[chosen].ifindex == ifaces[i].ifindex);
    }
    if first_on_link(ifaces, source, i) {
        let chosen = choose|k: int| first_on_link(ifaces, source, k);
        assert(first_on_link(ifaces, source, chosen));
        assert(ifaces[chosen].on_link(source) && ifaces[i].on_link(source));
    }
}

/// The network of an address with a prefix is its own network; a prefix of no
/// bits is the whole address space, one of 128 bits the address alone.
pub proof fn ipv6_networks(bits: u128, prefix_len: u8)
    requires
        prefix_len <= 128,
    ensures
        net_v6(net_v6(bits, prefix_len), prefix_len) == net_v6(bits, prefix_len),
        net_v6(bits, 0) == 0,
        net_v6(bits, 128) == bits,
{
    let m = crate::iface::mask_v6(prefix_len);
    assert((bits & m) & m == bits & m) by (bit_vector);
    assert(bits & 0 == 0) by (bit_vector);
    assert(bits & (u128::MAX << 0u8) == bits) by (bit_vector);
}

/// An interface that was discovered holds its own addresses.
pub proof fn discovered_addresses_are_on_link(e: AddrEntry, ifindex: u32, iface: Iface)
    requires
        iface.v4 is Some ==> iface.v4 == entry_v4(e),
        iface.v6 is Some ==> iface.v6 == entry_v6(e, ifindex),
    ensures
        iface.v4 matches Some(v4) ==> iface.on_link(IpAddr::V4(v4.addr)) && iface.owns(
            IpAddr::V4(v4.addr),
        ),
        iface.v6 matches Some(v6) ==> iface.on_link(IpAddr::V6(v6.addr)) && iface.owns(
            IpAddr::V6(v6.addr),
        ) && v6.addr.link_local(),
{
}

/// Every send socket is opened before its interface joins the group.
pub proof fn sockets_open_before_they_are_used(ifaces: Seq<Iface>, n: nat, k: int)
    requires
        n <= ifaces.len(),
        0 <= k < iface_steps(ifaces, n).len(),
        iface_steps(ifaces, n)[k] is JoinGroup,
    ensures
        k > 0,
        iface_steps(ifaces, n)[k - 1] == SetupStep::OpenSend(
            iface_steps(ifaces, n)[k]->JoinGroup_0,
            iface_steps(ifaces, n)[k]->JoinGroup_1,
        ),
    decreases n,
{
    if n > 0 {
        let i = (n - 1) as nat;
        let before = iface_steps(ifaces, i);
        let a = family_steps(ifaces[i as int], i as usize, IpFamily::V4);
        let b = family_steps(ifaces[i as int], i as usize, IpFamily::V6);
        let out = iface_steps(ifaces, n);
        assert(out == before + a + b);
        if k < before.len() {
            assert(out[k] == before[k]);
            sockets_open_before_they_are_used(ifaces, i, k);
            assert(out[k - 1] == before[k - 1]);
        } else if k < before.len() + a.len() {
            assert(out[k] == a[k - before.len()]);
            assert(out[k - 1] == a[k - before.len() - 1]);
        } else {
            assert(out[k] == b[k - before.len() - a.len()]);
            assert(out[k - 1] == b[k - before.len() - a.len() - 1]);
        }
    }
}

/// With an unknown ingress a datagram whose source is on the network of some interface goes on
/// to every interface whose network does not hold the source.
pub proof fn unknown_ingress_reaches_the_other_networks(
    source: IpAddr,
    ifaces: Seq<Iface>,
    home: int,
    j: int,
)
    requires
        ifaces.len() <= usize::MAX,
        0 <= home < ifaces.len(),
        ifaces[home].on_link(source),
        0 <= j < ifaces.len(),
        !ifaces[j].on_link(source),
    ensures
        targets(None, source, ifaces, ifaces.len()).contains(j as usize),
{
    targets_are_the_qualifying_interfaces(None, source, ifaces, ifaces.len());
    assert(on_some_link(ifaces, source));
    assert(is_target(None, source, ifaces, j));
}

/// Where the system does not tell the interface, or tells one that is not served, a source
/// that is not link-local is taken to be on the first interface whose network holds it, and on
/// none where none does.
pub proof fn sources_are_placed_by_their_network(
    source: IpAddr,
    recv_ifindex: Option<u32>,
    ifaces: Seq<Iface>,
    i: int,
)
    requires
        ifaces.len() <= usize::MAX,
        recv_ifindex matches Some(x) ==> forall|f: Iface| #[trigger]
            ifaces.contains(f) ==> f.ifindex != x,
        source matches IpAddr::V6(a) ==> !a.link_local(),
    ensures
        0 <= i < ifaces.len() && ifaces[i].on_link(source) && (forall|k: int|
            #![trigger ifaces[k]]
            0 <= k < i ==> !ifaces[k].on_link(source)) ==> recv_iface(source, recv_ifindex, ifaces)
            == Some(i as usize),
        (forall|f: Iface| #[trigger] ifaces.contains(f) ==> !f.on_link(source)) ==> recv_iface(
            source,
            recv_ifindex,
            ifaces,
        ) is None,
{
    if recv_ifindex is Some && index_known(ifaces, recv_ifindex->0) {
        let k = choose|k: int|
            #![trigger ifaces[k]]
            0 <= k < ifaces.len() && ifaces[k].ifindex == recv_ifindex->0;
        assert(ifaces.contains(ifaces[k]));
    }
    if first_on_link(ifaces, source, i) {
        let chosen = choose|k: int| first_on_link(ifaces, source, k);
        assert(first_on_link(ifaces, source, chosen));
        assert(ifaces[chosen].on_link(source) && ifaces[i].on_link(source));
    }
    if on_some_link(ifaces, source) {
        let k = choose|k: int|
            #![trigger ifaces[k]]
            0 <= k < ifaces.len() && ifaces[k].on_link(source);
        assert(ifaces.contains(ifaces[k]));
    }
}

/// The interface that the system tells is the first that has the index.
pub proof fn told_interfaces_are_found_by_their_index(
    source: IpAddr,
    ifindex: u32,
    ifaces: Seq<Iface>,
    i: int,
)
    requires
        ifaces.len() <= usize::MAX,
        0 <= i < ifaces.len(),
        ifaces[i].ifindex == ifindex,
        forall|k: int| #![trigger ifaces[k]] 0 <= k < i ==> ifaces[k].ifindex != ifindex,
    ensures
        recv_iface(source, Some(ifindex), ifaces) == Some(i as usize),
{
    assert(first_with_index(ifaces, ifindex, i));
    assert(index_known(ifaces, ifindex));
    reported_interface_wins(source, Some(ifindex), ifaces, i);
}

/// An interface has just the addresses of its two sides.
pub proof fn interfaces_own_their_two_addresses(f: Iface, ip: IpAddr)
    ensures
        f.owns(ip) <==> (f.v4 is Some && ip == IpAddr::V4(f.v4->0.addr)) || (f.v6 is Some && ip
            == IpAddr::V6(f.v6->0.addr)),
{
}

/// The network of an address is the address with all but its first bits cleared; so two
/// addresses are in one network exactly when those bits agree.
pub proof fn ipv6_networks_are_first_bits(a: u128, b: u128, prefix_len: u8)
    requires
        1 <= prefix_len <= 128,
    ensures
        ({
            let rest = (128 - prefix_len) as u8;
            &&& net_v6(a, prefix_len) == (a >> rest) << rest
            &&& net_v6(a, prefix_len) == net_v6(b, prefix_len) <==> a >> rest == b >> rest
        }),
{
    let rest = (128 - prefix_len) as u8;
    assert(a & (u128::MAX << rest) == (a >> rest) << rest) by (bit_vector)
        requires
            rest < 128,
    ;
    assert(b & (u128::MAX << rest) == (b >> rest) << rest) by (bit_vector)
        requires
            rest < 128,
    ;
    assert((a >> rest) << rest == (b >> rest) << rest ==> a >> rest == b >> rest) by (bit_vector)
        requires
            rest < 128,
    ;
}

/// The link-local addresses are those from `fe80::` up to, not including, `fec0::`.
pub proof fn link_local_addresses_are_a_range(a: Ipv6Addr)
    ensures
        a.link_local() <==> 0xfe80_0000_0000_0000_0000_0000_0000_0000 <= a.bits
            < 0xfec0_0000_0000_0000_0000_0000_0000_0000,
        is_link_local(IpAddr::V6(a)) == a.link_local(),
{
}

/// An IPv4 address that the system reports is taken over with its mask, and without one with
/// that of a /24; the interface's network is then that of the addresses which agree with it
/// under the mask.
pub proof fn ipv4_sides_are_taken_over(e: AddrEntry, f: Iface, ip: Ipv4Addr)
    requires
        f.v4 == entry_v4(e),
    ensures
        e.address matches Some(SystemAddr::V4(a)) ==> {
            &&& f.v4 is Some
            &&& f.v4->0.addr == a
            &&& e.netmask matches Some(SystemAddr::V4(m)) ==> f.v4->0.mask == m && (f.on_link(
                IpAddr::V4(ip),
            ) <==> ip.bits & m.bits == a.bits & m.bits)
            &&& !(e.netmask matches Some(SystemAddr::V4(_))) ==> (f.on_link(IpAddr::V4(ip))
                <==> ip.bits / 256 == a.bits / 256)
        },
        !(e.address matches Some(SystemAddr::V4(_))) ==> f.v4 is None && !f.on_link(IpAddr::V4(ip)),
{
    if let Some(SystemAddr::V4(a)) = e.address {
        let x = ip.bits;
        let y = a.bits;
        assert(x & 0xffff_ff00 == y & 0xffff_ff00 <==> x / 256 == y / 256) by (bit_vector);
    }
}

/// An IPv6 address that the system reports is taken over if it is link-local, with the length
/// of the ones at the start of its mask, or 64 without one, and with its scope, or that of the
/// interface without one.
pub proof fn ipv6_sides_are_taken_over(e: AddrEntry, ifindex: u32, n: u8)
    ensures
        entry_v6(e, ifindex) is Some <==> (e.address matches Some(SystemAddr::V6 { addr, .. })
            && 0xfe80_0000_0000_0000_0000_0000_0000_0000 <= addr.bits
            < 0xfec0_0000_0000_0000_0000_0000_0000_0000),
        entry_v6(e, ifindex) matches Some(v6) ==> {
            let addr = e.address->0->V6_addr;
            let scope = e.address->0->V6_scope_id;
            &&& v6.addr == addr
            &&& v6.scope_id == (if scope != 0 { scope } else { ifindex })
            &&& v6.net.bits == net_v6(addr.bits, v6.prefix_len)
            &&& !(e.netmask matches Some(SystemAddr::V6 { .. })) ==> v6.prefix_len == 64
            &&& e.netmask matches Some(SystemAddr::V6 { addr: m, .. }) ==> (is_prefix_len(m.bits, n)
                ==> v6.prefix_len == n)
        },
{
    if let Some(v6) = entry_v6(e, ifindex) {
        if let Some(SystemAddr::V6 { addr: m, .. }) = e.netmask {
            if is_prefix_len(m.bits, n) {
                lemma_one_prefix_len(m.bits, n, v6.prefix_len);
            }
        }
    }
}

proof fn lemma_one_prefix_len(mask: u128, a: u8, b: u8)
    requires
        is_prefix_len(mask, a),
        is_prefix_len(mask, b),
    ensures
        a == b,
{
    if a < b {
        assert(bit_from_top(mask, a as int));
    }
    if b < a {
        assert(bit_from_top(mask, b as int));
    }
}

proof fn lemma_first_ones(mask: u128, n: u8)
    requires
        1 <= n <= 128,
        forall|k: int| 0 <= k < n ==> #[trigger] bit_from_top(mask, k),
    ensures
        mask >> ((128 - n) as u8) == u128::MAX >> ((128 - n) as u8),
    decreases n,
{
    let s = (128 - n) as u8;
    assert(bit_from_top(mask, n - 1));
    assert((127 - (n - 1)) as u8 == s);
    if n == 1 {
        assert(mask >> s == u128::MAX >> s) by (bit_vector)
            requires
                s == 127,
                (mask >> s) & 1 == 1,
        ;
    } else {
        lemma_first_ones(mask, (n - 1) as u8);
        let t = (s + 1) as u8;
        assert(t == (128 - (n - 1)) as u8);
        assert(mask >> s == u128::MAX >> s) by (bit_vector)
            requires
                s < 127,
                t == s + 1,
                mask >> t == u128::MAX >> t,
                (mask >> s) & 1 == 1,
        ;
    }
}

/// The length of a mask's prefix is the number of ones that it begins with: as a number the
/// mask reaches that of a prefix of this length, and not that of a longer one.
pub proof fn prefix_lengths_count_the_leading_ones(mask: u128, n: u8)
    requires
        is_prefix_len(mask, n),
    ensures
        n <= 128,
        n > 0 ==> mask >= u128::MAX << ((128 - n) as u8),
        n < 128 ==> mask < u128::MAX << ((127 - n) as u8),
{
    if n > 0 {
        lemma_first_ones(mask, n);
        let s = (128 - n) as u8;
        assert(mask >= u128::MAX << s) by (bit_vector)
            requires
                s < 128,
                mask >> s == u128::MAX >> s,
        ;
    }
    if n < 128 {
        let s = (127 - n) as u8;
        assert(!bit_from_top(mask, n as int));
        assert(mask < u128::MAX << s) by (bit_vector)
            requires
                s < 128,
                (mask >> s) & 1 != 1,
        ;
    }
}

proof fn lemma_first_of<T>(
    entries: Seq<AddrEntry>,
    ifname: Seq<char>,
    f: spec_fn(AddrEntry) -> Option<T>,
    i: int,
)
    requires
        0 <= i <= entries.len(),
        forall|k: int| #![trigger entries[k]]
            0 <= k < i ==> entries[k].interface_name@ != ifname || f(entries[k]) is None,
    ensures
        i == entries.len() ==> first_of(entries, ifname, f) is None,
        i < entries.len() && entries[i].interface_name@ == ifname && f(entries[i]) is Some
            ==> first_of(entries, ifname, f) == f(entries[i]),
    decreases entries.len(),
{
    if entries.len() > 0 {
        let rest = entries.drop_last();
        assert forall|k: int| #![trigger rest[k]]
            0 <= k < i && k < rest.len() implies rest[k].interface_name@ != ifname || f(rest[k])
            is None by {
            assert(rest[k] == entries[k]);
        }
        if i < entries.len() {
            lemma_first_of(rest, ifname, f, i);
            if i < rest.len() {
                assert(rest[i] == entries[i]);
            }
        } else {
            lemma_first_of(rest, ifname, f, rest.len() as int);
            assert(entries.last() == entries[entries.len() - 1]);
        }
    }
}

/// Of the system's list an interface takes the first entry that has its name and is of use,
/// and has nothing where there is none.
pub proof fn the_first_useful_entry_counts<T>(
    entries: Seq<AddrEntry>,
    ifname: Seq<char>,
    f: spec_fn(AddrEntry) -> Option<T>,
    i: int,
)
    ensures
        0 <= i < entries.len() && entries[i].interface_name@ == ifname && f(entries[i]) is Some && (
        forall|k: int| #![trigger entries[k]]
            0 <= k < i ==> entries[k].interface_name@ != ifname || f(entries[k]) is None)
            ==> first_of(entries, ifname, f) == f(entries[i]),
        (forall|k: int| #![trigger entries[k]]
            0 <= k < entries.len() ==> entries[k].interface_name@ != ifname || f(entries[k]) is None)
            ==> first_of(entries, ifname, f) is None,
{
    if 0 <= i < entries.len() && (forall|k: int| #![trigger entries[k]]
        0 <= k < i ==> entries[k].interface_name@ != ifname || f(entries[k]) is None) {
        lemma_first_of(entries, ifname, f, i);
    }
    if forall|k: int| #![trigger entries[k]]
        0 <= k < entries.len() ==> entries[k].interface_name@ != ifname || f(entries[k]) is None {
        lemma_first_of(entries, ifname, f, entries.len() as int);
    }
}

/// An interface has the families of its sides, IPv4 before IPv6, and multicasts of a family go
/// out on it just when it has that family; those of IPv6 are meant for its own link.
pub proof fn families_are_those_of_the_sides(f: Iface)
    ensures
        f.family_seq().contains(IpFamily::V4) <==> f.v4 is Some,
        f.family_seq().contains(IpFamily::V6) <==> f.v6 is Some,
        f.v4 is Some && f.v6 is Some ==> f.family_seq() == seq![IpFamily::V4, IpFamily::V6],
        f.family_seq().len() <= 2,
        f.target_of(IpFamily::V4) == (if f.v4 is Some {
            Some(MulticastTarget::V4)
        } else {
            None
        }),
        f.target_of(IpFamily::V6) is Some <==> f.v6 is Some,
        f.v6 is Some ==> f.target_of(IpFamily::V6) == Some(
            MulticastTarget::V6 {
                scope_id: if f.v6->0.scope_id != 0 { f.v6->0.scope_id } else { f.ifindex },
            },
        ),
{
    let s = f.family_seq();
    if f.v4 is Some {
        assert(s[0] == IpFamily::V4);
    }
    if f.v6 is Some {
        assert(s[s.len() - 1] == IpFamily::V6);
    }
    if f.v4 is Some && f.v6 is Some {
        assert(s =~= seq![IpFamily::V4, IpFamily::V6]);
    }
}

/// Interface `i` is among `ifaces` and has an address of the family.
pub open spec fn has_side(ifaces: Seq<Iface>, i: int, family: IpFamily) -> bool {
    0 <= i < ifaces.len() && (match family {
        IpFamily::V4 => ifaces[i].v4 is Some,
        IpFamily::V6 => ifaces[i].v6 is Some,
    })
}

proof fn lemma_iface_steps(ifaces: Seq<Iface>, n: nat, i: usize, family: IpFamily)
    requires
        n <= ifaces.len() <= usize::MAX,
    ensures
        iface_steps(ifaces, n).contains(SetupStep::OpenSend(i, family)) <==> i < n && has_side(
            ifaces,
            i as int,
            family,
        ),
        iface_steps(ifaces, n).contains(SetupStep::JoinGroup(i, family)) <==> i < n && has_side(
            ifaces,
            i as int,
            family,
        ),
        !iface_steps(ifaces, n).contains(SetupStep::OpenReceive(family)),
    decreases n,
{
    if n > 0 {
        let m = (n - 1) as nat;
        lemma_iface_steps(ifaces, m, i, family);
        let before = iface_steps(ifaces, m);
        let a = family_steps(ifaces[m as int], m as usize, IpFamily::V4);
        let b = family_steps(ifaces[m as int], m as usize, IpFamily::V6);
        let out = iface_steps(ifaces, n);
        assert(out == before + a + b);
        let x = SetupStep::OpenSend(i, family);
        let y = SetupStep::JoinGroup(i, family);
        lemma_three(before, a, b, x);
        lemma_three(before, a, b, y);
        lemma_three(before, a, b, SetupStep::OpenReceive(family));
        if has_side(ifaces, m as int, IpFamily::V4) {
            assert(a[0] == SetupStep::OpenSend(m as usize, IpFamily::V4));
            assert(a[1] == SetupStep::JoinGroup(m as usize, IpFamily::V4));
        }
        if has_side(ifaces, m as int, IpFamily::V6) {
            assert(b[0] == SetupStep::OpenSend(m as usize, IpFamily::V6));
            assert(b[1] == SetupStep::JoinGroup(m as usize, IpFamily::V6));
        }
    }
}

proof fn lemma_three<A>(a: Seq<A>, b: Seq<A>, c: Seq<A>, x: A)
    ensures
        (a + b + c).contains(x) <==> a.contains(x) || b.contains(x) || c.contains(x),
{
    let s = a + b + c;
    if s.contains(x) {
        let k = choose|k: int| 0 <= k < s.len() && s[k] == x;
        if k < a.len() {
            assert(a[k] == x);
        } else if k < a.len() + b.len() {
            assert(b[k - a.len()] == x);
        } else {
            assert(c[k - a.len() - b.len()] == x);
        }
    }
    if a.contains(x) {
        let k = choose|k: int| 0 <= k < a.len() && a[k] == x;
        assert(s[k] == x);
    }
    if b.contains(x) {
        let k = choose|k: int| 0 <= k < b.len() && b[k] == x;
        assert(s[a.len() + k] == x);
    }
    if c.contains(x) {
        let k = choose|k: int| 0 <= k < c.len() && c[k] == x;
        assert(s[a.len() + b.len() + k] == x);
    }
}

/// Every address of every interface gets its send socket and its membership, and no other
/// does; a family gets a receive socket exactly when some interface has an address of it, and
/// before any other socket is opened.
pub proof fn every_side_gets_its_sockets(ifaces: Seq<Iface>, i: usize, family: IpFamily, k: int)
    requires
        ifaces.len() <= usize::MAX,
    ensures
        all_steps(ifaces).contains(SetupStep::OpenSend(i, family)) <==> has_side(
            ifaces,
            i as int,
            family,
        ),
        all_steps(ifaces).contains(SetupStep::JoinGroup(i, family)) <==> has_side(
            ifaces,
            i as int,
            family,
        ),
        all_steps(ifaces).contains(SetupStep::OpenReceive(family)) <==> exists|j: int| #[trigger]
            has_side(ifaces, j, family),
        0 < k < all_steps(ifaces).len() && all_steps(ifaces)[k] is OpenReceive
            ==> all_steps(ifaces)[k - 1] is OpenReceive && all_steps(ifaces)[k - 1]
            != all_steps(ifaces)[k],
{
    let v4 = uses_family(ifaces, IpFamily::V4);
    let v6 = uses_family(ifaces, IpFamily::V6);
    let head = receive_steps(v4, v6);
    let tail = iface_steps(ifaces, ifaces.len());
    let none = Seq::<SetupStep>::empty();
    let out = all_steps(ifaces);
    assert(out =~= head + tail + none);
    lemma_iface_steps(ifaces, ifaces.len(), i, family);
    lemma_iface_steps(ifaces, ifaces.len(), i, IpFamily::V4);
    lemma_iface_steps(ifaces, ifaces.len(), i, IpFamily::V6);
    lemma_three(head, tail, none, SetupStep::OpenSend(i, family));
    lemma_three(head, tail, none, SetupStep::JoinGroup(i, family));
    lemma_three(head, tail, none, SetupStep::OpenReceive(family));
    if v4 {
        assert(head[0] == SetupStep::OpenReceive(IpFamily::V4));
    }
    if v6 {
        assert(head[head.len() - 1] == SetupStep::OpenReceive(IpFamily::V6));
    }
    if uses_family(ifaces, family) {
        let j = choose|j: int|
            #![trigger ifaces[j]]
            0 <= j < ifaces.len() && ifaces[j].family_seq().contains(family);
        families_are_those_of_the_sides(ifaces[j]);
        assert(has_side(ifaces, j, family));
    }
    if exists|j: int| #[trigger] has_side(ifaces, j, family) {
        let j = choose|j: int| #[trigger] has_side(ifaces, j, family);
        families_are_those_of_the_sides(ifaces[j]);
        assert(uses_family(ifaces, family));
    }
    if 0 < k < out.len() && out[k] is OpenReceive {
        if k >= head.len() {
            assert(tail[k - head.len()] == out[k]);
            assert(tail.contains(out[k]));
        }
    }
}

/// Every send that succeeded counts once, whatever its place.
pub proof fn each_success_counts(first: Seq<bool>, then: Seq<bool>, ok: bool)
    ensures
        successes(Seq::empty()) == 0,
        successes(seq![ok]) == (if ok { 1nat } else { 0 }),
        successes(first + then) == successes(first) + successes(then),
{
    let p = |ok: bool| ok;
    Seq::filter_distributes_over_add(first, then, p);
    reveal(Seq::filter);
    assert(seq![ok].drop_last() =~= Seq::<bool>::empty());
    assert(seq![ok].last() == ok);
    assert(Seq::<bool>::empty().filter(p).len() == 0);
}

/// The numbers of RFC 6762: port 5353, 224.0.0.251 and ff02::fb; and the daemon's own limits.
pub proof fn group_addresses_are_as_prescribed()
    ensures
        MDNS_PORT == 5353,
        MDNS_ADDR_V4 == 224 * 0x100_0000 + 251,
        MDNS_ADDR_V6 == 0xff02 * 0x1_0000_0000_0000_0000_0000_0000_0000 + 0xfb,
        MAX_PACKET == 9000,
        MAX_INFLIGHT_HANDLERS == 256,
{
}

} // verus!
