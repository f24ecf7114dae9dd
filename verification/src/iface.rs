//! The interfaces that the daemon serves: their addresses, the sockets they need
//! and where their datagrams go.
//!
//! One receive socket per address family is shared by all interfaces that have an
//! address of the family; each interface has a send socket of its own per family.

use vstd::prelude::*;

use crate::addr::{IpAddr, Ipv4Addr, Ipv6Addr, SocketAddr};

verus! {

/// The bits of 224.0.0.251, the IPv4 mDNS group.
pub const MDNS_ADDR_V4: u32 = 0xe000_00fb;

/// The bits of ff02::fb, the IPv6 mDNS group.
pub const MDNS_ADDR_V6: u128 = 0xff02_0000_0000_0000_0000_0000_0000_00fb;

pub const MDNS_PORT: u16 = 5353;

/// Size of the receive buffer, enough for a jumbo frame.
pub const MAX_PACKET: usize = 9000;

/// Another name of the IPv4 group.
pub const MDNS_ADDR: u32 = MDNS_ADDR_V4;

/// Where IPv4 multicasts go.
pub fn mdns_sockaddr_v4() -> (r: SocketAddr)
    ensures
        r.port == MDNS_PORT,
        r.ip == IpAddr::V4(Ipv4Addr { bits: MDNS_ADDR_V4 }),
{
    SocketAddr { ip: IpAddr::V4(Ipv4Addr { bits: MDNS_ADDR_V4 }), port: MDNS_PORT }
}

/// Where IPv6 multicasts go.
pub fn mdns_sockaddr_v6() -> (r: SocketAddr)
    ensures
        r.port == MDNS_PORT,
        r.ip == IpAddr::V6(Ipv6Addr { bits: MDNS_ADDR_V6 }),
{
    SocketAddr { ip: IpAddr::V6(Ipv6Addr { bits: MDNS_ADDR_V6 }), port: MDNS_PORT }
}

#[derive(Debug, Clone, Copy, PartialEq, Eq, Hash, Structural)]
pub enum IpFamily {
    V4,
    V6,
}

/// The IPv4 side of an interface.
#[derive(Debug, Clone, Copy, PartialEq, Eq, Structural)]
pub struct IfaceV4 {
    pub addr: Ipv4Addr,
    pub mask: Ipv4Addr,
    pub net: Ipv4Addr,
}

/// The IPv6 side of an interface.
#[derive(Debug, Clone, Copy, PartialEq, Eq, Structural)]
pub struct IfaceV6 {
    pub addr: Ipv6Addr,
    pub prefix_len: u8,
    pub net: Ipv6Addr,
    pub scope_id: u32,
}

/// Static description of one of our interfaces.
#[derive(Debug)]
pub struct Iface {
    pub name: String,
    pub ifindex: u32,
    pub v4: Option<IfaceV4>,
    pub v6: Option<IfaceV6>,
}

/// A datagram that was received.
#[derive(Debug)]
pub struct Datagram {
    pub data: Vec<u8>,
    pub source: SocketAddr,
    pub family: IpFamily,
    /// The interface on which the system says it arrived.
    pub recv_ifindex: Option<u32>,
}

/// The mask whose first `prefix_len` bits are ones.
pub open spec fn mask_v6(prefix_len: u8) -> u128 {
    if prefix_len == 0 {
        0
    } else {
        u128::MAX << ((128 - prefix_len) as u8)
    }
}

/// The network of `bits` with a prefix of `prefix_len` bits.
pub open spec fn net_v6(bits: u128, prefix_len: u8) -> u128 {
    bits & mask_v6(prefix_len)
}

/// The network of `addr`: its first `prefix_len` bits, followed by zeros.
pub fn ipv6_net(addr: Ipv6Addr, prefix_len: u8) -> (r: Ipv6Addr)
    requires
        prefix_len <= 128,
    ensures
        r.bits == net_v6(addr.bits, prefix_len),
{
    let mask: u128 = if prefix_len == 0 {
        0
    } else {
        u128::MAX << (128 - prefix_len)
    };
    Ipv6Addr { bits: addr.bits & mask }
}

/// Bit `k` of `bits`, counted from the most significant one.
pub open spec fn bit_from_top(bits: u128, k: int) -> bool {
    (bits >> ((127 - k) as u8)) & 1 == 1
}

/// `n` is the number of ones at the start of `mask`.
pub open spec fn is_prefix_len(mask: u128, n: u8) -> bool {
    &&& n <= 128
    &&& forall|k: int| 0 <= k < n ==> #[trigger] bit_from_top(mask, k)
    &&& n < 128 ==> !bit_from_top(mask, n as int)
}

/// The number of ones at the start of `mask`.
pub fn ipv6_prefix_len(mask: Ipv6Addr) -> (r: u8)
    ensures
        is_prefix_len(mask.bits, r),
{
    let mut n: u8 = 0;
    while n < 128
        invariant
            n <= 128,
            forall|k: int| 0 <= k < n ==> #[trigger] bit_from_top(mask.bits, k),
        decreases 128 - n,
    {
        let bit: u128 = (mask.bits >> (127 - n)) & 1;
        if bit != 1 {
            return n;
        }
        n += 1;
    }
    n
}

impl Iface {
    /// An IPv6 prefix has at most 128 bits.
    pub open spec fn valid(self) -> bool {
        self.v6 matches Some(v6) ==> v6.prefix_len <= 128
    }

    /// `ip` is an address of this interface.
    pub open spec fn owns(self, ip: IpAddr) -> bool {
        match ip {
            IpAddr::V4(a) => self.v4 matches Some(v4) && v4.addr == a,
            IpAddr::V6(a) => self.v6 matches Some(v6) && v6.addr == a,
        }
    }

    /// `ip` is in the network of this interface.
    pub open spec fn on_link(self, ip: IpAddr) -> bool {
        match ip {
            IpAddr::V4(a) => self.v4 matches Some(v4) && (a.bits & v4.mask.bits) == v4.net.bits,
            IpAddr::V6(a) => self.v6 matches Some(v6) && net_v6(a.bits, v6.prefix_len)
                == v6.net.bits,
        }
    }

    pub fn addr_v4(&self) -> (r: Option<Ipv4Addr>)
        ensures
            r == (match self.v4 {
                Some(v4) => Some(v4.addr),
                None => None,
            }),
    {
        match &self.v4 {
            Some(v4) => Some(v4.addr),
            None => None,
        }
    }

    pub fn addr_v6(&self) -> (r: Option<Ipv6Addr>)
        ensures
            r == (match self.v6 {
                Some(v6) => Some(v6.addr),
                None => None,
            }),
    {
        match &self.v6 {
            Some(v6) => Some(v6.addr),
            None => None,
        }
    }

    /// True if `ip` is an address of this interface.
    pub fn has_addr(&self, ip: IpAddr) -> (r: bool)
        ensures
            r == self.owns(ip),
    {
        match ip {
            IpAddr::V4(ip) => match &self.v4 {
                Some(v4) => v4.addr == ip,
                None => false,
            },
            IpAddr::V6(ip) => match &self.v6 {
                Some(v6) => v6.addr == ip,
                None => false,
            },
        }
    }

    /// True if `ip` is in the network of this interface.
    pub fn contains(&self, ip: IpAddr) -> (r: bool)
        requires
            self.valid(),
        ensures
            r == self.on_link(ip),
    {
        match ip {
            IpAddr::V4(ip) => match &self.v4 {
                Some(v4) => (ip.bits & v4.mask.bits) == v4.net.bits,
                None => false,
            },
            IpAddr::V6(ip) => match &self.v6 {
                Some(v6) => ipv6_net(ip, v6.prefix_len).bits == v6.net.bits,
                None => false,
            },
        }
    }

    /// The address families of the interface, IPv4 first.
    pub open spec fn family_seq(self) -> Seq<IpFamily> {
        (if self.v4 is Some { seq![IpFamily::V4] } else { Seq::empty() })
            + (if self.v6 is Some { seq![IpFamily::V6] } else { Seq::empty() })
    }

    /// The address families of the interface, IPv4 first.
    pub fn families(&self) -> (r: Vec<IpFamily>)
        ensures
            r@ == self.family_seq(),
    {
        let mut out: Vec<IpFamily> = Vec::new();
        if self.v4.is_some() {
            out.push(IpFamily::V4);
        }
        if self.v6.is_some() {
            out.push(IpFamily::V6);
        }
        assert(out@ =~= self.family_seq());
        out
    }

    /// Where a multicast of `family` goes from this interface, if it has a socket
    /// for it.
    pub open spec fn target_of(self, family: IpFamily) -> Option<MulticastTarget> {
        match family {
            IpFamily::V4 => if self.v4 is Some {
                Some(MulticastTarget::V4)
            } else {
                None
            },
            IpFamily::V6 => match self.v6 {
                Some(v6) => Some(
                    MulticastTarget::V6 {
                        scope_id: if v6.scope_id == 0 { self.ifindex } else { v6.scope_id },
                    },
                ),
                None => None,
            },
        }
    }

    /// Where a multicast of `family` goes from this interface; nothing when the
    /// interface has no socket of the family.
    pub fn multicast_target(&self, family: IpFamily) -> (r: Option<MulticastTarget>)
        ensures
            r == self.target_of(family),
    {
        match family {
            IpFamily::V4 => match &self.v4 {
                Some(_) => Some(MulticastTarget::V4),
                None => None,
            },
            IpFamily::V6 => match &self.v6 {
                Some(v6) => {
                    let scope_id: u32 = if v6.scope_id == 0 {
                        self.ifindex
                    } else {
                        v6.scope_id
                    };
                    Some(MulticastTarget::V6 { scope_id })
                },
                None => None,
            },
        }
    }
}

/// The group address of a family, with the link it is meant for.
#[derive(Debug, Clone, Copy, PartialEq, Eq, Structural)]
pub enum MulticastTarget {
    /// 224.0.0.251:5353
    V4,
    /// [ff02::fb%scope_id]:5353
    V6 { scope_id: u32 },
}

/// The number of sends that succeeded.
pub open spec fn successes(results: Seq<bool>) -> nat {
    results.filter(|ok: bool| ok).len()
}

/// Sums up the sends of one message on the families of an interface: the number
/// that succeeded, or nothing where none did.
pub fn tally_sends(results: &Vec<bool>) -> (r: Option<usize>)
    ensures
        r == (if successes(results@) > 0 {
            Some(successes(results@) as usize)
        } else {
            None
        }),
{
    let ghost p = |ok: bool| ok;
    let mut sent: usize = 0;
    let mut i: usize = 0;
    assert(results@.take(0).filter(p).len() == 0) by {
        reveal(Seq::filter);
    }
    while i < results.len()
        invariant
            i <= results.len(),
            sent <= i,
            p == (|ok: bool| ok),
            sent == results@.take(i as int).filter(p).len(),
        decreases results.len() - i,
    {
        proof {
            crate::seqs::lemma_filter_step(results@, p, i as int);
        }
        if results[i] {
            sent += 1;
        }
        i += 1;
    }
    assert(results@.take(i as int) =~= results@);
    if sent > 0 {
        Some(sent)
    } else {
        None
    }
}

/// An address that the system reports for an interface.
#[derive(Debug, Clone, Copy, PartialEq, Eq, Structural)]
pub enum SystemAddr {
    V4(Ipv4Addr),
    V6 { addr: Ipv6Addr, scope_id: u32 },
}

/// One entry of the system's list of interface addresses. Addresses that are not
/// of the Internet families are left out.
#[derive(Debug)]
pub struct AddrEntry {
    pub interface_name: String,
    pub address: Option<SystemAddr>,
    pub netmask: Option<SystemAddr>,
}

/// The IPv4 side that `e` describes: a missing mask counts as a /24.
pub open spec fn entry_v4(e: AddrEntry) -> Option<IfaceV4> {
    match e.address {
        Some(SystemAddr::V4(addr)) => {
            let mask = match e.netmask {
                Some(SystemAddr::V4(m)) => m,
                _ => Ipv4Addr { bits: 0xffff_ff00 },
            };
            Some(IfaceV4 { addr, mask, net: Ipv4Addr { bits: addr.bits & mask.bits } })
        },
        _ => None,
    }
}

/// The IPv6 side that `e` describes: only link-local addresses count, a missing
/// mask counts as a /64, and a missing scope as the interface itself.
pub open spec fn entry_v6(e: AddrEntry, ifindex: u32) -> Option<IfaceV6> {
    match e.address {
        Some(SystemAddr::V6 { addr, scope_id }) => if addr.link_local() {
            let prefix_len = match e.netmask {
                Some(SystemAddr::V6 { addr: m, .. }) => choose|n: u8| is_prefix_len(m.bits, n),
                _ => 64u8,
            };
            Some(
                IfaceV6 {
                    addr,
                    prefix_len,
                    net: Ipv6Addr { bits: net_v6(addr.bits, prefix_len) },
                    scope_id: if scope_id == 0 { ifindex } else { scope_id },
                },
            )
        } else {
            None
        },
        _ => None,
    }
}

/// The first value that `f` makes of an entry of interface `ifname`.
pub open spec fn first_of<T>(
    entries: Seq<AddrEntry>,
    ifname: Seq<char>,
    f: spec_fn(AddrEntry) -> Option<T>,
) -> Option<T>
    decreases entries.len(),
{
    if entries.len() == 0 {
        None
    } else {
        match first_of(entries.drop_last(), ifname, f) {
            Some(t) => Some(t),
            None => if entries.last().interface_name@ == ifname {
                f(entries.last())
            } else {
                None
            },
        }
    }
}

fn describe_v4(e: &AddrEntry) -> (r: Option<IfaceV4>)
    ensures
        r == entry_v4(*e),
{
    match &e.address {
        Some(SystemAddr::V4(addr)) => {
            let mask: Ipv4Addr = match &e.netmask {
                Some(SystemAddr::V4(m)) => *m,
                _ => Ipv4Addr { bits: 0xffff_ff00 },
            };
            Some(IfaceV4 { addr: *addr, mask, net: Ipv4Addr { bits: addr.bits & mask.bits } })
        },
        _ => None,
    }
}

fn describe_v6(e: &AddrEntry, ifindex: u32) -> (r: Option<IfaceV6>)
    ensures
        r == entry_v6(*e, ifindex),
        r matches Some(v6) ==> v6.prefix_len <= 128,
{
    match &e.address {
        Some(SystemAddr::V6 { addr, scope_id }) => {
            if !addr.is_unicast_link_local() {
                return None;
            }
            let prefix_len: u8 = match &e.netmask {
                Some(SystemAddr::V6 { addr: m, .. }) => {
                    let n: u8 = ipv6_prefix_len(*m);
                    let ghost chosen = choose|n: u8| is_prefix_len(m.bits, n);
                    assert(is_prefix_len(m.bits, n));
                    assert(chosen == n) by {
                        assert(is_prefix_len(m.bits, chosen));
                        if chosen < n {
                            assert(bit_from_top(m.bits, chosen as int));
                        }
                        if n < chosen {
                            assert(bit_from_top(m.bits, n as int));
                        }
                    }
                    n
                },
                _ => 64,
            };
            let scope: u32 = if *scope_id == 0 {
                ifindex
            } else {
                *scope_id
            };
            Some(
                IfaceV6 {
                    addr: *addr,
                    prefix_len,
                    net: ipv6_net(*addr, prefix_len),
                    scope_id: scope,
                },
            )
        },
        _ => None,
    }
}

/// The usable IPv4 and IPv6 addresses of interface `ifname`, from the system's
/// list: the first IPv4 address and the first link-local IPv6 address.
pub fn iface_addrs(ifname: &String, ifindex: u32, entries: &Vec<AddrEntry>) -> (r: (
    Option<IfaceV4>,
    Option<IfaceV6>,
))
    ensures
        r.0 == first_of(entries@, ifname@, |e: AddrEntry| entry_v4(e)),
        r.1 == first_of(entries@, ifname@, |e: AddrEntry| entry_v6(e, ifindex)),
        r.1 matches Some(v6) ==> v6.prefix_len <= 128,
{
    let ghost f4 = |e: AddrEntry| entry_v4(e);
    let ghost f6 = |e: AddrEntry| entry_v6(e, ifindex);
    let mut found_v4: Option<IfaceV4> = None;
    let mut found_v6: Option<IfaceV6> = None;
    let mut i: usize = 0;
    while i < entries.len()
        invariant
            i <= entries.len(),
            f4 == (|e: AddrEntry| entry_v4(e)),
            f6 == (|e: AddrEntry| entry_v6(e, ifindex)),
            found_v4 == first_of(entries@.take(i as int), ifname@, f4),
            found_v6 == first_of(entries@.take(i as int), ifname@, f6),
            found_v6 matches Some(v6) ==> v6.prefix_len <= 128,
        decreases entries.len() - i,
    {
        let e = &entries[i];
        assert(entries@.take(i + 1).drop_last() =~= entries@.take(i as int));
        assert(entries@.take(i + 1).last() == *e);
        if e.interface_name == *ifname {
            if found_v4.is_none() {
                found_v4 = describe_v4(e);
            }
            if found_v6.is_none() {
                found_v6 = describe_v6(e, ifindex);
            }
        }
        i += 1;
    }
    assert(entries@.take(i as int) =~= entries@);
    (found_v4, found_v6)
}

/// Describes interface `name` from the system's list of addresses; nothing when it
/// has neither an IPv4 nor a link-local IPv6 address.
pub fn discover(name: String, ifindex: u32, entries: &Vec<AddrEntry>) -> (r: Option<Iface>)
    ensures
        ({
            let v4 = first_of(entries@, name@, |e: AddrEntry| entry_v4(e));
            let v6 = first_of(entries@, name@, |e: AddrEntry| entry_v6(e, ifindex));
            match r {
                Some(iface) => {
                    &&& v4 is Some || v6 is Some
                    &&& iface == (Iface { name, ifindex, v4, v6 })
                    &&& iface.valid()
                },
                None => v4 is None && v6 is None,
            }
        }),
{
    let (v4, v6) = iface_addrs(&name, ifindex, entries);
    if v4.is_none() && v6.is_none() {
        return None;
    }
    Some(Iface { name, ifindex, v4, v6 })
}

/// A step of setting up the sockets. The numbers are positions in the list of
/// interfaces.
#[derive(Debug, Clone, Copy, PartialEq, Eq, Structural)]
pub enum SetupStep {
    /// Open the shared receive socket of a family.
    OpenReceive(IpFamily),
    /// Open the send socket of an interface.
    OpenSend(usize, IpFamily),
    /// Make the shared receive socket a member of the group on an interface.
    JoinGroup(usize, IpFamily),
}

/// Some interface has an address of the family.
pub open spec fn uses_family(ifaces: Seq<Iface>, family: IpFamily) -> bool {
    exists|i: int| #![trigger ifaces[i]]
        0 <= i < ifaces.len() && ifaces[i].family_seq().contains(family)
}

/// The steps that one interface needs for one family.
pub open spec fn family_steps(iface: Iface, i: usize, family: IpFamily) -> Seq<SetupStep> {
    if match family {
        IpFamily::V4 => iface.v4 is Some,
        IpFamily::V6 => iface.v6 is Some,
    } {
        seq![SetupStep::OpenSend(i, family), SetupStep::JoinGroup(i, family)]
    } else {
        Seq::empty()
    }
}

/// The steps that the first `n` interfaces need, in order.
pub open spec fn iface_steps(ifaces: Seq<Iface>, n: nat) -> Seq<SetupStep>
    decreases n,
{
    if n == 0 {
        Seq::empty()
    } else {
        let i = (n - 1) as nat;
        iface_steps(ifaces, i) + family_steps(ifaces[i as int], i as usize, IpFamily::V4)
            + family_steps(ifaces[i as int], i as usize, IpFamily::V6)
    }
}

/// Receive sockets for the families in use, IPv4 first.
pub open spec fn receive_steps(v4: bool, v6: bool) -> Seq<SetupStep> {
    (if v4 { seq![SetupStep::OpenReceive(IpFamily::V4)] } else { Seq::empty() })
        + (if v6 { seq![SetupStep::OpenReceive(IpFamily::V6)] } else { Seq::empty() })
}

/// All steps of setting up `ifaces`.
pub open spec fn all_steps(ifaces: Seq<Iface>) -> Seq<SetupStep> {
    receive_steps(uses_family(ifaces, IpFamily::V4), uses_family(ifaces, IpFamily::V6))
        + iface_steps(ifaces, ifaces.len())
}

/// Plans the sockets of `ifaces`: the receive sockets first, then for each
/// interface and family its send socket and group membership.
pub fn setup(ifaces: &Vec<Iface>) -> (r: Vec<SetupStep>)
    ensures
        r@ == all_steps(ifaces@),
{
    let mut have_v4 = false;
    let mut have_v6 = false;
    let mut i: usize = 0;
    while i < ifaces.len()
        invariant
            i <= ifaces.len(),
            have_v4 == exists|k: int| #![trigger ifaces@[k]] 0 <= k < i && ifaces@[k].v4 is Some,
            have_v6 == exists|k: int| #![trigger ifaces@[k]] 0 <= k < i && ifaces@[k].v6 is Some,
        decreases ifaces.len() - i,
    {
        let iface = &ifaces[i];
        assert(ifaces@[i as int] == *iface);
        have_v4 = have_v4 || iface.v4.is_some();
        have_v6 = have_v6 || iface.v6.is_some();
        i += 1;
    }
    proof {
        lemma_uses_family(ifaces@);
    }
    let mut out: Vec<SetupStep> = Vec::new();
    if have_v4 {
        out.push(SetupStep::OpenReceive(IpFamily::V4));
    }
    if have_v6 {
        out.push(SetupStep::OpenReceive(IpFamily::V6));
    }
    let ghost head = receive_steps(have_v4, have_v6);
    assert(out@ =~= head);
    let mut i: usize = 0;
    assert(head + iface_steps(ifaces@, 0) =~= head);
    while i < ifaces.len()
        invariant
            i <= ifaces.len(),
            out@ == head + iface_steps(ifaces@, i as nat),
        decreases ifaces.len() - i,
    {
        let iface = &ifaces[i];
        let ghost before = out@;
        if iface.v4.is_some() {
            out.push(SetupStep::OpenSend(i, IpFamily::V4));
            out.push(SetupStep::JoinGroup(i, IpFamily::V4));
        }
        assert(out@ =~= before + family_steps(*iface, i, IpFamily::V4));
        let ghost middle = out@;
        if iface.v6.is_some() {
            out.push(SetupStep::OpenSend(i, IpFamily::V6));
            out.push(SetupStep::JoinGroup(i, IpFamily::V6));
        }
        assert(out@ =~= middle + family_steps(*iface, i, IpFamily::V6));
        i += 1;
        assert(out@ =~= head + iface_steps(ifaces@, i as nat));
    }
    out
}

proof fn lemma_uses_family(ifaces: Seq<Iface>)
    ensures
        uses_family(ifaces, IpFamily::V4) == exists|k: int|
            #![trigger ifaces[k]]
            0 <= k < ifaces.len() && ifaces[k].v4 is Some,
        uses_family(ifaces, IpFamily::V6) == exists|k: int|
            #![trigger ifaces[k]]
            0 <= k < ifaces.len() && ifaces[k].v6 is Some,
{
    assert forall|k: int| 0 <= k < ifaces.len() implies (#[trigger] ifaces[k]).family_seq().contains(
        IpFamily::V4,
    ) == (ifaces[k].v4 is Some) && ifaces[k].family_seq().contains(IpFamily::V6) == (
    ifaces[k].v6 is Some) by {
        let s = ifaces[k].family_seq();
        if ifaces[k].v4 is Some {
            assert(s[0] == IpFamily::V4);
        }
        if ifaces[k].v6 is Some {
            assert(s[s.len() - 1] == IpFamily::V6);
        }
    }
}

} // verus!
