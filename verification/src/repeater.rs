//! Cross-interface repeater: every datagram goes on to the other interfaces.
//!
//! It serves clients that do not find services across subnets by themselves; the
//! responder covers the daemon's own services.

use vstd::prelude::*;

use crate::addr::IpAddr;
use crate::iface::{Datagram, Iface};

verus! {

/// Every interface is valid.
pub open spec fn all_valid(ifaces: Seq<Iface>) -> bool {
    forall|i: int| #![trigger ifaces[i]] 0 <= i < ifaces.len() ==> ifaces[i].valid()
}

/// `source` is in the network of some interface.
pub open spec fn on_some_link(ifaces: Seq<Iface>, source: IpAddr) -> bool {
    exists|i: int| #![trigger ifaces[i]] 0 <= i < ifaces.len() && ifaces[i].on_link(source)
}

/// Whether a datagram goes on to interface `j`.
pub open spec fn is_target(
    recv_idx: Option<usize>,
    source: IpAddr,
    ifaces: Seq<Iface>,
    j: int,
) -> bool {
    match recv_idx {
        Some(i) => j != i,
        None => on_some_link(ifaces, source) && !ifaces[j].on_link(source),
    }
}

/// The targets among the first `n` interfaces, in order.
pub open spec fn targets(
    recv_idx: Option<usize>,
    source: IpAddr,
    ifaces: Seq<Iface>,
    n: nat,
) -> Seq<usize>
    decreases n,
{
    if n == 0 {
        Seq::empty()
    } else {
        let rest = targets(recv_idx, source, ifaces, (n - 1) as nat);
        if is_target(recv_idx, source, ifaces, n - 1) {
            rest.push((n - 1) as usize)
        } else {
            rest
        }
    }
}

/// Decides to which interfaces a datagram goes on.
///
/// With a known ingress, to every other interface. Otherwise to the interfaces
/// whose network does not hold the source, but only when some interface's does: a
/// source on no monitored network is not reflected anywhere, for that would inject
/// off-link traffic, or echo a packet onto its own segment.
pub fn forward_targets(recv_idx: Option<usize>, source: IpAddr, ifaces: &Vec<Iface>) -> (r: Vec<
    usize,
>)
    requires
        all_valid(ifaces@),
    ensures
        r@ == targets(recv_idx, source, ifaces@, ifaces@.len()),
{
    let known = position_on_link(ifaces, source).is_some();
    let mut out: Vec<usize> = Vec::new();
    let mut j: usize = 0;
    while j < ifaces.len()
        invariant
            all_valid(ifaces@),
            known == on_some_link(ifaces@, source),
            j <= ifaces.len(),
            out@ == targets(recv_idx, source, ifaces@, j as nat),
        decreases ifaces.len() - j,
    {
        assert(ifaces@[j as int].valid());
        let goes = match recv_idx {
            Some(i) => j != i,
            None => known && !ifaces[j].contains(source),
        };
        if goes {
            out.push(j);
        }
        j += 1;
    }
    out
}

/// `i` is the first interface whose network holds `source`.
pub open spec fn first_on_link(ifaces: Seq<Iface>, source: IpAddr, i: int) -> bool {
    &&& 0 <= i < ifaces.len()
    &&& ifaces[i].on_link(source)
    &&& forall|k: int| #![trigger ifaces[k]] 0 <= k < i ==> !ifaces[k].on_link(source)
}

fn position_on_link(ifaces: &Vec<Iface>, source: IpAddr) -> (r: Option<usize>)
    requires
        all_valid(ifaces@),
    ensures
        match r {
            Some(i) => first_on_link(ifaces@, source, i as int),
            None => !on_some_link(ifaces@, source),
        },
        r is Some == on_some_link(ifaces@, source),
{
    let mut i: usize = 0;
    while i < ifaces.len()
        invariant
            all_valid(ifaces@),
            i <= ifaces.len(),
            forall|k: int| #![trigger ifaces@[k]] 0 <= k < i ==> !ifaces@[k].on_link(source),
        decreases ifaces.len() - i,
    {
        assert(ifaces@[i as int].valid());
        if ifaces[i].contains(source) {
            return Some(i);
        }
        i += 1;
    }
    None
}

/// `i` is the first interface with index `ifindex`.
pub open spec fn first_with_index(ifaces: Seq<Iface>, ifindex: u32, i: int) -> bool {
    &&& 0 <= i < ifaces.len()
    &&& ifaces[i].ifindex == ifindex
    &&& forall|k: int| #![trigger ifaces[k]] 0 <= k < i ==> ifaces[k].ifindex != ifindex
}

/// Some interface has index `ifindex`.
pub open spec fn index_known(ifaces: Seq<Iface>, ifindex: u32) -> bool {
    exists|i: int| #![trigger ifaces[i]] 0 <= i < ifaces.len() && ifaces[i].ifindex == ifindex
}

/// A link-local IPv6 address, which is on-link everywhere.
pub open spec fn is_link_local(ip: IpAddr) -> bool {
    ip matches IpAddr::V6(a) && a.link_local()
}

/// The interface on which a datagram arrived, if that can be told.
pub open spec fn recv_iface(
    source: IpAddr,
    recv_ifindex: Option<u32>,
    ifaces: Seq<Iface>,
) -> Option<usize> {
    if recv_ifindex is Some && index_known(ifaces, recv_ifindex->0) {
        Some((choose|i: int| first_with_index(ifaces, recv_ifindex->0, i)) as usize)
    } else if is_link_local(source) || !on_some_link(ifaces, source) {
        None
    } else {
        Some((choose|i: int| first_on_link(ifaces, source, i)) as usize)
    }
}

/// Finds the position of the interface on which a datagram arrived: by the index
/// that the system reports, or else by the network of the source.
///
/// Link-local IPv6 sources share one network on every interface, so that for them
/// only the reported index counts.
pub fn identify_recv_iface(pkt: &Datagram, ifaces: &Vec<Iface>) -> (r: Option<usize>)
    requires
        all_valid(ifaces@),
    ensures
        r == recv_iface(pkt.source.ip, pkt.recv_ifindex, ifaces@),
        r matches Some(i) ==> i < ifaces.len(),
{
    if let Some(ifindex) = pkt.recv_ifindex {
        let mut i: usize = 0;
        while i < ifaces.len()
            invariant
                pkt.recv_ifindex == Some(ifindex),
                i <= ifaces.len(),
                forall|k: int| #![trigger ifaces@[k]] 0 <= k < i ==> ifaces@[k].ifindex != ifindex,
            decreases ifaces.len() - i,
        {
            if ifaces[i].ifindex == ifindex {
                let ghost chosen = choose|i: int| first_with_index(ifaces@, ifindex, i);
                assert(first_with_index(ifaces@, ifindex, i as int));
                assert(first_with_index(ifaces@, ifindex, chosen));
                assert(ifaces@[chosen].ifindex == ifindex && ifaces@[i as int].ifindex == ifindex);
                assert(chosen == i);
                assert(index_known(ifaces@, ifindex));
                return Some(i);
            }
            i += 1;
        }
        assert(!index_known(ifaces@, ifindex));
    }
    let from = pkt.source.ip;
    if let IpAddr::V6(ip) = from {
        if ip.is_unicast_link_local() {
            return None;
        }
    }
    let r = position_on_link(ifaces, from);
    proof {
        if let Some(i) = r {
            let chosen = choose|i: int| first_on_link(ifaces@, from, i);
            assert(first_on_link(ifaces@, from, i as int));
            assert(first_on_link(ifaces@, from, chosen));
            assert(ifaces@[chosen].on_link(from) && ifaces@[i as int].on_link(from));
            assert(chosen == i);
        }
    }
    r
}

} // verus!
