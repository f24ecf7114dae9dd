//! Internet addresses as plain integers.

use vstd::prelude::*;

verus! {

/// An IPv4 address; the first octet is the most significant byte of `bits`.
#[derive(Debug, Clone, Copy, PartialEq, Eq, Structural)]
pub struct Ipv4Addr {
    pub bits: u32,
}

impl Ipv4Addr {
    /// The address `a.b.c.d`.
    pub fn new(a: u8, b: u8, c: u8, d: u8) -> (r: Ipv4Addr)
        ensures
            r.bits == a * 0x100_0000 + b * 0x1_0000 + c * 0x100 + d,
    {
        Ipv4Addr { bits: a as u32 * 0x100_0000 + b as u32 * 0x1_0000 + c as u32 * 0x100 + d as u32 }
    }
}

/// An IPv6 address; the first octet is the most significant byte of `bits`.
#[derive(Debug, Clone, Copy, PartialEq, Eq, Structural)]
pub struct Ipv6Addr {
    pub bits: u128,
}

impl Ipv6Addr {
    /// The address whose 128 bits are `bits`.
    pub fn from_bits(bits: u128) -> (r: Ipv6Addr)
        ensures
            r.bits == bits,
    {
        Ipv6Addr { bits }
    }

    /// The first ten bits are `fe80::/10`.
    pub open spec fn link_local(self) -> bool {
        self.bits / 0x40_0000_0000_0000_0000_0000_0000_0000 == 0x3fa
    }

    /// True for a unicast link-local address (`fe80::/10`).
    pub fn is_unicast_link_local(&self) -> (r: bool)
        ensures
            r == self.link_local(),
    {
        self.bits / 0x40_0000_0000_0000_0000_0000_0000_0000 == 0x3fa
    }
}

/// An address of either family.
#[derive(Debug, Clone, Copy, PartialEq, Eq, Structural)]
pub enum IpAddr {
    V4(Ipv4Addr),
    V6(Ipv6Addr),
}

/// The source of a datagram.
#[derive(Debug, Clone, Copy, PartialEq, Eq, Structural)]
pub struct SocketAddr {
    pub ip: IpAddr,
    pub port: u16,
}

} // verus!
