//! Configuration: what the file says, validated into what the daemon uses.
//!
//! **IPv4-only filters.** The subnets of `blacklist` and `whitelist` must be IPv4
//! CIDRs; an IPv6 source is in none of them.

use vstd::prelude::*;

use crate::addr::{IpAddr, Ipv4Addr};
use crate::cache::DEFAULT_MAX_ENTRIES;
use crate::text::{
    chars_of, cut, dotted_quad, find_char, parse_ipv4, parse_u32, split_once, unsigned,
};

verus! {

/// A reason why a text is no subnet.
pub enum SubnetFault {
    Ipv6,
    NoSlash,
    BadAddress,
    BadMask,
    LongMask,
}

/// The words for a reason.
pub open spec fn subnet_fault_text(fault: SubnetFault) -> Seq<char> {
    match fault {
        SubnetFault::Ipv6 => "IPv6 not supported (IPv4 CIDR only)"@,
        SubnetFault::NoSlash => "missing /"@,
        SubnetFault::BadAddress => "bad IPv4 address"@,
        SubnetFault::BadMask => "bad mask"@,
        SubnetFault::LongMask => "mask > 32"@,
    }
}

/// A reason why a configuration is refused.
#[verifier::ext_equal]
pub enum ConfigFault {
    BadSubnet { text: Seq<char>, why: Seq<char> },
    NoInterfaces,
    BlackAndWhite,
    BadCacheMaxTtl(u64),
}

/// The error of a configuration that is refused.
#[derive(Debug)]
pub enum ConfigError {
    /// A subnet that is none, and why.
    BadSubnet(String, &'static str),
    /// At least one interface is needed.
    NoInterfaces,
    /// The blacklist and the whitelist exclude each other.
    BlackAndWhite,
    /// The limit on cached lifetimes is zero or above 32 bits.
    BadCacheMaxTtl(u64),
}

impl View for ConfigError {
    type V = ConfigFault;

    open spec fn view(&self) -> ConfigFault {
        match self {
            ConfigError::BadSubnet(text, why) => ConfigFault::BadSubnet { text: text@, why: why@ },
            ConfigError::NoInterfaces => ConfigFault::NoInterfaces,
            ConfigError::BlackAndWhite => ConfigFault::BlackAndWhite,
            ConfigError::BadCacheMaxTtl(n) => ConfigFault::BadCacheMaxTtl(*n),
        }
    }
}

/// One service that the daemon publishes.
#[derive(Debug)]
pub struct ServiceConfig {
    /// Instance name shown to users, e.g. "Router Admin".
    pub name: String,
    /// Service type, e.g. "_http._tcp.local.".
    pub service: String,
    /// TCP or UDP port.
    pub port: u16,
    /// The key=value entries of the TXT record.
    pub txt: Vec<String>,
    /// The host that the service points at, instead of the daemon's own.
    pub host: Option<String>,
}

/// What the configuration file says, with defaults for what it leaves out.
#[derive(Debug)]
pub struct RawConfig {
    pub interfaces: Vec<String>,
    pub repeat: bool,
    pub answer_from_cache: bool,
    pub blacklist: Vec<String>,
    pub whitelist: Vec<String>,
    pub hostname: Option<String>,
    pub browse: Vec<String>,
    pub browse_interval_secs: u64,
    pub cache_tick_secs: u64,
    pub max_cache_entries: usize,
    pub cache_max_ttl_secs: Option<u64>,
    pub services: Vec<ServiceConfig>,
}

/// Default of the switches.
pub fn default_true() -> (r: bool)
    ensures
        r,
{
    true
}

/// Default ceiling of the browse interval.
pub fn default_browse_secs() -> (r: u64)
    ensures
        r == 60,
{
    60
}

/// Default browse targets: the DNS-SD list of service types.
pub fn default_browse() -> (r: Vec<String>)
    ensures
        r@.len() == 1,
        r@[0]@ == "_services._dns-sd._udp.local."@,
{
    let mut v: Vec<String> = Vec::new();
    v.push("_services._dns-sd._udp.local.".to_owned());
    v
}

/// Default time between sweeps of the cache.
pub fn default_cache_tick() -> (r: u64)
    ensures
        r == 5,
{
    5
}

/// Default size of the cache.
pub fn default_max_cache_entries() -> (r: usize)
    ensures
        r == DEFAULT_MAX_ENTRIES,
        r == 4096,
{
    DEFAULT_MAX_ENTRIES
}

/// IPv4 CIDR subnet (used for the source filters).
#[derive(Debug, Clone, Copy, PartialEq, Eq, Structural)]
pub struct Subnet {
    pub addr: Ipv4Addr,
    pub mask: Ipv4Addr,
    pub net: Ipv4Addr,
}

impl Subnet {
    /// `ip` is in the subnet.
    pub open spec fn has(self, ip: Ipv4Addr) -> bool {
        (ip.bits & self.mask.bits) == self.net.bits
    }

    /// `ip` is in the subnet; an IPv6 address never is.
    pub open spec fn covers(self, ip: IpAddr) -> bool {
        ip matches IpAddr::V4(a) && self.has(a)
    }

    pub fn matches(&self, ip: Ipv4Addr) -> (r: bool)
        ensures
            r == self.has(ip),
    {
        (ip.bits & self.mask.bits) == self.net.bits
    }
}

/// The mask whose first `bits` bits are ones.
pub open spec fn mask_v4(bits: u32) -> u32 {
    if bits == 0 {
        0
    } else {
        0xffff_ffffu32 << ((32 - bits) as u32)
    }
}

/// The subnet of an address and a prefix length.
pub open spec fn subnet_with(addr: u32, bits: u32) -> Subnet {
    Subnet {
        addr: Ipv4Addr { bits: addr },
        mask: Ipv4Addr { bits: mask_v4(bits) },
        net: Ipv4Addr { bits: addr & mask_v4(bits) },
    }
}

/// The subnet that a text denotes, or why it denotes none.
pub open spec fn subnet_of(s: Seq<char>) -> Result<Subnet, SubnetFault> {
    if s.contains(':') {
        Err(SubnetFault::Ipv6)
    } else {
        match cut(s, '/') {
            None => Err(SubnetFault::NoSlash),
            Some((addr, mask)) => match dotted_quad(addr) {
                None => Err(SubnetFault::BadAddress),
                Some(addr) => match unsigned(mask) {
                    None => Err(SubnetFault::BadMask),
                    Some(bits) => if bits > 32 {
                        Err(SubnetFault::LongMask)
                    } else {
                        Ok(subnet_with(addr, bits))
                    },
                },
            },
        }
    }
}

/// Reads a subnet such as `10.0.0.0/8`.
pub fn parse_subnet(s: &str) -> (r: Result<Subnet, ConfigError>)
    ensures
        match r {
            Ok(n) => subnet_of(s@) == Ok::<Subnet, SubnetFault>(n),
            Err(e) => subnet_of(s@) is Err && e@ == (ConfigFault::BadSubnet {
                text: s@,
                why: subnet_fault_text(subnet_of(s@)->Err_0),
            }),
        },
{
    let text = chars_of(s);
    if find_char(&text, ':').is_some() {
        return Err(ConfigError::BadSubnet(s.to_owned(), "IPv6 not supported (IPv4 CIDR only)"));
    }
    let (addr, mask) = match split_once(&text, '/') {
        Some(p) => p,
        None => return Err(ConfigError::BadSubnet(s.to_owned(), "missing /")),
    };
    let addr: u32 = match parse_ipv4(&addr) {
        Some(a) => a,
        None => return Err(ConfigError::BadSubnet(s.to_owned(), "bad IPv4 address")),
    };
    let bits: u32 = match parse_u32(&mask) {
        Some(b) => b,
        None => return Err(ConfigError::BadSubnet(s.to_owned(), "bad mask")),
    };
    if bits > 32 {
        return Err(ConfigError::BadSubnet(s.to_owned(), "mask > 32"));
    }
    let mask: u32 = if bits == 0 {
        0
    } else {
        0xffff_ffffu32 << (32 - bits)
    };
    Ok(
        Subnet {
            addr: Ipv4Addr { bits: addr },
            mask: Ipv4Addr { bits: mask },
            net: Ipv4Addr { bits: addr & mask },
        },
    )
}

/// The first text of the list that is no subnet.
pub open spec fn first_bad_subnet(list: Seq<String>) -> Option<ConfigFault>
    decreases list.len(),
{
    if list.len() == 0 {
        None
    } else {
        match first_bad_subnet(list.drop_last()) {
            Some(f) => Some(f),
            None => match subnet_of(list.last()@) {
                Ok(_) => None,
                Err(fault) => Some(
                    ConfigFault::BadSubnet {
                        text: list.last()@,
                        why: subnet_fault_text(fault),
                    },
                ),
            },
        }
    }
}

/// `subnets` are what the texts of `list` denote.
pub open spec fn denotes(list: Seq<String>, subnets: Seq<Subnet>) -> bool {
    &&& subnets.len() == list.len()
    &&& forall|i: int| #![trigger subnets[i]]
        0 <= i < list.len() ==> subnet_of(list[i]@) == Ok::<Subnet, SubnetFault>(subnets[i])
}

fn parse_subnets(list: &Vec<String>) -> (r: Result<Vec<Subnet>, ConfigError>)
    ensures
        match r {
            Ok(v) => first_bad_subnet(list@) is None && denotes(list@, v@),
            Err(e) => first_bad_subnet(list@) == Some(e@),
        },
{
    let mut out: Vec<Subnet> = Vec::new();
    let mut i: usize = 0;
    while i < list.len()
        invariant
            i <= list.len(),
            first_bad_subnet(list@.take(i as int)) is None,
            denotes(list@.take(i as int), out@),
        decreases list.len() - i,
    {
        let ghost before = list@.take(i as int);
        let ghost now = list@.take(i + 1);
        assert(now.drop_last() =~= before);
        assert(now.last() == list@[i as int]);
        match parse_subnet(list[i].as_str()) {
            Ok(n) => {
                out.push(n);
                assert forall|k: int| #![trigger out@[k]] 0 <= k < now.len() implies subnet_of(
                    now[k]@,
                ) == Ok::<Subnet, SubnetFault>(out@[k]) by {
                    if k < i {
                        assert(before[k] == now[k]);
                    }
                }
            },
            Err(e) => {
                proof {
                    lemma_bad_prefix(list@, i + 1);
                }
                return Err(e);
            },
        }
        i += 1;
    }
    assert(list@.take(i as int) =~= list@);
    Ok(out)
}

proof fn lemma_bad_prefix(list: Seq<String>, k: int)
    requires
        0 <= k <= list.len(),
        first_bad_subnet(list.take(k)) is Some,
    ensures
        first_bad_subnet(list) == first_bad_subnet(list.take(k)),
    decreases list.len() - k,
{
    if k < list.len() {
        assert(list.take(k + 1).drop_last() =~= list.take(k));
        lemma_bad_prefix(list, k + 1);
    } else {
        assert(list.take(k) =~= list);
    }
}

/// Validated runtime configuration.
#[derive(Debug)]
pub struct Resolved {
    pub interfaces: Vec<String>,
    pub repeat: bool,
    pub answer_from_cache: bool,
    pub hostname: Option<String>,
    pub browse: Vec<String>,
    pub browse_interval_secs: u64,
    pub cache_tick_secs: u64,
    pub max_cache_entries: usize,
    pub cache_max_ttl_secs: Option<u64>,
    pub services: Vec<ServiceConfig>,
    pub blacklist: Vec<Subnet>,
    pub whitelist: Vec<Subnet>,
}

/// Why a configuration is refused, if it is.
pub open spec fn config_fault(raw: RawConfig) -> Option<ConfigFault> {
    if raw.interfaces@.len() == 0 {
        Some(ConfigFault::NoInterfaces)
    } else if raw.blacklist@.len() > 0 && raw.whitelist@.len() > 0 {
        Some(ConfigFault::BlackAndWhite)
    } else if raw.cache_max_ttl_secs matches Some(n) && !(1 <= n <= u32::MAX) {
        Some(ConfigFault::BadCacheMaxTtl(raw.cache_max_ttl_secs->0))
    } else if first_bad_subnet(raw.blacklist@) is Some {
        first_bad_subnet(raw.blacklist@)
    } else {
        first_bad_subnet(raw.whitelist@)
    }
}

impl Resolved {
    /// Validates what the configuration file says.
    ///
    /// Instance names are not checked here: DNS-SD allows spaces and other
    /// punctuation in them. They are checked as labels when the records are built.
    pub fn parse(raw: RawConfig) -> (r: Result<Resolved, ConfigError>)
        ensures
            match r {
                Ok(c) => {
                    &&& config_fault(raw) is None
                    &&& c.interfaces == raw.interfaces
                    &&& c.repeat == raw.repeat
                    &&& c.answer_from_cache == raw.answer_from_cache
                    &&& c.hostname == raw.hostname
                    &&& c.browse == raw.browse
                    &&& c.browse_interval_secs == raw.browse_interval_secs
                    &&& c.cache_tick_secs == raw.cache_tick_secs
                    &&& c.max_cache_entries == raw.max_cache_entries
                    &&& c.cache_max_ttl_secs == raw.cache_max_ttl_secs
                    &&& c.services == raw.services
                    &&& denotes(raw.blacklist@, c.blacklist@)
                    &&& denotes(raw.whitelist@, c.whitelist@)
                },
                Err(e) => config_fault(raw) == Some(e@),
            },
    {
        if raw.interfaces.len() == 0 {
            return Err(ConfigError::NoInterfaces);
        }
        if raw.blacklist.len() > 0 && raw.whitelist.len() > 0 {
            return Err(ConfigError::BlackAndWhite);
        }
        if let Some(n) = raw.cache_max_ttl_secs {
            if n < 1 || n > u32::MAX as u64 {
                return Err(ConfigError::BadCacheMaxTtl(n));
            }
        }
        let blacklist = match parse_subnets(&raw.blacklist) {
            Ok(v) => v,
            Err(e) => return Err(e),
        };
        let whitelist = match parse_subnets(&raw.whitelist) {
            Ok(v) => v,
            Err(e) => return Err(e),
        };
        Ok(
            Resolved {
                interfaces: raw.interfaces,
                repeat: raw.repeat,
                answer_from_cache: raw.answer_from_cache,
                hostname: raw.hostname,
                browse: raw.browse,
                browse_interval_secs: raw.browse_interval_secs,
                cache_tick_secs: raw.cache_tick_secs,
                max_cache_entries: raw.max_cache_entries,
                cache_max_ttl_secs: raw.cache_max_ttl_secs,
                services: raw.services,
                blacklist,
                whitelist,
            },
        )
    }

    /// `ip` passes the filters: it is in a subnet of the whitelist, or without
    /// one in no subnet of the blacklist.
    pub open spec fn admits(self, ip: IpAddr) -> bool {
        if self.whitelist@.len() > 0 {
            some_covers(self.whitelist@, ip)
        } else {
            !some_covers(self.blacklist@, ip)
        }
    }

    /// Returns true if `ip` is allowed by the configured filters.
    pub fn allow_source(&self, ip: IpAddr) -> (r: bool)
        ensures
            r == self.admits(ip),
    {
        if self.whitelist.len() > 0 {
            any_covers(&self.whitelist, ip)
        } else {
            !any_covers(&self.blacklist, ip)
        }
    }
}

/// Some subnet of the list holds `ip`.
pub open spec fn some_covers(list: Seq<Subnet>, ip: IpAddr) -> bool {
    exists|i: int| #![trigger list[i]] 0 <= i < list.len() && list[i].covers(ip)
}

fn any_covers(list: &Vec<Subnet>, ip: IpAddr) -> (r: bool)
    ensures
        r == some_covers(list@, ip),
{
    let a = match ip {
        IpAddr::V4(a) => a,
        IpAddr::V6(_) => return false,
    };
    let mut i: usize = 0;
    while i < list.len()
        invariant
            ip == IpAddr::V4(a),
            i <= list.len(),
            forall|k: int| #![trigger list@[k]] 0 <= k < i ==> !list@[k].covers(ip),
        decreases list.len() - i,
    {
        if list[i].matches(a) {
            assert(list@[i as int].covers(ip));
            return true;
        }
        i += 1;
    }
    false
}

} // verus!
