//! Laws of the configuration.

use vstd::prelude::*;

use crate::addr::{IpAddr, Ipv4Addr};
use crate::config::{
    config_fault, denotes, first_bad_subnet, mask_v4, some_covers, subnet_fault_text, subnet_of,
    subnet_with, ConfigFault, RawConfig, Resolved, Subnet, SubnetFault,
};
use crate::laws::text::{
    addresses_have_one_text, cut_parts_make_up_the_text, octet_text, octets_have_one_text,
    quad_text, texts_are_cut_at_the_first_mark,
};
use crate::text::{is_digit, is_number, unsigned};

verus! {

/// A subnet holds its own address; one of no bits holds every address, and one of 32 bits
/// holds its own address alone.
pub proof fn subnets_hold_their_addresses(addr: u32, bits: u32, ip: u32)
    requires
        bits <= 32,
    ensures
        subnet_with(addr, bits).has(Ipv4Addr { bits: addr }),
        subnet_with(addr, 0).has(Ipv4Addr { bits: ip }),
        subnet_with(addr, 32).has(Ipv4Addr { bits: ip }) == (ip == addr),
{
    assert(ip & 0 == 0) by (bit_vector);
    assert(addr & 0 == 0) by (bit_vector);
    assert(ip & (0xffff_ffffu32 << 0u32) == ip) by (bit_vector);
    assert(addr & (0xffff_ffffu32 << 0u32) == addr) by (bit_vector);
}

/// Whether an address is in a subnet depends on the bits that the mask covers alone.
pub proof fn masked_bits_decide(addr: u32, bits: u32, ip: u32, other: u32)
    requires
        bits <= 32,
        ip & mask_v4(bits) == other & mask_v4(bits),
    ensures
        subnet_with(addr, bits).has(Ipv4Addr { bits: ip }) == subnet_with(addr, bits).has(
            Ipv4Addr { bits: other },
        ),
{
}

/// Without filters every source is allowed.
pub proof fn no_filter_allows_every_source(c: Resolved, ip: IpAddr)
    requires
        c.whitelist@.len() == 0,
        c.blacklist@.len() == 0,
    ensures
        c.admits(ip),
{
}

/// With a whitelist just its subnets are allowed; a blacklist alone forbids just its own.
pub proof fn filters_decide_by_their_subnets(c: Resolved, ip: IpAddr)
    ensures
        c.whitelist@.len() > 0 ==> c.admits(ip) == some_covers(c.whitelist@, ip),
        c.whitelist@.len() == 0 ==> c.admits(ip) == !some_covers(c.blacklist@, ip),
{
}

/// A configuration that passes has an interface, at most one kind of filter, and a limit on
/// cached lifetimes that fits a record.
pub proof fn accepted_configurations_are_sound(raw: RawConfig)
    requires
        config_fault(raw) is None,
    ensures
        raw.interfaces@.len() > 0,
        raw.blacklist@.len() == 0 || raw.whitelist@.len() == 0,
        raw.cache_max_ttl_secs matches Some(n) ==> 1 <= n <= u32::MAX,
{
}

/// IPv6 subnets are refused.
pub proof fn ipv6_subnets_are_refused(s: Seq<char>)
    requires
        s.contains(':'),
    ensures
        subnet_of(s) is Err,
{
}

/// An address is in a subnet exactly when its first bits are those of the subnet's address.
pub proof fn subnets_are_told_by_their_first_bits(addr: u32, bits: u32, ip: u32)
    requires
        1 <= bits <= 32,
    ensures
        subnet_with(addr, bits).has(Ipv4Addr { bits: ip }) <==> ip >> ((32 - bits) as u32) == addr
            >> ((32 - bits) as u32),
        subnet_with(addr, bits).addr.bits == addr,
{
    let s = (32 - bits) as u32;
    assert(ip & (0xffff_ffffu32 << s) == addr & (0xffff_ffffu32 << s) <==> ip >> s == addr >> s)
        by (bit_vector)
        requires
            s < 32,
    ;
}

/// `c` occurs in `quad_text(..)`: it is a digit or a point.
proof fn lemma_quad_chars(a: u8, b: u8, c: u8, d: u8, x: char)
    requires
        quad_text(a, b, c, d).contains(x),
    ensures
        is_digit(x) || x == '.',
{
    octets_have_one_text(octet_text(a), a);
    octets_have_one_text(octet_text(b), b);
    octets_have_one_text(octet_text(c), c);
    octets_have_one_text(octet_text(d), d);
    let t0 = octet_text(a);
    let t1 = octet_text(b);
    let t2 = octet_text(c);
    let t3 = octet_text(d);
    assert(is_number(t0) && is_number(t1) && is_number(t2) && is_number(t3));
    let s2 = t2.push('.') + t3;
    let s1 = t1.push('.') + s2;
    let s = quad_text(a, b, c, d);
    let k = choose|k: int| 0 <= k < s.len() && s[k] == x;
    if k < t0.len() {
        assert(is_digit(t0[k]));
    } else if k > t0.len() {
        let k1 = k - t0.len() - 1;
        assert(s[k] == s1[k1]);
        if k1 < t1.len() {
            assert(is_digit(t1[k1]));
        } else if k1 > t1.len() {
            let k2 = k1 - t1.len() - 1;
            assert(s1[k1] == s2[k2]);
            if k2 < t2.len() {
                assert(is_digit(t2[k2]));
            } else if k2 > t2.len() {
                let k3 = k2 - t2.len() - 1;
                assert(s2[k2] == t3[k3]);
                assert(is_digit(t3[k3]));
            }
        }
    }
}

proof fn lemma_unsigned_chars(m: Seq<char>, x: char)
    requires
        unsigned(m) is Some,
        m.contains(x),
    ensures
        is_digit(x) || x == '+',
{
    let k = choose|k: int| 0 <= k < m.len() && m[k] == x;
    if m[0] == '+' {
        if k > 0 {
            assert(is_digit(m.skip(1)[k - 1]));
        }
    } else {
        assert(is_digit(m[k]));
    }
}

proof fn lemma_parts_contain(head: Seq<char>, c: char, tail: Seq<char>, x: char)
    ensures
        (head.push(c) + tail).contains(x) <==> head.contains(x) || x == c || tail.contains(x),
{
    let s = head.push(c) + tail;
    let n = head.len() as int;
    if head.contains(x) {
        let k = choose|k: int| 0 <= k < head.len() && head[k] == x;
        assert(s[k] == x);
    }
    assert(s[n] == c);
    if tail.contains(x) {
        let k = choose|k: int| 0 <= k < tail.len() && tail[k] == x;
        assert(s[n + 1 + k] == x);
    }
    if s.contains(x) {
        let k = choose|k: int| 0 <= k < s.len() && s[k] == x;
        if k < n {
            assert(head[k] == x);
        } else if k > n {
            assert(tail[k - n - 1] == x);
        }
    }
}

/// A subnet is read from an address, a slash and the number of its bits.
pub proof fn subnets_are_read_from_address_and_length(
    a: u8,
    b: u8,
    c: u8,
    d: u8,
    length: Seq<char>,
    bits: u32,
)
    requires
        unsigned(length) == Some(bits),
    ensures
        subnet_of(quad_text(a, b, c, d).push('/') + length) == (if bits <= 32 {
            Ok::<Subnet, SubnetFault>(
                subnet_with((a * 0x100_0000 + b * 0x1_0000 + c * 0x100 + d) as u32, bits),
            )
        } else {
            Err(SubnetFault::LongMask)
        }),
{
    let addr = quad_text(a, b, c, d);
    let s = addr.push('/') + length;
    lemma_parts_contain(addr, '/', length, ':');
    if addr.contains(':') {
        lemma_quad_chars(a, b, c, d, ':');
    }
    if addr.contains('/') {
        lemma_quad_chars(a, b, c, d, '/');
    }
    if length.contains(':') {
        lemma_unsigned_chars(length, ':');
    }
    texts_are_cut_at_the_first_mark(addr, '/', length);
    addresses_have_one_text(addr, a, b, c, d);
}

/// Nothing else is a subnet, and the reason tells what is wrong: a colon anywhere, no slash,
/// no address before the first slash, no number after it, or one above 32.
pub proof fn other_texts_are_no_subnets(s: Seq<char>, head: Seq<char>, tail: Seq<char>)
    requires
        !head.contains('/'),
    ensures
        subnet_of(s) == Err::<Subnet, SubnetFault>(SubnetFault::Ipv6) <==> s.contains(':'),
        subnet_of(s) == Err::<Subnet, SubnetFault>(SubnetFault::NoSlash) <==> !s.contains(':')
            && !s.contains('/'),
        !head.contains(':') && !tail.contains(':') ==> {
            let r = subnet_of(head.push('/') + tail);
            let quad = exists|a: u8, b: u8, c: u8, d: u8|
                head == #[trigger] quad_text(a, b, c, d);
            &&& r == Err::<Subnet, SubnetFault>(SubnetFault::BadAddress) <==> !quad
            &&& r == Err::<Subnet, SubnetFault>(SubnetFault::BadMask) <==> quad && unsigned(tail)
                is None
            &&& r is Ok <==> quad && unsigned(tail) is Some && unsigned(tail)->0 <= 32
        },
{
    cut_parts_make_up_the_text(s, '/');
    texts_are_cut_at_the_first_mark(head, '/', tail);
    lemma_parts_contain(head, '/', tail, ':');
    addresses_have_one_text(head, 0, 0, 0, 0);
}

/// The words that go with each reason.
pub proof fn reasons_have_their_words()
    ensures
        subnet_fault_text(SubnetFault::Ipv6) == "IPv6 not supported (IPv4 CIDR only)"@,
        subnet_fault_text(SubnetFault::NoSlash) == "missing /"@,
        subnet_fault_text(SubnetFault::BadAddress) == "bad IPv4 address"@,
        subnet_fault_text(SubnetFault::BadMask) == "bad mask"@,
        subnet_fault_text(SubnetFault::LongMask) == "mask > 32"@,
{
}

proof fn lemma_first_bad(list: Seq<String>, i: int)
    requires
        0 <= i <= list.len(),
        forall|k: int| #![trigger list[k]] 0 <= k < i ==> subnet_of(list[k]@) is Ok,
    ensures
        i == list.len() ==> first_bad_subnet(list) is None,
        i < list.len() && subnet_of(list[i]@) is Err ==> first_bad_subnet(list) == Some(
            ConfigFault::BadSubnet {
                text: list[i]@,
                why: subnet_fault_text(subnet_of(list[i]@)->Err_0),
            },
        ),
    decreases list.len(),
{
    if list.len() > 0 {
        let rest = list.drop_last();
        assert forall|k: int| #![trigger rest[k]] 0 <= k < i && k < rest.len() implies subnet_of(
            rest[k]@,
        ) is Ok by {
            assert(rest[k] == list[k]);
        }
        if i < list.len() {
            lemma_first_bad(rest, i);
            if i < rest.len() {
                assert(rest[i] == list[i]);
            }
        } else {
            lemma_first_bad(rest, rest.len() as int);
            assert(list.last() == list[list.len() - 1]);
        }
    }
}

/// Of a list the first text that is no subnet is reported, with its reason; a list of subnets
/// is accepted.
pub proof fn the_first_bad_subnet_is_reported(list: Seq<String>, i: int)
    requires
        0 <= i < list.len(),
        forall|k: int| #![trigger list[k]] 0 <= k < i ==> subnet_of(list[k]@) is Ok,
    ensures
        subnet_of(list[i]@) matches Err(why) ==> first_bad_subnet(list) == Some(
            ConfigFault::BadSubnet { text: list[i]@, why: subnet_fault_text(why) },
        ),
        subnet_of(list[i]@) is Ok && i == list.len() - 1 ==> first_bad_subnet(list) is None,
{
    lemma_first_bad(list, i);
    if subnet_of(list[i]@) is Ok && i == list.len() - 1 {
        lemma_first_bad(list, list.len() as int);
    }
}

/// Every text of a filter becomes a subnet of its own, in the same place.
pub proof fn filters_hold_a_subnet_for_each_text(list: Seq<String>, subnets: Seq<Subnet>, i: int)
    requires
        denotes(list, subnets),
    ensures
        subnets.len() == list.len(),
        0 <= i < list.len() ==> subnet_of(list[i]@) == Ok::<Subnet, SubnetFault>(subnets[i]),
{
}

/// What is wrong with a configuration is reported in a fixed order: interfaces, filters of
/// both kinds, the limit on lifetimes, the blacklist, the whitelist; a configuration with
/// none of these faults is accepted.
pub proof fn faults_are_reported_in_order(raw: RawConfig)
    ensures
        ({
            let none = raw.interfaces@.len() == 0;
            let both = raw.blacklist@.len() > 0 && raw.whitelist@.len() > 0;
            let ttl = raw.cache_max_ttl_secs is Some && (raw.cache_max_ttl_secs->0 == 0
                || raw.cache_max_ttl_secs->0 > 4_294_967_295);
            let black = exists|s: String| #[trigger]
                raw.blacklist@.contains(s) && subnet_of(s@) is Err;
            let white = exists|s: String| #[trigger]
                raw.whitelist@.contains(s) && subnet_of(s@) is Err;
            let fault = config_fault(raw);
            &&& none ==> fault == Some(ConfigFault::NoInterfaces)
            &&& !none && both ==> fault == Some(ConfigFault::BlackAndWhite)
            &&& !none && !both && ttl ==> fault == Some(
                ConfigFault::BadCacheMaxTtl(raw.cache_max_ttl_secs->0),
            )
            &&& !none && !both && !ttl && black ==> fault == first_bad_subnet(raw.blacklist@)
                && fault is Some
            &&& !none && !both && !ttl && !black && white ==> fault == first_bad_subnet(
                raw.whitelist@,
            ) && fault is Some
            &&& !none && !both && !ttl && !black && !white ==> fault is None
        }),
{
    lemma_bad_listed(raw.blacklist@);
    lemma_bad_listed(raw.whitelist@);
}

proof fn lemma_bad_listed(list: Seq<String>)
    ensures
        first_bad_subnet(list) is Some <==> exists|s: String| #[trigger]
            list.contains(s) && subnet_of(s@) is Err,
    decreases list.len(),
{
    if list.len() > 0 {
        let rest = list.drop_last();
        lemma_bad_listed(rest);
        assert(list[list.len() - 1] == list.last());
        assert(list.contains(list.last()));
        if exists|s: String| #[trigger] rest.contains(s) && subnet_of(s@) is Err {
            let s = choose|s: String| #[trigger] rest.contains(s) && subnet_of(s@) is Err;
            let k = choose|k: int| 0 <= k < rest.len() && rest[k] == s;
            assert(list[k] == s);
            assert(list.contains(s));
        }
        if exists|s: String| #[trigger] list.contains(s) && subnet_of(s@) is Err {
            let s = choose|s: String| #[trigger] list.contains(s) && subnet_of(s@) is Err;
            let k = choose|k: int| 0 <= k < list.len() && list[k] == s;
            if k < rest.len() {
                assert(rest[k] == s);
                assert(rest.contains(s));
            }
        }
    }
}

/// A source is allowed when some subnet of the whitelist holds it, wherever it is listed, and
/// without a whitelist when no subnet of the blacklist does; IPv6 sources are held by none.
pub proof fn sources_are_allowed_by_any_listed_subnet(c: Resolved, ip: IpAddr)
    ensures
        c.whitelist@.len() > 0 ==> (c.admits(ip) <==> exists|s: Subnet| #[trigger]
            c.whitelist@.contains(s) && ip is V4 && s.has(ip->V4_0)),
        c.whitelist@.len() == 0 ==> (c.admits(ip) <==> forall|s: Subnet| #[trigger]
            c.blacklist@.contains(s) ==> !(ip is V4 && s.has(ip->V4_0))),
{
    lemma_covered(c.whitelist@, ip);
    lemma_covered(c.blacklist@, ip);
}

proof fn lemma_covered(list: Seq<Subnet>, ip: IpAddr)
    ensures
        some_covers(list, ip) <==> exists|s: Subnet| #[trigger]
            list.contains(s) && ip is V4 && s.has(ip->V4_0),
{
    if some_covers(list, ip) {
        let i = choose|i: int| #![trigger list[i]] 0 <= i < list.len() && list[i].covers(ip);
        assert(list.contains(list[i]));
    }
    if exists|s: Subnet| #[trigger] list.contains(s) && ip is V4 && s.has(ip->V4_0) {
        let s = choose|s: Subnet| #[trigger] list.contains(s) && ip is V4 && s.has(ip->V4_0);
        let i = choose|i: int| 0 <= i < list.len() && list[i] == s;
        assert(list[i].covers(ip));
    }
}

} // verus!
