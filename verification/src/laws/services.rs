//! Laws of the published records.

use vstd::prelude::*;

use crate::announce::{announced, service_announcement};
use crate::cache::{capped, has_key, CacheView, EntryView};
use crate::config::ServiceConfig;
use crate::dns::{NameView, RDataView, RecordType, RecordView};
use crate::engine::learned;
use crate::iface::Iface;
use crate::laws::cache::{lemma_filter_map_from, lemma_filter_map_has};
use crate::services::{
    first_fault, gone, goodbyes, host_a_of, host_aaaa_of, host_records_on, instance_label,
    instance_name, lemma_meta_labels, named_records, published, published_answers, records_of,
    service_answers, service_fault, service_goodbyes, service_type_of, target_name, txt_strings,
    with_address_v4, with_address_v6, PublishedView, ServiceFault, ServiceRecordsView, TTL_HOST,
};
use crate::wire::{legible_data, legible_name, legible_record, legible_records};

verus! {

broadcast use vstd::seq_lib::group_filter_ensures;

/// The cache-flush bit is set on the records that the daemon alone answers for (the
/// host's addresses, SRV and TXT) and clear on the pointers, which other hosts may
/// share (RFC 6762 section 10.2).
pub proof fn cache_flush_bit_marks_unique_records(
    hostname: NameView,
    services: Seq<ServiceConfig>,
    ifaces: Seq<Iface>,
)
    ensures
        ({
            let p = published(hostname, services, ifaces);
            &&& forall|i: int| #![trigger p.host_a[i]]
                0 <= i < p.host_a.len() ==> p.host_a[i].cache_flush && p.host_a[i].ttl == TTL_HOST
            &&& forall|i: int| #![trigger p.host_aaaa[i]]
                0 <= i < p.host_aaaa.len() ==> p.host_aaaa[i].cache_flush && p.host_aaaa[i].ttl
                    == TTL_HOST
            &&& forall|i: int| #![trigger p.services[i]]
                0 <= i < p.services.len() ==> {
                    &&& p.services[i].srv.cache_flush
                    &&& p.services[i].txt.cache_flush
                    &&& !p.services[i].ptr_type_to_instance.cache_flush
                    &&& !p.services[i].ptr_meta_to_type.cache_flush
                }
        }),
{
    let p = published(hostname, services, ifaces);
    assert forall|i: int| #![trigger p.host_a[i]] 0 <= i < p.host_a.len() implies
        p.host_a[i].cache_flush && p.host_a[i].ttl == TTL_HOST by {
        assert(p.host_a.contains(p.host_a[i]));
        let k = lemma_filter_map_from(
            ifaces,
            |x: Iface| host_a_of(hostname, x),
            p.host_a[i],
        );
    }
    assert forall|i: int| #![trigger p.host_aaaa[i]] 0 <= i < p.host_aaaa.len() implies
        p.host_aaaa[i].cache_flush && p.host_aaaa[i].ttl == TTL_HOST by {
        assert(p.host_aaaa.contains(p.host_aaaa[i]));
        let k = lemma_filter_map_from(
            ifaces,
            |x: Iface| host_aaaa_of(hostname, x),
            p.host_aaaa[i],
        );
    }
}

/// Every interface with an address of a family has its address published.
pub proof fn every_interface_address_is_published(
    hostname: NameView,
    services: Seq<ServiceConfig>,
    ifaces: Seq<Iface>,
    i: int,
)
    requires
        0 <= i < ifaces.len(),
    ensures
        ifaces[i].v4 is Some ==> published(hostname, services, ifaces).host_a.contains(
            host_a_of(hostname, ifaces[i])->0,
        ),
        ifaces[i].v6 is Some ==> published(hostname, services, ifaces).host_aaaa.contains(
            host_aaaa_of(hostname, ifaces[i])->0,
        ),
{
    if ifaces[i].v4 is Some {
        lemma_filter_map_has(ifaces, |x: Iface| host_a_of(hostname, x), i);
    }
    if ifaces[i].v6 is Some {
        lemma_filter_map_has(ifaces, |x: Iface| host_aaaa_of(hostname, x), i);
    }
}

pub(crate) proof fn lemma_flat_map_has<A, B>(s: Seq<A>, f: spec_fn(A) -> Seq<B>, i: int, j: int)
    requires
        0 <= i < s.len(),
        0 <= j < f(s[i]).len(),
    ensures
        s.flat_map(f).contains(f(s[i])[j]),
    decreases s.len(),
{
    let rest = s.drop_last();
    s.lemma_flat_map_take_append(f, s.len() - 1);
    assert(s.take(s.len() as int) =~= s);
    assert(s.take(s.len() - 1) =~= rest);
    let out = s.flat_map(f);
    assert(out =~= rest.flat_map(f) + f(s.last()));
    if i == s.len() - 1 {
        assert(out[rest.flat_map(f).len() + j] == f(s[i])[j]);
    } else {
        assert(rest[i] == s[i]);
        lemma_flat_map_has(rest, f, i, j);
        let k = choose|k: int|
            0 <= k < rest.flat_map(f).len() && rest.flat_map(f)[k] == f(s[i])[j];
        assert(out[k] == f(s[i])[j]);
    }
}

pub(crate) proof fn lemma_flat_map_from<A, B>(s: Seq<A>, f: spec_fn(A) -> Seq<B>, b: B) -> (r: (
    int,
    int,
))
    requires
        s.flat_map(f).contains(b),
    ensures
        0 <= r.0 < s.len(),
        0 <= r.1 < f(s[r.0]).len(),
        f(s[r.0])[r.1] == b,
    decreases s.len(),
{
    let out = s.flat_map(f);
    let k = choose|k: int| 0 <= k < out.len() && out[k] == b;
    if s.len() == 0 {
        assert(s =~= Seq::<A>::empty());
        assert(out =~= Seq::<B>::empty());
        (0, 0)
    } else {
        let rest = s.drop_last();
        s.lemma_flat_map_take_append(f, s.len() - 1);
        assert(s.take(s.len() as int) =~= s);
        assert(s.take(s.len() - 1) =~= rest);
        assert(out =~= rest.flat_map(f) + f(s.last()));
        if k < rest.flat_map(f).len() {
            assert(rest.flat_map(f)[k] == b);
            let r = lemma_flat_map_from(rest, f, b);
            assert(rest[r.0] == s[r.0]);
            r
        } else {
            (s.len() - 1, k - rest.flat_map(f).len())
        }
    }
}

/// Every goodbye has a lifetime of zero.
pub proof fn goodbyes_have_no_lifetime(p: PublishedView, i: int)
    requires
        0 <= i < goodbyes(p).len(),
    ensures
        goodbyes(p)[i].ttl == 0,
{
    let a = p.host_a.map_values(|r: RecordView| gone(r));
    let b = p.host_aaaa.map_values(|r: RecordView| gone(r));
    let f = |s: ServiceRecordsView| service_goodbyes(s);
    let c = p.services.flat_map(f);
    assert(goodbyes(p) == a + b + c);
    if i >= a.len() + b.len() {
        assert(c.contains(c[i - a.len() - b.len()]));
        let (k, j) = lemma_flat_map_from(p.services, f, c[i - a.len() - b.len()]);
    }
}

/// Every record that is announced on any interface is taken back.
pub proof fn goodbyes_take_back_what_was_announced(p: PublishedView, iface: Iface, r: RecordView)
    requires
        announced(p, iface).contains(r),
    ensures
        goodbyes(p).contains(gone(r)),
{
    let a = p.host_a.map_values(|r: RecordView| gone(r));
    let b = p.host_aaaa.map_values(|r: RecordView| gone(r));
    let f = |s: ServiceRecordsView| service_announcement(s);
    let g = |s: ServiceRecordsView| service_goodbyes(s);
    let c = p.services.flat_map(g);
    let out = goodbyes(p);
    assert(out == a + b + c);
    let host = host_records_on(p, iface);
    let all = announced(p, iface);
    let n = choose|n: int| 0 <= n < all.len() && all[n] == r;
    if n < host.len() {
        assert(host[n] == r);
        host_records_hold_own_addresses(p, iface, r);
        if p.host_a.contains(r) {
            let i = choose|i: int| 0 <= i < p.host_a.len() && p.host_a[i] == r;
            assert(out[i] == gone(r));
        } else {
            let i = choose|i: int| 0 <= i < p.host_aaaa.len() && p.host_aaaa[i] == r;
            assert(out[a.len() + i] == gone(r));
        }
    } else {
        assert(p.services.flat_map(f)[n - host.len()] == r);
        let (k, j) = lemma_flat_map_from(p.services, f, r);
        assert(g(p.services[k])[j] == gone(r));
        lemma_flat_map_has(p.services, g, k, j);
        let m = choose|m: int| 0 <= m < c.len() && c[m] == gone(r);
        assert(out[a.len() + b.len() + m] == gone(r));
    }
}

/// A cache that receives goodbyes has none of their records left, whatever it held.
pub proof fn goodbyes_empty_a_cache(
    c: CacheView,
    records: Seq<RecordView>,
    source: Option<u32>,
    now: u128,
    k: int,
)
    requires
        forall|i: int| #![trigger records[i]] 0 <= i < records.len() ==> records[i].ttl == 0,
        0 <= k < records.len(),
    ensures
        !has_key(learned(c, records, source, now).0.entries, records[k].key()),
    decreases records.len(),
{
    let rest = records.drop_last();
    let last = records.last();
    let c1 = learned(c, rest, source, now).0;
    let c2 = learned(c, records, source, now).0;
    assert(records[records.len() - 1].ttl == 0);
    assert forall|i: int| #![trigger rest[i]] 0 <= i < rest.len() implies rest[i].ttl == 0 by {
        assert(rest[i] == records[i]);
    }
    let p = |e: EntryView| e.record.key() != last.key();
    assert(capped(last, c1.max_ttl) == last);
    assert(c2.entries == c1.entries.filter(p));
    if k < rest.len() {
        goodbyes_empty_a_cache(c, rest, source, now, k);
        assert(rest[k] == records[k]);
    }
    if has_key(c2.entries, records[k].key()) {
        let i = choose|i: int|
            #![trigger c2.entries[i]]
            0 <= i < c2.entries.len() && c2.entries[i].record.key() == records[k].key();
        assert(p(c2.entries[i]));
        if k < rest.len() {
            assert(c2.entries.contains(c2.entries[i]));
            c1.entries.lemma_filter_contains_rev(p, c2.entries[i]);
            let j = choose|j: int| 0 <= j < c1.entries.len() && c1.entries[j] == c2.entries[i];
            assert(c1.entries[j].record.key() == records[k].key());
        }
    }
}

/// A host that receives the goodbye message forgets every record that was announced on
/// any interface.
pub proof fn goodbye_is_understood_by_peers(
    peer: CacheView,
    p: PublishedView,
    iface: Iface,
    source: Option<u32>,
    now: u128,
    r: RecordView,
)
    requires
        announced(p, iface).contains(r),
    ensures
        !has_key(learned(peer, goodbyes(p), source, now).0.entries, r.key()),
{
    goodbyes_take_back_what_was_announced(p, iface, r);
    let k = choose|k: int| 0 <= k < goodbyes(p).len() && goodbyes(p)[k] == gone(r);
    assert forall|i: int| #![trigger goodbyes(p)[i]] 0 <= i < goodbyes(p).len() implies goodbyes(
        p,
    )[i].ttl == 0 by {
        goodbyes_have_no_lifetime(p, i);
    }
    goodbyes_empty_a_cache(peer, goodbyes(p), source, now, k);
    assert(gone(r).key() == r.key());
}

/// Everything that is answered to a question is published and answers it.
pub proof fn published_answers_fit_the_question(
    hostname: NameView,
    services: Seq<ServiceConfig>,
    ifaces: Seq<Iface>,
    qname: NameView,
    qtype: RecordType,
    r: RecordView,
)
    requires
        published_answers(published(hostname, services, ifaces), qname, qtype).contains(r),
    ensures
        r.answers(qname, qtype),
{
    let p = published(hostname, services, ifaces);
    let a = named_records(p.host_a, RecordType::A, qname, qtype);
    let b = named_records(p.host_aaaa, RecordType::AAAA, qname, qtype);
    let f = |s: ServiceRecordsView| service_answers(s, qname, qtype);
    let c = p.services.flat_map(f);
    let out = published_answers(p, qname, qtype);
    let named = |r: RecordView| r.name.folded() == qname.folded();
    assert(out == a + b + c);
    let k = choose|k: int| 0 <= k < out.len() && out[k] == r;
    if k < a.len() {
        assert(a[k] == r);
        assert(p.host_a.filter(named).contains(r));
        p.host_a.lemma_filter_contains_rev(named, r);
        let i = lemma_filter_map_from(ifaces, |x: Iface| host_a_of(hostname, x), r);
        assert(named(p.host_a.filter(named)[k]));
    } else if k < a.len() + b.len() {
        let m = k - a.len();
        assert(b[m] == r);
        assert(p.host_aaaa.filter(named).contains(r));
        p.host_aaaa.lemma_filter_contains_rev(named, r);
        let i = lemma_filter_map_from(ifaces, |x: Iface| host_aaaa_of(hostname, x), r);
        assert(named(p.host_aaaa.filter(named)[m]));
    } else {
        assert(c[k - a.len() - b.len()] == r);
        assert(c.contains(r));
        let (i, j) = lemma_flat_map_from(p.services, f, r);
        assert(p.services[i] == records_of(hostname, services[i]));
    }
}

/// Every published record that answers a question is among the answers to it.
pub proof fn published_answers_are_complete(
    hostname: NameView,
    services: Seq<ServiceConfig>,
    ifaces: Seq<Iface>,
    qname: NameView,
    qtype: RecordType,
    r: RecordView,
)
    requires
        r.answers(qname, qtype),
        ({
            let p = published(hostname, services, ifaces);
            ||| p.host_a.contains(r)
            ||| p.host_aaaa.contains(r)
            ||| exists|i: int| #![trigger p.services[i]]
                0 <= i < p.services.len() && (r == p.services[i].ptr_type_to_instance || r
                    == p.services[i].ptr_meta_to_type || r == p.services[i].srv || r
                    == p.services[i].txt)
        }),
    ensures
        published_answers(published(hostname, services, ifaces), qname, qtype).contains(r),
{
    let p = published(hostname, services, ifaces);
    let a = named_records(p.host_a, RecordType::A, qname, qtype);
    let b = named_records(p.host_aaaa, RecordType::AAAA, qname, qtype);
    let f = |s: ServiceRecordsView| service_answers(s, qname, qtype);
    let c = p.services.flat_map(f);
    let out = published_answers(p, qname, qtype);
    let named = |r: RecordView| r.name.folded() == qname.folded();
    assert(out == a + b + c);
    if p.host_a.contains(r) {
        let i = lemma_filter_map_from(ifaces, |x: Iface| host_a_of(hostname, x), r);
        let k = choose|k: int| 0 <= k < p.host_a.len() && p.host_a[k] == r;
        assert(named(p.host_a[k]));
        assert(a.contains(r));
        let m = choose|m: int| 0 <= m < a.len() && a[m] == r;
        assert(out[m] == r);
    } else if p.host_aaaa.contains(r) {
        let i = lemma_filter_map_from(ifaces, |x: Iface| host_aaaa_of(hostname, x), r);
        let k = choose|k: int| 0 <= k < p.host_aaaa.len() && p.host_aaaa[k] == r;
        assert(named(p.host_aaaa[k]));
        assert(b.contains(r));
        let m = choose|m: int| 0 <= m < b.len() && b[m] == r;
        assert(out[a.len() + m] == r);
    } else {
        let i = choose|i: int|
            #![trigger p.services[i]]
            0 <= i < p.services.len() && (r == p.services[i].ptr_type_to_instance || r
                == p.services[i].ptr_meta_to_type || r == p.services[i].srv || r
                == p.services[i].txt);
        let s = p.services[i];
        assert(s == records_of(hostname, services[i]));
        let t = service_answers(s, qname, qtype);
        let n1 = if qtype.covers(RecordType::PTR) && qname.folded() == s.service_type.folded() {
            1int
        } else {
            0
        };
        let n2 = if qtype.covers(RecordType::PTR) && qname.folded()
            == s.ptr_meta_to_type.name.folded() {
            1int
        } else {
            0
        };
        let n3 = if qtype.covers(RecordType::SRV) && qname.folded() == s.instance_name.folded() {
            1int
        } else {
            0
        };
        let j = if r == s.ptr_type_to_instance && n1 == 1 {
            0
        } else if r == s.ptr_meta_to_type && n2 == 1 {
            n1
        } else if r == s.srv {
            n1 + n2
        } else {
            n1 + n2 + n3
        };
        assert(t[j] == r);
        lemma_flat_map_has(p.services, f, i, j);
        let m = choose|m: int| 0 <= m < c.len() && c[m] == r;
        assert(out[a.len() + b.len() + m] == r);
    }
}

/// The host records for an interface hold only its own addresses.
pub proof fn host_records_hold_own_addresses(p: PublishedView, iface: Iface, r: RecordView)
    requires
        host_records_on(p, iface).contains(r),
    ensures
        iface.v4 is Some && r.data == RDataView::A(iface.v4->0.addr) && p.host_a.contains(r)
            || iface.v6 is Some && r.data == RDataView::AAAA(iface.v6->0.addr)
            && p.host_aaaa.contains(r),
{
    let out = host_records_on(p, iface);
    let a = match iface.v4 {
        Some(v4) => with_address_v4(p, v4.addr),
        None => Seq::empty(),
    };
    let b = match iface.v6 {
        Some(v6) => with_address_v6(p, v6.addr),
        None => Seq::empty(),
    };
    assert(out == a + b);
    let k = choose|k: int| 0 <= k < out.len() && out[k] == r;
    if k < a.len() {
        assert(a[k] == r);
        assert(a.contains(r));
        let addr = iface.v4->0.addr;
        let q = |x: RecordView| x.data == RDataView::A(addr);
        p.host_a.lemma_filter_contains_rev(q, r);
        assert(q(p.host_a.filter(q)[k]));
    } else {
        assert(b[k - a.len()] == r);
        assert(b.contains(r));
        let addr = iface.v6->0.addr;
        let q = |x: RecordView| x.data == RDataView::AAAA(addr);
        p.host_aaaa.lemma_filter_contains_rev(q, r);
        assert(q(p.host_aaaa.filter(q)[k - a.len()]));
    }
}

/// A service that can be published, with fully qualified names and TXT entries of at
/// most 255 octets.
pub open spec fn sendable(hostname: NameView, sc: ServiceConfig) -> bool {
    &&& service_fault(sc) is None
    &&& legible_name(service_type_of(sc))
    &&& legible_name(target_name(hostname, sc))
    &&& legible_data(RDataView::TXT(txt_strings(sc.txt@)))
}

proof fn lemma_service_records_are_legible(hostname: NameView, sc: ServiceConfig)
    requires
        sendable(hostname, sc),
    ensures
        ({
            let s = records_of(hostname, sc);
            &&& legible_record(s.ptr_type_to_instance)
            &&& legible_record(s.ptr_meta_to_type)
            &&& legible_record(s.srv)
            &&& legible_record(s.txt)
        }),
{
    lemma_meta_labels();
    let n = instance_name(sc);
    assert forall|i: int| #![trigger n.labels[i]] 0 <= i < n.labels.len() implies 1
        <= n.labels[i].len() <= 63 by {
        if i > 0 {
            assert(n.labels[i] == service_type_of(sc).labels[i - 1]);
        } else {
            assert(n.labels[i] == instance_label(sc));
        }
    }
    assert(legible_name(n));
}

/// What is announced and what is taken back arrives at those who listen as it was
/// published: every such record is legible.
pub proof fn published_records_are_legible(
    hostname: NameView,
    services: Seq<ServiceConfig>,
    ifaces: Seq<Iface>,
    iface: Iface,
)
    requires
        legible_name(hostname),
        forall|i: int| #![trigger services[i]]
            0 <= i < services.len() ==> sendable(hostname, services[i]),
    ensures
        legible_records(announced(published(hostname, services, ifaces), iface)),
        legible_records(goodbyes(published(hostname, services, ifaces))),
{
    let p = published(hostname, services, ifaces);
    assert forall|i: int| #![trigger p.host_a[i]] 0 <= i < p.host_a.len() implies legible_record(
        p.host_a[i],
    ) by {
        assert(p.host_a.contains(p.host_a[i]));
        let k = lemma_filter_map_from(ifaces, |x: Iface| host_a_of(hostname, x), p.host_a[i]);
    }
    assert forall|i: int| #![trigger p.host_aaaa[i]] 0 <= i < p.host_aaaa.len() implies
        legible_record(p.host_aaaa[i]) by {
        assert(p.host_aaaa.contains(p.host_aaaa[i]));
        let k = lemma_filter_map_from(ifaces, |x: Iface| host_aaaa_of(hostname, x), p.host_aaaa[i]);
    }
    let out = announced(p, iface);
    let host = host_records_on(p, iface);
    let f = |s: ServiceRecordsView| service_announcement(s);
    assert forall|i: int| #![trigger out[i]] 0 <= i < out.len() implies legible_record(out[i]) by {
        if i < host.len() {
            assert(host[i] == out[i]);
            host_records_hold_own_addresses(p, iface, host[i]);
        } else {
            assert(p.services.flat_map(f)[i - host.len()] == out[i]);
            let (k, j) = lemma_flat_map_from(p.services, f, out[i]);
            assert(p.services[k] == records_of(hostname, services[k]));
            lemma_service_records_are_legible(hostname, services[k]);
        }
    }
    let back = goodbyes(p);
    let a = p.host_a.map_values(|r: RecordView| gone(r));
    let b = p.host_aaaa.map_values(|r: RecordView| gone(r));
    let g = |s: ServiceRecordsView| service_goodbyes(s);
    let c = p.services.flat_map(g);
    assert(back == a + b + c);
    assert forall|i: int| #![trigger back[i]] 0 <= i < back.len() implies legible_record(
        back[i],
    ) by {
        if i < a.len() {
            assert(back[i] == gone(p.host_a[i]));
        } else if i < a.len() + b.len() {
            assert(back[i] == gone(p.host_aaaa[i - a.len()]));
        } else {
            assert(c[i - a.len() - b.len()] == back[i]);
            let (k, j) = lemma_flat_map_from(p.services, g, back[i]);
            assert(p.services[k] == records_of(hostname, services[k]));
            lemma_service_records_are_legible(hostname, services[k]);
        }
    }
}

/// The host records of an interface are just the published ones with an address of it.
pub proof fn host_records_are_those_of_the_interface(p: PublishedView, iface: Iface, r: RecordView)
    ensures
        host_records_on(p, iface).contains(r) <==> p.host_a.contains(r) && iface.v4 is Some
            && r.data == RDataView::A(iface.v4->0.addr) || p.host_aaaa.contains(r)
            && iface.v6 is Some && r.data == RDataView::AAAA(iface.v6->0.addr),
{
    let out = host_records_on(p, iface);
    if out.contains(r) {
        host_records_hold_own_addresses(p, iface, r);
    }
    let a = match iface.v4 {
        Some(v4) => with_address_v4(p, v4.addr),
        None => Seq::empty(),
    };
    let b = match iface.v6 {
        Some(v6) => with_address_v6(p, v6.addr),
        None => Seq::empty(),
    };
    assert(out == a + b);
    if p.host_a.contains(r) && iface.v4 is Some && r.data == RDataView::A(iface.v4->0.addr) {
        let addr = iface.v4->0.addr;
        let q = |x: RecordView| x.data == RDataView::A(addr);
        let k = choose|k: int| 0 <= k < p.host_a.len() && p.host_a[k] == r;
        assert(q(p.host_a[k]));
        assert(p.host_a.filter(q).contains(r));
        let m = choose|m: int| 0 <= m < a.len() && a[m] == r;
        assert(out[m] == r);
    }
    if p.host_aaaa.contains(r) && iface.v6 is Some && r.data == RDataView::AAAA(
        iface.v6->0.addr,
    ) {
        let addr = iface.v6->0.addr;
        let q = |x: RecordView| x.data == RDataView::AAAA(addr);
        let k = choose|k: int| 0 <= k < p.host_aaaa.len() && p.host_aaaa[k] == r;
        assert(q(p.host_aaaa[k]));
        assert(p.host_aaaa.filter(q).contains(r));
        let m = choose|m: int| 0 <= m < b.len() && b[m] == r;
        assert(out[a.len() + m] == r);
    }
}

/// Only published records are answered.
pub proof fn published_answers_are_published(
    p: PublishedView,
    qname: NameView,
    qtype: RecordType,
    r: RecordView,
)
    requires
        published_answers(p, qname, qtype).contains(r),
    ensures
        p.host_a.contains(r) || p.host_aaaa.contains(r) || exists|i: int|
            #![trigger p.services[i]]
            0 <= i < p.services.len() && (r == p.services[i].ptr_type_to_instance || r
                == p.services[i].ptr_meta_to_type || r == p.services[i].srv || r
                == p.services[i].txt),
{
    let a = named_records(p.host_a, RecordType::A, qname, qtype);
    let b = named_records(p.host_aaaa, RecordType::AAAA, qname, qtype);
    let f = |s: ServiceRecordsView| service_answers(s, qname, qtype);
    let c = p.services.flat_map(f);
    let out = published_answers(p, qname, qtype);
    let named = |r: RecordView| r.name.folded() == qname.folded();
    assert(out == a + b + c);
    let k = choose|k: int| 0 <= k < out.len() && out[k] == r;
    if k < a.len() {
        assert(a[k] == r);
        assert(p.host_a.filter(named).contains(r));
        p.host_a.lemma_filter_contains_rev(named, r);
    } else if k < a.len() + b.len() {
        assert(b[k - a.len()] == r);
        assert(p.host_aaaa.filter(named).contains(r));
        p.host_aaaa.lemma_filter_contains_rev(named, r);
    } else {
        assert(c[k - a.len() - b.len()] == r);
        assert(c.contains(r));
        let (i, j) = lemma_flat_map_from(p.services, f, r);
        assert(p.services[i] == p.services[i]);
    }
}

pub(crate) proof fn lemma_host_types(
    hostname: NameView,
    services: Seq<ServiceConfig>,
    ifaces: Seq<Iface>,
    r: RecordView,
)
    ensures
        published(hostname, services, ifaces).host_a.contains(r) ==> r.rtype() == RecordType::A,
        published(hostname, services, ifaces).host_aaaa.contains(r) ==> r.rtype()
            == RecordType::AAAA,
{
    let p = published(hostname, services, ifaces);
    if p.host_a.contains(r) {
        let i = lemma_filter_map_from(ifaces, |x: Iface| host_a_of(hostname, x), r);
    }
    if p.host_aaaa.contains(r) {
        let i = lemma_filter_map_from(ifaces, |x: Iface| host_aaaa_of(hostname, x), r);
    }
}

/// The octets of a text of ASCII characters.
pub open spec fn octets_are(octets: Seq<u8>, text: Seq<char>) -> bool {
    &&& octets.len() == text.len()
    &&& forall|j: int| #![trigger octets[j]] 0 <= j < text.len() ==> octets[j] == text[j] as u8
}

/// Every configured service is published, in order, as the configuration says: a pointer from
/// its type to its instance, a pointer from the list of types to its type, its host and port,
/// and every one of its text entries. The pointers and texts live for 75 minutes, what names
/// a host for two; the cache-flush bit is on what the daemon alone answers for.
pub proof fn services_are_published_as_configured(
    hostname: NameView,
    services: Seq<ServiceConfig>,
    ifaces: Seq<Iface>,
    i: int,
)
    requires
        0 <= i < services.len(),
    ensures
        ({
            let p = published(hostname, services, ifaces);
            let sc = services[i];
            let s = p.services[i];
            let stype = crate::wire::parsed_name(sc.service@)->0;
            let instance = NameView {
                labels: seq![vstd::utf8::encode_utf8(sc.name@)] + stype.labels,
                fqdn: stype.fqdn,
            };
            let host = if sc.host is Some {
                crate::wire::parsed_name(sc.host->0@)->0
            } else {
                hostname
            };
            &&& p.hostname == hostname
            &&& p.services.len() == services.len()
            &&& s.service_type == stype
            &&& s.instance_name == instance
            &&& s.ptr_type_to_instance == (RecordView {
                name: stype,
                class: 1,
                ttl: 4500,
                cache_flush: false,
                data: RDataView::PTR(instance),
            })
            &&& s.ptr_meta_to_type == (RecordView {
                name: s.ptr_meta_to_type.name,
                class: 1,
                ttl: 4500,
                cache_flush: false,
                data: RDataView::PTR(stype),
            })
            &&& s.srv == (RecordView {
                name: instance,
                class: 1,
                ttl: 120,
                cache_flush: true,
                data: RDataView::SRV { priority: 0, weight: 0, port: sc.port, target: host },
            })
            &&& s.txt == (RecordView {
                name: instance,
                class: 1,
                ttl: 4500,
                cache_flush: true,
                data: s.txt.data,
            })
        }),
{
}

/// The list of service types is `_services._dns-sd._udp.local.`
pub proof fn service_types_are_listed_under_the_meta_name(
    hostname: NameView,
    services: Seq<ServiceConfig>,
    ifaces: Seq<Iface>,
    i: int,
)
    requires
        0 <= i < services.len(),
    ensures
        ({
            let n = published(hostname, services, ifaces).services[i].ptr_meta_to_type.name;
            &&& n.fqdn
            &&& n.labels.len() == 4
            &&& octets_are(n.labels[0], "_services"@)
            &&& octets_are(n.labels[1], "_dns-sd"@)
            &&& octets_are(n.labels[2], "_udp"@)
            &&& octets_are(n.labels[3], "local"@)
        }),
{
    let n = published(hostname, services, ifaces).services[i].ptr_meta_to_type.name;
    assert(n == crate::wire::plain_name(crate::services::meta_labels()));
}

/// The text record of a service holds the octets of every entry, in order; one empty string
/// stands for no entries.
pub proof fn every_text_entry_is_published(
    hostname: NameView,
    services: Seq<ServiceConfig>,
    ifaces: Seq<Iface>,
    i: int,
)
    requires
        0 <= i < services.len(),
    ensures
        published(hostname, services, ifaces).services[i].txt.data matches RDataView::TXT(strings)
            && {
            let txt = services[i].txt@;
            &&& txt.len() > 0 ==> strings.len() == txt.len()
            &&& forall|k: int| #![trigger strings[k]]
                0 <= k < txt.len() ==> strings[k] == vstd::utf8::encode_utf8(txt[k]@)
            &&& txt.len() == 0 ==> strings.len() == 1 && strings[0].len() == 0
        },
{
}

/// The address records of the host are just one per interface with an address of the family,
/// for two minutes and with the cache-flush bit.
pub proof fn host_addresses_are_those_of_the_interfaces(
    hostname: NameView,
    services: Seq<ServiceConfig>,
    ifaces: Seq<Iface>,
    r: RecordView,
)
    ensures
        published(hostname, services, ifaces).host_a.contains(r) <==> exists|i: int|
            #![trigger ifaces[i]]
            0 <= i < ifaces.len() && ifaces[i].v4 is Some && r == (RecordView {
                name: hostname,
                class: 1,
                ttl: 120,
                cache_flush: true,
                data: RDataView::A(ifaces[i].v4->0.addr),
            }),
        published(hostname, services, ifaces).host_aaaa.contains(r) <==> exists|i: int|
            #![trigger ifaces[i]]
            0 <= i < ifaces.len() && ifaces[i].v6 is Some && r == (RecordView {
                name: hostname,
                class: 1,
                ttl: 120,
                cache_flush: true,
                data: RDataView::AAAA(ifaces[i].v6->0.addr),
            }),
        published(hostname, services, ifaces).host_a.len() <= ifaces.len(),
        published(hostname, services, ifaces).host_aaaa.len() <= ifaces.len(),
{
    let p = published(hostname, services, ifaces);
    let f = |x: Iface| host_a_of(hostname, x);
    let g = |x: Iface| host_aaaa_of(hostname, x);
    lemma_filter_map_len(ifaces, f);
    lemma_filter_map_len(ifaces, g);
    if p.host_a.contains(r) {
        let i = lemma_filter_map_from(ifaces, f, r);
        assert(ifaces[i].v4 is Some);
    }
    if p.host_aaaa.contains(r) {
        let i = lemma_filter_map_from(ifaces, g, r);
        assert(ifaces[i].v6 is Some);
    }
    assert forall|i: int| #![trigger ifaces[i]] 0 <= i < ifaces.len() && ifaces[i].v4 is Some implies
        p.host_a.contains(host_a_of(hostname, ifaces[i])->0) by {
        lemma_filter_map_has(ifaces, f, i);
    }
    assert forall|i: int| #![trigger ifaces[i]] 0 <= i < ifaces.len() && ifaces[i].v6 is Some implies
        p.host_aaaa.contains(host_aaaa_of(hostname, ifaces[i])->0) by {
        lemma_filter_map_has(ifaces, g, i);
    }
}

proof fn lemma_filter_map_len<A, B>(s: Seq<A>, f: spec_fn(A) -> Option<B>)
    ensures
        s.filter_map(f).len() <= s.len(),
    decreases s.len(),
{
    if s.len() > 0 {
        lemma_filter_map_len(s.drop_last(), f);
    }
}

/// What is announced on an interface is its host records and every record of every service.
pub proof fn announcements_hold_everything_for_the_interface(
    p: PublishedView,
    iface: Iface,
    r: RecordView,
)
    ensures
        announced(p, iface).contains(r) <==> p.host_a.contains(r) && iface.v4 is Some && r.data
            == RDataView::A(iface.v4->0.addr) || p.host_aaaa.contains(r) && iface.v6 is Some
            && r.data == RDataView::AAAA(iface.v6->0.addr) || exists|i: int|
            #![trigger p.services[i]]
            0 <= i < p.services.len() && (r == p.services[i].ptr_type_to_instance || r
                == p.services[i].ptr_meta_to_type || r == p.services[i].srv || r
                == p.services[i].txt),
{
    let f = |s: ServiceRecordsView| service_announcement(s);
    let host = host_records_on(p, iface);
    let c = p.services.flat_map(f);
    let out = announced(p, iface);
    assert(out == host + c);
    host_records_are_those_of_the_interface(p, iface, r);
    if out.contains(r) {
        let k = choose|k: int| 0 <= k < out.len() && out[k] == r;
        if k < host.len() {
            assert(host[k] == r);
            assert(host.contains(r));
        } else {
            assert(c[k - host.len()] == r);
            assert(c.contains(r));
            let (i, j) = lemma_flat_map_from(p.services, f, r);
            assert(p.services[i] == p.services[i]);
        }
    }
    if host.contains(r) {
        let k = choose|k: int| 0 <= k < host.len() && host[k] == r;
        assert(out[k] == r);
    }
    assert forall|i: int, j: int|
        0 <= i < p.services.len() && 0 <= j < 4 implies out.contains(
        #[trigger] service_announcement(p.services[i])[j],
    ) by {
        lemma_flat_map_has(p.services, f, i, j);
        let x = f(p.services[i])[j];
        let m = choose|m: int| 0 <= m < c.len() && c[m] == x;
        assert(out[host.len() + m] == x);
    }
    assert forall|i: int| #![trigger p.services[i]] 0 <= i < p.services.len() implies out.contains(
        p.services[i].ptr_type_to_instance,
    ) && out.contains(p.services[i].ptr_meta_to_type) && out.contains(p.services[i].srv)
        && out.contains(p.services[i].txt) by {
        let t = service_announcement(p.services[i]);
        assert(t[0] == p.services[i].ptr_type_to_instance);
        assert(t[1] == p.services[i].ptr_meta_to_type);
        assert(t[2] == p.services[i].srv);
        assert(t[3] == p.services[i].txt);
    }
}

/// The records that the daemon alone answers for on an interface are its host records and the
/// SRV and TXT records of every service.
pub proof fn unique_records_are_addresses_services_and_texts(
    p: PublishedView,
    iface: Iface,
    r: RecordView,
)
    ensures
        crate::services::uniques_on(p, iface).contains(r) <==> p.host_a.contains(r)
            && iface.v4 is Some && r.data == RDataView::A(iface.v4->0.addr)
            || p.host_aaaa.contains(r) && iface.v6 is Some && r.data == RDataView::AAAA(
            iface.v6->0.addr,
        ) || exists|i: int|
            #![trigger p.services[i]]
            0 <= i < p.services.len() && (r == p.services[i].srv || r == p.services[i].txt),
{
    let f = |s: ServiceRecordsView| seq![s.srv, s.txt];
    let host = host_records_on(p, iface);
    let c = p.services.flat_map(f);
    let out = crate::services::uniques_on(p, iface);
    assert(out == host + c);
    host_records_are_those_of_the_interface(p, iface, r);
    if out.contains(r) {
        let k = choose|k: int| 0 <= k < out.len() && out[k] == r;
        if k < host.len() {
            assert(host[k] == r);
            assert(host.contains(r));
        } else {
            assert(c[k - host.len()] == r);
            assert(c.contains(r));
            let (i, j) = lemma_flat_map_from(p.services, f, r);
            assert(p.services[i] == p.services[i]);
        }
    }
    if host.contains(r) {
        let k = choose|k: int| 0 <= k < host.len() && host[k] == r;
        assert(out[k] == r);
    }
    assert forall|i: int| #![trigger p.services[i]] 0 <= i < p.services.len() implies out.contains(
        p.services[i].srv,
    ) && out.contains(p.services[i].txt) by {
        lemma_flat_map_has(p.services, f, i, 0);
        lemma_flat_map_has(p.services, f, i, 1);
        let x = f(p.services[i])[0];
        let y = f(p.services[i])[1];
        let m = choose|m: int| 0 <= m < c.len() && c[m] == x;
        let n = choose|n: int| 0 <= n < c.len() && c[n] == y;
        assert(out[host.len() + m] == x);
        assert(out[host.len() + n] == y);
    }
}

/// A goodbye is a published record, unchanged but for its lifetime of zero, and every
/// published record has one.
pub proof fn goodbyes_are_the_published_records_without_lifetime(p: PublishedView, g: RecordView)
    ensures
        goodbyes(p).contains(g) <==> exists|r: RecordView|
            g == (RecordView { ttl: 0, ..r }) && #[trigger] is_published(p, r),
{
    let a = p.host_a.map_values(|r: RecordView| gone(r));
    let b = p.host_aaaa.map_values(|r: RecordView| gone(r));
    let f = |s: ServiceRecordsView| service_goodbyes(s);
    let c = p.services.flat_map(f);
    let out = goodbyes(p);
    assert(out == a + b + c);
    if out.contains(g) {
        let k = choose|k: int| 0 <= k < out.len() && out[k] == g;
        if k < a.len() {
            assert(p.host_a.contains(p.host_a[k]));
            assert(is_published(p, p.host_a[k]));
        } else if k < a.len() + b.len() {
            assert(p.host_aaaa.contains(p.host_aaaa[k - a.len()]));
            assert(is_published(p, p.host_aaaa[k - a.len()]));
        } else {
            assert(c[k - a.len() - b.len()] == g);
            assert(c.contains(g));
            let (i, j) = lemma_flat_map_from(p.services, f, g);
            let s = p.services[i];
            assert(is_published(p, s.ptr_type_to_instance));
            assert(is_published(p, s.ptr_meta_to_type));
            assert(is_published(p, s.srv));
            assert(is_published(p, s.txt));
        }
    }
    if exists|r: RecordView| g == (RecordView { ttl: 0, ..r }) && #[trigger] is_published(p, r) {
        let r = choose|r: RecordView|
            g == (RecordView { ttl: 0, ..r }) && #[trigger] is_published(p, r);
        assert(g == gone(r));
        if p.host_a.contains(r) {
            let k = choose|k: int| 0 <= k < p.host_a.len() && p.host_a[k] == r;
            assert(out[k] == g);
        } else if p.host_aaaa.contains(r) {
            let k = choose|k: int| 0 <= k < p.host_aaaa.len() && p.host_aaaa[k] == r;
            assert(out[a.len() + k] == g);
        } else {
            let i = choose|i: int|
                #![trigger p.services[i]]
                0 <= i < p.services.len() && (r == p.services[i].ptr_type_to_instance || r
                    == p.services[i].ptr_meta_to_type || r == p.services[i].srv || r
                    == p.services[i].txt);
            let t = f(p.services[i]);
            let j = if r == p.services[i].ptr_type_to_instance {
                0int
            } else if r == p.services[i].ptr_meta_to_type {
                1
            } else if r == p.services[i].srv {
                2
            } else {
                3
            };
            assert(t[j] == g);
            lemma_flat_map_has(p.services, f, i, j);
            let m = choose|m: int| 0 <= m < c.len() && c[m] == g;
            assert(out[a.len() + b.len() + m] == g);
        }
    }
}

/// The record is one of those that are published.
pub open spec fn is_published(p: PublishedView, r: RecordView) -> bool {
    ||| p.host_a.contains(r)
    ||| p.host_aaaa.contains(r)
    ||| exists|i: int| #![trigger p.services[i]]
        0 <= i < p.services.len() && (r == p.services[i].ptr_type_to_instance || r
            == p.services[i].ptr_meta_to_type || r == p.services[i].srv || r == p.services[i].txt)
}

/// The fault that is reported is that of the first service that has one: its type is no name,
/// its instance name does not have 1 to 63 octets, the two together have more than 255, or
/// its host is no name, in this order.
pub proof fn the_first_fault_is_reported(services: Seq<ServiceConfig>, i: int)
    requires
        0 <= i < services.len(),
        forall|k: int| #![trigger services[k]] 0 <= k < i ==> sound(services[k]),
    ensures
        !sound(services[i]) ==> first_fault(services) == Some(fault_of(services[i])),
        sound(services[i]) && i == services.len() - 1 ==> first_fault(services) is None,
{
    lemma_sound(services[i]);
    lemma_no_fault(services.take(i));
    lemma_fault_at(services, i);
}

/// All names of the service are in order.
pub open spec fn sound(sc: ServiceConfig) -> bool {
    let n = vstd::utf8::encode_utf8(sc.name@).len();
    &&& crate::wire::parsed_name(sc.service@) is Some
    &&& 1 <= n <= 63
    &&& crate::dns::label_octets(
        seq![vstd::utf8::encode_utf8(sc.name@)] + crate::wire::parsed_name(
            sc.service@,
        )->0.labels,
    ) <= 254
    &&& sc.host is Some ==> crate::wire::parsed_name(sc.host->0@) is Some
}

/// What is wrong with a service, where something is.
pub open spec fn fault_of(sc: ServiceConfig) -> ServiceFault {
    let n = vstd::utf8::encode_utf8(sc.name@).len();
    if crate::wire::parsed_name(sc.service@) is None {
        ServiceFault::BadServiceType { service: sc.service@ }
    } else if n == 0 || n > 63 {
        ServiceFault::BadInstanceName { name: sc.name@ }
    } else if crate::dns::label_octets(
        seq![vstd::utf8::encode_utf8(sc.name@)] + crate::wire::parsed_name(
            sc.service@,
        )->0.labels,
    ) > 254 {
        ServiceFault::BadInstanceCompose { name: sc.name@, service: sc.service@ }
    } else {
        ServiceFault::BadHost { host: sc.host->0@ }
    }
}

proof fn lemma_sound(sc: ServiceConfig)
    ensures
        sound(sc) <==> service_fault(sc) is None,
        !sound(sc) ==> service_fault(sc) == Some(fault_of(sc)),
{
}

proof fn lemma_no_fault(services: Seq<ServiceConfig>)
    requires
        forall|k: int| #![trigger services[k]] 0 <= k < services.len() ==> sound(services[k]),
    ensures
        first_fault(services) is None,
    decreases services.len(),
{
    if services.len() > 0 {
        let rest = services.drop_last();
        assert forall|k: int| #![trigger rest[k]] 0 <= k < rest.len() implies sound(rest[k]) by {
            assert(rest[k] == services[k]);
        }
        lemma_no_fault(rest);
        assert(sound(services[services.len() - 1]));
        lemma_sound(services.last());
    }
}

proof fn lemma_fault_at(services: Seq<ServiceConfig>, i: int)
    requires
        0 <= i < services.len(),
        first_fault(services.take(i)) is None,
    ensures
        service_fault(services[i]) is Some ==> first_fault(services) == service_fault(services[i]),
        service_fault(services[i]) is None && i == services.len() - 1 ==> first_fault(
            services,
        ) is None,
    decreases services.len(),
{
    let rest = services.drop_last();
    if i < services.len() - 1 {
        assert(rest.take(i) =~= services.take(i));
        assert(rest[i] == services[i]);
        lemma_fault_at(rest, i);
    } else {
        assert(rest =~= services.take(i));
    }
}

/// The host name counts from the configuration first, then from the system, then it is
/// `router`; what stands behind its first dot does not count.
pub proof fn host_names_come_from_the_configuration_first(
    explicit: Option<Seq<char>>,
    system: Option<Seq<char>>,
)
    ensures
        crate::services::machine_name(explicit, system) == (if explicit is Some {
            explicit->0
        } else if system is Some {
            system->0
        } else {
            "router"@
        }),
{
}

/// The host name is what the first label and `.local.` denote, or `router.local.` where that
/// is no name.
pub proof fn host_names_are_local(head: Seq<char>, tail: Seq<char>)
    requires
        !head.contains('.'),
    ensures
        crate::services::hostname_of(head.push('.') + tail) == crate::services::hostname_of(head),
        crate::wire::parsed_name(head + ".local."@) matches Some(n)
            ==> crate::services::hostname_of(head) == n,
        crate::wire::parsed_name(head + ".local."@) is None ==> ({
            let n = crate::services::hostname_of(head);
            &&& n.fqdn
            &&& n.labels.len() == 2
            &&& octets_are(n.labels[0], "router"@)
            &&& octets_are(n.labels[1], "local"@)
        }),
{
    let full = head.push('.') + tail;
    assert(full[head.len() as int] == '.');
    assert(full.contains('.'));
    let i = choose|i: int| crate::text::first_at(full, '.', i);
    assert(crate::text::first_at(full, '.', head.len() as int)) by {
        assert forall|k: int| #![trigger full[k]] 0 <= k < head.len() implies full[k] != '.' by {
            assert(full[k] == head[k]);
            assert(head.contains(head[k]));
        }
    }
    assert(crate::text::first_at(full, '.', i));
    assert(full[i] == '.');
    assert(i == head.len()) by {
        if i < head.len() {
            assert(full[i] == head[i]);
            assert(head.contains(head[i]));
        }
    }
    assert(full.take(i) =~= head);
}

} // verus!
