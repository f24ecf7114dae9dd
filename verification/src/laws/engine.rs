//! Laws of the handling of datagrams.

use vstd::prelude::*;

use crate::addr::SocketAddr;
use crate::cache::{has_key, inserted, CacheView, EntryView};
use crate::config::Resolved;
use crate::dns::{MessageType, MessageView, RecordView};
use crate::engine::{accepted, all_records, handled, learned, own_address, CacheUpdate, Handling};
use crate::iface::{Datagram, Iface};
use crate::laws::cache::{
    insertion_adds_at_most_one, insertion_keeps_cache_valid, other_records_stay,
    outcomes_tell_what_happened, received_record_is_stored, records_are_never_rejected, same_set,
    stored_ttl,
};
use crate::laws::repeater::ingress_is_no_target;
use crate::repeater::{recv_iface, targets};
use crate::responder::response_plan;
use crate::services::PublishedView;
use crate::wire::decoded;

verus! {

/// Datagrams from another port than 5353, and the daemon's own, have no effect.
pub proof fn foreign_and_own_datagrams_have_no_effect(
    config: Resolved,
    ifaces: Seq<Iface>,
    c: CacheView,
    p: PublishedView,
    pkt: Datagram,
    now: u128,
    after: CacheView,
    r: Option<Handling>,
)
    requires
        handled(config, ifaces, c, p, pkt, now, after, r),
        pkt.source.port != 5353 || own_address(ifaces, pkt.source.ip) || !config.admits(
            pkt.source.ip,
        ),
    ensures
        after == c,
        r is None,
{
}

/// Queries leave the cache as it is, and so does what is no message.
pub proof fn only_responses_change_the_cache(
    config: Resolved,
    ifaces: Seq<Iface>,
    c: CacheView,
    p: PublishedView,
    pkt: Datagram,
    now: u128,
    after: CacheView,
    r: Option<Handling>,
)
    requires
        handled(config, ifaces, c, p, pkt, now, after, r),
        decoded(pkt.data@) matches Some(m) ==> m.message_type == MessageType::Query,
    ensures
        after == c,
{
}

/// Responses are not answered.
pub proof fn responses_are_not_answered(
    config: Resolved,
    ifaces: Seq<Iface>,
    c: CacheView,
    p: PublishedView,
    pkt: Datagram,
    now: u128,
    after: CacheView,
    h: Handling,
)
    requires
        handled(config, ifaces, c, p, pkt, now, after, Some(h)),
        decoded(pkt.data@) matches Some(m) && m.message_type == MessageType::Response,
    ensures
        h.response is None,
{
}

/// A datagram whose ingress is known is not repeated to it; without the repeater it is not
/// repeated at all.
pub proof fn datagrams_are_not_repeated_to_their_ingress(
    config: Resolved,
    ifaces: Seq<Iface>,
    c: CacheView,
    p: PublishedView,
    pkt: Datagram,
    now: u128,
    after: CacheView,
    h: Handling,
)
    requires
        ifaces.len() <= usize::MAX,
        handled(config, ifaces, c, p, pkt, now, after, Some(h)),
    ensures
        h.recv_idx matches Some(i) ==> !h.targets@.contains(i),
        !config.repeat ==> h.targets@.len() == 0,
{
    if let Some(i) = h.recv_idx {
        ingress_is_no_target(i, pkt.source.ip, ifaces);
    }
}

/// However many records arrive, the cache stays valid and none is rejected.
pub proof fn responses_keep_the_cache_valid(
    c: CacheView,
    records: Seq<RecordView>,
    source: Option<u32>,
    now: u128,
)
    requires
        c.valid(),
    ensures
        learned(c, records, source, now).0.valid(),
        learned(c, records, source, now).0.max_entries == c.max_entries,
        learned(c, records, source, now).1.rejected == 0,
    decreases records.len(),
{
    if records.len() > 0 {
        responses_keep_the_cache_valid(c, records.drop_last(), source, now);
        let c1 = learned(c, records.drop_last(), source, now).0;
        insertion_keeps_cache_valid(c1, records.last(), source, now);
        records_are_never_rejected(c1, records.last(), source, now);
    }
}

/// A datagram is handled exactly when it comes from port 5353, from an address that no
/// interface has and that the configuration admits, and either its interface is known or
/// datagrams are repeated.
pub proof fn acceptance_rests_on_port_source_and_interface(
    config: Resolved,
    ifaces: Seq<Iface>,
    source: SocketAddr,
    recv_ifindex: Option<u32>,
)
    ensures
        accepted(config, ifaces, source, recv_ifindex) <==> {
            &&& source.port == 5353
            &&& forall|f: Iface| #[trigger] ifaces.contains(f) ==> !f.owns(source.ip)
            &&& config.admits(source.ip)
            &&& config.repeat || recv_iface(source.ip, recv_ifindex, ifaces) is Some
        },
{
    if own_address(ifaces, source.ip) {
        let i = choose|i: int|
            #![trigger ifaces[i]]
            0 <= i < ifaces.len() && ifaces[i].owns(source.ip);
        assert(ifaces.contains(ifaces[i]));
    }
    if exists|f: Iface| #[trigger] ifaces.contains(f) && f.owns(source.ip) {
        let f = choose|f: Iface| #[trigger] ifaces.contains(f) && f.owns(source.ip);
        let i = choose|i: int| 0 <= i < ifaces.len() && ifaces[i] == f;
        assert(ifaces[i].owns(source.ip));
    }
}

/// The records of all three sections of a message count, in the order in which they stand.
pub proof fn all_sections_count(m: MessageView, r: RecordView, i: int)
    ensures
        all_records(m).contains(r) <==> m.answers.contains(r) || m.authorities.contains(r)
            || m.additionals.contains(r),
        all_records(m).len() == m.answers.len() + m.authorities.len() + m.additionals.len(),
        0 <= i < m.answers.len() ==> all_records(m)[i] == m.answers[i],
        0 <= i < m.authorities.len() ==> all_records(m)[m.answers.len() + i] == m.authorities[i],
        0 <= i < m.additionals.len() ==> all_records(m)[m.answers.len() + m.authorities.len() + i]
            == m.additionals[i],
{
    let all = all_records(m);
    let a = m.answers.len();
    let b = m.authorities.len();
    if all.contains(r) {
        let k = choose|k: int| 0 <= k < all.len() && all[k] == r;
        if k < a {
            assert(m.answers[k] == r);
        } else if k < a + b {
            assert(m.authorities[k - a] == r);
        } else {
            assert(m.additionals[k - a - b] == r);
        }
    }
    if m.answers.contains(r) {
        let k = choose|k: int| 0 <= k < a && m.answers[k] == r;
        assert(all[k] == r);
    }
    if m.authorities.contains(r) {
        let k = choose|k: int| 0 <= k < b && m.authorities[k] == r;
        assert(all[a + k] == r);
    }
    if m.additionals.contains(r) {
        let k = choose|k: int| 0 <= k < m.additionals.len() && m.additionals[k] == r;
        assert(all[a + b + k] == r);
    }
}

/// What arrives in one message does what it would do in two, one after the other: nothing is
/// passed over, and nothing is taken twice.
pub proof fn learning_goes_record_by_record(
    c: CacheView,
    first: Seq<RecordView>,
    then: Seq<RecordView>,
    r: RecordView,
    source: Option<u32>,
    now: u128,
)
    ensures
        learned(c, Seq::empty(), source, now).0 == c,
        learned(c, seq![r], source, now).0 == inserted(c, r, source, now).0,
        learned(c, first + then, source, now).0 == learned(
            learned(c, first, source, now).0,
            then,
            source,
            now,
        ).0,
    decreases then.len(),
{
    assert(seq![r].drop_last() =~= Seq::<RecordView>::empty());
    assert(learned(c, Seq::empty(), source, now).0 == c);
    if then.len() == 0 {
        assert(first + then =~= first);
    } else {
        let all = first + then;
        assert(all.drop_last() =~= first + then.drop_last());
        assert(all.last() == then.last());
        learning_goes_record_by_record(c, first, then.drop_last(), r, source, now);
    }
}

/// The counts tell how many records were added, renewed and taken back, as far as the cache
/// held them before; those that asked to be forgotten and were not held count nowhere.
pub proof fn counts_tell_the_outcomes(
    c: CacheView,
    records: Seq<RecordView>,
    r: RecordView,
    source: Option<u32>,
    now: u128,
)
    requires
        records.len() < u128::MAX,
    ensures
        learned(c, Seq::empty(), source, now).1 == (CacheUpdate {
            inserted: 0,
            refreshed: 0,
            goodbyes: 0,
            rejected: 0,
        }),
        ({
            let (before, u) = learned(c, records, source, now);
            let v = learned(c, records.push(r), source, now).1;
            let held = has_key(before.entries, r.key());
            let lives = stored_ttl(r, before.max_ttl) > 0;
            &&& v.inserted == u.inserted + (if lives && !held { 1int } else { 0 })
            &&& v.refreshed == u.refreshed + (if lives && held { 1int } else { 0 })
            &&& v.goodbyes == u.goodbyes + (if !lives && held { 1int } else { 0 })
            &&& v.rejected == 0
        }),
{
    let all = records.push(r);
    assert(all.drop_last() =~= records);
    let (before, u) = learned(c, records, source, now);
    outcomes_tell_what_happened(before, r, source, now);
    lemma_counts(c, records, source, now);
}

proof fn lemma_counts(c: CacheView, records: Seq<RecordView>, source: Option<u32>, now: u128)
    requires
        records.len() <= u128::MAX,
    ensures
        ({
            let u = learned(c, records, source, now).1;
            u.inserted + u.refreshed + u.goodbyes <= records.len() && u.rejected == 0
        }),
    decreases records.len(),
{
    if records.len() > 0 {
        let rest = records.drop_last();
        lemma_counts(c, rest, source, now);
        outcomes_tell_what_happened(
            learned(c, rest, source, now).0,
            records.last(),
            source,
            now,
        );
    }
}

/// The entry that a record received at `now` makes.
pub open spec fn entry_for(e: EntryView, r: RecordView, limit: Option<u64>, now: u128) -> bool {
    &&& e.record == (RecordView { ttl: stored_ttl(r, limit), ..r })
    &&& e.deadline == now + stored_ttl(r, limit) * 1_000_000_000
}

proof fn lemma_entries_grow(c: CacheView, records: Seq<RecordView>, source: Option<u32>, now: u128)
    requires
        c.valid(),
        c.entries.len() + records.len() <= c.max_entries,
    ensures
        learned(c, records, source, now).0.entries.len() <= c.entries.len() + records.len(),
        learned(c, records, source, now).0.max_ttl == c.max_ttl,
    decreases records.len(),
{
    if records.len() > 0 {
        let rest = records.drop_last();
        lemma_entries_grow(c, rest, source, now);
        responses_keep_the_cache_valid(c, rest, source, now);
        let before = learned(c, rest, source, now).0;
        let r = records.last();
        insertion_keeps_cache_valid(before, r, source, now);
        insertion_adds_at_most_one(before, r, source, now);
    }
}

/// Every record of a message that has a lifetime is in the cache afterwards, whatever its
/// place in the message, unless a later one takes it back, replaces it or flushes it, or the
/// cache is full.
pub proof fn every_record_of_a_message_is_learned(
    c: CacheView,
    records: Seq<RecordView>,
    source: Option<u32>,
    now: u128,
    k: int,
)
    requires
        c.valid(),
        c.entries.len() + records.len() <= c.max_entries,
        0 <= k < records.len(),
        stored_ttl(records[k], c.max_ttl) > 0,
        forall|j: int| #![trigger records[j]]
            k < j < records.len() ==> records[j].key() != records[k].key() && !(
            records[j].cache_flush && same_set(records[k], records[j])),
    ensures
        exists|e: EntryView| #[trigger]
            learned(c, records, source, now).0.entries.contains(e) && entry_for(
                e,
                records[k],
                c.max_ttl,
                now,
            ) && (source is Some ==> e.source == source),
    decreases records.len(),
{
    let rest = records.drop_last();
    let r = records.last();
    lemma_entries_grow(c, rest, source, now);
    responses_keep_the_cache_valid(c, rest, source, now);
    let before = learned(c, rest, source, now).0;
    if k == rest.len() {
        received_record_is_stored(before, r, source, now);
        let e = choose|e: EntryView| #[trigger]
            inserted(before, r, source, now).0.entries.contains(e) && e.record == (RecordView {
                ttl: stored_ttl(r, before.max_ttl),
                ..r
            }) && e.deadline == now + stored_ttl(r, before.max_ttl) * 1_000_000_000 && (source
                is Some ==> e.source == source) && (source is None ==> if has_key(
                before.entries,
                r.key(),
            ) {
                exists|x: EntryView| #[trigger]
                    before.entries.contains(x) && x.record.key() == r.key() && x.source == e.source
            } else {
                e.source is None
            });
        assert(learned(c, records, source, now).0.entries.contains(e));
    } else {
        assert(rest[k] == records[k]);
        assert forall|j: int| #![trigger rest[j]] k < j < rest.len() implies rest[j].key()
            != rest[k].key() && !(rest[j].cache_flush && same_set(rest[k], rest[j])) by {
            assert(rest[j] == records[j]);
        }
        every_record_of_a_message_is_learned(c, rest, source, now, k);
        let e = choose|e: EntryView| #[trigger]
            before.entries.contains(e) && entry_for(e, rest[k], c.max_ttl, now) && (source is Some
                ==> e.source == source);
        let last = records[records.len() - 1];
        assert(last == r);
        assert(r.key() != records[k].key());
        assert(e.record.key() == records[k].key());
        assert(!(r.cache_flush && same_set(e.record, r)));
        other_records_stay(before, r, source, now, e);
        assert(learned(c, records, source, now).0.entries.contains(e));
    }
}

/// A datagram that is handled goes on to the repeater's targets, in order, whatever it holds;
/// a response teaches the cache all its records as learned on the interface on which it came
/// in; a query whose interface is known gets the response planned for that interface.
pub proof fn datagrams_are_handled_by_their_kind(
    config: Resolved,
    ifaces: Seq<Iface>,
    c: CacheView,
    p: PublishedView,
    pkt: Datagram,
    now: u128,
    after: CacheView,
    h: Handling,
)
    requires
        handled(config, ifaces, c, p, pkt, now, after, Some(h)),
    ensures
        accepted(config, ifaces, pkt.source, pkt.recv_ifindex),
        h.recv_idx == recv_iface(pkt.source.ip, pkt.recv_ifindex, ifaces),
        config.repeat ==> h.targets@ == targets(h.recv_idx, pkt.source.ip, ifaces, ifaces.len()),
        decoded(pkt.data@) is None ==> h.update is None && h.response is None,
        decoded(pkt.data@) matches Some(m) ==> (h.update is Some <==> m.message_type
            == MessageType::Response),
        decoded(pkt.data@) matches Some(m) ==> {
            let source = if h.recv_idx is Some {
                Some(ifaces[h.recv_idx->0 as int].ifindex)
            } else {
                None
            };
            let (taught, counts) = learned(
                c,
                m.answers + m.authorities + m.additionals,
                source,
                now,
            );
            m.message_type == MessageType::Response ==> after == taught && h.update == Some(counts)
        },
        decoded(pkt.data@) matches Some(m) ==> {
            let plan = response_plan(
                config.answer_from_cache,
                c,
                p,
                ifaces[h.recv_idx->0 as int],
                m,
                now,
            );
            m.message_type == MessageType::Query ==> {
                &&& h.response is Some <==> h.recv_idx is Some && plan is Some
                &&& h.response is Some ==> h.response->0@ == plan->0
            }
        },
{
}

} // verus!
