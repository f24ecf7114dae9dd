//! Laws of responses.

use vstd::prelude::*;

use crate::cache::{found_elsewhere, CacheView};
use crate::config::ServiceConfig;
use crate::dns::{
    MessageType, MessageView, NameView, QuestionView, RDataView, RecordType, RecordView,
};
use crate::iface::Iface;
use crate::laws::cache::{
    relayed_records_come_from_elsewhere, relayed_records_never_outlive_their_entries, seconds_left,
};
use crate::laws::dns::{names_are_the_same_in_any_case, same_name};
use crate::laws::services::{
    host_records_are_those_of_the_interface, published_answers_are_complete,
    published_answers_fit_the_question,
};
use crate::responder::{
    additionals, address_additionals, admitted, cache_answers, candidates, delay_class, held, known,
    least_interval, limited, local_answers, merged, pointer_additionals, probes, response_message,
    response_plan, response_written, suppressed, with_new, PlanView,
};
use crate::services::{host_records_on, published, published_answers, uniques_on, PublishedView};
use crate::timing::{delay_range, free, slot_of, taken, DelayClass, Slot};
use crate::wire::{decoded, encoded, legible, sent};

verus! {

broadcast use vstd::seq_lib::group_filter_ensures;

/// Known-answer suppression keeps exactly the answers that the querier does not know.
pub proof fn suppression_drops_exactly_what_is_known(
    answers: Seq<RecordView>,
    known_answers: Seq<RecordView>,
    r: RecordView,
)
    ensures
        suppressed(answers, known_answers).contains(r) <==> answers.contains(r) && !known(
            known_answers,
            r,
        ),
{
    let p = |a: RecordView| !known(known_answers, a);
    let out = answers.filter(p);
    if out.contains(r) {
        answers.lemma_filter_contains_rev(p, r);
        let k = choose|k: int| 0 <= k < out.len() && out[k] == r;
        assert(p(out[k]));
    }
    if answers.contains(r) && !known(known_answers, r) {
        let k = choose|k: int| 0 <= k < answers.len() && answers[k] == r;
        assert(p(answers[k]));
    }
}

proof fn lemma_filter_all<A>(s: Seq<A>, p: spec_fn(A) -> bool)
    requires
        forall|i: int| #![trigger s[i]] 0 <= i < s.len() ==> p(s[i]),
    ensures
        s.filter(p) == s,
    decreases s.len(),
{
    reveal(Seq::filter);
    if s.len() > 0 {
        let rest = s.drop_last();
        assert forall|i: int| #![trigger rest[i]] 0 <= i < rest.len() implies p(rest[i]) by {
            assert(rest[i] == s[i]);
        }
        lemma_filter_all(rest, p);
        assert(p(s[s.len() - 1]));
        assert(rest.push(s.last()) =~= s);
    }
}

/// Suppressing twice is suppressing once, and a query that lists no answers suppresses
/// none.
pub proof fn suppression_is_idempotent(
    answers: Seq<RecordView>,
    known_answers: Seq<RecordView>,
)
    ensures
        suppressed(suppressed(answers, known_answers), known_answers) == suppressed(
            answers,
            known_answers,
        ),
        suppressed(answers, Seq::empty()) == answers,
{
    let p = |a: RecordView| !known(known_answers, a);
    let once = suppressed(answers, known_answers);
    assert forall|i: int| #![trigger once[i]] 0 <= i < once.len() implies p(once[i]) by {
        assert(p(answers.filter(p)[i]));
    }
    lemma_filter_all(once, p);
    lemma_filter_all(answers, |a: RecordView| !known(Seq::empty(), a));
}

/// A record is known by at least half its lifetime, and not by less.
pub proof fn half_the_lifetime_decides(ans: RecordView, listed: RecordView)
    requires
        listed.name.folded() == ans.name.folded(),
        listed.rtype() == ans.rtype(),
        listed.data.folded() == ans.data.folded(),
    ensures
        known(seq![listed], ans) == (2 * listed.ttl >= ans.ttl),
{
    let s = seq![listed];
    assert(s[0] == listed);
}

/// No record occurs twice.
pub open spec fn distinct(records: Seq<RecordView>) -> bool {
    forall|i: int, j: int| #![trigger records[i], records[j]]
        0 <= i < j < records.len() ==> records[i].key() != records[j].key()
}

/// No record of `a` occurs in `b`.
pub open spec fn disjoint(a: Seq<RecordView>, b: Seq<RecordView>) -> bool {
    forall|i: int| #![trigger a[i]] 0 <= i < a.len() ==> !held(b, a[i].key())
}

proof fn lemma_merged(avoid: Seq<RecordView>, out: Seq<RecordView>, more: Seq<RecordView>)
    requires
        distinct(out),
        disjoint(out, avoid),
    ensures
        distinct(merged(avoid, out, more)),
        disjoint(merged(avoid, out, more), avoid),
        forall|r: RecordView| #[trigger]
            merged(avoid, out, more).contains(r) ==> out.contains(r) || more.contains(r),
    decreases more.len(),
{
    if more.len() > 0 {
        let rest = more.drop_last();
        let r = more.last();
        lemma_merged(avoid, out, rest);
        let before = merged(avoid, out, rest);
        let after = merged(avoid, out, more);
        assert(after == with_new(avoid, before, r));
        assert forall|x: RecordView| #[trigger] after.contains(x) implies out.contains(x)
            || more.contains(x) by {
            let k = choose|k: int| 0 <= k < after.len() && after[k] == x;
            if k < before.len() {
                assert(before[k] == x);
                assert(before.contains(x));
                if rest.contains(x) {
                    let j = choose|j: int| 0 <= j < rest.len() && rest[j] == x;
                    assert(more[j] == x);
                }
            } else {
                assert(more[more.len() - 1] == x);
            }
        }
        if !(held(avoid, r.key()) || held(before, r.key())) {
            assert forall|i: int, j: int| #![trigger after[i], after[j]]
                0 <= i < j < after.len() implies after[i].key() != after[j].key() by {
                assert(after[i] == before[i]);
                if j < before.len() {
                    assert(after[j] == before[j]);
                }
            }
            assert forall|i: int| #![trigger after[i]] 0 <= i < after.len() implies !held(
                avoid,
                after[i].key(),
            ) by {
                if i < before.len() {
                    assert(after[i] == before[i]);
                }
            }
        }
    }
}

/// Every answer is given once, and each of them is a published record that belongs on
/// the interface, or, where answering from the cache is enabled, one that was learned on
/// another interface.
pub proof fn answers_are_distinct_and_justified(
    from_cache: bool,
    c: CacheView,
    p: PublishedView,
    arrival: Iface,
    queries: Seq<QuestionView>,
    now: u128,
)
    ensures
        distinct(candidates(from_cache, c, p, arrival, queries, now)),
        forall|r: RecordView| #[trigger]
            candidates(from_cache, c, p, arrival, queries, now).contains(r) ==> exists|k: int|
                #![trigger queries[k]]
                0 <= k < queries.len() && (local_answers(p, arrival, queries[k]).contains(r)
                    || from_cache && found_elsewhere(
                    c,
                    queries[k].name,
                    queries[k].qtype,
                    arrival.ifindex,
                    now,
                ).contains(r)),
    decreases queries.len(),
{
    if queries.len() > 0 {
        let rest = queries.drop_last();
        let q = queries.last();
        answers_are_distinct_and_justified(from_cache, c, p, arrival, rest, now);
        let before = candidates(from_cache, c, p, arrival, rest, now);
        let local = local_answers(p, arrival, q);
        let cached = cache_answers(from_cache, c, arrival, q.name, q.qtype, now);
        let none = Seq::<RecordView>::empty();
        lemma_merged(none, before, local);
        lemma_merged(none, merged(none, before, local), cached);
        let out = candidates(from_cache, c, p, arrival, queries, now);
        assert(out == merged(none, merged(none, before, local), cached));
        assert forall|r: RecordView| #[trigger] out.contains(r) implies exists|k: int|
            #![trigger queries[k]]
            0 <= k < queries.len() && (local_answers(p, arrival, queries[k]).contains(r)
                || from_cache && found_elsewhere(
                c,
                queries[k].name,
                queries[k].qtype,
                arrival.ifindex,
                now,
            ).contains(r)) by {
            if cached.contains(r) || local.contains(r) {
                assert(queries[queries.len() - 1] == q);
            } else {
                assert(before.contains(r));
                let k = choose|k: int|
                    #![trigger rest[k]]
                    0 <= k < rest.len() && (local_answers(p, arrival, rest[k]).contains(r)
                        || from_cache && found_elsewhere(
                        c,
                        rest[k].name,
                        rest[k].qtype,
                        arrival.ifindex,
                        now,
                    ).contains(r));
                assert(queries[k] == rest[k]);
            }
        }
    }
}

/// Without published records, everything that is answered is relayed: its cache-flush
/// bit is clear. Without answering from the cache, nothing is.
pub proof fn relayed_answers_do_not_claim_ownership(
    from_cache: bool,
    c: CacheView,
    p: PublishedView,
    arrival: Iface,
    queries: Seq<QuestionView>,
    now: u128,
    r: RecordView,
)
    requires
        p.host_a.len() == 0,
        p.host_aaaa.len() == 0,
        p.services.len() == 0,
        candidates(from_cache, c, p, arrival, queries, now).contains(r),
    ensures
        from_cache,
        !r.cache_flush,
{
    answers_are_distinct_and_justified(from_cache, c, p, arrival, queries, now);
    let k = choose|k: int|
        #![trigger queries[k]]
        0 <= k < queries.len() && (local_answers(p, arrival, queries[k]).contains(r) || from_cache
            && found_elsewhere(
            c,
            queries[k].name,
            queries[k].qtype,
            arrival.ifindex,
            now,
        ).contains(r));
    let q = queries[k];
    let none = published_answers(p, q.name, q.qtype);
    assert(none.len() == 0) by {
        assert(p.services =~= Seq::empty());
        assert(p.services.flat_map(
            |s: crate::services::ServiceRecordsView|
                crate::services::service_answers(s, q.name, q.qtype),
        ) =~= Seq::<RecordView>::empty());
    }
    assert(local_answers(p, arrival, q).len() == 0);
    relayed_records_come_from_elsewhere(c, q.name, q.qtype, arrival.ifindex, now, r);
}

/// Of the published address records, only those of the interface itself are answered.
pub proof fn foreign_addresses_are_not_answered(
    p: PublishedView,
    arrival: Iface,
    q: QuestionView,
    r: RecordView,
)
    requires
        local_answers(p, arrival, q).contains(r),
    ensures
        published_answers(p, q.name, q.qtype).contains(r),
        r.rtype() == RecordType::A || r.rtype() == RecordType::AAAA ==> held(
            host_records_on(p, arrival),
            r.key(),
        ),
{
    let f = |r: RecordView|
        (r.rtype() == RecordType::A || r.rtype() == RecordType::AAAA) ==> held(
            host_records_on(p, arrival),
            r.key(),
        );
    let all = published_answers(p, q.name, q.qtype);
    all.lemma_filter_contains_rev(f, r);
    let out = all.filter(f);
    let k = choose|k: int| 0 <= k < out.len() && out[k] == r;
    assert(f(out[k]));
}

proof fn lemma_pointer_additionals(
    c: CacheView,
    arrival: u32,
    now: u128,
    avoid: Seq<RecordView>,
    answers: Seq<RecordView>,
)
    ensures
        distinct(pointer_additionals(c, arrival, now, avoid, answers)),
        disjoint(pointer_additionals(c, arrival, now, avoid, answers), avoid),
        forall|r: RecordView| #[trigger]
            pointer_additionals(c, arrival, now, avoid, answers).contains(r) ==> !r.cache_flush,
    decreases answers.len(),
{
    if answers.len() > 0 {
        lemma_pointer_additionals(c, arrival, now, avoid, answers.drop_last());
        let before = pointer_additionals(c, arrival, now, avoid, answers.drop_last());
        if let RDataView::PTR(target) = answers.last().data {
            lemma_add_found(c, arrival, now, avoid, before, target, RecordType::SRV);
            let middle = merged(
                avoid,
                before,
                found_elsewhere(c, target, RecordType::SRV, arrival, now),
            );
            lemma_add_found(c, arrival, now, avoid, middle, target, RecordType::TXT);
        }
    }
}

proof fn lemma_add_found(
    c: CacheView,
    arrival: u32,
    now: u128,
    avoid: Seq<RecordView>,
    out: Seq<RecordView>,
    target: NameView,
    rtype: RecordType,
)
    requires
        distinct(out),
        disjoint(out, avoid),
        forall|r: RecordView| #[trigger] out.contains(r) ==> !r.cache_flush,
    ensures
        ({
            let after = merged(avoid, out, found_elsewhere(c, target, rtype, arrival, now));
            &&& distinct(after)
            &&& disjoint(after, avoid)
            &&& forall|r: RecordView| #[trigger] after.contains(r) ==> !r.cache_flush
        }),
{
    let more = found_elsewhere(c, target, rtype, arrival, now);
    let after = merged(avoid, out, more);
    lemma_merged(avoid, out, more);
    assert forall|r: RecordView| #[trigger] after.contains(r) implies !r.cache_flush by {
        if more.contains(r) {
            relayed_records_come_from_elsewhere(c, target, rtype, arrival, now, r);
        } else {
            assert(out.contains(r));
        }
    }
}

proof fn lemma_address_additionals(
    c: CacheView,
    arrival: u32,
    now: u128,
    avoid: Seq<RecordView>,
    out: Seq<RecordView>,
    records: Seq<RecordView>,
)
    requires
        distinct(out),
        disjoint(out, avoid),
        forall|r: RecordView| #[trigger] out.contains(r) ==> !r.cache_flush,
    ensures
        ({
            let after = address_additionals(c, arrival, now, avoid, out, records);
            &&& distinct(after)
            &&& disjoint(after, avoid)
            &&& forall|r: RecordView| #[trigger] after.contains(r) ==> !r.cache_flush
        }),
    decreases records.len(),
{
    if records.len() > 0 {
        lemma_address_additionals(c, arrival, now, avoid, out, records.drop_last());
        let before = address_additionals(c, arrival, now, avoid, out, records.drop_last());
        if let RDataView::SRV { target, .. } = records.last().data {
            lemma_add_found(c, arrival, now, avoid, before, target, RecordType::A);
            let middle = merged(
                avoid,
                before,
                found_elsewhere(c, target, RecordType::A, arrival, now),
            );
            lemma_add_found(c, arrival, now, avoid, middle, target, RecordType::AAAA);
        }
    }
}

/// No additional record repeats another or an answer, and all of them are relayed with
/// the cache-flush bit clear.
pub proof fn additional_records_are_new(
    from_cache: bool,
    c: CacheView,
    arrival: u32,
    now: u128,
    answers: Seq<RecordView>,
)
    ensures
        distinct(additionals(from_cache, c, arrival, now, answers)),
        disjoint(additionals(from_cache, c, arrival, now, answers), answers),
        forall|r: RecordView| #[trigger]
            additionals(from_cache, c, arrival, now, answers).contains(r) ==> !r.cache_flush,
{
    if from_cache {
        lemma_pointer_additionals(c, arrival, now, answers, answers);
        let added = pointer_additionals(c, arrival, now, answers, answers);
        lemma_address_additionals(c, arrival, now, answers, added, answers + added);
    }
}

/// An answer that is relayed is never sent without delay, unless a probe is answered.
pub proof fn relayed_answers_are_delayed(
    truncation: bool,
    questions: nat,
    answers: Seq<RecordView>,
    i: int,
)
    requires
        0 <= i < answers.len(),
        !answers[i].cache_flush,
    ensures
        ({
            let class = delay_class(truncation, questions, answers, false);
            &&& class == DelayClass::Shared || class == DelayClass::Truncated
            &&& delay_range(class).0 >= 20
        }),
{
}

/// Probes are answered without delay, whatever else holds.
pub proof fn probes_are_answered_at_once(
    truncation: bool,
    questions: nat,
    answers: Seq<RecordView>,
)
    ensures
        delay_range(delay_class(truncation, questions, answers, true)) == (0u64, 0u64),
{
}

/// A query whose answers the querier all knows is not answered.
pub proof fn known_answers_silence_the_responder(
    from_cache: bool,
    c: CacheView,
    p: PublishedView,
    arrival: Iface,
    msg: MessageView,
    now: u128,
)
    requires
        forall|r: RecordView| #[trigger]
            candidates(from_cache, c, p, arrival, msg.queries, now).contains(r) ==> known(
                msg.answers,
                r,
            ),
    ensures
        response_plan(from_cache, c, p, arrival, msg, now) is None,
{
    let all = candidates(from_cache, c, p, arrival, msg.queries, now);
    let out = suppressed(all, msg.answers);
    if out.len() > 0 {
        assert(out.contains(out[0]));
        suppression_drops_exactly_what_is_known(all, msg.answers, out[0]);
    }
}

/// A probe for a record of the daemon is answered as one, whether or not its data is the
/// same.
pub proof fn conflicting_probes_are_seen(
    authorities: Seq<RecordView>,
    unique: Seq<RecordView>,
    i: int,
    j: int,
)
    requires
        0 <= i < authorities.len(),
        0 <= j < unique.len(),
        authorities[i].name.folded() == unique[j].name.folded(),
        authorities[i].rtype() == unique[j].rtype(),
    ensures
        probes(authorities, unique),
        !probes(Seq::empty(), unique),
{
}

proof fn lemma_limited(
    last: Map<Slot, int>,
    ifindex: u32,
    records: Seq<RecordView>,
    now: u128,
    interval: u128,
)
    ensures
        ({
            let (m, out) = limited(last, ifindex, records, now, interval);
            &&& forall|s: Slot| #[trigger]
                m.contains_key(s) ==> m[s] == now as int || last.contains_key(s) && m[s] == last[s]
            &&& forall|i: int| #![trigger out[i]]
                0 <= i < out.len() ==> records.contains(out[i]) && m.contains_key(
                    slot_of(ifindex, out[i]),
                ) && m[slot_of(ifindex, out[i])] == now as int
            &&& forall|i: int| #![trigger records[i]]
                0 <= i < records.len() ==> m.contains_key(slot_of(ifindex, records[i]))
        }),
    decreases records.len(),
{
    if records.len() > 0 {
        let rest = records.drop_last();
        let r = records.last();
        lemma_limited(last, ifindex, rest, now, interval);
        let (m0, out0) = limited(last, ifindex, rest, now, interval);
        let (m, out) = limited(last, ifindex, records, now, interval);
        let slot = slot_of(ifindex, r);
        assert(m == taken(m0, slot, now, interval));
        assert forall|i: int| #![trigger out[i]] 0 <= i < out.len() implies records.contains(out[i])
            && m.contains_key(slot_of(ifindex, out[i])) && m[slot_of(ifindex, out[i])]
            == now as int by {
            if i < out0.len() {
                assert(out[i] == out0[i]);
                let k = choose|k: int| 0 <= k < rest.len() && rest[k] == out0[i];
                assert(records[k] == out[i]);
            } else {
                assert(records[records.len() - 1] == out[i]);
            }
        }
        assert forall|i: int| #![trigger records[i]] 0 <= i < records.len() implies m.contains_key(
            slot_of(ifindex, records[i]),
        ) by {
            if i < rest.len() {
                assert(rest[i] == records[i]);
            }
        }
    }
}

/// Every record that the rate limit lets through is noted as multicast at that time, and
/// is one of those that were to be sent.
pub proof fn admitted_records_are_noted(
    last: Map<Slot, int>,
    ifindex: u32,
    records: Seq<RecordView>,
    now: u128,
    interval: u128,
    i: int,
)
    requires
        0 <= i < limited(last, ifindex, records, now, interval).1.len(),
    ensures
        ({
            let (m, out) = limited(last, ifindex, records, now, interval);
            &&& records.contains(out[i])
            &&& m.contains_key(slot_of(ifindex, out[i]))
            &&& m[slot_of(ifindex, out[i])] == now as int
        }),
{
    lemma_limited(last, ifindex, records, now, interval);
}

/// The same records are not multicast on the same interface again before the interval is
/// over.
pub proof fn responses_do_not_repeat_within_the_interval(
    last: Map<Slot, int>,
    ifindex: u32,
    records: Seq<RecordView>,
    now: u128,
    later: u128,
    interval: u128,
)
    requires
        now <= later,
        later - now < interval,
        forall|s: Slot| #[trigger] last.contains_key(s) ==> last[s] <= now,
    ensures
        ({
            let (m, out) = limited(last, ifindex, records, now, interval);
            limited(m, ifindex, out, later, interval).1.len() == 0
        }),
{
    let (m, out) = limited(last, ifindex, records, now, interval);
    lemma_limited(last, ifindex, records, now, interval);
    lemma_all_blocked(m, ifindex, out, later, interval);
}

proof fn lemma_all_blocked(
    m: Map<Slot, int>,
    ifindex: u32,
    records: Seq<RecordView>,
    now: u128,
    interval: u128,
)
    requires
        forall|i: int| #![trigger records[i]]
            0 <= i < records.len() ==> !free(m, slot_of(ifindex, records[i]), now, interval),
    ensures
        limited(m, ifindex, records, now, interval) == (m, Seq::<RecordView>::empty()),
    decreases records.len(),
{
    if records.len() > 0 {
        let rest = records.drop_last();
        assert forall|i: int| #![trigger rest[i]] 0 <= i < rest.len() implies !free(
            m,
            slot_of(ifindex, rest[i]),
            now,
            interval,
        ) by {
            assert(rest[i] == records[i]);
        }
        lemma_all_blocked(m, ifindex, rest, now, interval);
        assert(!free(m, slot_of(ifindex, records[records.len() - 1]), now, interval));
    }
}

proof fn lemma_all_free(
    m: Map<Slot, int>,
    ifindex: u32,
    records: Seq<RecordView>,
    now: u128,
    interval: u128,
)
    requires
        distinct(records),
        forall|i: int| #![trigger records[i]]
            0 <= i < records.len() ==> free(m, slot_of(ifindex, records[i]), now, interval),
    ensures
        limited(m, ifindex, records, now, interval).1 == records,
        forall|s: Slot|
            (forall|i: int| #![trigger records[i]]
                0 <= i < records.len() ==> s != slot_of(ifindex, records[i])) ==> (
            #[trigger] free(limited(m, ifindex, records, now, interval).0, s, now, interval)
                == free(m, s, now, interval)),
    decreases records.len(),
{
    if records.len() > 0 {
        let rest = records.drop_last();
        let r = records.last();
        let slot = slot_of(ifindex, r);
        assert forall|i: int, j: int| #![trigger rest[i], rest[j]]
            0 <= i < j < rest.len() implies rest[i].key() != rest[j].key() by {
            assert(rest[i] == records[i] && rest[j] == records[j]);
        }
        assert forall|i: int| #![trigger rest[i]] 0 <= i < rest.len() implies free(
            m,
            slot_of(ifindex, rest[i]),
            now,
            interval,
        ) by {
            assert(rest[i] == records[i]);
        }
        lemma_all_free(m, ifindex, rest, now, interval);
        assert(records[records.len() - 1] == r);
        assert forall|i: int| #![trigger rest[i]] 0 <= i < rest.len() implies slot != slot_of(
            ifindex,
            rest[i],
        ) by {
            assert(rest[i] == records[i]);
            assert(records[i].key() != r.key());
        }
        let m0 = limited(m, ifindex, rest, now, interval).0;
        assert(free(m0, slot, now, interval) == free(m, slot, now, interval));
        assert(rest.push(r) =~= records);
        let m1 = limited(m, ifindex, records, now, interval).0;
        assert forall|s: Slot|
            (forall|i: int| #![trigger records[i]]
                0 <= i < records.len() ==> s != slot_of(ifindex, records[i])) implies (
        #[trigger] free(m1, s, now, interval) == free(m, s, now, interval)) by {
            assert(s != slot);
            assert forall|i: int| #![trigger rest[i]] 0 <= i < rest.len() implies s != slot_of(
                ifindex,
                rest[i],
            ) by {
                assert(rest[i] == records[i]);
            }
            assert(free(m0, s, now, interval) == free(m, s, now, interval));
            assert(m1 == m0.insert(slot, now as int));
        }
    }
}

/// Records that were not multicast on the interface within the interval all go out.
pub proof fn free_records_are_all_sent(
    last: Map<Slot, int>,
    ifindex: u32,
    records: Seq<RecordView>,
    now: u128,
    interval: u128,
)
    requires
        distinct(records),
        forall|i: int| #![trigger records[i]]
            0 <= i < records.len() ==> free(last, slot_of(ifindex, records[i]), now, interval),
    ensures
        limited(last, ifindex, records, now, interval).1 == records,
{
    lemma_all_free(last, ifindex, records, now, interval);
}

proof fn lemma_filter_keeps_distinct(records: Seq<RecordView>, p: spec_fn(RecordView) -> bool)
    requires
        distinct(records),
    ensures
        distinct(records.filter(p)),
    decreases records.len(),
{
    reveal(Seq::filter);
    if records.len() > 0 {
        let rest = records.drop_last();
        assert forall|i: int, j: int| #![trigger rest[i], rest[j]]
            0 <= i < j < rest.len() implies rest[i].key() != rest[j].key() by {
            assert(rest[i] == records[i] && rest[j] == records[j]);
        }
        lemma_filter_keeps_distinct(rest, p);
        let out = records.filter(p);
        assert forall|i: int, j: int| #![trigger out[i], out[j]]
            0 <= i < j < out.len() implies out[i].key() != out[j].key() by {
            if p(records.last()) && j == out.len() - 1 {
                assert(rest.filter(p)[i] == out[i]);
                assert(rest.filter(p).contains(out[i]));
                rest.lemma_filter_contains_rev(p, out[i]);
                let k = choose|k: int| 0 <= k < rest.len() && rest[k] == out[i];
                assert(records[k] == out[i]);
                assert(records[records.len() - 1] == out[j]);
            } else {
                assert(rest.filter(p)[i] == out[i]);
                assert(rest.filter(p)[j] == out[j]);
            }
        }
    }
}

/// A response goes out in full when none of its records was multicast on the interface
/// within the interval.
pub proof fn quiet_interface_gets_the_full_response(
    from_cache: bool,
    c: CacheView,
    p: PublishedView,
    arrival: Iface,
    msg: MessageView,
    planned: u128,
    plan: PlanView,
    last: Map<Slot, int>,
    now: u128,
)
    requires
        response_plan(from_cache, c, p, arrival, msg, planned) == Some(plan),
        forall|i: int| #![trigger plan.answers[i]]
            0 <= i < plan.answers.len() ==> free(
                last,
                slot_of(arrival.ifindex, plan.answers[i]),
                now,
                least_interval(plan.probe_defense),
            ),
        forall|i: int| #![trigger plan.additionals[i]]
            0 <= i < plan.additionals.len() ==> free(
                last,
                slot_of(arrival.ifindex, plan.additionals[i]),
                now,
                least_interval(plan.probe_defense),
            ),
    ensures
        admitted(last, arrival.ifindex, plan, now).1 == plan.answers,
        admitted(last, arrival.ifindex, plan, now).2 == plan.additionals,
{
    let interval = least_interval(plan.probe_defense);
    let ifindex = arrival.ifindex;
    answers_are_distinct_and_justified(from_cache, c, p, arrival, msg.queries, planned);
    lemma_filter_keeps_distinct(
        candidates(from_cache, c, p, arrival, msg.queries, planned),
        |a: RecordView| !known(msg.answers, a),
    );
    additional_records_are_new(from_cache, c, ifindex, planned, plan.answers);
    lemma_all_free(last, ifindex, plan.answers, now, interval);
    let m = limited(last, ifindex, plan.answers, now, interval).0;
    assert forall|i: int| #![trigger plan.additionals[i]]
        0 <= i < plan.additionals.len() implies free(
        m,
        slot_of(ifindex, plan.additionals[i]),
        now,
        interval,
    ) by {
        let s = slot_of(ifindex, plan.additionals[i]);
        assert(!held(plan.answers, plan.additionals[i].key()));
        assert forall|k: int| #![trigger plan.answers[k]]
            0 <= k < plan.answers.len() implies s != slot_of(ifindex, plan.answers[k]) by {
            assert(plan.answers[k].key() != plan.additionals[i].key());
        }
        assert(free(m, s, now, interval) == free(last, s, now, interval));
    }
    lemma_all_free(m, ifindex, plan.additionals, now, interval);
}

/// The querier lists `ans`: somewhere in its list stands a record of the same name, type and
/// data with at least half the lifetime.
pub open spec fn listed(answers: Seq<RecordView>, ans: RecordView) -> bool {
    exists|i: int| #![trigger answers[i]]
        0 <= i < answers.len() && same_name(answers[i].name, ans.name) && answers[i].rtype()
            == ans.rtype() && answers[i].data.folded() == ans.data.folded() && 2 * answers[i].ttl
            >= ans.ttl
}

proof fn lemma_listed(answers: Seq<RecordView>, ans: RecordView)
    ensures
        known(answers, ans) <==> listed(answers, ans),
{
    assert forall|i: int| 0 <= i < answers.len() implies (#[trigger] answers[i].name.folded()
        == ans.name.folded() <==> same_name(answers[i].name, ans.name)) by {
        names_are_the_same_in_any_case(answers[i].name, ans.name);
    }
    if known(answers, ans) {
        let i = choose|i: int|
            #![trigger answers[i]]
            0 <= i < answers.len() && answers[i].name.folded() == ans.name.folded()
                && answers[i].rtype() == ans.rtype() && answers[i].data.folded()
                == ans.data.folded() && 2 * answers[i].ttl >= ans.ttl;
        assert(answers[i].name.folded() == ans.name.folded());
        assert(listed(answers, ans));
    }
    if listed(answers, ans) {
        let i = choose|i: int|
            #![trigger answers[i]]
            0 <= i < answers.len() && same_name(answers[i].name, ans.name) && answers[i].rtype()
                == ans.rtype() && answers[i].data.folded() == ans.data.folded() && 2
                * answers[i].ttl >= ans.ttl;
        assert(answers[i].name.folded() == ans.name.folded());
        assert(known(answers, ans));
    }
}

/// An answer is left out when the querier lists it anywhere, with at least half its lifetime,
/// and only then.
pub proof fn every_listed_answer_is_suppressed(
    answers: Seq<RecordView>,
    known_answers: Seq<RecordView>,
    r: RecordView,
)
    ensures
        suppressed(answers, known_answers).contains(r) <==> answers.contains(r) && !listed(
            known_answers,
            r,
        ),
{
    lemma_listed(known_answers, r);
    suppression_drops_exactly_what_is_known(answers, known_answers, r);
}

/// Suppression repeats nothing.
pub proof fn suppression_keeps_answers_distinct(
    answers: Seq<RecordView>,
    known_answers: Seq<RecordView>,
)
    requires
        distinct(answers),
    ensures
        distinct(suppressed(answers, known_answers)),
{
    lemma_filter_keeps_distinct(answers, |a: RecordView| !known(known_answers, a));
}

proof fn lemma_merged_has(avoid: Seq<RecordView>, out: Seq<RecordView>, more: Seq<RecordView>)
    ensures
        forall|r: RecordView| #[trigger] out.contains(r) ==> merged(avoid, out, more).contains(r),
        forall|r: RecordView| #[trigger]
            more.contains(r) ==> held(merged(avoid, out, more), r.key()) || held(avoid, r.key()),
        out.len() <= merged(avoid, out, more).len(),
        forall|i: int| #![trigger out[i]]
            0 <= i < out.len() ==> merged(avoid, out, more)[i] == out[i],
    decreases more.len(),
{
    if more.len() > 0 {
        let rest = more.drop_last();
        lemma_merged_has(avoid, out, rest);
        let before = merged(avoid, out, rest);
        let after = merged(avoid, out, more);
        assert(after == with_new(avoid, before, more.last()));
        assert forall|k: int| 0 <= k < before.len() implies #[trigger] after[k] == before[k] by {}
        assert forall|r: RecordView| #[trigger] out.contains(r) implies after.contains(r) by {
            assert(before.contains(r));
            let k = choose|k: int| 0 <= k < before.len() && before[k] == r;
            assert(after[k] == r);
        }
        assert forall|i: int| #![trigger out[i]] 0 <= i < out.len() implies after[i] == out[i] by {
            assert(before[i] == out[i]);
        }
        assert forall|r: RecordView| #[trigger] more.contains(r) implies held(after, r.key())
            || held(avoid, r.key()) by {
            let k = choose|k: int| 0 <= k < more.len() && more[k] == r;
            if k < rest.len() {
                assert(rest[k] == r);
                assert(rest.contains(r));
                if held(before, r.key()) {
                    lemma_held_prefix(before, after, r);
                }
            } else if held(before, r.key()) {
                lemma_held_prefix(before, after, r);
            } else if !held(avoid, r.key()) {
                assert(after[before.len() as int] == r);
            }
        }
    }
}

proof fn lemma_held_prefix(before: Seq<RecordView>, after: Seq<RecordView>, r: RecordView)
    requires
        held(before, r.key()),
        before.len() <= after.len(),
        forall|k: int| 0 <= k < before.len() ==> #[trigger] after[k] == before[k],
    ensures
        held(after, r.key()),
{
    let k = choose|k: int|
        #![trigger before[k]]
        0 <= k < before.len() && before[k].key() == r.key();
    assert(after[k] == before[k]);
}

/// Some record of the list has the identity of `r`.
pub open spec fn includes(records: Seq<RecordView>, r: RecordView) -> bool {
    exists|x: RecordView| #[trigger] records.contains(x) && x.key() == r.key()
}

proof fn lemma_includes(records: Seq<RecordView>, r: RecordView)
    ensures
        held(records, r.key()) <==> includes(records, r),
{
    if held(records, r.key()) {
        let i = choose|i: int|
            #![trigger records[i]]
            0 <= i < records.len() && records[i].key() == r.key();
        assert(records.contains(records[i]));
    }
}

/// The record is one that the daemon publishes on the interface: an address record with an
/// address of the interface, or any record of a service.
pub open spec fn published_on(p: PublishedView, arrival: Iface, r: RecordView) -> bool {
    ||| p.host_a.contains(r) && arrival.v4 is Some && r.data == RDataView::A(arrival.v4->0.addr)
    ||| p.host_aaaa.contains(r) && arrival.v6 is Some && r.data == RDataView::AAAA(
        arrival.v6->0.addr,
    )
    ||| exists|i: int| #![trigger p.services[i]]
        0 <= i < p.services.len() && (r == p.services[i].ptr_type_to_instance || r
            == p.services[i].ptr_meta_to_type || r == p.services[i].srv || r == p.services[i].txt)
}

/// The cache has learned `r` elsewhere: some entry of another interface has its identity and
/// the seconds that remain to the entry are its lifetime.
pub open spec fn learned_elsewhere(c: CacheView, arrival: u32, now: u128, r: RecordView) -> bool {
    exists|i: int| #![trigger c.entries[i]]
        0 <= i < c.entries.len() && c.entries[i].source is Some && c.entries[i].source->0 != arrival
            && seconds_left(r.ttl, c.entries[i].deadline, now) && r == (RecordView {
            ttl: r.ttl,
            cache_flush: false,
            ..c.entries[i].record
        })
}

proof fn lemma_found_elsewhere(
    c: CacheView,
    name: NameView,
    rtype: RecordType,
    arrival: u32,
    now: u128,
    r: RecordView,
)
    ensures
        found_elsewhere(c, name, rtype, arrival, now).contains(r) <==> learned_elsewhere(
            c,
            arrival,
            now,
            r,
        ) && r.answers(name, rtype),
{
    relayed_records_never_outlive_their_entries(c, name, rtype, arrival, now, r);
    crate::laws::dns::records_answer_questions_for_their_name_and_type(r, name, rtype);
    if learned_elsewhere(c, arrival, now, r) && r.answers(name, rtype) {
        let i = choose|i: int|
            #![trigger c.entries[i]]
            0 <= i < c.entries.len() && c.entries[i].source is Some && c.entries[i].source->0
                != arrival && seconds_left(r.ttl, c.entries[i].deadline, now) && r == (RecordView {
                ttl: r.ttl,
                cache_flush: false,
                ..c.entries[i].record
            });
        assert(c.entries[i].record.name == r.name);
        assert(c.entries[i].record.rtype() == r.rtype());
    }
    if found_elsewhere(c, name, rtype, arrival, now).contains(r) {
        let i = choose|i: int|
            #![trigger c.entries[i]]
            0 <= i < c.entries.len() && same_name(c.entries[i].record.name, name) && (rtype
                == RecordType::ANY || c.entries[i].record.rtype() == rtype)
                && c.entries[i].source is Some && c.entries[i].source->0 != arrival
                && seconds_left(r.ttl, c.entries[i].deadline, now) && r == (RecordView {
                ttl: r.ttl,
                cache_flush: false,
                ..c.entries[i].record
            });
        assert(c.entries[i].record.name == r.name);
        assert(c.entries[i].record.rtype() == r.rtype());
    }
}

proof fn lemma_local(
    hostname: NameView,
    services: Seq<ServiceConfig>,
    ifaces: Seq<Iface>,
    arrival: Iface,
    q: QuestionView,
    r: RecordView,
)
    ensures
        ({
            let p = published(hostname, services, ifaces);
            &&& published_on(p, arrival, r) && r.answers(q.name, q.qtype) ==> local_answers(
                p,
                arrival,
                q,
            ).contains(r)
            &&& local_answers(p, arrival, q).contains(r) ==> r.answers(q.name, q.qtype)
        }),
{
    let p = published(hostname, services, ifaces);
    let all = published_answers(p, q.name, q.qtype);
    let own = host_records_on(p, arrival);
    let f = |r: RecordView|
        (r.rtype() == RecordType::A || r.rtype() == RecordType::AAAA) ==> held(own, r.key());
    if published_on(p, arrival, r) && r.answers(q.name, q.qtype) {
        published_answers_are_complete(hostname, services, ifaces, q.name, q.qtype, r);
        host_records_are_those_of_the_interface(p, arrival, r);
        if exists|i: int| #![trigger p.services[i]]
            0 <= i < p.services.len() && (r == p.services[i].ptr_type_to_instance || r
                == p.services[i].ptr_meta_to_type || r == p.services[i].srv || r
                == p.services[i].txt) {
            let i = choose|i: int|
                #![trigger p.services[i]]
                0 <= i < p.services.len() && (r == p.services[i].ptr_type_to_instance || r
                    == p.services[i].ptr_meta_to_type || r == p.services[i].srv || r
                    == p.services[i].txt);
            assert(p.services[i] == crate::services::records_of(hostname, services[i]));
        } else {
            let k = choose|k: int| 0 <= k < own.len() && own[k] == r;
            assert(own[k].key() == r.key());
        }
        assert(f(r));
        let k = choose|k: int| 0 <= k < all.len() && all[k] == r;
        assert(all.filter(f).contains(all[k]));
    }
    if local_answers(p, arrival, q).contains(r) {
        all.lemma_filter_contains_rev(f, r);
        published_answers_fit_the_question(hostname, services, ifaces, q.name, q.qtype, r);
    }
}

proof fn lemma_candidates_have(
    from_cache: bool,
    c: CacheView,
    p: PublishedView,
    arrival: Iface,
    queries: Seq<QuestionView>,
    now: u128,
    k: int,
    r: RecordView,
)
    requires
        0 <= k < queries.len(),
        local_answers(p, arrival, queries[k]).contains(r) || from_cache && found_elsewhere(
            c,
            queries[k].name,
            queries[k].qtype,
            arrival.ifindex,
            now,
        ).contains(r),
    ensures
        held(candidates(from_cache, c, p, arrival, queries, now), r.key()),
    decreases queries.len(),
{
    let rest = queries.drop_last();
    let q = queries.last();
    let none = Seq::<RecordView>::empty();
    let before = candidates(from_cache, c, p, arrival, rest, now);
    let local = local_answers(p, arrival, q);
    let cached = cache_answers(from_cache, c, arrival, q.name, q.qtype, now);
    let middle = merged(none, before, local);
    let out = merged(none, middle, cached);
    lemma_merged_has(none, before, local);
    lemma_merged_has(none, middle, cached);
    if k < rest.len() {
        assert(rest[k] == queries[k]);
        lemma_candidates_have(from_cache, c, p, arrival, rest, now, k, r);
        let i = choose|i: int|
            #![trigger before[i]]
            0 <= i < before.len() && before[i].key() == r.key();
        assert(middle[i] == before[i]);
        assert(out[i] == middle[i]);
    } else if local.contains(r) {
        assert(held(middle, r.key()));
        let i = choose|i: int|
            #![trigger middle[i]]
            0 <= i < middle.len() && middle[i].key() == r.key();
        assert(out[i] == middle[i]);
    } else {
        assert(cached.contains(r));
        assert(held(out, r.key()));
    }
}

/// Every question of a query is answered in full: each published record that answers it and
/// belongs on the interface is among the answers, and so is, where answering from the cache
/// is enabled, each live record that answers it and was learned on another interface.
pub proof fn every_question_is_answered(
    from_cache: bool,
    c: CacheView,
    hostname: NameView,
    services: Seq<ServiceConfig>,
    ifaces: Seq<Iface>,
    arrival: Iface,
    queries: Seq<QuestionView>,
    now: u128,
    k: int,
    r: RecordView,
)
    requires
        0 <= k < queries.len(),
        r.answers(queries[k].name, queries[k].qtype),
        published_on(published(hostname, services, ifaces), arrival, r) || from_cache
            && learned_elsewhere(c, arrival.ifindex, now, r),
    ensures
        includes(
            candidates(
                from_cache,
                c,
                published(hostname, services, ifaces),
                arrival,
                queries,
                now,
            ),
            r,
        ),
{
    let p = published(hostname, services, ifaces);
    let q = queries[k];
    lemma_local(hostname, services, ifaces, arrival, q, r);
    lemma_found_elsewhere(c, q.name, q.qtype, arrival.ifindex, now, r);
    lemma_candidates_have(from_cache, c, p, arrival, queries, now, k, r);
    lemma_includes(candidates(from_cache, c, p, arrival, queries, now), r);
}

proof fn lemma_local_is_published(
    hostname: NameView,
    services: Seq<ServiceConfig>,
    ifaces: Seq<Iface>,
    arrival: Iface,
    q: QuestionView,
    r: RecordView,
)
    requires
        local_answers(published(hostname, services, ifaces), arrival, q).contains(r),
    ensures
        published_on(published(hostname, services, ifaces), arrival, r),
{
    let p = published(hostname, services, ifaces);
    foreign_addresses_are_not_answered(p, arrival, q, r);
    crate::laws::services::published_answers_are_published(p, q.name, q.qtype, r);
    if p.host_a.contains(r) || p.host_aaaa.contains(r) {
        crate::laws::services::lemma_host_types(hostname, services, ifaces, r);
        let own = host_records_on(p, arrival);
        let i = choose|i: int|
            #![trigger own[i]]
            0 <= i < own.len() && own[i].key() == r.key();
        assert(own.contains(own[i]));
        host_records_are_those_of_the_interface(p, arrival, own[i]);
        assert(own[i].data.folded() == r.data.folded());
    }
    assert(published_on(p, arrival, r));
}

/// Every answer answers one of the questions, and is published on the interface or, where
/// answering from the cache is enabled, was learned on another one.
pub proof fn every_answer_belongs(
    from_cache: bool,
    c: CacheView,
    hostname: NameView,
    services: Seq<ServiceConfig>,
    ifaces: Seq<Iface>,
    arrival: Iface,
    queries: Seq<QuestionView>,
    now: u128,
    r: RecordView,
)
    requires
        candidates(
            from_cache,
            c,
            published(hostname, services, ifaces),
            arrival,
            queries,
            now,
        ).contains(r),
    ensures
        exists|k: int|
            #![trigger queries[k]]
            0 <= k < queries.len() && r.answers(queries[k].name, queries[k].qtype),
        published_on(published(hostname, services, ifaces), arrival, r) || from_cache
            && learned_elsewhere(c, arrival.ifindex, now, r),
{
    let p = published(hostname, services, ifaces);
    answers_are_distinct_and_justified(from_cache, c, p, arrival, queries, now);
    let k = choose|k: int|
        #![trigger queries[k]]
        0 <= k < queries.len() && (local_answers(p, arrival, queries[k]).contains(r) || from_cache
            && found_elsewhere(
            c,
            queries[k].name,
            queries[k].qtype,
            arrival.ifindex,
            now,
        ).contains(r));
    let q = queries[k];
    lemma_local(hostname, services, ifaces, arrival, q, r);
    lemma_found_elsewhere(c, q.name, q.qtype, arrival.ifindex, now, r);
    assert(r.answers(queries[k].name, queries[k].qtype));
    if local_answers(p, arrival, q).contains(r) {
        lemma_local_is_published(hostname, services, ifaces, arrival, q, r);
    }
}

proof fn lemma_merged_adds_new(
    avoid: Seq<RecordView>,
    out: Seq<RecordView>,
    more: Seq<RecordView>,
    r: RecordView,
)
    requires
        merged(avoid, out, more).contains(r),
        !out.contains(r),
    ensures
        more.contains(r),
        !held(out, r.key()),
    decreases more.len(),
{
    if more.len() > 0 {
        let rest = more.drop_last();
        let before = merged(avoid, out, rest);
        let after = merged(avoid, out, more);
        let k = choose|k: int| 0 <= k < after.len() && after[k] == r;
        lemma_merged_has(avoid, out, rest);
        if k < before.len() {
            assert(before[k] == r);
            assert(before.contains(r));
            lemma_merged_adds_new(avoid, out, rest, r);
            let j = choose|j: int| 0 <= j < rest.len() && rest[j] == r;
            assert(more[j] == r);
        } else {
            assert(more[more.len() - 1] == r);
            if held(out, r.key()) {
                let j = choose|j: int|
                    #![trigger out[j]]
                    0 <= j < out.len() && out[j].key() == r.key();
                assert(before[j] == out[j]);
            }
        }
    }
}

/// The daemon's own records win: a record that it publishes on the interface is never answered
/// with a copy that the cache has of it.
pub proof fn own_records_win_over_cached_copies(
    from_cache: bool,
    c: CacheView,
    hostname: NameView,
    services: Seq<ServiceConfig>,
    ifaces: Seq<Iface>,
    arrival: Iface,
    queries: Seq<QuestionView>,
    now: u128,
    r: RecordView,
    own: RecordView,
)
    requires
        candidates(
            from_cache,
            c,
            published(hostname, services, ifaces),
            arrival,
            queries,
            now,
        ).contains(r),
        published_on(published(hostname, services, ifaces), arrival, own),
        own.key() == r.key(),
    ensures
        published_on(published(hostname, services, ifaces), arrival, r),
    decreases queries.len(),
{
    let p = published(hostname, services, ifaces);
    let none = Seq::<RecordView>::empty();
    let rest = queries.drop_last();
    let q = queries.last();
    let before = candidates(from_cache, c, p, arrival, rest, now);
    let local = local_answers(p, arrival, q);
    let cached = cache_answers(from_cache, c, arrival, q.name, q.qtype, now);
    let middle = merged(none, before, local);
    if before.contains(r) {
        own_records_win_over_cached_copies(
            from_cache,
            c,
            hostname,
            services,
            ifaces,
            arrival,
            rest,
            now,
            r,
            own,
        );
    } else if middle.contains(r) {
        lemma_merged_adds_new(none, before, local, r);
        lemma_local_is_published(hostname, services, ifaces, arrival, q, r);
    } else {
        lemma_merged_adds_new(none, middle, cached, r);
        lemma_found_elsewhere(c, q.name, q.qtype, arrival.ifindex, now, r);
        assert(own.answers(q.name, q.qtype));
        lemma_local(hostname, services, ifaces, arrival, q, own);
        lemma_merged_has(none, before, local);
        assert(held(middle, own.key()));
    }
}

proof fn lemma_held_after_merge(
    avoid: Seq<RecordView>,
    out: Seq<RecordView>,
    more: Seq<RecordView>,
    r: RecordView,
)
    requires
        held(out, r.key()) || more.contains(r),
    ensures
        held(merged(avoid, out, more), r.key()) || held(avoid, r.key()),
{
    lemma_merged_has(avoid, out, more);
    if held(out, r.key()) {
        let k = choose|k: int| #![trigger out[k]] 0 <= k < out.len() && out[k].key() == r.key();
        assert(merged(avoid, out, more)[k] == out[k]);
    }
}

proof fn lemma_pointer_additionals_have(
    c: CacheView,
    arrival: u32,
    now: u128,
    avoid: Seq<RecordView>,
    answers: Seq<RecordView>,
    k: int,
    target: NameView,
    x: RecordView,
)
    requires
        0 <= k < answers.len(),
        answers[k].data == RDataView::PTR(target),
        learned_elsewhere(c, arrival, now, x),
        x.answers(target, RecordType::SRV) || x.answers(target, RecordType::TXT),
    ensures
        held(pointer_additionals(c, arrival, now, avoid, answers), x.key()) || held(
            avoid,
            x.key(),
        ),
    decreases answers.len(),
{
    let rest = answers.drop_last();
    let before = pointer_additionals(c, arrival, now, avoid, rest);
    if k < rest.len() {
        assert(rest[k] == answers[k]);
        lemma_pointer_additionals_have(c, arrival, now, avoid, rest, k, target, x);
    }
    if let RDataView::PTR(t) = answers.last().data {
        let srv = found_elsewhere(c, t, RecordType::SRV, arrival, now);
        let txt = found_elsewhere(c, t, RecordType::TXT, arrival, now);
        lemma_found_elsewhere(c, t, RecordType::SRV, arrival, now, x);
        lemma_found_elsewhere(c, t, RecordType::TXT, arrival, now, x);
        let middle = merged(avoid, before, srv);
        if held(before, x.key()) || srv.contains(x) {
            lemma_held_after_merge(avoid, before, srv, x);
        }
        if held(middle, x.key()) || txt.contains(x) {
            lemma_held_after_merge(avoid, middle, txt, x);
        }
    }
}

proof fn lemma_address_additionals_have(
    c: CacheView,
    arrival: u32,
    now: u128,
    avoid: Seq<RecordView>,
    out: Seq<RecordView>,
    records: Seq<RecordView>,
    x: RecordView,
)
    requires
        held(out, x.key()) || learned_elsewhere(c, arrival, now, x) && exists|k: int|
            #![trigger records[k]]
            0 <= k < records.len() && records[k].data is SRV && (x.answers(
                records[k].data->SRV_target,
                RecordType::A,
            ) || x.answers(records[k].data->SRV_target, RecordType::AAAA)),
    ensures
        held(address_additionals(c, arrival, now, avoid, out, records), x.key()) || held(
            avoid,
            x.key(),
        ),
    decreases records.len(),
{
    if records.len() > 0 {
        let rest = records.drop_last();
        let before = address_additionals(c, arrival, now, avoid, out, rest);
        if held(out, x.key()) {
            lemma_address_additionals_have(c, arrival, now, avoid, out, rest, x);
        } else {
            let k = choose|k: int|
                #![trigger records[k]]
                0 <= k < records.len() && records[k].data is SRV && (x.answers(
                    records[k].data->SRV_target,
                    RecordType::A,
                ) || x.answers(records[k].data->SRV_target, RecordType::AAAA));
            if k < rest.len() {
                assert(rest[k] == records[k]);
                lemma_address_additionals_have(c, arrival, now, avoid, out, rest, x);
            }
        }
        if let RDataView::SRV { target, .. } = records.last().data {
            let a = found_elsewhere(c, target, RecordType::A, arrival, now);
            let b = found_elsewhere(c, target, RecordType::AAAA, arrival, now);
            lemma_found_elsewhere(c, target, RecordType::A, arrival, now, x);
            lemma_found_elsewhere(c, target, RecordType::AAAA, arrival, now, x);
            let middle = merged(avoid, before, a);
            if held(before, x.key()) || a.contains(x) {
                lemma_held_after_merge(avoid, before, a, x);
            }
            if held(middle, x.key()) || b.contains(x) {
                lemma_held_after_merge(avoid, middle, b, x);
            }
        }
    }
}

proof fn lemma_merged_from(
    avoid: Seq<RecordView>,
    out: Seq<RecordView>,
    more: Seq<RecordView>,
    r: RecordView,
)
    requires
        merged(avoid, out, more).contains(r),
    ensures
        out.contains(r) || more.contains(r),
    decreases more.len(),
{
    if more.len() > 0 {
        let rest = more.drop_last();
        let before = merged(avoid, out, rest);
        let after = merged(avoid, out, more);
        let k = choose|k: int| 0 <= k < after.len() && after[k] == r;
        if k < before.len() {
            assert(before[k] == r);
            assert(before.contains(r));
            lemma_merged_from(avoid, out, rest, r);
            if rest.contains(r) {
                let j = choose|j: int| 0 <= j < rest.len() && rest[j] == r;
                assert(more[j] == r);
            }
        } else {
            assert(more[more.len() - 1] == r);
        }
    }
}

/// `r` is a service or text record of a target that a pointer among `records` has.
pub open spec fn describes_a_pointer(records: Seq<RecordView>, r: RecordView) -> bool {
    exists|k: int| #![trigger records[k]]
        0 <= k < records.len() && records[k].data is PTR && (r.answers(
            records[k].data->PTR_0,
            RecordType::SRV,
        ) || r.answers(records[k].data->PTR_0, RecordType::TXT))
}

/// `r` is an address record of a target that a service among `records` has.
pub open spec fn locates_a_service(records: Seq<RecordView>, r: RecordView) -> bool {
    exists|k: int| #![trigger records[k]]
        0 <= k < records.len() && records[k].data is SRV && (r.answers(
            records[k].data->SRV_target,
            RecordType::A,
        ) || r.answers(records[k].data->SRV_target, RecordType::AAAA))
}

proof fn lemma_pointer_additionals_from(
    c: CacheView,
    arrival: u32,
    now: u128,
    avoid: Seq<RecordView>,
    answers: Seq<RecordView>,
    r: RecordView,
)
    requires
        pointer_additionals(c, arrival, now, avoid, answers).contains(r),
    ensures
        learned_elsewhere(c, arrival, now, r),
        describes_a_pointer(answers, r),
    decreases answers.len(),
{
    if answers.len() > 0 {
        let rest = answers.drop_last();
        let before = pointer_additionals(c, arrival, now, avoid, rest);
        if let RDataView::PTR(t) = answers.last().data {
            let srv = found_elsewhere(c, t, RecordType::SRV, arrival, now);
            let txt = found_elsewhere(c, t, RecordType::TXT, arrival, now);
            lemma_found_elsewhere(c, t, RecordType::SRV, arrival, now, r);
            lemma_found_elsewhere(c, t, RecordType::TXT, arrival, now, r);
            let middle = merged(avoid, before, srv);
            lemma_merged_from(avoid, middle, txt, r);
            if middle.contains(r) {
                lemma_merged_from(avoid, before, srv, r);
            }
            assert(answers[answers.len() - 1] == answers.last());
        }
        if before.contains(r) {
            lemma_pointer_additionals_from(c, arrival, now, avoid, rest, r);
            let k = choose|k: int|
                #![trigger rest[k]]
                0 <= k < rest.len() && rest[k].data is PTR && (r.answers(
                    rest[k].data->PTR_0,
                    RecordType::SRV,
                ) || r.answers(rest[k].data->PTR_0, RecordType::TXT));
            assert(answers[k] == rest[k]);
        }
    }
}

proof fn lemma_address_additionals_from(
    c: CacheView,
    arrival: u32,
    now: u128,
    avoid: Seq<RecordView>,
    out: Seq<RecordView>,
    records: Seq<RecordView>,
    r: RecordView,
)
    requires
        address_additionals(c, arrival, now, avoid, out, records).contains(r),
    ensures
        out.contains(r) || learned_elsewhere(c, arrival, now, r) && locates_a_service(records, r),
    decreases records.len(),
{
    if records.len() > 0 {
        let rest = records.drop_last();
        let before = address_additionals(c, arrival, now, avoid, out, rest);
        if let RDataView::SRV { target, .. } = records.last().data {
            let a = found_elsewhere(c, target, RecordType::A, arrival, now);
            let b = found_elsewhere(c, target, RecordType::AAAA, arrival, now);
            lemma_found_elsewhere(c, target, RecordType::A, arrival, now, r);
            lemma_found_elsewhere(c, target, RecordType::AAAA, arrival, now, r);
            let middle = merged(avoid, before, a);
            lemma_merged_from(avoid, middle, b, r);
            if middle.contains(r) {
                lemma_merged_from(avoid, before, a, r);
            }
            assert(records[records.len() - 1] == records.last());
        }
        if before.contains(r) {
            lemma_address_additionals_from(c, arrival, now, avoid, out, rest, r);
            if locates_a_service(rest, r) {
                let k = choose|k: int|
                    #![trigger rest[k]]
                    0 <= k < rest.len() && rest[k].data is SRV && (r.answers(
                        rest[k].data->SRV_target,
                        RecordType::A,
                    ) || r.answers(rest[k].data->SRV_target, RecordType::AAAA));
                assert(records[k] == rest[k]);
            }
        }
    }
}

proof fn lemma_address_keeps(
    c: CacheView,
    arrival: u32,
    now: u128,
    avoid: Seq<RecordView>,
    out: Seq<RecordView>,
    records: Seq<RecordView>,
    r: RecordView,
)
    requires
        out.contains(r),
    ensures
        address_additionals(c, arrival, now, avoid, out, records).contains(r),
    decreases records.len(),
{
    if records.len() > 0 {
        let rest = records.drop_last();
        lemma_address_keeps(c, arrival, now, avoid, out, rest, r);
        let before = address_additionals(c, arrival, now, avoid, out, rest);
        if let RDataView::SRV { target, .. } = records.last().data {
            let a = found_elsewhere(c, target, RecordType::A, arrival, now);
            let b = found_elsewhere(c, target, RecordType::AAAA, arrival, now);
            lemma_merged_has(avoid, before, a);
            assert(merged(avoid, before, a).contains(r));
            lemma_merged_has(avoid, merged(avoid, before, a), b);
        }
    }
}

/// The response brings along what the querier will ask for next: for each pointer among the
/// answers every service and text record of its target that was learned elsewhere, and for
/// each service, answered or brought along, every address record of its target.
pub proof fn additional_records_are_complete(
    c: CacheView,
    arrival: u32,
    now: u128,
    answers: Seq<RecordView>,
    a: RecordView,
    x: RecordView,
)
    requires
        learned_elsewhere(c, arrival, now, x),
        ({
            ||| answers.contains(a) && a.data is PTR && (x.answers(
                a.data->PTR_0,
                RecordType::SRV,
            ) || x.answers(a.data->PTR_0, RecordType::TXT))
            ||| (answers.contains(a) || additionals(true, c, arrival, now, answers).contains(a))
                && a.data is SRV && (x.answers(a.data->SRV_target, RecordType::A) || x.answers(
                a.data->SRV_target,
                RecordType::AAAA,
            ))
        }),
    ensures
        includes(answers, x) || includes(additionals(true, c, arrival, now, answers), x),
{
    let added = pointer_additionals(c, arrival, now, answers, answers);
    let sources = answers + added;
    let out = address_additionals(c, arrival, now, answers, added, sources);
    assert(out == additionals(true, c, arrival, now, answers));
    lemma_includes(answers, x);
    lemma_includes(out, x);
    if answers.contains(a) && a.data is PTR {
        let k = choose|k: int| 0 <= k < answers.len() && answers[k] == a;
        lemma_pointer_additionals_have(c, arrival, now, answers, answers, k, a.data->PTR_0, x);
        if held(added, x.key()) {
            lemma_address_additionals_have(c, arrival, now, answers, added, sources, x);
        }
    } else {
        if answers.contains(a) {
            let k = choose|k: int| 0 <= k < answers.len() && answers[k] == a;
            assert(sources[k] == a);
        } else {
            lemma_address_additionals_from(c, arrival, now, answers, added, sources, a);
            assert(added.contains(a));
            let k = choose|k: int| 0 <= k < added.len() && added[k] == a;
            assert(sources[answers.len() + k] == a);
        }
        lemma_address_additionals_have(c, arrival, now, answers, added, sources, x);
    }
}

/// Nothing else is brought along: every additional record was learned elsewhere, has just the
/// lifetime that remains to it, and describes the target of a pointer or locates that of a
/// service. Without answering from the cache there are none.
pub proof fn additional_records_are_justified(
    c: CacheView,
    arrival: u32,
    now: u128,
    answers: Seq<RecordView>,
    r: RecordView,
)
    ensures
        additionals(false, c, arrival, now, answers).len() == 0,
        additionals(true, c, arrival, now, answers).contains(r) ==> {
            &&& learned_elsewhere(c, arrival, now, r)
            &&& describes_a_pointer(answers, r) || locates_a_service(
                answers + additionals(true, c, arrival, now, answers),
                r,
            )
        },
{
    let added = pointer_additionals(c, arrival, now, answers, answers);
    let sources = answers + added;
    let out = address_additionals(c, arrival, now, answers, added, sources);
    assert(out == additionals(true, c, arrival, now, answers));
    if out.contains(r) {
        lemma_address_additionals_from(c, arrival, now, answers, added, sources, r);
        if added.contains(r) {
            lemma_pointer_additionals_from(c, arrival, now, answers, answers, r);
        } else {
            let k = choose|k: int|
                #![trigger sources[k]]
                0 <= k < sources.len() && sources[k].data is SRV && (r.answers(
                    sources[k].data->SRV_target,
                    RecordType::A,
                ) || r.answers(sources[k].data->SRV_target, RecordType::AAAA));
            let all = answers + out;
            if k < answers.len() {
                assert(all[k] == sources[k]);
            } else {
                let y = added[k - answers.len()];
                assert(added.contains(y));
                lemma_address_keeps(c, arrival, now, answers, added, sources, y);
                let m = choose|m: int| 0 <= m < out.len() && out[m] == y;
                assert(all[answers.len() + m] == y);
            }
        }
    }
}

/// A message is a probe for one of the records when some record of its authority section,
/// wherever it stands, has the name and type of one of them, and only then.
pub proof fn probes_are_told_by_name_and_type(
    authorities: Seq<RecordView>,
    unique: Seq<RecordView>,
)
    ensures
        probes(authorities, unique) <==> exists|a: RecordView, u: RecordView|
            #![trigger authorities.contains(a), unique.contains(u)]
            authorities.contains(a) && unique.contains(u) && same_name(a.name, u.name) && a.rtype()
                == u.rtype(),
{
    if probes(authorities, unique) {
        let (i, j) = choose|i: int, j: int|
            #![trigger authorities[i], unique[j]]
            0 <= i < authorities.len() && 0 <= j < unique.len() && unique[j].name.folded()
                == authorities[i].name.folded() && unique[j].rtype() == authorities[i].rtype();
        names_are_the_same_in_any_case(authorities[i].name, unique[j].name);
        assert(authorities.contains(authorities[i]) && unique.contains(unique[j]));
    }
    if exists|a: RecordView, u: RecordView|
        #![trigger authorities.contains(a), unique.contains(u)]
        authorities.contains(a) && unique.contains(u) && same_name(a.name, u.name) && a.rtype()
            == u.rtype() {
        let (a, u) = choose|a: RecordView, u: RecordView|
            #![trigger authorities.contains(a), unique.contains(u)]
            authorities.contains(a) && unique.contains(u) && same_name(a.name, u.name)
                && a.rtype() == u.rtype();
        names_are_the_same_in_any_case(a.name, u.name);
        let i = choose|i: int| 0 <= i < authorities.len() && authorities[i] == a;
        let j = choose|j: int| 0 <= j < unique.len() && unique[j] == u;
        assert(authorities[i].name.folded() == unique[j].name.folded());
    }
}

/// The delays of RFC 6762: none for a probe, or for a single question that is answered only
/// with records that the daemon owns; 400 to 500 ms where more known answers are to follow;
/// 20 to 120 ms for everything else.
pub proof fn delays_are_as_prescribed(
    truncation: bool,
    questions: nat,
    answers: Seq<RecordView>,
    probe: bool,
)
    ensures
        delay_range(delay_class(truncation, questions, answers, probe)) == (if probe {
            (0u64, 0u64)
        } else if truncation {
            (400, 500)
        } else if questions == 1 && answers.len() > 0 && forall|r: RecordView| #[trigger]
            answers.contains(r) ==> r.cache_flush {
            (0, 0)
        } else {
            (20, 120)
        }),
{
    if forall|r: RecordView| #[trigger] answers.contains(r) ==> r.cache_flush {
        assert forall|i: int| #![trigger answers[i]] 0 <= i < answers.len() implies
            answers[i].cache_flush by {
            assert(answers.contains(answers[i]));
        }
    }
}

/// A response is authoritative, complete and asks nothing.
pub proof fn responses_have_the_prescribed_form(
    id: u16,
    answers: Seq<RecordView>,
    more: Seq<RecordView>,
)
    ensures
        response_message(id, answers, more) == (MessageView {
            id,
            message_type: MessageType::Response,
            authoritative: true,
            truncation: false,
            queries: Seq::empty(),
            answers,
            authorities: Seq::empty(),
            additionals: more,
        }),
{
}

/// A query with questions is answered exactly when some record answers it that it does not
/// list; the response has its identifier, all such records, and what goes with them, and
/// defends a record where the query is a probe for one of the daemon's own on that interface.
pub proof fn queries_are_answered_with_all_that_they_do_not_list(
    from_cache: bool,
    c: CacheView,
    p: PublishedView,
    arrival: Iface,
    msg: MessageView,
    now: u128,
)
    ensures
        match response_plan(from_cache, c, p, arrival, msg, now) {
            Some(plan) => {
                &&& msg.message_type == MessageType::Query
                &&& plan.id == msg.id
                &&& plan.answers.len() > 0
                &&& distinct(plan.answers)
                &&& forall|r: RecordView| #[trigger]
                    plan.answers.contains(r) <==> candidates(
                        from_cache,
                        c,
                        p,
                        arrival,
                        msg.queries,
                        now,
                    ).contains(r) && !listed(msg.answers, r)
                &&& plan.additionals == additionals(
                    from_cache,
                    c,
                    arrival.ifindex,
                    now,
                    plan.answers,
                )
                &&& plan.probe_defense == probes(msg.authorities, uniques_on(p, arrival))
                &&& plan.class == delay_class(
                    msg.truncation,
                    msg.queries.len(),
                    plan.answers,
                    plan.probe_defense,
                )
            },
            None => msg.message_type != MessageType::Query || forall|r: RecordView| #[trigger]
                candidates(from_cache, c, p, arrival, msg.queries, now).contains(r) ==> listed(
                    msg.answers,
                    r,
                ),
        },
{
    let all = candidates(from_cache, c, p, arrival, msg.queries, now);
    let out = suppressed(all, msg.answers);
    answers_are_distinct_and_justified(from_cache, c, p, arrival, msg.queries, now);
    suppression_keeps_answers_distinct(all, msg.answers);
    assert forall|r: RecordView| #[trigger] out.contains(r) <==> all.contains(r) && !listed(
        msg.answers,
        r,
    ) by {
        every_listed_answer_is_suppressed(all, msg.answers, r);
    }
    if out.len() == 0 {
        assert forall|r: RecordView| #[trigger] all.contains(r) implies listed(msg.answers, r) by {
            assert(!out.contains(r));
        }
    }
}

/// The record was not multicast on the interface within the interval before `now`.
pub open spec fn quiet(
    last: Map<Slot, int>,
    ifindex: u32,
    r: RecordView,
    now: u128,
    interval: int,
) -> bool {
    let slot = Slot { ifindex, key: r.key() };
    !last.contains_key(slot) || last[slot] + interval <= now
}

proof fn lemma_limited_is_filter(
    last: Map<Slot, int>,
    ifindex: u32,
    records: Seq<RecordView>,
    now: u128,
    interval: u128,
    s: Slot,
    r: RecordView,
)
    requires
        distinct(records),
    ensures
        ({
            let (m, out) = limited(last, ifindex, records, now, interval);
            &&& out.contains(r) <==> records.contains(r) && free(
                last,
                slot_of(ifindex, r),
                now,
                interval,
            )
            &&& distinct(out)
            &&& !(exists|x: RecordView| #[trigger]
                records.contains(x) && slot_of(ifindex, x) == s) ==> (m.contains_key(s)
                == last.contains_key(s) && (m.contains_key(s) ==> m[s] == last[s]))
        }),
    decreases records.len(),
{
    if records.len() > 0 {
        let rest = records.drop_last();
        let y = records.last();
        assert forall|i: int, j: int| #![trigger rest[i], rest[j]]
            0 <= i < j < rest.len() implies rest[i].key() != rest[j].key() by {
            assert(rest[i] == records[i] && rest[j] == records[j]);
        }
        assert forall|x: RecordView| rest.contains(x) implies #[trigger] records.contains(x) && x.key()
            != y.key() by {
            let k = choose|k: int| 0 <= k < rest.len() && rest[k] == x;
            assert(records[k] == x);
            assert(records[records.len() - 1] == y);
        }
        assert forall|x: RecordView| #[trigger] records.contains(x) implies rest.contains(x)
            || x == y by {
            let k = choose|k: int| 0 <= k < records.len() && records[k] == x;
            if k < rest.len() {
                assert(rest[k] == x);
            }
        }
        assert(records.contains(y)) by {
            assert(records[records.len() - 1] == y);
        }
        lemma_limited_is_filter(last, ifindex, rest, now, interval, s, r);
        lemma_limited_is_filter(last, ifindex, rest, now, interval, slot_of(ifindex, y), r);
        let (m0, out0) = limited(last, ifindex, rest, now, interval);
        let (m, out) = limited(last, ifindex, records, now, interval);
        assert(!(exists|x: RecordView| #[trigger]
            rest.contains(x) && slot_of(ifindex, x) == slot_of(ifindex, y))) by {
            if exists|x: RecordView| #[trigger]
                rest.contains(x) && slot_of(ifindex, x) == slot_of(ifindex, y) {
                let x = choose|x: RecordView| #[trigger]
                    rest.contains(x) && slot_of(ifindex, x) == slot_of(ifindex, y);
                assert(records.contains(x));
                assert(x.key() != y.key());
            }
        }
        assert(free(m0, slot_of(ifindex, y), now, interval) == free(
            last,
            slot_of(ifindex, y),
            now,
            interval,
        ));
        if out0.contains(r) {
            let k = choose|k: int| 0 <= k < out0.len() && out0[k] == r;
            assert(out[k] == r);
        }
        if r == y && free(m0, slot_of(ifindex, y), now, interval) {
            assert(out[out0.len() as int] == r);
        }
        if out.contains(r) {
            let k = choose|k: int| 0 <= k < out.len() && out[k] == r;
            if k < out0.len() {
                assert(out0[k] == r);
                assert(out0.contains(r));
            }
        }
        lemma_limited(last, ifindex, rest, now, interval);
        assert forall|i: int, j: int| #![trigger out[i], out[j]]
            0 <= i < j < out.len() implies out[i].key() != out[j].key() by {
            assert(out[i] == out0[i]);
            if j < out0.len() {
                assert(out[j] == out0[j]);
            } else {
                assert(rest.contains(out0[i]));
                assert(records.contains(out0[i]));
            }
        }
        if !(exists|x: RecordView| #[trigger] records.contains(x) && slot_of(ifindex, x) == s) {
            assert(!(exists|x: RecordView| #[trigger]
                rest.contains(x) && slot_of(ifindex, x) == s)) by {
                if exists|x: RecordView| #[trigger]
                    rest.contains(x) && slot_of(ifindex, x) == s {
                    let x = choose|x: RecordView| #[trigger]
                        rest.contains(x) && slot_of(ifindex, x) == s;
                    assert(records.contains(x));
                }
            }
            assert(slot_of(ifindex, y) != s);
        }
    }
}

/// Of a response just those records go out that were not multicast on the interface within
/// the last second, or the last 250 ms where a probe is answered.
pub proof fn responses_hold_what_was_not_just_multicast(
    last: Map<Slot, int>,
    ifindex: u32,
    plan: PlanView,
    now: u128,
    r: RecordView,
)
    requires
        distinct(plan.answers),
        distinct(plan.additionals),
        disjoint(plan.additionals, plan.answers),
    ensures
        ({
            let interval: int = if plan.probe_defense {
                250_000_000
            } else {
                1_000_000_000
            };
            let (m, answers, more) = admitted(last, ifindex, plan, now);
            &&& answers.contains(r) <==> plan.answers.contains(r) && quiet(
                last,
                ifindex,
                r,
                now,
                interval,
            )
            &&& more.contains(r) <==> plan.additionals.contains(r) && quiet(
                last,
                ifindex,
                r,
                now,
                interval,
            )
            &&& answers.contains(r) || more.contains(r) ==> m.contains_key(
                Slot { ifindex, key: r.key() },
            ) && m[Slot { ifindex, key: r.key() }] == now
        }),
{
    let interval = least_interval(plan.probe_defense);
    let slot = slot_of(ifindex, r);
    let (m0, answers) = limited(last, ifindex, plan.answers, now, interval);
    let (m, more) = limited(m0, ifindex, plan.additionals, now, interval);
    lemma_limited_is_filter(last, ifindex, plan.answers, now, interval, slot, r);
    lemma_limited_is_filter(m0, ifindex, plan.additionals, now, interval, slot, r);
    lemma_limited(last, ifindex, plan.answers, now, interval);
    lemma_limited(m0, ifindex, plan.additionals, now, interval);
    if plan.additionals.contains(r) {
        let i = choose|i: int| 0 <= i < plan.additionals.len() && plan.additionals[i] == r;
        assert(!held(plan.answers, plan.additionals[i].key()));
        assert(!(exists|x: RecordView| #[trigger]
            plan.answers.contains(x) && slot_of(ifindex, x) == slot)) by {
            if exists|x: RecordView| #[trigger]
                plan.answers.contains(x) && slot_of(ifindex, x) == slot {
                let x = choose|x: RecordView| #[trigger]
                    plan.answers.contains(x) && slot_of(ifindex, x) == slot;
                let k = choose|k: int| 0 <= k < plan.answers.len() && plan.answers[k] == x;
                assert(plan.answers[k].key() == r.key());
            }
        }
    }
    if more.contains(r) {
        let k = choose|k: int| 0 <= k < more.len() && more[k] == r;
        assert(m[slot_of(ifindex, more[k])] == now as int);
    }
    if answers.contains(r) {
        let k = choose|k: int| 0 <= k < answers.len() && answers[k] == r;
        assert(m0[slot_of(ifindex, answers[k])] == now as int);
        lemma_stays_marked(m0, ifindex, plan.additionals, now, interval, slot);
    }
}

proof fn lemma_stays_marked(
    last: Map<Slot, int>,
    ifindex: u32,
    records: Seq<RecordView>,
    now: u128,
    interval: u128,
    slot: Slot,
)
    requires
        last.contains_key(slot),
        last[slot] == now as int,
    ensures
        limited(last, ifindex, records, now, interval).0.contains_key(slot),
        limited(last, ifindex, records, now, interval).0[slot] == now as int,
    decreases records.len(),
{
    if records.len() > 0 {
        lemma_stays_marked(last, ifindex, records.drop_last(), now, interval, slot);
    }
}

proof fn lemma_unsent(
    last: Map<Slot, int>,
    ifindex: u32,
    records: Seq<RecordView>,
    now: u128,
    interval: u128,
    s: Slot,
)
    requires
        !(exists|x: RecordView| #[trigger]
            limited(last, ifindex, records, now, interval).1.contains(x) && slot_of(ifindex, x)
                == s),
    ensures
        limited(last, ifindex, records, now, interval).0.contains_key(s) == last.contains_key(s),
        last.contains_key(s) ==> limited(last, ifindex, records, now, interval).0[s] == last[s],
    decreases records.len(),
{
    if records.len() > 0 {
        let rest = records.drop_last();
        let (m0, out0) = limited(last, ifindex, rest, now, interval);
        let (m, out) = limited(last, ifindex, records, now, interval);
        assert forall|x: RecordView| #[trigger] out0.contains(x) implies out.contains(x) by {
            let k = choose|k: int| 0 <= k < out0.len() && out0[k] == x;
            assert(out[k] == x);
        }
        lemma_unsent(last, ifindex, rest, now, interval, s);
        let slot = slot_of(ifindex, records.last());
        if free(m0, slot, now, interval) {
            assert(out[out0.len() as int] == records.last());
            assert(out.contains(records.last()));
        }
    }
}

/// What is not sent is not noted: the time of a slot changes only where a record of it goes
/// out in the response.
pub proof fn responses_note_only_what_they_send(
    last: Map<Slot, int>,
    ifindex: u32,
    plan: PlanView,
    now: u128,
    s: Slot,
)
    requires
        !(exists|x: RecordView| #[trigger]
            admitted(last, ifindex, plan, now).1.contains(x) && s == (Slot {
                ifindex,
                key: x.key(),
            })),
        !(exists|x: RecordView| #[trigger]
            admitted(last, ifindex, plan, now).2.contains(x) && s == (Slot {
                ifindex,
                key: x.key(),
            })),
    ensures
        admitted(last, ifindex, plan, now).0.contains_key(s) == last.contains_key(s),
        last.contains_key(s) ==> admitted(last, ifindex, plan, now).0[s] == last[s],
{
    let interval = least_interval(plan.probe_defense);
    let (m0, answers) = limited(last, ifindex, plan.answers, now, interval);
    let more = limited(m0, ifindex, plan.additionals, now, interval).1;
    let out = admitted(last, ifindex, plan, now);
    assert(out.1 == answers && out.2 == more);
    assert forall|x: RecordView| #[trigger] answers.contains(x) implies slot_of(ifindex, x) != s by {
        assert(out.1.contains(x));
    }
    assert forall|x: RecordView| #[trigger] more.contains(x) implies slot_of(ifindex, x) != s by {
        assert(out.2.contains(x));
    }
    lemma_unsent(last, ifindex, plan.answers, now, interval, s);
    lemma_unsent(m0, ifindex, plan.additionals, now, interval, s);
}

/// A response without answers is not written; one with answers that peers can read is, and
/// they read it with its identifier and all its records.
pub proof fn responses_are_read_as_they_were_planned(
    r: Option<Vec<u8>>,
    id: u16,
    answers: Seq<RecordView>,
    more: Seq<RecordView>,
)
    requires
        response_written(r, id, answers, more),
    ensures
        answers.len() == 0 ==> r is None,
        answers.len() > 0 && legible(response_message(id, answers, more)) ==> r is Some && decoded(
            r->0@,
        ) == Some(
            MessageView {
                id,
                message_type: MessageType::Response,
                authoritative: true,
                truncation: false,
                queries: Seq::empty(),
                answers,
                authorities: Seq::empty(),
                additionals: more,
            },
        ),
        answers.len() > 0 ==> (r is Some <==> encoded(sent(response_message(id, answers, more)))
            is Some),
        r is Some ==> encoded(sent(response_message(id, answers, more))) == Some(r->0@),
{
}

/// The answers to further questions follow those to the first ones.
pub proof fn answers_keep_the_order_of_the_questions(
    from_cache: bool,
    c: CacheView,
    p: PublishedView,
    arrival: Iface,
    first: Seq<QuestionView>,
    then: Seq<QuestionView>,
    now: u128,
)
    ensures
        candidates(from_cache, c, p, arrival, first, now).is_prefix_of(
            candidates(from_cache, c, p, arrival, first + then, now),
        ),
    decreases then.len(),
{
    if then.len() == 0 {
        assert(first + then =~= first);
    } else {
        let all = first + then;
        let rest = then.drop_last();
        answers_keep_the_order_of_the_questions(from_cache, c, p, arrival, first, rest, now);
        assert(all.drop_last() =~= first + rest);
        let none = Seq::<RecordView>::empty();
        let before = candidates(from_cache, c, p, arrival, first + rest, now);
        let q = all.last();
        let local = local_answers(p, arrival, q);
        lemma_merged_has(none, before, local);
        lemma_merged_has(
            none,
            merged(none, before, local),
            cache_answers(from_cache, c, arrival, q.name, q.qtype, now),
        );
    }
}

/// Suppression leaves the order of the answers as it is.
pub proof fn suppression_keeps_the_order(
    first: Seq<RecordView>,
    then: Seq<RecordView>,
    known_answers: Seq<RecordView>,
)
    ensures
        suppressed(first + then, known_answers) == suppressed(first, known_answers) + suppressed(
            then,
            known_answers,
        ),
{
    Seq::filter_distributes_over_add(first, then, |r: RecordView| !known(known_answers, r));
}

} // verus!
