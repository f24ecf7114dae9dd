//! mDNS responder: which records answer a query, and when (RFC 6762 sections 6, 6.3,
//! 7.1 and 8.2).

use vstd::prelude::*;

use std::time::Instant;

use crate::cache::{found_elsewhere, Cache, CacheView};
use crate::clock::MAX_TIME;
use crate::dns::{
    clone_records, KeyView, Message, MessageType, MessageView, Name, NameView, Question,
    QuestionView, RData, RDataView, Record, RecordType, RecordView,
};
use crate::iface::Iface;
use crate::seqs::{lemma_views_add, lemma_views_push, retain, views};
use crate::services::{host_records_on, published_answers, uniques_on, Published, PublishedView};
use crate::state::State;
use crate::timing::{
    free, slot_of, taken, DelayClass, MulticastTracker, Slot, MIN_MULTICAST_INTERVAL,
    PROBE_DEFENSE_INTERVAL,
};
use crate::wire::{decoded, encoded, legible, sent};

verus! {

broadcast use vstd::seq_lib::group_filter_ensures;

/// A probe for one of `unique`: the authority section proposes a record with the
/// name and type of one of them.
pub open spec fn probes(authorities: Seq<RecordView>, unique: Seq<RecordView>) -> bool {
    exists|i: int, j: int| #![trigger authorities[i], unique[j]]
        0 <= i < authorities.len() && 0 <= j < unique.len() && unique[j].name.folded()
            == authorities[i].name.folded() && unique[j].rtype() == authorities[i].rtype()
}

/// Tells whether `msg` is a probe query for one of `unique` (RFC 6762 section
/// 8.2).
///
/// Only name and type are compared: probing is there to discover other data for a
/// name that the daemon also claims. The unicast-response bits of the questions
/// are not consulted, as some senders set them wrongly.
pub fn is_probe_for_us(msg: &Message, unique: &Vec<Record>) -> (r: bool)
    ensures
        r == probes(msg@.authorities, views(unique@)),
{
    let mut i: usize = 0;
    while i < msg.authorities.len()
        invariant
            i <= msg.authorities.len(),
            forall|k: int, j: int| #![trigger msg@.authorities[k], views(unique@)[j]]
                0 <= k < i && 0 <= j < unique.len() ==> !(views(unique@)[j].name.folded()
                    == msg@.authorities[k].name.folded() && views(unique@)[j].rtype()
                    == msg@.authorities[k].rtype()),
        decreases msg.authorities.len() - i,
    {
        let a = &msg.authorities[i];
        assert(msg@.authorities[i as int] == a@);
        let mut j: usize = 0;
        while j < unique.len()
            invariant
                i < msg.authorities.len(),
                a@ == msg@.authorities[i as int],
                j <= unique.len(),
                forall|l: int| #![trigger views(unique@)[l]]
                    0 <= l < j ==> !(views(unique@)[l].name.folded() == a@.name.folded()
                        && views(unique@)[l].rtype() == a@.rtype()),
            decreases unique.len() - j,
        {
            let u = &unique[j];
            assert(views(unique@)[j as int] == u@);
            if u.name == a.name && u.record_type() == a.record_type() {
                return true;
            }
            j += 1;
        }
        i += 1;
    }
    false
}

/// The querier knows `ans`: it lists the record with at least half its lifetime.
pub open spec fn known(answers: Seq<RecordView>, ans: RecordView) -> bool {
    exists|i: int| #![trigger answers[i]]
        0 <= i < answers.len() && answers[i].name.folded() == ans.name.folded()
            && answers[i].rtype() == ans.rtype() && answers[i].data.folded() == ans.data.folded()
            && 2 * answers[i].ttl >= ans.ttl
}

/// The answers that the querier does not know yet.
pub open spec fn suppressed(answers: Seq<RecordView>, known_answers: Seq<RecordView>) -> Seq<
    RecordView,
> {
    answers.filter(|a: RecordView| !known(known_answers, a))
}

fn is_known(known_answers: &Vec<Record>, ans: &Record) -> (r: bool)
    ensures
        r == known(views(known_answers@), ans@),
{
    let mut i: usize = 0;
    while i < known_answers.len()
        invariant
            i <= known_answers.len(),
            forall|k: int| #![trigger views(known_answers@)[k]]
                0 <= k < i ==> !(views(known_answers@)[k].name.folded() == ans@.name.folded()
                    && views(known_answers@)[k].rtype() == ans@.rtype()
                    && views(known_answers@)[k].data.folded() == ans@.data.folded() && 2
                    * views(known_answers@)[k].ttl >= ans@.ttl),
        decreases known_answers.len() - i,
    {
        let k = &known_answers[i];
        assert(views(known_answers@)[i as int] == k@);
        if k.name == ans.name && k.record_type() == ans.record_type() && k.data == ans.data
            && k.ttl as u64 * 2 >= ans.ttl as u64 {
            return true;
        }
        i += 1;
    }
    false
}

/// Known-answer suppression (RFC 6762 section 7.1): drops the answers that the
/// query lists with at least half of their lifetime left.
pub fn apply_known_answers(answers: &mut Vec<Record>, query_msg: &Message)
    ensures
        views(final(answers)@) == suppressed(views(old(answers)@), query_msg@.answers),
{
    let keep = |a: &Record| -> (b: bool)
        ensures
            b == !known(query_msg@.answers, a@),
        { !is_known(&query_msg.answers, a) };
    retain(answers, keep, Ghost(|a: RecordView| !known(query_msg@.answers, a)));
}

/// Some record of the list has this identity.
pub open spec fn held(records: Seq<RecordView>, key: KeyView) -> bool {
    exists|i: int| #![trigger records[i]] 0 <= i < records.len() && records[i].key() == key
}

/// `out` with `r` at its end, unless it or `avoid` has the record already.
pub open spec fn with_new(avoid: Seq<RecordView>, out: Seq<RecordView>, r: RecordView) -> Seq<
    RecordView,
> {
    if held(avoid, r.key()) || held(out, r.key()) {
        out
    } else {
        out.push(r)
    }
}

/// `out` with all of `more` added in order, without the records that it or `avoid`
/// has already.
pub open spec fn merged(
    avoid: Seq<RecordView>,
    out: Seq<RecordView>,
    more: Seq<RecordView>,
) -> Seq<RecordView>
    decreases more.len(),
{
    if more.len() == 0 {
        out
    } else {
        with_new(avoid, merged(avoid, out, more.drop_last()), more.last())
    }
}

fn holds(records: &Vec<Record>, r: &Record) -> (b: bool)
    ensures
        b == held(views(records@), r@.key()),
{
    let mut i: usize = 0;
    while i < records.len()
        invariant
            i <= records.len(),
            forall|k: int| #![trigger views(records@)[k]]
                0 <= k < i ==> views(records@)[k].key() != r@.key(),
        decreases records.len() - i,
    {
        assert(views(records@)[i as int] == records@[i as int]@);
        if records[i] == *r {
            return true;
        }
        i += 1;
    }
    false
}

fn push_unique(avoid: &Vec<Record>, out: &mut Vec<Record>, record: Record)
    ensures
        views(final(out)@) == with_new(views(avoid@), views(old(out)@), record@),
{
    if !holds(avoid, &record) && !holds(out, &record) {
        proof {
            lemma_views_push(out@, record);
        }
        out.push(record);
    }
}

fn merge(avoid: &Vec<Record>, out: &mut Vec<Record>, more: Vec<Record>)
    ensures
        views(final(out)@) == merged(views(avoid@), views(old(out)@), views(more@)),
{
    let ghost start = views(out@);
    let ghost all = views(more@);
    let mut i: usize = 0;
    assert(all.take(0) =~= Seq::<RecordView>::empty());
    while i < more.len()
        invariant
            i <= more.len(),
            all == views(more@),
            views(out@) == merged(views(avoid@), start, all.take(i as int)),
        decreases more.len() - i,
    {
        push_unique(avoid, out, more[i].clone());
        i += 1;
        assert(all.take(i as int).drop_last() =~= all.take(i - 1));
    }
    assert(all.take(i as int) =~= all);
}

/// The published answers to a question that belong on the interface: of the
/// address records, only its own.
pub open spec fn local_answers(p: PublishedView, arrival: Iface, q: QuestionView) -> Seq<
    RecordView,
> {
    published_answers(p, q.name, q.qtype).filter(
        |r: RecordView|
            (r.rtype() == RecordType::A || r.rtype() == RecordType::AAAA) ==> held(
                host_records_on(p, arrival),
                r.key(),
            ),
    )
}

/// What the cache adds to the answers to a question.
pub open spec fn cache_answers(
    from_cache: bool,
    c: CacheView,
    arrival: Iface,
    name: NameView,
    rtype: RecordType,
    now: u128,
) -> Seq<RecordView> {
    if from_cache {
        found_elsewhere(c, name, rtype, arrival.ifindex, now)
    } else {
        Seq::empty()
    }
}

/// The answers to the questions, in order and each record once: what is published,
/// and what the cache has learned on other interfaces where that is enabled.
pub open spec fn candidates(
    from_cache: bool,
    c: CacheView,
    p: PublishedView,
    arrival: Iface,
    queries: Seq<QuestionView>,
    now: u128,
) -> Seq<RecordView>
    decreases queries.len(),
{
    if queries.len() == 0 {
        Seq::empty()
    } else {
        let q = queries.last();
        let before = candidates(from_cache, c, p, arrival, queries.drop_last(), now);
        merged(
            Seq::empty(),
            merged(Seq::empty(), before, local_answers(p, arrival, q)),
            cache_answers(from_cache, c, arrival, q.name, q.qtype, now),
        )
    }
}

fn select_local(p: &Published, arrival: &Iface, q: &Question) -> (r: Vec<Record>)
    ensures
        views(r@) == local_answers(p@, *arrival, q@),
{
    let own = p.host_records_for_iface(arrival);
    let mut out = p.answer(&q.name, q.qtype);
    let ghost belongs = |r: RecordView|
        (r.rtype() == RecordType::A || r.rtype() == RecordType::AAAA) ==> held(
            host_records_on(p@, *arrival),
            r.key(),
        );
    let keep = |r: &Record| -> (b: bool)
        ensures
            b == ((r@.rtype() == RecordType::A || r@.rtype() == RecordType::AAAA) ==> held(
                views(own@),
                r@.key(),
            )),
        {
            let t = r.record_type();
            !(t == RecordType::A || t == RecordType::AAAA) || holds(&own, r)
        };
    retain(&mut out, keep, Ghost(belongs));
    out
}

/// Gathers the answers to the questions of `msg` at time `now`, for the interface
/// on which it arrived.
pub fn candidate_answers_at(
    state: &State,
    msg: &Message,
    arrival: &Iface,
    pub_records: &Published,
    now: u128,
) -> (r: Vec<Record>)
    ensures
        views(r@) == candidates(
            state.config.answer_from_cache,
            state.cache@,
            pub_records@,
            *arrival,
            msg@.queries,
            now,
        ),
{
    let nothing: Vec<Record> = Vec::new();
    assert(views(nothing@) =~= Seq::<RecordView>::empty());
    let from_cache = state.config.answer_from_cache;
    let mut answers: Vec<Record> = Vec::new();
    assert(views(answers@) =~= Seq::<RecordView>::empty());
    let mut i: usize = 0;
    assert(msg@.queries.take(0) =~= Seq::<QuestionView>::empty());
    while i < msg.queries.len()
        invariant
            i <= msg.queries.len(),
            views(nothing@) == Seq::<RecordView>::empty(),
            from_cache == state.config.answer_from_cache,
            views(answers@) == candidates(
                from_cache,
                state.cache@,
                pub_records@,
                *arrival,
                msg@.queries.take(i as int),
                now,
            ),
        decreases msg.queries.len() - i,
    {
        let q = &msg.queries[i];
        assert(msg@.queries.take(i + 1).drop_last() =~= msg@.queries.take(i as int));
        assert(msg@.queries.take(i + 1).last() == q@);
        merge(&nothing, &mut answers, select_local(pub_records, arrival, q));
        if from_cache {
            let more = state.cache.lookup_from_other_ifaces_at(
                &q.name,
                q.qtype,
                arrival.ifindex,
                now,
            );
            merge(&nothing, &mut answers, more);
        }
        i += 1;
    }
    assert(msg@.queries.take(i as int) =~= msg@.queries);
    answers
}

/// Gathers the answers to the questions of `msg`; see [`candidate_answers_at`].
pub fn candidate_answers(
    state: &State,
    msg: &Message,
    arrival: &Iface,
    pub_records: &Published,
) -> (r: Vec<Record>)
    ensures
        exists|instant: Instant|
            state.cache.time_at(instant) <= MAX_TIME && views(r@) == candidates(
                state.config.answer_from_cache,
                state.cache@,
                pub_records@,
                *arrival,
                msg@.queries,
                #[trigger] state.cache.time_at(instant),
            ),
{
    let now: u128 = state.cache.now();
    candidate_answers_at(state, msg, arrival, pub_records, now)
}

/// The additional records for the pointers among `answers`: the service and text
/// records of their targets.
pub open spec fn pointer_additionals(
    c: CacheView,
    arrival: u32,
    now: u128,
    avoid: Seq<RecordView>,
    answers: Seq<RecordView>,
) -> Seq<RecordView>
    decreases answers.len(),
{
    if answers.len() == 0 {
        Seq::empty()
    } else {
        let before = pointer_additionals(c, arrival, now, avoid, answers.drop_last());
        match answers.last().data {
            RDataView::PTR(target) => merged(
                avoid,
                merged(
                    avoid,
                    before,
                    found_elsewhere(c, target, RecordType::SRV, arrival, now),
                ),
                found_elsewhere(c, target, RecordType::TXT, arrival, now),
            ),
            _ => before,
        }
    }
}

/// `out` with the additional records for the services among `records`: the
/// addresses of their targets.
pub open spec fn address_additionals(
    c: CacheView,
    arrival: u32,
    now: u128,
    avoid: Seq<RecordView>,
    out: Seq<RecordView>,
    records: Seq<RecordView>,
) -> Seq<RecordView>
    decreases records.len(),
{
    if records.len() == 0 {
        out
    } else {
        let before = address_additionals(c, arrival, now, avoid, out, records.drop_last());
        match records.last().data {
            RDataView::SRV { target, .. } => merged(
                avoid,
                merged(avoid, before, found_elsewhere(c, target, RecordType::A, arrival, now)),
                found_elsewhere(c, target, RecordType::AAAA, arrival, now),
            ),
            _ => before,
        }
    }
}

/// The additional records for `answers`: for pointers the service and text records
/// of their targets, and for services, answered or added, the addresses of theirs.
pub open spec fn additionals(
    from_cache: bool,
    c: CacheView,
    arrival: u32,
    now: u128,
    answers: Seq<RecordView>,
) -> Seq<RecordView> {
    if from_cache {
        let added = pointer_additionals(c, arrival, now, answers, answers);
        address_additionals(c, arrival, now, answers, added, answers + added)
    } else {
        Seq::empty()
    }
}

fn add_cached_records(
    cache: &Cache,
    name: &Name,
    rtype: RecordType,
    arrival_ifindex: u32,
    now: u128,
    avoid: &Vec<Record>,
    out: &mut Vec<Record>,
)
    ensures
        views(final(out)@) == merged(
            views(avoid@),
            views(old(out)@),
            found_elsewhere(cache@, name@, rtype, arrival_ifindex, now),
        ),
{
    let more = cache.lookup_from_other_ifaces_at(name, rtype, arrival_ifindex, now);
    merge(avoid, out, more);
}

fn add_addresses(
    cache: &Cache,
    records: &Vec<Record>,
    arrival_ifindex: u32,
    now: u128,
    avoid: &Vec<Record>,
    out: &mut Vec<Record>,
)
    ensures
        views(final(out)@) == address_additionals(
            cache@,
            arrival_ifindex,
            now,
            views(avoid@),
            views(old(out)@),
            views(records@),
        ),
{
    let ghost start = views(out@);
    let ghost all = views(records@);
    let mut i: usize = 0;
    assert(all.take(0) =~= Seq::<RecordView>::empty());
    while i < records.len()
        invariant
            i <= records.len(),
            all == views(records@),
            views(out@) == address_additionals(
                cache@,
                arrival_ifindex,
                now,
                views(avoid@),
                start,
                all.take(i as int),
            ),
        decreases records.len() - i,
    {
        assert(all.take(i + 1).drop_last() =~= all.take(i as int));
        assert(all.take(i + 1).last() == records@[i as int]@);
        if let RData::SRV { target, .. } = &records[i].data {
            add_cached_records(cache, target, RecordType::A, arrival_ifindex, now, avoid, out);
            add_cached_records(cache, target, RecordType::AAAA, arrival_ifindex, now, avoid, out);
        }
        i += 1;
    }
    assert(all.take(i as int) =~= all);
}

/// Gathers the additional records for `answers` at time `now` from what the cache
/// has learned on other interfaces.
pub fn cached_additionals_at(state: &State, answers: &Vec<Record>, arrival: &Iface, now: u128) -> (r:
    Vec<Record>)
    ensures
        views(r@) == additionals(
            state.config.answer_from_cache,
            state.cache@,
            arrival.ifindex,
            now,
            views(answers@),
        ),
{
    let mut out: Vec<Record> = Vec::new();
    assert(views(out@) =~= Seq::<RecordView>::empty());
    if !state.config.answer_from_cache {
        return out;
    }
    let ghost all = views(answers@);
    let ifindex: u32 = arrival.ifindex;
    let mut i: usize = 0;
    assert(all.take(0) =~= Seq::<RecordView>::empty());
    while i < answers.len()
        invariant
            i <= answers.len(),
            all == views(answers@),
            views(out@) == pointer_additionals(
                state.cache@,
                ifindex,
                now,
                all,
                all.take(i as int),
            ),
        decreases answers.len() - i,
    {
        assert(all.take(i + 1).drop_last() =~= all.take(i as int));
        assert(all.take(i + 1).last() == answers@[i as int]@);
        if let RData::PTR(target) = &answers[i].data {
            add_cached_records(
                &state.cache,
                target,
                RecordType::SRV,
                ifindex,
                now,
                answers,
                &mut out,
            );
            add_cached_records(
                &state.cache,
                target,
                RecordType::TXT,
                ifindex,
                now,
                answers,
                &mut out,
            );
        }
        i += 1;
    }
    assert(all.take(i as int) =~= all);
    let mut sources = clone_records(answers);
    let mut added = clone_records(&out);
    proof {
        lemma_views_add(sources@, added@);
    }
    sources.append(&mut added);
    add_addresses(&state.cache, &sources, ifindex, now, answers, &mut out);
    out
}

/// Gathers the additional records for `answers`; see [`cached_additionals_at`].
pub fn cached_additionals(state: &State, answers: &Vec<Record>, arrival: &Iface) -> (r: Vec<Record>)
    ensures
        exists|instant: Instant|
            state.cache.time_at(instant) <= MAX_TIME && views(r@) == additionals(
                state.config.answer_from_cache,
                state.cache@,
                arrival.ifindex,
                #[trigger] state.cache.time_at(instant),
                views(answers@),
            ),
{
    let now: u128 = state.cache.now();
    cached_additionals_at(state, answers, arrival, now)
}

/// Every record is one that its sender owns alone, and there is one.
pub open spec fn owned(answers: Seq<RecordView>) -> bool {
    &&& answers.len() > 0
    &&& forall|i: int| #![trigger answers[i]] 0 <= i < answers.len() ==> answers[i].cache_flush
}

/// The delay class of a response.
pub open spec fn delay_class(
    truncation: bool,
    questions: nat,
    answers: Seq<RecordView>,
    probe_defense: bool,
) -> DelayClass {
    if probe_defense {
        DelayClass::ProbeDefense
    } else if truncation {
        DelayClass::Truncated
    } else if questions == 1 && owned(answers) {
        DelayClass::UniqueAnswer
    } else {
        DelayClass::Shared
    }
}

/// Tells whether all of `answers` are unique, and whether any of them is.
pub fn answer_uniqueness(answers: &Vec<Record>) -> (r: (bool, bool))
    ensures
        r.0 == forall|i: int| #![trigger answers@[i]]
            0 <= i < answers.len() ==> answers@[i].mdns_cache_flush,
        r.1 == exists|i: int| #![trigger answers@[i]]
            0 <= i < answers.len() && answers@[i].mdns_cache_flush,
{
    let mut all = true;
    let mut any = false;
    let mut i: usize = 0;
    while i < answers.len()
        invariant
            i <= answers.len(),
            all == forall|k: int| #![trigger answers@[k]]
                0 <= k < i ==> answers@[k].mdns_cache_flush,
            any == exists|k: int| #![trigger answers@[k]]
                0 <= k < i && answers@[k].mdns_cache_flush,
        decreases answers.len() - i,
    {
        if answers[i].mdns_cache_flush {
            any = true;
        } else {
            all = false;
        }
        i += 1;
    }
    (all, any)
}

/// Chooses the delay class of a response (RFC 6762 section 6). Only a query with one
/// question that is answered entirely with records of the daemon's own is answered
/// without delay; records that are relayed from the cache have their cache-flush
/// bit clear, and so are delayed.
pub fn classify_delay(msg: &Message, answers: &Vec<Record>, probe_defense: bool) -> (r: DelayClass)
    ensures
        r == delay_class(
            msg@.truncation,
            msg@.queries.len(),
            views(answers@),
            probe_defense,
        ),
{
    let (all_unique, any_unique) = answer_uniqueness(answers);
    proof {
        let v = views(answers@);
        assert forall|i: int| 0 <= i < answers.len() implies #[trigger] v[i].cache_flush
            == answers@[i].mdns_cache_flush by {}
        if all_unique && any_unique {
            assert forall|i: int| #![trigger v[i]] 0 <= i < v.len() implies v[i].cache_flush by {
                assert(answers@[i].mdns_cache_flush);
            }
        }
        if owned(v) {
            assert forall|i: int| #![trigger answers@[i]]
                0 <= i < answers.len() implies answers@[i].mdns_cache_flush by {
                assert(v[i].cache_flush);
            }
            assert(answers@[0].mdns_cache_flush);
        }
    }
    if probe_defense {
        DelayClass::ProbeDefense
    } else if msg.truncation {
        DelayClass::Truncated
    } else if msg.queries.len() == 1 && all_unique && any_unique {
        DelayClass::UniqueAnswer
    } else {
        DelayClass::Shared
    }
}

/// What a [`ResponsePlan`] denotes.
#[verifier::ext_equal]
pub struct PlanView {
    pub id: u16,
    pub answers: Seq<RecordView>,
    pub additionals: Seq<RecordView>,
    pub probe_defense: bool,
    pub class: DelayClass,
}

/// A response that waits for its delay.
#[derive(Debug)]
pub struct ResponsePlan {
    pub id: u16,
    pub answers: Vec<Record>,
    pub additionals: Vec<Record>,
    pub probe_defense: bool,
    pub class: DelayClass,
}

impl View for ResponsePlan {
    type V = PlanView;

    open spec fn view(&self) -> PlanView {
        PlanView {
            id: self.id,
            answers: views(self.answers@),
            additionals: views(self.additionals@),
            probe_defense: self.probe_defense,
            class: self.class,
        }
    }
}

/// The response to `msg`, if there is anything to answer.
pub open spec fn response_plan(
    from_cache: bool,
    c: CacheView,
    p: PublishedView,
    arrival: Iface,
    msg: MessageView,
    now: u128,
) -> Option<PlanView> {
    let answers = suppressed(
        candidates(from_cache, c, p, arrival, msg.queries, now),
        msg.answers,
    );
    if msg.message_type != MessageType::Query || msg.queries.len() == 0 || answers.len() == 0 {
        None
    } else {
        let probe_defense = probes(msg.authorities, uniques_on(p, arrival));
        Some(
            PlanView {
                id: msg.id,
                answers,
                additionals: additionals(from_cache, c, arrival.ifindex, now, answers),
                probe_defense,
                class: delay_class(msg.truncation, msg.queries.len(), answers, probe_defense),
            },
        )
    }
}

/// Plans the response to a query at time `now`: what is answered, with which
/// additional records, and how long it is delayed. There is none for a message that
/// is no query, that asks nothing, or whose answers the querier knows.
pub fn plan_response_at(
    state: &State,
    msg: &Message,
    arrival: &Iface,
    pub_records: &Published,
    now: u128,
) -> (r: Option<ResponsePlan>)
    ensures
        match r {
            Some(plan) => response_plan(
                state.config.answer_from_cache,
                state.cache@,
                pub_records@,
                *arrival,
                msg@,
                now,
            ) == Some(plan@),
            None => response_plan(
                state.config.answer_from_cache,
                state.cache@,
                pub_records@,
                *arrival,
                msg@,
                now,
            ) is None,
        },
{
    if msg.message_type != MessageType::Query {
        return None;
    }
    if msg.queries.len() == 0 {
        return None;
    }
    let mut answers = candidate_answers_at(state, msg, arrival, pub_records, now);
    apply_known_answers(&mut answers, msg);
    assert(views(answers@).len() == answers.len());
    if answers.len() == 0 {
        return None;
    }
    let additionals = cached_additionals_at(state, &answers, arrival, now);
    let unique = pub_records.unique_for_iface(arrival);
    let probe_defense = is_probe_for_us(msg, &unique);
    let class = classify_delay(msg, &answers, probe_defense);
    Some(ResponsePlan { id: msg.id, answers, additionals, probe_defense, class })
}

/// Plans the response to a query; see [`plan_response_at`].
pub fn plan_response(
    state: &State,
    msg: &Message,
    arrival: &Iface,
    pub_records: &Published,
) -> (r: Option<ResponsePlan>)
    ensures
        exists|instant: Instant|
            #![trigger state.cache.time_at(instant)]
            {
                let now = state.cache.time_at(instant);
                let plan = response_plan(
                    state.config.answer_from_cache,
                    state.cache@,
                    pub_records@,
                    *arrival,
                    msg@,
                    now,
                );
                &&& now <= MAX_TIME
                &&& match r {
                    Some(p) => plan == Some(p@),
                    None => plan is None,
                }
            },
{
    let now: u128 = state.cache.now();
    plan_response_at(state, msg, arrival, pub_records, now)
}

/// The time that must have passed since a record was last multicast.
pub open spec fn least_interval(probe_defense: bool) -> u128 {
    if probe_defense {
        PROBE_DEFENSE_INTERVAL
    } else {
        MIN_MULTICAST_INTERVAL
    }
}

/// The multicasts after `records` were tried in order, and the records that the
/// rate limit lets through.
pub open spec fn limited(
    last: Map<Slot, int>,
    ifindex: u32,
    records: Seq<RecordView>,
    now: u128,
    interval: u128,
) -> (Map<Slot, int>, Seq<RecordView>)
    decreases records.len(),
{
    if records.len() == 0 {
        (last, Seq::empty())
    } else {
        let (m, out) = limited(last, ifindex, records.drop_last(), now, interval);
        let r = records.last();
        (
            taken(m, slot_of(ifindex, r), now, interval),
            if free(m, slot_of(ifindex, r), now, interval) {
                out.push(r)
            } else {
                out
            },
        )
    }
}

fn limit_rate(
    tracker: &mut MulticastTracker,
    ifindex: u32,
    records: &Vec<Record>,
    now: u128,
    interval: u128,
) -> (r: Vec<Record>)
    ensures
        (final(tracker)@, views(r@)) == limited(
            old(tracker)@,
            ifindex,
            views(records@),
            now,
            interval,
        ),
        final(tracker).clock() == old(tracker).clock(),
{
    let ghost start = tracker@;
    let ghost clock = tracker.clock();
    let ghost all = views(records@);
    let mut out: Vec<Record> = Vec::new();
    assert(views(out@) =~= Seq::<RecordView>::empty());
    let mut i: usize = 0;
    assert(all.take(0) =~= Seq::<RecordView>::empty());
    while i < records.len()
        invariant
            i <= records.len(),
            all == views(records@),
            tracker@ == limited(start, ifindex, all.take(i as int), now, interval).0,
            views(out@) == limited(start, ifindex, all.take(i as int), now, interval).1,
            tracker.clock() == clock,
        decreases records.len() - i,
    {
        assert(all.take(i + 1).drop_last() =~= all.take(i as int));
        assert(all.take(i + 1).last() == records@[i as int]@);
        if tracker.check_and_mark_at(ifindex, &records[i], interval, now) {
            let copy = records[i].clone();
            proof {
                lemma_views_push(out@, copy);
            }
            out.push(copy);
        }
        i += 1;
    }
    assert(all.take(i as int) =~= all);
    out
}

/// An authoritative response.
pub open spec fn response_message(
    id: u16,
    answers: Seq<RecordView>,
    additionals: Seq<RecordView>,
) -> MessageView {
    MessageView {
        id,
        message_type: MessageType::Response,
        authoritative: true,
        truncation: false,
        queries: Seq::empty(),
        answers,
        authorities: Seq::empty(),
        additionals,
    }
}

/// The octets of a response; nothing when there are no answers or they cannot be
/// written.
pub open spec fn response_octets(
    id: u16,
    answers: Seq<RecordView>,
    additionals: Seq<RecordView>,
) -> Option<Seq<u8>> {
    if answers.len() == 0 {
        None
    } else {
        encoded(sent(response_message(id, answers, additionals)))
    }
}

/// `r` is what comes of writing a response: its octets, from which whoever reads a
/// legible one has just these answers and additional records. A legible response with
/// answers is always written.
pub open spec fn response_written(
    r: Option<Vec<u8>>,
    id: u16,
    answers: Seq<RecordView>,
    additionals: Seq<RecordView>,
) -> bool {
    let msg = response_message(id, answers, additionals);
    match r {
        Some(b) => {
            &&& response_octets(id, answers, additionals) == Some(b@)
            &&& legible(msg) ==> decoded(b@) == Some(msg)
        },
        None => {
            &&& response_octets(id, answers, additionals) is None
            &&& answers.len() > 0 ==> !legible(msg)
        },
    }
}

/// Writes a response. There is none without answers.
pub fn build_response(query_id: u16, answers: Vec<Record>, additionals: Vec<Record>) -> (r: Option<
    Vec<u8>,
>)
    ensures
        response_written(r, query_id, views(answers@), views(additionals@)),
{
    assert(views(answers@).len() == answers.len());
    if answers.len() == 0 {
        return None;
    }
    let mut msg = Message::new(query_id, MessageType::Response);
    msg.authoritative = true;
    msg.answers = answers;
    msg.additionals = additionals;
    assert(msg@ =~= response_message(query_id, views(answers@), views(additionals@)));
    match msg.to_vec() {
        Ok(b) => Some(b),
        Err(_) => None,
    }
}

/// The records of a plan that the rate limit lets through at time `now`: the
/// multicasts afterwards, the answers and the additional records.
pub open spec fn admitted(last: Map<Slot, int>, ifindex: u32, plan: PlanView, now: u128) -> (
    Map<Slot, int>,
    Seq<RecordView>,
    Seq<RecordView>,
) {
    let interval = least_interval(plan.probe_defense);
    let (m, answers) = limited(last, ifindex, plan.answers, now, interval);
    let (m, additionals) = limited(m, ifindex, plan.additionals, now, interval);
    (m, answers, additionals)
}

/// Completes a response at time `now`, when its delay is over: drops the records
/// that were multicast on the interface a moment ago, notes the others as multicast,
/// and writes the message.
pub fn finish_response_at(
    tracker: &mut MulticastTracker,
    ifindex: u32,
    plan: &ResponsePlan,
    now: u128,
) -> (r: Option<Vec<u8>>)
    ensures
        ({
            let (m, answers, more) = admitted(old(tracker)@, ifindex, plan@, now);
            &&& final(tracker)@ == m
            &&& response_written(r, plan@.id, answers, more)
        }),
        final(tracker).clock() == old(tracker).clock(),
{
    let interval: u128 = if plan.probe_defense {
        PROBE_DEFENSE_INTERVAL
    } else {
        MIN_MULTICAST_INTERVAL
    };
    let answers = limit_rate(tracker, ifindex, &plan.answers, now, interval);
    let more = limit_rate(tracker, ifindex, &plan.additionals, now, interval);
    build_response(plan.id, answers, more)
}

/// Completes a response; see [`finish_response_at`].
pub fn finish_response(tracker: &mut MulticastTracker, ifindex: u32, plan: &ResponsePlan) -> (r:
    Option<Vec<u8>>)
    ensures
        exists|instant: Instant|
            #![trigger old(tracker).time_at(instant)]
            {
                let now = old(tracker).time_at(instant);
                let (m, answers, more) = admitted(old(tracker)@, ifindex, plan@, now);
                &&& now <= MAX_TIME
                &&& final(tracker)@ == m
                &&& response_written(r, plan@.id, answers, more)
            },
        final(tracker).clock() == old(tracker).clock(),
{
    let now: u128 = tracker.now();
    finish_response_at(tracker, ifindex, plan, now)
}

} // verus!
