//! What the operations do, told from what they are given and what they give back.

use vstd::prelude::*;

use std::time::Instant;

use crate::cache::{
    all_live, evicted, found, found_elsewhere, has_key, inserted, Cache, EntryView,
    InsertOutcome,
};
use crate::clock::MAX_TIME;
use crate::config::ServiceConfig;
use crate::dns::{
    Message, MessageType, MessageView, Name, NameView, Record, RecordType, RecordView,
};
use crate::iface::Iface;
use crate::laws::cache::{
    flush_removes_other_data, goodbye_removes_exactly_its_record,
    lookups_give_the_live_records_with_what_remains, only_the_record_is_added, other_records_stay,
    outcomes_tell_what_happened, received_record_is_stored,
    relayed_records_never_outlive_their_entries, same_set, seconds_left,
    snapshots_hold_the_live_records, stored_ttl, sweeps_remove_just_what_has_expired,
};
use crate::laws::dns::same_name;
use crate::laws::engine::entry_for;
use crate::laws::responder::{
    additional_records_are_complete, additional_records_are_justified,
    answers_are_distinct_and_justified, delays_are_as_prescribed, describes_a_pointer, disjoint,
    distinct, every_answer_belongs, every_listed_answer_is_suppressed, every_question_is_answered,
    includes, learned_elsewhere, listed, locates_a_service, own_records_win_over_cached_copies,
    probes_are_told_by_name_and_type,
    published_on, queries_are_answered_with_all_that_they_do_not_list, quiet,
    responses_are_read_as_they_were_planned, responses_hold_what_was_not_just_multicast,
    responses_note_only_what_they_send,
};
use crate::responder::{
    additionals, admitted, apply_known_answers, build_response, cached_additionals,
    cached_additionals_at, candidate_answers, candidate_answers_at, candidates, classify_delay,
    delay_class, finish_response, finish_response_at, is_probe_for_us, plan_response,
    plan_response_at, probes, response_message, response_plan, response_written, ResponsePlan,
};
use crate::seqs::views;
use crate::services::{published, uniques_on, Published};
use crate::state::State;
use crate::timing::{delay_bounds, DelayClass, MulticastTracker, Slot};
use crate::wire::{decoded, legible};

verus! {

/// A record with a lifetime that is inserted is held afterwards until it expires, as learned on
/// the interface that is given. Nothing else is added. Other records stay where there is room,
/// unless the cache-flush bit is set and they have the record's name, type and class.
pub proof fn inserting_stores_the_record(
    cache: &mut Cache,
    record: Record,
    source: Option<u32>,
    now: u128,
    outcome: InsertOutcome,
    e: EntryView,
)
    requires
        call_ensures(Cache::insert_from_at, (cache, record, source, now), outcome),
        old(cache)@.valid(),
        stored_ttl(record@, old(cache)@.max_ttl) > 0,
    ensures
        exists|x: EntryView| #[trigger]
            final(cache)@.entries.contains(x) && entry_for(x, record@, old(cache)@.max_ttl, now)
                && (source is Some ==> x.source == source),
        final(cache)@.entries.contains(e) ==> e.record.key() == record@.key()
            || old(cache)@.entries.contains(e),
        final(cache)@.entries.contains(e) && e.record.key() == record@.key() ==> entry_for(
            e,
            record@,
            old(cache)@.max_ttl,
            now,
        ),
        old(cache)@.entries.contains(e) && e.record.key() != record@.key() && !(
        record@.cache_flush && same_set(e.record, record@)) && old(cache)@.entries.len()
            < old(cache)@.max_entries ==> final(cache)@.entries.contains(e),
        record@.cache_flush && final(cache)@.entries.contains(e) && same_set(e.record, record@)
            ==> e.record.data.folded() == record@.data.folded(),
        outcome == (if has_key(old(cache)@.entries, record@.key()) {
            InsertOutcome::Refreshed
        } else {
            InsertOutcome::Inserted
        }),
        final(cache)@.valid(),
        final(cache)@.max_entries == old(cache)@.max_entries,
        final(cache)@.max_ttl == old(cache)@.max_ttl,
{
    let c = old(cache)@;
    let r = record@;
    received_record_is_stored(c, r, source, now);
    let x = choose|x: EntryView| #[trigger]
        inserted(c, r, source, now).0.entries.contains(x) && x.record == (RecordView {
            ttl: stored_ttl(r, c.max_ttl),
            ..r
        }) && x.deadline == now + stored_ttl(r, c.max_ttl) * 1_000_000_000 && (source is Some
            ==> x.source == source) && (source is None ==> if has_key(c.entries, r.key()) {
            exists|y: EntryView| #[trigger]
                c.entries.contains(y) && y.record.key() == r.key() && y.source == x.source
        } else {
            x.source is None
        });
    assert(final(cache)@.entries.contains(x) && entry_for(x, r, c.max_ttl, now));
    if final(cache)@.entries.contains(e) {
        only_the_record_is_added(c, r, source, now, e);
        if r.cache_flush && same_set(e.record, r) {
            flush_removes_other_data(c, r, source, now, e);
        }
    }
    if c.entries.contains(e) && e.record.key() != r.key() && !(r.cache_flush && same_set(
        e.record,
        r,
    )) && c.entries.len() < c.max_entries {
        other_records_stay(c, r, source, now, e);
    }
    outcomes_tell_what_happened(c, r, source, now);
}

/// A record without a lifetime is taken out, and no other; the outcome tells whether it was
/// held.
pub proof fn inserting_a_goodbye_removes_the_record(
    cache: &mut Cache,
    record: Record,
    source: Option<u32>,
    now: u128,
    outcome: InsertOutcome,
    e: EntryView,
)
    requires
        call_ensures(Cache::insert_from_at, (cache, record, source, now), outcome),
        record@.ttl == 0,
    ensures
        final(cache)@.entries.contains(e) <==> old(cache)@.entries.contains(e) && e.record.key()
            != record@.key(),
        outcome == (if has_key(old(cache)@.entries, record@.key()) {
            InsertOutcome::GoodbyeRemoved
        } else {
            InsertOutcome::GoodbyeNoOp
        }),
{
    let out = inserted(old(cache)@, record@, source, now).0.entries;
    goodbye_removes_exactly_its_record(old(cache)@, record@, source, now);
    if out.contains(e) && e.record.key() == record@.key() {
        let k = choose|k: int| 0 <= k < out.len() && out[k] == e;
        assert(out[k].record.key() == record@.key());
    }
    assert(e.record.key() != record@.key() ==> (inserted(
        old(cache)@,
        record@,
        source,
        now,
    ).0.entries.contains(e) <==> old(cache)@.entries.contains(e)));
}

/// Inserting by the cache's own clock is inserting at some time that it shows; what comes from
/// no interface has none as its source.
pub proof fn inserting_reads_the_clock(
    cache: &mut Cache,
    record: Record,
    source: Option<u32>,
    outcome: InsertOutcome,
)
    requires
        call_ensures(Cache::insert_from, (cache, record, source), outcome) || source is None
            && call_ensures(Cache::insert, (cache, record), outcome),
    ensures
        exists|t: Instant|
            old(cache).time_at(t) <= MAX_TIME && (final(cache)@, outcome) == inserted(
                old(cache)@,
                record@,
                source,
                #[trigger] old(cache).time_at(t),
            ),
        final(cache).clock() == old(cache).clock(),
{
}

/// A lookup gives every record that is held under the name, in any case of its letters, and
/// of the type, or of any, with the seconds that remain to it, and no other.
pub proof fn looking_up_gives_every_match(
    cache: &Cache,
    name: &Name,
    rtype: RecordType,
    now: u128,
    r: Vec<Record>,
    x: RecordView,
)
    requires
        call_ensures(Cache::lookup_at, (cache, name, rtype, now), r),
    ensures
        views(r@).contains(x) <==> exists|i: int|
            #![trigger cache@.entries[i]]
            0 <= i < cache@.entries.len() && same_name(cache@.entries[i].record.name, name@) && (
            rtype == RecordType::ANY || cache@.entries[i].record.rtype() == rtype) && seconds_left(
                x.ttl,
                cache@.entries[i].deadline,
                now,
            ) && x == (RecordView { ttl: x.ttl, ..cache@.entries[i].record }),
{
    lookups_give_the_live_records_with_what_remains(cache@, name@, rtype, now, x);
}

/// A lookup for another interface gives every such record that was learned on an interface
/// other than that one, with the seconds that remain to it and without the cache-flush bit.
pub proof fn looking_up_elsewhere_gives_every_match(
    cache: &Cache,
    name: &Name,
    rtype: RecordType,
    arrival: u32,
    now: u128,
    r: Vec<Record>,
    x: RecordView,
)
    requires
        call_ensures(Cache::lookup_from_other_ifaces_at, (cache, name, rtype, arrival, now), r),
    ensures
        views(r@).contains(x) <==> exists|i: int|
            #![trigger cache@.entries[i]]
            0 <= i < cache@.entries.len() && same_name(cache@.entries[i].record.name, name@) && (
            rtype == RecordType::ANY || cache@.entries[i].record.rtype() == rtype)
                && cache@.entries[i].source is Some && cache@.entries[i].source->0 != arrival
                && seconds_left(x.ttl, cache@.entries[i].deadline, now) && x == (RecordView {
                ttl: x.ttl,
                cache_flush: false,
                ..cache@.entries[i].record
            }),
{
    relayed_records_never_outlive_their_entries(cache@, name@, rtype, arrival, now, x);
}

/// A snapshot gives every record that has not expired, with the seconds that remain to it.
pub proof fn a_snapshot_gives_every_live_record(
    cache: &Cache,
    now: u128,
    r: Vec<Record>,
    x: RecordView,
)
    requires
        call_ensures(Cache::snapshot_at, (cache, now), r),
    ensures
        views(r@).contains(x) <==> exists|i: int|
            #![trigger cache@.entries[i]]
            0 <= i < cache@.entries.len() && seconds_left(x.ttl, cache@.entries[i].deadline, now)
                && x == (RecordView { ttl: x.ttl, ..cache@.entries[i].record }),
{
    snapshots_hold_the_live_records(cache@, now, x);
}

/// Reading the cache by its own clock is reading it at some time that the clock shows.
pub proof fn reading_the_cache_reads_the_clock(
    cache: &Cache,
    name: &Name,
    rtype: RecordType,
    arrival: u32,
    r: Vec<Record>,
)
    ensures
        call_ensures(Cache::lookup, (cache, name, rtype), r) ==> exists|t: Instant|
            views(r@) == found(
                cache@,
                name@,
                rtype,
                #[trigger] cache.time_at(t),
            ),
        call_ensures(Cache::lookup_from_other_ifaces, (cache, name, rtype, arrival), r)
            ==> exists|t: Instant|
            views(r@) == found_elsewhere(
                cache@,
                name@,
                rtype,
                arrival,
                #[trigger] cache.time_at(t),
            ),
        call_ensures(Cache::snapshot, (cache,), r) ==> exists|t: Instant|
            views(r@) == all_live(cache@, #[trigger] cache.time_at(t)),
{
}

/// Evicting takes out the entries whose time has come, and counts them.
pub proof fn evicting_removes_what_has_expired(
    cache: &mut Cache,
    now: u128,
    n: usize,
    e: EntryView,
)
    requires
        call_ensures(Cache::evict_expired_at, (cache, now), n),
    ensures
        final(cache)@.entries.contains(e) <==> old(cache)@.entries.contains(e) && e.deadline > now,
        final(cache)@.entries.len() + n == old(cache)@.entries.len(),
        final(cache)@.max_entries == old(cache)@.max_entries,
        final(cache)@.max_ttl == old(cache)@.max_ttl,
{
    sweeps_remove_just_what_has_expired(old(cache)@, now, e);
}

/// Evicting by the cache's own clock is evicting at some time that it shows.
pub proof fn evicting_reads_the_clock(cache: &mut Cache, n: usize)
    requires
        call_ensures(Cache::evict_expired, (cache,), n),
    ensures
        exists|t: Instant|
            final(cache)@ == evicted(old(cache)@, #[trigger] old(cache).time_at(t)),
        final(cache)@.entries.len() + n == old(cache)@.entries.len(),
{
}

/// A new cache is empty, has room for as many entries as asked for but at least one, and 4096
/// by default, and limits lifetimes as asked for.
pub proof fn new_caches_are_empty(max_entries: usize, max_ttl: Option<u64>, c: Cache, n: usize)
    ensures
        call_ensures(Cache::new, (), c) ==> c@.entries.len() == 0 && c@.max_entries == 4096
            && c@.max_ttl is None,
        call_ensures(Cache::with_capacity, (max_entries,), c) ==> c@.entries.len() == 0 && (
        max_entries > 0 ==> c@.max_entries == max_entries) && (max_entries == 0 ==> c@.max_entries
            == 1) && c@.max_ttl is None,
        call_ensures(Cache::with_capacity_and_max_ttl, (max_entries, max_ttl), c)
            ==> c@.entries.len() == 0 && (max_entries > 0 ==> c@.max_entries == max_entries) && (max_entries == 0
            ==> c@.max_entries == 1) && c@.max_ttl == max_ttl,
        call_ensures(Cache::len, (&c,), n) ==> n == c@.entries.len(),
        call_ensures(Cache::is_empty, (&c,), n == 0) ==> (n == 0 <==> c@.entries.len() == 0),
{
}

/// The answers to a message hold every record that answers one of its questions, whichever,
/// and is published for the interface or, where the cache is used, was learned on another; and
/// they hold no other records, none twice, and no cached copy of a published one.
pub proof fn answering_leaves_no_question_out(
    state: &State,
    msg: &Message,
    arrival: &Iface,
    records: &Published,
    now: u128,
    r: Vec<Record>,
    hostname: NameView,
    services: Seq<ServiceConfig>,
    ifaces: Seq<Iface>,
    k: int,
    x: RecordView,
    y: RecordView,
)
    requires
        call_ensures(candidate_answers_at, (state, msg, arrival, records, now), r),
        records@ == published(hostname, services, ifaces),
    ensures
        0 <= k < msg@.queries.len() && x.answers(msg@.queries[k].name, msg@.queries[k].qtype) && (
        published_on(records@, *arrival, x) || state.config.answer_from_cache && learned_elsewhere(
            state.cache@,
            arrival.ifindex,
            now,
            x,
        )) ==> includes(views(r@), x),
        views(r@).contains(x) ==> exists|k: int|
            #![trigger msg@.queries[k]]
            0 <= k < msg@.queries.len() && x.answers(msg@.queries[k].name, msg@.queries[k].qtype),
        views(r@).contains(x) ==> published_on(records@, *arrival, x)
            || state.config.answer_from_cache && learned_elsewhere(
            state.cache@,
            arrival.ifindex,
            now,
            x,
        ),
        views(r@).contains(x) && y.key() == x.key() && published_on(records@, *arrival, y)
            ==> published_on(records@, *arrival, x),
        distinct(views(r@)),
{
    let from_cache = state.config.answer_from_cache;
    let c = state.cache@;
    let queries = msg@.queries;
    answers_are_distinct_and_justified(from_cache, c, records@, *arrival, queries, now);
    if 0 <= k < queries.len() && x.answers(queries[k].name, queries[k].qtype) && (published_on(
        records@,
        *arrival,
        x,
    ) || from_cache && learned_elsewhere(c, arrival.ifindex, now, x)) {
        every_question_is_answered(
            from_cache,
            c,
            hostname,
            services,
            ifaces,
            *arrival,
            queries,
            now,
            k,
            x,
        );
    }
    if views(r@).contains(x) {
        every_answer_belongs(
            from_cache,
            c,
            hostname,
            services,
            ifaces,
            *arrival,
            queries,
            now,
            x,
        );
        if y.key() == x.key() && published_on(records@, *arrival, y) {
            own_records_win_over_cached_copies(
                from_cache,
                c,
                hostname,
                services,
                ifaces,
                *arrival,
                queries,
                now,
                x,
                y,
            );
        }
    }
}

/// An answer that the message lists, in whatever place, with at least half its lifetime is
/// taken out, and every other stays.
pub proof fn suppressing_drops_what_is_listed(
    answers: &mut Vec<Record>,
    msg: &Message,
    x: RecordView,
)
    requires
        call_ensures(apply_known_answers, (answers, msg), ()),
    ensures
        views(final(answers)@).contains(x) <==> views(old(answers)@).contains(x) && !listed(
            msg@.answers,
            x,
        ),
{
    every_listed_answer_is_suppressed(views(old(answers)@), msg@.answers, x);
}

/// A message counts as a probe when its authority section names a unique record, by name and
/// type.
pub proof fn probes_are_recognised(msg: &Message, unique: &Vec<Record>, r: bool)
    requires
        call_ensures(is_probe_for_us, (msg, unique), r),
    ensures
        r <==> exists|a: RecordView, u: RecordView|
            #![trigger msg@.authorities.contains(a), views(unique@).contains(u)]
            msg@.authorities.contains(a) && views(unique@).contains(u) && same_name(a.name, u.name)
                && a.rtype() == u.rtype(),
{
    probes_are_told_by_name_and_type(msg@.authorities, views(unique@));
}

/// The additional records bring every service and text record for the pointers among the
/// answers and every address for the services among both, as far as they were learned on
/// other interfaces and are not among the answers; nothing where the cache is not used.
pub proof fn adding_records_leaves_none_out(
    state: &State,
    answers: &Vec<Record>,
    arrival: &Iface,
    now: u128,
    r: Vec<Record>,
    a: RecordView,
    x: RecordView,
)
    requires
        call_ensures(cached_additionals_at, (state, answers, arrival, now), r),
    ensures
        !state.config.answer_from_cache ==> r@.len() == 0,
        state.config.answer_from_cache && learned_elsewhere(
            state.cache@,
            arrival.ifindex,
            now,
            x,
        ) && views(answers@).contains(a) && a.data is PTR && (x.answers(
            a.data->PTR_0,
            RecordType::SRV,
        ) || x.answers(a.data->PTR_0, RecordType::TXT)) ==> includes(views(answers@), x)
            || includes(views(r@), x),
        state.config.answer_from_cache && learned_elsewhere(
            state.cache@,
            arrival.ifindex,
            now,
            x,
        ) && (views(answers@).contains(a) || views(r@).contains(a)) && a.data is SRV && (x.answers(
            a.data->SRV_target,
            RecordType::A,
        ) || x.answers(a.data->SRV_target, RecordType::AAAA)) ==> includes(views(answers@), x)
            || includes(views(r@), x),
        views(r@).contains(x) ==> learned_elsewhere(state.cache@, arrival.ifindex, now, x) && (
        describes_a_pointer(views(answers@), x) || locates_a_service(
            views(answers@) + views(r@),
            x,
        )),
{
    let c = state.cache@;
    let all = views(answers@);
    additional_records_are_justified(c, arrival.ifindex, now, all, x);
    assert(views(r@).len() == r@.len());
    if state.config.answer_from_cache && learned_elsewhere(c, arrival.ifindex, now, x) && ((
    all.contains(a) && a.data is PTR && (x.answers(a.data->PTR_0, RecordType::SRV) || x.answers(
        a.data->PTR_0,
        RecordType::TXT,
    ))) || ((all.contains(a) || views(r@).contains(a)) && a.data is SRV && (x.answers(
        a.data->SRV_target,
        RecordType::A,
    ) || x.answers(a.data->SRV_target, RecordType::AAAA)))) {
        additional_records_are_complete(c, arrival.ifindex, now, all, a, x);
    }
}

/// The delay of a response goes by the message and the answers alone: none for a probe, 400 to
/// 500 ms where more known answers follow, none for one question that is answered only with
/// records of the daemon's own, and 20 to 120 ms else.
pub proof fn classifying_follows_the_rules(
    msg: &Message,
    answers: &Vec<Record>,
    probe: bool,
    class: DelayClass,
    bounds: (u64, u64),
)
    requires
        call_ensures(classify_delay, (msg, answers, probe), class),
        call_ensures(delay_bounds, (class,), bounds),
    ensures
        bounds == (if probe {
            (0u64, 0u64)
        } else if msg@.truncation {
            (400, 500)
        } else if msg@.queries.len() == 1 && answers@.len() > 0 && forall|x: RecordView| #[trigger]
            views(answers@).contains(x) ==> x.cache_flush {
            (0, 0)
        } else {
            (20, 120)
        }),
{
    delays_are_as_prescribed(msg@.truncation, msg@.queries.len(), views(answers@), probe);
}

/// A response is planned exactly for a query that some record answers which it does not list;
/// the plan has the query's identifier and all such records, what goes with them, and defends
/// a record where the query is a probe.
pub proof fn planning_answers_what_is_not_listed(
    state: &State,
    msg: &Message,
    arrival: &Iface,
    records: &Published,
    now: u128,
    r: Option<ResponsePlan>,
    x: RecordView,
)
    requires
        call_ensures(plan_response_at, (state, msg, arrival, records, now), r),
    ensures
        ({
            let all = candidates(
                state.config.answer_from_cache,
                state.cache@,
                records@,
                *arrival,
                msg@.queries,
                now,
            );
            &&& r is None ==> msg@.message_type == MessageType::Response || (all.contains(x)
                ==> listed(msg@.answers, x))
            &&& r is Some ==> {
                let plan = r->0@;
                &&& msg@.message_type == MessageType::Query
                &&& plan.id == msg@.id
                &&& plan.answers.len() > 0
                &&& plan.answers.contains(x) <==> all.contains(x) && !listed(msg@.answers, x)
                &&& plan.additionals == additionals(
                    state.config.answer_from_cache,
                    state.cache@,
                    arrival.ifindex,
                    now,
                    plan.answers,
                )
                &&& plan.probe_defense <==> probes(msg@.authorities, uniques_on(records@, *arrival))
                &&& plan.class == delay_class(
                    msg@.truncation,
                    msg@.queries.len(),
                    plan.answers,
                    plan.probe_defense,
                )
            }
        }),
{
    queries_are_answered_with_all_that_they_do_not_list(
        state.config.answer_from_cache,
        state.cache@,
        records@,
        *arrival,
        msg@,
        now,
    );
}

/// A response goes out with just the planned records that were not multicast on the interface
/// within the last second, or 250 ms for a probe; peers that can read it read just these. What
/// goes out is noted, and nothing else is.
pub proof fn finishing_sends_what_was_not_just_multicast(
    tracker: &mut MulticastTracker,
    ifindex: u32,
    plan: &ResponsePlan,
    now: u128,
    r: Option<Vec<u8>>,
    x: RecordView,
    s: Slot,
)
    requires
        call_ensures(finish_response_at, (tracker, ifindex, plan, now), r),
        distinct(plan@.answers),
        distinct(plan@.additionals),
        disjoint(plan@.additionals, plan@.answers),
    ensures
        exists|answers: Seq<RecordView>, more: Seq<RecordView>| #[trigger]
            response_written(r, plan@.id, answers, more) && {
                let interval: int = if plan@.probe_defense {
                    250_000_000
                } else {
                    1_000_000_000
                };
                &&& answers.contains(x) <==> plan@.answers.contains(x) && quiet(
                    old(tracker)@,
                    ifindex,
                    x,
                    now,
                    interval,
                )
                &&& more.contains(x) <==> plan@.additionals.contains(x) && quiet(
                    old(tracker)@,
                    ifindex,
                    x,
                    now,
                    interval,
                )
                &&& answers.contains(x) || more.contains(x) ==> final(tracker)@.contains_key(
                    Slot { ifindex, key: x.key() },
                ) && final(tracker)@[Slot { ifindex, key: x.key() }] == now
                &&& (forall|y: RecordView| #[trigger]
                    answers.contains(y) ==> s != (Slot { ifindex, key: y.key() })) && (forall|
                    y: RecordView,
                | #[trigger]
                    more.contains(y) ==> s != (Slot { ifindex, key: y.key() }))
                    ==> final(tracker)@.contains_key(s) == old(tracker)@.contains_key(s) && (
                old(tracker)@.contains_key(s) ==> final(tracker)@[s] == old(tracker)@[s])
            },
{
    let last = old(tracker)@;
    let (m, answers, more) = admitted(last, ifindex, plan@, now);
    responses_hold_what_was_not_just_multicast(last, ifindex, plan@, now, x);
    if (forall|y: RecordView| #[trigger]
        answers.contains(y) ==> s != (Slot { ifindex, key: y.key() })) && (forall|y: RecordView|
     #[trigger]
        more.contains(y) ==> s != (Slot { ifindex, key: y.key() })) {
        responses_note_only_what_they_send(last, ifindex, plan@, now, s);
    }
    assert(response_written(r, plan@.id, answers, more));
}

/// The forms that read a clock do at some time that it shows what the timed forms do at a
/// given time.
pub proof fn responding_reads_the_clocks(
    state: &State,
    msg: &Message,
    arrival: &Iface,
    records: &Published,
    answers: &Vec<Record>,
    r: Vec<Record>,
    plan: Option<ResponsePlan>,
)
    ensures
        call_ensures(candidate_answers, (state, msg, arrival, records), r) ==> exists|t: Instant|
            views(r@) == candidates(
                state.config.answer_from_cache,
                state.cache@,
                records@,
                *arrival,
                msg@.queries,
                #[trigger] state.cache.time_at(t),
            ),
        call_ensures(cached_additionals, (state, answers, arrival), r) ==> exists|t: Instant|
            views(r@) == additionals(
                state.config.answer_from_cache,
                state.cache@,
                arrival.ifindex,
                #[trigger] state.cache.time_at(t),
                views(answers@),
            ),
        call_ensures(plan_response, (state, msg, arrival, records), plan) ==> exists|t: Instant|
            #![trigger state.cache.time_at(t)]
            {
                let p = response_plan(
                    state.config.answer_from_cache,
                    state.cache@,
                    records@,
                    *arrival,
                    msg@,
                    state.cache.time_at(t),
                );
                &&& plan is Some <==> p is Some
                &&& plan is Some ==> plan->0@ == p->0
            },
{
}

/// The same of completing a response.
pub proof fn finishing_reads_the_clock(
    tracker: &mut MulticastTracker,
    ifindex: u32,
    plan: &ResponsePlan,
    r: Option<Vec<u8>>,
)
    requires
        call_ensures(finish_response, (tracker, ifindex, plan), r),
    ensures
        exists|t: Instant|
            #![trigger old(tracker).time_at(t)]
            {
                let (m, answers, more) = admitted(
                    old(tracker)@,
                    ifindex,
                    plan@,
                    old(tracker).time_at(t),
                );
                final(tracker)@ == m && response_written(r, plan@.id, answers, more)
            },
{
}

/// A response that peers can read is written as such, authoritative and with all its records;
/// there is none without answers.
pub proof fn building_a_response_keeps_its_records(
    id: u16,
    answers: Vec<Record>,
    more: Vec<Record>,
    r: Option<Vec<u8>>,
)
    requires
        call_ensures(build_response, (id, answers, more), r),
    ensures
        answers@.len() == 0 ==> r is None,
        answers@.len() > 0 && legible(response_message(id, views(answers@), views(more@)))
            ==> r is Some && decoded(r->0@) == Some(
            MessageView {
                id,
                message_type: MessageType::Response,
                authoritative: true,
                truncation: false,
                queries: Seq::empty(),
                answers: views(answers@),
                authorities: Seq::empty(),
                additionals: views(more@),
            },
        ),
{
    responses_are_read_as_they_were_planned(r, id, views(answers@), views(more@));
}

} // verus!
