//! What the daemon's operations do around the cache and the responses, told from what they are
//! given and what they give back.

use vstd::prelude::*;

use std::time::Instant;

use crate::addr::{IpAddr, Ipv4Addr, Ipv6Addr, SocketAddr};
use crate::announce::{
    all_marked, announce_message, announced, build_announce, build_goodbye, build_probe,
    goodbye_message, mark_announced, mark_announced_at, probe_after, probe_from, probe_message,
    probe_next, probe_start, probe_view, probe_wait, probe_written, round_after, round_begin,
    round_next, round_start, round_wait, ProbeEvent, ProbeState, RoundEvent, RoundState,
};
use crate::browser::{
    browse_after, browse_names, browse_next, browse_start, next_delay, query_message, BrowseEvent,
    BrowseState,
};
use crate::cache::{evicted, Cache, EntryView};
use crate::config::{
    config_fault, default_browse, default_browse_secs, default_cache_tick,
    default_max_cache_entries, default_true, parse_subnet, subnet_fault_text, subnet_of,
    ConfigError, ConfigFault, RawConfig, Resolved, ServiceConfig, Subnet, SubnetFault,
};
use crate::daemon::parse_pid;
use crate::dns::{
    Message, MessageType, Name, NameView, QuestionView, RData, RDataView, Record, RecordType,
    RecordView,
};
use crate::engine::{
    handle_datagram, handle_datagram_at, handle_response_msg, handle_response_msg_at, handled,
    is_mdns_source, learned, sweep, sweep_at, sweep_interval_secs, triage, CacheUpdate, Handling,
};
use crate::iface::{
    all_steps, discover, entry_v4, entry_v6, first_of, iface_addrs, is_prefix_len,
    ipv6_net, ipv6_prefix_len, mdns_sockaddr_v4, mdns_sockaddr_v6, net_v6, setup, successes,
    tally_sends, AddrEntry, Datagram, Iface, IfaceV4, IfaceV6, IpFamily, MulticastTarget,
    SetupStep,
};
use crate::laws::announce::announcing_notes_every_record;
use crate::laws::cache::{
    lemma_filter_map_from, lemma_filter_map_has, sweeps_remove_just_what_has_expired,
};
use crate::laws::config::sources_are_allowed_by_any_listed_subnet;
use crate::laws::engine::acceptance_rests_on_port_source_and_interface;
use crate::laws::repeater::targets_are_the_qualifying_interfaces;
use crate::laws::services::{
    announcements_hold_everything_for_the_interface, fault_of,
    goodbyes_are_the_published_records_without_lifetime, host_records_are_those_of_the_interface,
    is_published, published_answers_are_complete, published_answers_are_published,
    published_answers_fit_the_question, sound, the_first_fault_is_reported,
    unique_records_are_addresses_services_and_texts,
};
use crate::preflight::{preflight, preflight_fault, PreflightError};
use crate::record_key::{rdata_eq, RecordKey};
use crate::repeater::{forward_targets, identify_recv_iface, is_target, recv_iface};
use crate::responder::{answer_uniqueness, response_message};
use crate::seqs::views;
use crate::services::{
    build, first_fault, goodbye, goodbyes, hostname_of, published, resolve_hostname,
    resolve_hostname_from, uniques_on, validate, Published, ServiceError,
};
use crate::state::State;
use crate::text::{signed, trimmed};
use crate::timing::{
    first_query_jitter, free, jitter_0_to_max, recent, response_delay, slot_of, taken, DelayClass,
    MulticastTracker, Slot,
};
use crate::wire::{decoded, encoded, legible, parsed_name, sent};

use hickory_proto::serialize::binary::DecodeError;
use hickory_proto::ProtoError;

verus! {

broadcast use vstd::seq_lib::group_filter_ensures;

proof fn lemma_first_unsound(services: Seq<ServiceConfig>) -> (i: int)
    ensures
        0 <= i <= services.len(),
        forall|k: int| #![trigger services[k]] 0 <= k < i ==> sound(services[k]),
        i < services.len() ==> !sound(services[i]),
    decreases services.len(),
{
    if services.len() == 0 {
        0
    } else {
        let rest = services.drop_last();
        let i = lemma_first_unsound(rest);
        assert forall|k: int| #![trigger services[k]] 0 <= k < i implies sound(services[k]) by {
            assert(rest[k] == services[k]);
        }
        if i < rest.len() {
            assert(rest[i] == services[i]);
            i
        } else if sound(services[i]) {
            i + 1
        } else {
            i
        }
    }
}

proof fn lemma_fault(services: Seq<ServiceConfig>)
    ensures
        first_fault(services) is None <==> forall|k: int| #![trigger services[k]]
            0 <= k < services.len() ==> sound(services[k]),
        first_fault(services) is Some ==> exists|i: int|
            #![trigger services[i]]
            0 <= i < services.len() && !sound(services[i]) && first_fault(services) == Some(
                fault_of(services[i]),
            ) && forall|k: int| #![trigger services[k]] 0 <= k < i ==> sound(services[k]),
{
    let i = lemma_first_unsound(services);
    if i < services.len() {
        the_first_fault_is_reported(services, i);
        assert(!sound(services[i]));
    } else if services.len() > 0 {
        the_first_fault_is_reported(services, services.len() - 1);
    }
}

/// Services are published exactly when all of them are in order; otherwise the error is that
/// of the first that is not.
pub proof fn building_publishes_sound_services(
    hostname: Name,
    services: &Vec<ServiceConfig>,
    ifaces: &Vec<Iface>,
    r: Result<Published, ServiceError>,
)
    requires
        call_ensures(build, (hostname, services, ifaces), r),
    ensures
        r is Ok <==> forall|k: int| #![trigger services@[k]]
            0 <= k < services@.len() ==> sound(services@[k]),
        r matches Ok(p) ==> p@ == published(hostname@, services@, ifaces@),
        r matches Err(e) ==> exists|i: int|
            #![trigger services@[i]]
            0 <= i < services@.len() && !sound(services@[i]) && e@ == fault_of(services@[i])
                && forall|k: int| #![trigger services@[k]] 0 <= k < i ==> sound(services@[k]),
{
    lemma_fault(services@);
}

/// Services are valid exactly when all of them are in order; otherwise the error is that of
/// the first that is not.
pub proof fn validating_finds_the_first_fault(
    hostname: &Name,
    services: &Vec<ServiceConfig>,
    r: Result<(), ServiceError>,
)
    requires
        call_ensures(validate, (hostname, services), r),
    ensures
        r is Ok <==> forall|k: int| #![trigger services@[k]]
            0 <= k < services@.len() ==> sound(services@[k]),
        r matches Err(e) ==> exists|i: int|
            #![trigger services@[i]]
            0 <= i < services@.len() && !sound(services@[i]) && e@ == fault_of(services@[i])
                && forall|k: int| #![trigger services@[k]] 0 <= k < i ==> sound(services@[k]),
{
    lemma_fault(services@);
}

/// What is published answers a question with every record of its name and type.
pub proof fn publishing_answers_by_name_and_type(
    p: &Published,
    qname: &Name,
    qtype: RecordType,
    r: Vec<Record>,
    hostname: NameView,
    services: Seq<ServiceConfig>,
    ifaces: Seq<Iface>,
    x: RecordView,
)
    requires
        call_ensures(Published::answer, (p, qname, qtype), r),
        p@ == published(hostname, services, ifaces),
    ensures
        views(r@).contains(x) <==> is_published(p@, x) && x.answers(qname@, qtype),
{
    if is_published(p@, x) && x.answers(qname@, qtype) {
        published_answers_are_complete(hostname, services, ifaces, qname@, qtype, x);
    }
    if views(r@).contains(x) {
        published_answers_are_published(p@, qname@, qtype, x);
        published_answers_fit_the_question(hostname, services, ifaces, qname@, qtype, x);
    }
}

/// The host records of an address are those that hold it, and an interface has those of its
/// two addresses; unique records are these and the service and text records.
pub proof fn host_records_go_by_their_address(
    p: &Published,
    a: Ipv4Addr,
    b: Ipv6Addr,
    iface: &Iface,
    r: Vec<Record>,
    x: RecordView,
)
    ensures
        call_ensures(Published::host_a_for, (p, a), r) ==> (views(r@).contains(x)
            <==> p@.host_a.contains(x) && x.data == RDataView::A(a)),
        call_ensures(Published::host_aaaa_for, (p, b), r) ==> (views(r@).contains(x)
            <==> p@.host_aaaa.contains(x) && x.data == RDataView::AAAA(b)),
        call_ensures(Published::host_records_for_iface, (p, iface), r) ==> (views(r@).contains(x)
            <==> p@.host_a.contains(x) && iface.v4 is Some && x.data == RDataView::A(
            iface.v4->0.addr,
        ) || p@.host_aaaa.contains(x) && iface.v6 is Some && x.data == RDataView::AAAA(
            iface.v6->0.addr,
        )),
        call_ensures(Published::unique_for_iface, (p, iface), r) ==> (views(r@).contains(x)
            <==> p@.host_a.contains(x) && iface.v4 is Some && x.data == RDataView::A(
            iface.v4->0.addr,
        ) || p@.host_aaaa.contains(x) && iface.v6 is Some && x.data == RDataView::AAAA(
            iface.v6->0.addr,
        ) || exists|i: int|
            #![trigger p@.services[i]]
            0 <= i < p@.services.len() && (x == p@.services[i].srv || x == p@.services[i].txt)),
{
    host_records_are_those_of_the_interface(p@, *iface, x);
    unique_records_are_addresses_services_and_texts(p@, *iface, x);
    if call_ensures(Published::host_a_for, (p, a), r) {
        lemma_filter_has(p@.host_a, |r: RecordView| r.data == RDataView::A(a), x);
    }
    if call_ensures(Published::host_aaaa_for, (p, b), r) {
        lemma_filter_has(p@.host_aaaa, |r: RecordView| r.data == RDataView::AAAA(b), x);
    }
}

proof fn lemma_filter_has<A>(s: Seq<A>, p: spec_fn(A) -> bool, x: A)
    ensures
        s.filter(p).contains(x) <==> s.contains(x) && p(x),
{
    if s.filter(p).contains(x) {
        s.lemma_filter_contains_rev(p, x);
        let k = choose|k: int| 0 <= k < s.filter(p).len() && s.filter(p)[k] == x;
        assert(p(s.filter(p)[k]));
    }
    if s.contains(x) && p(x) {
        let k = choose|k: int| 0 <= k < s.len() && s[k] == x;
        assert(s.filter(p).contains(s[k]));
    }
}

/// An announcement is a response that holds everything that is published for the interface.
pub proof fn announcing_holds_everything_for_the_interface(
    p: &Published,
    iface: &Iface,
    m: Message,
    x: RecordView,
)
    requires
        call_ensures(announce_message, (p, iface), m),
    ensures
        m@.id == 0,
        m@.message_type == MessageType::Response,
        m@.authoritative && !m@.truncation,
        m@.queries.len() == 0 && m@.authorities.len() == 0 && m@.additionals.len() == 0,
        m@.answers.contains(x) <==> p@.host_a.contains(x) && iface.v4 is Some && x.data
            == RDataView::A(iface.v4->0.addr) || p@.host_aaaa.contains(x) && iface.v6 is Some
            && x.data == RDataView::AAAA(iface.v6->0.addr) || exists|i: int|
            #![trigger p@.services[i]]
            0 <= i < p@.services.len() && (x == p@.services[i].ptr_type_to_instance || x
                == p@.services[i].ptr_meta_to_type || x == p@.services[i].srv || x
                == p@.services[i].txt),
{
    announcements_hold_everything_for_the_interface(p@, *iface, x);
}

/// A goodbye is a response that holds every published record, without a lifetime.
pub proof fn saying_goodbye_takes_everything_back(
    p: &Published,
    m: Message,
    x: RecordView,
    r: Vec<Record>,
)
    requires
        call_ensures(goodbye_message, (p,), m),
    ensures
        call_ensures(goodbye, (p,), r) ==> views(r@) == m@.answers,
        m@.id == 0,
        m@.message_type == MessageType::Response,
        m@.authoritative && !m@.truncation,
        m@.queries.len() == 0 && m@.authorities.len() == 0 && m@.additionals.len() == 0,
        m@.answers.contains(x) <==> exists|r: RecordView|
            x == (RecordView { ttl: 0, ..r }) && #[trigger] is_published(p@, r),
{
    goodbyes_are_the_published_records_without_lifetime(p@, x);
}

/// What is announced, taken back and probed for is what goes out: the octets are those of the
/// messages, and peers that can read them read these.
pub proof fn announcements_go_out_as_they_are(
    p: &Published,
    iface: &Iface,
    a: Option<Vec<u8>>,
    g: Option<Vec<u8>>,
    b: Result<Vec<u8>, ProtoError>,
)
    ensures
        call_ensures(build_announce, (p, iface), a) ==> {
            let m = response_message(0, announced(p@, *iface), Seq::empty());
            &&& a is Some ==> m.answers.len() > 0 && encoded(sent(m)) == Some(a->0@)
            &&& m.answers.len() > 0 && legible(m) ==> a is Some && decoded(a->0@) == Some(m)
        },
        call_ensures(build_goodbye, (p,), g) ==> {
            let m = response_message(0, goodbyes(p@), Seq::empty());
            &&& g is Some ==> m.answers.len() > 0 && encoded(sent(m)) == Some(g->0@)
            &&& m.answers.len() > 0 && legible(m) ==> g is Some && decoded(g->0@) == Some(m)
        },
        call_ensures(build_probe, (p, iface), b) ==> exists|id: u16|
            {
                let m = #[trigger] probe_view(id, uniques_on(p@, *iface));
                &&& b matches Ok(o) ==> encoded(sent(m)) == Some(o@)
                &&& legible(m) ==> b is Ok && decoded(b->Ok_0@) == Some(m)
            },
{
    if call_ensures(build_probe, (p, iface), b) {
        let id = choose|id: u16| #[trigger] probe_written(b, id, uniques_on(p@, *iface));
        let m = probe_view(id, uniques_on(p@, *iface));
        assert((b matches Ok(o) ==> encoded(sent(m)) == Some(o@)) && (legible(m) ==> b is Ok
            && decoded(b->Ok_0@) == Some(m)));
    }
}

/// Announcing notes the time of every unique record of the interface on it, and of nothing
/// else.
pub proof fn announcing_is_noted(
    tracker: &mut MulticastTracker,
    p: &Published,
    iface: &Iface,
    now: u128,
    s: Slot,
)
    requires
        call_ensures(mark_announced_at, (tracker, p, iface, now), ()),
    ensures
        ({
            let noted = exists|r: RecordView| #[trigger]
                uniques_on(p@, *iface).contains(r) && s == (Slot {
                    ifindex: iface.ifindex,
                    key: r.key(),
                });
            &&& noted ==> final(tracker)@.contains_key(s) && final(tracker)@[s] == now
            &&& !noted ==> final(tracker)@.contains_key(s) == old(tracker)@.contains_key(s)
            &&& !noted && old(tracker)@.contains_key(s) ==> final(tracker)@[s] == old(tracker)@[s]
        }),
{
    announcing_notes_every_record(
        old(tracker)@,
        iface.ifindex,
        uniques_on(p@, *iface),
        now,
        s,
    );
}

/// The probe for records is the one that their names and the identifier make.
pub proof fn probing_asks_for_the_records(id: u16, unique: Vec<Record>, m: Message)
    requires
        call_ensures(probe_message, (id, unique), m),
    ensures
        m@ == probe_view(id, views(unique@)),
        m@.id == id,
        m@.message_type == MessageType::Query,
        m@.authorities == views(unique@),
{
}

/// The state machines move as their laws say, from their first states; and their waits are
/// those of RFC 6762: up to 250 ms before the first probe, 250 ms between probes, a second
/// between announcements.
pub proof fn probing_and_announcing_take_their_steps(
    wanted: &Vec<bool>,
    state: ProbeState,
    event: ProbeEvent,
    next: ProbeState,
    n: usize,
    round: RoundState,
    other: RoundEvent,
    after: RoundState,
    wait: Option<u128>,
)
    ensures
        call_ensures(probe_start, (wanted,), next) ==> next == probe_from(wanted@, 0),
        call_ensures(probe_next, (wanted, state, event), next) ==> next == probe_after(
            wanted@,
            state,
            event,
        ),
        call_ensures(probe_wait, (state,), wait) ==> match state {
            ProbeState::Jitter { .. } => wait is Some && wait->0 <= 250_000_000,
            ProbeState::Gap { .. } => wait == Some(250_000_000u128),
            _ => wait is None,
        },
        call_ensures(round_start, (n,), after) ==> after == round_begin(n, 0),
        call_ensures(round_next, (n, round, other), after) ==> after == round_after(
            n,
            round,
            other,
        ),
        call_ensures(round_wait, (round,), wait) ==> wait == (if round is Gap {
            Some(1_000_000_000u128)
        } else {
            None
        }),
{
}

/// A multicast is noted for its record and interface alone; it is allowed unless its slot was
/// used less than the interval ago.
pub proof fn tracking_notes_the_slot_alone(
    tracker: &mut MulticastTracker,
    ifindex: u32,
    rec: &Record,
    interval: u128,
    now: u128,
    r: bool,
    s: Slot,
)
    ensures
        ({
            let slot = Slot { ifindex, key: rec@.key() };
            let last = old(tracker)@;
            let m = final(tracker)@;
            let quiet = !last.contains_key(slot) || interval == 0 || last[slot] + interval <= now;
            let others = s != slot ==> m.contains_key(s) == last.contains_key(s) && (
            last.contains_key(s) ==> m[s] == last[s]);
            &&& call_ensures(MulticastTracker::mark_at, (tracker, ifindex, rec, now), ())
                ==> m.contains_key(slot) && m[slot] == now && others
            &&& call_ensures(
                MulticastTracker::check_and_mark_at,
                (tracker, ifindex, rec, interval, now),
                r,
            ) ==> {
                &&& r == quiet
                &&& r ==> m.contains_key(slot) && m[slot] == now
                &&& !r ==> m[slot] == last[slot]
                &&& others
            }
        }),
{
    let slot = slot_of(ifindex, rec@);
}

/// Asking changes nothing, and pruning forgets just what is the interval old.
pub proof fn tracking_forgets_just_the_old(
    tracker: &mut MulticastTracker,
    asked: &MulticastTracker,
    ifindex: u32,
    rec: &Record,
    interval: u128,
    now: u128,
    r: bool,
    s: Slot,
    n: usize,
)
    ensures
        call_ensures(MulticastTracker::allows_at, (asked, ifindex, rec, interval, now), r) ==> {
            let slot = Slot { ifindex, key: rec@.key() };
            r <==> !asked@.contains_key(slot) || interval == 0 || asked@[slot] + interval <= now
        },
        call_ensures(MulticastTracker::prune_older_than_at, (tracker, interval, now), ()) ==> {
            &&& final(tracker)@.contains_key(s) <==> old(tracker)@.contains_key(s) && interval > 0
                && old(tracker)@[s] + interval > now
            &&& final(tracker)@.contains_key(s) ==> final(tracker)@[s] == old(tracker)@[s]
        },
        call_ensures(MulticastTracker::len, (asked,), n) ==> n == asked@.dom().len(),
{
}

/// The forms that read the tracker's clock do at some time that it shows what the timed forms
/// do at a given time.
pub proof fn tracking_reads_the_clock(
    tracker: &mut MulticastTracker,
    asked: &MulticastTracker,
    ifindex: u32,
    rec: &Record,
    interval: u128,
    r: bool,
    p: &Published,
    iface: &Iface,
)
    ensures
        call_ensures(MulticastTracker::mark, (tracker, ifindex, rec), ()) ==> exists|t: Instant|
            final(tracker)@ == old(tracker)@.insert(
                slot_of(ifindex, rec@),
                #[trigger] old(tracker).time_at(t) as int,
            ),
        call_ensures(MulticastTracker::allows, (asked, ifindex, rec, interval), r) ==> exists|
            t: Instant,
        |
            r == free(
                asked@,
                slot_of(ifindex, rec@),
                #[trigger] asked.time_at(t),
                interval,
            ),
        call_ensures(MulticastTracker::check_and_mark, (tracker, ifindex, rec, interval), r)
            ==> exists|t: Instant|
            #![trigger old(tracker).time_at(t)]
            r == free(
                old(tracker)@,
                slot_of(ifindex, rec@),
                old(tracker).time_at(t),
                interval,
            ) && final(tracker)@ == taken(
                old(tracker)@,
                slot_of(ifindex, rec@),
                old(tracker).time_at(t),
                interval,
            ),
        call_ensures(MulticastTracker::prune_older_than, (tracker, interval), ()) ==> exists|
            t: Instant,
        |
            final(tracker)@ == recent(old(tracker)@, #[trigger] old(tracker).time_at(t), interval),
        call_ensures(mark_announced, (tracker, p, iface), ()) ==> exists|t: Instant|
            final(tracker)@ == all_marked(
                old(tracker)@,
                iface.ifindex,
                uniques_on(p@, *iface),
                #[trigger] old(tracker).time_at(t),
            ),
{
}

/// The random delays stay within what RFC 6762 prescribes, in whole milliseconds.
pub proof fn delays_stay_within_their_ranges(class: DelayClass, max: u128, d: u128)
    ensures
        call_ensures(response_delay, (class,), d) ==> d % 1_000_000 == 0 && match class {
            DelayClass::ProbeDefense => d == 0,
            DelayClass::UniqueAnswer => d == 0,
            DelayClass::Shared => 20_000_000 <= d <= 120_000_000,
            DelayClass::Truncated => 400_000_000 <= d <= 500_000_000,
        },
        call_ensures(first_query_jitter, (), d) ==> d % 1_000_000 == 0 && 20_000_000 <= d
            <= 120_000_000,
        call_ensures(jitter_0_to_max, (max,), d) ==> d % 1_000_000 == 0 && d <= max,
{
}

/// A datagram is handled exactly when it comes from port 5353, from an address that no
/// interface has and that the filters allow, and its interface is known or it may be repeated.
pub proof fn triage_rests_on_port_source_and_interface(
    config: &Resolved,
    ifaces: &Vec<Iface>,
    pkt: &Datagram,
    r: Option<Option<usize>>,
)
    requires
        call_ensures(triage, (config, ifaces, pkt), r),
    ensures
        ({
            let idx = recv_iface(pkt.source.ip, pkt.recv_ifindex, ifaces@);
            &&& r is Some <==> {
                &&& pkt.source.port == 5353
                &&& forall|f: Iface| #[trigger] ifaces@.contains(f) ==> !f.owns(pkt.source.ip)
                &&& config.admits(pkt.source.ip)
                &&& config.repeat || idx is Some
            }
            &&& r is Some ==> r->0 == idx
        }),
{
    acceptance_rests_on_port_source_and_interface(
        *config,
        ifaces@,
        pkt.source,
        pkt.recv_ifindex,
    );
}

/// A response teaches the cache the records of all its sections, in order, as learned on the
/// given interface.
pub proof fn responses_are_learned_whole(
    cache: &mut Cache,
    msg: &Message,
    source: Option<u32>,
    now: u128,
    u: CacheUpdate,
)
    ensures
        ({
            let all = msg@.answers + msg@.authorities + msg@.additionals;
            &&& call_ensures(handle_response_msg_at, (cache, msg, source, now), u) ==> (
                final(cache)@,
                u,
            ) == learned(old(cache)@, all, source, now)
            &&& call_ensures(handle_response_msg, (cache, msg, source), u) ==> exists|t: Instant|
                (final(cache)@, u) == learned(
                    old(cache)@,
                    all,
                    source,
                    #[trigger] old(cache).time_at(t),
                )
        }),
{
}

/// Handling a datagram touches the cache alone, and is what the laws of handling speak of.
pub proof fn handling_touches_the_cache_alone(
    state: &mut State,
    p: &Published,
    pkt: &Datagram,
    now: u128,
    r: Option<Handling>,
)
    ensures
        ({
            let same = final(state).config == old(state).config && final(state).ifaces == old(
                state).ifaces && final(state).mc_tracker == old(state).mc_tracker;
            &&& call_ensures(handle_datagram_at, (state, p, pkt, now), r) ==> same && handled(
                old(state).config,
                old(state).ifaces@,
                old(state).cache@,
                p@,
                *pkt,
                now,
                final(state).cache@,
                r,
            )
            &&& call_ensures(handle_datagram, (state, p, pkt), r) ==> same && exists|t: Instant|
                handled(
                    old(state).config,
                    old(state).ifaces@,
                    old(state).cache@,
                    p@,
                    *pkt,
                    #[trigger] old(state).cache.time_at(t),
                    final(state).cache@,
                    r,
                )
        }),
{
}

/// A sweep takes the expired entries out of the cache, counts them, and forgets the multicasts
/// that are a second old; it runs as often as configured, at most once a second.
pub proof fn sweeping_removes_just_what_is_over(
    state: &mut State,
    now: u128,
    later: u128,
    n: usize,
    e: EntryView,
    s: Slot,
    config: &Resolved,
    secs: u64,
)
    ensures
        call_ensures(sweep_at, (state, now, later), n) ==> {
            &&& final(state).cache@.entries.contains(e) <==> old(state).cache@.entries.contains(e)
                && e.deadline > now
            &&& final(state).cache@.entries.len() + n == old(state).cache@.entries.len()
            &&& final(state).mc_tracker@.contains_key(s) <==> old(state).mc_tracker@.contains_key(s)
                && old(state).mc_tracker@[s] + 1_000_000_000 > later
            &&& final(state).mc_tracker@.contains_key(s) ==> final(state).mc_tracker@[s] == old(
                state).mc_tracker@[s]
            &&& final(state).config == old(state).config
            &&& final(state).ifaces == old(state).ifaces
        },
        call_ensures(sweep, (state,), n) ==> {
            &&& exists|t: Instant|
                final(state).cache@ == evicted(
                    old(state).cache@,
                    #[trigger] old(state).cache.time_at(t),
                )
            &&& exists|t: Instant|
                final(state).mc_tracker@ == recent(
                    old(state).mc_tracker@,
                    #[trigger] old(state).mc_tracker.time_at(t),
                    1_000_000_000,
                )
            &&& final(state).cache@.entries.len() + n == old(state).cache@.entries.len()
        },
        call_ensures(sweep_interval_secs, (config,), secs) ==> secs >= 1 && (
        config.cache_tick_secs >= 1 ==> secs == config.cache_tick_secs) && (config.cache_tick_secs
            == 0 ==> secs == 1),
{
    sweeps_remove_just_what_has_expired(old(state).cache@, now, e);
}

/// A daemon starts with its configuration and interfaces, with an empty cache of the
/// configured size, at least one entry, and the configured limit on lifetimes.
pub proof fn daemons_start_empty(config: Resolved, ifaces: Vec<Iface>, s: State, slot: Slot)
    requires
        call_ensures(State::new, (config, ifaces), s),
    ensures
        s.config == config,
        s.ifaces == ifaces,
        s.cache@.entries.len() == 0,
        config.max_cache_entries > 0 ==> s.cache@.max_entries == config.max_cache_entries,
        config.max_cache_entries == 0 ==> s.cache@.max_entries == 1,
        s.cache@.max_ttl == config.cache_max_ttl_secs,
        !s.mc_tracker@.contains_key(slot),
{
}

/// With a known ingress a datagram goes on to every other interface; without one to those off
/// the network of its source, where that is on the network of some interface.
pub proof fn forwarding_reaches_the_other_interfaces(
    recv_idx: Option<usize>,
    source: IpAddr,
    ifaces: &Vec<Iface>,
    r: Vec<usize>,
    j: usize,
)
    requires
        call_ensures(forward_targets, (recv_idx, source, ifaces), r),
    ensures
        recv_idx matches Some(i) ==> (r@.contains(j) <==> j < ifaces@.len() && j != i),
        recv_idx is None ==> (r@.contains(j) <==> j < ifaces@.len() && !ifaces@[j as int].on_link(
            source,
        ) && exists|k: int|
            #![trigger ifaces@[k]]
            0 <= k < ifaces@.len() && ifaces@[k].on_link(source)),
        forall|a: int, b: int| #![trigger r@[a], r@[b]] 0 <= a < b < r@.len() ==> r@[a] < r@[b],
{
    assert(ifaces@.len() == ifaces.len());
    targets_are_the_qualifying_interfaces(recv_idx, source, ifaces@, ifaces@.len());
    if j < ifaces@.len() {
        assert(r@.contains((j as int) as usize) == is_target(recv_idx, source, ifaces@, j as int));
    } else if r@.contains(j) {
        let k = choose|k: int| 0 <= k < r@.len() && r@[k] == j;
        assert(r@[k] < ifaces@.len());
    }
}

/// The sockets, families and destinations of interfaces are those that their laws speak of.
pub proof fn interfaces_are_set_up_as_planned(
    pkt: &Datagram,
    ifaces: &Vec<Iface>,
    idx: Option<usize>,
    steps: Vec<SetupStep>,
    f: &Iface,
    ip: IpAddr,
    b: bool,
    families: Vec<IpFamily>,
    family: IpFamily,
    target: Option<MulticastTarget>,
)
    ensures
        call_ensures(identify_recv_iface, (pkt, ifaces), idx) ==> idx == recv_iface(
            pkt.source.ip,
            pkt.recv_ifindex,
            ifaces@,
        ),
        call_ensures(setup, (ifaces,), steps) ==> steps@ == all_steps(ifaces@),
        call_ensures(Iface::has_addr, (f, ip), b) ==> b == f.owns(ip),
        call_ensures(Iface::contains, (f, ip), b) ==> b == f.on_link(ip),
        call_ensures(Iface::families, (f,), families) ==> families@ == f.family_seq(),
        call_ensures(Iface::multicast_target, (f, family), target) ==> target == f.target_of(
            family,
        ),
{
}

/// The sends of a message count where they succeeded.
pub proof fn tallies_count_the_successes(results: &Vec<bool>, r: Option<usize>)
    requires
        call_ensures(tally_sends, (results,), r),
        successes(results@) <= usize::MAX,
    ensures
        r is Some <==> successes(results@) > 0,
        r is Some ==> r->0 == successes(results@),
{
}

/// An interface is found when the system's list has an address of use for it, and has the
/// first of each family.
pub proof fn discovering_takes_the_first_addresses(
    name: String,
    ifindex: u32,
    entries: &Vec<AddrEntry>,
    r: Option<Iface>,
)
    requires
        call_ensures(discover, (name, ifindex, entries), r),
    ensures
        ({
            let v4 = first_of(entries@, name@, |e: AddrEntry| entry_v4(e));
            let v6 = first_of(entries@, name@, |e: AddrEntry| entry_v6(e, ifindex));
            &&& r is Some <==> v4 is Some || v6 is Some
            &&& r is Some ==> r->0.name@ == name@ && r->0.ifindex == ifindex && r->0.v4 == v4
                && r->0.v6 == v6
        }),
{
}

/// A configuration without faults is taken over field by field, its filters as the subnets
/// that their texts denote; one with a fault is refused for it.
pub proof fn parsing_takes_the_configuration_over(
    raw: RawConfig,
    r: Result<Resolved, ConfigError>,
    i: int,
)
    requires
        call_ensures(Resolved::parse, (raw,), r),
    ensures
        r is Ok <==> config_fault(raw) is None,
        r matches Err(e) ==> config_fault(raw) == Some(e@),
        r matches Ok(c) ==> {
            &&& c.interfaces@ == raw.interfaces@
            &&& c.repeat == raw.repeat
            &&& c.answer_from_cache == raw.answer_from_cache
            &&& c.hostname == raw.hostname
            &&& c.browse@ == raw.browse@
            &&& c.browse_interval_secs == raw.browse_interval_secs
            &&& c.cache_tick_secs == raw.cache_tick_secs
            &&& c.max_cache_entries == raw.max_cache_entries
            &&& c.cache_max_ttl_secs == raw.cache_max_ttl_secs
            &&& c.services@ == raw.services@
            &&& c.blacklist@.len() == raw.blacklist@.len()
            &&& c.whitelist@.len() == raw.whitelist@.len()
            &&& 0 <= i < raw.blacklist@.len() ==> subnet_of(raw.blacklist@[i]@) == Ok::<
                Subnet,
                SubnetFault,
            >(c.blacklist@[i])
            &&& 0 <= i < raw.whitelist@.len() ==> subnet_of(raw.whitelist@[i]@) == Ok::<
                Subnet,
                SubnetFault,
            >(c.whitelist@[i])
        },
{
}

/// A subnet is read as its text denotes it, or refused with the text and the reason; and a
/// source is let in by the filters that are configured.
pub proof fn filtering_follows_the_subnets(
    s: &str,
    r: Result<Subnet, ConfigError>,
    c: &Resolved,
    ip: IpAddr,
    b: bool,
    n: &Subnet,
    a: Ipv4Addr,
)
    ensures
        call_ensures(parse_subnet, (s,), r) ==> match r {
            Ok(n) => subnet_of(s@) == Ok::<Subnet, SubnetFault>(n),
            Err(e) => subnet_of(s@) is Err && e@ == (ConfigFault::BadSubnet {
                text: s@,
                why: subnet_fault_text(subnet_of(s@)->Err_0),
            }),
        },
        call_ensures(Resolved::allow_source, (c, ip), b) && c.whitelist@.len() > 0 ==> (b
            <==> exists|s: Subnet| #[trigger]
            c.whitelist@.contains(s) && ip is V4 && s.has(ip->V4_0)),
        call_ensures(Resolved::allow_source, (c, ip), b) && c.whitelist@.len() == 0 ==> (b
            <==> forall|s: Subnet| #[trigger]
            c.blacklist@.contains(s) ==> !(ip is V4 && s.has(ip->V4_0))),
        call_ensures(Subnet::matches, (n, a), b) ==> (b <==> a.bits & n.mask.bits == n.net.bits),
{
    sources_are_allowed_by_any_listed_subnet(*c, ip);
}

/// What a configuration leaves out.
pub proof fn defaults_are_as_documented(b: bool, secs: u64, n: usize, v: Vec<String>)
    ensures
        call_ensures(default_true, (), b) ==> b,
        call_ensures(default_browse_secs, (), secs) ==> secs == 60,
        call_ensures(default_cache_tick, (), secs) ==> secs == 5,
        call_ensures(default_max_cache_entries, (), n) ==> n == 4096,
        call_ensures(default_browse, (), v) ==> v@.len() == 1 && v@[0]@
            == "_services._dns-sd._udp.local."@,
{
}

/// The host name is the configured one, or else the system's, or else `router`, up to its
/// first dot and under `local.`
pub proof fn resolving_prefers_the_configured_name(
    explicit: &Option<String>,
    system: &Option<String>,
    r: Name,
)
    requires
        call_ensures(resolve_hostname_from, (explicit, system), r),
    ensures
        explicit matches Some(s) ==> r@ == hostname_of(s@),
        explicit is None && system is Some ==> r@ == hostname_of(system->0@),
        explicit is None && system is None ==> r@ == hostname_of("router"@),
{
}

/// Browsing asks for every target that is a name, waits as its laws say, and does not begin
/// without targets.
pub proof fn browsing_asks_for_every_name(
    browse: &Vec<String>,
    names: Vec<Name>,
    i: int,
    m: Message,
    n: usize,
    start: BrowseState,
    delay: u64,
    cap: u64,
    next: u64,
    state: BrowseState,
    event: BrowseEvent,
    secs: u64,
)
    ensures
        call_ensures(browse_names, (browse,), names) && 0 <= i < browse@.len() && parsed_name(
            browse@[i]@,
        ) is Some ==> views(names@).contains(parsed_name(browse@[i]@)->0),
        call_ensures(browse_names, (browse,), names) && 0 <= i < names@.len() ==> exists|k: int|
            #![trigger browse@[k]]
            0 <= k < browse@.len() && parsed_name(browse@[k]@) == Some(names@[i]@),
        call_ensures(query_message, (&names,), m) ==> m@.message_type == MessageType::Query
            && m@.id == 0 && m@.queries.len() == names@.len() && m@.answers.len() == 0
            && m@.authorities.len() == 0 && m@.additionals.len() == 0 && (0 <= i < names@.len()
            ==> m@.queries[i] == (QuestionView {
            name: names@[i]@,
            qtype: RecordType::PTR,
            qclass: 1,
            unicast_response: false,
        })),
        call_ensures(browse_start, (n,), start) ==> (start == BrowseState::Done <==> n == 0) && (n
            > 0 ==> start == BrowseState::FirstWait),
        call_ensures(next_delay, (delay, cap), next) ==> next == (if 2 * delay < cap {
            2 * delay
        } else {
            cap as int
        }),
        call_ensures(browse_next, (state, event, secs), start) ==> start == browse_after(
            state,
            event,
            if secs == 0 { 1 } else { secs },
        ),
{
    let f = |s: String| parsed_name(s@);
    if call_ensures(browse_names, (browse,), names) {
        if 0 <= i < browse@.len() && parsed_name(browse@[i]@) is Some {
            lemma_filter_map_has(browse@, f, i);
        }
        if 0 <= i < names@.len() {
            assert(views(names@)[i] == names@[i]@);
            assert(views(names@).contains(names@[i]@));
            let k = lemma_filter_map_from(browse@, f, names@[i]@);
            assert(parsed_name(browse@[k]@) == Some(names@[i]@));
        }
    }
}

/// The check before the start finds what the daemon would, and the pidfile is read as a number
/// with white space around it.
pub proof fn checks_find_what_the_daemon_would(
    config: &Resolved,
    r: Result<(), PreflightError>,
    contents: &str,
    pid: Option<i32>,
)
    ensures
        call_ensures(preflight, (config,), r) ==> (r is Ok <==> preflight_fault(*config) is None),
        call_ensures(preflight, (config,), r) && r is Err ==> preflight_fault(*config) == Some(
            r->Err_0@,
        ),
        call_ensures(parse_pid, (contents,), pid) ==> pid == signed(
            trimmed(contents@),
        ),
{
}

/// Messages are written whole and read back as they were, as far as peers can read them.
pub proof fn messages_are_written_and_read_back(
    m: &Message,
    w: Result<Vec<u8>, ProtoError>,
    bytes: &[u8],
    back: Message,
    e: DecodeError,
)
    ensures
        call_ensures(Message::to_vec, (m,), w) ==> match w {
            Ok(b) => encoded(sent(m@)) == Some(b@) && (legible(m@) ==> decoded(b@) == Some(m@)),
            Err(_) => encoded(sent(m@)) is None && !legible(m@),
        },
        call_ensures(Message::from_vec, (bytes,), Ok(back)) ==> decoded(bytes@) == Some(back@),
        call_ensures(Message::from_vec, (bytes,), Err(e)) ==> decoded(bytes@) is None,
{
}

/// Records are the same resource by name, type, class and data, and data by what decides it.
pub proof fn records_are_told_apart_by_their_identity(
    a: &Record,
    b: &Record,
    k: RecordKey,
    l: RecordKey,
    x: &RData,
    y: &RData,
    same: bool,
)
    ensures
        call_ensures(RecordKey::of, (a,), k) && call_ensures(RecordKey::of, (b,), l) ==> (k@ == l@
            <==> a@.key() == b@.key()),
        call_ensures(rdata_eq, (x, y), same) ==> (same <==> x@.folded() == y@.folded()),
{
}

/// Values are made as their parts say: types from and to their numbers, records of the
/// Internet class without the cache-flush bit, messages without anything in them.
pub proof fn values_are_made_of_their_parts(
    code: u16,
    t: RecordType,
    name: Name,
    ttl: u32,
    data: RData,
    r: Record,
    id: u16,
    kind: MessageType,
    m: Message,
)
    ensures
        call_ensures(RecordType::from_code, (code,), t) ==> t.number() == code,
        call_ensures(RecordType::code, (t,), code) ==> t.number() == code,
        call_ensures(Record::from_rdata, (name, ttl, data), r) ==> r@ == (RecordView {
            name: name@,
            class: 1,
            ttl,
            cache_flush: false,
            data: data@,
        }),
        call_ensures(Message::new, (id, kind), m) ==> m@.id == id && m@.message_type == kind
            && !m@.authoritative && !m@.truncation && m@.queries.len() == 0 && m@.answers.len()
            == 0 && m@.authorities.len() == 0 && m@.additionals.len() == 0,
{
}

/// Names are put together label by label: those of the first before those of the second; what
/// would be too long, or has labels that are, is refused.
pub proof fn names_are_put_together_label_by_label(
    a: &Name,
    b: &Name,
    labels: &Vec<Vec<u8>>,
    r: Result<Name, ProtoError>,
)
    ensures
        call_ensures(Name::append_name, (a, b), r) ==> match r {
            Ok(n) => n@.labels == a@.labels + b@.labels && n@.fqdn == b@.fqdn && n@.valid(),
            Err(_) => crate::dns::label_octets(a@.labels + b@.labels) > 254,
        },
        call_ensures(Name::from_labels, (labels,), r) ==> match r {
            Ok(n) => n@.labels == views(labels@) && n@.fqdn && n@.valid(),
            Err(_) => !(NameView { labels: views(labels@), fqdn: true }).valid(),
        },
{
}

/// Multicasts go to the groups of RFC 6762, and come from its port.
pub proof fn groups_are_those_prescribed(a: SocketAddr, b: SocketAddr, s: &SocketAddr, r: bool)
    ensures
        call_ensures(mdns_sockaddr_v4, (), a) ==> a.port == 5353 && a.ip == IpAddr::V4(
            Ipv4Addr { bits: 0xe000_00fb },
        ),
        call_ensures(mdns_sockaddr_v6, (), b) ==> b.port == 5353 && b.ip == IpAddr::V6(
            Ipv6Addr { bits: 0xff02_0000_0000_0000_0000_0000_0000_00fb },
        ),
        call_ensures(is_mdns_source, (s,), r) ==> (r <==> s.port == 5353),
{
}

/// The addresses of an interface are the first of use in the system's list, one per family;
/// networks and prefix lengths are those that their laws speak of.
pub proof fn addresses_are_taken_from_the_list(
    name: &String,
    ifindex: u32,
    entries: &Vec<AddrEntry>,
    r: (Option<IfaceV4>, Option<IfaceV6>),
    a: Ipv6Addr,
    n: u8,
    net: Ipv6Addr,
)
    ensures
        call_ensures(iface_addrs, (name, ifindex, entries), r) ==> r.0 == first_of(
            entries@,
            name@,
            |e: AddrEntry| entry_v4(e),
        ) && r.1 == first_of(entries@, name@, |e: AddrEntry| entry_v6(e, ifindex)),
        call_ensures(ipv6_net, (a, n), net) ==> net.bits == net_v6(a.bits, n),
        call_ensures(ipv6_prefix_len, (a,), n) ==> is_prefix_len(a.bits, n),
{
}

/// All answers are unique when each is, and some are when one is, whatever its place.
pub proof fn uniqueness_is_that_of_the_records(answers: &Vec<Record>, r: (bool, bool))
    requires
        call_ensures(answer_uniqueness, (answers,), r),
    ensures
        r.0 <==> forall|x: RecordView| #[trigger] views(answers@).contains(x) ==> x.cache_flush,
        r.1 <==> exists|x: RecordView| #[trigger] views(answers@).contains(x) && x.cache_flush,
{
    let v = views(answers@);
    assert forall|i: int| 0 <= i < v.len() implies (#[trigger] v[i]) == answers@[i]@ by {}
    if r.0 {
        assert forall|x: RecordView| #[trigger] v.contains(x) implies x.cache_flush by {
            let k = choose|k: int| 0 <= k < v.len() && v[k] == x;
            assert(answers@[k].mdns_cache_flush);
        }
    }
    if forall|x: RecordView| #[trigger] v.contains(x) ==> x.cache_flush {
        assert forall|i: int| #![trigger answers@[i]]
            0 <= i < answers.len() implies answers@[i].mdns_cache_flush by {
            assert(v.contains(v[i]));
        }
    }
    if r.1 {
        let k = choose|k: int|
            #![trigger answers@[k]]
            0 <= k < answers.len() && answers@[k].mdns_cache_flush;
        assert(v.contains(v[k]) && v[k].cache_flush);
    }
    if exists|x: RecordView| #[trigger] v.contains(x) && x.cache_flush {
        let x = choose|x: RecordView| #[trigger] v.contains(x) && x.cache_flush;
        let k = choose|k: int| 0 <= k < v.len() && v[k] == x;
        assert(answers@[k].mdns_cache_flush);
    }
}

/// A configured host name is used whatever the system's is.
pub proof fn configured_host_names_are_used(explicit: &Option<String>, r: Name)
    requires
        call_ensures(resolve_hostname, (explicit,), r),
    ensures
        explicit matches Some(s) ==> r@ == hostname_of(s@),
{
}

} // verus!
