//! Laws of probing, announcing and browsing.

use vstd::prelude::*;

use vstd::arithmetic::power2::{lemma_pow2_pos, lemma_pow2_unfold, pow2};

use crate::announce::{
    all_marked, distinct_names, has_name, lemma_probe_from_valid, probe_after, probe_from,
    probe_view, round_after, round_begin, ProbeEvent, ProbeState, RoundEvent, RoundState,
};
use crate::browser::{browse_after, browse_view, ceiling, interval_at, BrowseEvent, BrowseState};
use crate::config::Resolved;
use crate::dns::{MessageType, NameView, QuestionView, RecordType, RecordView};
use crate::laws::dns::{names_are_the_same_in_any_case, same_name};
use crate::preflight::{first_bad_target, preflight_fault, PreflightFault};
use crate::services::first_fault;
use crate::timing::{free, slot_of, Slot};
use crate::wire::parsed_name;

verus! {

/// An interface is probed three times: after the random wait, three probes go out with a
/// gap between each two of them, and then the next interface is due.
pub proof fn three_probes_are_sent(wanted: Seq<bool>, iface: usize)
    ensures
        ({
            let ok = ProbeEvent::Proceed;
            let s0 = ProbeState::Jitter { iface };
            let s1 = probe_after(wanted, s0, ok);
            let s2 = probe_after(wanted, s1, ok);
            let s3 = probe_after(wanted, s2, ok);
            let s4 = probe_after(wanted, s3, ok);
            let s5 = probe_after(wanted, s4, ok);
            let s6 = probe_after(wanted, s5, ok);
            &&& s1 == ProbeState::Send { iface, probe: 1 }
            &&& s2 == ProbeState::Gap { iface, probe: 1 }
            &&& s3 == ProbeState::Send { iface, probe: 2 }
            &&& s4 == ProbeState::Gap { iface, probe: 2 }
            &&& s5 == ProbeState::Send { iface, probe: 3 }
            &&& s6 == probe_from(wanted, iface + 1)
        }),
{
}

/// After a probe that could not be sent, no further probe goes out on the interface.
pub proof fn failed_probe_ends_the_interface(wanted: Seq<bool>, iface: usize, probe: u8)
    requires
        iface < wanted.len() <= usize::MAX,
    ensures
        ({
            let next = probe_after(
                wanted,
                ProbeState::Send { iface, probe },
                ProbeEvent::SendFailed,
            );
            next is Done || (next matches ProbeState::Jitter { iface: i } && i > iface)
        }),
{
    lemma_probe_from_valid(wanted, iface + 1);
}

/// The interfaces that have something to probe for are probed in order, and none of them
/// is left out.
pub proof fn no_interface_is_skipped(wanted: Seq<bool>, from: int)
    requires
        0 <= from <= wanted.len() <= usize::MAX,
    ensures
        match probe_from(wanted, from) {
            ProbeState::Jitter { iface } => {
                &&& from <= iface < wanted.len()
                &&& wanted[iface as int]
                &&& forall|k: int| #![trigger wanted[k]] from <= k < iface ==> !wanted[k]
            },
            ProbeState::Done => forall|k: int|
                #![trigger wanted[k]]
                from <= k < wanted.len() ==> !wanted[k],
            _ => false,
        },
{
    lemma_probe_from_valid(wanted, from);
}

/// The state of announcing after `k` steps without a shutdown.
pub open spec fn round_at(n: usize, k: nat) -> RoundState
    decreases k,
{
    if k == 0 {
        round_begin(n, 0)
    } else {
        round_after(n, round_at(n, (k - 1) as nat), RoundEvent::Proceed)
    }
}

/// Everything is announced twice: once on every interface in order, then after a gap once
/// more on every interface, and then no more.
pub proof fn announcements_are_sent_twice(n: usize, k: nat)
    requires
        n < usize::MAX,
    ensures
        round_at(n, k) == (if k < n {
            RoundState::Send { round: 0, iface: k as usize }
        } else if k == n {
            RoundState::Gap { round: 0 }
        } else if k <= 2 * n {
            RoundState::Send { round: 1, iface: (k - n - 1) as usize }
        } else {
            RoundState::Done
        }),
    decreases k,
{
    if k > 0 {
        announcements_are_sent_twice(n, (k - 1) as nat);
    }
}

/// A shutdown during the wait between announcements ends them.
pub proof fn shutdown_ends_announcing(n: usize, round: u8)
    ensures
        round_after(n, RoundState::Gap { round }, RoundEvent::Cancelled) == RoundState::Done,
{
}

proof fn lemma_all_marked(
    last: Map<Slot, int>,
    ifindex: u32,
    records: Seq<RecordView>,
    now: u128,
    i: int,
)
    requires
        0 <= i < records.len(),
    ensures
        all_marked(last, ifindex, records, now).contains_key(slot_of(ifindex, records[i])),
        all_marked(last, ifindex, records, now)[slot_of(ifindex, records[i])] == now as int,
    decreases records.len(),
{
    if i < records.len() - 1 {
        let rest = records.drop_last();
        assert(rest[i] == records[i]);
        lemma_all_marked(last, ifindex, rest, now, i);
    }
}

/// A record that was just announced is not multicast on that interface as an answer
/// before the interval is over.
pub proof fn announced_records_are_rate_limited(
    last: Map<Slot, int>,
    ifindex: u32,
    records: Seq<RecordView>,
    now: u128,
    i: int,
    later: u128,
    interval: u128,
)
    requires
        0 <= i < records.len(),
        now <= later,
        later - now < interval,
    ensures
        !free(
            all_marked(last, ifindex, records, now),
            slot_of(ifindex, records[i]),
            later,
            interval,
        ),
{
    lemma_all_marked(last, ifindex, records, now, i);
}

/// The names that are probed for are those of the records, and each occurs once.
pub proof fn probed_names_are_those_of_the_records(records: Seq<RecordView>)
    ensures
        forall|i: int| #![trigger records[i]]
            0 <= i < records.len() ==> has_name(distinct_names(records), records[i].name),
        forall|i: int, j: int|
            #![trigger distinct_names(records)[i], distinct_names(records)[j]]
            0 <= i < j < distinct_names(records).len() ==> distinct_names(records)[i].folded()
                != distinct_names(records)[j].folded(),
        forall|k: int| #![trigger distinct_names(records)[k]]
            0 <= k < distinct_names(records).len() ==> exists|i: int|
                #![trigger records[i]]
                0 <= i < records.len() && records[i].name == distinct_names(records)[k],
    decreases records.len(),
{
    if records.len() > 0 {
        let rest = records.drop_last();
        probed_names_are_those_of_the_records(rest);
        let before = distinct_names(rest);
        let out = distinct_names(records);
        assert forall|i: int| #![trigger records[i]] 0 <= i < records.len() implies has_name(
            out,
            records[i].name,
        ) by {
            if i < rest.len() {
                assert(rest[i] == records[i]);
                let k = choose|k: int|
                    #![trigger before[k]]
                    0 <= k < before.len() && before[k].folded() == records[i].name.folded();
                assert(out[k] == before[k]);
            } else if has_name(before, records.last().name) {
            } else {
                assert(out[before.len() as int] == records.last().name);
            }
        }
        assert forall|k: int| #![trigger out[k]] 0 <= k < out.len() implies exists|i: int|
            #![trigger records[i]]
            0 <= i < records.len() && records[i].name == out[k] by {
            if k < before.len() {
                assert(out[k] == before[k]);
                let i = choose|i: int|
                    #![trigger rest[i]]
                    0 <= i < rest.len() && rest[i].name == before[k];
                assert(records[i] == rest[i]);
            } else {
                assert(records[records.len() - 1].name == out[k]);
            }
        }
    }
}

/// A probe asks for every type of each name, with the unicast-response bit, and proposes
/// the records in its authority section (RFC 6762 section 8.1).
pub proof fn probes_have_the_prescribed_form(id: u16, unique: Seq<RecordView>, i: int)
    requires
        0 <= i < probe_view(id, unique).queries.len(),
    ensures
        probe_view(id, unique).queries[i].qtype == RecordType::ANY,
        probe_view(id, unique).queries[i].unicast_response,
        probe_view(id, unique).authorities == unique,
{
}

/// The interval between queries doubles until it reaches the ceiling, and stays there: it
/// is the smaller of the ceiling and the power of two.
pub proof fn browse_intervals_double_up_to_the_ceiling(n: nat, cap: u64)
    requires
        cap >= 1,
    ensures
        1 <= interval_at(n, cap) <= cap,
        interval_at(n, cap) <= interval_at(n + 1, cap),
        interval_at(n + 1, cap) == (if 2 * interval_at(n, cap) < cap {
            2 * interval_at(n, cap)
        } else {
            cap as int
        }),
        interval_at(n, cap) == cap ==> interval_at(n + 1, cap) == cap,
    decreases n,
{
    if n > 0 {
        browse_intervals_double_up_to_the_ceiling((n - 1) as nat, cap);
    }
}

/// The state of browsing after `k` steps without a shutdown.
pub open spec fn browse_at(k: nat, cap: u64) -> BrowseState
    decreases k,
{
    if k == 0 {
        BrowseState::FirstWait
    } else {
        browse_after(browse_at((k - 1) as nat, cap), BrowseEvent::Proceed, cap)
    }
}

/// Browsing goes on until shutdown: a query, then a wait, and each wait as long as the
/// series of intervals says.
pub proof fn browsing_follows_the_intervals(k: nat, cap: u64)
    ensures
        browse_at(2 * k + 1, cap) == (BrowseState::Query { delay: interval_at(k, cap) }),
        browse_at(2 * k + 2, cap) == (BrowseState::Wait { delay: interval_at(k, cap) }),
    decreases k,
{
    if k > 0 {
        browsing_follows_the_intervals((k - 1) as nat, cap);
        assert(browse_at(2 * k, cap) == (BrowseState::Wait {
            delay: interval_at((k - 1) as nat, cap),
        }));
        assert(browse_at(2 * k + 1, cap) == (BrowseState::Query { delay: interval_at(k, cap) }));
    } else {
        assert(browse_at(0, cap) == BrowseState::FirstWait);
        assert(browse_at(1, cap) == (BrowseState::Query { delay: 1 }));
    }
}

/// A shutdown ends browsing in any state.
pub proof fn shutdown_ends_browsing(state: BrowseState, cap: u64)
    ensures
        browse_after(state, BrowseEvent::Cancelled, cap) == BrowseState::Done,
        browse_after(BrowseState::Done, BrowseEvent::Proceed, cap) == BrowseState::Done,
{
}

/// Announcing a list of records notes the time for each of them on the interface, wherever it
/// stands in the list, and changes nothing else.
pub proof fn announcing_notes_every_record(
    last: Map<Slot, int>,
    ifindex: u32,
    records: Seq<RecordView>,
    now: u128,
    s: Slot,
)
    ensures
        ({
            let m = all_marked(last, ifindex, records, now);
            let noted = exists|r: RecordView| #[trigger]
                records.contains(r) && s == (Slot { ifindex, key: r.key() });
            &&& noted ==> m.contains_key(s) && m[s] == now
            &&& !noted ==> m.contains_key(s) == last.contains_key(s)
            &&& !noted && m.contains_key(s) ==> m[s] == last[s]
        }),
    decreases records.len(),
{
    let m = all_marked(last, ifindex, records, now);
    if exists|r: RecordView| #[trigger]
        records.contains(r) && s == (Slot { ifindex, key: r.key() }) {
        let r = choose|r: RecordView| #[trigger]
            records.contains(r) && s == (Slot { ifindex, key: r.key() });
        let i = choose|i: int| 0 <= i < records.len() && records[i] == r;
        lemma_all_marked(last, ifindex, records, now, i);
    } else if records.len() > 0 {
        let rest = records.drop_last();
        assert forall|r: RecordView| #[trigger] rest.contains(r) implies records.contains(r) by {
            let k = choose|k: int| 0 <= k < rest.len() && rest[k] == r;
            assert(records[k] == r);
        }
        announcing_notes_every_record(last, ifindex, rest, now, s);
        assert(records[records.len() - 1] == records.last());
        assert(records.contains(records.last()));
    }
}

/// A probe is a query with the identifier, asks once for each name to be probed for, in the
/// Internet class, for all types and with a unicast response, and proposes just the records.
pub proof fn probes_ask_for_each_name(id: u16, unique: Seq<RecordView>, i: int)
    ensures
        ({
            let m = probe_view(id, unique);
            &&& m.id == id
            &&& m.message_type == MessageType::Query
            &&& !m.authoritative && !m.truncation
            &&& m.answers.len() == 0 && m.additionals.len() == 0
            &&& m.authorities == unique
            &&& m.queries.len() == distinct_names(unique).len()
            &&& 0 <= i < m.queries.len() ==> m.queries[i] == (QuestionView {
                name: distinct_names(unique)[i],
                qtype: RecordType::ANY,
                qclass: 1,
                unicast_response: true,
            })
        }),
{
}

/// Every name of the records is asked for in some question of the probe, and no two questions
/// ask for the same name, in whatever case it is written.
pub proof fn every_name_is_probed_once(
    id: u16,
    unique: Seq<RecordView>,
    r: RecordView,
    i: int,
    j: int,
)
    ensures
        unique.contains(r) ==> exists|q: QuestionView| #[trigger]
            probe_view(id, unique).queries.contains(q) && same_name(q.name, r.name),
        0 <= i < j < probe_view(id, unique).queries.len() ==> !same_name(
            probe_view(id, unique).queries[i].name,
            probe_view(id, unique).queries[j].name,
        ),
{
    let names = distinct_names(unique);
    let queries = probe_view(id, unique).queries;
    probed_names_are_those_of_the_records(unique);
    if unique.contains(r) {
        let k = choose|k: int| 0 <= k < unique.len() && unique[k] == r;
        assert(has_name(names, unique[k].name));
        let n = choose|n: int|
            #![trigger names[n]]
            0 <= n < names.len() && names[n].folded() == r.name.folded();
        names_are_the_same_in_any_case(names[n], r.name);
        assert(queries[n].name == names[n]);
        assert(queries.contains(queries[n]));
    }
    if 0 <= i < j < queries.len() {
        assert(queries[i].name == names[i] && queries[j].name == names[j]);
        names_are_the_same_in_any_case(names[i], names[j]);
    }
}

/// The names keep the order of their first occurrence: further records add names at the end.
pub proof fn probed_names_keep_their_order(first: Seq<RecordView>, then: Seq<RecordView>)
    ensures
        distinct_names(first).is_prefix_of(distinct_names(first + then)),
    decreases then.len(),
{
    if then.len() == 0 {
        assert(first + then =~= first);
    } else {
        let all = first + then;
        probed_names_keep_their_order(first, then.drop_last());
        assert(all.drop_last() =~= first + then.drop_last());
    }
}

/// The waits of probing and the sends of announcing go on whatever comes of them; only a
/// failed probe and a shutdown between two announcements make a difference.
pub proof fn other_events_change_nothing(
    wanted: Seq<bool>,
    iface: usize,
    probe: u8,
    event: ProbeEvent,
    n: usize,
    round: u8,
    other: RoundEvent,
)
    requires
        probe < 255,
    ensures
        probe_after(wanted, ProbeState::Jitter { iface }, event) == (ProbeState::Send {
            iface,
            probe: 1,
        }),
        probe_after(wanted, ProbeState::Gap { iface, probe }, event) == (ProbeState::Send {
            iface,
            probe: (probe + 1) as u8,
        }),
        probe_after(wanted, ProbeState::Done, event) == ProbeState::Done,
        iface + 1 < n ==> round_after(n, RoundState::Send { round, iface }, other) == (
        RoundState::Send { round, iface: (iface + 1) as usize }),
        iface + 1 >= n ==> round_after(n, RoundState::Send { round, iface }, other) == (if round
            == 0 {
            RoundState::Gap { round }
        } else {
            RoundState::Done
        }),
        round_after(n, RoundState::Done, other) == RoundState::Done,
{
}

/// The interval before each further query is the power of two, up to the ceiling.
pub proof fn browse_intervals_are_powers_of_two(n: nat, cap: u64)
    requires
        cap >= 1,
    ensures
        interval_at(n, cap) == (if pow2(n) < cap {
            pow2(n) as int
        } else {
            cap as int
        }),
    decreases n,
{
    if n == 0 {
        vstd::arithmetic::power2::lemma2_to64();
    } else {
        browse_intervals_are_powers_of_two((n - 1) as nat, cap);
        lemma_pow2_unfold(n);
        lemma_pow2_pos((n - 1) as nat);
    }
}

/// The ceiling is the configured interval, and a second where that is zero.
pub proof fn ceilings_are_at_least_a_second(secs: u64)
    ensures
        ceiling(0) == 1,
        secs >= 1 ==> ceiling(secs) == secs,
{
}

/// A browse query asks for the pointers of every target, in order, in the Internet class, and
/// holds nothing else.
pub proof fn every_target_is_browsed(names: Seq<NameView>, i: int)
    ensures
        ({
            let m = browse_view(names);
            &&& m.id == 0
            &&& m.message_type == MessageType::Query
            &&& !m.authoritative && !m.truncation
            &&& m.answers.len() == 0 && m.authorities.len() == 0 && m.additionals.len() == 0
            &&& m.queries.len() == names.len()
            &&& 0 <= i < names.len() ==> m.queries[i] == (QuestionView {
                name: names[i],
                qtype: RecordType::PTR,
                qclass: 1,
                unicast_response: false,
            })
        }),
{
}

proof fn lemma_first_target(browse: Seq<String>, i: int)
    requires
        0 <= i <= browse.len(),
        forall|k: int| #![trigger browse[k]] 0 <= k < i ==> parsed_name(browse[k]@) is Some,
    ensures
        i == browse.len() ==> first_bad_target(browse) is None,
        i < browse.len() && parsed_name(browse[i]@) is None ==> first_bad_target(browse) == Some(
            browse[i]@,
        ),
    decreases browse.len(),
{
    if browse.len() > 0 {
        let rest = browse.drop_last();
        assert forall|k: int| #![trigger rest[k]]
            0 <= k < i && k < rest.len() implies parsed_name(rest[k]@) is Some by {
            assert(rest[k] == browse[k]);
        }
        if i < browse.len() {
            lemma_first_target(rest, i);
            if i < rest.len() {
                assert(rest[i] == browse[i]);
            }
        } else {
            lemma_first_target(rest, rest.len() as int);
            assert(browse.last() == browse[browse.len() - 1]);
        }
    }
}

/// The names of a configuration are refused for the first fault of its services, or else for
/// the first browse target that is no name; and only for these.
pub proof fn bad_names_are_found_before_the_start(config: Resolved, i: int)
    ensures
        first_fault(config.services@) matches Some(f) ==> preflight_fault(config) == Some(
            PreflightFault::Service(f),
        ),
        first_fault(config.services@) is None && 0 <= i < config.browse@.len() && parsed_name(
            config.browse@[i]@,
        ) is None && (forall|k: int| #![trigger config.browse@[k]]
            0 <= k < i ==> parsed_name(config.browse@[k]@) is Some) ==> preflight_fault(config)
            == Some(PreflightFault::Browse { target: config.browse@[i]@ }),
        first_fault(config.services@) is None && (forall|k: int| #![trigger config.browse@[k]]
            0 <= k < config.browse@.len() ==> parsed_name(config.browse@[k]@) is Some)
            ==> preflight_fault(config) is None,
{
    let browse = config.browse@;
    if 0 <= i < browse.len() && (forall|k: int| #![trigger browse[k]]
        0 <= k < i ==> parsed_name(browse[k]@) is Some) {
        lemma_first_target(browse, i);
    }
    if forall|k: int| #![trigger browse[k]]
        0 <= k < browse.len() ==> parsed_name(browse[k]@) is Some {
        lemma_first_target(browse, browse.len() as int);
    }
}

} // verus!
