//! Probing for the daemon's records, announcing them, and taking them back
//! (RFC 6762 sections 8.1, 8.3 and 10.1).
//!
//! The order of sends and waits is kept by two small state machines. The program
//! around them performs the action of the present state, and moves on with what
//! came of it.

use vstd::prelude::*;

use std::time::Instant;

use crate::clock::MAX_TIME;
use crate::dns::{
    Message, MessageType, MessageView, Name, NameView, Question, QuestionView, Record, RecordType,
    RecordView, CLASS_IN,
};
use crate::iface::Iface;
use crate::random::random_id;
use crate::responder::{response_message, response_written};
use crate::seqs::{lemma_views_push, views};
use crate::services::{
    goodbye, goodbyes, host_records_on, uniques_on, Published, PublishedView, ServiceRecordsView,
};
use crate::timing::{jitter_0_to_max, millis_within, slot_of, MulticastTracker, Slot};
use crate::timing::{ANNOUNCE_GAP, PROBE_INITIAL_MAX, PROBE_INTERVAL};
use crate::wire::{decoded, encoded, legible, sent};

use hickory_proto::ProtoError;

verus! {

/// The records of a service that are announced.
pub open spec fn service_announcement(s: ServiceRecordsView) -> Seq<RecordView> {
    seq![s.ptr_type_to_instance, s.ptr_meta_to_type, s.srv, s.txt]
}

/// The records that are announced on an interface.
pub open spec fn announced(p: PublishedView, iface: Iface) -> Seq<RecordView> {
    host_records_on(p, iface) + p.services.flat_map(
        |s: ServiceRecordsView| service_announcement(s),
    )
}

fn push_copy(out: &mut Vec<Record>, r: &Record)
    ensures
        views(final(out)@) == views(old(out)@).push(r@),
{
    let copy = r.clone();
    proof {
        lemma_views_push(out@, copy);
    }
    out.push(copy);
}

/// The unsolicited response that announces the records of `iface`.
pub fn announce_message(pub_records: &Published, iface: &Iface) -> (r: Message)
    ensures
        r@ == response_message(0, announced(pub_records@, *iface), Seq::empty()),
{
    let ghost f = |s: ServiceRecordsView| service_announcement(s);
    let ghost all = pub_records@.services;
    let mut out = pub_records.host_records_for_iface(iface);
    let ghost start = views(out@);
    let mut i: usize = 0;
    assert(all.take(0) =~= Seq::<ServiceRecordsView>::empty());
    assert(start + all.take(0).flat_map(f) =~= start);
    while i < pub_records.services.len()
        invariant
            i <= pub_records.services.len(),
            f == (|s: ServiceRecordsView| service_announcement(s)),
            all == pub_records@.services,
            views(out@) == start + all.take(i as int).flat_map(f),
        decreases pub_records.services.len() - i,
    {
        let s = &pub_records.services[i];
        let ghost before = views(out@);
        push_copy(&mut out, &s.ptr_type_to_instance);
        push_copy(&mut out, &s.ptr_meta_to_type);
        push_copy(&mut out, &s.srv);
        push_copy(&mut out, &s.txt);
        assert(views(out@) =~= before + f(all[i as int]));
        proof {
            all.lemma_flat_map_take_append(f, i as int);
        }
        i += 1;
        assert(views(out@) =~= start + all.take(i as int).flat_map(f));
    }
    assert(all.take(i as int) =~= all);
    let mut msg = Message::new(0, MessageType::Response);
    msg.authoritative = true;
    msg.answers = out;
    assert(msg@ =~= response_message(0, announced(pub_records@, *iface), Seq::empty()));
    msg
}

/// Writes the announcement for `iface`; nothing when there is nothing to announce, or it
/// cannot be written.
pub fn build_announce(pub_records: &Published, iface: &Iface) -> (r: Option<Vec<u8>>)
    ensures
        response_written(r, 0, announced(pub_records@, *iface), Seq::empty()),
{
    let msg = announce_message(pub_records, iface);
    assert(msg@.answers.len() == msg.answers.len());
    if msg.answers.len() == 0 {
        return None;
    }
    match msg.to_vec() {
        Ok(b) => Some(b),
        Err(_) => None,
    }
}

/// The multicasts after `records` were multicast on an interface.
pub open spec fn all_marked(
    last: Map<Slot, int>,
    ifindex: u32,
    records: Seq<RecordView>,
    now: u128,
) -> Map<Slot, int>
    decreases records.len(),
{
    if records.len() == 0 {
        last
    } else {
        all_marked(last, ifindex, records.drop_last(), now).insert(
            slot_of(ifindex, records.last()),
            now as int,
        )
    }
}

/// Notes at time `now` that the unique records of `iface` were announced on it.
pub fn mark_announced_at(
    tracker: &mut MulticastTracker,
    pub_records: &Published,
    iface: &Iface,
    now: u128,
)
    ensures
        final(tracker)@ == all_marked(
            old(tracker)@,
            iface.ifindex,
            uniques_on(pub_records@, *iface),
            now,
        ),
        final(tracker).clock() == old(tracker).clock(),
{
    let records = pub_records.unique_for_iface(iface);
    let ghost start = tracker@;
    let ghost clock = tracker.clock();
    let ghost all = views(records@);
    let ifindex: u32 = iface.ifindex;
    let mut i: usize = 0;
    assert(all.take(0) =~= Seq::<RecordView>::empty());
    while i < records.len()
        invariant
            i <= records.len(),
            all == views(records@),
            tracker@ == all_marked(start, ifindex, all.take(i as int), now),
            tracker.clock() == clock,
        decreases records.len() - i,
    {
        assert(all.take(i + 1).drop_last() =~= all.take(i as int));
        assert(all.take(i + 1).last() == records@[i as int]@);
        tracker.mark_at(ifindex, &records[i], now);
        i += 1;
    }
    assert(all.take(i as int) =~= all);
}

/// Notes that the unique records of `iface` were just announced on it.
pub fn mark_announced(tracker: &mut MulticastTracker, pub_records: &Published, iface: &Iface)
    ensures
        exists|instant: Instant|
            old(tracker).time_at(instant) <= MAX_TIME && final(tracker)@ == all_marked(
                old(tracker)@,
                iface.ifindex,
                uniques_on(pub_records@, *iface),
                #[trigger] old(tracker).time_at(instant),
            ),
        final(tracker).clock() == old(tracker).clock(),
{
    let now: u128 = tracker.now();
    mark_announced_at(tracker, pub_records, iface, now)
}

/// The response that takes all published records back.
pub fn goodbye_message(pub_records: &Published) -> (r: Message)
    ensures
        r@ == response_message(0, goodbyes(pub_records@), Seq::empty()),
{
    let mut msg = Message::new(0, MessageType::Response);
    msg.authoritative = true;
    msg.answers = goodbye(pub_records);
    assert(msg@ =~= response_message(0, goodbyes(pub_records@), Seq::empty()));
    msg
}

/// Writes the goodbye of all published records; nothing when there is nothing to take
/// back, or it cannot be written.
pub fn build_goodbye(pub_records: &Published) -> (r: Option<Vec<u8>>)
    ensures
        response_written(r, 0, goodbyes(pub_records@), Seq::empty()),
{
    let msg = goodbye_message(pub_records);
    assert(msg@.answers.len() == msg.answers.len());
    if msg.answers.len() == 0 {
        return None;
    }
    match msg.to_vec() {
        Ok(b) => Some(b),
        Err(_) => None,
    }
}

/// Some name of the list is the same as `name`.
pub open spec fn has_name(names: Seq<NameView>, name: NameView) -> bool {
    exists|i: int| #![trigger names[i]]
        0 <= i < names.len() && names[i].folded() == name.folded()
}

/// The names of the records, each once, in the order of their first occurrence.
pub open spec fn distinct_names(records: Seq<RecordView>) -> Seq<NameView>
    decreases records.len(),
{
    if records.len() == 0 {
        Seq::empty()
    } else {
        let before = distinct_names(records.drop_last());
        if has_name(before, records.last().name) {
            before
        } else {
            before.push(records.last().name)
        }
    }
}

/// A question of a probe: for every type, of the Internet class, with the
/// unicast-response bit.
pub open spec fn probe_question(name: NameView) -> QuestionView {
    QuestionView { name, qtype: RecordType::ANY, qclass: CLASS_IN, unicast_response: true }
}

/// The probe for `unique`: a question for each name, and the records that the daemon
/// proposes in the authority section.
pub open spec fn probe_view(id: u16, unique: Seq<RecordView>) -> MessageView {
    MessageView {
        id,
        message_type: MessageType::Query,
        authoritative: false,
        truncation: false,
        queries: distinct_names(unique).map_values(|n: NameView| probe_question(n)),
        answers: Seq::empty(),
        authorities: unique,
        additionals: Seq::empty(),
    }
}

fn contains_name(names: &Vec<Name>, name: &Name) -> (r: bool)
    ensures
        r == has_name(views(names@), name@),
{
    let mut i: usize = 0;
    while i < names.len()
        invariant
            i <= names.len(),
            forall|k: int| #![trigger views(names@)[k]]
                0 <= k < i ==> views(names@)[k].folded() != name@.folded(),
        decreases names.len() - i,
    {
        assert(views(names@)[i as int] == names@[i as int]@);
        if names[i] == *name {
            return true;
        }
        i += 1;
    }
    false
}

/// The names to probe for: each once, however many records it has.
pub fn probe_names(unique: &Vec<Record>) -> (r: Vec<Name>)
    ensures
        views(r@) == distinct_names(views(unique@)),
{
    let ghost all = views(unique@);
    let mut names: Vec<Name> = Vec::new();
    assert(views(names@) =~= Seq::<NameView>::empty());
    let mut i: usize = 0;
    assert(all.take(0) =~= Seq::<RecordView>::empty());
    while i < unique.len()
        invariant
            i <= unique.len(),
            all == views(unique@),
            views(names@) == distinct_names(all.take(i as int)),
        decreases unique.len() - i,
    {
        assert(all.take(i + 1).drop_last() =~= all.take(i as int));
        assert(all.take(i + 1).last() == unique@[i as int]@);
        if !contains_name(&names, &unique[i].name) {
            let n = unique[i].name.clone();
            proof {
                lemma_views_push(names@, n);
            }
            names.push(n);
        }
        i += 1;
    }
    assert(all.take(i as int) =~= all);
    names
}

/// The probe with identifier `id` for `unique`.
pub fn probe_message(id: u16, unique: Vec<Record>) -> (r: Message)
    ensures
        r@ == probe_view(id, views(unique@)),
{
    let names = probe_names(&unique);
    let ghost all = views(names@);
    let mut queries: Vec<Question> = Vec::new();
    let mut i: usize = 0;
    while i < names.len()
        invariant
            i <= names.len(),
            all == views(names@),
            queries.len() == i,
            forall|k: int| #![trigger queries@[k]] 0 <= k < i ==> queries@[k]@ == probe_question(
                all[k],
            ),
        decreases names.len() - i,
    {
        queries.push(
            Question {
                name: names[i].clone(),
                qtype: RecordType::ANY,
                qclass: CLASS_IN,
                unicast_response: true,
            },
        );
        i += 1;
    }
    let mut msg = Message::new(id, MessageType::Query);
    msg.queries = queries;
    msg.authorities = unique;
    assert(msg@.queries =~= probe_view(id, views(unique@)).queries);
    assert(msg@ =~= probe_view(id, views(unique@)));
    msg
}

/// `r` is what came of writing the probe with identifier `id`.
pub open spec fn probe_written(
    r: Result<Vec<u8>, ProtoError>,
    id: u16,
    unique: Seq<RecordView>,
) -> bool {
    let msg = probe_view(id, unique);
    match r {
        Ok(b) => encoded(sent(msg)) == Some(b@) && (legible(msg) ==> decoded(b@) == Some(msg)),
        Err(_) => encoded(sent(msg)) is None && !legible(msg),
    }
}

/// Writes a probe for the unique records of `iface`, with a random identifier.
pub fn build_probe(pub_records: &Published, iface: &Iface) -> (r: Result<Vec<u8>, ProtoError>)
    ensures
        exists|id: u16| #[trigger] probe_written(r, id, uniques_on(pub_records@, *iface)),
{
    let id: u16 = random_id();
    let unique = pub_records.unique_for_iface(iface);
    let msg = probe_message(id, unique);
    assert(msg@ == probe_view(id, uniques_on(pub_records@, *iface)));
    let r = msg.to_vec();
    assert(probe_written(r, id, uniques_on(pub_records@, *iface)));
    r
}

/// Number of probes per interface.
pub const PROBE_COUNT: u8 = 3;

/// Number of announcements, and of goodbyes.
pub const ANNOUNCE_ROUNDS: u8 = 2;

/// A step of probing. `iface` is a position in the list of interfaces, `probe`
/// counts from one.
#[derive(Debug, Clone, Copy, PartialEq, Eq, Structural)]
pub enum ProbeState {
    /// Wait for a random time before the first probe on the interface.
    Jitter { iface: usize },
    /// Send a probe.
    Send { iface: usize, probe: u8 },
    /// Wait before the next probe.
    Gap { iface: usize, probe: u8 },
    /// All interfaces have been probed.
    Done,
}

/// What came of a step of probing.
#[derive(Debug, Clone, Copy, PartialEq, Eq, Structural)]
pub enum ProbeEvent {
    /// The wait is over, or the probe was sent, or it could not be written.
    Proceed,
    /// The probe could not be sent.
    SendFailed,
}

/// `i` is the first position from `from` on whose interface has something to probe
/// for, or the number of interfaces.
pub open spec fn is_next_probed(wanted: Seq<bool>, from: int, i: int) -> bool {
    &&& from <= i <= wanted.len()
    &&& forall|k: int| #![trigger wanted[k]] from <= k < i ==> !wanted[k]
    &&& i < wanted.len() ==> wanted[i]
}

/// The state in which the interfaces from `from` on remain to be probed.
pub open spec fn probe_from(wanted: Seq<bool>, from: int) -> ProbeState {
    let i = choose|i: int| is_next_probed(wanted, from, i);
    if i < wanted.len() {
        ProbeState::Jitter { iface: i as usize }
    } else {
        ProbeState::Done
    }
}

/// The state after `state`, where `wanted` tells which interfaces have something to
/// probe for: three probes follow the random wait, with a gap between two of them;
/// after a failed send the interface is left alone.
pub open spec fn probe_after(wanted: Seq<bool>, state: ProbeState, event: ProbeEvent) -> ProbeState {
    match state {
        ProbeState::Jitter { iface } => ProbeState::Send { iface, probe: 1 },
        ProbeState::Send { iface, probe } => if event == ProbeEvent::SendFailed || probe
            >= PROBE_COUNT {
            probe_from(wanted, iface + 1)
        } else {
            ProbeState::Gap { iface, probe }
        },
        ProbeState::Gap { iface, probe } => ProbeState::Send {
            iface,
            probe: (probe + 1) as u8,
        },
        ProbeState::Done => ProbeState::Done,
    }
}

fn next_probed(wanted: &Vec<bool>, from: usize) -> (r: ProbeState)
    requires
        from <= wanted.len(),
    ensures
        r == probe_from(wanted@, from as int),
        r.valid(wanted.len() as nat),
{
    let mut i: usize = from;
    while i < wanted.len() && !wanted[i]
        invariant
            from <= i <= wanted.len(),
            forall|k: int| #![trigger wanted@[k]] from <= k < i ==> !wanted@[k],
        decreases wanted.len() - i,
    {
        i += 1;
    }
    let ghost chosen = choose|i: int| is_next_probed(wanted@, from as int, i);
    assert(is_next_probed(wanted@, from as int, i as int));
    assert(is_next_probed(wanted@, from as int, chosen));
    proof {
        if chosen < i {
            assert(wanted@[chosen]);
        }
        if i < chosen {
            assert(!wanted@[i as int]);
        }
    }
    if i < wanted.len() {
        ProbeState::Jitter { iface: i }
    } else {
        ProbeState::Done
    }
}

/// Starts probing.
pub fn probe_start(wanted: &Vec<bool>) -> (r: ProbeState)
    ensures
        r == probe_from(wanted@, 0),
        r.valid(wanted.len() as nat),
{
    next_probed(wanted, 0)
}

impl ProbeState {
    /// The interface is one of `n`, and the probe one of those to send.
    pub open spec fn valid(self, n: nat) -> bool {
        match self {
            ProbeState::Jitter { iface } => iface < n,
            ProbeState::Send { iface, probe } => iface < n && 1 <= probe <= PROBE_COUNT,
            ProbeState::Gap { iface, probe } => iface < n && 1 <= probe < PROBE_COUNT,
            ProbeState::Done => true,
        }
    }
}

/// Moves on from a state of probing.
pub fn probe_next(wanted: &Vec<bool>, state: ProbeState, event: ProbeEvent) -> (r: ProbeState)
    requires
        state.valid(wanted.len() as nat),
    ensures
        r == probe_after(wanted@, state, event),
        r.valid(wanted.len() as nat),
{
    match state {
        ProbeState::Jitter { iface } => ProbeState::Send { iface, probe: 1 },
        ProbeState::Send { iface, probe } => {
            if event == ProbeEvent::SendFailed || probe >= PROBE_COUNT {
                let r = next_probed(wanted, iface + 1);
                proof {
                    lemma_probe_from_valid(wanted@, iface + 1);
                }
                r
            } else {
                ProbeState::Gap { iface, probe }
            }
        },
        ProbeState::Gap { iface, probe } => ProbeState::Send { iface, probe: probe + 1 },
        ProbeState::Done => ProbeState::Done,
    }
}

/// Some position follows from `from` on.
proof fn lemma_next_probed(wanted: Seq<bool>, from: int) -> (i: int)
    requires
        0 <= from <= wanted.len(),
    ensures
        is_next_probed(wanted, from, i),
    decreases wanted.len() - from,
{
    if from < wanted.len() && !wanted[from] {
        let i = lemma_next_probed(wanted, from + 1);
        i
    } else {
        from
    }
}

pub(crate) proof fn lemma_probe_from_valid(wanted: Seq<bool>, from: int)
    requires
        0 <= from <= wanted.len() <= usize::MAX,
    ensures
        probe_from(wanted, from).valid(wanted.len()),
        probe_from(wanted, from) matches ProbeState::Jitter { iface } ==> wanted[iface as int]
            && from <= iface && forall|k: int|
            #![trigger wanted[k]]
            from <= k < iface ==> !wanted[k],
        probe_from(wanted, from) is Done ==> forall|k: int|
            #![trigger wanted[k]]
            from <= k < wanted.len() ==> !wanted[k],
{
    let i = lemma_next_probed(wanted, from);
    let chosen = choose|i: int| is_next_probed(wanted, from, i);
    assert(is_next_probed(wanted, from, chosen));
}

/// How long to wait in a state of probing; nothing where a probe is to be sent.
pub fn probe_wait(state: ProbeState) -> (r: Option<u128>)
    ensures
        match state {
            ProbeState::Jitter { .. } => r is Some && millis_within(r->0, 0, 250),
            ProbeState::Gap { .. } => r == Some(PROBE_INTERVAL),
            _ => r is None,
        },
{
    match state {
        ProbeState::Jitter { .. } => Some(jitter_0_to_max(PROBE_INITIAL_MAX)),
        ProbeState::Gap { .. } => Some(PROBE_INTERVAL),
        _ => None,
    }
}

/// A step of announcing, or of saying goodbye. `round` counts from zero.
#[derive(Debug, Clone, Copy, PartialEq, Eq, Structural)]
pub enum RoundState {
    /// Send on the interface.
    Send { round: u8, iface: usize },
    /// Wait for [`ANNOUNCE_GAP`] after the round.
    Gap { round: u8 },
    /// All rounds are over.
    Done,
}

/// What came of a step of announcing.
#[derive(Debug, Clone, Copy, PartialEq, Eq, Structural)]
pub enum RoundEvent {
    /// The wait is over; or the message was sent, could not be, or there was none.
    Proceed,
    /// The daemon is to shut down.
    Cancelled,
}

/// The state after the interfaces of a round.
pub open spec fn round_end(round: u8) -> RoundState {
    if round + 1 < ANNOUNCE_ROUNDS {
        RoundState::Gap { round }
    } else {
        RoundState::Done
    }
}

/// The state at the start of a round over `n` interfaces.
pub open spec fn round_begin(n: usize, round: u8) -> RoundState {
    if n > 0 {
        RoundState::Send { round, iface: 0 }
    } else {
        round_end(round)
    }
}

/// The state after `state`, with `n` interfaces. A failed send does not stop the
/// round; a shutdown during the wait stops it all.
pub open spec fn round_after(n: usize, state: RoundState, event: RoundEvent) -> RoundState {
    match state {
        RoundState::Send { round, iface } => if iface + 1 < n {
            RoundState::Send { round, iface: (iface + 1) as usize }
        } else {
            round_end(round)
        },
        RoundState::Gap { round } => if event == RoundEvent::Cancelled {
            RoundState::Done
        } else {
            round_begin(n, (round + 1) as u8)
        },
        RoundState::Done => RoundState::Done,
    }
}

impl RoundState {
    pub open spec fn valid(self, n: usize) -> bool {
        match self {
            RoundState::Send { round, iface } => iface < n && round < ANNOUNCE_ROUNDS,
            RoundState::Gap { round } => round + 1 < ANNOUNCE_ROUNDS,
            RoundState::Done => true,
        }
    }
}

fn end_round(round: u8) -> (r: RoundState)
    requires
        round < ANNOUNCE_ROUNDS,
    ensures
        r == round_end(round),
{
    if round + 1 < ANNOUNCE_ROUNDS {
        RoundState::Gap { round }
    } else {
        RoundState::Done
    }
}

fn begin_round(n: usize, round: u8) -> (r: RoundState)
    requires
        round < ANNOUNCE_ROUNDS,
    ensures
        r == round_begin(n, round),
{
    if n > 0 {
        RoundState::Send { round, iface: 0 }
    } else {
        end_round(round)
    }
}

/// Starts announcing on `n` interfaces.
pub fn round_start(n: usize) -> (r: RoundState)
    ensures
        r == round_begin(n, 0),
        r.valid(n),
{
    begin_round(n, 0)
}

/// Moves on from a state of announcing.
pub fn round_next(n: usize, state: RoundState, event: RoundEvent) -> (r: RoundState)
    requires
        state.valid(n),
    ensures
        r == round_after(n, state, event),
        r.valid(n),
{
    match state {
        RoundState::Send { round, iface } => {
            if iface + 1 < n {
                RoundState::Send { round, iface: iface + 1 }
            } else {
                end_round(round)
            }
        },
        RoundState::Gap { round } => {
            if event == RoundEvent::Cancelled {
                RoundState::Done
            } else {
                begin_round(n, round + 1)
            }
        },
        RoundState::Done => RoundState::Done,
    }
}

/// How long to wait in a state of announcing; nothing where a message is to be sent.
pub fn round_wait(state: RoundState) -> (r: Option<u128>)
    ensures
        r == (if state is Gap {
            Some(ANNOUNCE_GAP)
        } else {
            None
        }),
{
    match state {
        RoundState::Gap { .. } => Some(ANNOUNCE_GAP),
        _ => None,
    }
}

} // verus!
