//! What the daemon does with a datagram, and at every tick.

use vstd::prelude::*;

use std::time::Instant;

use crate::addr::{IpAddr, SocketAddr};
use crate::cache::{evicted, inserted, Cache, CacheView, InsertOutcome};
use crate::clock::MAX_TIME;
use crate::config::Resolved;
use crate::dns::{Message, MessageType, MessageView, Record, RecordView};
use crate::iface::{Datagram, Iface, MDNS_PORT};
use crate::repeater::{all_valid, forward_targets, identify_recv_iface, recv_iface, targets};
use crate::responder::{plan_response_at, response_plan, ResponsePlan};
use crate::seqs::views;
use crate::services::{Published, PublishedView};
use crate::state::State;
use crate::timing::{recent, MIN_MULTICAST_INTERVAL};
use crate::wire::decoded;

verus! {

/// Most datagrams that are handled at a time; more are dropped, so that a flood of
/// queries cannot exhaust the daemon.
pub const MAX_INFLIGHT_HANDLERS: usize = 256;

/// RFC 6762 sections 6 and 11: a conformant node sends from port 5353. Datagrams from
/// any other port are not cached, answered or repeated, so that a unicast packet from
/// an ephemeral port cannot poison the cache or be reflected onto every link.
pub fn is_mdns_source(source: &SocketAddr) -> (r: bool)
    ensures
        r == (source.port == 5353),
{
    source.port == MDNS_PORT
}

/// `ip` is an address of one of the interfaces.
pub open spec fn own_address(ifaces: Seq<Iface>, ip: IpAddr) -> bool {
    exists|i: int| #![trigger ifaces[i]] 0 <= i < ifaces.len() && ifaces[i].owns(ip)
}

/// Whether a datagram is handled at all: it comes from the mDNS port, not from the
/// daemon itself, passes the source filter, and either its interface is known or it
/// may at least be repeated.
pub open spec fn accepted(
    config: Resolved,
    ifaces: Seq<Iface>,
    source: SocketAddr,
    recv_ifindex: Option<u32>,
) -> bool {
    &&& source.port == 5353
    &&& !own_address(ifaces, source.ip)
    &&& config.admits(source.ip)
    &&& recv_iface(source.ip, recv_ifindex, ifaces) is Some || config.repeat
}

fn is_own_address(ifaces: &Vec<Iface>, ip: IpAddr) -> (r: bool)
    ensures
        r == own_address(ifaces@, ip),
{
    let mut i: usize = 0;
    while i < ifaces.len()
        invariant
            i <= ifaces.len(),
            forall|k: int| #![trigger ifaces@[k]] 0 <= k < i ==> !ifaces@[k].owns(ip),
        decreases ifaces.len() - i,
    {
        if ifaces[i].has_addr(ip) {
            return true;
        }
        i += 1;
    }
    false
}

/// Decides whether a datagram is handled. If so, tells on which interface it arrived,
/// as far as that is known.
pub fn triage(config: &Resolved, ifaces: &Vec<Iface>, pkt: &Datagram) -> (r: Option<Option<usize>>)
    requires
        all_valid(ifaces@),
    ensures
        r == (if accepted(*config, ifaces@, pkt.source, pkt.recv_ifindex) {
            Some(recv_iface(pkt.source.ip, pkt.recv_ifindex, ifaces@))
        } else {
            None
        }),
        r matches Some(Some(i)) ==> i < ifaces.len(),
{
    if !is_mdns_source(&pkt.source) {
        return None;
    }
    if is_own_address(ifaces, pkt.source.ip) {
        return None;
    }
    if !config.allow_source(pkt.source.ip) {
        return None;
    }
    let recv_idx = identify_recv_iface(pkt, ifaces);
    if recv_idx.is_none() && !config.repeat {
        return None;
    }
    Some(recv_idx)
}

/// How many records of a response had which outcome.
#[derive(Debug, Clone, Copy, PartialEq, Eq, Structural)]
pub struct CacheUpdate {
    pub inserted: u128,
    pub refreshed: u128,
    pub goodbyes: u128,
    pub rejected: u128,
}

/// One more record had the outcome.
pub open spec fn counted(u: CacheUpdate, outcome: InsertOutcome) -> CacheUpdate {
    match outcome {
        InsertOutcome::Inserted => CacheUpdate { inserted: (u.inserted + 1) as u128, ..u },
        InsertOutcome::Refreshed => CacheUpdate { refreshed: (u.refreshed + 1) as u128, ..u },
        InsertOutcome::GoodbyeRemoved => CacheUpdate { goodbyes: (u.goodbyes + 1) as u128, ..u },
        InsertOutcome::Rejected => CacheUpdate { rejected: (u.rejected + 1) as u128, ..u },
        InsertOutcome::GoodbyeNoOp => u,
    }
}

/// The cache after it has received the records in order, and the outcomes.
pub open spec fn learned(
    c: CacheView,
    records: Seq<RecordView>,
    source: Option<u32>,
    now: u128,
) -> (CacheView, CacheUpdate)
    decreases records.len(),
{
    if records.len() == 0 {
        (c, CacheUpdate { inserted: 0, refreshed: 0, goodbyes: 0, rejected: 0 })
    } else {
        let (c1, u) = learned(c, records.drop_last(), source, now);
        let (c2, outcome) = inserted(c1, records.last(), source, now);
        (c2, counted(u, outcome))
    }
}

/// All records of a message: answers, authorities, additionals.
pub open spec fn all_records(m: MessageView) -> Seq<RecordView> {
    m.answers + m.authorities + m.additionals
}

/// The counts are within the number of records.
spec fn counts_within(u: CacheUpdate, n: int) -> bool {
    &&& u.inserted <= n
    &&& u.refreshed <= n
    &&& u.goodbyes <= n
    &&& u.rejected <= n
}

proof fn lemma_counts_within(c: CacheView, records: Seq<RecordView>, source: Option<u32>, now: u128)
    requires
        records.len() <= u128::MAX,
    ensures
        counts_within(learned(c, records, source, now).1, records.len() as int),
    decreases records.len(),
{
    if records.len() > 0 {
        lemma_counts_within(c, records.drop_last(), source, now);
    }
}

fn learn_section(
    cache: &mut Cache,
    records: &Vec<Record>,
    source: Option<u32>,
    now: u128,
    update: CacheUpdate,
    Ghost(start): Ghost<CacheView>,
    Ghost(done): Ghost<Seq<RecordView>>,
) -> (r: CacheUpdate)
    requires
        now <= MAX_TIME,
        (old(cache)@, update) == learned(start, done, source, now),
        done.len() + records.len() <= u128::MAX,
    ensures
        (final(cache)@, r) == learned(start, done + views(records@), source, now),
        final(cache).clock() == old(cache).clock(),
{
    let ghost clock = cache.clock();
    let ghost all = views(records@);
    let mut update = update;
    let mut i: usize = 0;
    assert(done + all.take(0) =~= done);
    while i < records.len()
        invariant
            now <= MAX_TIME,
            i <= records.len(),
            all == views(records@),
            done.len() + records.len() <= u128::MAX,
            (cache@, update) == learned(start, done + all.take(i as int), source, now),
            cache.clock() == clock,
        decreases records.len() - i,
    {
        proof {
            lemma_counts_within(start, done + all.take(i as int), source, now);
            assert((done + all.take(i + 1)).drop_last() =~= done + all.take(i as int));
            assert((done + all.take(i + 1)).last() == records@[i as int]@);
        }
        match cache.insert_from_at(records[i].clone(), source, now) {
            InsertOutcome::Inserted => {
                update.inserted += 1;
            },
            InsertOutcome::Refreshed => {
                update.refreshed += 1;
            },
            InsertOutcome::GoodbyeRemoved => {
                update.goodbyes += 1;
            },
            InsertOutcome::Rejected => {
                update.rejected += 1;
            },
            InsertOutcome::GoodbyeNoOp => {},
        }
        i += 1;
    }
    assert(all.take(i as int) =~= all);
    update
}

/// Puts all records of a response into the cache at time `now`. They were learned on
/// interface `source_ifindex`, if that is known.
pub fn handle_response_msg_at(
    cache: &mut Cache,
    msg: &Message,
    source_ifindex: Option<u32>,
    now: u128,
) -> (r: CacheUpdate)
    requires
        now <= MAX_TIME,
    ensures
        (final(cache)@, r) == learned(old(cache)@, all_records(msg@), source_ifindex, now),
        final(cache).clock() == old(cache).clock(),
{
    let ghost start = cache@;
    let update = CacheUpdate { inserted: 0, refreshed: 0, goodbyes: 0, rejected: 0 };
    let ghost none = Seq::<RecordView>::empty();
    assert(msg@.answers.len() == msg.answers.len());
    assert(msg@.authorities.len() == msg.authorities.len());
    let update = learn_section(
        cache,
        &msg.answers,
        source_ifindex,
        now,
        update,
        Ghost(start),
        Ghost(none),
    );
    assert(none + msg@.answers =~= msg@.answers);
    let update = learn_section(
        cache,
        &msg.authorities,
        source_ifindex,
        now,
        update,
        Ghost(start),
        Ghost(msg@.answers),
    );
    learn_section(
        cache,
        &msg.additionals,
        source_ifindex,
        now,
        update,
        Ghost(start),
        Ghost(msg@.answers + msg@.authorities),
    )
}

/// Puts all records of a response into the cache; see [`handle_response_msg_at`].
pub fn handle_response_msg(cache: &mut Cache, msg: &Message, source_ifindex: Option<u32>) -> (r:
    CacheUpdate)
    ensures
        exists|instant: Instant|
            old(cache).time_at(instant) <= MAX_TIME && (final(cache)@, r) == learned(
                old(cache)@,
                all_records(msg@),
                source_ifindex,
                #[trigger] old(cache).time_at(instant),
            ),
        final(cache).clock() == old(cache).clock(),
{
    let now: u128 = cache.now();
    handle_response_msg_at(cache, msg, source_ifindex, now)
}

/// What is to be done about a datagram, besides what the cache has learned from it.
#[derive(Debug)]
pub struct Handling {
    /// The interface on which it arrived.
    pub recv_idx: Option<usize>,
    /// The response, to be sent on that interface after its delay.
    pub response: Option<ResponsePlan>,
    /// What the cache has learned.
    pub update: Option<CacheUpdate>,
    /// The interfaces to which the datagram goes on after that.
    pub targets: Vec<usize>,
}

/// The index of the interface at a position.
pub open spec fn ifindex_at(ifaces: Seq<Iface>, idx: Option<usize>) -> Option<u32> {
    match idx {
        Some(i) => Some(ifaces[i as int].ifindex),
        None => None,
    }
}

/// What handling a datagram at time `now` comes to: `after` is the cache afterwards and
/// `r` what is left to be done.
///
/// Nothing comes of a datagram that is not accepted. A query is answered on the
/// interface on which it arrived; the records of a response go into the cache; and
/// whatever the octets are, the datagram is repeated where that is enabled.
pub open spec fn handled(
    config: Resolved,
    ifaces: Seq<Iface>,
    c: CacheView,
    p: PublishedView,
    pkt: Datagram,
    now: u128,
    after: CacheView,
    r: Option<Handling>,
) -> bool {
    let idx = recv_iface(pkt.source.ip, pkt.recv_ifindex, ifaces);
    let msg = decoded(pkt.data@);
    let learns = msg is Some && msg->0.message_type == MessageType::Response;
    let plan = if msg is Some && idx is Some {
        response_plan(config.answer_from_cache, c, p, ifaces[idx->0 as int], msg->0, now)
    } else {
        None
    };
    if accepted(config, ifaces, pkt.source, pkt.recv_ifindex) {
        &&& r matches Some(h)
        &&& h.recv_idx == idx
        &&& h.targets@ == (if config.repeat {
            targets(idx, pkt.source.ip, ifaces, ifaces.len())
        } else {
            Seq::empty()
        })
        &&& if learns {
            h.update is Some && (after, h.update->0) == learned(
                c,
                all_records(msg->0),
                ifindex_at(ifaces, idx),
                now,
            )
        } else {
            h.update is None && after == c
        }
        &&& match h.response {
            Some(x) => plan == Some(x@),
            None => plan is None,
        }
    } else {
        r is None && after == c
    }
}

/// Handles a datagram at time `now`.
pub fn handle_datagram_at(state: &mut State, published: &Published, pkt: &Datagram, now: u128) -> (r:
    Option<Handling>)
    requires
        all_valid(old(state).ifaces@),
        now <= MAX_TIME,
    ensures
        final(state).config == old(state).config,
        final(state).ifaces == old(state).ifaces,
        final(state).mc_tracker == old(state).mc_tracker,
        handled(
            old(state).config,
            old(state).ifaces@,
            old(state).cache@,
            published@,
            *pkt,
            now,
            final(state).cache@,
            r,
        ),
        final(state).cache.clock() == old(state).cache.clock(),
{
    let recv_idx = match triage(&state.config, &state.ifaces, pkt) {
        Some(idx) => idx,
        None => return None,
    };
    let mut response: Option<ResponsePlan> = None;
    let mut update: Option<CacheUpdate> = None;
    if let Ok(msg) = Message::from_vec(pkt.data.as_slice()) {
        match msg.message_type {
            MessageType::Query => {
                if let Some(i) = recv_idx {
                    response = plan_response_at(state, &msg, &state.ifaces[i], published, now);
                }
            },
            MessageType::Response => {
                let source = match recv_idx {
                    Some(i) => Some(state.ifaces[i].ifindex),
                    None => None,
                };
                update = Some(handle_response_msg_at(&mut state.cache, &msg, source, now));
            },
        }
    }
    let targets = if state.config.repeat {
        forward_targets(recv_idx, pkt.source.ip, &state.ifaces)
    } else {
        Vec::new()
    };
    Some(Handling { recv_idx, response, update, targets })
}

/// Handles a datagram that has just arrived.
pub fn handle_datagram(state: &mut State, published: &Published, pkt: &Datagram) -> (r: Option<
    Handling,
>)
    requires
        all_valid(old(state).ifaces@),
    ensures
        final(state).config == old(state).config,
        final(state).ifaces == old(state).ifaces,
        final(state).mc_tracker == old(state).mc_tracker,
        exists|instant: Instant|
            old(state).cache.time_at(instant) <= MAX_TIME && handled(
                old(state).config,
                old(state).ifaces@,
                old(state).cache@,
                published@,
                *pkt,
                #[trigger] old(state).cache.time_at(instant),
                final(state).cache@,
                r,
            ),
        final(state).cache.clock() == old(state).cache.clock(),
{
    let now: u128 = state.cache.now();
    handle_datagram_at(state, published, pkt, now)
}

/// Removes at the given times what has expired from the cache, and what no longer
/// matters from the record of multicasts. Returns the number of cache entries removed.
pub fn sweep_at(state: &mut State, cache_now: u128, tracker_now: u128) -> (n: usize)
    ensures
        final(state).config == old(state).config,
        final(state).ifaces == old(state).ifaces,
        final(state).cache@ == evicted(old(state).cache@, cache_now),
        final(state).mc_tracker@ == recent(
            old(state).mc_tracker@,
            tracker_now,
            MIN_MULTICAST_INTERVAL,
        ),
        n == old(state).cache@.entries.len() - final(state).cache@.entries.len(),
        final(state).cache.clock() == old(state).cache.clock(),
        final(state).mc_tracker.clock() == old(state).mc_tracker.clock(),
{
    let n: usize = state.cache.evict_expired_at(cache_now);
    state.mc_tracker.prune_older_than_at(MIN_MULTICAST_INTERVAL, tracker_now);
    n
}

/// Sweeps the cache and the record of multicasts; see [`sweep_at`].
pub fn sweep(state: &mut State) -> (n: usize)
    ensures
        final(state).config == old(state).config,
        final(state).ifaces == old(state).ifaces,
        exists|instant: Instant|
            old(state).cache.time_at(instant) <= MAX_TIME && final(state).cache@ == evicted(
                old(state).cache@,
                #[trigger] old(state).cache.time_at(instant),
            ),
        exists|instant: Instant|
            old(state).mc_tracker.time_at(instant) <= MAX_TIME && final(state).mc_tracker@
                == recent(
                old(state).mc_tracker@,
                #[trigger] old(state).mc_tracker.time_at(instant),
                MIN_MULTICAST_INTERVAL,
            ),
        n == old(state).cache@.entries.len() - final(state).cache@.entries.len(),
        final(state).cache.clock() == old(state).cache.clock(),
        final(state).mc_tracker.clock() == old(state).mc_tracker.clock(),
{
    let cache_now: u128 = state.cache.now();
    let tracker_now: u128 = state.mc_tracker.now();
    sweep_at(state, cache_now, tracker_now)
}

/// Seconds between sweeps: the configured number, at least one.
pub fn sweep_interval_secs(config: &Resolved) -> (r: u64)
    ensures
        r == (if config.cache_tick_secs == 0 {
            1
        } else {
            config.cache_tick_secs
        }),
{
    if config.cache_tick_secs == 0 {
        1
    } else {
        config.cache_tick_secs
    }
}

} // verus!
