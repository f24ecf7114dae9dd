//! Laws of multicast rate limiting.

use vstd::prelude::*;

use crate::dns::RecordView;
use crate::timing::{
    delay_range, elapsed, free, millis_within, recent, slot_of, taken, DelayClass, Slot,
    ANNOUNCE_GAP, MIN_MULTICAST_INTERVAL, PROBE_DEFENSE_INTERVAL, PROBE_INITIAL_MAX,
    PROBE_INTERVAL,
};

verus! {

/// A record that was never multicast may be.
pub proof fn first_multicast_is_free(slot: Slot, now: u128, interval: u128)
    ensures
        free(Map::<Slot, int>::empty(), slot, now, interval),
{
}

/// Once a slot has been used it is not free until the interval is over, and free
/// from then on.
pub proof fn slot_is_free_again_after_the_interval(
    last: Map<Slot, int>,
    slot: Slot,
    at: u128,
    now: u128,
    interval: u128,
)
    requires
        at <= now,
    ensures
        free(last.insert(slot, at as int), slot, now, interval) == (now - at >= interval),
{
}

/// Use of one slot does not limit another.
pub proof fn slots_are_independent(
    last: Map<Slot, int>,
    used: Slot,
    other: Slot,
    at: u128,
    now: u128,
    interval: u128,
)
    requires
        used != other,
    ensures
        free(last.insert(used, at as int), other, now, interval) == free(
            last,
            other,
            now,
            interval,
        ),
{
}

/// The same record has a slot of its own on each interface, and records with
/// different identities have different slots.
pub proof fn interfaces_and_records_have_their_own_slots(
    a: u32,
    b: u32,
    r: RecordView,
    s: RecordView,
)
    ensures
        a != b ==> slot_of(a, r) != slot_of(b, s),
        r.key() != s.key() ==> slot_of(a, r) != slot_of(b, s),
        r.key() == s.key() ==> slot_of(a, r) == slot_of(a, s),
{
}

/// Forgetting uses that are `interval` old changes no later decision by that
/// interval or a shorter one.
pub proof fn pruning_changes_no_decision(
    last: Map<Slot, int>,
    pruned_at: u128,
    interval: u128,
    slot: Slot,
    now: u128,
    shorter: u128,
)
    requires
        pruned_at <= now,
        shorter <= interval,
    ensures
        free(recent(last, pruned_at, interval), slot, now, shorter) == free(
            last,
            slot,
            now,
            shorter,
        ),
{
}

/// An attempt to use a slot.
pub struct Attempt {
    pub slot: Slot,
    pub at: u128,
}

/// The uses after `attempts`, made in order, and the attempts that succeeded.
pub open spec fn attempted(
    last: Map<Slot, int>,
    attempts: Seq<Attempt>,
    interval: u128,
) -> (Map<Slot, int>, Seq<Attempt>)
    decreases attempts.len(),
{
    if attempts.len() == 0 {
        (last, Seq::empty())
    } else {
        let (m, sent) = attempted(last, attempts.drop_last(), interval);
        let a = attempts.last();
        (
            taken(m, a.slot, a.at, interval),
            if free(m, a.slot, a.at, interval) {
                sent.push(a)
            } else {
                sent
            },
        )
    }
}

/// The attempts are in the order of their times.
pub open spec fn in_order(attempts: Seq<Attempt>) -> bool {
    forall|i: int, j: int| #![trigger attempts[i], attempts[j]]
        0 <= i <= j < attempts.len() ==> attempts[i].at <= attempts[j].at
}

proof fn lemma_attempted(attempts: Seq<Attempt>, interval: u128)
    requires
        in_order(attempts),
    ensures
        ({
            let (m, sent) = attempted(Map::empty(), attempts, interval);
            &&& forall|s: Slot| #[trigger]
                m.contains_key(s) ==> attempts.len() > 0 && m[s] <= attempts.last().at
            &&& forall|i: int| #![trigger sent[i]]
                0 <= i < sent.len() ==> attempts.len() > 0 && sent[i].at <= attempts.last().at
                    && m.contains_key(sent[i].slot) && sent[i].at <= m[sent[i].slot]
            &&& forall|i: int, j: int| #![trigger sent[i], sent[j]]
                0 <= i < j < sent.len() && sent[i].slot == sent[j].slot ==> sent[j].at - sent[i].at
                    >= interval
        }),
    decreases attempts.len(),
{
    if attempts.len() > 0 {
        let rest = attempts.drop_last();
        let a = attempts.last();
        assert forall|i: int, j: int| #![trigger rest[i], rest[j]]
            0 <= i <= j < rest.len() implies rest[i].at <= rest[j].at by {
            assert(attempts[i] == rest[i] && attempts[j] == rest[j]);
        }
        lemma_attempted(rest, interval);
        let (m0, sent0) = attempted(Map::empty(), rest, interval);
        let (m, sent) = attempted(Map::empty(), attempts, interval);
        if rest.len() > 0 {
            assert(rest.last() == attempts[rest.len() - 1]);
            assert(a == attempts[attempts.len() - 1]);
            assert(rest.last().at <= a.at);
        }
        assert forall|s: Slot| #[trigger] m.contains_key(s) implies m[s] <= a.at by {
            if s != a.slot || !free(m0, a.slot, a.at, interval) {
                assert(m0.contains_key(s));
            }
        }
        assert forall|i: int| #![trigger sent[i]] 0 <= i < sent.len() implies sent[i].at <= a.at
            && m.contains_key(sent[i].slot) && sent[i].at <= m[sent[i].slot] by {
            if i < sent0.len() {
                assert(sent[i] == sent0[i]);
            }
        }
        assert forall|i: int, j: int| #![trigger sent[i], sent[j]]
            0 <= i < j < sent.len() && sent[i].slot == sent[j].slot implies sent[j].at
            - sent[i].at >= interval by {
            assert(sent[i] == sent0[i]);
            if j < sent0.len() {
                assert(sent[j] == sent0[j]);
            } else {
                assert(m0.contains_key(a.slot));
                assert(elapsed(m0[a.slot], a.at) >= interval);
            }
        }
    }
}

/// Whatever is attempted, and in whatever mixture of records and interfaces: two
/// multicasts of one record on one interface are at least the interval apart.
pub proof fn multicasts_are_spaced(attempts: Seq<Attempt>, interval: u128, i: int, j: int)
    requires
        in_order(attempts),
        0 <= i < j < attempted(Map::empty(), attempts, interval).1.len(),
        attempted(Map::empty(), attempts, interval).1[i].slot == attempted(
            Map::empty(),
            attempts,
            interval,
        ).1[j].slot,
    ensures
        attempted(Map::empty(), attempts, interval).1[j].at - attempted(
            Map::empty(),
            attempts,
            interval,
        ).1[i].at >= interval,
{
    lemma_attempted(attempts, interval);
}

/// A slot may be used unless its last use lies less than the interval back; a use that lies
/// ahead, as after a clock was set back, counts as one just now.
pub proof fn slot_is_limited_by_its_last_use_alone(
    last: Map<Slot, int>,
    slot: Slot,
    now: u128,
    interval: u128,
)
    ensures
        free(last, slot, now, interval) <==> !last.contains_key(slot) || interval == 0 || last[slot]
            + interval <= now,
{
}

/// An attempt succeeds just when the slot may be used, and then notes the time of that slot
/// and of no other; one that fails notes nothing.
pub proof fn attempts_note_the_slot_alone(
    last: Map<Slot, int>,
    slot: Slot,
    now: u128,
    interval: u128,
    other: Slot,
)
    ensures
        ({
            let m = taken(last, slot, now, interval);
            &&& m.contains_key(slot)
            &&& !last.contains_key(slot) || interval == 0 || last[slot] + interval <= now
                ==> m[slot] == now
            &&& last.contains_key(slot) && interval > 0 && last[slot] + interval > now ==> m[slot]
                == last[slot]
            &&& other != slot ==> m.contains_key(other) == last.contains_key(other)
            &&& other != slot && m.contains_key(other) ==> m[other] == last[other]
        }),
{
}

/// Pruning forgets the uses that are the interval old or older, and no other; those that stay
/// keep their times.
pub proof fn pruning_forgets_just_the_old(
    last: Map<Slot, int>,
    now: u128,
    interval: u128,
    slot: Slot,
)
    ensures
        ({
            let m = recent(last, now, interval);
            &&& m.contains_key(slot) <==> last.contains_key(slot) && interval > 0 && last[slot]
                + interval > now
            &&& m.contains_key(slot) ==> m[slot] == last[slot]
        }),
{
}

/// The intervals of RFC 6762, in nanoseconds: a second between multicasts of a record and
/// between announcements, a quarter of a second between probes, before the first of them and
/// while a record is defended.
pub proof fn intervals_are_as_prescribed()
    ensures
        MIN_MULTICAST_INTERVAL == 1_000_000_000,
        ANNOUNCE_GAP == 1_000_000_000,
        PROBE_DEFENSE_INTERVAL == 250_000_000,
        PROBE_INTERVAL == 250_000_000,
        PROBE_INITIAL_MAX == 250_000_000,
{
}

/// The range of the random delay of each class of response, in milliseconds.
pub proof fn delay_ranges_are_as_prescribed()
    ensures
        delay_range(DelayClass::ProbeDefense) == (0u64, 0u64),
        delay_range(DelayClass::UniqueAnswer) == (0u64, 0u64),
        delay_range(DelayClass::Shared) == (20u64, 120u64),
        delay_range(DelayClass::Truncated) == (400u64, 500u64),
{
}

/// A delay that is drawn from a range is one of its whole milliseconds, and all of them are
/// in it.
pub proof fn delays_are_whole_milliseconds(d: u128, low: u64, high: u64)
    ensures
        millis_within(d, low, high) <==> exists|ms: int|
            low <= ms <= high && d == #[trigger] (ms * 1_000_000),
{
    if millis_within(d, low, high) {
        let ms = d as int / 1_000_000;
        assert(d == ms * 1_000_000);
    }
    if exists|ms: int| low <= ms <= high && d == #[trigger] (ms * 1_000_000) {
        let ms = choose|ms: int| low <= ms <= high && d == #[trigger] (ms * 1_000_000);
        assert(d as int / 1_000_000 == ms);
    }
}

} // verus!
