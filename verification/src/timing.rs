//! RFC 6762 timing: per-interface multicast rate limiting and randomized
//! response delays.
//!
//! * [`MulticastTracker`] enforces section 6: a record is not multicast on an
//!   interface until at least one second has elapsed since the last time that it
//!   was multicast on that interface; 250 ms where a probe is answered.
//!
//! * [`response_delay`] picks the randomized delay of sections 6 and 6.3:
//!   20 to 120 ms for shared records and several questions, 400 to 500 ms when
//!   the query is truncated, none for records that the daemon owns alone.
//!
//! All times and intervals are in nanoseconds.

use vstd::prelude::*;

use std::time::Instant;

use crate::clock::{Clock, MAX_TIME, NANOS_PER_MILLI};
use crate::dns::{KeyView, Record, RecordView};
use crate::random::random_between;
use crate::record_key::RecordKey;
use crate::seqs::{lemma_views_push, retain, views};

verus! {

broadcast use vstd::seq_lib::group_filter_ensures;

/// Least time between multicasts of one record on one interface (section 6).
pub const MIN_MULTICAST_INTERVAL: u128 = 1_000_000_000;

/// The same while a record is defended against a probe (section 6).
pub const PROBE_DEFENSE_INTERVAL: u128 = 250_000_000;

/// Time between announcements (section 8.3).
pub const ANNOUNCE_GAP: u128 = 1_000_000_000;

/// Time between probes (section 8.1).
pub const PROBE_INTERVAL: u128 = 250_000_000;

/// Longest random delay before the first probe (section 8.1).
pub const PROBE_INITIAL_MAX: u128 = 250_000_000;

/// What is rate-limited: one record on one interface.
#[verifier::ext_equal]
pub struct Slot {
    pub ifindex: u32,
    pub key: KeyView,
}

/// The slot of `r` on interface `ifindex`.
pub open spec fn slot_of(ifindex: u32, r: RecordView) -> Slot {
    Slot { ifindex, key: r.key() }
}

#[verifier::ext_equal]
pub struct StampView {
    pub slot: Slot,
    pub at: int,
}

/// When a record was last multicast on an interface.
#[derive(Debug)]
struct Stamp {
    ifindex: u32,
    key: RecordKey,
    at: u128,
}

impl View for Stamp {
    type V = StampView;

    closed spec fn view(&self) -> StampView {
        StampView { slot: Slot { ifindex: self.ifindex, key: self.key@ }, at: self.at as int }
    }
}

spec fn holds_slot(s: Seq<StampView>, slot: Slot) -> bool {
    exists|i: int| #![trigger s[i]] 0 <= i < s.len() && s[i].slot == slot
}

spec fn position(s: Seq<StampView>, slot: Slot) -> int {
    choose|i: int| #![trigger s[i]] 0 <= i < s.len() && s[i].slot == slot
}

spec fn distinct_slots(s: Seq<StampView>) -> bool {
    forall|i: int, j: int| #![trigger s[i], s[j]]
        0 <= i < j < s.len() ==> s[i].slot != s[j].slot
}

spec fn stamp_map(s: Seq<StampView>) -> Map<Slot, int> {
    Map::new(|slot: Slot| holds_slot(s, slot), |slot: Slot| s[position(s, slot)].at)
}

proof fn lemma_stamp_at(s: Seq<StampView>, i: int)
    requires
        distinct_slots(s),
        0 <= i < s.len(),
    ensures
        stamp_map(s).contains_key(s[i].slot),
        stamp_map(s)[s[i].slot] == s[i].at,
{
    let k = position(s, s[i].slot);
    assert(0 <= k < s.len() && s[k].slot == s[i].slot);
    assert(k == i);
}

proof fn lemma_stamp_push(s: Seq<StampView>, x: StampView)
    requires
        distinct_slots(s),
        !holds_slot(s, x.slot),
    ensures
        distinct_slots(s.push(x)),
        stamp_map(s.push(x)) == stamp_map(s).insert(x.slot, x.at),
{
    let t = s.push(x);
    assert forall|i: int, j: int| #![trigger t[i], t[j]]
        0 <= i < j < t.len() implies t[i].slot != t[j].slot by {
        assert(t[i] == s[i]);
        if j < s.len() {
            assert(t[j] == s[j]);
        }
    }
    assert forall|slot: Slot| #![auto] holds_slot(t, slot) == (holds_slot(s, slot) || slot == x.slot)
    by {
        if holds_slot(s, slot) {
            assert(t[position(s, slot)].slot == slot);
        }
        if slot == x.slot {
            assert(t[s.len() as int].slot == slot);
        }
        if holds_slot(t, slot) && slot != x.slot {
            assert(s[position(t, slot)].slot == slot);
        }
    }
    assert forall|slot: Slot| holds_slot(t, slot) implies #[trigger] stamp_map(t)[slot]
        == stamp_map(s).insert(x.slot, x.at)[slot] by {
        if slot == x.slot {
            lemma_stamp_at(t, s.len() as int);
        } else {
            let k = position(s, slot);
            assert(s[k].slot == slot);
            assert(t[k] == s[k]);
            lemma_stamp_at(t, k);
            lemma_stamp_at(s, k);
        }
    }
    assert(stamp_map(t) =~= stamp_map(s).insert(x.slot, x.at));
}

proof fn lemma_stamp_update(s: Seq<StampView>, i: int, x: StampView)
    requires
        distinct_slots(s),
        0 <= i < s.len(),
        s[i].slot == x.slot,
    ensures
        distinct_slots(s.update(i, x)),
        stamp_map(s.update(i, x)) == stamp_map(s).insert(x.slot, x.at),
{
    let t = s.update(i, x);
    assert forall|a: int, b: int| #![trigger t[a], t[b]]
        0 <= a < b < t.len() implies t[a].slot != t[b].slot by {
        assert(t[a].slot == s[a].slot);
        assert(t[b].slot == s[b].slot);
    }
    assert forall|slot: Slot| #![auto] holds_slot(t, slot) == holds_slot(s, slot) by {
        if holds_slot(s, slot) {
            assert(t[position(s, slot)].slot == slot);
        }
        if holds_slot(t, slot) {
            assert(s[position(t, slot)].slot == slot);
        }
    }
    assert(holds_slot(s, x.slot));
    assert forall|slot: Slot| holds_slot(t, slot) implies #[trigger] stamp_map(t)[slot]
        == stamp_map(s).insert(x.slot, x.at)[slot] by {
        let k = position(t, slot);
        assert(t[k].slot == slot);
        lemma_stamp_at(t, k);
        lemma_stamp_at(s, k);
    }
    assert(stamp_map(t) =~= stamp_map(s).insert(x.slot, x.at));
}

proof fn lemma_stamp_filter(s: Seq<StampView>, p: spec_fn(StampView) -> bool)
    requires
        distinct_slots(s),
    ensures
        distinct_slots(s.filter(p)),
        forall|i: int| #![trigger s.filter(p)[i]]
            0 <= i < s.filter(p).len() ==> s.contains(s.filter(p)[i]) && p(s.filter(p)[i]),
    decreases s.len(),
{
    reveal(Seq::filter);
    if s.len() > 0 {
        let rest = s.drop_last();
        lemma_stamp_filter(rest, p);
        let out = s.filter(p);
        assert forall|i: int| #![trigger out[i]] 0 <= i < out.len() implies s.contains(out[i])
            && p(out[i]) by {
            if i < rest.filter(p).len() {
                assert(rest.filter(p)[i] == out[i]);
                let k = choose|k: int| 0 <= k < rest.len() && rest[k] == out[i];
                assert(s[k] == out[i]);
            } else {
                assert(s[s.len() - 1] == out[i]);
            }
        }
        assert forall|i: int, j: int| #![trigger out[i], out[j]]
            0 <= i < j < out.len() implies out[i].slot != out[j].slot by {
            if j == rest.filter(p).len() {
                assert(rest.filter(p)[i] == out[i]);
                let k = choose|k: int| 0 <= k < rest.len() && rest[k] == out[i];
                assert(s[k] == out[i]);
                assert(s[s.len() - 1] == out[j]);
            } else {
                assert(rest.filter(p)[i] == out[i]);
                assert(rest.filter(p)[j] == out[j]);
            }
        }
    }
}

/// Time from `at` to `now`, zero where the clock has not got there yet.
pub open spec fn elapsed(at: int, now: u128) -> int {
    if at <= now {
        now - at
    } else {
        0
    }
}

/// Whether at least `interval` has passed since the slot was last used, if it
/// ever was.
pub open spec fn free(last: Map<Slot, int>, slot: Slot, now: u128, interval: u128) -> bool {
    last.contains_key(slot) ==> elapsed(last[slot], now) >= interval
}

/// The uses that are less than `interval` ago.
pub open spec fn recent(last: Map<Slot, int>, now: u128, interval: u128) -> Map<Slot, int> {
    Map::new(
        |slot: Slot| last.contains_key(slot) && elapsed(last[slot], now) < interval,
        |slot: Slot| last[slot],
    )
}

proof fn lemma_stamp_recent(s: Seq<StampView>, now: u128, interval: u128)
    requires
        distinct_slots(s),
    ensures
        stamp_map(s.filter(|x: StampView| elapsed(x.at, now) < interval)) == recent(
            stamp_map(s),
            now,
            interval,
        ),
{
    let p = |x: StampView| elapsed(x.at, now) < interval;
    let t = s.filter(p);
    let m = recent(stamp_map(s), now, interval);
    lemma_stamp_filter(s, p);
    assert forall|slot: Slot| #![auto] holds_slot(t, slot) == m.contains_key(slot) by {
        if holds_slot(t, slot) {
            let k = position(t, slot);
            assert(t[k].slot == slot);
            let j = choose|j: int| 0 <= j < s.len() && s[j] == t[k];
            lemma_stamp_at(s, j);
        }
        if m.contains_key(slot) {
            let j = position(s, slot);
            assert(s[j].slot == slot);
            lemma_stamp_at(s, j);
            assert(p(s[j]));
            assert(t.contains(s[j]));
            let k = choose|k: int| 0 <= k < t.len() && t[k] == s[j];
            assert(t[k].slot == slot);
        }
    }
    assert forall|slot: Slot| holds_slot(t, slot) implies #[trigger] stamp_map(t)[slot] == m[slot] by {
        let k = position(t, slot);
        assert(t[k].slot == slot);
        lemma_stamp_at(t, k);
        let j = choose|j: int| 0 <= j < s.len() && s[j] == t[k];
        lemma_stamp_at(s, j);
    }
    assert(stamp_map(t) =~= m);
}

proof fn lemma_stamp_count(s: Seq<StampView>)
    requires
        distinct_slots(s),
    ensures
        stamp_map(s).dom().finite(),
        stamp_map(s).dom().len() == s.len(),
    decreases s.len(),
{
    if s.len() == 0 {
        assert(stamp_map(s).dom() =~= Set::<Slot>::empty());
    } else {
        let rest = s.drop_last();
        let x = s.last();
        assert forall|i: int, j: int| #![trigger rest[i], rest[j]]
            0 <= i < j < rest.len() implies rest[i].slot != rest[j].slot by {
            assert(s[i] == rest[i]);
            assert(s[j] == rest[j]);
        }
        lemma_stamp_count(rest);
        assert(!holds_slot(rest, x.slot)) by {
            if holds_slot(rest, x.slot) {
                let k = position(rest, x.slot);
                assert(s[k].slot == x.slot);
                assert(s[s.len() - 1].slot == x.slot);
            }
        }
        assert(rest.push(x) =~= s);
        lemma_stamp_push(rest, x);
    }
}

/// Last multicast of each record on each interface.
#[derive(Debug)]
pub struct MulticastTracker {
    stamps: Vec<Stamp>,
    clock: Clock,
}

impl View for MulticastTracker {
    type V = Map<Slot, int>;

    closed spec fn view(&self) -> Map<Slot, int> {
        stamp_map(views(self.stamps@))
    }
}

impl MulticastTracker {
    #[verifier::type_invariant]
    closed spec fn well_formed(self) -> bool {
        distinct_slots(views(self.stamps@))
    }

    /// A tracker that has seen no multicast.
    pub fn new() -> (r: MulticastTracker)
        ensures
            r@ == Map::<Slot, int>::empty(),
    {
        let stamps: Vec<Stamp> = Vec::new();
        assert(views(stamps@) =~= Seq::<StampView>::empty());
        assert(stamp_map(views(stamps@)) =~= Map::<Slot, int>::empty());
        MulticastTracker { stamps, clock: Clock::new() }
    }

    fn find(&self, ifindex: u32, rec: &Record) -> (r: Option<usize>)
        ensures
            match r {
                Some(i) => i < self.stamps.len() && views(self.stamps@)[i as int].slot == slot_of(
                    ifindex,
                    rec@,
                ),
                None => !holds_slot(views(self.stamps@), slot_of(ifindex, rec@)),
            },
    {
        let key = RecordKey::of(rec);
        let mut i: usize = 0;
        while i < self.stamps.len()
            invariant
                i <= self.stamps.len(),
                key@ == rec@.key(),
                forall|k: int| #![trigger views(self.stamps@)[k]]
                    0 <= k < i ==> views(self.stamps@)[k].slot != slot_of(ifindex, rec@),
            decreases self.stamps.len() - i,
        {
            if self.stamps[i].ifindex == ifindex && self.stamps[i].key == key {
                return Some(i);
            }
            i += 1;
        }
        None
    }

    /// Records that `rec` was multicast on interface `ifindex` at time `now`.
    pub fn mark_at(&mut self, ifindex: u32, rec: &Record, now: u128)
        ensures
            final(self)@ == old(self)@.insert(slot_of(ifindex, rec@), now as int),
            final(self).clock() == old(self).clock(),
    {
        proof {
            use_type_invariant(&*self);
        }
        let found = self.find(ifindex, rec);
        let stamp = Stamp { ifindex, key: RecordKey::of(rec), at: now };
        let ghost before = self.stamps@;
        let ghost x = stamp@;
        let mut stamps: Vec<Stamp> = Vec::new();
        assert(views(stamps@) =~= Seq::<StampView>::empty());
        std::mem::swap(&mut self.stamps, &mut stamps);
        match found {
            Some(i) => {
                stamps.set(i, stamp);
                assert(views(stamps@) =~= views(before).update(i as int, x));
                proof {
                    lemma_stamp_update(views(before), i as int, x);
                }
            },
            None => {
                stamps.push(stamp);
                proof {
                    lemma_views_push(before, stamp);
                    lemma_stamp_push(views(before), x);
                }
            },
        }
        std::mem::swap(&mut self.stamps, &mut stamps);
    }

    /// Records that `rec` was just multicast on interface `ifindex`.
    pub fn mark(&mut self, ifindex: u32, rec: &Record)
        ensures
            exists|instant: Instant|
                old(self).time_at(instant) <= MAX_TIME && final(self)@ == old(self)@.insert(
                    slot_of(ifindex, rec@),
                    #[trigger] old(self).time_at(instant) as int,
                ),
            final(self).clock() == old(self).clock(),
    {
        let now: u128 = self.now();
        self.mark_at(ifindex, rec, now)
    }

    /// Number of records on interfaces that are tracked.
    pub fn len(&self) -> (r: usize)
        ensures
            r == self@.dom().len(),
    {
        proof {
            use_type_invariant(self);
            lemma_stamp_count(views(self.stamps@));
        }
        self.stamps.len()
    }

    pub fn is_empty(&self) -> (r: bool)
        ensures
            r == (self@.dom().len() == 0),
    {
        self.len() == 0
    }

    /// The tracker's own clock, by which multicasts are noted.
    pub closed spec fn clock(&self) -> Clock {
        self.clock
    }

    /// What the tracker's own clock shows at an instant.
    pub open spec fn time_at(&self, instant: Instant) -> u128 {
        self.clock().time_at(instant)
    }

    /// The time on the tracker's own clock at the present instant.
    pub(crate) fn now(&self) -> (r: u128)
        ensures
            exists|instant: Instant| r == #[trigger] self.time_at(instant),
            r <= MAX_TIME,
    {
        let r: u128 = self.clock.now();
        proof {
            let instant = choose|instant: Instant| r == #[trigger] self.clock.time_at(instant);
            assert(r == self.time_at(instant));
        }
        r
    }

    /// Drops what was multicast `min_interval` ago or earlier. It no longer
    /// affects rate limiting by that interval, and would otherwise pile up on a
    /// busy network.
    pub fn prune_older_than_at(&mut self, min_interval: u128, now: u128)
        ensures
            final(self)@ == recent(old(self)@, now, min_interval),
            final(self).clock() == old(self).clock(),
    {
        proof {
            use_type_invariant(&*self);
        }
        let ghost before = views(self.stamps@);
        let mut stamps: Vec<Stamp> = Vec::new();
        assert(views(stamps@) =~= Seq::<StampView>::empty());
        std::mem::swap(&mut self.stamps, &mut stamps);
        let keep = |s: &Stamp| -> (b: bool)
            ensures
                b == (elapsed(s@.at, now) < min_interval),
            { since(s.at, now) < min_interval };
        let ghost young = |x: StampView| elapsed(x.at, now) < min_interval;
        retain(&mut stamps, keep, Ghost(young));
        proof {
            lemma_stamp_filter(before, young);
            lemma_stamp_recent(before, now, min_interval);
        }
        std::mem::swap(&mut self.stamps, &mut stamps);
    }

    /// Drops what was multicast `min_interval` ago or earlier.
    pub fn prune_older_than(&mut self, min_interval: u128)
        ensures
            exists|instant: Instant|
                old(self).time_at(instant) <= MAX_TIME && final(self)@ == recent(
                    old(self)@,
                    #[trigger] old(self).time_at(instant),
                    min_interval,
                ),
            final(self).clock() == old(self).clock(),
    {
        let now: u128 = self.now();
        self.prune_older_than_at(min_interval, now)
    }

    /// True if at time `now` at least `min_interval` has elapsed since `rec` was
    /// last multicast on `ifindex`, or it never was.
    pub fn allows_at(&self, ifindex: u32, rec: &Record, min_interval: u128, now: u128) -> (r: bool)
        ensures
            r == free(self@, slot_of(ifindex, rec@), now, min_interval),
    {
        proof {
            use_type_invariant(self);
        }
        match self.find(ifindex, rec) {
            Some(i) => {
                proof {
                    lemma_stamp_at(views(self.stamps@), i as int);
                }
                since(self.stamps[i].at, now) >= min_interval
            },
            None => true,
        }
    }

    /// True if at least `min_interval` has elapsed since `rec` was last multicast
    /// on `ifindex`, or it never was.
    pub fn allows(&self, ifindex: u32, rec: &Record, min_interval: u128) -> (r: bool)
        ensures
            exists|instant: Instant|
                self.time_at(instant) <= MAX_TIME && r == free(
                    self@,
                    slot_of(ifindex, rec@),
                    #[trigger] self.time_at(instant),
                    min_interval,
                ),
    {
        let now: u128 = self.now();
        self.allows_at(ifindex, rec, min_interval, now)
    }

    /// Takes the slot of `rec` on `ifindex` at time `now` if it is free. A slot
    /// that is not free keeps its time.
    pub fn check_and_mark_at(
        &mut self,
        ifindex: u32,
        rec: &Record,
        min_interval: u128,
        now: u128,
    ) -> (r: bool)
        ensures
            r == free(old(self)@, slot_of(ifindex, rec@), now, min_interval),
            final(self)@ == taken(old(self)@, slot_of(ifindex, rec@), now, min_interval),
            final(self).clock() == old(self).clock(),
    {
        if self.allows_at(ifindex, rec, min_interval, now) {
            self.mark_at(ifindex, rec, now);
            true
        } else {
            false
        }
    }

    /// Takes the slot of `rec` on `ifindex` if it is free now.
    pub fn check_and_mark(&mut self, ifindex: u32, rec: &Record, min_interval: u128) -> (r: bool)
        ensures
            exists|instant: Instant|
                #![trigger old(self).time_at(instant)]
                {
                    let now = old(self).time_at(instant);
                    let slot = slot_of(ifindex, rec@);
                    &&& now <= MAX_TIME
                    &&& r == free(old(self)@, slot, now, min_interval)
                    &&& final(self)@ == taken(old(self)@, slot, now, min_interval)
                },
            final(self).clock() == old(self).clock(),
    {
        let now: u128 = self.now();
        self.check_and_mark_at(ifindex, rec, min_interval, now)
    }
}

impl Default for MulticastTracker {
    fn default() -> (r: MulticastTracker)
        ensures
            r@ == Map::<Slot, int>::empty(),
    {
        MulticastTracker::new()
    }
}

/// The uses after an attempt to use `slot`.
pub open spec fn taken(last: Map<Slot, int>, slot: Slot, now: u128, interval: u128) -> Map<
    Slot,
    int,
> {
    if free(last, slot, now, interval) {
        last.insert(slot, now as int)
    } else {
        last
    }
}

fn since(at: u128, now: u128) -> (r: u128)
    ensures
        r == elapsed(at as int, now),
{
    if at <= now {
        now - at
    } else {
        0
    }
}

/// Classification of an outgoing response, governing its randomized delay.
#[derive(Debug, Clone, Copy, PartialEq, Eq, Structural)]
pub enum DelayClass {
    /// A record is defended against a probe: answered without delay.
    ProbeDefense,
    /// One question, answered only with records that the daemon owns alone:
    /// answered without delay.
    UniqueAnswer,
    /// Several questions, or an answer with shared records.
    Shared,
    /// More known answers are to follow.
    Truncated,
}

/// Least and greatest delay of a class, in milliseconds.
pub open spec fn delay_range(class: DelayClass) -> (u64, u64) {
    match class {
        DelayClass::ProbeDefense => (0, 0),
        DelayClass::UniqueAnswer => (0, 0),
        DelayClass::Shared => (20, 120),
        DelayClass::Truncated => (400, 500),
    }
}

/// Least and greatest delay of a class, in milliseconds.
pub fn delay_bounds(class: DelayClass) -> (r: (u64, u64))
    ensures
        r == delay_range(class),
{
    match class {
        DelayClass::ProbeDefense | DelayClass::UniqueAnswer => (0, 0),
        DelayClass::Shared => (20, 120),
        DelayClass::Truncated => (400, 500),
    }
}

/// `d` is a whole number of milliseconds from `low` to `high`.
pub open spec fn millis_within(d: u128, low: u64, high: u64) -> bool {
    &&& d % NANOS_PER_MILLI == 0
    &&& low <= d / NANOS_PER_MILLI <= high
}

/// A delay of `ms` milliseconds.
pub fn from_millis(ms: u64) -> (r: u128)
    ensures
        r == ms * NANOS_PER_MILLI,
{
    ms as u128 * NANOS_PER_MILLI
}

fn millis_between(low: u64, high: u64) -> (r: u128)
    requires
        low <= high,
    ensures
        millis_within(r, low, high),
{
    from_millis(random_between(low, high))
}

/// Picks a random delay for `class`.
pub fn response_delay(class: DelayClass) -> (r: u128)
    ensures
        millis_within(r, delay_range(class).0, delay_range(class).1),
        class == DelayClass::ProbeDefense || class == DelayClass::UniqueAnswer ==> r == 0,
{
    let (low, high) = delay_bounds(class);
    if high == 0 {
        0
    } else {
        millis_between(low, high)
    }
}

/// The greatest delay, in milliseconds, that [`jitter_0_to_max`] draws for `max`. A
/// number of milliseconds that does not fit 64 bits is cut to its low 64 bits.
pub fn jitter_bound(max: u128) -> (r: u64)
    ensures
        r == (max / NANOS_PER_MILLI) as u64,
        r * NANOS_PER_MILLI <= max,
{
    let ms: u128 = max / NANOS_PER_MILLI;
    assert(ms as u64 <= ms) by (bit_vector);
    ms as u64
}

/// Picks a random delay of at most `max`, in whole milliseconds up to [`jitter_bound`].
pub fn jitter_0_to_max(max: u128) -> (r: u128)
    ensures
        millis_within(r, 0, (max / NANOS_PER_MILLI) as u64),
        r <= max,
{
    millis_between(0, jitter_bound(max))
}

/// Picks a random delay from 20 to 120 ms, for the first query (section 5.2).
pub fn first_query_jitter() -> (r: u128)
    ensures
        millis_within(r, 20, 120),
{
    millis_between(20, 120)
}

} // verus!
