//! mDNS record cache.
//!
//! Stores records observed on the wire by name, type, class and data, and tracks
//! the lifetime of each and the interface where it was learned. A periodic
//! [`Cache::evict_expired`] sweep removes entries past their deadline, and an
//! upper bound on the number of entries keeps a peer that floods the link with
//! bogus records from exhausting memory (RFC 6762 section 16).
//!
//! Every operation that depends on the time comes in two forms: one that takes
//! the time as an argument and one that reads the clock.

use vstd::prelude::*;

use std::time::Instant;

use crate::clock::{Clock, MAX_TIME, NANOS_PER_SEC};
use crate::dns::{KeyView, Name, NameView, Record, RecordType, RecordView};
use crate::seqs::{collect_some, lemma_views_push, retain, views};

verus! {

broadcast use vstd::seq_lib::group_filter_ensures;

/// Default ceiling on the number of cached records.
pub const DEFAULT_MAX_ENTRIES: usize = 4096;

/// Outcome of [`Cache::insert`].
#[derive(Debug, Clone, Copy, PartialEq, Eq, Structural)]
pub enum InsertOutcome {
    /// Newly cached record.
    Inserted,
    /// Replaced an existing entry (refreshed lifetime).
    Refreshed,
    /// Goodbye; an existing entry was removed.
    GoodbyeRemoved,
    /// Goodbye; nothing to remove.
    GoodbyeNoOp,
    /// The record was not admitted. The cache always makes room, so that it
    /// never answers this.
    Rejected,
}

/// What an [`Entry`] denotes.
#[verifier::ext_equal]
pub struct EntryView {
    pub record: RecordView,
    pub deadline: int,
    pub source: Option<u32>,
}

/// A cached record, when it expires, and where it was learned.
#[derive(Debug)]
pub struct Entry {
    pub record: Record,
    /// Nanoseconds on the clock of the cache.
    pub deadline: u128,
    pub source_ifindex: Option<u32>,
}

impl View for Entry {
    type V = EntryView;

    open spec fn view(&self) -> EntryView {
        EntryView {
            record: self.record@,
            deadline: self.deadline as int,
            source: self.source_ifindex,
        }
    }
}

/// What a [`Cache`] denotes: its entries in the order in which they were
/// admitted, and its two limits.
#[verifier::ext_equal]
pub struct CacheView {
    pub entries: Seq<EntryView>,
    pub max_entries: usize,
    pub max_ttl: Option<u64>,
}

/// Some entry holds the record with this identity.
pub open spec fn has_key(entries: Seq<EntryView>, key: KeyView) -> bool {
    exists|i: int| #![trigger entries[i]] 0 <= i < entries.len() && entries[i].record.key() == key
}

/// No record is held twice.
pub open spec fn distinct_keys(entries: Seq<EntryView>) -> bool {
    forall|i: int, j: int| #![trigger entries[i], entries[j]]
        0 <= i < j < entries.len() ==> entries[i].record.key() != entries[j].record.key()
}

impl CacheView {
    /// Room for at least one entry, no more entries than that, no record twice.
    pub open spec fn valid(self) -> bool {
        &&& 1 <= self.max_entries
        &&& self.entries.len() <= self.max_entries
        &&& distinct_keys(self.entries)
    }
}

/// The record with its lifetime cut down to the limit. A goodbye stays one.
pub open spec fn capped(r: RecordView, max_ttl: Option<u64>) -> RecordView {
    match max_ttl {
        Some(cap) => if r.ttl > cap as u32 {
            r.with_ttl(cap as u32)
        } else {
            r
        },
        None => r,
    }
}

/// `old` is other data for the name, type and class of `new`.
pub open spec fn superseded(old: RecordView, new: RecordView) -> bool {
    &&& old.name.folded() == new.name.folded()
    &&& old.rtype() == new.rtype()
    &&& old.class == new.class
    &&& old.data.folded() != new.data.folded()
}

/// The entries that stay when `r` arrives: all of them, unless its cache-flush
/// bit makes other data for the same name, type and class out of date.
pub open spec fn unflushed(entries: Seq<EntryView>, r: RecordView) -> Seq<EntryView> {
    if r.cache_flush {
        entries.filter(|e: EntryView| !superseded(e.record, r))
    } else {
        entries
    }
}

/// The entry for the record of `e` is replaced by `e`, which keeps the known
/// source when it brings none of its own.
pub open spec fn refreshed(entries: Seq<EntryView>, e: EntryView) -> Seq<EntryView> {
    entries.map_values(
        |old: EntryView|
            if old.record.key() == e.record.key() {
                EntryView { source: if e.source is Some { e.source } else { old.source }, ..e }
            } else {
                old
            },
    )
}

/// Entry `i` expires before all others, and before those admitted earlier
/// strictly so.
pub open spec fn is_soonest(entries: Seq<EntryView>, i: int) -> bool {
    &&& 0 <= i < entries.len()
    &&& forall|j: int| #![trigger entries[j]]
        0 <= j < entries.len() ==> entries[i].deadline <= entries[j].deadline
    &&& forall|j: int| #![trigger entries[j]]
        0 <= j < i ==> entries[i].deadline < entries[j].deadline
}

/// The entries without the one that expires first, where there is no room for
/// one more.
pub open spec fn with_room(entries: Seq<EntryView>, max_entries: usize) -> Seq<EntryView> {
    if entries.len() >= max_entries {
        entries.remove(choose|i: int| is_soonest(entries, i))
    } else {
        entries
    }
}

/// When a record received at `now` expires.
pub open spec fn deadline_of(r: RecordView, now: u128) -> int {
    now + r.ttl * NANOS_PER_SEC
}

/// The cache after `r` was received at time `now`, and what became of `r`.
pub open spec fn inserted(
    c: CacheView,
    r: RecordView,
    source: Option<u32>,
    now: u128,
) -> (CacheView, InsertOutcome) {
    let r = capped(r, c.max_ttl);
    if r.ttl == 0 {
        let outcome = if has_key(c.entries, r.key()) {
            InsertOutcome::GoodbyeRemoved
        } else {
            InsertOutcome::GoodbyeNoOp
        };
        (
            CacheView {
                entries: c.entries.filter(|e: EntryView| e.record.key() != r.key()),
                ..c
            },
            outcome,
        )
    } else {
        let kept = unflushed(c.entries, r);
        let e = EntryView { record: r, deadline: deadline_of(r, now), source };
        if has_key(kept, r.key()) {
            (CacheView { entries: refreshed(kept, e), ..c }, InsertOutcome::Refreshed)
        } else {
            (
                CacheView { entries: with_room(kept, c.max_entries).push(e), ..c },
                InsertOutcome::Inserted,
            )
        }
    }
}

/// A bounded store of records.
#[derive(Debug)]
pub struct Cache {
    entries: Vec<Entry>,
    max_entries: usize,
    max_ttl: Option<u64>,
    clock: Clock,
}

impl View for Cache {
    type V = CacheView;

    closed spec fn view(&self) -> CacheView {
        CacheView {
            entries: views(self.entries@),
            max_entries: self.max_entries,
            max_ttl: self.max_ttl,
        }
    }
}

/// Filtering keeps records distinct.
pub(crate) proof fn lemma_filter_distinct(entries: Seq<EntryView>, p: spec_fn(EntryView) -> bool)
    requires
        distinct_keys(entries),
    ensures
        distinct_keys(entries.filter(p)),
    decreases entries.len(),
{
    reveal(Seq::filter);
    if entries.len() > 0 {
        let rest = entries.drop_last();
        lemma_filter_distinct(rest, p);
        if p(entries.last()) {
            let out = entries.filter(p);
            assert forall|i: int, j: int| #![trigger out[i], out[j]]
                0 <= i < j < out.len() implies out[i].record.key() != out[j].record.key() by {
                if j == out.len() - 1 {
                    rest.lemma_filter_contains_rev(p, out[i]);
                    let k = choose|k: int| 0 <= k < rest.len() && rest[k] == out[i];
                    assert(entries[k] == out[i]);
                    assert(entries[entries.len() - 1] == out[j]);
                }
            }
        }
    }
}

/// The position of the record's entry.
fn find(entries: &Vec<Entry>, record: &Record) -> (r: Option<usize>)
    ensures
        match r {
            Some(i) => i < entries.len() && views(entries@)[i as int].record.key()
                == record@.key(),
            None => !has_key(views(entries@), record@.key()),
        },
{
    let mut i: usize = 0;
    while i < entries.len()
        invariant
            i <= entries.len(),
            forall|k: int| #![trigger views(entries@)[k]]
                0 <= k < i ==> views(entries@)[k].record.key() != record@.key(),
        decreases entries.len() - i,
    {
        if entries[i].record == *record {
            return Some(i);
        }
        i += 1;
    }
    None
}

/// The position of the entry that expires first.
fn soonest(entries: &Vec<Entry>) -> (r: usize)
    requires
        entries.len() > 0,
    ensures
        is_soonest(views(entries@), r as int),
{
    let ghost all = views(entries@);
    let mut best: usize = 0;
    let mut i: usize = 1;
    while i < entries.len()
        invariant
            best < i <= entries.len(),
            all == views(entries@),
            forall|j: int| #![trigger all[j]] 0 <= j < i ==> all[best as int].deadline
                <= all[j].deadline,
            forall|j: int| #![trigger all[j]] 0 <= j < best ==> all[best as int].deadline
                < all[j].deadline,
        decreases entries.len() - i,
    {
        assert(all[i as int].deadline == entries@[i as int].deadline);
        assert(all[best as int].deadline == entries@[best as int].deadline);
        if entries[i].deadline < entries[best].deadline {
            best = i;
        }
        i += 1;
    }
    best
}

/// Removes the entry of the record, if there is one.
fn forget(entries: &mut Vec<Entry>, record: &Record) -> (r: bool)
    requires
        distinct_keys(views(old(entries)@)),
    ensures
        r == has_key(views(old(entries)@), record@.key()),
        views(final(entries)@) == views(old(entries)@).filter(
            |e: EntryView| e.record.key() != record@.key(),
        ),
        distinct_keys(views(final(entries)@)),
        final(entries)@.len() <= old(entries)@.len(),
{
    let found = find(entries, record);
    let ghost before = views(entries@);
    let ghost gone = |e: EntryView| e.record.key() != record@.key();
    let keep = |e: &Entry| -> (b: bool)
        ensures
            b == (e@.record.key() != record@.key()),
        {
            let same = e.record == *record;
            !same
        };
    retain(entries, keep, Ghost(gone));
    proof {
        lemma_filter_distinct(before, gone);
        assert(views(entries@).len() == entries@.len());
    }
    found.is_some()
}

/// Removes what the cache-flush bit of the record makes out of date.
fn flush(entries: &mut Vec<Entry>, record: &Record)
    requires
        distinct_keys(views(old(entries)@)),
    ensures
        views(final(entries)@) == unflushed(views(old(entries)@), record@),
        distinct_keys(views(final(entries)@)),
        final(entries)@.len() <= old(entries)@.len(),
{
    if record.mdns_cache_flush {
        let ghost before = views(entries@);
        let ghost stays = |e: EntryView| !superseded(e.record, record@);
        let keep = |e: &Entry| -> (b: bool)
            ensures
                b == !superseded(e@.record, record@),
            {
                let same_set = e.record.name == record.name && e.record.record_type()
                    == record.record_type() && e.record.dns_class == record.dns_class;
                let same_data = e.record.data == record.data;
                !same_set || same_data
            };
        retain(entries, keep, Ghost(stays));
        proof {
            lemma_filter_distinct(before, stays);
            assert(views(entries@).len() == entries@.len());
        }
    }
}

/// Puts `entry` in the place of the entry of its record, or at the end, where there
/// is none; then the entry that expires first makes room if need be.
fn store(entries: &mut Vec<Entry>, entry: Entry, max_entries: usize) -> (outcome: InsertOutcome)
    requires
        distinct_keys(views(old(entries)@)),
        1 <= max_entries,
        old(entries)@.len() <= max_entries,
    ensures
        ({
            let kept = views(old(entries)@);
            if has_key(kept, entry@.record.key()) {
                &&& outcome == InsertOutcome::Refreshed
                &&& views(final(entries)@) == refreshed(kept, entry@)
            } else {
                &&& outcome == InsertOutcome::Inserted
                &&& views(final(entries)@) == with_room(kept, max_entries).push(entry@)
            }
        }),
        distinct_keys(views(final(entries)@)),
        final(entries)@.len() <= max_entries,
{
    let ghost kept = views(entries@);
    let ghost e = entry@;
    match find(entries, &entry.record) {
        Some(i) => {
            let source_ifindex = match entry.source_ifindex {
                Some(s) => Some(s),
                None => entries[i].source_ifindex,
            };
            entries.set(
                i,
                Entry { record: entry.record, deadline: entry.deadline, source_ifindex },
            );
            assert(has_key(kept, e.record.key()));
            assert(views(entries@) =~= refreshed(kept, e));
            InsertOutcome::Refreshed
        },
        None => {
            if entries.len() >= max_entries {
                let i: usize = soonest(entries);
                let ghost chosen = choose|i: int| is_soonest(kept, i);
                assert(chosen == i) by {
                    assert(is_soonest(kept, chosen));
                    assert(kept[chosen].deadline <= kept[i as int].deadline);
                    assert(kept[i as int].deadline <= kept[chosen].deadline);
                }
                let ghost before = entries@;
                let _ = entries.remove(i);
                assert(views(entries@) =~= views(before).remove(i as int));
            }
            let ghost room = views(entries@);
            assert(room == with_room(kept, max_entries));
            assert forall|k: int| 0 <= k < room.len() implies #[trigger] room[k].record.key()
                != e.record.key() by {
                assert(room[k] == kept[k] || room[k] == kept[k + 1]);
            }
            proof {
                lemma_views_push(entries@, entry);
            }
            entries.push(entry);
            InsertOutcome::Inserted
        },
    }
}

impl Cache {
    #[verifier::type_invariant]
    closed spec fn well_formed(self) -> bool {
        self@.valid()
    }

    /// An empty cache of the default size.
    pub fn new() -> (r: Cache)
        ensures
            r@ == (CacheView {
                entries: Seq::empty(),
                max_entries: DEFAULT_MAX_ENTRIES,
                max_ttl: None,
            }),
            r@.valid(),
    {
        Cache::with_capacity(DEFAULT_MAX_ENTRIES)
    }

    /// An empty cache for up to `max_entries` records, at least one.
    pub fn with_capacity(max_entries: usize) -> (r: Cache)
        ensures
            r@ == (CacheView {
                entries: Seq::empty(),
                max_entries: if max_entries == 0 { 1 } else { max_entries },
                max_ttl: None,
            }),
            r@.valid(),
    {
        Cache::with_capacity_and_max_ttl(max_entries, None)
    }

    /// An empty cache whose records live for at most `max_ttl` seconds.
    pub fn with_capacity_and_max_ttl(max_entries: usize, max_ttl: Option<u64>) -> (r: Cache)
        ensures
            r@ == (CacheView {
                entries: Seq::empty(),
                max_entries: if max_entries == 0 { 1 } else { max_entries },
                max_ttl,
            }),
            r@.valid(),
    {
        let entries: Vec<Entry> = Vec::new();
        assert(views(entries@) =~= Seq::empty());
        Cache {
            entries,
            max_entries: if max_entries == 0 { 1 } else { max_entries },
            max_ttl,
            clock: Clock::new(),
        }
    }

    /// Inserts or refreshes a record that was learned on interface
    /// `source_ifindex` at time `now`.
    ///
    /// A lifetime of zero removes the record (RFC 6762 section 10.1). The
    /// cache-flush bit removes other data for the same name, type and class
    /// (section 10.2). A full cache gives up the entry that expires first.
    pub fn insert_from_at(
        &mut self,
        record: Record,
        source_ifindex: Option<u32>,
        now: u128,
    ) -> (outcome: InsertOutcome)
        requires
            now <= MAX_TIME,
        ensures
            (final(self)@, outcome) == inserted(old(self)@, record@, source_ifindex, now),
            final(self)@.valid(),
            final(self).clock() == old(self).clock(),
    {
        proof {
            use_type_invariant(&*self);
        }
        let ghost c = self@;
        let mut record = record;
        if let Some(cap) = self.max_ttl {
            let cap: u32 = cap as u32;
            if record.ttl > cap {
                record.ttl = cap;
            }
        }
        let max_entries: usize = self.max_entries;
        let mut entries: Vec<Entry> = Vec::new();
        assert(views(entries@) =~= Seq::<EntryView>::empty());
        std::mem::swap(&mut self.entries, &mut entries);
        let outcome = if record.ttl == 0 {
            if forget(&mut entries, &record) {
                InsertOutcome::GoodbyeRemoved
            } else {
                InsertOutcome::GoodbyeNoOp
            }
        } else {
            flush(&mut entries, &record);
            let deadline: u128 = now + record.ttl as u128 * NANOS_PER_SEC;
            store(&mut entries, Entry { record, deadline, source_ifindex }, max_entries)
        };
        std::mem::swap(&mut self.entries, &mut entries);
        outcome
    }

    /// Inserts or refreshes a record that was learned on interface
    /// `source_ifindex` just now; see [`Cache::insert_from_at`].
    pub fn insert_from(&mut self, record: Record, source_ifindex: Option<u32>) -> (outcome:
        InsertOutcome)
        ensures
            exists|instant: Instant|
                old(self).time_at(instant) <= MAX_TIME && (final(self)@, outcome) == inserted(
                    old(self)@,
                    record@,
                    source_ifindex,
                    #[trigger] old(self).time_at(instant),
                ),
            final(self)@.valid(),
            final(self).clock() == old(self).clock(),
    {
        let now: u128 = self.now();
        self.insert_from_at(record, source_ifindex, now)
    }

    /// Inserts or refreshes a record without a source interface.
    pub fn insert(&mut self, record: Record) -> (outcome: InsertOutcome)
        ensures
            exists|instant: Instant|
                old(self).time_at(instant) <= MAX_TIME && (final(self)@, outcome) == inserted(
                    old(self)@,
                    record@,
                    None,
                    #[trigger] old(self).time_at(instant),
                ),
            final(self)@.valid(),
            final(self).clock() == old(self).clock(),
    {
        self.insert_from(record, None)
    }

    /// Number of entries.
    pub fn len(&self) -> (r: usize)
        ensures
            r == self@.entries.len(),
            r <= self@.max_entries,
    {
        proof {
            use_type_invariant(self);
        }
        self.entries.len()
    }

    pub fn is_empty(&self) -> (r: bool)
        ensures
            r == (self@.entries.len() == 0),
    {
        self.entries.len() == 0
    }

    /// The cache's own clock, by which its deadlines are set.
    pub closed spec fn clock(&self) -> Clock {
        self.clock
    }

    /// What the cache's own clock shows at an instant.
    pub open spec fn time_at(&self, instant: Instant) -> u128 {
        self.clock().time_at(instant)
    }

    /// The time on the cache's own clock at the present instant.
    pub(crate) fn now(&self) -> (r: u128)
        ensures
            exists|instant: Instant| r == #[trigger] self.time_at(instant),
            r <= MAX_TIME,
    {
        let r: u128 = self.clock.now();
        proof {
            let instant = choose|instant: Instant| r == #[trigger] self.clock.time_at(instant);
            assert(r == self.time_at(instant));
        }
        r
    }

    /// Removes the entries whose deadline is not after `now`. Returns their
    /// number.
    pub fn evict_expired_at(&mut self, now: u128) -> (n: usize)
        ensures
            final(self)@ == evicted(old(self)@, now),
            final(self)@.valid(),
            final(self).clock() == old(self).clock(),
            n == old(self)@.entries.len() - final(self)@.entries.len(),
    {
        proof {
            use_type_invariant(&*self);
        }
        let ghost c = self@;
        let before: usize = self.entries.len();
        let mut entries: Vec<Entry> = Vec::new();
        assert(views(entries@) =~= Seq::<EntryView>::empty());
        std::mem::swap(&mut self.entries, &mut entries);
        let ghost alive = |e: EntryView| e.deadline > now;
        let keep = |e: &Entry| -> (b: bool)
            ensures
                b == (e@.deadline > now),
            { e.deadline > now };
        retain(&mut entries, keep, Ghost(alive));
        proof {
            lemma_filter_distinct(c.entries, alive);
        }
        let after: usize = entries.len();
        assert(views(entries@).len() == after);
        std::mem::swap(&mut self.entries, &mut entries);
        before - after
    }

    /// Removes all entries past their deadline. Returns their number.
    pub fn evict_expired(&mut self) -> (n: usize)
        ensures
            exists|instant: Instant|
                old(self).time_at(instant) <= MAX_TIME && final(self)@ == evicted(
                    old(self)@,
                    #[trigger] old(self).time_at(instant),
                ),
            final(self)@.valid(),
            final(self).clock() == old(self).clock(),
            n == old(self)@.entries.len() - final(self)@.entries.len(),
    {
        let now: u128 = self.now();
        self.evict_expired_at(now)
    }

    /// The live records for `name` and `rtype` at time `now`, with the lifetimes
    /// that remain to them. `ANY` matches every type.
    pub fn lookup_at(&self, name: &Name, rtype: RecordType, now: u128) -> (r: Vec<Record>)
        ensures
            views(r@) == found(self@, name@, rtype, now),
    {
        let f = |e: &Entry| -> (o: Option<Record>)
            ensures
                match o {
                    Some(x) => match_at(e@, name@, rtype, now) == Some(x@),
                    None => match_at(e@, name@, rtype, now) is None,
                },
            {
                if record_matches(&e.record, name, rtype) {
                    record_with_remaining_ttl(e, now)
                } else {
                    None
                }
            };
        collect_some(&self.entries, f, Ghost(|e: EntryView| match_at(e, name@, rtype, now)))
    }

    /// The live records for `name` and `rtype`; see [`Cache::lookup_at`].
    pub fn lookup(&self, name: &Name, rtype: RecordType) -> (r: Vec<Record>)
        ensures
            exists|instant: Instant|
                self.time_at(instant) <= MAX_TIME && views(r@) == found(
                    self@,
                    name@,
                    rtype,
                    #[trigger] self.time_at(instant),
                ),
    {
        let now: u128 = self.now();
        self.lookup_at(name, rtype, now)
    }

    /// The live records for `name` and `rtype` at time `now` that were learned on
    /// another interface than `arrival_ifindex`.
    ///
    /// They are relayed onto a link whose records the daemon does not own, so
    /// that their cache-flush bit is cleared (RFC 6762 section 10.2).
    pub fn lookup_from_other_ifaces_at(
        &self,
        name: &Name,
        rtype: RecordType,
        arrival_ifindex: u32,
        now: u128,
    ) -> (r: Vec<Record>)
        ensures
            views(r@) == found_elsewhere(self@, name@, rtype, arrival_ifindex, now),
    {
        let f = |e: &Entry| -> (o: Option<Record>)
            ensures
                match o {
                    Some(x) => relayed_at(e@, name@, rtype, arrival_ifindex, now) == Some(x@),
                    None => relayed_at(e@, name@, rtype, arrival_ifindex, now) is None,
                },
            {
                let elsewhere = match e.source_ifindex {
                    Some(source) => source != arrival_ifindex,
                    None => false,
                };
                if record_matches(&e.record, name, rtype) && elsewhere {
                    match record_with_remaining_ttl(e, now) {
                        Some(record) => {
                            let mut record = record;
                            record.mdns_cache_flush = false;
                            Some(record)
                        },
                        None => None,
                    }
                } else {
                    None
                }
            };
        collect_some(
            &self.entries,
            f,
            Ghost(|e: EntryView| relayed_at(e, name@, rtype, arrival_ifindex, now)),
        )
    }

    /// The live records for `name` and `rtype` that were learned on another
    /// interface; see [`Cache::lookup_from_other_ifaces_at`].
    pub fn lookup_from_other_ifaces(
        &self,
        name: &Name,
        rtype: RecordType,
        arrival_ifindex: u32,
    ) -> (r: Vec<Record>)
        ensures
            exists|instant: Instant|
                self.time_at(instant) <= MAX_TIME && views(r@) == found_elsewhere(
                    self@,
                    name@,
                    rtype,
                    arrival_ifindex,
                    #[trigger] self.time_at(instant),
                ),
    {
        let now: u128 = self.now();
        self.lookup_from_other_ifaces_at(name, rtype, arrival_ifindex, now)
    }

    /// Every live record at time `now`.
    pub fn snapshot_at(&self, now: u128) -> (r: Vec<Record>)
        ensures
            views(r@) == all_live(self@, now),
    {
        let f = |e: &Entry| -> (o: Option<Record>)
            ensures
                match o {
                    Some(x) => live_at(e@, now) == Some(x@),
                    None => live_at(e@, now) is None,
                },
            { record_with_remaining_ttl(e, now) };
        collect_some(&self.entries, f, Ghost(|e: EntryView| live_at(e, now)))
    }

    /// Every live record.
    pub fn snapshot(&self) -> (r: Vec<Record>)
        ensures
            exists|instant: Instant|
                self.time_at(instant) <= MAX_TIME && views(r@) == all_live(
                    self@,
                    #[trigger] self.time_at(instant),
                ),
    {
        let now: u128 = self.now();
        self.snapshot_at(now)
    }
}

impl Default for Cache {
    fn default() -> (r: Cache)
        ensures
            r@ == (CacheView {
                entries: Seq::empty(),
                max_entries: DEFAULT_MAX_ENTRIES,
                max_ttl: None,
            }),
            r@.valid(),
    {
        Cache::new()
    }
}

/// Whole seconds until `deadline`, rounded up, or nothing when it has passed.
pub open spec fn remaining_ttl(deadline: int, now: int) -> Option<u32> {
    if deadline <= now {
        None
    } else {
        let secs = (deadline - now + NANOS_PER_SEC - 1) / NANOS_PER_SEC as int;
        Some(if secs < u32::MAX { secs as u32 } else { u32::MAX })
    }
}

/// The record of `e` with the lifetime that remains at `now`, unless it is over.
pub open spec fn live_at(e: EntryView, now: u128) -> Option<RecordView> {
    match remaining_ttl(e.deadline, now as int) {
        Some(ttl) => Some(e.record.with_ttl(ttl)),
        None => None,
    }
}

/// What `e` contributes to a lookup.
pub open spec fn match_at(e: EntryView, name: NameView, rtype: RecordType, now: u128) -> Option<
    RecordView,
> {
    if e.record.answers(name, rtype) {
        live_at(e, now)
    } else {
        None
    }
}

/// What `e` contributes to a lookup for interface `arrival`.
pub open spec fn relayed_at(
    e: EntryView,
    name: NameView,
    rtype: RecordType,
    arrival: u32,
    now: u128,
) -> Option<RecordView> {
    if e.source is Some && e.source != Some(arrival) {
        match match_at(e, name, rtype, now) {
            Some(r) => Some(r.with_cache_flush(false)),
            None => None,
        }
    } else {
        None
    }
}

/// The cache without the entries whose deadline is not after `now`.
pub open spec fn evicted(c: CacheView, now: u128) -> CacheView {
    CacheView { entries: c.entries.filter(|e: EntryView| e.deadline > now), ..c }
}

/// The answer of [`Cache::lookup_at`].
pub open spec fn found(c: CacheView, name: NameView, rtype: RecordType, now: u128) -> Seq<
    RecordView,
> {
    c.entries.filter_map(|e: EntryView| match_at(e, name, rtype, now))
}

/// The answer of [`Cache::lookup_from_other_ifaces_at`].
pub open spec fn found_elsewhere(
    c: CacheView,
    name: NameView,
    rtype: RecordType,
    arrival: u32,
    now: u128,
) -> Seq<RecordView> {
    c.entries.filter_map(|e: EntryView| relayed_at(e, name, rtype, arrival, now))
}

/// The answer of [`Cache::snapshot_at`].
pub open spec fn all_live(c: CacheView, now: u128) -> Seq<RecordView> {
    c.entries.filter_map(|e: EntryView| live_at(e, now))
}

fn record_matches(record: &Record, name: &Name, rtype: RecordType) -> (r: bool)
    ensures
        r == record@.answers(name@, rtype),
{
    record.name == *name && (rtype == RecordType::ANY || record.record_type() == rtype)
}

fn record_with_remaining_ttl(entry: &Entry, now: u128) -> (r: Option<Record>)
    ensures
        match r {
            Some(x) => live_at(entry@, now) == Some(x@),
            None => live_at(entry@, now) is None,
        },
{
    if entry.deadline <= now {
        return None;
    }
    let left: u128 = entry.deadline - now;
    let secs: u128 = (left - 1) / NANOS_PER_SEC + 1;
    assert(secs == (left + NANOS_PER_SEC - 1) / NANOS_PER_SEC as int);
    let ttl: u32 = if secs < u32::MAX as u128 { secs as u32 } else { u32::MAX };
    let mut record = entry.record.clone();
    record.ttl = ttl;
    Some(record)
}

} // verus!
