//! Laws of the record cache.

use vstd::prelude::*;

use crate::cache::{
    all_live, capped, deadline_of, distinct_keys, evicted, found, found_elsewhere, has_key,
    inserted, is_soonest, lemma_filter_distinct, live_at, match_at, refreshed, relayed_at,
    remaining_ttl, superseded, unflushed, with_room, CacheView, EntryView, InsertOutcome,
};

use crate::dns::{KeyView, NameView, RecordType, RecordView};
use crate::laws::dns::{names_are_the_same_in_any_case, same_name};

verus! {

broadcast use vstd::seq_lib::group_filter_ensures;

/// An item of a filtered sequence was there before.
proof fn lemma_from_filter(entries: Seq<EntryView>, p: spec_fn(EntryView) -> bool, i: int)
    requires
        0 <= i < entries.filter(p).len(),
    ensures
        p(entries.filter(p)[i]),
        entries.contains(entries.filter(p)[i]),
{
    assert(entries.filter(p).contains(entries.filter(p)[i]));
    entries.lemma_filter_contains_rev(p, entries.filter(p)[i]);
}

/// A non-empty sequence of entries has one that expires first.
proof fn lemma_some_soonest(entries: Seq<EntryView>) -> (i: int)
    requires
        entries.len() > 0,
    ensures
        is_soonest(entries, i),
    decreases entries.len(),
{
    if entries.len() == 1 {
        0
    } else {
        let rest = entries.drop_last();
        let i = lemma_some_soonest(rest);
        assert forall|j: int| 0 <= j < rest.len() implies #[trigger] rest[j] == entries[j] by {}
        let last = entries.len() - 1;
        if entries[last].deadline < entries[i].deadline {
            assert forall|j: int| #![trigger entries[j]]
                0 <= j < entries.len() implies entries[last].deadline <= entries[j].deadline by {
                if j < last {
                    assert(rest[j] == entries[j]);
                }
            }
            assert forall|j: int| #![trigger entries[j]]
                0 <= j < last implies entries[last].deadline < entries[j].deadline by {
                assert(rest[j] == entries[j]);
            }
            last
        } else {
            assert forall|j: int| #![trigger entries[j]]
                0 <= j < entries.len() implies entries[i].deadline <= entries[j].deadline by {
                if j < last {
                    assert(rest[j] == entries[j]);
                }
            }
            assert forall|j: int| #![trigger entries[j]]
                0 <= j < i implies entries[i].deadline < entries[j].deadline by {
                assert(rest[j] == entries[j]);
            }
            i
        }
    }
}

proof fn lemma_unflushed(entries: Seq<EntryView>, r: RecordView)
    requires
        distinct_keys(entries),
    ensures
        distinct_keys(unflushed(entries, r)),
        unflushed(entries, r).len() <= entries.len(),
{
    lemma_filter_distinct(entries, |e: EntryView| !superseded(e.record, r));
}

/// Every insertion keeps the cache valid: no record is held twice and the number
/// of entries stays within the limit.
pub proof fn insertion_keeps_cache_valid(
    c: CacheView,
    r: RecordView,
    source: Option<u32>,
    now: u128,
)
    requires
        c.valid(),
    ensures
        inserted(c, r, source, now).0.valid(),
        inserted(c, r, source, now).0.max_entries == c.max_entries,
        inserted(c, r, source, now).0.max_ttl == c.max_ttl,
{
    let r = capped(r, c.max_ttl);
    if r.ttl == 0 {
        lemma_filter_distinct(c.entries, |e: EntryView| e.record.key() != r.key());
    } else {
        let kept = unflushed(c.entries, r);
        lemma_unflushed(c.entries, r);
        if !has_key(kept, r.key()) && kept.len() >= c.max_entries {
            let i = lemma_some_soonest(kept);
            assert(is_soonest(kept, choose|i: int| is_soonest(kept, i)));
        }
    }
}

/// A sweep keeps the cache valid.
pub proof fn eviction_keeps_cache_valid(c: CacheView, now: u128)
    requires
        c.valid(),
    ensures
        evicted(c, now).valid(),
{
    lemma_filter_distinct(c.entries, |e: EntryView| e.deadline > now);
}

/// The cache never turns a record away: a full cache makes room instead.
pub proof fn records_are_never_rejected(
    c: CacheView,
    r: RecordView,
    source: Option<u32>,
    now: u128,
)
    ensures
        inserted(c, r, source, now).1 != InsertOutcome::Rejected,
{
}

/// A goodbye removes the record that it names and nothing else, whatever limit on
/// lifetimes is set; it reports whether there was such a record.
pub proof fn goodbye_removes_exactly_its_record(
    c: CacheView,
    r: RecordView,
    source: Option<u32>,
    now: u128,
)
    requires
        r.ttl == 0,
    ensures
        !has_key(inserted(c, r, source, now).0.entries, r.key()),
        forall|e: EntryView|
            e.record.key() != r.key() ==> (#[trigger] inserted(
                c,
                r,
                source,
                now,
            ).0.entries.contains(e) <==> c.entries.contains(e)),
        inserted(c, r, source, now).1 == (if has_key(c.entries, r.key()) {
            InsertOutcome::GoodbyeRemoved
        } else {
            InsertOutcome::GoodbyeNoOp
        }),
{
    let p = |e: EntryView| e.record.key() != r.key();
    assert(capped(r, c.max_ttl) == r);
    assert forall|i: int| 0 <= i < c.entries.filter(p).len() implies #[trigger] c.entries.filter(
        p,
    )[i].record.key() != r.key() by {
        lemma_from_filter(c.entries, p, i);
    }
    assert forall|e: EntryView| e.record.key() != r.key() implies (#[trigger] c.entries.filter(
        p,
    ).contains(e) <==> c.entries.contains(e)) by {
        if c.entries.contains(e) {
            let k = choose|k: int| 0 <= k < c.entries.len() && c.entries[k] == e;
            assert(p(c.entries[k]));
        }
        if c.entries.filter(p).contains(e) {
            c.entries.lemma_filter_contains_rev(p, e);
        }
    }
}

/// After a record with a lifetime has been received, the cache holds it, with the
/// lifetime counted from that moment.
pub proof fn inserted_record_is_held(c: CacheView, r: RecordView, source: Option<u32>, now: u128)
    requires
        capped(r, c.max_ttl).ttl > 0,
    ensures
        exists|i: int|
            #![trigger inserted(c, r, source, now).0.entries[i]]
            0 <= i < inserted(c, r, source, now).0.entries.len() && inserted(
                c,
                r,
                source,
                now,
            ).0.entries[i].record == capped(r, c.max_ttl) && inserted(
                c,
                r,
                source,
                now,
            ).0.entries[i].deadline == deadline_of(capped(r, c.max_ttl), now) && (source is Some
                ==> inserted(c, r, source, now).0.entries[i].source == source),
{
    let out = inserted(c, r, source, now).0.entries;
    let r = capped(r, c.max_ttl);
    let kept = unflushed(c.entries, r);
    let e = EntryView { record: r, deadline: deadline_of(r, now), source };
    if has_key(kept, r.key()) {
        let i = choose|i: int|
            #![trigger kept[i]]
            0 <= i < kept.len() && kept[i].record.key() == r.key();
        assert(out[i].record == r);
    } else {
        assert(out[out.len() - 1] == e);
    }
}

pub(crate) proof fn lemma_filter_map_has<A, B>(s: Seq<A>, f: spec_fn(A) -> Option<B>, i: int)
    requires
        0 <= i < s.len(),
        f(s[i]) is Some,
    ensures
        s.filter_map(f).contains(f(s[i])->0),
    decreases s.len(),
{
    let rest = s.drop_last();
    let out = s.filter_map(f);
    if i == s.len() - 1 {
        assert(out[out.len() - 1] == f(s[i])->0);
    } else {
        lemma_filter_map_has(rest, f, i);
        let k = choose|k: int|
            0 <= k < rest.filter_map(f).len() && rest.filter_map(f)[k] == f(rest[i])->0;
        assert(out[k] == rest.filter_map(f)[k]);
    }
}

pub(crate) proof fn lemma_filter_map_from<A, B>(s: Seq<A>, f: spec_fn(A) -> Option<B>, b: B) -> (i: int)
    requires
        s.filter_map(f).contains(b),
    ensures
        0 <= i < s.len(),
        f(s[i]) == Some(b),
    decreases s.len(),
{
    let rest = s.drop_last();
    let out = s.filter_map(f);
    let k = choose|k: int| 0 <= k < out.len() && out[k] == b;
    if f(s.last()) is Some && k == out.len() - 1 {
        s.len() - 1
    } else {
        assert(rest.filter_map(f)[k] == b);
        lemma_filter_map_from(rest, f, b)
    }
}

/// A record that was received is found again, by its name and type or by `ANY`,
/// until its lifetime is over.
pub proof fn inserted_record_is_found(
    c: CacheView,
    r: RecordView,
    source: Option<u32>,
    now: u128,
    later: u128,
)
    requires
        capped(r, c.max_ttl).ttl > 0,
        now <= later,
        later < deadline_of(capped(r, c.max_ttl), now),
    ensures
        ({
            let stored = capped(r, c.max_ttl);
            let ttl = remaining_ttl(deadline_of(stored, now), later as int)->0;
            let after = inserted(c, r, source, now).0;
            &&& 1 <= ttl <= stored.ttl <= r.ttl
            &&& found(after, r.name, r.rtype(), later).contains(stored.with_ttl(ttl))
            &&& found(after, r.name, RecordType::ANY, later).contains(stored.with_ttl(ttl))
            &&& all_live(after, later).contains(stored.with_ttl(ttl))
        }),
{
    let after = inserted(c, r, source, now).0;
    inserted_record_is_held(c, r, source, now);
    let stored = capped(r, c.max_ttl);
    let i = choose|i: int|
        #![trigger after.entries[i]]
        0 <= i < after.entries.len() && after.entries[i].record == stored
            && after.entries[i].deadline == deadline_of(stored, now);
    lemma_filter_map_has(
        after.entries,
        |e: EntryView| match_at(e, r.name, r.rtype(), later),
        i,
    );
    lemma_filter_map_has(
        after.entries,
        |e: EntryView| match_at(e, r.name, RecordType::ANY, later),
        i,
    );
    lemma_filter_map_has(after.entries, |e: EntryView| live_at(e, later), i);
}

/// A lookup gives out only records that the cache holds, that answer the question,
/// whose deadline is still to come, and with a lifetime of at least one second.
pub proof fn lookup_gives_only_live_matches(
    c: CacheView,
    name: NameView,
    rtype: RecordType,
    now: u128,
    r: RecordView,
)
    requires
        found(c, name, rtype, now).contains(r),
    ensures
        r.answers(name, rtype),
        r.ttl >= 1,
        exists|i: int|
            #![trigger c.entries[i]]
            0 <= i < c.entries.len() && c.entries[i].deadline > now && r
                == c.entries[i].record.with_ttl(r.ttl),
{
    let i = lemma_filter_map_from(
        c.entries,
        |e: EntryView| match_at(e, name, rtype, now),
        r,
    );
    assert(c.entries[i].record.with_ttl(r.ttl) == r);
}

/// What is relayed to interface `arrival` was learned on another interface, and
/// its cache-flush bit is clear.
pub proof fn relayed_records_come_from_elsewhere(
    c: CacheView,
    name: NameView,
    rtype: RecordType,
    arrival: u32,
    now: u128,
    r: RecordView,
)
    requires
        found_elsewhere(c, name, rtype, arrival, now).contains(r),
    ensures
        !r.cache_flush,
        r.answers(name, rtype),
        r.ttl >= 1,
        exists|i: int|
            #![trigger c.entries[i]]
            0 <= i < c.entries.len() && c.entries[i].record.key() == r.key()
                && c.entries[i].source is Some && c.entries[i].source != Some(arrival)
                && c.entries[i].deadline > now,
{
    let i = lemma_filter_map_from(
        c.entries,
        |e: EntryView| relayed_at(e, name, rtype, arrival, now),
        r,
    );
    assert(c.entries[i].record.key() == r.key());
}

/// A record that was learned on interface `source` is never relayed back to it.
pub proof fn records_are_not_relayed_to_their_source(
    c: CacheView,
    name: NameView,
    rtype: RecordType,
    arrival: u32,
    now: u128,
)
    requires
        forall|i: int|
            #![trigger c.entries[i]]
            0 <= i < c.entries.len() && c.entries[i].record.answers(name, rtype)
                ==> c.entries[i].source is None || c.entries[i].source == Some(arrival),
    ensures
        found_elsewhere(c, name, rtype, arrival, now).len() == 0,
{
    let out = found_elsewhere(c, name, rtype, arrival, now);
    if out.len() > 0 {
        assert(out.contains(out[0]));
        let i = lemma_filter_map_from(
            c.entries,
            |e: EntryView| relayed_at(e, name, rtype, arrival, now),
            out[0],
        );
        assert(c.entries[i].record.answers(name, rtype));
    }
}

/// After a record with the cache-flush bit has been received, no other data for
/// its name, type and class is left.
pub proof fn flush_leaves_no_stale_data(
    c: CacheView,
    r: RecordView,
    source: Option<u32>,
    now: u128,
    i: int,
)
    requires
        c.valid(),
        r.cache_flush,
        capped(r, c.max_ttl).ttl > 0,
        0 <= i < inserted(c, r, source, now).0.entries.len(),
    ensures
        !superseded(inserted(c, r, source, now).0.entries[i].record, r),
{
    let out = inserted(c, r, source, now).0.entries;
    let r = capped(r, c.max_ttl);
    let p = |e: EntryView| !superseded(e.record, r);
    let kept = unflushed(c.entries, r);
    assert forall|k: int| 0 <= k < kept.len() implies !superseded(
        (#[trigger] kept[k]).record,
        r,
    ) by {
        lemma_from_filter(c.entries, p, k);
    }
    if has_key(kept, r.key()) {
        assert(out[i] == refreshed(
            kept,
            EntryView { record: r, deadline: deadline_of(r, now), source },
        )[i]);
        assert(!superseded(kept[i].record, r));
    } else if kept.len() >= c.max_entries {
        let room = with_room(kept, c.max_entries);
        if kept.len() > 0 {
            let s = lemma_some_soonest(kept);
            let victim = choose|i: int| is_soonest(kept, i);
            assert(is_soonest(kept, victim));
            if i < room.len() {
                if i < victim {
                    assert(out[i] == kept[i]);
                } else {
                    assert(out[i] == kept[i + 1]);
                }
            }
        }
    } else if i < kept.len() {
        assert(out[i] == kept[i]);
    }
}

/// Receiving a record without the cache-flush bit into a cache with room removes
/// nothing: shared records add up.
pub proof fn shared_records_add_up(
    c: CacheView,
    r: RecordView,
    source: Option<u32>,
    now: u128,
    key: KeyView,
)
    requires
        !r.cache_flush,
        capped(r, c.max_ttl).ttl > 0,
        c.entries.len() < c.max_entries,
        has_key(c.entries, key),
    ensures
        has_key(inserted(c, r, source, now).0.entries, key),
        has_key(inserted(c, r, source, now).0.entries, r.key()),
{
    let out = inserted(c, r, source, now).0.entries;
    let i = choose|i: int|
        #![trigger c.entries[i]]
        0 <= i < c.entries.len() && c.entries[i].record.key() == key;
    assert(out[i].record.key() == key);
    inserted_record_is_held(c, r, source, now);
    let k = choose|k: int|
        #![trigger out[k]]
        0 <= k < out.len() && out[k].record == capped(r, c.max_ttl);
    assert(out[k].record.key() == r.key());
}

/// Records that differ in class, in type or in data are different records.
pub proof fn class_type_and_data_are_part_of_the_identity(a: RecordView, b: RecordView)
    ensures
        a.class != b.class ==> a.key() != b.key(),
        a.rtype() != b.rtype() ==> a.key() != b.key(),
        a.data.folded() != b.data.folded() ==> a.key() != b.key(),
        a.name.folded() != b.name.folded() ==> a.key() != b.key(),
{
}

/// A full cache gives up an entry that expires no later than any other, and keeps
/// all the rest.
pub proof fn full_cache_gives_up_the_soonest(
    c: CacheView,
    r: RecordView,
    source: Option<u32>,
    now: u128,
)
    requires
        c.valid(),
        capped(r, c.max_ttl).ttl > 0,
        !r.cache_flush,
        c.entries.len() == c.max_entries,
        !has_key(c.entries, r.key()),
    ensures
        inserted(c, r, source, now).1 == InsertOutcome::Inserted,
        inserted(c, r, source, now).0.entries.len() == c.entries.len(),
        exists|v: int|
            #![trigger c.entries[v]]
            is_soonest(c.entries, v) && !has_key(
                inserted(c, r, source, now).0.entries,
                c.entries[v].record.key(),
            ) && forall|j: int|
                #![trigger c.entries[j]]
                0 <= j < c.entries.len() && j != v ==> inserted(
                    c,
                    r,
                    source,
                    now,
                ).0.entries.contains(c.entries[j]),
{
    let out = inserted(c, r, source, now).0.entries;
    let s = lemma_some_soonest(c.entries);
    let v = choose|i: int| is_soonest(c.entries, i);
    assert(is_soonest(c.entries, v));
    let room = c.entries.remove(v);
    let stored = capped(r, c.max_ttl);
    assert(stored.key() == r.key());
    assert(out == room.push(
        EntryView { record: stored, deadline: deadline_of(stored, now), source },
    ));
    assert forall|k: int| 0 <= k < out.len() implies #[trigger] out[k].record.key()
        != c.entries[v].record.key() by {
        if k < v {
            assert(out[k] == c.entries[k]);
        } else if k < room.len() {
            assert(out[k] == c.entries[k + 1]);
        } else {
            assert(out[k].record.key() == r.key());
        }
    }
    assert forall|j: int| #![trigger c.entries[j]]
        0 <= j < c.entries.len() && j != v implies out.contains(c.entries[j]) by {
        if j < v {
            assert(out[j] == c.entries[j]);
        } else {
            assert(out[j - 1] == c.entries[j]);
        }
    }
    assert(c.entries[v] == c.entries[v]);
}

/// Every stored lifetime is within the limit.
pub open spec fn lifetimes_within(c: CacheView, cap: u32) -> bool {
    forall|i: int| #![trigger c.entries[i]] 0 <= i < c.entries.len() ==> c.entries[i].record.ttl
        <= cap
}

/// With a limit on lifetimes, no stored lifetime is ever above it.
pub proof fn lifetimes_stay_within_the_limit(
    c: CacheView,
    r: RecordView,
    source: Option<u32>,
    now: u128,
    cap: u32,
)
    requires
        c.valid(),
        c.max_ttl == Some(cap as u64),
        lifetimes_within(c, cap),
    ensures
        lifetimes_within(inserted(c, r, source, now).0, cap),
{
    assert(cap as u64 as u32 == cap);
    let out = inserted(c, r, source, now).0.entries;
    let r = capped(r, c.max_ttl);
    assert(r.ttl <= cap);
    if r.ttl == 0 {
        let p = |e: EntryView| e.record.key() != r.key();
        assert forall|k: int| 0 <= k < out.len() implies (#[trigger] out[k]).record.ttl <= cap by {
            lemma_from_filter(c.entries, p, k);
            let j = choose|j: int| 0 <= j < c.entries.len() && c.entries[j] == out[k];
            assert(c.entries[j].record.ttl <= cap);
        }
    } else {
        let p = |e: EntryView| !superseded(e.record, r);
        let kept = unflushed(c.entries, r);
        assert forall|k: int| 0 <= k < kept.len() implies (#[trigger] kept[k]).record.ttl
            <= cap by {
            if r.cache_flush {
                lemma_from_filter(c.entries, p, k);
                let j = choose|j: int| 0 <= j < c.entries.len() && c.entries[j] == kept[k];
                assert(c.entries[j].record.ttl <= cap);
            } else {
                assert(c.entries[k].record.ttl <= cap);
            }
        }
        let e = EntryView { record: r, deadline: deadline_of(r, now), source };
        if has_key(kept, r.key()) {
            assert forall|k: int| 0 <= k < out.len() implies (#[trigger] out[k]).record.ttl
                <= cap by {
                assert(out[k] == refreshed(kept, e)[k]);
                assert(kept[k].record.ttl <= cap);
            }
        } else {
            lemma_unflushed(c.entries, r);
            let room = with_room(kept, c.max_entries);
            if kept.len() >= c.max_entries {
                let s = lemma_some_soonest(kept);
                let v = choose|i: int| is_soonest(kept, i);
                assert(is_soonest(kept, v));
                assert forall|k: int| 0 <= k < out.len() implies (#[trigger] out[k]).record.ttl
                    <= cap by {
                    if k < v {
                        assert(out[k] == kept[k]);
                    } else if k < room.len() {
                        assert(out[k] == kept[k + 1]);
                    }
                }
            } else {
                assert forall|k: int| 0 <= k < out.len() implies (#[trigger] out[k]).record.ttl
                    <= cap by {
                    if k < kept.len() {
                        assert(out[k] == kept[k]);
                    }
                }
            }
        }
    }
}

/// A lifetime that is not above the limit is stored as it was received.
pub proof fn short_lifetimes_are_kept(r: RecordView, cap: u32)
    requires
        r.ttl <= cap,
    ensures
        capped(r, Some(cap as u64)) == r,
        capped(r, None) == r,
{
    assert(cap as u64 as u32 == cap);
}

/// A sweep removes just the entries that no lookup would give out any more.
pub proof fn eviction_does_not_change_lookups(
    c: CacheView,
    name: NameView,
    rtype: RecordType,
    now: u128,
    later: u128,
)
    requires
        now <= later,
    ensures
        found(evicted(c, now), name, rtype, later) == found(c, name, rtype, later),
{
    lemma_filter_then_map(
        c.entries,
        |e: EntryView| e.deadline > now,
        |e: EntryView| match_at(e, name, rtype, later),
    );
}

proof fn lemma_filter_then_map<A, B>(
    s: Seq<A>,
    p: spec_fn(A) -> bool,
    f: spec_fn(A) -> Option<B>,
)
    requires
        forall|a: A| !#[trigger] p(a) ==> f(a) is None,
    ensures
        s.filter(p).filter_map(f) == s.filter_map(f),
    decreases s.len(),
{
    reveal(Seq::filter);
    if s.len() > 0 {
        let rest = s.drop_last();
        lemma_filter_then_map(rest, p, f);
        if p(s.last()) {
            assert(s.filter(p).drop_last() =~= rest.filter(p));
        }
    }
}

/// The lifetime with which a record is stored: its own, cut down to the limit.
pub open spec fn stored_ttl(r: RecordView, limit: Option<u64>) -> u32 {
    match limit {
        Some(cap) if r.ttl > cap as u32 => cap as u32,
        _ => r.ttl,
    }
}

/// The two records have the same name, type and class.
pub open spec fn same_set(a: RecordView, b: RecordView) -> bool {
    same_name(a.name, b.name) && a.rtype() == b.rtype() && a.class == b.class
}

proof fn lemma_kept(entries: Seq<EntryView>, r: RecordView, e: EntryView)
    ensures
        unflushed(entries, r).contains(e) <==> entries.contains(e) && !(r.cache_flush && same_set(
            e.record,
            r,
        ) && e.record.data.folded() != r.data.folded()),
{
    names_are_the_same_in_any_case(e.record.name, r.name);
    let p = |x: EntryView| !superseded(x.record, r);
    if r.cache_flush {
        let out = entries.filter(p);
        if out.contains(e) {
            let k = choose|k: int| 0 <= k < out.len() && out[k] == e;
            lemma_from_filter(entries, p, k);
        }
        if entries.contains(e) && p(e) {
            let k = choose|k: int| 0 <= k < entries.len() && entries[k] == e;
            assert(out.contains(entries[k]));
        }
    }
}

proof fn lemma_kept_len(entries: Seq<EntryView>, r: RecordView)
    ensures
        unflushed(entries, r).len() <= entries.len(),
        unflushed(entries, r).len() == entries.len() ==> unflushed(entries, r) == entries,
{
    if r.cache_flush {
        lemma_filter_len(entries, |x: EntryView| !superseded(x.record, r));
    }
}

proof fn lemma_filter_len<A>(s: Seq<A>, p: spec_fn(A) -> bool)
    ensures
        s.filter(p).len() <= s.len(),
        s.filter(p).len() == s.len() ==> s.filter(p) == s,
    decreases s.len(),
{
    reveal(Seq::filter);
    if s.len() > 0 {
        lemma_filter_len(s.drop_last(), p);
        assert(s.drop_last().push(s.last()) =~= s);
    }
}

/// Whatever is received, an entry for another record stays in the cache unless the record is
/// a cache-flush of other data for its name, type and class, or there is no room.
pub proof fn other_records_stay(
    c: CacheView,
    r: RecordView,
    source: Option<u32>,
    now: u128,
    e: EntryView,
)
    requires
        c.valid(),
        c.entries.contains(e),
        e.record.key() != r.key(),
        !r.cache_flush || stored_ttl(r, c.max_ttl) == 0 || !same_set(e.record, r),
        c.entries.len() < c.max_entries,
    ensures
        inserted(c, r, source, now).0.entries.contains(e),
{
    if !inserted(c, r, source, now).0.entries.contains(e) {
        if stored_ttl(r, c.max_ttl) == 0 {
            lemma_goodbye(c, r, source, now, e);
        } else {
            at_most_one_entry_makes_room(c, r, source, now, e);
        }
    }
}

/// A cache-flush leaves alone what differs from the record in name, in type or in class.
pub proof fn flush_is_limited_to_name_type_and_class(
    c: CacheView,
    r: RecordView,
    source: Option<u32>,
    now: u128,
    e: EntryView,
)
    requires
        c.valid(),
        c.entries.contains(e),
        c.entries.len() < c.max_entries,
        !same_name(e.record.name, r.name) || e.record.rtype() != r.rtype() || e.record.class
            != r.class,
    ensures
        inserted(c, r, source, now).0.entries.contains(e),
{
    crate::laws::dns::identity_is_name_type_class_and_data(e.record, r);
    other_records_stay(c, r, source, now, e);
}

proof fn lemma_goodbye(
    c: CacheView,
    r: RecordView,
    source: Option<u32>,
    now: u128,
    e: EntryView,
)
    requires
        stored_ttl(r, c.max_ttl) == 0,
    ensures
        inserted(c, r, source, now).0.entries.contains(e) <==> c.entries.contains(e)
            && e.record.key() != r.key(),
{
    let p = |x: EntryView| x.record.key() != r.key();
    assert(capped(r, c.max_ttl).key() == r.key());
    let out = c.entries.filter(|x: EntryView| x.record.key() != capped(r, c.max_ttl).key());
    assert(out =~= c.entries.filter(p)) by {
        assert((|x: EntryView| x.record.key() != capped(r, c.max_ttl).key()) =~= p);
    }
    assert(inserted(c, r, source, now).0.entries == out);
    if out.contains(e) {
        let k = choose|k: int| 0 <= k < out.len() && out[k] == e;
        lemma_from_filter(c.entries, p, k);
    }
    if c.entries.contains(e) && p(e) {
        let k = choose|k: int| 0 <= k < c.entries.len() && c.entries[k] == e;
        assert(c.entries.filter(p).contains(c.entries[k]));
    }
}

/// What stays when a record with a lifetime is received is known: an entry that neither is
/// the record's own nor is flushed is given up only by a full cache that does not hold the
/// record and has flushed nothing; it expires no later than any other entry, and is the only
/// one given up.
pub proof fn at_most_one_entry_makes_room(
    c: CacheView,
    r: RecordView,
    source: Option<u32>,
    now: u128,
    e: EntryView,
)
    requires
        c.valid(),
        stored_ttl(r, c.max_ttl) > 0,
        c.entries.contains(e),
        e.record.key() != r.key(),
        !(r.cache_flush && same_set(e.record, r)),
        !inserted(c, r, source, now).0.entries.contains(e),
    ensures
        c.entries.len() == c.max_entries,
        forall|x: EntryView| #[trigger]
            c.entries.contains(x) ==> {
                &&& x.record.key() != r.key()
                &&& !(r.cache_flush && same_set(x.record, r))
                &&& e.deadline <= x.deadline
                &&& x != e ==> inserted(c, r, source, now).0.entries.contains(x)
            },
{
    let out = inserted(c, r, source, now).0.entries;
    let stored = capped(r, c.max_ttl);
    assert(stored.key() == r.key());
    let kept = unflushed(c.entries, stored);
    lemma_kept(c.entries, stored, e);
    assert(kept.contains(e));
    let at = choose|at: int| 0 <= at < kept.len() && kept[at] == e;
    let new = EntryView { record: stored, deadline: deadline_of(stored, now), source };
    if has_key(kept, stored.key()) {
        assert(refreshed(kept, new)[at] == e);
        assert(out[at] == e);
    } else if kept.len() < c.max_entries {
        assert(out == kept.push(new));
        assert(out[at] == e);
    } else {
        lemma_kept_len(c.entries, stored);
        assert(kept == c.entries);
        let s = lemma_some_soonest(kept);
        let v = choose|i: int| is_soonest(kept, i);
        assert(is_soonest(kept, v));
        let room = kept.remove(v);
        assert(out == room.push(new));
        assert forall|k: int| 0 <= k < kept.len() && k != v implies out.contains(
            #[trigger] kept[k],
        ) by {
            if k < v {
                assert(out[k] == kept[k]);
            } else {
                assert(out[k - 1] == kept[k]);
            }
        }
        assert(at == v);
        assert forall|x: EntryView| #[trigger] c.entries.contains(x) implies x.record.key()
            != r.key() && !(r.cache_flush && same_set(x.record, r)) && e.deadline <= x.deadline
            && (x != e ==> out.contains(x)) by {
            let k = choose|k: int| 0 <= k < kept.len() && kept[k] == x;
            assert(kept[k].record.key() != r.key());
            lemma_kept(c.entries, stored, x);
            crate::laws::dns::identity_is_name_type_class_and_data(x.record, r);
        }
    }
}

/// A record with a lifetime is stored as it was received, but for the limit on its lifetime,
/// with a deadline that many seconds ahead. It was learned where it came from, or where it
/// was learned before if that is not known.
pub proof fn received_record_is_stored(
    c: CacheView,
    r: RecordView,
    source: Option<u32>,
    now: u128,
)
    requires
        c.valid(),
        stored_ttl(r, c.max_ttl) > 0,
    ensures
        exists|e: EntryView| #[trigger]
            inserted(c, r, source, now).0.entries.contains(e) && e.record == (RecordView {
                ttl: stored_ttl(r, c.max_ttl),
                ..r
            }) && e.deadline == now + stored_ttl(r, c.max_ttl) * 1_000_000_000 && (source is Some
                ==> e.source == source) && (source is None ==> if has_key(c.entries, r.key()) {
                exists|x: EntryView| #[trigger]
                    c.entries.contains(x) && x.record.key() == r.key() && x.source == e.source
            } else {
                e.source is None
            }),
{
    let out = inserted(c, r, source, now).0.entries;
    let stored = capped(r, c.max_ttl);
    assert(stored == (RecordView { ttl: stored_ttl(r, c.max_ttl), ..r }));
    let kept = unflushed(c.entries, stored);
    let new = EntryView { record: stored, deadline: deadline_of(stored, now), source };
    lemma_own_entry_is_kept(c.entries, stored);
    assert(new.deadline == now + stored_ttl(r, c.max_ttl) * 1_000_000_000);
    if has_key(kept, stored.key()) {
        let i = choose|i: int|
            #![trigger kept[i]]
            0 <= i < kept.len() && kept[i].record.key() == stored.key();
        let e = refreshed(kept, new)[i];
        assert(out[i] == e);
        assert(out.contains(e));
        lemma_kept(c.entries, stored, kept[i]);
        assert(kept.contains(kept[i]));
        assert(c.entries.contains(kept[i]));
    } else {
        assert(out[out.len() - 1] == new);
        assert(out.contains(new));
    }
}

proof fn lemma_own_entry_is_kept(entries: Seq<EntryView>, r: RecordView)
    ensures
        has_key(unflushed(entries, r), r.key()) == has_key(entries, r.key()),
{
    let kept = unflushed(entries, r);
    if has_key(entries, r.key()) {
        let i = choose|i: int|
            #![trigger entries[i]]
            0 <= i < entries.len() && entries[i].record.key() == r.key();
        lemma_kept(entries, r, entries[i]);
        assert(entries.contains(entries[i]));
        crate::laws::dns::identity_is_name_type_class_and_data(entries[i].record, r);
        assert(kept.contains(entries[i]));
        let k = choose|k: int| 0 <= k < kept.len() && kept[k] == entries[i];
        assert(kept[k].record.key() == r.key());
    }
    if has_key(kept, r.key()) {
        let k = choose|k: int|
            #![trigger kept[k]]
            0 <= k < kept.len() && kept[k].record.key() == r.key();
        lemma_kept(entries, r, kept[k]);
        assert(kept.contains(kept[k]));
        let i = choose|i: int| 0 <= i < entries.len() && entries[i] == kept[k];
        assert(entries[i].record.key() == r.key());
    }
}

/// Nothing but the record itself enters the cache, and it is in it once.
pub proof fn only_the_record_is_added(
    c: CacheView,
    r: RecordView,
    source: Option<u32>,
    now: u128,
    e: EntryView,
)
    requires
        c.valid(),
        inserted(c, r, source, now).0.entries.contains(e),
    ensures
        c.entries.contains(e) && e.record.key() != r.key() || e.record.key() == r.key()
            && stored_ttl(r, c.max_ttl) > 0 && e.record == (RecordView {
            ttl: stored_ttl(r, c.max_ttl),
            ..r
        }) && e.deadline == now + stored_ttl(r, c.max_ttl) * 1_000_000_000,
{
    let out = inserted(c, r, source, now).0.entries;
    let stored = capped(r, c.max_ttl);
    assert(stored == (RecordView { ttl: stored_ttl(r, c.max_ttl), ..r }));
    assert(stored.key() == r.key());
    if stored.ttl == 0 {
        lemma_goodbye(c, r, source, now, e);
    } else {
        let kept = unflushed(c.entries, stored);
        let new = EntryView { record: stored, deadline: deadline_of(stored, now), source };
        let at = choose|at: int| 0 <= at < out.len() && out[at] == e;
        if has_key(kept, stored.key()) {
            assert(out[at] == refreshed(kept, new)[at]);
            lemma_kept(c.entries, stored, kept[at]);
            assert(kept.contains(kept[at]));
        } else {
            lemma_kept_len(c.entries, stored);
            if kept.len() >= c.max_entries {
                let s = lemma_some_soonest(kept);
                let v = choose|i: int| is_soonest(kept, i);
                assert(is_soonest(kept, v));
                if at < v {
                    assert(out[at] == kept[at]);
                    assert(kept.contains(kept[at]));
                } else if at < kept.len() - 1 {
                    assert(out[at] == kept[at + 1]);
                    assert(kept.contains(kept[at + 1]));
                }
            } else if at < kept.len() {
                assert(out[at] == kept[at]);
                assert(kept.contains(kept[at]));
            }
            lemma_kept(c.entries, stored, e);
        }
    }
}

/// After a cache-flush no other data for the name, type and class of the record is left.
pub proof fn flush_removes_other_data(
    c: CacheView,
    r: RecordView,
    source: Option<u32>,
    now: u128,
    e: EntryView,
)
    requires
        c.valid(),
        r.cache_flush,
        stored_ttl(r, c.max_ttl) > 0,
        inserted(c, r, source, now).0.entries.contains(e),
        same_set(e.record, r),
    ensures
        e.record.data.folded() == r.data.folded(),
{
    let out = inserted(c, r, source, now).0.entries;
    let i = choose|i: int| 0 <= i < out.len() && out[i] == e;
    flush_leaves_no_stale_data(c, r, source, now, i);
    names_are_the_same_in_any_case(e.record.name, r.name);
}

/// The outcome tells what became of the record: a goodbye removes it if it was there, and any
/// other record is refreshed if it was there and inserted if not.
pub proof fn outcomes_tell_what_happened(
    c: CacheView,
    r: RecordView,
    source: Option<u32>,
    now: u128,
)
    ensures
        inserted(c, r, source, now).1 == (if stored_ttl(r, c.max_ttl) == 0 {
            if has_key(c.entries, r.key()) {
                InsertOutcome::GoodbyeRemoved
            } else {
                InsertOutcome::GoodbyeNoOp
            }
        } else {
            if has_key(c.entries, r.key()) {
                InsertOutcome::Refreshed
            } else {
                InsertOutcome::Inserted
            }
        }),
{
    let stored = capped(r, c.max_ttl);
    assert(stored.key() == r.key());
    lemma_own_entry_is_kept(c.entries, stored);
}

/// `ttl` is the number of seconds that remain until `deadline`, rounded up, as far as it fits
/// 32 bits.
pub open spec fn seconds_left(ttl: u32, deadline: int, now: u128) -> bool {
    &&& ttl >= 1
    &&& (ttl - 1) * 1_000_000_000 < deadline - now
    &&& deadline - now <= ttl * 1_000_000_000 || ttl == u32::MAX
}

proof fn lemma_seconds_left(deadline: int, now: u128)
    ensures
        remaining_ttl(deadline, now as int) is Some <==> deadline > now,
        remaining_ttl(deadline, now as int) matches Some(ttl) ==> seconds_left(ttl, deadline, now),
        forall|t: u32|
            seconds_left(t, deadline, now) ==> remaining_ttl(deadline, now as int) == Some(t),
{
    if deadline > now {
        let left = deadline - now;
        let secs = (left + 1_000_000_000 - 1) / 1_000_000_000;
        assert((secs - 1) * 1_000_000_000 < left <= secs * 1_000_000_000);
        assert forall|t: u32| seconds_left(t, deadline, now) implies remaining_ttl(
            deadline,
            now as int,
        ) == Some(t) by {
            if t < u32::MAX {
                assert(t == secs) by (nonlinear_arith)
                    requires
                        (secs - 1) * 1_000_000_000 < left <= secs * 1_000_000_000,
                        (t - 1) * 1_000_000_000 < left <= t * 1_000_000_000,
                ;
            } else {
                assert(secs >= t) by (nonlinear_arith)
                    requires
                        left <= secs * 1_000_000_000,
                        (t - 1) * 1_000_000_000 < left,
                ;
            }
        }
    }
}

/// A lookup gives out just the records of the entries that have the name, in any case, and
/// the type, or any type where every type is asked for, and whose deadline is still to come;
/// each with the seconds that remain to it.
pub proof fn lookups_give_the_live_records_with_what_remains(
    c: CacheView,
    name: NameView,
    rtype: RecordType,
    now: u128,
    r: RecordView,
)
    ensures
        found(c, name, rtype, now).contains(r) <==> exists|i: int|
            #![trigger c.entries[i]]
            0 <= i < c.entries.len() && same_name(c.entries[i].record.name, name) && (rtype
                == RecordType::ANY || c.entries[i].record.rtype() == rtype) && seconds_left(
                r.ttl,
                c.entries[i].deadline,
                now,
            ) && r == (RecordView { ttl: r.ttl, ..c.entries[i].record }),
{
    let f = |e: EntryView| match_at(e, name, rtype, now);
    if found(c, name, rtype, now).contains(r) {
        let i = lemma_filter_map_from(c.entries, f, r);
        lemma_seconds_left(c.entries[i].deadline, now);
        names_are_the_same_in_any_case(c.entries[i].record.name, name);
        assert(c.entries[i] == c.entries[i]);
    }
    if exists|i: int|
        #![trigger c.entries[i]]
        0 <= i < c.entries.len() && same_name(c.entries[i].record.name, name) && (rtype
            == RecordType::ANY || c.entries[i].record.rtype() == rtype) && seconds_left(
            r.ttl,
            c.entries[i].deadline,
            now,
        ) && r == (RecordView { ttl: r.ttl, ..c.entries[i].record }) {
        let i = choose|i: int|
            #![trigger c.entries[i]]
            0 <= i < c.entries.len() && same_name(c.entries[i].record.name, name) && (rtype
                == RecordType::ANY || c.entries[i].record.rtype() == rtype) && seconds_left(
                r.ttl,
                c.entries[i].deadline,
                now,
            ) && r == (RecordView { ttl: r.ttl, ..c.entries[i].record });
        lemma_seconds_left(c.entries[i].deadline, now);
        names_are_the_same_in_any_case(c.entries[i].record.name, name);
        lemma_filter_map_has(c.entries, f, i);
    }
}

/// What is relayed to an interface is just what a lookup would give out of the entries that
/// were learned on another interface, with the cache-flush bit clear and no more than the
/// seconds that remain.
pub proof fn relayed_records_never_outlive_their_entries(
    c: CacheView,
    name: NameView,
    rtype: RecordType,
    arrival: u32,
    now: u128,
    r: RecordView,
)
    ensures
        found_elsewhere(c, name, rtype, arrival, now).contains(r) <==> exists|i: int|
            #![trigger c.entries[i]]
            0 <= i < c.entries.len() && same_name(c.entries[i].record.name, name) && (rtype
                == RecordType::ANY || c.entries[i].record.rtype() == rtype)
                && c.entries[i].source is Some && c.entries[i].source->0 != arrival
                && seconds_left(r.ttl, c.entries[i].deadline, now) && r == (RecordView {
                ttl: r.ttl,
                cache_flush: false,
                ..c.entries[i].record
            }),
{
    let f = |e: EntryView| relayed_at(e, name, rtype, arrival, now);
    if found_elsewhere(c, name, rtype, arrival, now).contains(r) {
        let i = lemma_filter_map_from(c.entries, f, r);
        lemma_seconds_left(c.entries[i].deadline, now);
        names_are_the_same_in_any_case(c.entries[i].record.name, name);
        assert(c.entries[i] == c.entries[i]);
    }
    if exists|i: int|
        #![trigger c.entries[i]]
        0 <= i < c.entries.len() && same_name(c.entries[i].record.name, name) && (rtype
            == RecordType::ANY || c.entries[i].record.rtype() == rtype)
            && c.entries[i].source is Some && c.entries[i].source->0 != arrival && seconds_left(
            r.ttl,
            c.entries[i].deadline,
            now,
        ) && r == (RecordView { ttl: r.ttl, cache_flush: false, ..c.entries[i].record }) {
        let i = choose|i: int|
            #![trigger c.entries[i]]
            0 <= i < c.entries.len() && same_name(c.entries[i].record.name, name) && (rtype
                == RecordType::ANY || c.entries[i].record.rtype() == rtype)
                && c.entries[i].source is Some && c.entries[i].source->0 != arrival
                && seconds_left(r.ttl, c.entries[i].deadline, now) && r == (RecordView {
                ttl: r.ttl,
                cache_flush: false,
                ..c.entries[i].record
            });
        lemma_seconds_left(c.entries[i].deadline, now);
        names_are_the_same_in_any_case(c.entries[i].record.name, name);
        lemma_filter_map_has(c.entries, f, i);
    }
}

/// A snapshot holds just the records whose deadline is still to come, each with the seconds
/// that remain to it.
pub proof fn snapshots_hold_the_live_records(c: CacheView, now: u128, r: RecordView)
    ensures
        all_live(c, now).contains(r) <==> exists|i: int|
            #![trigger c.entries[i]]
            0 <= i < c.entries.len() && seconds_left(r.ttl, c.entries[i].deadline, now) && r == (
            RecordView { ttl: r.ttl, ..c.entries[i].record }),
{
    let f = |e: EntryView| live_at(e, now);
    if all_live(c, now).contains(r) {
        let i = lemma_filter_map_from(c.entries, f, r);
        lemma_seconds_left(c.entries[i].deadline, now);
        assert(c.entries[i] == c.entries[i]);
    }
    if exists|i: int|
        #![trigger c.entries[i]]
        0 <= i < c.entries.len() && seconds_left(r.ttl, c.entries[i].deadline, now) && r == (
        RecordView { ttl: r.ttl, ..c.entries[i].record }) {
        let i = choose|i: int|
            #![trigger c.entries[i]]
            0 <= i < c.entries.len() && seconds_left(r.ttl, c.entries[i].deadline, now) && r == (
            RecordView { ttl: r.ttl, ..c.entries[i].record });
        lemma_seconds_left(c.entries[i].deadline, now);
        lemma_filter_map_has(c.entries, f, i);
    }
}

proof fn lemma_filter_map_distinct(s: Seq<EntryView>, f: spec_fn(EntryView) -> Option<RecordView>)
    requires
        distinct_keys(s),
        forall|e: EntryView| (#[trigger] f(e)) matches Some(r) ==> r.key() == e.record.key(),
    ensures
        forall|i: int, j: int| #![trigger s.filter_map(f)[i], s.filter_map(f)[j]]
            0 <= i < j < s.filter_map(f).len() ==> s.filter_map(f)[i].key() != s.filter_map(
                f,
            )[j].key(),
    decreases s.len(),
{
    if s.len() > 0 {
        let rest = s.drop_last();
        lemma_filter_map_distinct(rest, f);
        let out = s.filter_map(f);
        let before = rest.filter_map(f);
        assert forall|i: int, j: int| #![trigger out[i], out[j]]
            0 <= i < j < out.len() implies out[i].key() != out[j].key() by {
            assert(out[i] == before[i]);
            if j < before.len() {
                assert(out[j] == before[j]);
            } else {
                assert(before.contains(before[i]));
                let k = lemma_filter_map_from(rest, f, before[i]);
                assert(s[k] == rest[k]);
                assert(s[s.len() - 1] == s.last());
                assert(f(s[k]) == Some(before[i]));
                assert(f(s.last()) == Some(out[j]));
            }
        }
    }
}

/// No lookup gives out a record twice.
pub proof fn lookups_give_each_record_once(
    c: CacheView,
    name: NameView,
    rtype: RecordType,
    arrival: u32,
    now: u128,
)
    requires
        c.valid(),
    ensures
        forall|i: int, j: int|
            #![trigger found(c, name, rtype, now)[i], found(c, name, rtype, now)[j]]
            0 <= i < j < found(c, name, rtype, now).len() ==> found(c, name, rtype, now)[i].key()
                != found(c, name, rtype, now)[j].key(),
        forall|i: int, j: int|
            #![trigger found_elsewhere(c, name, rtype, arrival, now)[i],
                found_elsewhere(c, name, rtype, arrival, now)[j]]
            0 <= i < j < found_elsewhere(c, name, rtype, arrival, now).len() ==> found_elsewhere(
                c,
                name,
                rtype,
                arrival,
                now,
            )[i].key() != found_elsewhere(c, name, rtype, arrival, now)[j].key(),
        forall|i: int, j: int| #![trigger all_live(c, now)[i], all_live(c, now)[j]]
            0 <= i < j < all_live(c, now).len() ==> all_live(c, now)[i].key() != all_live(
                c,
                now,
            )[j].key(),
{
    lemma_filter_map_distinct(c.entries, |e: EntryView| match_at(e, name, rtype, now));
    lemma_filter_map_distinct(c.entries, |e: EntryView| relayed_at(e, name, rtype, arrival, now));
    lemma_filter_map_distinct(c.entries, |e: EntryView| live_at(e, now));
}

/// A sweep keeps just the entries whose deadline is still to come, and the limits.
pub proof fn sweeps_remove_just_what_has_expired(c: CacheView, now: u128, e: EntryView)
    ensures
        evicted(c, now).entries.contains(e) <==> c.entries.contains(e) && e.deadline > now,
        evicted(c, now).max_entries == c.max_entries,
        evicted(c, now).max_ttl == c.max_ttl,
{
    let p = |x: EntryView| x.deadline > now;
    let out = c.entries.filter(p);
    assert(evicted(c, now).entries == out);
    if out.contains(e) {
        let k = choose|k: int| 0 <= k < out.len() && out[k] == e;
        lemma_from_filter(c.entries, p, k);
    }
    if c.entries.contains(e) && e.deadline > now {
        let k = choose|k: int| 0 <= k < c.entries.len() && c.entries[k] == e;
        assert(out.contains(c.entries[k]));
    }
}

/// A valid cache has room for a record, holds no more than it has room for, and holds no
/// record twice; a record is held when some entry, wherever it stands, has its identity.
pub proof fn valid_caches_hold_each_record_once(c: CacheView, key: KeyView)
    ensures
        c.valid() <==> 1 <= c.max_entries && c.entries.len() <= c.max_entries && forall|
            i: int,
            j: int,
        |
            #![trigger c.entries[i], c.entries[j]]
            0 <= i < c.entries.len() && 0 <= j < c.entries.len() && c.entries[i].record.key()
                == c.entries[j].record.key() ==> i == j,
        has_key(c.entries, key) <==> exists|e: EntryView| #[trigger]
            c.entries.contains(e) && e.record.key() == key,
{
    if has_key(c.entries, key) {
        let i = choose|i: int|
            #![trigger c.entries[i]]
            0 <= i < c.entries.len() && c.entries[i].record.key() == key;
        assert(c.entries.contains(c.entries[i]));
    }
}

/// One record adds at most one entry, and no limit changes.
pub proof fn insertion_adds_at_most_one(
    c: CacheView,
    r: RecordView,
    source: Option<u32>,
    now: u128,
)
    requires
        c.valid(),
    ensures
        inserted(c, r, source, now).0.entries.len() <= c.entries.len() + 1,
        inserted(c, r, source, now).0.max_entries == c.max_entries,
        inserted(c, r, source, now).0.max_ttl == c.max_ttl,
{
    let stored = capped(r, c.max_ttl);
    let kept = unflushed(c.entries, stored);
    lemma_kept_len(c.entries, stored);
    if kept.len() > 0 {
        let s = lemma_some_soonest(kept);
        let v = choose|i: int| is_soonest(kept, i);
        assert(is_soonest(kept, v));
    }
}

} // verus!
