use std::time::{Duration, Instant};

use nmdns::addr::{Ipv4Addr, Ipv6Addr};
use nmdns::cache::{Cache, InsertOutcome, DEFAULT_MAX_ENTRIES};
use nmdns::clock::NANOS_PER_SEC;
use nmdns::dns::{Name, RData, Record, RecordType, CLASS_ANY, CLASS_IN};

const LOCALHOST_V6: Ipv6Addr = Ipv6Addr { bits: 1 };

fn host(name: &str) -> Name {
    Name::from_str(name).unwrap()
}

fn ipv4(ip: [u8; 4]) -> Ipv4Addr {
    Ipv4Addr::new(ip[0], ip[1], ip[2], ip[3])
}

fn wait(d: Duration) {
    let start = Instant::now();
    while start.elapsed() < d {}
}

fn rec(name: &str, ttl: u32, ip: [u8; 4]) -> Record {
    Record::from_rdata(host(name), ttl, RData::A(ipv4(ip)))
}

fn rec_aaaa(name: &str, ttl: u32, ip: Ipv6Addr) -> Record {
    Record::from_rdata(host(name), ttl, RData::AAAA(ip))
}

#[test]
fn insert_and_lookup() {
    let mut c = Cache::new();
    assert_eq!(c.insert(rec("foo.local.", 120, [1, 2, 3, 4])), InsertOutcome::Inserted);
    let hits = c.lookup(&host("foo.local."), RecordType::A);
    assert_eq!(hits.len(), 1);
}

#[test]
fn insert_and_lookup_aaaa() {
    let mut c = Cache::new();
    assert_eq!(c.insert(rec_aaaa("foo.local.", 120, LOCALHOST_V6)), InsertOutcome::Inserted);
    let hits = c.lookup(&host("foo.local."), RecordType::AAAA);
    assert_eq!(hits.len(), 1);
}

#[test]
fn a_and_aaaa_are_distinct_records() {
    let mut c = Cache::new();
    c.insert(rec("foo.local.", 120, [1, 2, 3, 4]));
    c.insert(rec_aaaa("foo.local.", 120, LOCALHOST_V6));
    assert_eq!(c.lookup(&host("foo.local."), RecordType::A).len(), 1);
    assert_eq!(c.lookup(&host("foo.local."), RecordType::AAAA).len(), 1);
    assert_eq!(c.lookup(&host("foo.local."), RecordType::ANY).len(), 2);
}

#[test]
fn ttl_zero_deletes() {
    let mut c = Cache::new();
    c.insert(rec("foo.local.", 120, [1, 2, 3, 4]));
    assert_eq!(c.insert(rec("foo.local.", 0, [1, 2, 3, 4])), InsertOutcome::GoodbyeRemoved);
    assert_eq!(c.len(), 0);
    assert_eq!(c.insert(rec("foo.local.", 0, [9, 9, 9, 9])), InsertOutcome::GoodbyeNoOp);
}

#[test]
fn dns_class_is_part_of_key() {
    let mut c = Cache::new();
    c.insert(rec("foo.local.", 120, [1, 2, 3, 4]));
    let mut other = rec("foo.local.", 120, [1, 2, 3, 4]);
    other.dns_class = CLASS_ANY;
    c.insert(other);
    assert_eq!(c.len(), 2, "class-ANY record must not overwrite class-IN");
    let hits = c.lookup(&host("foo.local."), RecordType::A);
    assert!(
        hits.iter().any(|r| r.dns_class == CLASS_IN),
        "the legitimate class-IN record must survive"
    );
}

#[test]
fn distinct_rdata_kept_separately() {
    let mut c = Cache::new();
    c.insert(rec("foo.local.", 120, [1, 2, 3, 4]));
    c.insert(rec("foo.local.", 120, [5, 6, 7, 8]));
    assert_eq!(c.len(), 2);
}

#[test]
fn cache_flush_replaces_stale_rdata() {
    let mut c = Cache::new();
    let mut old = rec("printer.local.", 120, [192, 168, 20, 50]);
    old.mdns_cache_flush = true;
    c.insert(old);
    let mut new = rec("printer.local.", 120, [192, 168, 20, 60]);
    new.mdns_cache_flush = true;
    c.insert(new);

    let hits = c.lookup(&host("printer.local."), RecordType::A);
    assert_eq!(hits.len(), 1, "stale address must be flushed");
    assert!(
        matches!(&hits[0].data, RData::A(a) if *a == Ipv4Addr::new(192, 168, 20, 60)),
        "only the new address remains"
    );
}

#[test]
fn cache_flush_does_not_purge_shared_records() {
    let mut c = Cache::new();
    c.insert(rec("foo.local.", 120, [1, 2, 3, 4]));
    c.insert(rec("foo.local.", 120, [5, 6, 7, 8]));
    assert_eq!(c.len(), 2, "non-cache-flush records must not purge siblings");
}

#[test]
fn refresh_replaces() {
    let mut c = Cache::new();
    assert_eq!(c.insert(rec("foo.local.", 60, [1, 2, 3, 4])), InsertOutcome::Inserted);
    assert_eq!(c.insert(rec("foo.local.", 120, [1, 2, 3, 4])), InsertOutcome::Refreshed);
    assert_eq!(c.len(), 1);
}

#[test]
fn capacity_bounds_growth() {
    let mut c = Cache::with_capacity(2);
    c.insert(rec("a.local.", 600, [1, 0, 0, 1]));
    c.insert(rec("b.local.", 600, [1, 0, 0, 2]));
    assert_eq!(c.insert(rec("c.local.", 600, [1, 0, 0, 3])), InsertOutcome::Inserted);
    assert_eq!(c.len(), 2);
}

#[test]
fn full_cache_evicts_soonest_to_expire_not_wedge() {
    let mut c = Cache::with_capacity(2);
    c.insert(rec("soon.local.", 30, [1, 0, 0, 1]));
    c.insert(rec("later.local.", 600, [1, 0, 0, 2]));
    assert_eq!(c.insert(rec("new.local.", 600, [1, 0, 0, 3])), InsertOutcome::Inserted);
    assert_eq!(c.len(), 2);
    assert!(
        c.lookup(&host("soon.local."), RecordType::A).is_empty(),
        "soonest-to-expire entry is the eviction victim"
    );
    assert!(
        !c.lookup(&host("new.local."), RecordType::A).is_empty(),
        "the new record was admitted"
    );
}

#[test]
fn max_ttl_caps_stored_ttl() {
    let mut c = Cache::with_capacity_and_max_ttl(100, Some(60));
    assert_eq!(c.insert(rec("foo.local.", 4500, [1, 2, 3, 4])), InsertOutcome::Inserted);
    let hits = c.lookup(&host("foo.local."), RecordType::A);
    assert_eq!(hits.len(), 1);
    assert!(hits[0].ttl <= 60, "TTL should be capped to 60, got {}", hits[0].ttl);
}

#[test]
fn max_ttl_does_not_cap_below_actual() {
    let mut c = Cache::with_capacity_and_max_ttl(100, Some(300));
    assert_eq!(c.insert(rec("foo.local.", 120, [1, 2, 3, 4])), InsertOutcome::Inserted);
    let hits = c.lookup(&host("foo.local."), RecordType::A);
    assert_eq!(hits.len(), 1);
    assert!(hits[0].ttl <= 120, "TTL below cap should be preserved");
}

#[test]
fn max_ttl_does_not_cap_goodbye() {
    let mut c = Cache::with_capacity_and_max_ttl(100, Some(60));
    c.insert(rec("foo.local.", 120, [1, 2, 3, 4]));
    assert_eq!(c.insert(rec("foo.local.", 0, [1, 2, 3, 4])), InsertOutcome::GoodbyeRemoved);
    assert_eq!(c.len(), 0);
}

#[test]
fn no_max_ttl_preserves_original() {
    let mut c = Cache::with_capacity_and_max_ttl(100, None);
    assert_eq!(c.insert(rec("foo.local.", 4500, [1, 2, 3, 4])), InsertOutcome::Inserted);
    let hits = c.lookup(&host("foo.local."), RecordType::A);
    assert_eq!(hits.len(), 1);
    assert!(hits[0].ttl <= 4500);
    assert!(hits[0].ttl > 4490, "TTL should be near original, got {}", hits[0].ttl);
}

#[test]
fn cache_insert_then_lookup() {
    let mut c = Cache::new();
    c.insert(rec("foo.local.", 60, [1, 2, 3, 4]));
    let hits = c.lookup(&host("foo.local."), RecordType::A);
    assert_eq!(hits.len(), 1);
}

#[test]
fn cache_distinct_rdata_kept_separately() {
    let mut c = Cache::new();
    c.insert(rec("foo.local.", 60, [1, 2, 3, 4]));
    c.insert(rec("foo.local.", 60, [5, 6, 7, 8]));
    assert_eq!(c.len(), 2);
    let hits = c.lookup(&host("foo.local."), RecordType::A);
    assert_eq!(hits.len(), 2);
}

#[test]
fn cache_ttl_zero_is_goodbye() {
    let mut c = Cache::new();
    c.insert(rec("foo.local.", 60, [1, 2, 3, 4]));
    assert_eq!(c.len(), 1);
    c.insert(rec("foo.local.", 0, [1, 2, 3, 4]));
    assert_eq!(c.len(), 0);
    assert!(c.is_empty());
}

#[test]
fn cache_evict_expired_removes_dead_records() {
    let mut c = Cache::new();
    c.insert(rec("foo.local.", 1, [1, 2, 3, 4]));
    c.insert(rec("bar.local.", 60, [1, 2, 3, 4]));
    wait(Duration::from_millis(1100));
    let evicted = c.evict_expired();
    assert_eq!(evicted, 1);
    assert_eq!(c.len(), 1);
}

#[test]
fn cache_snapshot_returns_all() {
    let mut c = Cache::new();
    c.insert(rec("a.local.", 60, [1, 2, 3, 4]));
    c.insert(rec("b.local.", 60, [5, 6, 7, 8]));
    assert_eq!(c.snapshot().len(), 2);
}

#[test]
fn cache_lookup_filters_by_type() {
    let mut c = Cache::new();
    c.insert(rec("foo.local.", 60, [1, 2, 3, 4]));
    let hits = c.lookup(&host("foo.local."), RecordType::AAAA);
    assert!(hits.is_empty());
}

#[test]
fn cache_lookup_any_returns_all_types_for_name() {
    let mut c = Cache::new();
    c.insert(rec("foo.local.", 60, [1, 2, 3, 4]));
    c.insert(rec_aaaa("foo.local.", 60, LOCALHOST_V6));
    let hits = c.lookup(&host("foo.local."), RecordType::ANY);
    assert_eq!(hits.len(), 2);
}

#[test]
fn cache_aaaa_records_are_distinct_from_a() {
    let mut c = Cache::new();
    c.insert(rec("foo.local.", 60, [1, 2, 3, 4]));
    c.insert(rec_aaaa("foo.local.", 60, LOCALHOST_V6));

    assert_eq!(c.lookup(&host("foo.local."), RecordType::A).len(), 1);
    assert_eq!(c.lookup(&host("foo.local."), RecordType::AAAA).len(), 1);
    assert_eq!(c.lookup(&host("foo.local."), RecordType::ANY).len(), 2);
}

#[test]
fn cache_lookup_from_other_ifaces_excludes_arrival_iface() {
    let mut c = Cache::new();
    c.insert_from(rec("iot.local.", 60, [192, 168, 20, 50]), Some(20));

    let trusted_hits = c.lookup_from_other_ifaces(&host("iot.local."), RecordType::A, 10);
    assert_eq!(trusted_hits.len(), 1);

    let iot_hits = c.lookup_from_other_ifaces(&host("iot.local."), RecordType::A, 20);
    assert!(iot_hits.is_empty());
}

#[test]
fn cache_lookup_aaaa_from_other_ifaces() {
    let mut c = Cache::new();
    c.insert_from(rec_aaaa("iot.local.", 60, LOCALHOST_V6), Some(20));

    let trusted_hits = c.lookup_from_other_ifaces(&host("iot.local."), RecordType::AAAA, 10);
    assert_eq!(trusted_hits.len(), 1);

    let iot_hits = c.lookup_from_other_ifaces(&host("iot.local."), RecordType::AAAA, 20);
    assert!(iot_hits.is_empty());
}

#[test]
fn cache_lookup_ignores_records_without_source_iface_for_cross_iface_answers() {
    let mut c = Cache::new();
    c.insert(rec("unknown.local.", 60, [1, 2, 3, 4]));

    let hits = c.lookup_from_other_ifaces(&host("unknown.local."), RecordType::A, 10);
    assert!(hits.is_empty());
}

#[test]
fn cache_lookup_returns_remaining_ttl() {
    let mut c = Cache::new();
    c.insert(rec("foo.local.", 60, [1, 2, 3, 4]));
    let hits = c.lookup(&host("foo.local."), RecordType::A);
    assert_eq!(hits.len(), 1);
    assert!(hits[0].ttl <= 60);
    assert!(hits[0].ttl > 0);
}

#[test]
fn cache_max_ttl_caps_stored_ttl() {
    let mut c = Cache::with_capacity_and_max_ttl(100, Some(60));
    c.insert(rec("foo.local.", 4500, [1, 2, 3, 4]));
    let hits = c.lookup(&host("foo.local."), RecordType::A);
    assert_eq!(hits.len(), 1);
    assert!(hits[0].ttl <= 60, "TTL should be capped, got {}", hits[0].ttl);
}

#[test]
fn cache_max_ttl_preserves_ttl_below_cap() {
    let mut c = Cache::with_capacity_and_max_ttl(100, Some(300));
    c.insert(rec("foo.local.", 120, [1, 2, 3, 4]));
    let hits = c.lookup(&host("foo.local."), RecordType::A);
    assert_eq!(hits.len(), 1);
    assert!(hits[0].ttl <= 120, "TTL below cap should be preserved");
}

#[test]
fn rfc6762_s10_1_cache_evicts_on_ttl_zero() {
    let mut c = Cache::new();
    let name = host("foo.local.");
    c.insert(Record::from_rdata(name.clone(), 120, RData::A(Ipv4Addr::new(1, 2, 3, 4))));
    assert_eq!(c.len(), 1);
    c.insert(Record::from_rdata(name, 0, RData::A(Ipv4Addr::new(1, 2, 3, 4))));
    assert_eq!(c.len(), 0, "TTL=0 must delete the cached record");
}

#[test]
fn default_cache_holds_the_default_number_of_entries() {
    let c = Cache::default();
    assert!(c.is_empty());
    assert_eq!(DEFAULT_MAX_ENTRIES, 4096);
}

#[test]
fn a_cache_has_room_for_at_least_one_record() {
    let mut c = Cache::with_capacity(0);
    c.insert(rec("a.local.", 60, [1, 0, 0, 1]));
    assert_eq!(c.len(), 1);
    c.insert(rec("b.local.", 60, [1, 0, 0, 2]));
    assert_eq!(c.len(), 1);
    assert_eq!(c.lookup(&host("b.local."), RecordType::A).len(), 1);
}

#[test]
fn remaining_lifetime_is_rounded_up_to_whole_seconds() {
    let mut c = Cache::new();
    c.insert_from_at(rec("foo.local.", 10, [1, 2, 3, 4]), None, 0);
    let at = |now: u128| {
        let hits = c.lookup_at(&host("foo.local."), RecordType::A, now);
        hits.iter().map(|r| r.ttl).collect::<Vec<u32>>()
    };
    assert_eq!(at(0), vec![10]);
    assert_eq!(at(1), vec![10]);
    assert_eq!(at(NANOS_PER_SEC), vec![9]);
    assert_eq!(at(9 * NANOS_PER_SEC + 1), vec![1]);
    assert_eq!(at(10 * NANOS_PER_SEC - 1), vec![1]);
    assert!(at(10 * NANOS_PER_SEC).is_empty());
    assert!(at(11 * NANOS_PER_SEC).is_empty());
}

#[test]
fn a_refresh_without_a_source_keeps_the_known_source() {
    let mut c = Cache::new();
    c.insert_from(rec("foo.local.", 60, [1, 2, 3, 4]), Some(20));
    assert_eq!(c.insert(rec("foo.local.", 60, [1, 2, 3, 4])), InsertOutcome::Refreshed);
    assert_eq!(c.lookup_from_other_ifaces(&host("foo.local."), RecordType::A, 10).len(), 1);
    c.insert_from(rec("foo.local.", 60, [1, 2, 3, 4]), Some(10));
    assert!(c.lookup_from_other_ifaces(&host("foo.local."), RecordType::A, 10).is_empty());
}

#[test]
fn names_are_compared_without_regard_to_case() {
    let mut c = Cache::new();
    let mut upper = rec("_Foo._tcp.local.", 60, [1, 2, 3, 4]);
    upper.mdns_cache_flush = false;
    c.insert(upper);
    assert_eq!(c.insert(rec("_foo._TCP.local.", 60, [1, 2, 3, 4])), InsertOutcome::Refreshed);
    assert_eq!(c.lookup(&host("_FOO._TCP.local."), RecordType::A).len(), 1);
}

#[test]
fn relayed_records_lose_the_cache_flush_bit() {
    let mut c = Cache::new();
    let mut r = rec("foo.local.", 60, [1, 2, 3, 4]);
    r.mdns_cache_flush = true;
    c.insert_from(r, Some(20));
    assert!(c.lookup(&host("foo.local."), RecordType::A)[0].mdns_cache_flush);
    assert!(!c.lookup_from_other_ifaces(&host("foo.local."), RecordType::A, 10)[0].mdns_cache_flush);
}

#[test]
fn flush_spares_other_types_and_classes() {
    let mut c = Cache::new();
    c.insert(rec_aaaa("foo.local.", 60, LOCALHOST_V6));
    let mut any = rec("foo.local.", 60, [9, 9, 9, 9]);
    any.dns_class = CLASS_ANY;
    c.insert(any);
    c.insert(rec("foo.local.", 60, [5, 6, 7, 8]));
    let mut r = rec("foo.local.", 60, [1, 2, 3, 4]);
    r.mdns_cache_flush = true;
    c.insert(r);
    assert_eq!(c.len(), 3);
    assert_eq!(c.lookup(&host("foo.local."), RecordType::AAAA).len(), 1);
}

#[test]
fn eviction_keeps_entries_whose_deadline_is_to_come() {
    let mut c = Cache::new();
    c.insert_from_at(rec("a.local.", 1, [1, 0, 0, 1]), None, 0);
    c.insert_from_at(rec("b.local.", 2, [1, 0, 0, 2]), None, 0);
    assert_eq!(c.evict_expired_at(NANOS_PER_SEC), 1);
    assert_eq!(c.len(), 1);
    assert_eq!(c.evict_expired_at(2 * NANOS_PER_SEC - 1), 0);
    assert_eq!(c.evict_expired_at(2 * NANOS_PER_SEC), 1);
    assert!(c.is_empty());
}

#[test]
fn a_limit_whose_low_bits_are_zero_turns_records_into_goodbyes() {
    let mut c = Cache::with_capacity_and_max_ttl(10, Some(0x1_0000_0000));
    assert_eq!(c.insert(rec("a.local.", 60, [1, 0, 0, 1])), InsertOutcome::GoodbyeNoOp);
    assert!(c.is_empty());
}
