use nmdns::addr::{Ipv4Addr, Ipv6Addr};
use nmdns::clock::{NANOS_PER_MILLI, NANOS_PER_SEC};
use nmdns::dns::{Name, RData, Record};
use nmdns::timing::{
    delay_bounds, first_query_jitter, from_millis, jitter_0_to_max, jitter_bound, response_delay,
    DelayClass, MulticastTracker, ANNOUNCE_GAP, MIN_MULTICAST_INTERVAL, PROBE_DEFENSE_INTERVAL,
    PROBE_INITIAL_MAX, PROBE_INTERVAL,
};

fn millis(n: u128) -> u128 {
    n * NANOS_PER_MILLI
}

fn rec(ip: [u8; 4]) -> Record {
    Record::from_rdata(
        Name::from_str("foo.local.").unwrap(),
        120,
        RData::A(Ipv4Addr::new(ip[0], ip[1], ip[2], ip[3])),
    )
}

#[test]
fn allows_first_send() {
    let t = MulticastTracker::new();
    let r = rec([1, 2, 3, 4]);
    assert!(t.allows(1, &r, MIN_MULTICAST_INTERVAL));
}

#[test]
fn blocks_within_interval() {
    let mut t = MulticastTracker::new();
    let r = rec([1, 2, 3, 4]);
    t.mark(1, &r);
    assert!(!t.allows(1, &r, MIN_MULTICAST_INTERVAL));
    assert!(t.allows(2, &r, MIN_MULTICAST_INTERVAL));
}

#[test]
fn allows_after_interval_zero() {
    let mut t = MulticastTracker::new();
    let r = rec([1, 2, 3, 4]);
    t.mark(1, &r);
    assert!(t.allows(1, &r, millis(0)));
}

#[test]
fn prune_drops_stale_entries() {
    let mut t = MulticastTracker::new();
    t.mark(1, &rec([1, 2, 3, 4]));
    assert_eq!(t.len(), 1);
    t.prune_older_than(millis(0));
    assert_eq!(t.len(), 0, "stale rate-limit entries must be swept");
}

#[test]
fn prune_keeps_recent_entries() {
    let mut t = MulticastTracker::new();
    t.mark(1, &rec([1, 2, 3, 4]));
    t.prune_older_than(3600 * NANOS_PER_SEC);
    assert_eq!(t.len(), 1, "entries within the interval must be kept");
}

#[test]
fn delay_ranges_match_rfc() {
    for _ in 0..100 {
        let d = response_delay(DelayClass::Shared);
        assert!(d >= millis(20) && d <= millis(120));
        let d = response_delay(DelayClass::Truncated);
        assert!(d >= millis(400) && d <= millis(500));
        assert_eq!(response_delay(DelayClass::ProbeDefense), 0);
        assert_eq!(response_delay(DelayClass::UniqueAnswer), 0);
    }
}

#[test]
fn rfc6762_s5_2_browser_first_query_jitter() {
    for _ in 0..200 {
        let d = first_query_jitter();
        assert!(d >= millis(20) && d <= millis(120), "jitter {d:?} outside 20-120 ms");
    }
}

#[test]
fn rfc6762_s6_unique_and_probe_defense_no_delay() {
    for _ in 0..100 {
        assert_eq!(response_delay(DelayClass::UniqueAnswer), 0);
        assert_eq!(response_delay(DelayClass::ProbeDefense), 0);
    }
}

#[test]
fn rfc6762_s6_shared_delay_20_to_120_ms() {
    for _ in 0..500 {
        let d = response_delay(DelayClass::Shared);
        assert!(d >= millis(20) && d <= millis(120), "shared delay {d:?} out of range");
    }
}

#[test]
fn rfc6762_s6_truncated_delay_400_to_500_ms() {
    for _ in 0..500 {
        let d = response_delay(DelayClass::Truncated);
        assert!(d >= millis(400) && d <= millis(500), "truncated delay {d:?} out of range");
    }
}

#[test]
fn rfc6762_s6_per_record_per_iface_min_interval() {
    assert_eq!(MIN_MULTICAST_INTERVAL, NANOS_PER_SEC);

    let mut t = MulticastTracker::new();
    let r = rec([1, 2, 3, 4]);
    assert!(t.allows(1, &r, MIN_MULTICAST_INTERVAL), "first send allowed");
    t.mark(1, &r);
    assert!(!t.allows(1, &r, MIN_MULTICAST_INTERVAL), "second send within 1 s blocked");
    assert!(t.allows(2, &r, MIN_MULTICAST_INTERVAL), "different iface independent");
}

#[test]
fn rfc6762_s6_aaaa_per_record_per_iface_min_interval() {
    let mut t = MulticastTracker::new();
    let r = Record::from_rdata(
        Name::from_str("foo.local.").unwrap(),
        120,
        RData::AAAA(Ipv6Addr::from_bits(1)),
    );
    assert!(t.allows(1, &r, MIN_MULTICAST_INTERVAL));
    t.mark(1, &r);
    assert!(!t.allows(1, &r, MIN_MULTICAST_INTERVAL));
    assert!(t.allows(2, &r, MIN_MULTICAST_INTERVAL));
}

#[test]
fn rfc6762_s6_probe_defense_uses_250ms_window() {
    assert_eq!(PROBE_DEFENSE_INTERVAL, millis(250));
}

#[test]
fn rfc6762_s8_1_probe_initial_jitter_max_250ms() {
    assert_eq!(PROBE_INITIAL_MAX, millis(250));
    for _ in 0..500 {
        let d = jitter_0_to_max(PROBE_INITIAL_MAX);
        assert!(d <= millis(250), "jitter {d:?} > 250 ms");
    }
}

#[test]
fn rfc6762_s8_1_probe_interval_250ms() {
    assert_eq!(PROBE_INTERVAL, millis(250));
}

#[test]
fn rfc6762_s8_3_announce_gap_one_second() {
    assert_eq!(ANNOUNCE_GAP, NANOS_PER_SEC);
}

#[test]
fn random_delays_vary_in_whole_milliseconds() {
    let draws: Vec<u128> = (0..200).map(|_| response_delay(DelayClass::Shared)).collect();
    assert!(draws.iter().all(|d| d % NANOS_PER_MILLI == 0));
    assert!(draws.iter().any(|d| *d != draws[0]));
    assert_eq!(jitter_0_to_max(999_999), 0);
}

#[test]
fn delay_bounds_of_every_class() {
    assert_eq!(delay_bounds(DelayClass::ProbeDefense), (0, 0));
    assert_eq!(delay_bounds(DelayClass::UniqueAnswer), (0, 0));
    assert_eq!(delay_bounds(DelayClass::Shared), (20, 120));
    assert_eq!(delay_bounds(DelayClass::Truncated), (400, 500));
}

#[test]
fn check_and_mark_takes_a_slot_once_per_interval() {
    let mut t = MulticastTracker::new();
    let r = rec([1, 2, 3, 4]);
    let s = NANOS_PER_SEC;
    assert!(t.check_and_mark_at(1, &r, s, 0));
    assert!(!t.check_and_mark_at(1, &r, s, s - 1));
    assert!(t.check_and_mark_at(2, &r, s, s - 1));
    assert!(t.check_and_mark_at(1, &rec([5, 6, 7, 8]), s, s - 1));
    assert!(t.check_and_mark_at(1, &r, s, s));
    assert!(!t.check_and_mark_at(1, &r, s, 2 * s - 1));
    assert_eq!(t.len(), 3);
    assert!(!t.is_empty());
}

#[test]
fn a_refused_attempt_leaves_the_time_of_the_last_multicast() {
    let mut t = MulticastTracker::new();
    let r = rec([1, 2, 3, 4]);
    t.mark_at(1, &r, 100);
    assert!(!t.check_and_mark_at(1, &r, 50, 120));
    assert!(t.allows_at(1, &r, 50, 150));
    assert!(t.check_and_mark_at(1, &r, 50, 150));
    assert!(!t.allows_at(1, &r, 50, 199));
}

#[test]
fn a_multicast_in_the_future_counts_as_just_now() {
    let mut t = MulticastTracker::new();
    let r = rec([1, 2, 3, 4]);
    t.mark_at(1, &r, 100);
    assert!(!t.allows_at(1, &r, 1, 50));
    assert!(t.allows_at(1, &r, 0, 50));
}

#[test]
fn pruning_changes_no_decision_by_the_interval() {
    let mut t = MulticastTracker::new();
    t.mark_at(1, &rec([1, 0, 0, 1]), 0);
    t.mark_at(1, &rec([1, 0, 0, 2]), 60);
    t.prune_older_than_at(100, 100);
    assert_eq!(t.len(), 1);
    assert!(t.allows_at(1, &rec([1, 0, 0, 1]), 100, 100));
    assert!(!t.allows_at(1, &rec([1, 0, 0, 2]), 100, 100));
}

#[test]
fn check_and_mark_reads_the_clock() {
    let mut t = MulticastTracker::default();
    let r = rec([1, 2, 3, 4]);
    assert!(t.check_and_mark(1, &r, MIN_MULTICAST_INTERVAL));
    assert!(!t.check_and_mark(1, &r, MIN_MULTICAST_INTERVAL));
}

#[test]
fn slots_are_free_again_when_the_clock_has_moved_on() {
    let mut t = MulticastTracker::new();
    let r = rec([1, 2, 3, 4]);
    assert!(t.check_and_mark(1, &r, millis(30)));
    let start = std::time::Instant::now();
    while start.elapsed() < std::time::Duration::from_millis(31) {}
    assert!(t.allows(1, &r, millis(30)));
    assert!(!t.allows(1, &r, millis(60_000)));
    t.prune_older_than(millis(30));
    assert!(t.is_empty());
}

#[test]
fn jitter_is_drawn_up_to_its_bound() {
    assert_eq!(jitter_bound(PROBE_INITIAL_MAX), 250);
    assert_eq!(jitter_bound(999_999), 0);
    assert_eq!(jitter_bound(1_999_999), 1);
    assert_eq!(jitter_bound(((1u128 << 64) + 7) * 1_000_000), 7);
    assert_eq!(from_millis(250), PROBE_INITIAL_MAX);
    assert_eq!(from_millis(0), 0);
    let draws: Vec<u128> = (0..500).map(|_| jitter_0_to_max(from_millis(3))).collect();
    assert!(draws.iter().all(|d| *d <= from_millis(3) && d % from_millis(1) == 0));
    assert!(draws.iter().any(|d| *d != draws[0]));
}
