//! Shared runtime state of the daemon.

use vstd::prelude::*;

use crate::cache::Cache;
use crate::config::Resolved;
use crate::iface::Iface;
use crate::timing::MulticastTracker;

verus! {

#[derive(Debug)]
pub struct State {
    pub config: Resolved,
    pub ifaces: Vec<Iface>,
    pub cache: Cache,
    /// Last multicast of each record on each interface, for the limit of one per
    /// second (RFC 6762 section 6).
    pub mc_tracker: MulticastTracker,
}

impl State {
    /// The state of a daemon that has seen nothing yet.
    pub fn new(config: Resolved, ifaces: Vec<Iface>) -> (r: State)
        ensures
            r.config == config,
            r.ifaces == ifaces,
            r.cache@.entries.len() == 0,
            r.cache@.max_entries == (if config.max_cache_entries == 0 {
                1
            } else {
                config.max_cache_entries
            }),
            r.cache@.max_ttl == config.cache_max_ttl_secs,
            r.mc_tracker@ == Map::<crate::timing::Slot, int>::empty(),
    {
        let cache = Cache::with_capacity_and_max_ttl(
            config.max_cache_entries,
            config.cache_max_ttl_secs,
        );
        State { config, ifaces, cache, mc_tracker: MulticastTracker::new() }
    }
}

} // verus!
