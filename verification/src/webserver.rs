//! Configuration of the read-only status endpoint: where to bind, and the
//! stats it exposes. Serving HTTP is the surrounding binary's business; it
//! reads the endpoint's address and hands out the store's snapshot as a
//! mapping from container identity to counters.

use vstd::prelude::*;
use crate::stats::ContainerStats;
use crate::stats::StatsStore;
use crate::stats::pairs_view;

verus! {

/// The status endpoint: an IPv4 address and port, and the stats snapshot
/// it serves.
pub struct HealthCheckServer {
    addr: [u8; 4],
    port: u16,
    stats: StatsStore,
}

impl HealthCheckServer {
    /// The address to bind.
    pub closed spec fn addr_spec(self) -> [u8; 4] {
        self.addr
    }

    /// The port to bind.
    pub closed spec fn port_spec(self) -> u16 {
        self.port
    }

    /// The stats the endpoint serves.
    pub closed spec fn stats_spec(self) -> Map<Seq<char>, ContainerStats> {
        self.stats@
    }

    /// Bundles the endpoint's address, port and stats.
    pub fn new(addr: [u8; 4], port: u16, stats: StatsStore) -> (s: Self)
        ensures
            s.addr_spec() == addr,
            s.port_spec() == port,
            s.stats_spec() == stats@,
    {
        HealthCheckServer { stats, addr, port }
    }

    /// The address and port to bind, for the serving loop.
    pub fn bind_to(&self) -> (r: ([u8; 4], u16))
        ensures
            r.0 == self.addr_spec(),
            r.1 == self.port_spec(),
    {
        (self.addr, self.port)
    }

    /// The entries the endpoint serves, in first-observation order.
    pub closed spec fn entries_spec(self) -> Seq<(Seq<char>, ContainerStats)> {
        self.stats.entry_seq()
    }

    /// The entries to serialize, one per tracked container, in order.
    pub fn entries(&self) -> (v: Vec<(String, ContainerStats)>)
        ensures
            pairs_view(v@) == self.entries_spec(),
    {
        self.stats.snapshot()
    }
}

} // verus!
