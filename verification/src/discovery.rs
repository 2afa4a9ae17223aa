//! Local network discovery over mDNS: what a discovered service is, and the flags that
//! keep one discovery thread running at a time and let it be asked to stop, and which
//! browse receivers the loop keeps polling.

use vstd::prelude::*;
use crate::text::owned;

verus! {

/// A service announced over mDNS.
pub struct DiscoveredHost {
    pub name: String,
    pub address: String,
    pub port: u16,
    pub service_type: String,
}

/// Whether the discovery thread runs, and whether it was asked to stop.
pub struct DiscoveryState {
    pub running: bool,
    pub stop_requested: bool,
}

impl DiscoveryState {
    pub fn new() -> (r: Self)
        ensures
            !r.running,
            !r.stop_requested,
    {
        DiscoveryState { running: false, stop_requested: false }
    }

    /// Asks the discovery thread to stop, if it runs.
    pub fn request_stop(&mut self)
        ensures
            final(self).stop_requested,
            final(self).running == old(self).running,
    {
        self.stop_requested = true;
    }

    /// Starts discovery unless it already runs; a start clears an earlier stop request.
    /// Whether this call started it.
    pub fn try_start(&mut self) -> (r: bool)
        ensures
            r == !old(self).running,
            final(self).running,
            r ==> !final(self).stop_requested,
            !r ==> final(self).stop_requested == old(self).stop_requested,
    {
        if self.running {
            return false;
        }
        self.running = true;
        self.stop_requested = false;
        true
    }

    /// The discovery thread ended.
    pub fn finished(&mut self)
        ensures
            !final(self).running,
            final(self).stop_requested == old(self).stop_requested,
    {
        self.running = false;
    }
}


/// What waiting on one browse receiver gave.
#[derive(Clone, Copy, Debug, PartialEq, Eq, Structural)]
pub enum PollOutcome {
    Event,
    Timeout,
    Disconnected,
}

/// Whether a receiver is kept after a wait: one whose daemon has gone away is dropped,
/// so the loop can end instead of spinning on it.
pub fn receiver_stays(outcome: PollOutcome) -> (r: bool)
    ensures
        r == (outcome != PollOutcome::Disconnected),
{
    match outcome {
        PollOutcome::Disconnected => false,
        _ => true,
    }
}

/// The host a resolved service announces: its full name, its first address, its port;
/// none without an address.
pub fn discovered_host(fullname: String, first_address: Option<String>, port: u16) -> (r: Option<DiscoveredHost>)
    ensures
        match first_address {
            Some(a) => r matches Some(h) && h.name == fullname && h.address == a && h.port == port
                && h.service_type@ == "discovered"@,
            None => r is None,
        },
{
    match first_address {
        Some(address) => Some(DiscoveredHost { name: fullname, address, port, service_type: owned("discovered") }),
        None => None,
    }
}

} // verus!
