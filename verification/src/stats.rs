//! Producer/consumer counters for point clouds.
//!
//! Subscribers bump `RosStats::pc2_received` after each cloud written to the
//! scene; the UI compares it with the clouds it actually displayed to show
//! how many frames were overwritten before being drawn.

use std::sync::atomic::AtomicU64;
use vstd::prelude::*;

verus! {

/// Counters shared between the ROS thread and the UI.
pub struct RosStats {
    /// Point clouds decoded and written to the scene (all topics).
    pub pc2_received: AtomicU64,
}

impl RosStats {
    pub fn new() -> (r: Self) {
        RosStats { pc2_received: AtomicU64::new(0) }
    }

    /// Count one more cloud written to the scene (wrapping, like the atomic
    /// counter it is). What the counter holds afterwards depends on the
    /// other threads, so nothing is promised of it.
    pub fn record_pc2(&self) {
        self.pc2_received.fetch_add(1, std::sync::atomic::Ordering::Relaxed);
    }

    /// The current count.
    pub fn pc2_count(&self) -> (r: u64) {
        self.pc2_received.load(std::sync::atomic::Ordering::Relaxed)
    }
}

/// Point-cloud throughput as shown in the UI.
#[derive(Clone, Copy, Debug, PartialEq, Eq, Structural)]
pub struct Pc2Stats {
    pub received: u64,
    pub displayed: u64,
}

/// The UI's side of the accounting: a draw that sees the received count
/// advance has displayed one more cloud.
pub struct Pc2Accounting {
    pub last_seen_received: u64,
    pub displayed: u64,
}

impl Pc2Accounting {
    pub fn new() -> (r: Self)
        ensures
            r.last_seen_received == 0,
            r.displayed == 0,
    {
        Pc2Accounting { last_seen_received: 0, displayed: 0 }
    }

    /// Account one draw, given the current received count.
    pub fn observe(&mut self, received: u64) -> (r: Pc2Stats)
        requires
            old(self).displayed < u64::MAX,
        ensures
            received > old(self).last_seen_received ==> final(self).displayed == old(self).displayed + 1
                && final(self).last_seen_received == received,
            received <= old(self).last_seen_received ==> final(self).displayed == old(self).displayed
                && final(self).last_seen_received == old(self).last_seen_received,
            r == (Pc2Stats { received, displayed: final(self).displayed }),
    {
        if received > self.last_seen_received {
            self.displayed = self.displayed + 1;
            self.last_seen_received = received;
        }
        Pc2Stats { received, displayed: self.displayed }
    }
}

impl Pc2Stats {
    /// Clouds received but never displayed.
    pub fn dropped(&self) -> (r: u64)
        ensures
            r == if self.received > self.displayed {
                (self.received - self.displayed) as u64
            } else {
                0
            },
    {
        if self.received > self.displayed {
            self.received - self.displayed
        } else {
            0
        }
    }
}

} // verus!
