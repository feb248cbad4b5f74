//! The status cache: the device's last reported status, re-published only
//! when it changes.
use vstd::prelude::*;
use crate::wire::{Cmd, Relay, SensorErr, SensorResult};

verus! {

/// What an update does to the cache: the value held afterwards, and whether
/// it is broadcast.
pub open spec fn cache_update(held: Cmd, new: Cmd) -> (Cmd, bool) {
    (new, new != held)
}

/// The status held before the device has reported anything.
pub open spec fn initial_status() -> Cmd {
    Cmd::Status(Relay::Cold, SensorResult::Error(SensorErr::Uninitialized))
}

/// Latest status reported by the device.
#[derive(Debug)]
pub struct StatusCache {
    current: Cmd,
}

impl StatusCache {
    pub closed spec fn held(&self) -> Cmd {
        self.current
    }

    /// A cache holding the "not yet read" status.
    pub fn new() -> (r: StatusCache)
        ensures
            r.held() == initial_status(),
    {
        StatusCache { current: Cmd::Status(Relay::Cold, SensorResult::Error(SensorErr::Uninitialized)) }
    }

    /// Stores `new`; returns whether it differs from the value held before,
    /// that is whether it must be broadcast.
    pub fn update(&mut self, new: Cmd) -> (r: bool)
        ensures
            (final(self).held(), r) == cache_update(old(self).held(), new),
    {
        if new == self.current {
            false
        } else {
            self.current = new;
            true
        }
    }

    /// The status held.
    pub fn latest(&self) -> (r: Cmd)
        ensures
            r == self.held(),
    {
        self.current
    }
}

/// Sending the cache the same status twice in a row broadcasts it exactly
/// once when it differs from the value held before, and never otherwise.
pub proof fn lemma_change_only(held: Cmd, c: Cmd)
    ensures
        ({
            let (h1, b1) = cache_update(held, c);
            let (h2, b2) = cache_update(h1, c);
            &&& h2 == c
            &&& !b2
            &&& b1 == (c != held)
        }),
{
}

} // verus!
