//! Synchronisation engine for a key/value extension-storage store.
//!
//! The engine reconciles the local records with a stream of records from a
//! sync server. A pass stages the incoming batch, classifies each staged item
//! by where it is present (incoming, local, mirror), plans one local action per
//! item, applies the actions, and then collects the local changes to upload
//! and records them once the upload is confirmed.
use vstd::prelude::*;

pub mod interrupt;
pub mod json;
pub mod merge;
pub mod store;
pub mod incoming;
pub mod outgoing;
pub mod schema;
pub mod laws;

verus! {

/// A point in time on the sync server, in milliseconds since the epoch.
#[derive(Debug, Clone, Copy, PartialEq, Eq, Structural, Default)]
pub struct ServerTimestamp(pub i64);

impl ServerTimestamp {
    /// The largest number of milliseconds a timestamp may hold; the wire form
    /// (seconds as a float) maps anything at or past it to zero.
    pub open spec fn valid_millis(ms: int) -> bool {
        0 <= ms < i64::MAX
    }

    /// A timestamp from a count of milliseconds; counts that are negative or
    /// out of range become zero, as the wire form demands.
    pub fn from_millis(ms: i64) -> (r: ServerTimestamp)
        ensures
            r.0 == (if Self::valid_millis(ms as int) { ms } else { 0 }),
    {
        if ms < 0 || ms == i64::MAX {
            ServerTimestamp(0)
        } else {
            ServerTimestamp(ms)
        }
    }

    /// The milliseconds of the timestamp.
    pub fn as_millis(self) -> (r: i64)
        ensures
            r == self.0,
    {
        self.0
    }
}

} // verus!
