//! State broadcast fan-out: a last-value-wins slot plus one cursor per
//! consumer. Publishing overwrites any unread value and never waits for a
//! reader; each reader independently detects "newer than what I last saw"
//! and fetches the latest snapshot whole, never a torn or stale-ordered one.
//! Intermediate snapshots a slow reader missed are coalesced away.

use vstd::prelude::*;

use crate::world::WorldData;

verus! {

/// The single-writer slot holding the latest published snapshot and its
/// version; versions grow by one per publish.
pub struct SnapshotSlot {
    pub latest: WorldData,
    pub version: u64,
}

/// One consumer's progress: the version it last observed.
pub struct ReadCursor {
    pub seen: u64,
}

impl SnapshotSlot {
    /// A slot holding an initial snapshot, already observable as version 1.
    pub fn new(initial: WorldData) -> (r: SnapshotSlot)
        ensures
            r.version == 1,
            r.latest@ == initial@,
    {
        SnapshotSlot { latest: initial, version: 1 }
    }

    /// Publish a snapshot: it replaces the previous value whether or not
    /// anyone read it, and the version advances. Never blocks on readers.
    pub fn publish(&mut self, w: WorldData)
        requires
            old(self).version < u64::MAX,
        ensures
            final(self).version == old(self).version + 1,
            final(self).latest@ == w@,
    {
        self.latest = w;
        self.version = self.version + 1;
    }
}

impl ReadCursor {
    /// A fresh consumer that has observed nothing yet.
    pub fn new() -> (r: ReadCursor)
        ensures
            r.seen == 0,
    {
        ReadCursor { seen: 0 }
    }

    /// Fetch the latest snapshot if it is newer than what this consumer last
    /// observed. Reading never changes the slot, so one slow or idle
    /// consumer cannot affect the producer or any other consumer; the seen
    /// version only grows, so observations are strictly newer each time.
    pub fn poll(&mut self, slot: &SnapshotSlot) -> (r: Option<WorldData>)
        ensures
            slot.version > old(self).seen ==> (match r {
                Some(w) => w@ == slot.latest@,
                None => false,
            }) && final(self).seen == slot.version,
            slot.version <= old(self).seen ==> r is None && final(self).seen == old(
                self,
            ).seen,
            final(self).seen >= old(self).seen,
    {
        if slot.version > self.seen {
            self.seen = slot.version;
            Some(slot.latest.clone())
        } else {
            None
        }
    }
}

} // verus!
