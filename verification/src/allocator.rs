//! Token allocator: issues identifiers for tracked I/O sources.

use vstd::prelude::*;

verus! {

/// Identifier reserved for the listening socket. The allocator never
/// issues it, so a readiness event carrying it always means "connections
/// are pending accept".
pub const LISTENER_ID: u64 = 0;

/// Issues identifiers for tracked I/O sources: strictly increasing,
/// starting at 1, never the reserved listener identifier, and never
/// reused while the process runs (no recycling, so a stale event after a
/// close can never be mistaken for a different live connection).
pub struct TokenAllocator {
    next_value: u64,
}

impl TokenAllocator {
    /// The identifier the next call to `next` would issue.
    pub closed spec fn spec_next(self) -> u64 {
        self.next_value
    }

    pub fn new() -> (a: TokenAllocator)
        ensures
            a.spec_next() == 1,
    {
        TokenAllocator { next_value: 1 }
    }

    /// True when another identifier can still be issued.
    pub fn can_allocate(&self) -> (r: bool)
        ensures
            r == (self.spec_next() < u64::MAX),
    {
        self.next_value < u64::MAX
    }

    /// Issues the next identifier: the current counter value, after which
    /// the counter moves strictly up. Started at 1 and never lowered, the
    /// counter keeps the result distinct from the reserved listener
    /// identifier.
    pub fn next(&mut self) -> (t: u64)
        requires
            1 <= old(self).spec_next() < u64::MAX,
        ensures
            t == old(self).spec_next(),
            final(self).spec_next() == t + 1,
            t != LISTENER_ID,
    {
        let t = self.next_value;
        self.next_value = self.next_value + 1;
        t
    }
}

/// Tagged identity of a readiness event's source: the listening socket,
/// or a tracked connection. Routing through this enum, instead of
/// comparing against the bare reserved value, keeps the two cases from
/// ever being confused.
#[derive(Clone, Copy, Debug, PartialEq, Eq, Structural)]
pub enum SourceId {
    /// The listening socket: readable means connections are pending accept.
    Listener,
    /// A tracked connection, by its allocated identifier.
    Conn(u64),
}

impl SourceId {
    /// The routing of a raw identifier: the reserved value names the
    /// listener, everything else a connection.
    pub open spec fn spec_from_raw(t: u64) -> SourceId {
        if t == LISTENER_ID {
            SourceId::Listener
        } else {
            SourceId::Conn(t)
        }
    }

    /// The raw identifier a source registers under.
    pub open spec fn spec_to_raw(self) -> u64 {
        match self {
            SourceId::Listener => LISTENER_ID,
            SourceId::Conn(t) => t,
        }
    }

    /// Routes a raw readiness-event identifier.
    pub fn from_raw(t: u64) -> (r: SourceId)
        ensures
            r == SourceId::spec_from_raw(t),
    {
        if t == LISTENER_ID {
            SourceId::Listener
        } else {
            SourceId::Conn(t)
        }
    }

    /// The raw identifier to register this source under.
    pub fn to_raw(self) -> (r: u64)
        ensures
            r == self.spec_to_raw(),
    {
        match self {
            SourceId::Listener => LISTENER_ID,
            SourceId::Conn(t) => t,
        }
    }
}

/// Routing loses nothing: every raw identifier routes to the source that
/// registers under it, and every source that can occur (the listener, or
/// a connection under an allocated, hence non-zero, identifier) registers
/// under the raw value that routes back to it.
pub proof fn lemma_source_id_round_trip(t: u64, s: SourceId)
    ensures
        SourceId::spec_from_raw(t).spec_to_raw() == t,
        (s matches SourceId::Conn(id) ==> id != LISTENER_ID) ==> SourceId::spec_from_raw(
            s.spec_to_raw(),
        ) == s,
{
}

} // verus!
