//! Dispatcher state: the token allocator, the connection registry, and
//! the model of what is registered with the OS readiness facility.
//!
//! The blocking poll, the non-blocking accept/read/write calls and the
//! actual (de)registrations are performed by the unverified event loop;
//! it feeds their outcomes into these methods and carries out the
//! actions their results call for. Every method here is total over the
//! events the loop can hand it: a stale identifier is answered with an
//! explicit "absent" outcome, never a fault.

use vstd::prelude::*;

use crate::allocator::LISTENER_ID;
use crate::allocator::TokenAllocator;
use crate::connection::Connection;
use crate::connection::ConnectionView;
use crate::connection::lemma_pending_empty_iff_queue_empty;
use crate::registry::Registry;

verus! {

/// Mathematical model of the dispatcher state.
#[verifier::ext_equal]
pub struct ServerView {
    /// The identifier the allocator will issue next.
    pub next_token: u64,
    /// Live connections, by identifier.
    pub connections: Map<u64, ConnectionView>,
    /// Identifiers registered with the OS readiness facility.
    pub registered: Set<u64>,
}

impl ServerView {
    /// The dispatcher invariant: identifiers are non-zero and below the
    /// allocation counter (so they are unique and never reused), every
    /// live connection is internally consistent, and the set registered
    /// with the readiness facility is exactly the registry's keys plus
    /// the reserved listener identifier.
    pub open spec fn inv(self) -> bool {
        &&& 1 <= self.next_token
        &&& self.connections.dom().finite()
        &&& (forall|t: u64| #[trigger]
            self.connections.dom().contains(t) ==> 1 <= t < self.next_token)
        &&& self.registered == self.connections.dom().insert(LISTENER_ID)
        &&& (forall|t: u64| #[trigger]
            self.connections.dom().contains(t) ==> self.connections[t].inv())
    }

    /// State at startup: nothing live, only the listener registered.
    pub open spec fn initial() -> ServerView {
        ServerView {
            next_token: 1,
            connections: Map::empty(),
            registered: Set::empty().insert(LISTENER_ID),
        }
    }

    /// One successful accept: the next identifier is issued, and a fresh
    /// connection is registered readable and inserted under it.
    pub open spec fn spec_accept(self) -> ServerView {
        ServerView {
            next_token: (self.next_token + 1) as u64,
            connections: self.connections.insert(self.next_token, ConnectionView::initial()),
            registered: self.registered.insert(self.next_token),
        }
    }

    /// The state after `n` consecutive successful accepts.
    pub open spec fn spec_accept_n(self, n: nat) -> ServerView
        decreases n,
    {
        if n == 0 {
            self
        } else {
            self.spec_accept().spec_accept_n((n - 1) as nat)
        }
    }
}

/// What the event loop must do after a close request.
#[derive(Clone, Copy, Debug, PartialEq, Eq, Structural)]
pub enum CloseOutcome {
    /// The connection was live: deregister its socket from the readiness
    /// facility and drop the handle.
    Deregister,
    /// The identifier was not live; the request was a no-op.
    AlreadyClosed,
}

/// What became of a buffer handed over for sending.
#[derive(Clone, Copy, Debug, PartialEq, Eq, Structural)]
pub enum EnqueueOutcome {
    /// The identifier is not live; the buffer was dropped (stale event).
    Absent,
    /// The buffer was queued; the interest already included writable
    /// (or the buffer was empty and added nothing).
    Queued,
    /// The buffer was queued and the connection must now be reregistered
    /// readable and writable.
    QueuedNowWritable,
}

/// What became of a reported write of `n` bytes.
#[derive(Clone, Copy, Debug, PartialEq, Eq, Structural)]
pub enum WriteOutcome {
    /// The identifier is not live (stale event); nothing changed.
    Absent,
    /// More bytes were reported than the front buffer still holds: an
    /// internal-consistency fault, reported and otherwise ignored.
    TooLong,
    /// The write was recorded; output is still pending.
    Advanced,
    /// The write was recorded and the queue drained: reregister the
    /// connection readable only.
    Drained,
}

/// The dispatcher's own state: owns the allocator, the registry, and the
/// model of the readiness-facility registrations.
pub struct Server {
    allocator: TokenAllocator,
    registry: Registry,
    registered: Ghost<Set<u64>>,
}

impl View for Server {
    type V = ServerView;

    closed spec fn view(&self) -> ServerView {
        ServerView {
            next_token: self.allocator.spec_next(),
            connections: self.registry@,
            registered: self.registered@,
        }
    }
}

impl Server {
    /// Dispatcher state for a freshly bound listener: no connections,
    /// only the listening socket registered, identifiers start at 1.
    pub fn new() -> (s: Server)
        ensures
            s@ == ServerView::initial(),
            s@.inv(),
    {
        let s = Server {
            allocator: TokenAllocator::new(),
            registry: Registry::new(),
            registered: Ghost(Set::empty().insert(LISTENER_ID)),
        };
        proof {
            assert(s@ =~= ServerView::initial());
            assert(s@.registered =~= s@.connections.dom().insert(LISTENER_ID));
        }
        s
    }

    /// Whether `id` names a live connection.
    pub fn is_live(&self, id: u64) -> (r: bool)
        ensures
            r == self@.connections.dom().contains(id),
    {
        self.registry.contains(id)
    }

    /// Number of live connections.
    pub fn live_count(&self) -> (n: usize)
        ensures
            n == self@.connections.dom().len(),
    {
        self.registry.len()
    }

    /// Issues a fresh identifier, distinct from the reserved listener
    /// identifier and from every identifier ever issued before.
    pub fn next_token(&mut self) -> (t: u64)
        requires
            old(self)@.inv(),
            old(self)@.next_token < u64::MAX,
        ensures
            final(self)@.inv(),
            t == old(self)@.next_token,
            t != LISTENER_ID,
            final(self)@.next_token == t + 1,
            final(self)@.connections == old(self)@.connections,
            final(self)@.registered == old(self)@.registered,
    {
        self.allocator.next()
    }

    /// One successful accept: issues an identifier, records the fresh
    /// connection as live and as registered readable under it. Returns
    /// the identifier the event loop must register the socket under.
    /// `None` only when the identifier space is exhausted; the state is
    /// then unchanged and the loop must drop the socket.
    pub fn accept_connection(&mut self) -> (r: Option<u64>)
        requires
            old(self)@.inv(),
        ensures
            final(self)@.inv(),
            (r matches Some(_)) <==> old(self)@.next_token < u64::MAX,
            r matches Some(t) ==> t == old(self)@.next_token,
            r matches None ==> final(self)@ == old(self)@,
            r matches Some(t) ==> {
                &&& t != LISTENER_ID
                &&& !old(self)@.connections.dom().contains(t)
                &&& final(self)@ == old(self)@.spec_accept()
                &&& final(self)@.connections == old(self)@.connections.insert(
                    t,
                    ConnectionView::initial(),
                )
                &&& final(self)@.registered == old(self)@.registered.insert(t)
                &&& final(self)@.next_token == t + 1
            },
    {
        if !self.allocator.can_allocate() {
            return None;
        }
        let t = self.next_token();
        let conn = Connection::new();
        let result = self.registry.insert(t, conn);
        match result {
            Ok(_) => {},
            Err(_) => {
                return vstd::pervasive::unreached();
            },
        }
        self.registered = Ghost(self.registered@.insert(t));
        proof {
            assert(final(self)@ =~= old(self)@.spec_accept());
            assert(final(self)@.registered =~= final(self)@.connections.dom().insert(LISTENER_ID));
        }
        Some(t)
    }

    /// The close path for `id`: removes the registry entry and the
    /// registration. Asking to close an identifier that is not live —
    /// for instance because an event queued before the close was already
    /// processed — is a no-op, not a fault.
    pub fn close_connection(&mut self, id: u64) -> (r: CloseOutcome)
        requires
            old(self)@.inv(),
        ensures
            final(self)@.inv(),
            final(self)@.next_token == old(self)@.next_token,
            match r {
                CloseOutcome::Deregister => {
                    &&& old(self)@.connections.dom().contains(id)
                    &&& final(self)@.connections == old(self)@.connections.remove(id)
                    &&& final(self)@.registered == old(self)@.registered.remove(id)
                },
                CloseOutcome::AlreadyClosed => {
                    &&& !old(self)@.connections.dom().contains(id)
                    &&& final(self)@ == old(self)@
                },
            },
    {
        let removed = self.registry.remove(id);
        match removed {
            Some(_conn) => {
                self.registered = Ghost(self.registered@.remove(id));
                proof {
                    assert(final(self)@.registered =~= final(self)@.connections.dom().insert(
                        LISTENER_ID,
                    ));
                }
                CloseOutcome::Deregister
            },
            None => {
                proof {
                    assert(final(self)@ =~= old(self)@);
                }
                CloseOutcome::AlreadyClosed
            },
        }
    }

    /// Queues one buffer produced by the protocol layer for `id`. The
    /// result says whether the event loop must widen the connection's
    /// interest to readable and writable: exactly when the queue was
    /// idle and the buffer is not empty. A buffer for an identifier that
    /// is no longer live is dropped (stale event).
    pub fn enqueue_message(&mut self, id: u64, msg: Vec<u8>) -> (r: EnqueueOutcome)
        requires
            old(self)@.inv(),
        ensures
            final(self)@.inv(),
            final(self)@.next_token == old(self)@.next_token,
            final(self)@.registered == old(self)@.registered,
            match r {
                EnqueueOutcome::Absent => {
                    &&& !old(self)@.connections.dom().contains(id)
                    &&& final(self)@ == old(self)@
                },
                EnqueueOutcome::Queued => {
                    &&& old(self)@.connections.dom().contains(id)
                    &&& (old(self)@.connections[id].wants_write || msg@.len() == 0)
                },
                EnqueueOutcome::QueuedNowWritable => {
                    &&& old(self)@.connections.dom().contains(id)
                    &&& !old(self)@.connections[id].wants_write
                    &&& msg@.len() > 0
                },
            },
            (r matches EnqueueOutcome::Queued || r matches EnqueueOutcome::QueuedNowWritable) ==> {
                &&& final(self)@.connections == old(self)@.connections.insert(
                    id,
                    old(self)@.connections[id].spec_enqueue(msg@),
                )
                &&& final(self)@.connections[id].pending_bytes() == old(
                    self,
                )@.connections[id].pending_bytes() + msg@
            },
    {
        let removed = self.registry.remove(id);
        match removed {
            None => {
                proof {
                    assert(final(self)@ =~= old(self)@);
                }
                EnqueueOutcome::Absent
            },
            Some(mut conn) => {
                let became_writable = conn.enqueue(msg);
                let put_back = self.registry.insert(id, conn);
                match put_back {
                    Ok(_) => {},
                    Err(_) => {
                        return vstd::pervasive::unreached();
                    },
                }
                proof {
                    assert(final(self)@.connections =~= old(self)@.connections.insert(
                        id,
                        old(self)@.connections[id].spec_enqueue(msg@),
                    ));
                    assert(final(self)@.connections.dom() =~= old(self)@.connections.dom());
                }
                if became_writable {
                    EnqueueOutcome::QueuedNowWritable
                } else {
                    EnqueueOutcome::Queued
                }
            },
        }
    }

    /// A copy of the bytes to hand to the OS next for `id`: the
    /// unwritten remainder of the front queued buffer. `None` when the
    /// identifier is not live or nothing is pending.
    pub fn next_chunk(&self, id: u64) -> (r: Option<Vec<u8>>)
        requires
            self@.inv(),
        ensures
            match r {
                Some(chunk) => {
                    &&& self@.connections.dom().contains(id)
                    &&& chunk@.len() > 0
                    &&& chunk@.len() == self@.connections[id].front_remaining()
                    &&& chunk@ == self@.connections[id].pending_bytes().take(
                        self@.connections[id].front_remaining(),
                    )
                },
                None => !self@.connections.dom().contains(id)
                    || self@.connections[id].pending_bytes().len() == 0,
            },
    {
        let found = self.registry.get(id);
        match found {
            None => None,
            Some(conn) => conn.next_chunk(),
        }
    }

    /// Records that the OS accepted `n` bytes of the front buffer of
    /// `id`. A partial write leaves the remainder queued at the advanced
    /// offset, so a later writable event resumes exactly where this one
    /// stopped; a complete write retires the buffer. `Drained` tells the
    /// event loop to reregister the connection readable only.
    pub fn advance_write(&mut self, id: u64, n: usize) -> (r: WriteOutcome)
        requires
            old(self)@.inv(),
        ensures
            final(self)@.inv(),
            final(self)@.next_token == old(self)@.next_token,
            final(self)@.registered == old(self)@.registered,
            match r {
                WriteOutcome::Absent => {
                    &&& !old(self)@.connections.dom().contains(id)
                    &&& final(self)@ == old(self)@
                },
                WriteOutcome::TooLong => {
                    &&& old(self)@.connections.dom().contains(id)
                    &&& n > old(self)@.connections[id].front_remaining()
                    &&& final(self)@ == old(self)@
                },
                WriteOutcome::Advanced => {
                    &&& old(self)@.connections.dom().contains(id)
                    &&& final(self)@.connections[id].pending_bytes().len() > 0
                },
                WriteOutcome::Drained => {
                    &&& old(self)@.connections.dom().contains(id)
                    &&& final(self)@.connections[id].pending_bytes().len() == 0
                },
            },
            (r matches WriteOutcome::Advanced || r matches WriteOutcome::Drained) ==> {
                &&& n <= old(self)@.connections[id].front_remaining()
                &&& final(self)@.connections == old(self)@.connections.insert(
                    id,
                    old(self)@.connections[id].spec_advance(n as int),
                )
                &&& final(self)@.connections[id].pending_bytes() == old(
                    self,
                )@.connections[id].pending_bytes().skip(n as int)
            },
    {
        let removed = self.registry.remove(id);
        match removed {
            None => {
                proof {
                    assert(final(self)@ =~= old(self)@);
                }
                WriteOutcome::Absent
            },
            Some(mut conn) => {
                let remaining = conn.front_remaining();
                if n > remaining {
                    let put_back = self.registry.insert(id, conn);
                    match put_back {
                        Ok(_) => {},
                        Err(_) => {
                            return vstd::pervasive::unreached();
                        },
                    }
                    proof {
                        assert(final(self)@ =~= old(self)@);
                    }
                    WriteOutcome::TooLong
                } else {
                    conn.advance_write(n);
                    let still_pending = conn.wants_write();
                    proof {
                        lemma_pending_empty_iff_queue_empty(conn@);
                    }
                    let put_back = self.registry.insert(id, conn);
                    match put_back {
                        Ok(_) => {},
                        Err(_) => {
                            return vstd::pervasive::unreached();
                        },
                    }
                    proof {
                        assert(final(self)@.connections =~= old(self)@.connections.insert(
                            id,
                            old(self)@.connections[id].spec_advance(n as int),
                        ));
                        assert(final(self)@.connections.dom() =~= old(self)@.connections.dom());
                    }
                    if still_pending {
                        WriteOutcome::Advanced
                    } else {
                        WriteOutcome::Drained
                    }
                }
            },
        }
    }

    /// Whether the connection's interest currently includes writable;
    /// false for an identifier that is not live.
    pub fn wants_write(&self, id: u64) -> (r: bool)
        ensures
            r == (self@.connections.dom().contains(id) && self@.connections[id].wants_write),
    {
        let found = self.registry.get(id);
        match found {
            None => false,
            Some(conn) => conn.wants_write(),
        }
    }
}

/// Every live connection's identifier is non-zero and below the
/// allocation counter; in particular the identifier issued next — and,
/// the counter only growing, every one issued later — is not live now,
/// so identifiers never collide with a live connection.
pub proof fn lemma_live_identifiers_nonzero_fresh(s: ServerView)
    requires
        s.inv(),
    ensures
        forall|t: u64| #[trigger] s.connections.dom().contains(t) ==> t != LISTENER_ID && 1 <= t
            < s.next_token,
        !s.connections.dom().contains(s.next_token),
{
}

/// The identifiers registered with the readiness facility, the reserved
/// listener identifier set aside, are exactly the registry's keys: the
/// two never diverge.
pub proof fn lemma_registered_matches_registry(s: ServerView)
    requires
        s.inv(),
    ensures
        s.registered.contains(LISTENER_ID),
        s.registered.remove(LISTENER_ID) == s.connections.dom(),
        forall|t: u64| t != LISTENER_ID ==> (#[trigger] s.registered.contains(t)
            <==> s.connections.dom().contains(t)),
{
    assert(s.registered.remove(LISTENER_ID) =~= s.connections.dom());
}

/// The accept sub-loop drains every pending connection: `n` consecutive
/// successful accepts from any consistent state accept all `n`, each
/// under a fresh identifier, while every previously live connection is
/// left untouched.
pub proof fn lemma_accept_batch_drains(s: ServerView, n: nat)
    requires
        s.inv(),
        s.next_token + n <= u64::MAX,
    ensures
        s.spec_accept_n(n).inv(),
        s.spec_accept_n(n).next_token == s.next_token + n,
        forall|t: u64|
            (#[trigger] s.spec_accept_n(n).connections.dom().contains(t)) <==> (
            s.connections.dom().contains(t) || (s.next_token <= t < s.next_token + n)),
        s.spec_accept_n(n).connections.dom().len() == s.connections.dom().len() + n,
        forall|t: u64| #[trigger] s.connections.dom().contains(t)
            ==> s.spec_accept_n(n).connections[t] == s.connections[t],
    decreases n,
{
    if n == 0 {
    } else {
        let m = (n - 1) as nat;
        let s1 = s.spec_accept();
        assert(s1.registered =~= s1.connections.dom().insert(LISTENER_ID));
        assert(s1.inv());
        assert(!s.connections.dom().contains(s.next_token));
        assert(s1.connections.dom() =~= s.connections.dom().insert(s.next_token));
        assert(s1.connections.dom().len() == s.connections.dom().len() + 1);
        lemma_accept_batch_drains(s1, m);
        assert(s.spec_accept_n(n) == s1.spec_accept_n(m));
        assert forall|t: u64|
            (#[trigger] s.spec_accept_n(n).connections.dom().contains(t)) <==> (
            s.connections.dom().contains(t) || (s.next_token <= t < s.next_token + n)) by {
            assert(s1.spec_accept_n(m).connections.dom().contains(t) <==> (
            s1.connections.dom().contains(t) || (s1.next_token <= t < s1.next_token + m)));
        }
        assert forall|t: u64| #[trigger]
            s.connections.dom().contains(t) implies s.spec_accept_n(n).connections[t]
            == s.connections[t] by {
            assert(s1.connections.dom().contains(t));
            assert(s1.connections[t] == s.connections[t]);
            assert(s1.spec_accept_n(m).connections[t] == s1.connections[t]);
        }
    }
}

} // verus!
