//! One accepted client connection: its outbound byte-message queue, the
//! write offset into the front buffer, and its readiness interest.
//!
//! The socket handle itself is owned by the unverified event loop; the
//! library owns everything the dispatch logic reads and updates.

use vstd::prelude::*;
use vstd::slice::slice_subrange;
use vstd::slice::slice_to_vec;

verus! {

/// Mathematical model of one connection's mutable state.
#[verifier::ext_equal]
pub struct ConnectionView {
    /// Outbound buffers awaiting write, front first.
    pub queue: Seq<Seq<u8>>,
    /// How many bytes of the front buffer already went out.
    pub front_written: nat,
    /// Whether the current readiness interest includes writable.
    pub wants_write: bool,
}

/// All bytes of the queued buffers, front buffer first, in order.
pub open spec fn concat_queue(q: Seq<Seq<u8>>) -> Seq<u8>
    decreases q.len(),
{
    if q.len() == 0 {
        Seq::empty()
    } else {
        q.first() + concat_queue(q.drop_first())
    }
}

impl ConnectionView {
    /// Internal consistency: queued buffers are never empty, the write
    /// offset points strictly inside the front buffer, and the interest
    /// includes writable exactly while output is pending.
    pub open spec fn inv(self) -> bool {
        &&& (if self.queue.len() == 0 {
            self.front_written == 0
        } else {
            self.front_written < self.queue.first().len()
        })
        &&& (forall|i: int| 0 <= i < self.queue.len() ==> #[trigger] self.queue[i].len() > 0)
        &&& (self.wants_write <==> self.queue.len() > 0)
    }

    /// A freshly accepted connection: nothing queued, readable only.
    pub open spec fn initial() -> ConnectionView {
        ConnectionView { queue: Seq::empty(), front_written: 0, wants_write: false }
    }

    /// Bytes still owed to the peer, in sending order.
    pub open spec fn pending_bytes(self) -> Seq<u8> {
        concat_queue(self.queue).skip(self.front_written as int)
    }

    /// Unwritten bytes of the front buffer alone.
    pub open spec fn front_remaining(self) -> int {
        if self.queue.len() == 0 {
            0
        } else {
            self.queue.first().len() - self.front_written
        }
    }

    /// The state after the protocol layer hands over one buffer to send.
    /// An empty buffer adds nothing and is not queued.
    pub open spec fn spec_enqueue(self, msg: Seq<u8>) -> ConnectionView {
        if msg.len() == 0 {
            self
        } else {
            ConnectionView { queue: self.queue.push(msg), front_written: self.front_written, wants_write: true }
        }
    }

    /// The state after the OS accepted `n` bytes of the front buffer:
    /// the offset moves forward, and a fully written buffer leaves the
    /// queue. Draining the queue withdraws the writable interest.
    pub open spec fn spec_advance(self, n: int) -> ConnectionView {
        if self.queue.len() == 0 {
            self
        } else if self.front_written + n == self.queue.first().len() {
            ConnectionView {
                queue: self.queue.drop_first(),
                front_written: 0,
                wants_write: self.queue.len() > 1,
            }
        } else {
            ConnectionView {
                queue: self.queue,
                front_written: (self.front_written + n) as nat,
                wants_write: self.wants_write,
            }
        }
    }
}

/// Appending a buffer at the back appends its bytes at the back of the
/// flattened queue.
pub proof fn lemma_concat_push(q: Seq<Seq<u8>>, m: Seq<u8>)
    ensures
        concat_queue(q.push(m)) == concat_queue(q) + m,
    decreases q.len(),
{
    if q.len() == 0 {
        assert(concat_queue(q) =~= Seq::<u8>::empty());
        assert(q.push(m).drop_first() =~= Seq::<Seq<u8>>::empty());
        assert(concat_queue(q.push(m).drop_first()) =~= Seq::<u8>::empty());
        assert(q.push(m).first() == m);
        assert(concat_queue(q.push(m)) =~= concat_queue(q) + m);
    } else {
        assert(q.push(m).drop_first() =~= q.drop_first().push(m));
        lemma_concat_push(q.drop_first(), m);
        assert(concat_queue(q.push(m)) =~= concat_queue(q) + m);
    }
}

/// With the invariant, output is pending exactly while the queue is
/// non-empty.
pub proof fn lemma_pending_empty_iff_queue_empty(c: ConnectionView)
    requires
        c.inv(),
    ensures
        c.pending_bytes().len() == 0 <==> c.queue.len() == 0,
{
    if c.queue.len() > 0 {
        assert(concat_queue(c.queue) == c.queue.first() + concat_queue(c.queue.drop_first()));
    }
}

/// Enqueueing preserves the invariant and appends the buffer's bytes to
/// the pending stream.
pub proof fn lemma_enqueue(c: ConnectionView, msg: Seq<u8>)
    requires
        c.inv(),
    ensures
        c.spec_enqueue(msg).inv(),
        c.spec_enqueue(msg).pending_bytes() == c.pending_bytes() + msg,
{
    if msg.len() == 0 {
        assert(c.pending_bytes() + msg =~= c.pending_bytes());
    } else {
        lemma_concat_push(c.queue, msg);
        if c.queue.len() > 0 {
            assert(concat_queue(c.queue) == c.queue.first() + concat_queue(c.queue.drop_first()));
        }
        assert(c.spec_enqueue(msg).pending_bytes() =~= c.pending_bytes() + msg);
        assert forall|i: int| 0 <= i < c.queue.push(msg).len() implies #[trigger] c.queue.push(
            msg,
        )[i].len() > 0 by {
            if i < c.queue.len() {
                assert(c.queue[i].len() > 0);
            }
        }
    }
}

/// Advancing by `n` accepted bytes preserves the invariant and removes
/// exactly the first `n` pending bytes; what remains resumes at the
/// correct offset.
pub proof fn lemma_advance(c: ConnectionView, n: int)
    requires
        c.inv(),
        0 <= n <= c.front_remaining(),
    ensures
        c.spec_advance(n).inv(),
        c.spec_advance(n).pending_bytes() == c.pending_bytes().skip(n),
{
    if c.queue.len() == 0 {
        assert(c.spec_advance(n).pending_bytes() =~= c.pending_bytes().skip(n));
    } else {
        assert(concat_queue(c.queue) == c.queue.first() + concat_queue(c.queue.drop_first()));
        if c.front_written + n == c.queue.first().len() {
            let rest = c.queue.drop_first();
            assert forall|i: int| 0 <= i < rest.len() implies #[trigger] rest[i].len() > 0 by {
                assert(c.queue[i + 1].len() > 0);
            }
            if rest.len() > 0 {
                assert(rest.first() == c.queue[1]);
                assert(c.queue[1].len() > 0);
            }
            assert(c.spec_advance(n).pending_bytes() =~= c.pending_bytes().skip(n));
        } else {
            assert(c.spec_advance(n).pending_bytes() =~= c.pending_bytes().skip(n));
        }
    }
}

/// A run of write attempts is valid when each one writes no more than
/// what remains of the then-current front buffer.
pub open spec fn valid_advances(c: ConnectionView, ns: Seq<int>) -> bool
    decreases ns.len(),
{
    ns.len() == 0 || (0 <= ns.first() <= c.front_remaining() && valid_advances(
        c.spec_advance(ns.first()),
        ns.drop_first(),
    ))
}

/// The connection state after a run of write attempts.
pub open spec fn advance_all(c: ConnectionView, ns: Seq<int>) -> ConnectionView
    decreases ns.len(),
{
    if ns.len() == 0 {
        c
    } else {
        advance_all(c.spec_advance(ns.first()), ns.drop_first())
    }
}

/// The bytes that went out over a run of write attempts, in order: each
/// attempt sends a prefix of what was pending at that moment.
pub open spec fn written_all(c: ConnectionView, ns: Seq<int>) -> Seq<u8>
    decreases ns.len(),
{
    if ns.len() == 0 {
        Seq::empty()
    } else {
        c.pending_bytes().take(ns.first()) + written_all(c.spec_advance(ns.first()), ns.drop_first())
    }
}

/// Partial-write resumption: over any valid run of write attempts, each
/// resuming at the current offset, the bytes that went out are exactly a
/// prefix of what was pending, with the rest still pending — nothing
/// lost, duplicated, or reordered.
pub proof fn lemma_partial_writes_deliver(c: ConnectionView, ns: Seq<int>)
    requires
        c.inv(),
        valid_advances(c, ns),
    ensures
        advance_all(c, ns).inv(),
        written_all(c, ns) + advance_all(c, ns).pending_bytes() == c.pending_bytes(),
    decreases ns.len(),
{
    if ns.len() == 0 {
        assert(written_all(c, ns) == Seq::<u8>::empty());
        assert(advance_all(c, ns) == c);
        assert(written_all(c, ns) + advance_all(c, ns).pending_bytes() =~= c.pending_bytes());
    } else {
        let n = ns.first();
        let c1 = c.spec_advance(n);
        let rest = ns.drop_first();
        lemma_advance(c, n);
        lemma_partial_writes_deliver(c1, rest);
        assert(written_all(c, ns) == c.pending_bytes().take(n) + written_all(c1, rest));
        assert(advance_all(c, ns) == advance_all(c1, rest));
        assert(written_all(c1, rest) + advance_all(c1, rest).pending_bytes() == c1.pending_bytes());
        assert(c.pending_bytes().take(n) + c.pending_bytes().skip(n) =~= c.pending_bytes());
        assert((c.pending_bytes().take(n) + written_all(c1, rest)) + advance_all(
            c1,
            rest,
        ).pending_bytes() =~= c.pending_bytes().take(n) + (written_all(c1, rest) + advance_all(
            c1,
            rest,
        ).pending_bytes()));
        assert(written_all(c, ns) + advance_all(c, ns).pending_bytes() =~= c.pending_bytes());
    }
}

/// Once the queue has drained, the full pending content was delivered,
/// exactly once.
pub proof fn lemma_drained_delivers_all(c: ConnectionView, ns: Seq<int>)
    requires
        c.inv(),
        valid_advances(c, ns),
        advance_all(c, ns).pending_bytes().len() == 0,
    ensures
        written_all(c, ns) == c.pending_bytes(),
{
    lemma_partial_writes_deliver(c, ns);
    assert(written_all(c, ns) =~= c.pending_bytes());
}

/// Echo round trip at the queue level: enqueue `b` on an idle connection
/// and drain the queue; exactly `b` goes out, byte for byte, however the
/// writes fragment.
pub proof fn lemma_echo_round_trip(b: Seq<u8>, ns: Seq<int>)
    requires
        valid_advances(ConnectionView::initial().spec_enqueue(b), ns),
        advance_all(ConnectionView::initial().spec_enqueue(b), ns).pending_bytes().len() == 0,
    ensures
        written_all(ConnectionView::initial().spec_enqueue(b), ns) == b,
{
    let c0 = ConnectionView::initial();
    lemma_enqueue(c0, b);
    assert(c0.pending_bytes() =~= Seq::<u8>::empty());
    assert(c0.spec_enqueue(b).pending_bytes() =~= b);
    lemma_drained_delivers_all(c0.spec_enqueue(b), ns);
}

/// One accepted client connection, as the dispatcher tracks it.
pub struct Connection {
    queue: Vec<Vec<u8>>,
    front_written: usize,
    wants_write: bool,
}

impl View for Connection {
    type V = ConnectionView;

    closed spec fn view(&self) -> ConnectionView {
        ConnectionView {
            queue: Seq::new(self.queue@.len(), |i: int| self.queue@[i]@),
            front_written: self.front_written as nat,
            wants_write: self.wants_write,
        }
    }
}

impl Connection {
    pub fn new() -> (c: Connection)
        ensures
            c@ == ConnectionView::initial(),
            c@.inv(),
    {
        let c = Connection { queue: Vec::new(), front_written: 0, wants_write: false };
        proof {
            assert(c@ =~= ConnectionView::initial());
        }
        c
    }

    /// Whether the readiness interest currently includes writable.
    pub fn wants_write(&self) -> (r: bool)
        ensures
            r == self@.wants_write,
    {
        self.wants_write
    }

    /// Unwritten bytes of the front buffer alone.
    pub fn front_remaining(&self) -> (r: usize)
        requires
            self@.inv(),
        ensures
            r == self@.front_remaining(),
    {
        if self.queue.len() == 0 {
            0
        } else {
            self.queue[0].len() - self.front_written
        }
    }

    /// Appends one buffer from the protocol layer to the outbound queue.
    /// Returns true when the interest must now be widened to include
    /// writable: exactly when the queue was idle and the buffer is not
    /// empty.
    pub fn enqueue(&mut self, msg: Vec<u8>) -> (became_writable: bool)
        requires
            old(self)@.inv(),
        ensures
            final(self)@ == old(self)@.spec_enqueue(msg@),
            final(self)@.inv(),
            final(self)@.pending_bytes() == old(self)@.pending_bytes() + msg@,
            became_writable == (!old(self)@.wants_write && msg@.len() > 0),
    {
        proof {
            lemma_enqueue(self@, msg@);
        }
        if msg.len() == 0 {
            return false;
        }
        let was_idle = !self.wants_write;
        let ghost pre = self@;
        self.queue.push(msg);
        self.wants_write = true;
        proof {
            assert(self@ =~= pre.spec_enqueue(msg@));
        }
        was_idle
    }

    /// A copy of the unwritten remainder of the front buffer: the next
    /// bytes to hand to the OS. `None` means nothing is pending.
    pub fn next_chunk(&self) -> (r: Option<Vec<u8>>)
        requires
            self@.inv(),
        ensures
            match r {
                Some(chunk) => {
                    &&& chunk@.len() == self@.front_remaining()
                    &&& chunk@.len() > 0
                    &&& chunk@ == self@.pending_bytes().take(self@.front_remaining())
                },
                None => self@.pending_bytes().len() == 0,
            },
    {
        proof {
            lemma_pending_empty_iff_queue_empty(self@);
        }
        if self.queue.len() == 0 {
            return None;
        }
        let front = &self.queue[0];
        let sub = slice_subrange(front.as_slice(), self.front_written, front.len());
        let chunk = slice_to_vec(sub);
        proof {
            assert(concat_queue(self@.queue) == self@.queue.first() + concat_queue(
                self@.queue.drop_first(),
            ));
            assert(chunk@ =~= self@.pending_bytes().take(self@.front_remaining()));
        }
        Some(chunk)
    }

    /// Records that the OS accepted `n` bytes of the front buffer. A
    /// partial write leaves the remainder queued at the advanced offset;
    /// a complete write retires the buffer. Returns true when the queue
    /// has drained and the interest must fall back to readable only.
    pub fn advance_write(&mut self, n: usize) -> (drained: bool)
        requires
            old(self)@.inv(),
            n <= old(self)@.front_remaining(),
        ensures
            final(self)@ == old(self)@.spec_advance(n as int),
            final(self)@.inv(),
            final(self)@.pending_bytes() == old(self)@.pending_bytes().skip(n as int),
            drained == (old(self)@.queue.len() > 0 && final(self)@.queue.len() == 0),
    {
        proof {
            lemma_advance(self@, n as int);
        }
        if self.queue.len() == 0 {
            return false;
        }
        let ghost pre = self@;
        let front_len = self.queue[0].len();
        proof {
            assert(front_len == pre.queue.first().len());
            assert(self.front_written + n <= front_len);
        }
        self.front_written = self.front_written + n;
        if self.front_written == front_len {
            self.queue.remove(0);
            self.front_written = 0;
            if self.queue.len() == 0 {
                self.wants_write = false;
                proof {
                    assert(self@ =~= pre.spec_advance(n as int));
                }
                return true;
            }
            proof {
                assert(self@.queue =~= pre.queue.drop_first());
                assert(self@ =~= pre.spec_advance(n as int));
            }
            return false;
        }
        proof {
            assert(self@ =~= pre.spec_advance(n as int));
        }
        false
    }
}

} // verus!
