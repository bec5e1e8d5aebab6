use muxer::allocator::SourceId;
use muxer::connection::Connection;
use muxer::registry::Registry;
use muxer::registry::RegistryFault;
use muxer::allocator::TokenAllocator;
use muxer::allocator::LISTENER_ID;
use muxer::server::CloseOutcome;
use muxer::server::EnqueueOutcome;
use muxer::server::Server;
use muxer::server::WriteOutcome;

#[test]
fn allocator_starts_at_one_and_increases() {
    let mut a = TokenAllocator::new();
    assert!(a.can_allocate());
    let t1 = a.next();
    let t2 = a.next();
    let t3 = a.next();
    assert_eq!(t1, 1);
    assert_eq!(t2, 2);
    assert_eq!(t3, 3);
    assert_ne!(t1, LISTENER_ID);
    assert_ne!(t2, LISTENER_ID);
    assert_ne!(t3, LISTENER_ID);
}

#[test]
fn source_id_round_trip() {
    assert_eq!(SourceId::from_raw(0), SourceId::Listener);
    assert_eq!(SourceId::from_raw(7), SourceId::Conn(7));
    assert_eq!(SourceId::Listener.to_raw(), 0);
    assert_eq!(SourceId::Conn(7).to_raw(), 7);
    assert_eq!(SourceId::from_raw(SourceId::Conn(42).to_raw()), SourceId::Conn(42));
}

#[test]
fn accept_batch_accepts_every_pending_connection() {
    let mut s = Server::new();
    assert_eq!(s.live_count(), 0);
    // Three connections pending before one poll: the accept sub-loop
    // takes all three, each under a fresh non-zero identifier.
    let t1 = s.accept_connection().unwrap();
    let t2 = s.accept_connection().unwrap();
    let t3 = s.accept_connection().unwrap();
    assert_eq!(t1, 1);
    assert_eq!(t2, 2);
    assert_eq!(t3, 3);
    assert_eq!(s.live_count(), 3);
    assert!(s.is_live(t1));
    assert!(s.is_live(t2));
    assert!(s.is_live(t3));
    assert!(!s.is_live(LISTENER_ID));
    assert!(!s.is_live(4));
}

#[test]
fn duplicate_insert_is_refused() {
    let mut r = Registry::new();
    assert_eq!(r.insert(5, Connection::new()), Ok(()));
    // Inserting an identifier that is already live is an
    // internal-consistency fault, and the registry is unchanged.
    assert_eq!(r.insert(5, Connection::new()), Err(RegistryFault::DuplicateIdentifier));
    assert_eq!(r.len(), 1);
    assert!(r.contains(5));
}

#[test]
fn close_is_idempotent() {
    let mut s = Server::new();
    let t = s.accept_connection().unwrap();
    assert_eq!(s.close_connection(t), CloseOutcome::Deregister);
    assert!(!s.is_live(t));
    // A second close of the same identifier is a no-op, not a fault.
    assert_eq!(s.close_connection(t), CloseOutcome::AlreadyClosed);
    assert_eq!(s.live_count(), 0);
    // Closing an identifier that never existed is also a no-op.
    assert_eq!(s.close_connection(99), CloseOutcome::AlreadyClosed);
}

#[test]
fn identifiers_are_not_reused_after_close() {
    let mut s = Server::new();
    let t1 = s.accept_connection().unwrap();
    assert_eq!(s.close_connection(t1), CloseOutcome::Deregister);
    let t2 = s.accept_connection().unwrap();
    assert_ne!(t1, t2);
    assert_eq!(t2, 2);
}

#[test]
fn enqueue_widens_interest_once() {
    let mut s = Server::new();
    let t = s.accept_connection().unwrap();
    assert!(!s.wants_write(t));
    assert_eq!(s.enqueue_message(t, b"ab".to_vec()), EnqueueOutcome::QueuedNowWritable);
    assert!(s.wants_write(t));
    // Already writable: queued without another interest change.
    assert_eq!(s.enqueue_message(t, b"cd".to_vec()), EnqueueOutcome::Queued);
    assert!(s.wants_write(t));
}

#[test]
fn empty_buffer_adds_nothing() {
    let mut s = Server::new();
    let t = s.accept_connection().unwrap();
    assert_eq!(s.enqueue_message(t, Vec::new()), EnqueueOutcome::Queued);
    assert!(!s.wants_write(t));
    assert!(s.next_chunk(t).is_none());
}

#[test]
fn stale_events_are_no_ops() {
    let mut s = Server::new();
    let t = s.accept_connection().unwrap();
    s.close_connection(t);
    // Events queued before the close was processed arrive afterwards:
    // each path answers "absent" instead of faulting.
    assert_eq!(s.enqueue_message(t, b"late".to_vec()), EnqueueOutcome::Absent);
    assert_eq!(s.advance_write(t, 1), WriteOutcome::Absent);
    assert!(s.next_chunk(t).is_none());
    assert!(!s.wants_write(t));
}

#[test]
fn overlong_write_report_is_a_fault_and_changes_nothing() {
    let mut s = Server::new();
    let t = s.accept_connection().unwrap();
    s.enqueue_message(t, b"abc".to_vec());
    assert_eq!(s.advance_write(t, 4), WriteOutcome::TooLong);
    assert_eq!(s.next_chunk(t).unwrap(), b"abc".to_vec());
}

#[test]
fn echo_round_trip_single_write() {
    let mut s = Server::new();
    let t = s.accept_connection().unwrap();
    // Protocol hook echoes the received bytes.
    assert_eq!(s.enqueue_message(t, b"hello".to_vec()), EnqueueOutcome::QueuedNowWritable);
    let chunk = s.next_chunk(t).unwrap();
    assert_eq!(chunk, b"hello".to_vec());
    assert_eq!(s.advance_write(t, 5), WriteOutcome::Drained);
    assert!(s.next_chunk(t).is_none());
    assert!(!s.wants_write(t));
}

#[test]
fn partial_write_resumes_at_correct_offset() {
    let mut s = Server::new();
    let t = s.accept_connection().unwrap();
    s.enqueue_message(t, b"hello".to_vec());
    // The OS accepts only 2 of the 5 bytes.
    assert_eq!(s.next_chunk(t).unwrap(), b"hello".to_vec());
    assert_eq!(s.advance_write(t, 2), WriteOutcome::Advanced);
    // The next writable event resumes with the remainder, not the start.
    assert_eq!(s.next_chunk(t).unwrap(), b"llo".to_vec());
    assert_eq!(s.advance_write(t, 3), WriteOutcome::Drained);
    assert!(s.next_chunk(t).is_none());
}

#[test]
fn fragmented_reads_reassemble_in_order() {
    let mut s = Server::new();
    let t = s.accept_connection().unwrap();
    // The peer's bytes arrived over two partial reads; the echo hook
    // produced one buffer per read.
    s.enqueue_message(t, b"hel".to_vec());
    s.enqueue_message(t, b"lo".to_vec());
    let mut delivered: Vec<u8> = Vec::new();
    // Drain with deliberately small writes crossing the buffer seam.
    loop {
        let chunk = match s.next_chunk(t) {
            Some(c) => c,
            None => break,
        };
        let n = if chunk.len() >= 2 { 2 } else { chunk.len() };
        delivered.extend_from_slice(&chunk[..n]);
        match s.advance_write(t, n) {
            WriteOutcome::Advanced | WriteOutcome::Drained => {},
            other => panic!("unexpected outcome: {:?}", other),
        }
    }
    assert_eq!(delivered, b"hello".to_vec());
}

#[test]
fn two_clients_echo_reaches_only_the_sender() {
    // Scenario: the listener is up; two clients connect.
    let mut s = Server::new();
    let c1 = s.accept_connection().unwrap();
    let c2 = s.accept_connection().unwrap();
    assert_ne!(c1, c2);

    // C1 sends "hello"; the echo hook queues it for C1 alone.
    assert_eq!(s.enqueue_message(c1, b"hello".to_vec()), EnqueueOutcome::QueuedNowWritable);
    assert!(s.next_chunk(c2).is_none());
    assert!(!s.wants_write(c2));

    // Only C1 receives the echoed "hello".
    assert_eq!(s.next_chunk(c1).unwrap(), b"hello".to_vec());
    assert_eq!(s.advance_write(c1, 5), WriteOutcome::Drained);

    // C2 disconnects; C1 is undisturbed.
    assert_eq!(s.close_connection(c2), CloseOutcome::Deregister);
    assert!(s.is_live(c1));
    assert_eq!(s.enqueue_message(c1, b"more".to_vec()), EnqueueOutcome::QueuedNowWritable);

    // A new client C3 is accepted afterwards without disruption.
    let c3 = s.accept_connection().unwrap();
    assert!(s.is_live(c3));
    assert_ne!(c3, c1);
    assert_ne!(c3, c2);
    assert_eq!(s.live_count(), 2);
}
