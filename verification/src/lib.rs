//! Core of a single-threaded, event-driven TCP connection multiplexer.
//!
//! The crate holds the verified state of the dispatcher: the token
//! allocator, the connection registry, each connection's outbound queue,
//! and the model of what is registered with the OS readiness facility.
//! The event loop itself (polling, accepting, reading, writing) performs
//! I/O and therefore lives outside the verified library; it drives this
//! state machine and carries out the actions it decides.

pub mod allocator;
pub mod connection;
pub mod registry;
pub mod server;
