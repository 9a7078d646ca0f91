//! Session-server layer of a protocol-based debugging adapter.
//!
//! The library covers the transport/session lifecycle: framing a byte
//! stream into discrete protocol messages, splitting a framed connection
//! into a message pump and a session handle joined by ordered queues,
//! serially serving client sessions, and the decision logic of the
//! crash guard and the reproducer controller.

pub mod codec;

pub mod channel;

pub mod pump;

pub mod server;

pub mod settings;

pub mod reproducer;

pub mod crash;

pub mod error;
