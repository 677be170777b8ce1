//! Protocol engine of a reverse tunnel.
//!
//! A server exposes public domains, each mapped to a listening port, and relays
//! inbound traffic to clients that have no public address. This crate holds the
//! parts of that system that decide something: the wire codec of the control
//! messages, the reassembly of messages from a byte stream, the pool of
//! domain/port pairs, the registry of control channels with their queues of
//! waiting public connections, the client's state machines, and the observer
//! that recognises HTTP request and status lines in relayed traffic. Sockets,
//! timers and task scheduling belong to the program that embeds the engine: it
//! feeds events in and carries the returned actions out.

pub mod control;
pub mod framing;
pub mod logger;
pub mod packet;
pub mod pool;
pub mod registry;
pub mod seqs;
pub mod text;
