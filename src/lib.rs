//! A minimal replicated key-value store: the line protocol's frame codec, the
//! buffered frame reader, the request handler over an in-memory map, the
//! accept-loop backoff, and the term/election state machine.

pub mod command;
pub mod connection;
pub mod handler;
pub mod protocol;
pub mod server;
pub mod consensus;
pub mod wire;
