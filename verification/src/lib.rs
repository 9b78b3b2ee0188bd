//! Core of a shared-clipboard relay: the message model, the wire codec,
//! the master-side registry with its handler logic, the relay routing
//! decisions, and the client-side bridge decisions. Everything that does
//! I/O (sockets, queues, the platform clipboard) lives outside and hands
//! plain values to these functions.

pub mod errors;
pub mod strbytes;
pub mod messages;
pub mod idcodec;
pub mod registry;
pub mod wire;
pub mod handler;
pub mod relay;
pub mod client;
pub mod config;
pub mod laws;
