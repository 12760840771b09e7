//! A replicated key-value store: the request routing, command grammar, read
//! path and node bookkeeping that sit around a consensus engine.
//!
//! The consensus engine itself (leader election and log replication) is a
//! collaborator: this crate decides what to hand to it and what to make of the
//! values it hands back, and every such decision is stated as a contract.

pub mod ballot;
pub mod client;
pub mod command;
pub mod decimal;
pub mod node;
pub mod partition;
pub mod ports;
pub mod reply;
pub mod store;
pub mod text;
pub mod wire;

pub use store::KeyValue;
