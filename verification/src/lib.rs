//! Core logic of a layer-4 relay: per-flow traffic accounting, load
//! balancing, relay-rule bookkeeping, UDP batch grouping, and the
//! decision logic of the control-plane HTTP API.
//!
//! All state that the relay mutates (metrics, rule registry, UDP
//! association tables) is modelled as explicit values handed in by the
//! caller, so every transition carries a contract. The unverifiable
//! edges (sockets, the clock, JSON encoding) live outside this crate
//! and feed it plain values.

pub mod addr;
pub mod api;
pub mod balance;
pub mod endpoint;
pub mod errors;
pub mod monitor;
pub mod registry;
pub mod tcp;
pub mod text;
pub mod udp;
