//! Coordination server core for a cooperative game mod: wire codec,
//! packet classification, selective reliability over UDP, lobby state
//! with monotone progression merges, and the per-kind packet handlers.
//!
//! Everything here is pure state-machine logic; sockets, clocks, disk
//! and task scheduling live outside the library and feed it plain values.

pub mod clock;
pub mod config;
pub mod lobby;
pub mod player;
pub mod protocol;
pub mod reliability;
pub mod server;
pub mod snapshot;
pub mod state;
pub mod wire;
