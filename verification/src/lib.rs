//! Orchestration core for per-guild voice sessions.
//!
//! A chat bot joins one voice channel per guild, plays a short diagnostic
//! stream, and tears the connection down again — on a timer, on a manual
//! command, or during process shutdown. This crate holds the part of that
//! job with real invariants: the session registry (at most one live session
//! per guild), the session lifecycle state machine, the decisions of the
//! periodic background monitor, and the ordered shutdown cascade.
//!
//! All I/O — the gateway, the voice backend, timers, the interrupt signal —
//! stays outside. Callers drive the registry with events (a backend join
//! succeeded or failed, a timer fired, an interrupt arrived) and carry out
//! the actions the registry hands back.

pub mod errors;
pub mod laws;
pub mod monitor;
pub mod registry;
pub mod session;
pub mod shutdown;
