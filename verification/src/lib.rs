//! Verified core of a didactic two-phase-commit simulator: the protocol
//! message, the append-only operation log and its line format, the
//! coordinator, participant and client state machines, a deterministic
//! composition of the three, and the offline log consistency checker.
//!
//! Process plumbing (CLI parsing, IPC transport, signal handling, file I/O,
//! probability draws) lives outside this crate; the functions here take the
//! outcomes of those effects as plain values and are verified for every value.

pub mod checker;
pub mod client;
pub mod coordinator;
pub mod decimal;
pub mod message;
pub mod oplog;
pub mod participant;
pub mod sim;
pub mod text;
