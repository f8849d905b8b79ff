//! Orchestrator library for a "lowest unique integer" elimination game.
//!
//! Competitor programs are external processes driven over a line-based text
//! protocol.  This crate holds the verified core: the wire-text codec, the
//! per-competitor protocol state machine, the round winner rule with score
//! keeping, script-kind detection, and construction of the sandbox launch
//! arguments.  Process spawning, threads and stream I/O live outside, in the
//! surrounding application, which feeds plain values into these functions.

pub mod client;
pub mod codec;
pub mod kind;
pub mod launch;
pub mod paths;
pub mod round;
