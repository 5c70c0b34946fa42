//! Core of a desktop companion for a command-line AI assistant that is
//! spawned as a fresh child process for every conversational turn.
//!
//! The crate verifies the two stateful pieces of that system: the
//! incremental decoder for the newline-delimited JSON the child process
//! emits ([`parser`]), and the registry that tracks each logical session's
//! lifecycle, resumption token and accumulated cost ([`process`]).
//! Everything that touches the outside world — spawning, reading pipes,
//! the filesystem — stays with the caller, which feeds results back in as
//! plain values.

pub mod cost;
pub mod decode;
pub mod files;
pub mod json;
pub mod mcp;
pub mod parser;
pub mod process;
