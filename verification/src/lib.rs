//! Core logic of a desktop helper that manages interactive terminal
//! sessions and guards filesystem access behind a path sandbox.
//!
//! The crate verifies the decision logic: the path sandbox validator,
//! the session registry, the output-relay step function, and the
//! parsers for git porcelain output. The surrounding process (spawning
//! children on pseudo-terminals, reading and writing their streams)
//! performs the I/O and feeds plain values to these functions.

pub mod filesystem;
pub mod pty;
pub mod registry;
pub mod sandbox;
pub mod strutil;
pub mod worktree;
