//! A single-process cooperative green-thread runtime core.
//!
//! A fixed pool of thread control blocks, each owning one stack buffer, one
//! register context record and one lifecycle state, is multiplexed onto one
//! physical thread by explicit context switches. This crate holds the whole
//! scheduling core — pool construction, spawn, yield, task return and the
//! round-robin scheduling step — as verified code. The scheduling step
//! returns the pair of slots to switch between; the architecture-specific
//! register save/restore primitive that acts on that pair is the one piece
//! that cannot be written portably and lives with the embedding program.

pub mod context;
pub mod runtime;
pub mod state;
pub mod workload;
