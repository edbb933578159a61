//! A persistent state-machine executor, as a verified, synchronous core.
//!
//! The crate holds the parts of the executor that decide: the canonical byte
//! formats of states and database keys, the database content with its
//! invariants, admission and transition commits, trigger selection, the
//! notifier's ring buffers and the operation log. Everything that waits (trigger
//! futures, database I/O, timers) belongs to the caller, which hands its
//! results to the functions here as plain values.

pub mod client;
pub mod database;
pub mod dyn_state;
pub mod encoding;
pub mod executor;
pub mod gateway;
pub mod ids;
pub mod keys;
pub mod laws;
pub mod machines;
pub mod notifier;
pub mod oplog;
pub mod policy;
pub mod records;
pub mod scheduler;
pub mod state;
pub mod testing;
pub mod trigger;
