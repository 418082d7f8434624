//! Core logic of a distributed search engine over object storage:
//! the split lifecycle and metastore transitions, the indexing-pipeline
//! actor decisions, the clock and kill-switch state machines, the
//! byte-range cache and hot-cache framing of the read path, the leaf
//! warm-up planning, and the root-search merge.
//!
//! Everything here is executable Rust whose behaviour is stated in
//! `requires`/`ensures` contracts; calls into outside crates go through
//! a small number of trusted wrappers.

pub mod actor;
pub mod actor_loop;
pub mod cache;
pub mod checkpoint;
pub mod clock;
pub mod gc;
pub mod hotcache;
pub mod mailbox;
pub mod metastore;
pub mod ping;
pub mod pipeline;
pub mod scheduling;
pub mod search;
pub mod seq_lemmas;
pub mod warmup;

use vstd::prelude::*;

verus! {

/// Liveness interval of the actor runtime, in milliseconds: an actor
/// that records no progress for one whole heartbeat is considered hung.
pub const HEARTBEAT_MILLIS: u64 = 1000;

} // verus!
