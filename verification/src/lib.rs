//! Block-import bookkeeping for an approval-voting subsystem.
//!
//! On every new best-chain head the library determines which ancestor blocks
//! are new, keeps a rolling window of per-session validator data in step with
//! the chain, extracts per-block candidate and randomness information, and
//! persists block and candidate entries for the approval checker.

use vstd::prelude::*;

pub mod api;
pub mod assoc;
pub mod bitfield;
pub mod block_info;
pub mod cache;
pub mod cli;
pub mod coordinator;
pub mod entries;
pub mod memory;
pub mod params;
pub mod primitives;
pub mod walker;
pub mod window;

verus! {

/// How many sessions the rolling session window covers at most.
pub const APPROVAL_SESSIONS: u32 = 6;

} // verus!
