//! Client-side volume runtime for a transactional, copy-on-write page store.
//!
//! A *volume* is a paginated byte store addressed by 1-based page indexes.
//! Commits within a volume are totally ordered by a 64-bit log sequence
//! number (LSN). The library models the local volume state (configuration,
//! status, snapshots, sync watermarks), the binary codecs used on disk and
//! on the wire, the lock-level state machine that gates readers and the
//! single writer, and the decision logic of the background sync task.

pub mod codec;
pub mod commit;
pub mod error;
pub mod gid;
pub mod metastore;
pub mod page;
pub mod pagestore;
pub mod pragma;
pub mod splinter;
pub mod state_scan;
pub mod storage;
pub mod sync;
pub mod vfs;
pub mod volume;
pub mod volume_query;
pub mod volume_state;

use vstd::prelude::*;

verus! {

/// Fixed size of every page, in bytes.
pub const PAGESIZE: usize = 4096;

/// The sentinel LSN that precedes the first commit of a volume.
pub const LSN_ZERO: u64 = 0;

} // verus!
