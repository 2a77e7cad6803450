//! The write-ahead log: when it is written to disk.
use vstd::prelude::*;

verus! {

/// When the entries of the log are written to disk: each at once, or several together.
#[derive(Debug, Clone, Copy, PartialEq, Eq, Structural)]
pub enum DurabilityPolicy {
    Strict,
    Grouped { commit_window_ms: u64, max_batch_size: usize },
}

} // verus!
