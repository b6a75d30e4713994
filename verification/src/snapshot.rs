//! One cycle's memory telemetry, captured as plain byte counts.

use vstd::prelude::*;

verus! {

/// Immutable value captured once per regulation cycle from the cgroup's
/// statistics interfaces. Superseded, never merged, by the next capture.
#[derive(Clone, Copy, PartialEq, Eq, Structural, Debug)]
pub struct MemorySnapshot {
    /// Bytes of anonymous memory the kernel marked rarely used.
    pub inactive_anon: u64,
    /// Bytes of anonymous memory in active use.
    pub active_anon: u64,
    /// Bytes of rarely used file-backed page cache.
    pub inactive_file: u64,
    /// Bytes of actively used file-backed page cache.
    pub active_file: u64,
    /// Bytes of memory currently charged to the cgroup.
    pub current_memory_usage: u64,
    /// Bytes of swap currently charged to the cgroup.
    pub current_swap_usage: u64,
    /// The cgroup's memory limit in bytes.
    pub memory_max: u64,
    /// The cgroup's swap limit in bytes.
    pub swap_max: u64,
}

impl Default for MemorySnapshot {
    /// A snapshot with every counter zero.
    fn default() -> (s: Self)
        ensures
            s == (MemorySnapshot {
                inactive_anon: 0,
                active_anon: 0,
                inactive_file: 0,
                active_file: 0,
                current_memory_usage: 0,
                current_swap_usage: 0,
                memory_max: 0,
                swap_max: 0,
            }),
    {
        MemorySnapshot {
            inactive_anon: 0,
            active_anon: 0,
            inactive_file: 0,
            active_file: 0,
            current_memory_usage: 0,
            current_swap_usage: 0,
            memory_max: 0,
            swap_max: 0,
        }
    }
}

} // verus!
