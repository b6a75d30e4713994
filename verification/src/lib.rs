//! Proactive memory-reclaim regulation for a single cgroup.
//!
//! The crate holds the regulation core: a bounded sliding window of
//! telemetry samples, an exact integer test for the window's stability
//! (population standard deviation below one), and the per-cycle decision
//! logic that sizes a reclaim request. All file reads and writes against
//! the kernel's cgroup interface stay with the caller; the library works
//! on plain values.

pub mod discover;
pub mod parse;
pub mod regulator;
pub mod snapshot;
pub mod stats;
pub mod window;
