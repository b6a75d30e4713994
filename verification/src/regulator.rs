//! Per-cycle reclaim policy: decide from a fresh snapshot and the
//! sample window whether, and by how much, to ask the kernel to reclaim.

use crate::snapshot::MemorySnapshot;
use crate::stats::is_stable_window;
use crate::window::spec_push;
use crate::window::SlidingWindow;
use crate::window::WINDOW_CAPACITY;
use vstd::prelude::*;

verus! {

/// Upper bound on any single reclaim request, in bytes (100 MiB).
pub const MAX_RECLAIM_BYTES: u64 = 100 * 1024 * 1024;

/// Fixed size of the cold-start seed reclaim, in bytes (15 MiB): issued
/// while the kernel has not yet built an inactive anonymous-page list.
pub const INITIAL_RECLAIM_BYTES: u64 = 15 * 1024 * 1024;

/// The outcome of one regulation cycle.
#[derive(Clone, Copy, PartialEq, Eq, Structural, Debug)]
pub enum ReclaimDecision {
    /// Headroom is below the safety margin; nothing to do.
    Skip,
    /// No reclaimable anonymous memory is tracked yet: request the
    /// fixed seed reclaim so the kernel starts tracking.
    InitialSeed,
    /// The window is not full yet; stability cannot be judged.
    InsufficientData,
    /// The window is full but the samples still fluctuate.
    NoAction,
    /// The window is full and stable: request this many bytes.
    Reclaim(u64),
}

/// Memory charged beyond the caller's desired free target, clamped to
/// zero when the target exceeds current usage (an explicit policy: the
/// subtraction must not wrap).
pub open spec fn spec_unused(current: u64, target: u64) -> u64 {
    if current >= target {
        (current - target) as u64
    } else {
        0u64
    }
}

/// The size of a stability-triggered reclaim: the headroom beyond the
/// safety margin, capped at `MAX_RECLAIM_BYTES`.
pub open spec fn spec_reclaim_amount(unused: u64, safety: u64) -> u64
    recommends
        safety <= unused,
{
    if unused - safety < MAX_RECLAIM_BYTES {
        (unused - safety) as u64
    } else {
        MAX_RECLAIM_BYTES
    }
}

/// The decision policy for one cycle, over the window as it stands
/// after the cycle's unconditional push.
pub open spec fn spec_decide(
    s: MemorySnapshot,
    w: Seq<u64>,
    free_memory_target: u64,
    safety: u64,
) -> ReclaimDecision {
    let unused = spec_unused(s.current_memory_usage, free_memory_target);
    if unused < safety {
        ReclaimDecision::Skip
    } else if s.inactive_anon == 0 {
        ReclaimDecision::InitialSeed
    } else if w.len() < WINDOW_CAPACITY as int {
        ReclaimDecision::InsufficientData
    } else if is_stable_window(w) {
        ReclaimDecision::Reclaim(spec_reclaim_amount(unused, safety))
    } else {
        ReclaimDecision::NoAction
    }
}

/// The bytes a decision asks the kernel to reclaim, if any.
pub open spec fn spec_requested_bytes(d: ReclaimDecision) -> Option<u64> {
    match d {
        ReclaimDecision::Skip => None,
        ReclaimDecision::InitialSeed => Some(INITIAL_RECLAIM_BYTES),
        ReclaimDecision::InsufficientData => None,
        ReclaimDecision::NoAction => None,
        ReclaimDecision::Reclaim(a) => Some(a),
    }
}

impl ReclaimDecision {
    /// The bytes this decision asks the kernel to reclaim, if any.
    pub fn requested_bytes(&self) -> (r: Option<u64>)
        ensures
            r == spec_requested_bytes(*self),
    {
        match self {
            ReclaimDecision::InitialSeed => Some(INITIAL_RECLAIM_BYTES),
            ReclaimDecision::Reclaim(a) => Some(*a),
            _ => None,
        }
    }
}

/// Every reclaim request the policy can compute is at most
/// `MAX_RECLAIM_BYTES`, whatever the snapshot, window and parameters.
pub proof fn lemma_reclaim_amount_capped(
    s: MemorySnapshot,
    w: Seq<u64>,
    free_memory_target: u64,
    safety: u64,
)
    ensures
        spec_requested_bytes(spec_decide(s, w, free_memory_target, safety)) matches Some(a) ==> a
            <= MAX_RECLAIM_BYTES,
{
}

/// When headroom is below the safety margin, the cycle never asks for a
/// reclaim, whatever the window holds.
pub proof fn lemma_skip_below_safety(
    s: MemorySnapshot,
    w: Seq<u64>,
    free_memory_target: u64,
    safety: u64,
)
    requires
        spec_unused(s.current_memory_usage, free_memory_target) < safety,
    ensures
        spec_decide(s, w, free_memory_target, safety) == ReclaimDecision::Skip,
        spec_requested_bytes(spec_decide(s, w, free_memory_target, safety)) is None,
{
}

/// With no inactive anonymous memory tracked and headroom at or above
/// the safety margin, the cycle requests exactly the fixed seed
/// reclaim, regardless of how full the window is.
pub proof fn lemma_initial_seed(
    s: MemorySnapshot,
    w: Seq<u64>,
    free_memory_target: u64,
    safety: u64,
)
    requires
        s.inactive_anon == 0,
        spec_unused(s.current_memory_usage, free_memory_target) >= safety,
    ensures
        spec_decide(s, w, free_memory_target, safety) == ReclaimDecision::InitialSeed,
        spec_requested_bytes(spec_decide(s, w, free_memory_target, safety)) == Some(
            INITIAL_RECLAIM_BYTES,
        ),
{
}

/// A stability-triggered reclaim is issued only when headroom is at or
/// above the safety margin, and its size is then exactly
/// `min(MAX_RECLAIM_BYTES, unused - safety)`.
pub proof fn lemma_reclaim_only_with_headroom(
    s: MemorySnapshot,
    w: Seq<u64>,
    free_memory_target: u64,
    safety: u64,
)
    ensures
        spec_decide(s, w, free_memory_target, safety) matches ReclaimDecision::Reclaim(a) ==> {
            let unused = spec_unused(s.current_memory_usage, free_memory_target);
            unused >= safety && a == spec_reclaim_amount(unused, safety)
        },
{
}

/// Orchestrates the sample window and the decision policy. The caller
/// fetches a snapshot each cycle, passes it in, and performs the file
/// write a `Reclaim` or `InitialSeed` decision asks for.
pub struct ReclaimRegulator {
    window: SlidingWindow,
}

impl View for ReclaimRegulator {
    type V = Seq<u64>;

    /// The samples currently held in the sliding window, oldest first.
    closed spec fn view(&self) -> Seq<u64> {
        self.window@
    }
}

impl ReclaimRegulator {
    /// The window never holds more than `WINDOW_CAPACITY` samples.
    pub open spec fn wf(&self) -> bool {
        self@.len() <= WINDOW_CAPACITY as int
    }

    /// A regulator with an empty window.
    pub fn new() -> (r: Self)
        ensures
            r@ == Seq::<u64>::empty(),
            r.wf(),
    {
        ReclaimRegulator { window: SlidingWindow::new() }
    }

    /// How many samples the window currently holds.
    pub fn window_len(&self) -> (n: usize)
        ensures
            n == self@.len(),
    {
        self.window.len()
    }

    /// The window sample at position `i`, oldest first.
    pub fn window_sample(&self, i: usize) -> (x: u64)
        requires
            i < self@.len(),
        ensures
            x == self@[i as int],
    {
        self.window.sample_at(i)
    }

    /// One regulation cycle over an already fetched snapshot.
    ///
    /// The snapshot's `inactive_anon` is pushed into the window
    /// unconditionally; the decision is then taken over the updated
    /// window. A stability-triggered `Reclaim` clears the window; every
    /// other decision leaves the pushed window as it is. A failed fetch
    /// is the caller's to handle before calling: no partial state is
    /// ever visible here.
    pub fn regulate(
        &mut self,
        snapshot: MemorySnapshot,
        free_memory_target: u64,
        safety: u64,
    ) -> (d: ReclaimDecision)
        requires
            old(self).wf(),
        ensures
            final(self).wf(),
            d == spec_decide(
                snapshot,
                spec_push(old(self)@, snapshot.inactive_anon),
                free_memory_target,
                safety,
            ),
            d matches ReclaimDecision::Reclaim(_) ==> final(self)@ == Seq::<u64>::empty(),
            !(d matches ReclaimDecision::Reclaim(_)) ==> final(self)@ == spec_push(
                old(self)@,
                snapshot.inactive_anon,
            ),
    {
        self.window.push(snapshot.inactive_anon);

        let unused = if snapshot.current_memory_usage >= free_memory_target {
            snapshot.current_memory_usage - free_memory_target
        } else {
            0
        };

        if unused < safety {
            return ReclaimDecision::Skip;
        }
        if snapshot.inactive_anon == 0 {
            return ReclaimDecision::InitialSeed;
        }
        if !self.window.is_full() {
            return ReclaimDecision::InsufficientData;
        }
        if self.window.is_stable() {
            let amount = if unused - safety < MAX_RECLAIM_BYTES {
                unused - safety
            } else {
                MAX_RECLAIM_BYTES
            };
            self.window.clear();
            return ReclaimDecision::Reclaim(amount);
        }
        ReclaimDecision::NoAction
    }
}

} // verus!

