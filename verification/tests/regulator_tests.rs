use cgroup_reclaim::regulator::ReclaimDecision;
use cgroup_reclaim::regulator::ReclaimRegulator;
use cgroup_reclaim::regulator::INITIAL_RECLAIM_BYTES;
use cgroup_reclaim::regulator::MAX_RECLAIM_BYTES;
use cgroup_reclaim::snapshot::MemorySnapshot;

const MIB: u64 = 1024 * 1024;

fn snapshot(current: u64, inactive_anon: u64) -> MemorySnapshot {
    let mut s = MemorySnapshot::default();
    s.current_memory_usage = current;
    s.inactive_anon = inactive_anon;
    s
}

#[test]
fn headroom_below_safety_skips() {
    // unused = 500 - 480 = 20 MiB < 50 MiB safety.
    let mut r = ReclaimRegulator::new();
    let d = r.regulate(snapshot(500 * MIB, 7 * MIB), 480 * MIB, 50 * MIB);
    assert_eq!(d, ReclaimDecision::Skip);
    assert_eq!(d.requested_bytes(), None);
    // The push still happened.
    assert_eq!(r.window_len(), 1);
    assert_eq!(r.window_sample(0), 7 * MIB);
}

#[test]
fn zero_inactive_anon_seeds_fixed_reclaim() {
    // unused = 900 - 400 = 500 MiB >= 50 MiB, no inactive anon yet.
    let mut r = ReclaimRegulator::new();
    let d = r.regulate(snapshot(900 * MIB, 0), 400 * MIB, 50 * MIB);
    assert_eq!(d, ReclaimDecision::InitialSeed);
    assert_eq!(d.requested_bytes(), Some(15 * 1024 * 1024));
    assert_eq!(INITIAL_RECLAIM_BYTES, 15 * 1024 * 1024);
    // The seed is issued regardless of window fill; the window keeps
    // its unconditional push of this cycle's sample.
    assert_eq!(r.window_len(), 1);
}

#[test]
fn zero_inactive_anon_seeds_even_with_full_window() {
    let mut r = ReclaimRegulator::new();
    for _ in 0..30 {
        let d = r.regulate(snapshot(100 * MIB, 5 * MIB), 90 * MIB, 50 * MIB);
        assert_eq!(d, ReclaimDecision::Skip);
    }
    assert_eq!(r.window_len(), 30);
    let d = r.regulate(snapshot(900 * MIB, 0), 400 * MIB, 50 * MIB);
    assert_eq!(d, ReclaimDecision::InitialSeed);
    assert_eq!(r.window_len(), 30); // full window, push evicted one
}

#[test]
fn partial_window_gives_insufficient_data() {
    let mut r = ReclaimRegulator::new();
    // Ten skip cycles fill ten samples.
    for _ in 0..10 {
        let d = r.regulate(snapshot(500 * MIB, 1 * MIB), 480 * MIB, 50 * MIB);
        assert_eq!(d, ReclaimDecision::Skip);
    }
    assert_eq!(r.window_len(), 10);
    // Plenty of headroom, inactive anon nonzero, window not full.
    let d = r.regulate(snapshot(900 * MIB, 1 * MIB), 400 * MIB, 50 * MIB);
    assert_eq!(d, ReclaimDecision::InsufficientData);
    assert_eq!(d.requested_bytes(), None);
    assert_eq!(r.window_len(), 11);
}

#[test]
fn stable_full_window_reclaims_capped_and_clears() {
    let mut r = ReclaimRegulator::new();
    // 29 skip cycles, each pushing an identical sample.
    for _ in 0..29 {
        let d = r.regulate(snapshot(500 * MIB, 5 * MIB), 480 * MIB, 50 * MIB);
        assert_eq!(d, ReclaimDecision::Skip);
    }
    assert_eq!(r.window_len(), 29);
    // 30th cycle: window becomes full of identical samples, stddev = 0,
    // unused - safety = 450 MiB, capped at 100 MiB.
    let d = r.regulate(snapshot(900 * MIB, 5 * MIB), 400 * MIB, 50 * MIB);
    assert_eq!(d, ReclaimDecision::Reclaim(100 * MIB));
    assert_eq!(d.requested_bytes(), Some(MAX_RECLAIM_BYTES));
    // The window is cleared after a stability-triggered reclaim.
    assert_eq!(r.window_len(), 0);
}

#[test]
fn stable_window_reclaims_exact_headroom_below_cap() {
    let mut r = ReclaimRegulator::new();
    for _ in 0..29 {
        r.regulate(snapshot(500 * MIB, 5 * MIB), 480 * MIB, 50 * MIB);
    }
    // unused = 80 MiB, safety = 50 MiB: reclaim exactly 30 MiB.
    let d = r.regulate(snapshot(480 * MIB, 5 * MIB), 400 * MIB, 50 * MIB);
    assert_eq!(d, ReclaimDecision::Reclaim(30 * MIB));
}

#[test]
fn reclaim_amounts_never_exceed_cap() {
    let mut r = ReclaimRegulator::new();
    for _ in 0..29 {
        r.regulate(snapshot(100 * MIB, 5 * MIB), 99 * MIB, 50 * MIB);
    }
    // Enormous headroom still yields at most the cap.
    let d = r.regulate(snapshot(u64::MAX, 5 * MIB), 0, 0);
    assert_eq!(d, ReclaimDecision::Reclaim(MAX_RECLAIM_BYTES));
    assert!(d.requested_bytes().unwrap() <= 100 * 1024 * 1024);
}

#[test]
fn unstable_full_window_takes_no_action_and_keeps_samples() {
    let mut r = ReclaimRegulator::new();
    // Fill with alternating samples via skip cycles.
    for i in 0..30u64 {
        let anon = if i % 2 == 0 { 1 } else { 100 * MIB };
        let d = r.regulate(snapshot(500 * MIB, anon), 480 * MIB, 50 * MIB);
        assert_eq!(d, ReclaimDecision::Skip);
    }
    assert_eq!(r.window_len(), 30);
    // Full window, headroom available, but the samples fluctuate.
    let d = r.regulate(snapshot(900 * MIB, 100 * MIB), 400 * MIB, 50 * MIB);
    assert_eq!(d, ReclaimDecision::NoAction);
    assert_eq!(d.requested_bytes(), None);
    // The window was not cleared: still full after the push.
    assert_eq!(r.window_len(), 30);
}

#[test]
fn free_target_above_usage_clamps_to_skip() {
    // The clamp policy: a target above current usage means no headroom.
    let mut r = ReclaimRegulator::new();
    let d = r.regulate(snapshot(100 * MIB, 5 * MIB), 200 * MIB, 1);
    assert_eq!(d, ReclaimDecision::Skip);
    assert_eq!(r.window_len(), 1);
}
