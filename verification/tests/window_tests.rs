use cgroup_reclaim::window::SlidingWindow;

#[test]
fn window_length_never_exceeds_capacity() {
    let mut w = SlidingWindow::new();
    for i in 0..100u64 {
        w.push(i);
        assert!(w.len() <= 30);
    }
    assert_eq!(w.len(), 30);
}

#[test]
fn fifo_eviction_after_31st_push() {
    let mut w = SlidingWindow::new();
    for i in 0..31u64 {
        w.push(i);
    }
    // The sample from push #1 (value 0) is no longer present; the rest
    // kept their chronological order.
    assert_eq!(w.len(), 30);
    for i in 0..30usize {
        assert_eq!(w.sample_at(i), i as u64 + 1);
    }
}

#[test]
fn push_below_capacity_appends() {
    let mut w = SlidingWindow::new();
    w.push(7);
    w.push(9);
    assert_eq!(w.len(), 2);
    assert_eq!(w.sample_at(0), 7);
    assert_eq!(w.sample_at(1), 9);
    assert!(!w.is_full());
}

#[test]
fn clear_empties_the_window() {
    let mut w = SlidingWindow::new();
    for i in 0..30u64 {
        w.push(i);
    }
    assert!(w.is_full());
    w.clear();
    assert_eq!(w.len(), 0);
}

#[test]
fn population_stddev_of_one_to_five() {
    let mut w = SlidingWindow::new();
    for x in 1..=5u64 {
        w.push(x);
    }
    // scaled variance: 5 * 55 - 15 * 15 = 50 over n^2 = 25.
    let (a, b) = w.variance_parts().unwrap();
    assert_eq!(a - b, 50);
    let stddev = (((a - b) as f64) / 25.0).sqrt();
    // Population standard deviation, about 1.4142 ...
    assert!((stddev - 1.4142).abs() < 1e-3);
    // ... not the sample-corrected 1.5811.
    assert!((stddev - 1.5811).abs() > 0.1);
}

#[test]
fn identical_samples_are_stable() {
    let mut w = SlidingWindow::new();
    for _ in 0..30 {
        w.push(5);
    }
    assert!(w.is_stable());
    let (a, b) = w.variance_parts().unwrap();
    assert_eq!(a, b); // variance is exactly zero
}

#[test]
fn identical_huge_samples_are_stable() {
    let mut w = SlidingWindow::new();
    for _ in 0..30 {
        w.push(u64::MAX);
    }
    assert!(w.is_stable());
}

#[test]
fn alternating_samples_are_unstable() {
    let mut w = SlidingWindow::new();
    for i in 0..30u64 {
        w.push(if i % 2 == 0 { 0 } else { 100 });
    }
    assert!(!w.is_stable());
    // 30 * 150000 - 1500^2 = 2250000: stddev is exactly 50.
    let (a, b) = w.variance_parts().unwrap();
    assert_eq!(a - b, 2_250_000);
}

#[test]
fn very_wide_spread_short_circuits_to_unstable() {
    let mut w = SlidingWindow::new();
    for i in 0..30u64 {
        w.push(if i % 2 == 0 { 0 } else { 10_000 });
    }
    assert!(!w.is_stable());
    // A deviation beyond the spread limit: the exact parts are not
    // even computed.
    assert!(w.variance_parts().is_none());
}

#[test]
fn small_spread_is_computed_exactly() {
    let mut w = SlidingWindow::new();
    w.push(10);
    w.push(12);
    // n = 2: scaled variance = 2 * 244 - 22 * 22 = 4; n^2 = 4; not < 1.
    let (a, b) = w.variance_parts().unwrap();
    assert_eq!(a - b, 4);
    assert!(!w.is_stable());
}
