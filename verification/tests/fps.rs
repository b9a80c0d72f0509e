use launchpad::renderer::fps::{FpsTracker, RING_CAP};

const MS: u64 = 1_000_000;
const US: u64 = 1_000;

#[test]
fn reports_zero_until_warmed_up() {
    let mut t = FpsTracker::new();
    assert_eq!(t.current(), 0);
    let base: u64 = 5_000 * MS;
    // Samples at 16ms (≈60fps) but below the 120ms warm-up span.
    for ms in [0, 16, 32, 48] {
        t.note_presented(base + ms * MS);
    }
    // 48ms < 120ms warm-up threshold; still warming up.
    assert_eq!(t.current(), 0);
}

#[test]
fn estimates_steady_60fps() {
    let mut t = FpsTracker::new();
    let base: u64 = 5_000 * MS;
    // 60 samples at ~16.67ms intervals (1 second of 60fps).
    let mut ts = base;
    for _ in 0..60 {
        t.note_presented(ts);
        ts += 16_667 * US;
    }
    let reading = t.current();
    assert!((56..=64).contains(&reading), "got {reading}");
}

#[test]
fn ring_buffer_wraps_without_panic() {
    let mut t = FpsTracker::new();
    let base: u64 = 5_000 * MS;
    // Push well past RING_CAP to verify wraparound.
    for i in 0..(RING_CAP * 3) {
        t.note_presented(base + (i as u64 * 17) * MS);
    }
    let reading = t.current();
    assert!(reading > 0, "got {reading}");
}

#[test]
fn first_and_last_sample_track_buffer_state() {
    let mut t = FpsTracker::new();
    assert_eq!(t.first_sample(), None);
    assert_eq!(t.last_sample(), None);

    let base: u64 = 5_000 * MS;
    let a = base;
    let b = base + 10 * MS;
    let c = base + 20 * MS;
    t.note_presented(a);
    assert_eq!(t.first_sample(), Some(a));
    assert_eq!(t.last_sample(), Some(a));
    t.note_presented(b);
    assert_eq!(t.first_sample(), Some(a));
    assert_eq!(t.last_sample(), Some(b));
    t.note_presented(c);
    assert_eq!(t.first_sample(), Some(a));
    assert_eq!(t.last_sample(), Some(c));
}

#[test]
fn dxgi_drops_repeated_sync_timestamps() {
    let mut t = FpsTracker::new();
    let base: u64 = 5_000 * MS;
    // Repeated identical sync timestamps must not inflate the rate.
    for _ in 0..10 {
        t.note_dxgi(base);
    }
    assert_eq!(t.current(), 0);
}

#[test]
fn dxgi_advances_with_new_sync_timestamps() {
    let mut t = FpsTracker::new();
    let base: u64 = 5_000 * MS;
    let mut ts = base;
    for _ in 0..60 {
        t.note_dxgi(ts);
        ts += 16_667 * US;
    }
    let reading = t.current();
    assert!((56..=64).contains(&reading), "got {reading}");
}

#[test]
fn steady_rate_reading_is_exact() {
    // 20 frames 10ms apart: 19 intervals over 190ms = 100 fps.
    let mut t = FpsTracker::new();
    for i in 0..20u64 {
        t.note_presented(i * 10 * MS);
    }
    assert_eq!(t.current(), 100);
}

#[test]
fn wrapped_buffer_keeps_the_newest_window() {
    let mut t = FpsTracker::new();
    for i in 0..(RING_CAP as u64 + 5) {
        t.note_presented(i * MS);
    }
    assert_eq!(t.first_sample(), Some(5 * MS));
    assert_eq!(t.last_sample(), Some((RING_CAP as u64 + 4) * MS));
}

#[test]
fn slow_frames_still_report_at_least_one() {
    let mut t = FpsTracker::new();
    t.note_presented(0);
    t.note_presented(10_000 * MS);
    assert_eq!(t.current(), 1);
}

#[test]
fn reading_holds_while_window_is_short_after_warm_up() {
    let mut t = FpsTracker::new();
    for i in 0..13u64 {
        t.note_presented(i * 10 * MS);
    }
    let warm = t.current();
    assert_eq!(warm, 100);
    t.recompute(12 * 10 * MS);
    assert_eq!(t.current(), warm);
}
