use launchpad::startup_timer::StartupTimer;

#[test]
fn marks_report_delta_and_total_millis() {
    let mut t = StartupTimer::new(1_000_000_000);
    assert_eq!(t.process_start(), 1_000_000_000);
    let m = t.mark(1_180_000_000);
    assert_eq!((m.delta_ms, m.total_ms), (180, 180));
    let m = t.mark(1_220_400_000);
    assert_eq!((m.delta_ms, m.total_ms), (40, 220));
    let m = t.mark(1_220_900_000);
    assert_eq!((m.delta_ms, m.total_ms), (0, 221));
}

#[test]
fn half_millisecond_ties_round_to_even() {
    let mut t = StartupTimer::new(0);
    let m = t.mark(2_500_000);
    assert_eq!((m.delta_ms, m.total_ms), (2, 2));
    let m = t.mark(6_000_000);
    assert_eq!((m.delta_ms, m.total_ms), (4, 6));
    let m = t.mark(6_500_001);
    assert_eq!((m.delta_ms, m.total_ms), (1, 7));
    let m = t.mark(7_000_000);
    assert_eq!((m.delta_ms, m.total_ms), (0, 7));
}

#[test]
fn clock_going_backwards_reports_zero() {
    let mut t = StartupTimer::new(500);
    let m = t.mark(100);
    assert_eq!((m.delta_ms, m.total_ms), (0, 0));
}
