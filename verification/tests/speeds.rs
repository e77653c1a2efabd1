use velora::binary64::Binary64;
use velora::speed::SpeedTracker;

fn value(x: Binary64) -> f64 {
    f64::from_bits(x.bits)
}

#[test]
fn current_bps_does_not_disturb_bytes_per_second_sampling_window() {
    let mut tracker = SpeedTracker::new();
    tracker.record(1_000_000);

    // Prime the windowed sampler once, 20 milliseconds into the run.
    tracker.record(1_000_000);
    let _ = tracker.bytes_per_second(20);

    let before = tracker.last_snapshot_bytes;
    let before_ms = tracker.last_snapshot_ms;

    // Reads of the current rate must not move the sampler's baseline.
    for i in 0..50 {
        let _ = tracker.current_bps(20 + i);
    }

    assert_eq!(tracker.last_snapshot_bytes, before);
    assert_eq!(tracker.last_snapshot_ms, before_ms);
}

#[test]
fn bytes_per_second_does_move_the_sampling_window() {
    let mut tracker = SpeedTracker::new();
    tracker.record(1_000_000);
    let _ = tracker.bytes_per_second(0);
    let before_ms = tracker.last_snapshot_ms;

    // Ten milliseconds later.
    tracker.record(1_000_000);
    let _ = tracker.bytes_per_second(10);

    assert_ne!(tracker.last_snapshot_ms, before_ms);
}

#[test]
fn the_first_sample_is_the_average() {
    let mut tracker = SpeedTracker::new();
    tracker.record(3_000);
    assert_eq!(tracker.total_bytes(), 3_000);
    assert_eq!(value(tracker.bytes_per_second(2_000)), 1_500.0);
    assert_eq!(tracker.last_snapshot_bytes, 3_000);
    assert_eq!(tracker.last_snapshot_ms, 2_000);
    assert_eq!(tracker.smoothed_bps, 0);
}

#[test]
fn later_samples_are_smoothed_by_halves() {
    let mut tracker = SpeedTracker::new();
    tracker.record(1_000);
    let _ = tracker.bytes_per_second(1_000);
    tracker.record(5_000);
    assert_eq!(value(tracker.bytes_per_second(2_000)), 5_000.0);
    assert_eq!(tracker.smoothed_bps, 5_000);
    tracker.record(2_001);
    assert_eq!(value(tracker.bytes_per_second(3_000)), 3_500.0);
    assert_eq!(tracker.smoothed_bps, 3_500);
    assert_eq!(value(tracker.current_bps(9_000)), 3_500.0);
}

#[test]
fn a_clock_that_stands_still_gives_the_average() {
    let mut tracker = SpeedTracker::new();
    tracker.record(1_000);
    let _ = tracker.bytes_per_second(500);
    tracker.record(1_000);
    assert_eq!(value(tracker.bytes_per_second(500)), 4_000.0);
    assert_eq!(value(tracker.bytes_per_second(400)), 5_000.0);
    assert_eq!(tracker.smoothed_bps, 0);
}

#[test]
fn a_window_without_bytes_falls_back_to_the_average() {
    let mut tracker = SpeedTracker::new();
    tracker.record(1_000);
    let _ = tracker.bytes_per_second(1_000);
    assert_eq!(value(tracker.bytes_per_second(2_000)), 500.0);
    assert_eq!(tracker.smoothed_bps, 0);
    assert_eq!(value(tracker.current_bps(4_000)), 250.0);
}

#[test]
fn no_time_means_no_speed() {
    let mut tracker = SpeedTracker::new();
    tracker.record(1_000);
    assert_eq!(value(tracker.current_bps(0)), 0.0);
    assert_eq!(value(tracker.bytes_per_second(0)), 0.0);
}

#[test]
fn the_count_of_bytes_wraps() {
    let mut tracker = SpeedTracker::new();
    tracker.record(u64::MAX);
    tracker.record(3);
    assert_eq!(tracker.total_bytes(), 2);
}

#[test]
fn a_limit_holds_transfers_back() {
    let mut tracker = SpeedTracker::new();
    assert_eq!(tracker.throttle_pause_ms(Some(1_000), 0), 0);
    tracker.record(500);
    assert_eq!(tracker.throttle_pause_ms(None, 0), 0);
    assert_eq!(tracker.throttle_pause_ms(Some(0), 0), 0);
    assert_eq!(tracker.throttle_pause_ms(Some(1_000), 500), 0);
    assert_eq!(tracker.throttle_pause_ms(Some(1_000), 400), 100);
    assert_eq!(tracker.throttle_pause_ms(Some(1_000), 499), 1);
    assert_eq!(tracker.throttle_pause_ms(Some(1_000), 0), 250);
    assert_eq!(tracker.throttle_pause_ms(Some(u64::MAX), 0), 1);
    tracker.record(u64::MAX - 500);
    assert_eq!(tracker.throttle_pause_ms(Some(1), u64::MAX), 250);
}

#[test]
fn waiting_as_told_keeps_to_the_limit() {
    let mut tracker = SpeedTracker::new();
    let mut now: u64 = 0;
    for step in 1..200u64 {
        tracker.record(step * 37 % 4_096);
        loop {
            let pause = tracker.throttle_pause_ms(Some(10_000), now);
            if pause == 0 {
                break;
            }
            now += pause;
        }
        assert!(tracker.total_bytes() * 1_000 <= 10_000 * now);
    }
}

#[test]
fn a_read_right_after_a_sample_shows_it() {
    let mut tracker = SpeedTracker::new();
    for (now, bytes) in [(3u64, 1_000u64), (10, 0), (250, 4_321), (251, 1), (9_000, 0), (9_001, 0)] {
        tracker.record(bytes);
        let sample = tracker.bytes_per_second(now);
        let kept = tracker;
        for _ in 0..3 {
            assert_eq!(tracker.current_bps(now), sample);
        }
        assert_eq!(format!("{:?}", tracker), format!("{:?}", kept));
    }
}
