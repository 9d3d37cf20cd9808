use mavlink_camera_manager::element_probe::{ElementProbe, SIZE_COARSEN_DIVISOR};
use mavlink_camera_manager::pipeline_stats::{
    is_valid_window_size, reset_all, AnalysisRegistry, AnalysisState, RestartTracker, StatsLevel,
    MAX_WINDOW_SIZE, RESTART_HISTORY,
};
use mavlink_camera_manager::thread_stat::{parse_thread_stat, TickLedger};

#[test]
fn lite_size_sq_headroom_raw_8k_at_100fps() {
    // 8K NV12: 7680 × 4320 × 1.5 bytes/pixel
    let raw_8k_size: u64 = 7680 * 4320 * 3 / 2; // 49_766_400
    let term =
        (raw_8k_size / SIZE_COARSEN_DIVISOR).saturating_mul(raw_8k_size / SIZE_COARSEN_DIVISOR);

    let fps: u64 = 100;
    let seconds_per_year: u64 = 365 * 24 * 3600 + 6 * 3600; // ~365.25 days
    let frames_per_year = fps * seconds_per_year;

    // Ensure per-year accumulation fits in u64 with margin.
    let total_per_year = (term as u128) * (frames_per_year as u128);
    let headroom_years = u64::MAX as u128 / total_per_year;
    assert!(
        headroom_years >= 1,
        "sum_size_sq_units would overflow in {headroom_years} year(s) \
         for raw 8K NV12 at {fps} fps (need >= 1)"
    );
}

#[test]
fn window_size_bounds_are_enforced() {
    assert!(is_valid_window_size(1));
    assert!(is_valid_window_size(MAX_WINDOW_SIZE));
    assert!(!is_valid_window_size(0));
    assert!(!is_valid_window_size(MAX_WINDOW_SIZE + 1));
}

#[test]
fn test_parse_thread_stat() {
    let content = "12345 (gst-streaming) S 12340 12345 12345 0 -1 1077944320 \
                    150 0 0 0 420 38 0 0 20 0 1 0 1234567 12345678 100 \
                    18446744073709551615 0 0 0 0 0 0 0 0 0 0 0 0 17 3 0 0 0 0 0";
    let result = parse_thread_stat(content);
    let (utime, stime, comm) = result.unwrap();
    assert_eq!(utime, 420);
    assert_eq!(stime, 38);
    assert_eq!(comm, "gst-streaming");
}

#[test]
fn test_parse_thread_stat_with_spaces_in_comm() {
    let content = "12345 (thread (main)) S 12340 12345 12345 0 -1 1077944320 \
                    150 0 0 0 100 50 0 0 20 0 1 0 1234567 12345678 100 \
                    18446744073709551615 0 0 0 0 0 0 0 0 0 0 0 0 17 3 0 0 0 0 0";
    let result = parse_thread_stat(content);
    let (utime, stime, comm) = result.unwrap();
    assert_eq!(utime, 100);
    assert_eq!(stime, 50);
    assert_eq!(comm, "thread (main)");
}

#[test]
fn tick_ledger_measures_between_readings() {
    let mut ledger = TickLedger::new();
    assert_eq!(ledger.record(7, 100), None);
    assert_eq!(ledger.record(8, 50), None);
    assert_eq!(ledger.record(7, 130), Some(30));
    // A counter that went back counts as no time spent.
    assert_eq!(ledger.record(8, 40), Some(0));
    assert_eq!(ledger.record(8, 45), Some(5));
}

#[test]
fn tick_ledger_forgets_threads_that_are_gone() {
    let mut ledger = TickLedger::new();
    ledger.record(1, 10);
    ledger.record(2, 20);
    ledger.retain_threads(&vec![2, 3]);
    assert_eq!(ledger.record(1, 15), None);
    assert_eq!(ledger.record(2, 26), Some(6));
    ledger.reset();
    assert_eq!(ledger.record(2, 30), None);
}

#[test]
fn restart_tracker_counts_starts_and_intervals() {
    let mut tracker = RestartTracker::new(1_000);
    let first = tracker.snapshot(1_500);
    assert_eq!(first.start_count, 1);
    assert_eq!(first.restart_count, 0);
    assert_eq!(first.current_uptime_ns, 500);
    assert_eq!(first.interval_count, 0);
    assert_eq!(first.min_interval_ns, 0);
    assert_eq!(first.last_interval_ns, 0);

    tracker.record_restart(4_000);
    tracker.record_restart(5_000);
    let later = tracker.snapshot(5_200);
    assert_eq!(later.start_count, 3);
    assert_eq!(later.restart_count, 2);
    assert_eq!(later.current_uptime_ns, 200);
    assert_eq!(later.total_tracked_ns, 4_200);
    assert_eq!(later.interval_count, 2);
    assert_eq!(later.interval_sum_ns, 4_000);
    assert_eq!(later.min_interval_ns, 1_000);
    assert_eq!(later.last_interval_ns, 1_000);
}

#[test]
fn restart_tracker_keeps_the_latest_intervals() {
    let mut tracker = RestartTracker::new(0);
    let mut now = 0;
    for k in 1..=(RESTART_HISTORY as u64 + 5) {
        now += k;
        tracker.record_restart(now);
    }
    let snapshot = tracker.snapshot(now);
    assert_eq!(snapshot.interval_count, RESTART_HISTORY);
    // The first five intervals (1 to 5) fell out of the history.
    assert_eq!(snapshot.min_interval_ns, 6);
    assert_eq!(snapshot.last_interval_ns, RESTART_HISTORY as u64 + 5);
    // A clock that went back counts as no time since the last start.
    tracker.record_restart(now - 10);
    assert_eq!(tracker.snapshot(now).last_interval_ns, 0);
}

#[test]
fn reset_all_clears_probes_and_reenables_recording() {
    let mut probe = ElementProbe::new("q0".into(), "queue".into(), StatsLevel::Lite, 16, false, None);
    assert!(probe.register_sink_pad("sink"));
    assert!(probe.record_pad(false, "sink", 1_000, Some(1), 100, true));
    probe.update_thread_id(false, 42);
    probe.record_sink_arrival(1_000);
    probe.record_src_departure(3_000);
    assert_eq!(probe.cpu_attribution_hint().0, Some(42));
    assert!(probe.cpu_attribution_hint().1.is_some());
    let mut ticks = TickLedger::new();
    assert_eq!(ticks.record(42, 10), None);

    let mut registry = AnalysisRegistry::new();
    registry.add_analysis(AnalysisState {
        pipeline_name: "pipeline-0".into(),
        enabled: false,
        elements: vec![probe],
        thread_ticks: ticks,
    });
    registry.store_snapshot_cache();
    reset_all(&mut registry);

    assert!(!registry.snapshot_cached());
    let analysis = &registry.analyses()[0];
    assert!(analysis.enabled);
    assert_eq!(analysis.pipeline_name, "pipeline-0");
    let probe = &analysis.elements[0];
    assert_eq!(probe.get_thread_id(), 0);
    assert_eq!(probe.cpu_attribution_hint(), (None, None));
    assert_eq!(probe.sink_pads().len(), 1);
    assert_eq!(probe.sink_pads()[0].buffer.total_buffers(), 0);
}
