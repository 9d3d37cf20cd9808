use mavlink_camera_manager::element_probe::{
    FullPadBuffer, LitePadBuffer, PadBuffer, RawRecord, SIZE_COARSEN_DIVISOR,
};
use mavlink_camera_manager::pipeline_stats::StatsLevel;

#[test]
fn full_ring_wraps_correctly() {
    let mut buf = FullPadBuffer::new(4); // tiny ring

    for i in 0..10u64 {
        buf.record(1_000_000_000 + i * 33_000_000, None, 1024, false);
    }

    // Should only have the last 4 records
    let records = buf.read_records();
    assert_eq!(records.len(), 4);
    // First record in ring should be from i=6
    let expected_first = 1_000_000_000 + 6 * 33_000_000;
    assert_eq!(records[0].wall_ns, expected_first);

    // But total counter should be 10
    assert_eq!(buf.total_buffers(), 10);
}

#[test]
fn pad_buffer_enum_dispatches() {
    let mut lite = PadBuffer::new(StatsLevel::Lite, 100);
    let mut full = PadBuffer::new(StatsLevel::Full, 100);

    assert_eq!(lite.level(), StatsLevel::Lite);
    assert_eq!(full.level(), StatsLevel::Full);

    lite.record(1_000_000_000, None, 1024, true);
    full.record(1_000_000_000, None, 1024, true);

    assert_eq!(lite.total_buffers(), 1);
    assert_eq!(full.total_buffers(), 1);
}

#[test]
fn full_ring_keeps_records_in_order_with_pts() {
    let mut buf = FullPadBuffer::new(100);
    for i in 0..5u64 {
        let pts = if i == 2 { None } else { Some(i * 1000) };
        buf.record(1_000_000_000 + i * 33_000_000, pts, 1024 * (i as u32 + 1), i == 0);
    }
    let records = buf.read_records();
    assert_eq!(records.len(), 5);
    assert!(records[0].is_keyframe);
    assert!(!records[1].is_keyframe);
    assert_eq!(records[2].pts_ns, None);
    assert_eq!(records[3].pts_ns, Some(3000));
    assert_eq!(records[4].size, 5 * 1024);
    assert_eq!(buf.total_keyframes(), 1);
    assert_eq!(buf.total_delta_frames(), 4);
    assert_eq!(buf.last_wall_ns(), 1_000_000_000 + 4 * 33_000_000);
}

#[test]
fn full_ring_drops_unstamped_records_and_max_pts() {
    let mut buf = FullPadBuffer::new(8);
    buf.record(0, Some(5), 10, false);
    buf.record(7, Some(u64::MAX), 20, true);
    let records = buf.read_records();
    assert_eq!(
        records,
        vec![RawRecord { wall_ns: 7, pts_ns: None, size: 20, is_keyframe: true }]
    );
    assert_eq!(buf.total_buffers(), 2);
}

#[test]
fn full_snapshot_is_stable_and_follows_new_records() {
    let mut buf = FullPadBuffer::new(100);
    for i in 0..5u64 {
        buf.record(1_000_000_000 + i * 33_000_000, None, 1024, false);
    }
    let first = buf.snapshot();
    let again = buf.snapshot();
    assert_eq!(first.records, again.records);
    assert_eq!(first.total_buffers, 5);

    buf.record(1_000_000_000 + 5 * 33_000_000, None, 2048, false);
    let after = buf.snapshot();
    assert_eq!(after.records.len(), 6);
    assert_eq!(after.records[5].size, 2048);
    assert_eq!(after.total_buffers, 6);
}

#[test]
fn full_snapshot_empty_after_reset() {
    let mut buf = FullPadBuffer::new(100);
    for i in 0..5u64 {
        buf.record(1_000_000_000 + i * 33_000_000, None, 1024, false);
    }
    let _first = buf.snapshot();
    buf.reset();
    let snap = buf.snapshot();
    assert!(snap.records.is_empty());
    assert_eq!(snap.total_buffers, 0);
    assert_eq!(buf.capacity(), 100);
}

#[test]
fn lite_counts_and_intervals() {
    let mut buf = LitePadBuffer::new();
    let base_ns: u64 = 1_000_000_000;
    let interval_ns: u64 = 33_000_000;
    for i in 0..5u64 {
        buf.record(base_ns + i * interval_ns, 1024 * (i as u32 + 1), i == 0);
    }
    assert_eq!(buf.total_buffers(), 5);
    assert_eq!(buf.total_keyframes(), 1);
    assert_eq!(buf.total_delta_frames(), 4);
    assert_eq!(buf.interval_count(), 4);
    assert_eq!(buf.sum_interval_ns(), 4 * interval_ns);
    assert_eq!(buf.sum_interval_sq_us(), 4 * 33_000 * 33_000);
    assert_eq!(buf.min_interval_ns(), interval_ns);
    assert_eq!(buf.max_interval_ns(), interval_ns);
    assert_eq!(buf.sum_size_bytes(), 1024 * (1 + 2 + 3 + 4 + 5));
    assert_eq!(buf.sum_size_sq_units(), 1 + 4 + 9 + 16 + 25);
    assert_eq!(buf.last_wall_ns(), base_ns + 4 * interval_ns);
    assert_eq!(SIZE_COARSEN_DIVISOR, 1024);
}

#[test]
fn lite_clock_going_back_counts_a_zero_interval() {
    let mut buf = LitePadBuffer::new();
    buf.record(2_000, 10, false);
    buf.record(1_000, 10, false);
    assert_eq!(buf.min_interval_ns(), 0);
    assert_eq!(buf.max_interval_ns(), 0);
    assert_eq!(buf.interval_count(), 1);
}

#[test]
fn lite_reset_clears_everything() {
    let mut buf = LitePadBuffer::new();
    buf.record(1_000, 4096, true);
    buf.record(2_000, 4096, false);
    buf.reset();
    assert_eq!(buf.total_buffers(), 0);
    assert_eq!(buf.interval_count(), 0);
    assert_eq!(buf.min_interval_ns(), u64::MAX);
    assert_eq!(buf.max_interval_ns(), 0);
    assert_eq!(buf.sum_size_bytes(), 0);
}

#[test]
fn pad_buffer_full_read_records_and_lite_none() {
    let mut lite = PadBuffer::new(StatsLevel::Lite, 3);
    let mut full = PadBuffer::new(StatsLevel::Full, 3);
    for i in 1..=4u64 {
        lite.record(i * 10, Some(i), 1, false);
        full.record(i * 10, Some(i), 1, false);
    }
    assert!(lite.read_records().is_none());
    let records = full.read_records().unwrap();
    assert_eq!(records.len(), 3);
    assert_eq!(records[0].wall_ns, 20);
    assert_eq!(full.last_wall_ns(), 40);
    assert_eq!(lite.last_wall_ns(), 40);
    full.reset();
    assert_eq!(full.total_buffers(), 0);
    assert_eq!(full.level(), StatsLevel::Full);
}

/// Interval and size statistics of a lite buffer, read from its
/// accumulators as a snapshot reports them: (interval count, mean interval
/// in ms, std interval in ms, mean size in bytes, std size in bytes).
fn lite_stats(buf: &LitePadBuffer) -> (u64, f64, f64, f64, f64) {
    let total = buf.total_buffers();
    let interval_count = total.saturating_sub(1);
    let (mean_interval_ms, std_interval_ms) = if interval_count > 0 {
        let mean_ns = buf.sum_interval_ns() as f64 / interval_count as f64;
        let mean_us = mean_ns / 1000.0;
        let mean_sq_us = buf.sum_interval_sq_us() as f64 / interval_count as f64;
        let var_us = (mean_sq_us - mean_us * mean_us).max(0.0);
        (mean_ns / 1e6, var_us.sqrt() / 1000.0)
    } else {
        (0.0, 0.0)
    };
    let (mean_size, std_size) = if total > 0 {
        let mean_bytes = buf.sum_size_bytes() as f64 / total as f64;
        let d = SIZE_COARSEN_DIVISOR as f64;
        let mean_units = mean_bytes / d;
        let mean_sq_units = buf.sum_size_sq_units() as f64 / total as f64;
        let var_units = (mean_sq_units - mean_units * mean_units).max(0.0);
        (mean_bytes, var_units.sqrt() * d)
    } else {
        (0.0, 0.0)
    };
    (interval_count, mean_interval_ms, std_interval_ms, mean_size, std_size)
}

/// (interval count, mean interval in ms, size count, mean size) of the
/// records a full buffer's snapshot holds.
fn full_stats(records: &[RawRecord]) -> (usize, f64, usize, f64) {
    let intervals: Vec<f64> = records
        .windows(2)
        .map(|w| w[1].wall_ns.saturating_sub(w[0].wall_ns) as f64 / 1e6)
        .collect();
    let mean = |v: &[f64]| if v.is_empty() { 0.0 } else { v.iter().sum::<f64>() / v.len() as f64 };
    let sizes: Vec<f64> = records.iter().map(|r| r.size as f64).collect();
    (intervals.len(), mean(&intervals), sizes.len(), mean(&sizes))
}

#[test]
fn lite_basic_recording() {
    let mut buf = LitePadBuffer::new();
    let base_ns: u64 = 1_000_000_000;
    let interval_ns: u64 = 33_000_000;
    for i in 0..5u64 {
        let wall = base_ns + i * interval_ns;
        buf.record(wall, 1024 * (i as u32 + 1), i == 0);
    }
    assert_eq!(buf.total_buffers(), 5);
    assert_eq!(buf.total_keyframes(), 1);
    assert_eq!(buf.total_delta_frames(), 4);
    let (interval_count, mean_interval_ms, std_interval_ms, _, _) = lite_stats(&buf);
    assert_eq!(interval_count, 4);
    assert!((mean_interval_ms - 33.0).abs() < 0.1);
    assert!(std_interval_ms < 0.1);
}

#[test]
fn full_basic_recording() {
    let mut buf = FullPadBuffer::new(100);
    let base_ns: u64 = 1_000_000_000;
    let interval_ns: u64 = 33_000_000;
    for i in 0..5u64 {
        let wall = base_ns + i * interval_ns;
        buf.record(wall, None, 1024 * (i as u32 + 1), i == 0);
    }
    assert_eq!(buf.total_buffers(), 5);
    let records = buf.read_records();
    assert_eq!(records.len(), 5);
    assert!(records[0].is_keyframe);
    assert!(!records[1].is_keyframe);
    let snap = buf.snapshot();
    assert_eq!(snap.total_buffers, 5);
    let (interval_count, mean_interval_ms, _, _) = full_stats(&snap.records);
    assert_eq!(interval_count, 4);
    assert!((mean_interval_ms - 33.0).abs() < 0.1);
}

#[test]
fn lite_no_overflow_at_30fps_for_extended_run() {
    let mut buf = LitePadBuffer::new();
    let base_ns: u64 = 1_000_000_000;
    let interval_ns: u64 = 33_000_000;
    let sample_count: u64 = 20_000;
    for i in 0..sample_count {
        let wall = base_ns + i * interval_ns;
        buf.record(wall, 1024, false);
    }
    let (_, mean_interval_ms, std_interval_ms, _, _) = lite_stats(&buf);
    assert!(
        (mean_interval_ms - 33.0).abs() < 0.1,
        "mean_interval_ms drifted: {mean_interval_ms}"
    );
    assert!(
        std_interval_ms < 1.0,
        "std_interval_ms is corrupted (overflow?): {std_interval_ms}"
    );
}

#[test]
fn lite_variance_correct_with_large_frames() {
    let mut buf = LitePadBuffer::new();
    let base_ns: u64 = 1_000_000_000;
    let interval_ns: u64 = 10_000_000;
    let i_size: u32 = 5_000_000;
    let p_size: u32 = 500_000;
    let gop = 30u64;
    let sample_count = 300u64;
    for i in 0..sample_count {
        let wall = base_ns + i * interval_ns;
        let is_kf = i % gop == 0;
        let sz = if is_kf { i_size } else { p_size };
        buf.record(wall, sz, is_kf);
    }
    let (_, mean_interval_ms, _, mean_size_bytes, std_size_bytes) = lite_stats(&buf);
    assert!(
        (mean_interval_ms - 10.0).abs() < 0.1,
        "mean_interval_ms wrong: {mean_interval_ms}"
    );
    let expected_mean = (10.0 * 5_000_000.0 + 290.0 * 500_000.0) / 300.0;
    assert!(
        (mean_size_bytes - expected_mean).abs() / expected_mean < 0.01,
        "mean_size_bytes wrong: {mean_size_bytes} (expected ~{expected_mean})"
    );
    assert!(
        std_size_bytes > 0.0 && std_size_bytes < 5_000_000.0,
        "std_size_bytes looks corrupt: {std_size_bytes}"
    );
}

#[test]
fn full_snapshot_cache_returns_same_result_when_unchanged() {
    let mut buf = FullPadBuffer::new(100);
    for i in 0..10u64 {
        buf.record(1_000_000_000 + i * 33_000_000, None, 1024, i == 0);
    }
    let snap1 = buf.snapshot();
    let snap2 = buf.snapshot();
    let d1 = full_stats(&snap1.records);
    let d2 = full_stats(&snap2.records);
    assert!((d1.1 - d2.1).abs() < 1e-10);
    assert!((d1.3 - d2.3).abs() < 1e-10);
    assert_eq!(d1.0, d2.0);
}

#[test]
fn full_snapshot_cache_invalidated_on_new_record() {
    let mut buf = FullPadBuffer::new(100);
    for i in 0..5u64 {
        buf.record(1_000_000_000 + i * 33_000_000, None, 1024, false);
    }
    let snap1 = buf.snapshot();
    buf.record(1_000_000_000 + 5 * 33_000_000, None, 2048, false);
    let snap2 = buf.snapshot();
    let d1 = full_stats(&snap1.records);
    let d2 = full_stats(&snap2.records);
    assert_ne!(d1.0, d2.0);
    assert_ne!(d1.2, d2.2);
}

#[test]
fn full_snapshot_cache_cleared_on_reset() {
    let mut buf = FullPadBuffer::new(100);
    for i in 0..5u64 {
        buf.record(1_000_000_000 + i * 33_000_000, None, 1024, false);
    }
    let _snap1 = buf.snapshot();
    buf.reset();
    let snap2 = buf.snapshot();
    let d2 = full_stats(&snap2.records);
    assert_eq!(d2.0, 0);
    assert_eq!(d2.2, 0);
}

#[test]
fn lite_default_is_empty() {
    let buf = LitePadBuffer::default();
    assert_eq!(buf.total_buffers(), 0);
    assert_eq!(buf.min_interval_ns(), u64::MAX);
    assert_eq!(buf.interval_count(), 0);
}
