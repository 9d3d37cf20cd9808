use mavlink_camera_manager::element_probe::RawRecord;
use mavlink_camera_manager::pipeline_structure::TopologyEdge;
use mavlink_camera_manager::pts_match::{
    buffer_tail, keyframe_intervals_ns, compute_edge_delays, latest_wall_ns,
    pad_frame_metrics, summary_total_frames, ElementRecords, FrameMetrics,
    aggregate_causal_latency_health, causal_confidence_label, EdgeConfidence, causal_latencies_ns, compute_causal_edge_latency,
    intra_element_transit_ns, sorted_timed_pairs, transit_times_ns, CausalConfidence,
    CausalLatency, PadRecords,
};

fn record(wall_ns: u64, pts_ns: Option<u64>) -> RawRecord {
    RawRecord {
        wall_ns,
        pts_ns,
        size: 100,
        is_keyframe: false,
    }
}

fn pad(name: &str, records: Vec<RawRecord>) -> PadRecords {
    PadRecords {
        pad_name: name.to_string(),
        total_buffers: records.len() as u64,
        last_wall_ns: records.last().map(|r| r.wall_ns).unwrap_or(0),
        records: Some(records),
    }
}

/// The latency of the link from an element whose only src pad holds `src`
/// to an element whose only sink pad holds `sink`.
fn link(src: Vec<RawRecord>, sink: Vec<RawRecord>) -> CausalLatency {
    compute_causal_edge_latency(
        &vec![pad("src", src)],
        &Vec::new(),
        &vec![pad("sink", sink)],
        "src",
        "sink",
    )
    .expect("both pads keep records")
}

fn mean_ms(latencies_ns: &[u64]) -> f64 {
    let total: u64 = latencies_ns.iter().sum();
    total as f64 / latencies_ns.len() as f64 / 1e6
}

fn match_rate(latency: &CausalLatency) -> f64 {
    if latency.sources_with_pts > 0 {
        latency.latencies_ns.len() as f64 / latency.sources_with_pts as f64
    } else {
        0.0
    }
}

#[test]
fn causal_latency_handles_duplicate_pts_without_overwrite_bias() {
    let latency = link(
        vec![record(1_000_000_000, Some(100)), record(1_100_000_000, Some(100))],
        vec![record(1_050_000_000, Some(100)), record(1_250_000_000, Some(100))],
    );
    assert_eq!(latency.latencies_ns.len(), 2);
    assert!((mean_ms(&latency.latencies_ns) - 100.0).abs() < 1e-6);
    assert_eq!(match_rate(&latency), 1.0);
    assert_eq!(latency.confidence, CausalConfidence::Low);
}

#[test]
fn causal_confidence_thresholds() {
    // A match rate of 4/5 over 50 matches, 2/5 over 20, and just under 2/5.
    assert_eq!(causal_confidence_label(80, 100), CausalConfidence::High);
    assert_eq!(causal_confidence_label(50, 60), CausalConfidence::High);
    assert_eq!(causal_confidence_label(20, 50), CausalConfidence::Medium);
    assert_eq!(causal_confidence_label(20, 52), CausalConfidence::Low);
    assert_eq!(causal_confidence_label(49, 49), CausalConfidence::Medium);
    assert_eq!(causal_confidence_label(19, 19), CausalConfidence::Low);
    assert_eq!(causal_confidence_label(0, 0), CausalConfidence::Low);
}

#[test]
fn causal_latency_empty_records_returns_zero() {
    let latency = link(vec![], vec![]);
    assert!(latency.latencies_ns.is_empty());
    assert_eq!(match_rate(&latency), 0.0);
    assert_eq!(latency.sources_with_pts, 0);
    assert_eq!(latency.confidence, CausalConfidence::Low);
}

#[test]
fn causal_latency_no_pts_returns_zero_rate() {
    let latency = link(
        vec![record(1_000_000_000, None)],
        vec![record(1_050_000_000, None)],
    );
    assert!(latency.latencies_ns.is_empty());
    assert_eq!(match_rate(&latency), 0.0);
    assert_eq!(latency.sources_with_pts, 0);
    assert_eq!(latency.confidence, CausalConfidence::Low);
}

#[test]
fn causal_latency_single_matched_pair() {
    let latency = link(
        vec![record(1_000_000_000, Some(100))],
        vec![record(1_005_000_000, Some(100))],
    );
    assert_eq!(latency.latencies_ns, vec![5_000_000]);
    assert!((mean_ms(&latency.latencies_ns) - 5.0).abs() < 1e-6);
    assert_eq!(match_rate(&latency), 1.0);
}

#[test]
fn causal_latency_multiple_distinct_pts() {
    let latency = link(
        vec![
            record(1_000_000_000, Some(100)),
            record(1_033_000_000, Some(200)),
            record(1_066_000_000, Some(300)),
        ],
        vec![
            record(1_002_000_000, Some(100)),
            record(1_035_000_000, Some(200)),
            record(1_068_000_000, Some(300)),
        ],
    );
    assert_eq!(latency.latencies_ns.len(), 3);
    assert_eq!(match_rate(&latency), 1.0);
    assert!((mean_ms(&latency.latencies_ns) - 2.0).abs() < 0.1);
}

#[test]
fn causal_latency_unmatched_pts_reduces_rate() {
    let latency = link(
        vec![
            record(1_000_000_000, Some(100)),
            record(1_033_000_000, Some(200)),
            record(1_066_000_000, Some(300)),
        ],
        vec![record(1_005_000_000, Some(100))],
    );
    assert_eq!(latency.latencies_ns.len(), 1);
    let r = match_rate(&latency);
    assert!((r - 1.0 / 3.0).abs() < 1e-6, "expected 1/3, got {r}");
}

#[test]
fn causal_latency_large_record_set_correctness() {
    let n: u64 = 900;
    let interval_ns: u64 = 33_333_333;
    let latency_ns: u64 = 2_000_000;
    let src: Vec<RawRecord> = (0..n)
        .map(|i| record(1_000_000_000 + i * interval_ns, Some(i * interval_ns)))
        .collect();
    let sink: Vec<RawRecord> = (0..n)
        .map(|i| record(1_000_000_000 + i * interval_ns + latency_ns, Some(i * interval_ns)))
        .collect();
    let latency = link(src, sink);
    assert_eq!(latency.latencies_ns.len() as u64, n);
    assert_eq!(match_rate(&latency), 1.0);
    assert!((mean_ms(&latency.latencies_ns) - 2.0).abs() < 0.01);
    assert!(latency.latencies_ns.iter().all(|&l| l == latency_ns));
    assert_eq!(latency.confidence, CausalConfidence::High);
}

#[test]
fn causal_latency_without_records_is_none() {
    let no_records = PadRecords {
        pad_name: "src".to_string(),
        total_buffers: 3,
        last_wall_ns: 0,
        records: None,
    };
    assert!(compute_causal_edge_latency(
        &vec![no_records],
        &Vec::new(),
        &vec![pad("sink", vec![])],
        "src",
        "sink",
    )
    .is_none());
    assert!(compute_causal_edge_latency(&Vec::new(), &Vec::new(), &Vec::new(), "src", "sink").is_none());
}

#[test]
fn causal_latency_falls_back_to_busiest_pads() {
    // No pad of the link's names: the busiest src pad (the last on a tie)
    // and the busiest sink pad are matched.
    let quiet = PadRecords {
        pad_name: "src_0".to_string(),
        total_buffers: 5,
        last_wall_ns: 0,
        records: Some(vec![record(10, Some(1))]),
    };
    let busy = PadRecords {
        pad_name: "src_1".to_string(),
        total_buffers: 5,
        last_wall_ns: 0,
        records: Some(vec![record(20, Some(1))]),
    };
    let latency = compute_causal_edge_latency(
        &vec![quiet, busy],
        &Vec::new(),
        &vec![pad("sink_0", vec![record(50, Some(1))])],
        "src",
        "sink",
    )
    .expect("pads were found");
    assert_eq!(latency.latencies_ns, vec![30]);
}

#[test]
fn causal_latency_of_a_tee_uses_its_sink_pad() {
    let latency = compute_causal_edge_latency(
        &Vec::new(),
        &vec![pad("sink", vec![record(100, Some(7))])],
        &vec![pad("sink", vec![record(160, Some(7))])],
        "src_0",
        "sink",
    )
    .expect("the tee offers its sink pad");
    assert_eq!(latency.latencies_ns, vec![60]);
    assert_eq!(latency.sources_with_pts, 1);
}

#[test]
fn causal_cursor_returns_to_an_earlier_pts() {
    // The cursor jumps back to the first pair of an earlier PTS, so a pair
    // can be matched again.
    let (latencies, with_pts) = causal_latencies_ns(
        &vec![record(0, Some(1)), record(5, Some(2)), record(1, Some(1)), record(2, None)],
        &vec![record(10, Some(1)), record(20, Some(2)), record(30, Some(3))],
    );
    assert_eq!(latencies, vec![10, 15, 9]);
    assert_eq!(with_pts, 3);
}

#[test]
fn causal_cursor_stops_after_the_last_pair() {
    let (latencies, with_pts) = causal_latencies_ns(
        &vec![record(0, Some(1)), record(1, Some(1)), record(2, Some(1))],
        &vec![record(10, Some(1))],
    );
    assert_eq!(latencies, vec![10]);
    assert_eq!(with_pts, 3);
}

#[test]
fn causal_match_needs_a_later_downstream_observation() {
    let (latencies, with_pts) = causal_latencies_ns(
        &vec![record(100, Some(1))],
        &vec![record(90, Some(1))],
    );
    assert!(latencies.is_empty());
    assert_eq!(with_pts, 1);
}

#[test]
fn timed_pairs_are_sorted_by_pts_then_wall() {
    let pairs = sorted_timed_pairs(&vec![
        record(30, Some(2)),
        record(5, None),
        record(20, Some(1)),
        record(10, Some(2)),
        record(20, Some(1)),
    ]);
    assert_eq!(pairs, vec![(1, 20), (1, 20), (2, 10), (2, 30)]);
}

fn stepped(count: u64, delay: impl Fn(u64) -> u64) -> (Vec<RawRecord>, Vec<RawRecord>) {
    let base = 1_000_000_000_u64;
    let pts_interval = 33_333_333_u64;
    let sink = (0..count)
        .map(|i| record(base + i * pts_interval, Some(i * pts_interval)))
        .collect();
    let src = (0..count)
        .map(|i| record(base + i * pts_interval + delay(i), Some(i * pts_interval)))
        .collect();
    (sink, src)
}

fn transit_us(sink: Vec<RawRecord>, src: Vec<RawRecord>) -> Option<Vec<f64>> {
    intra_element_transit_ns(&vec![pad("sink", sink)], &vec![pad("src", src)])
        .map(|t| t.iter().map(|&ns| ns as f64 / 1_000.0).collect())
}

#[test]
fn intra_element_pts_matched_basic() {
    let (sink, src) = stepped(10, |_| 500_000);
    let times = transit_us(sink, src).expect("expected distribution");
    assert_eq!(times.len(), 10);
    let mean = times.iter().sum::<f64>() / times.len() as f64;
    assert!((mean - 500.0).abs() < 1.0, "expected ~500 µs, got {mean} µs");
    assert!(times.iter().all(|&t| (t - mean).abs() < 1.0));
}

#[test]
fn intra_element_pts_matched_cross_thread_queue() {
    let (sink, src) = stepped(10, |_| 5_000_000);
    let times = transit_us(sink, src).expect("expected distribution");
    assert_eq!(times.len(), 10);
    let mean = times.iter().sum::<f64>() / times.len() as f64;
    assert!((mean - 5000.0).abs() < 1.0, "expected ~5000 µs queuing delay, got {mean} µs");
}

#[test]
fn intra_element_pts_matched_no_records_no_crash() {
    assert!(transit_us(vec![], vec![]).is_none());
}

#[test]
fn intra_element_pts_matched_variable_processing_time() {
    let (sink, src) = stepped(100, |i| if i % 2 == 0 { 100_000 } else { 900_000 });
    let times = transit_us(sink, src).expect("expected distribution");
    assert_eq!(times.len(), 100);
    let mean = times.iter().sum::<f64>() / times.len() as f64;
    assert!((mean - 500.0).abs() < 1.0, "expected ~500 µs mean, got {mean} µs");
    let min = times.iter().cloned().fold(f64::INFINITY, f64::min);
    let max = times.iter().cloned().fold(0.0, f64::max);
    assert!((min - 100.0).abs() < 1.0, "expected ~100 µs min, got {min} µs");
    assert!((max - 900.0).abs() < 1.0, "expected ~900 µs max, got {max} µs");
}

#[test]
fn transit_takes_the_latest_earlier_sink_observation() {
    // Two sink observations of PTS 5 before the src one: the later counts.
    let times = transit_times_ns(
        &vec![record(100, Some(5)), record(140, Some(5)), record(500, Some(5))],
        &vec![record(150, Some(5)), record(90, Some(5))],
    );
    assert_eq!(times, vec![10]);
}

#[test]
fn aggregate_causal_latency_health_is_weighted_by_samples() {
    let edges = vec![
        EdgeConfidence {
            confidence: Some(CausalConfidence::High),
            matched_samples: Some(100),
        },
        EdgeConfidence {
            confidence: Some(CausalConfidence::Low),
            matched_samples: Some(5),
        },
    ];
    assert_eq!(aggregate_causal_latency_health(&edges), Some(CausalConfidence::High));
}

#[test]
fn aggregate_confidence_needs_a_link_with_confidence() {
    assert_eq!(aggregate_causal_latency_health(&Vec::new()), None);
    let edges = vec![EdgeConfidence {
        confidence: None,
        matched_samples: Some(100),
    }];
    assert_eq!(aggregate_causal_latency_health(&edges), None);
}

#[test]
fn aggregate_confidence_thresholds_on_the_weighted_mean() {
    let edge = |confidence, matched_samples| EdgeConfidence {
        confidence: Some(confidence),
        matched_samples,
    };
    // Mean exactly 2.5: high.
    assert_eq!(
        aggregate_causal_latency_health(&vec![
            edge(CausalConfidence::High, Some(1)),
            edge(CausalConfidence::Medium, Some(1)),
        ]),
        Some(CausalConfidence::High)
    );
    // Mean exactly 1.5: medium; links without matches weigh one.
    assert_eq!(
        aggregate_causal_latency_health(&vec![
            edge(CausalConfidence::Low, Some(0)),
            edge(CausalConfidence::Medium, None),
        ]),
        Some(CausalConfidence::Medium)
    );
    // Mean 4/3: low.
    assert_eq!(
        aggregate_causal_latency_health(&vec![
            edge(CausalConfidence::Low, Some(2)),
            edge(CausalConfidence::Medium, Some(1)),
        ]),
        Some(CausalConfidence::Low)
    );
}

#[test]
fn compute_summary_uses_unique_pts_for_packetized_streams() {
    let start = 1_000_000_000_u64;
    let mut records = Vec::new();
    for frame_idx in 0..30_u64 {
        let frame_wall = start + frame_idx * 33_333_333;
        for pkt_idx in 0..4_u64 {
            records.push(RawRecord {
                wall_ns: frame_wall + pkt_idx * 1_000,
                pts_ns: Some(frame_idx),
                size: 1400,
                is_keyframe: frame_idx == 0,
            });
        }
    }
    let src = pad("src", records);
    let metrics = pad_frame_metrics(src.total_buffers, &src.records);
    let elements = vec![ElementRecords {
        element_name: "rtspsrc0".to_string(),
        src_pads: vec![src],
        sink_pads: Vec::new(),
    }];
    assert_eq!(summary_total_frames(&elements), 30);
    let span_ns = metrics.wall_span_ns.expect("thirty frames span some time");
    let throughput_fps = metrics.unique_pts_count as f64 / (span_ns as f64 / 1e9);
    assert!(throughput_fps > 20.0);
    assert!(throughput_fps < 60.0);
}

#[test]
fn frame_metrics_without_pts_fall_back_to_buffers() {
    assert_eq!(
        pad_frame_metrics(7, &None),
        FrameMetrics {
            frame_count: 7,
            unique_pts_count: 0,
            wall_span_ns: None
        }
    );
    assert_eq!(
        pad_frame_metrics(3, &Some(vec![record(50, None), record(10, None)])),
        FrameMetrics {
            frame_count: 3,
            unique_pts_count: 0,
            wall_span_ns: None
        }
    );
}

#[test]
fn frame_metrics_count_distinct_pts_and_span_all_records() {
    let records = vec![
        record(500, Some(9)),
        record(100, Some(3)),
        record(900, None),
        record(300, Some(9)),
    ];
    assert_eq!(
        pad_frame_metrics(4, &Some(records)),
        FrameMetrics {
            frame_count: 2,
            unique_pts_count: 2,
            wall_span_ns: Some(800)
        }
    );
    // A single distinct PTS measures no span.
    assert_eq!(
        pad_frame_metrics(2, &Some(vec![record(1, Some(4)), record(5, Some(4))])).wall_span_ns,
        None
    );
}

#[test]
fn total_frames_takes_the_busiest_pad_of_each_element() {
    let quiet = PadRecords {
        pad_name: "src".to_string(),
        total_buffers: 2,
        last_wall_ns: 0,
        records: None,
    };
    let busy = PadRecords {
        pad_name: "sink".to_string(),
        total_buffers: 9,
        last_wall_ns: 0,
        records: None,
    };
    let elements = vec![
        ElementRecords {
            element_name: "a".to_string(),
            src_pads: vec![quiet],
            sink_pads: vec![busy],
        },
        ElementRecords {
            element_name: "b".to_string(),
            src_pads: Vec::new(),
            sink_pads: Vec::new(),
        },
    ];
    assert_eq!(summary_total_frames(&elements), 9);
    assert_eq!(summary_total_frames(&Vec::new()), 0);
}

fn wall_pad(name: &str, last_wall_ns: u64) -> PadRecords {
    PadRecords {
        pad_name: name.to_string(),
        total_buffers: 1,
        last_wall_ns,
        records: None,
    }
}

#[test]
fn latest_wall_spans_both_pad_lists() {
    assert_eq!(latest_wall_ns(&Vec::new(), &Vec::new()), 0);
    assert_eq!(
        latest_wall_ns(&vec![wall_pad("src", 40)], &vec![wall_pad("sink", 90), wall_pad("sink_1", 10)]),
        90
    );
}

fn topology_edge(from_node: &str, to_node: &str) -> TopologyEdge {
    TopologyEdge {
        from_node: from_node.to_string(),
        from_pad: "src".to_string(),
        to_node: to_node.to_string(),
        to_pad: "sink".to_string(),
        media_type: None,
    }
}

#[test]
fn edge_delays_follow_the_topology() {
    let elements = vec![
        ElementRecords {
            element_name: "src".to_string(),
            src_pads: vec![pad("src", vec![record(1_000, Some(1))])],
            sink_pads: Vec::new(),
        },
        ElementRecords {
            element_name: "parse".to_string(),
            src_pads: vec![wall_pad("src", 1_900)],
            sink_pads: vec![pad("sink", vec![record(1_400, Some(1))])],
        },
        ElementRecords {
            element_name: "idle".to_string(),
            src_pads: vec![wall_pad("src", 0)],
            sink_pads: Vec::new(),
        },
    ];
    let edges = vec![
        topology_edge("src", "parse"),
        topology_edge("parse", "idle"),
        topology_edge("src", "missing"),
        topology_edge("parse", "src"),
    ];
    assert!(compute_edge_delays(&elements, None).is_empty());
    let delays = compute_edge_delays(&elements, Some(&edges));
    assert_eq!(delays.len(), 2);
    assert_eq!(delays[0].edge_idx, 0);
    assert_eq!(delays[0].freshness_delay_ns, 900);
    let causal = delays[0].causal.as_ref().expect("both pads keep records");
    assert_eq!(causal.latencies_ns, vec![400]);
    // From parse back to src: the downstream latest buffer is earlier.
    assert_eq!(delays[1].edge_idx, 3);
    assert_eq!(delays[1].freshness_delay_ns, 0);
    assert!(delays[1].causal.is_none());
}

#[test]
fn buffer_tail_keeps_the_latest_records() {
    let records = Some(vec![record(1, None), record(2, None), record(3, None)]);
    let walls = |v: Vec<RawRecord>| v.iter().map(|r| r.wall_ns).collect::<Vec<u64>>();
    assert_eq!(walls(buffer_tail(&records, 2)), vec![2, 3]);
    assert_eq!(walls(buffer_tail(&records, 10)), vec![1, 2, 3]);
    assert!(buffer_tail(&records, 0).is_empty());
    assert!(buffer_tail(&None, 5).is_empty());
}

fn keyframe(wall_ns: u64) -> RawRecord {
    RawRecord {
        wall_ns,
        pts_ns: None,
        size: 100,
        is_keyframe: true,
    }
}

#[test]
fn keyframe_intervals_need_two_of_them() {
    assert_eq!(keyframe_intervals_ns(&vec![keyframe(0)]), None);
    assert_eq!(
        keyframe_intervals_ns(&vec![keyframe(0), record(10, None), keyframe(1_000)]),
        None
    );
    assert_eq!(
        keyframe_intervals_ns(&vec![
            keyframe(0),
            record(10, None),
            keyframe(1_000),
            keyframe(900),
            keyframe(2_500),
        ]),
        Some(vec![1_000, 1_600])
    );
}
