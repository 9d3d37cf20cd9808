use mavlink_camera_manager::element_probe::{ElementProbe, PadBuffer, ProcessingTotals};
use mavlink_camera_manager::pipeline_stats::StatsLevel;

fn probe(level: StatsLevel, skip_src_pads: bool) -> ElementProbe {
    ElementProbe::new(
        "queue0".to_string(),
        "queue".to_string(),
        level,
        8,
        skip_src_pads,
        Some("bin0".to_string()),
    )
}

#[test]
fn processing_time_sums_delays_after_a_sink_arrival() {
    let mut element = probe(StatsLevel::Lite, false);
    element.record_src_departure(100);
    assert_eq!(element.cpu_attribution_hint(), (None, None));
    element.record_sink_arrival(1_000);
    element.record_src_departure(1_500);
    element.record_src_departure(900);
    element.record_src_departure(2_000);
    assert_eq!(
        element.cpu_attribution_hint().1,
        Some(ProcessingTotals {
            sum_ns: 1_500,
            count: 2
        })
    );
    assert_eq!(element.element_name(), "queue0");
    assert_eq!(element.element_type(), "queue");
    assert_eq!(element.parent_bin().as_deref(), Some("bin0"));
}

#[test]
fn cross_thread_needs_both_sides() {
    let mut element = probe(StatsLevel::Lite, false);
    assert_eq!(element.is_cross_thread(), None);
    element.update_thread_id(false, 11);
    assert_eq!(element.is_cross_thread(), None);
    assert_eq!(element.get_thread_id(), 11);
    element.update_thread_id(true, 12);
    assert_eq!(element.is_cross_thread(), Some(true));
    element.update_thread_id(false, 12);
    assert_eq!(element.is_cross_thread(), Some(false));
    assert_eq!(element.cpu_attribution_hint().0, Some(12));
}

#[test]
fn pads_register_once_and_tees_skip_src_pads() {
    let mut element = probe(StatsLevel::Full, false);
    assert!(element.register_sink_pad("sink"));
    assert!(!element.register_sink_pad("sink"));
    assert!(element.register_src_pad("src"));
    assert_eq!(element.sink_pads().len(), 1);
    assert_eq!(element.src_pads().len(), 1);

    let mut tee = probe(StatsLevel::Full, true);
    assert!(!tee.register_src_pad("src_0"));
    assert!(tee.src_pads().is_empty());
}

#[test]
fn best_pad_prefers_the_busiest_readable_pad() {
    let mut element = probe(StatsLevel::Full, false);
    element.register_sink_pad("sink");
    element.register_src_pad("src");
    for i in 1..=3u64 {
        assert!(element.record_pad(false, "sink", i * 10, None, 100, false));
    }
    assert!(element.record_pad(true, "src", 50, Some(1), 200, true));
    assert!(!element.record_pad(true, "missing", 60, None, 1, false));

    let (name, records, total) = element.read_raw_records_from_best_pad(None).unwrap();
    assert_eq!(name, "sink");
    assert_eq!(records.len(), 3);
    assert_eq!(total, 3);

    let (name, records, total) = element.read_raw_records_from_best_pad(Some("src")).unwrap();
    assert_eq!(name, "src");
    assert_eq!(records[0].pts_ns, Some(1));
    assert_eq!(total, 1);
    assert!(element.read_raw_records_from_best_pad(Some("none")).is_none());
}

#[test]
fn lite_pads_have_no_raw_records_and_reset_clears_all() {
    let mut element = probe(StatsLevel::Lite, false);
    element.register_sink_pad("sink");
    assert!(element.record_pad(false, "sink", 10, None, 1, true));
    assert!(element.read_raw_records_from_best_pad(None).is_none());
    match &element.sink_pads()[0].buffer {
        PadBuffer::Lite(buffer) => assert_eq!(buffer.total_keyframes(), 1),
        PadBuffer::Full(_) => panic!("expected accumulators"),
    }
    element.update_thread_id(true, 3);
    element.reset();
    assert_eq!(element.sink_pads()[0].buffer.total_buffers(), 0);
    assert_eq!(element.get_thread_id(), 0);
    assert_eq!(element.cpu_attribution_hint(), (None, None));
}
