use mavlink_camera_manager::stream_health::{
    compute_fleet_health, compute_stream_health, diagnostic_health, status_rank, FleetHealth,
    HealthStatus, IssueKind, PipelineHealth, StreamHealth,
};

fn pipeline(health: HealthStatus, dominant_issue: IssueKind) -> PipelineHealth {
    PipelineHealth { health, dominant_issue }
}

fn stream(running: bool, health: HealthStatus, dominant_issue: IssueKind) -> StreamHealth {
    StreamHealth { running, health, dominant_issue }
}

#[test]
fn ranks_put_unknown_last() {
    assert_eq!(status_rank(HealthStatus::Good), 0);
    assert_eq!(status_rank(HealthStatus::Degraded), 1);
    assert_eq!(status_rank(HealthStatus::Bad), 2);
    assert_eq!(status_rank(HealthStatus::Unknown), 3);
}

#[test]
fn element_health_follows_freezes_then_stutters() {
    assert_eq!(diagnostic_health(0, 0), HealthStatus::Good);
    assert_eq!(diagnostic_health(3, 0), HealthStatus::Degraded);
    assert_eq!(diagnostic_health(3, 1), HealthStatus::Bad);
    assert_eq!(diagnostic_health(0, 1), HealthStatus::Bad);
}

#[test]
fn stream_without_pipelines_is_unknown() {
    let r = compute_stream_health(&Vec::new(), true);
    assert_eq!(r, pipeline(HealthStatus::Unknown, IssueKind::Unknown));
}

#[test]
fn stopped_stream_is_unknown_whatever_its_pipelines() {
    let pipes = vec![pipeline(HealthStatus::Bad, IssueKind::CpuSaturation)];
    assert_eq!(compute_stream_health(&pipes, false).health, HealthStatus::Unknown);
}

#[test]
fn running_stream_takes_the_first_worst_pipeline() {
    let pipes = vec![
        pipeline(HealthStatus::Good, IssueKind::Unknown),
        pipeline(HealthStatus::Degraded, IssueKind::LatencySpike),
        pipeline(HealthStatus::Bad, IssueKind::FreezeRisk),
        pipeline(HealthStatus::Bad, IssueKind::CpuSaturation),
    ];
    assert_eq!(
        compute_stream_health(&pipes, true),
        pipeline(HealthStatus::Bad, IssueKind::FreezeRisk)
    );
}

#[test]
fn running_stream_of_good_pipelines_has_no_issue() {
    let pipes = vec![pipeline(HealthStatus::Good, IssueKind::CausalMatchLow)];
    assert_eq!(
        compute_stream_health(&pipes, true),
        pipeline(HealthStatus::Good, IssueKind::Unknown)
    );
}

#[test]
fn fleet_without_streams_is_unknown() {
    assert_eq!(
        compute_fleet_health(&Vec::new()),
        FleetHealth {
            overall_health: HealthStatus::Unknown,
            streams_total: 0,
            streams_good: 0,
            streams_degraded: 0,
            streams_bad: 0,
            dominant_issue: IssueKind::Unknown,
        }
    );
}

#[test]
fn fleet_counts_running_streams_only() {
    let streams = vec![
        stream(true, HealthStatus::Good, IssueKind::Unknown),
        stream(true, HealthStatus::Degraded, IssueKind::LatencySpike),
        stream(false, HealthStatus::Bad, IssueKind::CpuSaturation),
        stream(true, HealthStatus::Good, IssueKind::Unknown),
    ];
    let fleet = compute_fleet_health(&streams);
    assert_eq!(fleet.streams_total, 4);
    assert_eq!(fleet.streams_good, 2);
    assert_eq!(fleet.streams_degraded, 1);
    assert_eq!(fleet.streams_bad, 0);
    assert_eq!(fleet.overall_health, HealthStatus::Degraded);
    // The dominant issue comes from the worst stream, running or not.
    assert_eq!(fleet.dominant_issue, IssueKind::CpuSaturation);
}

#[test]
fn fleet_counts_unknown_running_streams_as_bad() {
    let streams = vec![
        stream(true, HealthStatus::Unknown, IssueKind::Unknown),
        stream(true, HealthStatus::Bad, IssueKind::FreezeRisk),
    ];
    let fleet = compute_fleet_health(&streams);
    assert_eq!(fleet.streams_bad, 2);
    assert_eq!(fleet.overall_health, HealthStatus::Bad);
    assert_eq!(fleet.dominant_issue, IssueKind::Unknown);
}

#[test]
fn fleet_of_good_streams_is_good_and_ties_go_to_the_last() {
    let streams = vec![
        stream(true, HealthStatus::Good, IssueKind::LatencySpike),
        stream(true, HealthStatus::Good, IssueKind::CausalMatchLow),
    ];
    let fleet = compute_fleet_health(&streams);
    assert_eq!(fleet.overall_health, HealthStatus::Good);
    assert_eq!(fleet.dominant_issue, IssueKind::CausalMatchLow);
    assert_eq!(
        fleet.streams_good + fleet.streams_degraded + fleet.streams_bad,
        2
    );
}
