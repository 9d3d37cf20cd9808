//! Health statuses aggregated from pipelines to streams and from streams to
//! the whole fleet.
use vstd::prelude::*;

verus! {

#[derive(Clone, Copy, Debug, PartialEq, Eq, Structural)]
pub enum HealthStatus {
    Good,
    Degraded,
    Bad,
    Unknown,
}

#[derive(Clone, Copy, Debug, PartialEq, Eq, Structural)]
pub enum IssueKind {
    Unknown,
    CpuSaturation,
    FreezeRisk,
    LatencySpike,
    CausalMatchLow,
}

/// How bad a status is: good, degraded, bad, then unknown as the worst.
pub open spec fn rank(status: HealthStatus) -> nat {
    match status {
        HealthStatus::Good => 0,
        HealthStatus::Degraded => 1,
        HealthStatus::Bad => 2,
        HealthStatus::Unknown => 3,
    }
}

pub fn status_rank(status: HealthStatus) -> (r: u8)
    ensures
        r == rank(status),
{
    match status {
        HealthStatus::Good => 0,
        HealthStatus::Degraded => 1,
        HealthStatus::Bad => 2,
        HealthStatus::Unknown => 3,
    }
}

/// The health of an element from its stutter and freeze events: bad on a
/// freeze, degraded on a stutter, good otherwise.
pub open spec fn diagnostic_health_spec(stutter_events: u64, freeze_events: u64) -> HealthStatus {
    if freeze_events > 0 {
        HealthStatus::Bad
    } else if stutter_events > 0 {
        HealthStatus::Degraded
    } else {
        HealthStatus::Good
    }
}

pub fn diagnostic_health(stutter_events: u64, freeze_events: u64) -> (r: HealthStatus)
    ensures
        r == diagnostic_health_spec(stutter_events, freeze_events),
{
    if freeze_events > 0 {
        HealthStatus::Bad
    } else if stutter_events > 0 {
        HealthStatus::Degraded
    } else {
        HealthStatus::Good
    }
}

/// The health of one pipeline.
#[derive(Clone, Copy, Debug, PartialEq, Eq, Structural)]
pub struct PipelineHealth {
    pub health: HealthStatus,
    pub dominant_issue: IssueKind,
}

/// Walking the pipelines in order from a starting health (good for a
/// running stream, unknown otherwise): a pipeline whose status is strictly
/// worse than the health so far takes it over, with its issue.
pub open spec fn worst_of(pipelines: Seq<PipelineHealth>, running: bool) -> PipelineHealth
    decreases pipelines.len(),
{
    if pipelines.len() == 0 {
        PipelineHealth {
            health: if running {
                HealthStatus::Good
            } else {
                HealthStatus::Unknown
            },
            dominant_issue: IssueKind::Unknown,
        }
    } else {
        let prev = worst_of(pipelines.drop_last(), running);
        let p = pipelines.last();
        if rank(p.health) > rank(prev.health) {
            p
        } else {
            prev
        }
    }
}

/// A stream's health: unknown without pipelines, else the worst of them.
pub open spec fn stream_health_spec(pipelines: Seq<PipelineHealth>, running: bool) -> PipelineHealth {
    if pipelines.len() == 0 {
        PipelineHealth { health: HealthStatus::Unknown, dominant_issue: IssueKind::Unknown }
    } else {
        worst_of(pipelines, running)
    }
}

/// The health of a stream from those of its pipelines; a stream that is
/// not running, or has no pipeline yet, is unknown.
pub fn compute_stream_health(pipelines: &Vec<PipelineHealth>, running: bool) -> (r: PipelineHealth)
    ensures
        r == stream_health_spec(pipelines@, running),
        !running ==> r.health == HealthStatus::Unknown,
        pipelines@.len() == 0 ==> r.health == HealthStatus::Unknown,
        running ==> forall|i: int| 0 <= i < pipelines@.len() ==> rank(#[trigger] pipelines@[i].health) <= rank(r.health),
        running && pipelines@.len() > 0 ==> r.health == HealthStatus::Good || exists|i: int|
            0 <= i < pipelines@.len() && #[trigger] pipelines@[i] == r,
{
    if pipelines.len() == 0 {
        return PipelineHealth { health: HealthStatus::Unknown, dominant_issue: IssueKind::Unknown };
    }
    let mut worst = PipelineHealth {
        health: if running {
            HealthStatus::Good
        } else {
            HealthStatus::Unknown
        },
        dominant_issue: IssueKind::Unknown,
    };
    let n = pipelines.len();
    let mut k: usize = 0;
    while k < n
        invariant
            n == pipelines@.len(),
            k <= n,
            worst == worst_of(pipelines@.take(k as int), running),
        decreases n - k,
    {
        proof {
            assert(pipelines@.take(k + 1).drop_last() =~= pipelines@.take(k as int));
        }
        let p = pipelines[k];
        if status_rank(p.health) > status_rank(worst.health) {
            worst = p;
        }
        k = k + 1;
    }
    proof {
        assert(pipelines@.take(n as int) =~= pipelines@);
        lemma_worst_of(pipelines@, running);
    }
    worst
}

proof fn lemma_worst_of(pipelines: Seq<PipelineHealth>, running: bool)
    ensures
        !running ==> worst_of(pipelines, running).health == HealthStatus::Unknown,
        running ==> forall|i: int| 0 <= i < pipelines.len() ==> rank(#[trigger] pipelines[i].health) <= rank(
            worst_of(pipelines, running).health,
        ),
        running ==> worst_of(pipelines, running).health == HealthStatus::Good || exists|i: int|
            0 <= i < pipelines.len() && #[trigger] pipelines[i] == worst_of(pipelines, running),
    decreases pipelines.len(),
{
    if pipelines.len() > 0 {
        let rest = pipelines.drop_last();
        lemma_worst_of(rest, running);
        assert forall|i: int| 0 <= i < rest.len() implies #[trigger] pipelines[i] == rest[i] by {}
        if running {
            let w = worst_of(pipelines, running);
            if w.health != HealthStatus::Good {
                if w == pipelines.last() {
                    assert(pipelines[pipelines.len() - 1] == w);
                } else {
                    let i = choose|i: int| 0 <= i < rest.len() && #[trigger] rest[i] == w;
                    assert(pipelines[i] == w);
                }
            }
        }
    }
}

/// The health of one stream, and whether it runs.
#[derive(Clone, Copy, Debug, PartialEq, Eq, Structural)]
pub struct StreamHealth {
    pub running: bool,
    pub health: HealthStatus,
    pub dominant_issue: IssueKind,
}

/// How many running streams have a status that `pick` accepts.
pub open spec fn running_count(streams: Seq<StreamHealth>, pick: spec_fn(HealthStatus) -> bool) -> nat
    decreases streams.len(),
{
    if streams.len() == 0 {
        0
    } else {
        running_count(streams.drop_last(), pick) + if streams.last().running && pick(
            streams.last().health,
        ) {
            1nat
        } else {
            0nat
        }
    }
}

pub open spec fn is_good() -> spec_fn(HealthStatus) -> bool {
    |h: HealthStatus| h == HealthStatus::Good
}

pub open spec fn is_degraded() -> spec_fn(HealthStatus) -> bool {
    |h: HealthStatus| h == HealthStatus::Degraded
}

/// Bad and unknown streams are both counted as bad.
pub open spec fn is_bad() -> spec_fn(HealthStatus) -> bool {
    |h: HealthStatus| h == HealthStatus::Bad || h == HealthStatus::Unknown
}

pub open spec fn any_status() -> spec_fn(HealthStatus) -> bool {
    |h: HealthStatus| true
}

/// The stream whose status ranks worst; the last of them on a tie.
pub open spec fn worst_stream(streams: Seq<StreamHealth>) -> Option<int>
    decreases streams.len(),
{
    if streams.len() == 0 {
        None
    } else {
        let prev = worst_stream(streams.drop_last());
        let i = streams.len() - 1;
        if prev is None || rank(streams[i].health) >= rank(streams[prev.unwrap()].health) {
            Some(i)
        } else {
            prev
        }
    }
}

/// The health over all streams.
#[derive(Clone, Copy, Debug, PartialEq, Eq, Structural)]
pub struct FleetHealth {
    pub overall_health: HealthStatus,
    pub streams_total: u64,
    pub streams_good: u64,
    pub streams_degraded: u64,
    pub streams_bad: u64,
    pub dominant_issue: IssueKind,
}

pub open spec fn fleet_health_spec(streams: Seq<StreamHealth>) -> FleetHealth {
    let bad = running_count(streams, is_bad());
    let degraded = running_count(streams, is_degraded());
    FleetHealth {
        overall_health: if bad > 0 {
            HealthStatus::Bad
        } else if degraded > 0 {
            HealthStatus::Degraded
        } else if streams.len() == 0 {
            HealthStatus::Unknown
        } else {
            HealthStatus::Good
        },
        streams_total: streams.len() as u64,
        streams_good: running_count(streams, is_good()) as u64,
        streams_degraded: degraded as u64,
        streams_bad: bad as u64,
        dominant_issue: match worst_stream(streams) {
            Some(i) => streams[i].dominant_issue,
            None => IssueKind::Unknown,
        },
    }
}

proof fn lemma_running_count_bound(streams: Seq<StreamHealth>, pick: spec_fn(HealthStatus) -> bool)
    ensures
        running_count(streams, pick) <= streams.len(),
    decreases streams.len(),
{
    if streams.len() > 0 {
        lemma_running_count_bound(streams.drop_last(), pick);
    }
}

proof fn lemma_worst_stream_in_range(streams: Seq<StreamHealth>)
    ensures
        worst_stream(streams) matches Some(i) ==> 0 <= i < streams.len(),
        streams.len() > 0 ==> worst_stream(streams) is Some,
    decreases streams.len(),
{
    if streams.len() > 0 {
        lemma_worst_stream_in_range(streams.drop_last());
    }
}

/// Counts the running streams by status and names the fleet's health: bad
/// when a running stream is bad or unknown, else degraded when one is
/// degraded, unknown without streams, good otherwise.
pub fn compute_fleet_health(streams: &Vec<StreamHealth>) -> (r: FleetHealth)
    ensures
        r == fleet_health_spec(streams@),
{
    let n = streams.len();
    let mut good: u64 = 0;
    let mut degraded: u64 = 0;
    let mut bad: u64 = 0;
    let mut worst: Option<usize> = None;
    let mut k: usize = 0;
    while k < n
        invariant
            n == streams@.len(),
            k <= n,
            good == running_count(streams@.take(k as int), is_good()),
            degraded == running_count(streams@.take(k as int), is_degraded()),
            bad == running_count(streams@.take(k as int), is_bad()),
            match worst {
                Some(i) => worst_stream(streams@.take(k as int)) == Some(i as int) && i < k,
                None => worst_stream(streams@.take(k as int)) is None,
            },
        decreases n - k,
    {
        let ghost prefix = streams@.take(k + 1);
        proof {
            assert(prefix.drop_last() =~= streams@.take(k as int));
            lemma_running_count_bound(prefix, is_good());
            lemma_running_count_bound(prefix, is_degraded());
            lemma_running_count_bound(prefix, is_bad());
        }
        let s = streams[k];
        if s.running {
            match s.health {
                HealthStatus::Good => good = good + 1,
                HealthStatus::Degraded => degraded = degraded + 1,
                HealthStatus::Bad | HealthStatus::Unknown => bad = bad + 1,
            }
        }
        let take = match worst {
            None => true,
            Some(i) => status_rank(s.health) >= status_rank(streams[i].health),
        };
        if take {
            worst = Some(k);
        }
        k = k + 1;
    }
    proof {
        assert(streams@.take(n as int) =~= streams@);
    }
    let overall = if bad > 0 {
        HealthStatus::Bad
    } else if degraded > 0 {
        HealthStatus::Degraded
    } else if n == 0 {
        HealthStatus::Unknown
    } else {
        HealthStatus::Good
    };
    let dominant_issue = match worst {
        Some(i) => streams[i].dominant_issue,
        None => IssueKind::Unknown,
    };
    FleetHealth {
        overall_health: overall,
        streams_total: n as u64,
        streams_good: good,
        streams_degraded: degraded,
        streams_bad: bad,
        dominant_issue,
    }
}

/// Every running stream is counted exactly once, as good, degraded or bad,
/// and the fleet is bad exactly when a running stream is bad or unknown.
pub proof fn law_fleet_counts_partition_running_streams(streams: Seq<StreamHealth>)
    requires
        streams.len() <= u64::MAX,
    ensures
        ({
            let f = fleet_health_spec(streams);
            &&& f.streams_good + f.streams_degraded + f.streams_bad == running_count(streams, any_status())
            &&& running_count(streams, any_status()) <= f.streams_total
            &&& (f.overall_health == HealthStatus::Bad <==> exists|i: int|
                0 <= i < streams.len() && (#[trigger] streams[i]).running && (streams[i].health
                    == HealthStatus::Bad || streams[i].health == HealthStatus::Unknown))
        }),
{
    lemma_counts_sum(streams);
    lemma_running_count_bound(streams, any_status());
    lemma_running_count_bound(streams, is_good());
    lemma_running_count_bound(streams, is_degraded());
    lemma_running_count_bound(streams, is_bad());
    lemma_bad_count_positive(streams);
}

proof fn lemma_counts_sum(streams: Seq<StreamHealth>)
    ensures
        running_count(streams, is_good()) + running_count(streams, is_degraded()) + running_count(
            streams,
            is_bad(),
        ) == running_count(streams, any_status()),
    decreases streams.len(),
{
    if streams.len() > 0 {
        lemma_counts_sum(streams.drop_last());
    }
}

proof fn lemma_bad_count_positive(streams: Seq<StreamHealth>)
    ensures
        running_count(streams, is_bad()) > 0 <==> exists|i: int|
            0 <= i < streams.len() && (#[trigger] streams[i]).running && (streams[i].health
                == HealthStatus::Bad || streams[i].health == HealthStatus::Unknown),
    decreases streams.len(),
{
    if streams.len() > 0 {
        let rest = streams.drop_last();
        lemma_bad_count_positive(rest);
        assert forall|i: int| 0 <= i < rest.len() implies #[trigger] streams[i] == rest[i] by {}
        if running_count(streams, is_bad()) > 0 {
            if !(streams.last().running && is_bad()(streams.last().health)) {
                let i = choose|i: int|
                    0 <= i < rest.len() && (#[trigger] rest[i]).running && (rest[i].health
                        == HealthStatus::Bad || rest[i].health == HealthStatus::Unknown);
                assert(streams[i] == rest[i]);
            } else {
                assert(streams[streams.len() - 1] == streams.last());
            }
        } else {
            assert forall|i: int| 0 <= i < streams.len() && (#[trigger] streams[i]).running implies !(
            streams[i].health == HealthStatus::Bad || streams[i].health == HealthStatus::Unknown) by {
                if i < rest.len() {
                    assert(streams[i] == rest[i]);
                }
            }
        }
    }
}

} // verus!
