//! The registry of pipeline analyses: the configured statistics level and
//! rolling window, the per-pipeline pad statistics, and the snapshot caches
//! that readers share.
use vstd::prelude::*;
use crate::element_probe::{ElementProbe, ProcessingTotals};
use crate::thread_stat::TickLedger;

verus! {

/// Default rolling window of samples per pad.
pub const DEFAULT_WINDOW_SIZE: usize = 900;

/// Largest rolling window allowed.
pub const MAX_WINDOW_SIZE: usize = 50_000;

#[derive(Clone, Copy, Debug, PartialEq, Eq, Structural)]
pub enum StatsLevel {
    /// Cumulative accumulators only.
    Lite,
    /// Raw records in a ring, for distributions.
    Full,
}

pub open spec fn valid_window(size: usize) -> bool {
    1 <= size <= MAX_WINDOW_SIZE
}

pub fn is_valid_window_size(size: usize) -> (r: bool)
    ensures
        r == valid_window(size),
{
    1 <= size && size <= MAX_WINDOW_SIZE
}

/// `size` brought into `[1, MAX_WINDOW_SIZE]`.
pub open spec fn clamp_window_spec(size: usize) -> usize {
    if size < 1 {
        1
    } else if size > MAX_WINDOW_SIZE {
        MAX_WINDOW_SIZE
    } else {
        size
    }
}

pub fn clamp_window_size(size: usize) -> (r: usize)
    ensures
        r == clamp_window_spec(size),
{
    if size < 1 {
        1
    } else if size > MAX_WINDOW_SIZE {
        MAX_WINDOW_SIZE
    } else {
        size
    }
}

/// The statistics kept for one pipeline.
pub struct AnalysisState {
    pub pipeline_name: String,
    /// Whether probes record.
    pub enabled: bool,
    /// The probes of its elements.
    pub elements: Vec<ElementProbe>,
    /// The CPU ticks last read for each of its streaming threads.
    pub thread_ticks: TickLedger,
}

impl AnalysisState {
    /// Every probe is well formed.
    pub open spec fn wf(&self) -> bool {
        forall|k: int| 0 <= k < self.elements@.len() ==> (#[trigger] self.elements@[k]).wf()
    }
}

/// Every analysis of `analyses` is well formed.
pub open spec fn analyses_wf(analyses: Seq<AnalysisState>) -> bool {
    forall|i: int| 0 <= i < analyses.len() ==> (#[trigger] analyses[i]).wf()
}

/// `after` is the probe `before` with every pad's buffer emptied, the
/// threads seen forgotten and the processing totals zero; the same element
/// with the same pads.
pub open spec fn probe_cleared(before: ElementProbe, after: ElementProbe) -> bool {
    &&& after.wf()
    &&& after.spec_element_name() == before.spec_element_name()
    &&& after.spec_sink_pads().len() == before.spec_sink_pads().len()
    &&& after.spec_src_pads().len() == before.spec_src_pads().len()
    &&& forall|i: int|
        0 <= i < after.spec_sink_pads().len() ==> (#[trigger] after.spec_sink_pads()[i]).name
            == before.spec_sink_pads()[i].name && after.spec_sink_pads()[i].buffer.spec_total_buffers() == 0
    &&& forall|i: int|
        0 <= i < after.spec_src_pads().len() ==> (#[trigger] after.spec_src_pads()[i]).name
            == before.spec_src_pads()[i].name && after.spec_src_pads()[i].buffer.spec_total_buffers() == 0
    &&& after.spec_threads() == (0u32, 0u32, 0u32)
    &&& after.spec_last_sink_arrival() == 0
    &&& after.spec_totals() == (ProcessingTotals { sum_ns: 0, count: 0 })
}

/// `after` is the analysis `before` reset: recording enabled, every probe
/// cleared, and no thread's ticks remembered.
pub open spec fn analysis_reset(before: AnalysisState, after: AnalysisState) -> bool {
    &&& after.wf()
    &&& after.pipeline_name == before.pipeline_name
    &&& after.enabled
    &&& after.elements@.len() == before.elements@.len()
    &&& forall|k: int|
        0 <= k < after.elements@.len() ==> probe_cleared(before.elements@[k], #[trigger] after.elements@[k])
    &&& after.thread_ticks@ == Map::<u32, u64>::empty()
}

/// The analyses of the running pipelines, the statistics settings, and
/// whether the shared snapshots are cached.
pub struct AnalysisRegistry {
    stats_level: StatsLevel,
    window_size: usize,
    analyses: Vec<AnalysisState>,
    snapshot_cached: bool,
    json_snapshot_cached: bool,
}

impl AnalysisRegistry {
    pub closed spec fn wf(&self) -> bool {
        &&& valid_window(self.window_size)
        &&& analyses_wf(self.analyses@)
    }

    pub closed spec fn spec_window_size(&self) -> usize {
        self.window_size
    }

    pub closed spec fn spec_stats_level(&self) -> StatsLevel {
        self.stats_level
    }

    pub closed spec fn spec_analyses(&self) -> Seq<AnalysisState> {
        self.analyses@
    }

    /// The registered analyses.
    pub fn analyses(&self) -> (r: &Vec<AnalysisState>)
        ensures
            r@ == self.spec_analyses(),
    {
        &self.analyses
    }

    /// Registers the analysis of a pipeline.
    pub fn add_analysis(&mut self, analysis: AnalysisState)
        requires
            analysis.wf(),
        ensures
            final(self).spec_analyses() == old(self).spec_analyses().push(analysis),
            final(self).wf() == old(self).wf(),
            final(self).spec_window_size() == old(self).spec_window_size(),
            final(self).spec_stats_level() == old(self).spec_stats_level(),
            final(self).spec_snapshot_cached() == old(self).spec_snapshot_cached(),
    {
        let ghost before = self.analyses@;
        self.analyses.push(analysis);
        proof {
            assert(analyses_wf(before) ==> analyses_wf(self.analyses@)) by {
                if analyses_wf(before) {
                    assert forall|i: int| 0 <= i < self.analyses@.len() implies (
                    #[trigger] self.analyses@[i]).wf() by {
                        if i < before.len() {
                            assert(self.analyses@[i] == before[i]);
                        }
                    }
                }
            }
            assert(analyses_wf(self.analyses@) ==> analyses_wf(before)) by {
                if analyses_wf(self.analyses@) {
                    assert forall|i: int| 0 <= i < before.len() implies (#[trigger] before[i]).wf() by {
                        assert(self.analyses@[i] == before[i]);
                    }
                }
            }
        }
    }

    pub closed spec fn spec_snapshot_cached(&self) -> bool {
        self.snapshot_cached || self.json_snapshot_cached
    }

    /// A registry with no analysis, Lite statistics and the default window.
    pub fn new() -> (r: AnalysisRegistry)
        ensures
            r.wf(),
            r.spec_window_size() == DEFAULT_WINDOW_SIZE,
            r.spec_stats_level() == StatsLevel::Lite,
            r.spec_analyses().len() == 0,
            !r.spec_snapshot_cached(),
    {
        AnalysisRegistry {
            stats_level: StatsLevel::Lite,
            window_size: DEFAULT_WINDOW_SIZE,
            analyses: Vec::new(),
            snapshot_cached: false,
            json_snapshot_cached: false,
        }
    }

    /// Marks the shared snapshots as computed.
    pub fn store_snapshot_cache(&mut self)
        ensures
            final(self).spec_snapshot_cached(),
            final(self).wf() == old(self).wf(),
            final(self).spec_window_size() == old(self).spec_window_size(),
            final(self).spec_stats_level() == old(self).spec_stats_level(),
            final(self).spec_analyses() == old(self).spec_analyses(),
    {
        self.snapshot_cached = true;
        self.json_snapshot_cached = true;
    }

    pub fn snapshot_cached(&self) -> (r: bool)
        ensures
            r == self.spec_snapshot_cached(),
    {
        self.snapshot_cached || self.json_snapshot_cached
    }
}

pub fn global_stats_level(registry: &AnalysisRegistry) -> (r: StatsLevel)
    ensures
        r == registry.spec_stats_level(),
{
    registry.stats_level
}

pub fn set_global_stats_level(registry: &mut AnalysisRegistry, level: StatsLevel)
    ensures
        final(registry).spec_stats_level() == level,
        final(registry).wf() == old(registry).wf(),
        final(registry).spec_window_size() == old(registry).spec_window_size(),
        final(registry).spec_snapshot_cached() == old(registry).spec_snapshot_cached(),
        final(registry).spec_analyses() == old(registry).spec_analyses(),
{
    registry.stats_level = level;
}

pub fn global_window_size(registry: &AnalysisRegistry) -> (r: usize)
    requires
        registry.wf(),
    ensures
        r == registry.spec_window_size(),
        valid_window(r),
{
    registry.window_size
}

/// Sets the rolling window, clamped into `[1, MAX_WINDOW_SIZE]`.
pub fn set_global_window_size(registry: &mut AnalysisRegistry, size: usize)
    ensures
        old(registry).wf() ==> final(registry).wf(),
        final(registry).spec_window_size() == clamp_window_spec(size),
        final(registry).spec_stats_level() == old(registry).spec_stats_level(),
        final(registry).spec_snapshot_cached() == old(registry).spec_snapshot_cached(),
        final(registry).spec_analyses() == old(registry).spec_analyses(),
{
    registry.window_size = clamp_window_size(size);
}

/// Drops the shared snapshots, so that the next reader computes them anew.
pub fn invalidate_snapshot_cache(registry: &mut AnalysisRegistry)
    ensures
        !final(registry).spec_snapshot_cached(),
        final(registry).wf() == old(registry).wf(),
        final(registry).spec_window_size() == old(registry).spec_window_size(),
        final(registry).spec_stats_level() == old(registry).spec_stats_level(),
        final(registry).spec_analyses() == old(registry).spec_analyses(),
{
    registry.snapshot_cached = false;
    registry.json_snapshot_cached = false;
}

fn reset_probes(probes: &mut Vec<ElementProbe>)
    requires
        forall|k: int| 0 <= k < old(probes)@.len() ==> (#[trigger] old(probes)@[k]).wf(),
    ensures
        final(probes)@.len() == old(probes)@.len(),
        forall|k: int| 0 <= k < final(probes)@.len() ==> probe_cleared(old(probes)@[k], #[trigger] final(probes)@[k]),
{
    let ghost original = probes@;
    let mut rest: Vec<ElementProbe> = Vec::new();
    std::mem::swap(probes, &mut rest);
    let ghost mut done: int = 0;
    while rest.len() > 0
        invariant
            forall|k: int| 0 <= k < original.len() ==> (#[trigger] original[k]).wf(),
            0 <= done <= original.len(),
            rest@ == original.skip(done),
            probes@.len() == done,
            forall|k: int| 0 <= k < done ==> probe_cleared(original[k], #[trigger] probes@[k]),
        decreases rest@.len(),
    {
        let mut probe = rest.remove(0);
        proof {
            assert(probe == original[done]);
            assert(rest@ =~= original.skip(done + 1));
        }
        probe.reset();
        probes.push(probe);
        proof {
            done = done + 1;
        }
    }
}

/// Resets the statistics of every analysis (each probe's pads, threads and
/// processing totals, and the thread tick ledger), re-enables recording,
/// and drops the shared snapshots.
pub fn reset_all(registry: &mut AnalysisRegistry)
    requires
        old(registry).wf(),
    ensures
        final(registry).wf(),
        !final(registry).spec_snapshot_cached(),
        final(registry).spec_window_size() == old(registry).spec_window_size(),
        final(registry).spec_stats_level() == old(registry).spec_stats_level(),
        final(registry).spec_analyses().len() == old(registry).spec_analyses().len(),
        forall|i: int|
            0 <= i < final(registry).spec_analyses().len() ==> analysis_reset(
                old(registry).spec_analyses()[i],
                #[trigger] final(registry).spec_analyses()[i],
            ),
{
    let mut i: usize = 0;
    while i < registry.analyses.len()
        invariant
            i <= registry.spec_analyses().len(),
            registry.spec_analyses().len() == old(registry).spec_analyses().len(),
            registry.wf(),
            registry.spec_window_size() == old(registry).spec_window_size(),
            registry.spec_stats_level() == old(registry).spec_stats_level(),
            forall|j: int|
                i <= j < registry.spec_analyses().len() ==> #[trigger] registry.spec_analyses()[j] == old(
                    registry,
                ).spec_analyses()[j],
            forall|j: int|
                0 <= j < i ==> analysis_reset(
                    old(registry).spec_analyses()[j],
                    #[trigger] registry.spec_analyses()[j],
                ),
        decreases registry.spec_analyses().len() - i,
    {
        proof {
            assert(registry.analyses@[i as int].wf());
        }
        let mut probes: Vec<ElementProbe> = Vec::new();
        std::mem::swap(&mut probes, &mut registry.analyses[i].elements);
        reset_probes(&mut probes);
        std::mem::swap(&mut probes, &mut registry.analyses[i].elements);
        let mut ticks = TickLedger::new();
        std::mem::swap(&mut ticks, &mut registry.analyses[i].thread_ticks);
        ticks.reset();
        std::mem::swap(&mut ticks, &mut registry.analyses[i].thread_ticks);
        registry.analyses[i].enabled = true;
        proof {
            assert forall|j: int| 0 <= j < registry.analyses@.len() implies (#[trigger] registry.analyses@[j]).wf() by {
                if j != i {
                    assert(registry.analyses@[j] == old(registry).spec_analyses()[j] || j < i);
                }
            }
        }
        i = i + 1;
    }
    invalidate_snapshot_cache(registry);
}

/// How many restart intervals a tracker keeps.
pub const RESTART_HISTORY: usize = 100;

/// The starts of a stream's pipeline over time.
pub struct RestartTracker {
    start_count: u64,
    first_start_ns: u64,
    last_start_ns: u64,
    intervals_ns: Vec<u64>,
}

/// What a restart tracker holds: the starts counted, the first and the
/// latest start time, and the intervals between consecutive starts, oldest
/// first.
pub struct RestartView {
    pub start_count: u64,
    pub first_start_ns: u64,
    pub last_start_ns: u64,
    pub intervals_ns: Seq<u64>,
}

/// `a - b`, or 0 when `b` is later.
pub open spec fn since(a: u64, b: u64) -> u64 {
    if a >= b {
        (a - b) as u64
    } else {
        0
    }
}

/// The last `n` elements of `s` (all of them when there are fewer).
pub open spec fn latest(s: Seq<u64>, n: nat) -> Seq<u64> {
    if s.len() > n {
        s.skip(s.len() - n)
    } else {
        s
    }
}

impl RestartTracker {
    pub closed spec fn view(&self) -> RestartView {
        RestartView {
            start_count: self.start_count,
            first_start_ns: self.first_start_ns,
            last_start_ns: self.last_start_ns,
            intervals_ns: self.intervals_ns@,
        }
    }

    pub closed spec fn wf(&self) -> bool {
        self.intervals_ns@.len() <= RESTART_HISTORY
    }

    /// A tracker of a pipeline that started at `now_ns`.
    pub fn new(now_ns: u64) -> (r: RestartTracker)
        ensures
            r.wf(),
            r.view() == (RestartView {
                start_count: 1,
                first_start_ns: now_ns,
                last_start_ns: now_ns,
                intervals_ns: Seq::empty(),
            }),
    {
        RestartTracker { start_count: 1, first_start_ns: now_ns, last_start_ns: now_ns, intervals_ns: Vec::new() }
    }

    /// Records a start at `now_ns`: the interval since the latest start
    /// joins the history, which keeps the latest `RESTART_HISTORY` of them.
    pub fn record_restart(&mut self, now_ns: u64)
        requires
            old(self).wf(),
            old(self).view().start_count < u64::MAX,
        ensures
            final(self).wf(),
            final(self).view() == (RestartView {
                start_count: (old(self).view().start_count + 1) as u64,
                first_start_ns: old(self).view().first_start_ns,
                last_start_ns: now_ns,
                intervals_ns: latest(
                    old(self).view().intervals_ns.push(since(now_ns, old(self).view().last_start_ns)),
                    RESTART_HISTORY as nat,
                ),
            }),
    {
        let interval = if now_ns >= self.last_start_ns {
            now_ns - self.last_start_ns
        } else {
            0
        };
        let ghost pushed = self.intervals_ns@.push(interval);
        self.intervals_ns.push(interval);
        if self.intervals_ns.len() > RESTART_HISTORY {
            self.intervals_ns.remove(0);
            proof {
                assert(self.intervals_ns@ =~= pushed.skip(pushed.len() - RESTART_HISTORY));
            }
        }
        self.last_start_ns = now_ns;
        self.start_count = self.start_count + 1;
        proof {
            assert(self.intervals_ns@ =~= latest(pushed, RESTART_HISTORY as nat));
        }
    }

    /// The counts and times a snapshot reports at `now_ns`.
    pub fn snapshot(&self, now_ns: u64) -> (r: RestartCounts)
        requires
            self.wf(),
        ensures
            r.start_count == self.view().start_count,
            r.restart_count == since(self.view().start_count, 1),
            r.current_uptime_ns == since(now_ns, self.view().last_start_ns),
            r.total_tracked_ns == since(now_ns, self.view().first_start_ns),
            r.interval_count == self.view().intervals_ns.len(),
            r.interval_sum_ns == sum_u64(self.view().intervals_ns),
            r.min_interval_ns == min_u64(self.view().intervals_ns),
            r.last_interval_ns == (if self.view().intervals_ns.len() == 0 {
                0
            } else {
                self.view().intervals_ns.last()
            }),
    {
        let n = self.intervals_ns.len();
        let mut sum: u128 = 0;
        let mut min: u64 = 0;
        let mut k: usize = 0;
        while k < n
            invariant
                n == self.intervals_ns@.len(),
                n <= RESTART_HISTORY,
                k <= n,
                sum == sum_u64(self.intervals_ns@.take(k as int)),
                sum <= k * u64::MAX,
                min == min_u64(self.intervals_ns@.take(k as int)),
            decreases n - k,
        {
            proof {
                assert(self.intervals_ns@.take(k + 1).drop_last() =~= self.intervals_ns@.take(k as int));
                assert((k + 1) * u64::MAX <= u128::MAX) by (nonlinear_arith)
                    requires
                        k < 100,
                ;
                assert(k * u64::MAX + u64::MAX == (k + 1) * u64::MAX) by (nonlinear_arith);
            }
            let v = self.intervals_ns[k];
            sum = sum + v as u128;
            if k == 0 || v < min {
                min = v;
            }
            k = k + 1;
        }
        proof {
            assert(self.intervals_ns@.take(n as int) =~= self.intervals_ns@);
        }
        RestartCounts {
            start_count: self.start_count,
            restart_count: if self.start_count >= 1 {
                self.start_count - 1
            } else {
                0
            },
            current_uptime_ns: if now_ns >= self.last_start_ns {
                now_ns - self.last_start_ns
            } else {
                0
            },
            total_tracked_ns: if now_ns >= self.first_start_ns {
                now_ns - self.first_start_ns
            } else {
                0
            },
            interval_count: n,
            interval_sum_ns: sum,
            min_interval_ns: min,
            last_interval_ns: if n == 0 {
                0
            } else {
                self.intervals_ns[n - 1]
            },
        }
    }
}

/// The sum of the values.
pub open spec fn sum_u64(s: Seq<u64>) -> int
    decreases s.len(),
{
    if s.len() == 0 {
        0
    } else {
        sum_u64(s.drop_last()) + s.last()
    }
}

/// The least of the values; 0 when there are none.
pub open spec fn min_u64(s: Seq<u64>) -> u64
    decreases s.len(),
{
    if s.len() == 0 {
        0
    } else if s.len() == 1 {
        s[0]
    } else {
        let prev = min_u64(s.drop_last());
        if s.last() < prev {
            s.last()
        } else {
            prev
        }
    }
}

/// A restart tracker's report in integers: the mean interval is the sum
/// over the count.
pub struct RestartCounts {
    pub start_count: u64,
    pub restart_count: u64,
    pub current_uptime_ns: u64,
    pub total_tracked_ns: u64,
    pub interval_count: usize,
    pub interval_sum_ns: u128,
    pub min_interval_ns: u64,
    pub last_interval_ns: u64,
}

/// However many times a pipeline restarts, its tracker keeps at most
/// `RESTART_HISTORY` intervals, and they are the latest ones: the one just
/// measured comes last.
pub proof fn law_restart_history_keeps_latest(intervals: Seq<u64>, interval: u64)
    requires
        intervals.len() <= RESTART_HISTORY,
    ensures
        latest(intervals.push(interval), RESTART_HISTORY as nat).len() <= RESTART_HISTORY,
        latest(intervals.push(interval), RESTART_HISTORY as nat).last() == interval,
        forall|k: int|
            0 <= k < latest(intervals.push(interval), RESTART_HISTORY as nat).len() - 1 ==> #[trigger] latest(
                intervals.push(interval),
                RESTART_HISTORY as nat,
            )[k] == intervals[intervals.len() - (latest(intervals.push(interval), RESTART_HISTORY as nat).len() - 1)
                + k],
{
}

} // verus!
