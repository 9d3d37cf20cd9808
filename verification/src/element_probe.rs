//! Per-pad buffer statistics kept as cumulative accumulators.
//!
//! Statistics are obtained by differentiating two readings taken at
//! different times: the mean interval is the difference of the interval sums
//! over the difference of the interval counts, the variance comes from the
//! sums of squares, throughput from the count difference over the elapsed
//! time. The sums wrap around on overflow, as the atomic counters of the
//! streaming threads do; the squares saturate.
use vstd::prelude::*;
use crate::pipeline_stats::StatsLevel;
use crate::text::str_eq;

verus! {

/// Divisor applied to buffer sizes before squaring them in the size
/// variance accumulator; larger values give more headroom before overflow at
/// the cost of quantisation (raw 8K NV12 at 100 fps accumulates for about
/// 2.5 years).
pub const SIZE_COARSEN_DIVISOR: u64 = 1024;

/// `x * y`, or `u64::MAX` when the product does not fit.
pub open spec fn sat_mul(x: u64, y: u64) -> u64 {
    if x * y > u64::MAX {
        u64::MAX
    } else {
        (x * y) as u64
    }
}

pub fn saturating_mul(x: u64, y: u64) -> (r: u64)
    ensures
        r == sat_mul(x, y),
{
    match x.checked_mul(y) {
        Some(p) => p,
        None => u64::MAX,
    }
}

/// Lowers `current` to `value` when `value` is smaller.
pub fn atomic_fetch_min(current: &mut u64, value: u64)
    ensures
        *final(current) == if value < *old(current) {
            value
        } else {
            *old(current)
        },
{
    if value < *current {
        *current = value;
    }
}

/// Raises `current` to `value` when `value` is larger.
pub fn atomic_fetch_max(current: &mut u64, value: u64)
    ensures
        *final(current) == if value > *old(current) {
            value
        } else {
            *old(current)
        },
{
    if value > *current {
        *current = value;
    }
}

/// Buffer statistics of one pad, in O(1) memory.
pub struct LitePadBuffer {
    /// Sum of inter-buffer intervals (ns).
    sum_interval_ns: u64,
    /// Sum of squared intervals in µs² (kept in µs so that the squares fit).
    sum_interval_sq_us: u64,
    /// Sum of buffer sizes (bytes).
    sum_size_bytes: u64,
    /// Sum of squared coarsened sizes, `(size / SIZE_COARSEN_DIVISOR)²`.
    sum_size_sq_units: u64,
    /// Smallest interval seen (ns); `u64::MAX` before the second buffer.
    min_interval_ns: u64,
    /// Largest interval seen (ns).
    max_interval_ns: u64,
    total_buffers: u64,
    total_keyframes: u64,
    total_delta_frames: u64,
    /// Wall-clock time of the latest buffer (ns since the epoch).
    last_wall_ns: u64,
    /// Wall-clock time of the previous buffer, 0 before the first.
    prev_wall_ns: u64,
}

/// The model of the accumulators, field by field.
pub struct LitePadView {
    pub sum_interval_ns: u64,
    pub sum_interval_sq_us: u64,
    pub sum_size_bytes: u64,
    pub sum_size_sq_units: u64,
    pub min_interval_ns: u64,
    pub max_interval_ns: u64,
    pub total_buffers: u64,
    pub total_keyframes: u64,
    pub total_delta_frames: u64,
    pub last_wall_ns: u64,
    pub prev_wall_ns: u64,
}

/// The accumulators of a pad that has seen no buffer.
pub open spec fn empty_pad() -> LitePadView {
    LitePadView {
        sum_interval_ns: 0,
        sum_interval_sq_us: 0,
        sum_size_bytes: 0,
        sum_size_sq_units: 0,
        min_interval_ns: u64::MAX,
        max_interval_ns: 0,
        total_buffers: 0,
        total_keyframes: 0,
        total_delta_frames: 0,
        last_wall_ns: 0,
        prev_wall_ns: 0,
    }
}

/// The accumulators after a buffer of `size` bytes seen at `wall_ns`. The
/// first buffer (previous time 0) adds no interval; a clock that went back
/// gives an interval of 0.
pub open spec fn record_spec(v: LitePadView, wall_ns: u64, size: u32, is_keyframe: bool) -> LitePadView {
    let prev = v.prev_wall_ns;
    let interval: u64 = if wall_ns >= prev {
        (wall_ns - prev) as u64
    } else {
        0
    };
    let interval_us: u64 = interval / 1000;
    let unit: u64 = (size as u64) / SIZE_COARSEN_DIVISOR;
    LitePadView {
        sum_interval_ns: if prev > 0 {
            v.sum_interval_ns.wrapping_add(interval)
        } else {
            v.sum_interval_ns
        },
        sum_interval_sq_us: if prev > 0 {
            v.sum_interval_sq_us.wrapping_add(sat_mul(interval_us, interval_us))
        } else {
            v.sum_interval_sq_us
        },
        sum_size_bytes: v.sum_size_bytes.wrapping_add(size as u64),
        sum_size_sq_units: v.sum_size_sq_units.wrapping_add(sat_mul(unit, unit)),
        min_interval_ns: if prev > 0 && interval < v.min_interval_ns {
            interval
        } else {
            v.min_interval_ns
        },
        max_interval_ns: if prev > 0 && interval > v.max_interval_ns {
            interval
        } else {
            v.max_interval_ns
        },
        total_buffers: v.total_buffers.wrapping_add(1),
        total_keyframes: if is_keyframe {
            v.total_keyframes.wrapping_add(1)
        } else {
            v.total_keyframes
        },
        total_delta_frames: if is_keyframe {
            v.total_delta_frames
        } else {
            v.total_delta_frames.wrapping_add(1)
        },
        last_wall_ns: wall_ns,
        prev_wall_ns: wall_ns,
    }
}

impl View for LitePadBuffer {
    type V = LitePadView;

    closed spec fn view(&self) -> LitePadView {
        LitePadView {
            sum_interval_ns: self.sum_interval_ns,
            sum_interval_sq_us: self.sum_interval_sq_us,
            sum_size_bytes: self.sum_size_bytes,
            sum_size_sq_units: self.sum_size_sq_units,
            min_interval_ns: self.min_interval_ns,
            max_interval_ns: self.max_interval_ns,
            total_buffers: self.total_buffers,
            total_keyframes: self.total_keyframes,
            total_delta_frames: self.total_delta_frames,
            last_wall_ns: self.last_wall_ns,
            prev_wall_ns: self.prev_wall_ns,
        }
    }
}

impl Default for LitePadBuffer {
    /// A buffer that has seen nothing, as [`LitePadBuffer::new`] makes it.
    fn default() -> (r: LitePadBuffer)
        ensures
            r@ == empty_pad(),
    {
        LitePadBuffer::new()
    }
}

impl LitePadBuffer {
    pub fn new() -> (r: LitePadBuffer)
        ensures
            r@ == empty_pad(),
    {
        LitePadBuffer {
            sum_interval_ns: 0,
            sum_interval_sq_us: 0,
            sum_size_bytes: 0,
            sum_size_sq_units: 0,
            min_interval_ns: u64::MAX,
            max_interval_ns: 0,
            total_buffers: 0,
            total_keyframes: 0,
            total_delta_frames: 0,
            last_wall_ns: 0,
            prev_wall_ns: 0,
        }
    }

    /// Records a buffer of `size` bytes seen at `wall_ns`; a keyframe when
    /// `is_keyframe`.
    pub fn record(&mut self, wall_ns: u64, size: u32, is_keyframe: bool)
        ensures
            final(self)@ == record_spec(old(self)@, wall_ns, size, is_keyframe),
    {
        let prev = self.prev_wall_ns;
        self.prev_wall_ns = wall_ns;
        if prev > 0 {
            let interval = wall_ns.saturating_sub(prev);
            self.sum_interval_ns = self.sum_interval_ns.wrapping_add(interval);
            let interval_us = interval / 1000;
            self.sum_interval_sq_us = self.sum_interval_sq_us.wrapping_add(
                saturating_mul(interval_us, interval_us),
            );
            atomic_fetch_min(&mut self.min_interval_ns, interval);
            atomic_fetch_max(&mut self.max_interval_ns, interval);
        }
        let sz = size as u64;
        self.sum_size_bytes = self.sum_size_bytes.wrapping_add(sz);
        let sz_unit = sz / SIZE_COARSEN_DIVISOR;
        self.sum_size_sq_units = self.sum_size_sq_units.wrapping_add(saturating_mul(sz_unit, sz_unit));
        self.last_wall_ns = wall_ns;
        self.total_buffers = self.total_buffers.wrapping_add(1);
        if is_keyframe {
            self.total_keyframes = self.total_keyframes.wrapping_add(1);
        } else {
            self.total_delta_frames = self.total_delta_frames.wrapping_add(1);
        }
    }

    /// Resets all accumulators and counters.
    pub fn reset(&mut self)
        ensures
            final(self)@ == empty_pad(),
    {
        self.sum_interval_ns = 0;
        self.sum_interval_sq_us = 0;
        self.sum_size_bytes = 0;
        self.sum_size_sq_units = 0;
        self.min_interval_ns = u64::MAX;
        self.max_interval_ns = 0;
        self.total_buffers = 0;
        self.total_keyframes = 0;
        self.total_delta_frames = 0;
        self.last_wall_ns = 0;
        self.prev_wall_ns = 0;
    }

    /// Number of intervals seen: one less than the buffers (none for the first).
    pub fn interval_count(&self) -> (r: u64)
        ensures
            r == (if self@.total_buffers > 0 {
                self@.total_buffers - 1
            } else {
                0
            }),
    {
        self.total_buffers.saturating_sub(1)
    }

    pub fn total_buffers(&self) -> (r: u64)
        ensures
            r == self@.total_buffers,
    {
        self.total_buffers
    }

    pub fn total_keyframes(&self) -> (r: u64)
        ensures
            r == self@.total_keyframes,
    {
        self.total_keyframes
    }

    pub fn total_delta_frames(&self) -> (r: u64)
        ensures
            r == self@.total_delta_frames,
    {
        self.total_delta_frames
    }

    pub fn last_wall_ns(&self) -> (r: u64)
        ensures
            r == self@.last_wall_ns,
    {
        self.last_wall_ns
    }

    pub fn sum_interval_ns(&self) -> (r: u64)
        ensures
            r == self@.sum_interval_ns,
    {
        self.sum_interval_ns
    }

    pub fn sum_interval_sq_us(&self) -> (r: u64)
        ensures
            r == self@.sum_interval_sq_us,
    {
        self.sum_interval_sq_us
    }

    pub fn sum_size_bytes(&self) -> (r: u64)
        ensures
            r == self@.sum_size_bytes,
    {
        self.sum_size_bytes
    }

    pub fn sum_size_sq_units(&self) -> (r: u64)
        ensures
            r == self@.sum_size_sq_units,
    {
        self.sum_size_sq_units
    }

    pub fn min_interval_ns(&self) -> (r: u64)
        ensures
            r == self@.min_interval_ns,
    {
        self.min_interval_ns
    }

    pub fn max_interval_ns(&self) -> (r: u64)
        ensures
            r == self@.max_interval_ns,
    {
        self.max_interval_ns
    }
}

/// One slot of a pad's ring of raw observations.
pub struct BufferRecord {
    pub wall_ns: u64,
    /// Presentation time, `u64::MAX` when the buffer had none.
    pub pts_ns: u64,
    pub size: u32,
    /// Bit 0: keyframe.
    pub flags: u8,
}

impl BufferRecord {
    /// A slot that holds no observation yet.
    pub fn new_empty() -> (r: BufferRecord)
        ensures
            r.wall_ns == 0 && r.pts_ns == u64::MAX && r.size == 0 && r.flags == 0,
    {
        BufferRecord { wall_ns: 0, pts_ns: u64::MAX, size: 0, flags: 0 }
    }
}


/// A raw observation read back from a pad's ring.
#[derive(Clone, Copy, Debug, PartialEq, Eq, Structural)]
pub struct RawRecord {
    pub wall_ns: u64,
    pub pts_ns: Option<u64>,
    pub size: u32,
    pub is_keyframe: bool,
}

/// The observation that recording these values leaves in the ring: a
/// presentation time of `u64::MAX` is the ring's mark for none.
pub open spec fn observed(wall_ns: u64, pts_ns: Option<u64>, size: u32, is_keyframe: bool) -> RawRecord {
    RawRecord {
        wall_ns,
        pts_ns: if pts_ns == Some(u64::MAX) {
            None
        } else {
            pts_ns
        },
        size,
        is_keyframe,
    }
}

/// The observation a slot holds.
pub open spec fn decoded(slot: BufferRecord) -> RawRecord {
    RawRecord {
        wall_ns: slot.wall_ns,
        pts_ns: if slot.pts_ns == u64::MAX {
            None
        } else {
            Some(slot.pts_ns)
        },
        size: slot.size,
        is_keyframe: slot.flags & 1 != 0,
    }
}

/// The observations of `s` with a wall-clock time, in order (a slot never
/// written has time 0).
pub open spec fn stamped(s: Seq<RawRecord>) -> Seq<RawRecord>
    decreases s.len(),
{
    if s.len() == 0 {
        Seq::empty()
    } else if s.last().wall_ns == 0 {
        stamped(s.drop_last())
    } else {
        stamped(s.drop_last()).push(s.last())
    }
}

/// Index of the oldest of the last `capacity` observations of `history`.
pub open spec fn window_start(len: nat, capacity: nat) -> nat {
    if len > capacity {
        (len - capacity) as nat
    } else {
        0
    }
}

/// What the ring gives back: the last `capacity` observations, oldest
/// first, without those that have no wall-clock time.
pub open spec fn window_records(history: Seq<RawRecord>, capacity: nat) -> Seq<RawRecord> {
    stamped(history.subrange(window_start(history.len(), capacity) as int, history.len() as int))
}

/// Number of keyframes among `s`.
pub open spec fn keyframe_count(s: Seq<RawRecord>) -> nat
    decreases s.len(),
{
    if s.len() == 0 {
        0
    } else {
        keyframe_count(s.drop_last()) + if s.last().is_keyframe {
            1nat
        } else {
            0nat
        }
    }
}

proof fn lemma_keyframe_count_bound(s: Seq<RawRecord>)
    ensures
        keyframe_count(s) <= s.len(),
    decreases s.len(),
{
    if s.len() > 0 {
        lemma_keyframe_count_bound(s.drop_last());
    }
}

proof fn lemma_distinct_slots(i: int, j: int, capacity: int)
    requires
        0 <= i < j,
        j - i < capacity,
    ensures
        i % capacity != j % capacity,
{
    vstd::arithmetic::div_mod::lemma_fundamental_div_mod(i, capacity);
    vstd::arithmetic::div_mod::lemma_fundamental_div_mod(j, capacity);
    let qi = i / capacity;
    let qj = j / capacity;
    if i % capacity == j % capacity {
        assert(j - i == (qj - qi) * capacity) by (nonlinear_arith)
            requires
                i == capacity * qi + i % capacity,
                j == capacity * qj + j % capacity,
                i % capacity == j % capacity,
        ;
        if qj - qi >= 1 {
            assert((qj - qi) * capacity >= capacity) by (nonlinear_arith)
                requires
                    qj - qi >= 1,
                    capacity > 0,
            ;
        } else {
            assert((qj - qi) * capacity <= 0) by (nonlinear_arith)
                requires
                    qj - qi <= 0,
                    capacity > 0,
            ;
        }
    }
}

/// The observations a pad has seen since its ring was made or reset, and
/// the ring's capacity.
pub struct FullPadView {
    pub history: Seq<RawRecord>,
    pub capacity: nat,
}

/// What a snapshot of a ring reads: the counters and the observations the
/// ring still holds.
pub struct FullPadSnapshot {
    pub total_buffers: u64,
    pub total_keyframes: u64,
    pub total_delta_frames: u64,
    pub last_wall_ns: u64,
    pub records: Vec<RawRecord>,
}

/// Buffer statistics of one pad, as a ring of the last raw observations.
pub struct FullPadBuffer {
    ring: Vec<BufferRecord>,
    /// Number of observations written; the next goes to slot
    /// `write_cursor % capacity`.
    write_cursor: usize,
    capacity: usize,
    total_buffers: u64,
    total_keyframes: u64,
    total_delta_frames: u64,
    last_wall_ns: u64,
    /// The records read at some cursor value, reused while the cursor has
    /// not moved.
    cached_records: Option<(usize, Vec<RawRecord>)>,
    history: Ghost<Seq<RawRecord>>,
}

impl View for FullPadBuffer {
    type V = FullPadView;

    closed spec fn view(&self) -> FullPadView {
        FullPadView { history: self.history@, capacity: self.capacity as nat }
    }
}

impl FullPadBuffer {
    pub closed spec fn wf(&self) -> bool {
        let h = self.history@;
        let cap = self.capacity as int;
        &&& self.ring@.len() == self.capacity
        &&& h.len() == self.write_cursor
        &&& self.capacity == 0 ==> self.write_cursor == 0
        &&& forall|i: int|
            window_start(h.len(), self.capacity as nat) <= i < h.len() ==> decoded(
                #[trigger] self.ring@[i % cap],
            ) == h[i]
        &&& self.total_buffers == h.len()
        &&& self.total_keyframes == keyframe_count(h)
        &&& self.total_delta_frames == h.len() - keyframe_count(h)
        &&& self.last_wall_ns == if h.len() > 0 {
            h.last().wall_ns
        } else {
            0
        }
        &&& match self.cached_records {
            Some((generation, records)) => generation <= self.write_cursor && (generation
                == self.write_cursor ==> records@ == window_records(h, self.capacity as nat)),
            None => true,
        }
    }

    /// An empty ring of `capacity` slots.
    pub fn new(capacity: usize) -> (r: FullPadBuffer)
        ensures
            r.wf(),
            r@.history == Seq::<RawRecord>::empty(),
            r@.capacity == capacity,
    {
        let mut ring: Vec<BufferRecord> = Vec::new();
        let mut i: usize = 0;
        while i < capacity
            invariant
                i <= capacity,
                ring@.len() == i,
            decreases capacity - i,
        {
            ring.push(BufferRecord::new_empty());
            i = i + 1;
        }
        FullPadBuffer {
            ring,
            write_cursor: 0,
            capacity,
            total_buffers: 0,
            total_keyframes: 0,
            total_delta_frames: 0,
            last_wall_ns: 0,
            cached_records: None,
            history: Ghost(Seq::empty()),
        }
    }

    /// Records an observation, overwriting the oldest once the ring is full.
    pub fn record(&mut self, wall_ns: u64, pts_ns: Option<u64>, size: u32, is_keyframe: bool)
        requires
            old(self).wf(),
            old(self)@.capacity > 0,
            old(self)@.history.len() < usize::MAX,
        ensures
            final(self).wf(),
            final(self)@.history == old(self)@.history.push(observed(wall_ns, pts_ns, size, is_keyframe)),
            final(self)@.capacity == old(self)@.capacity,
    {
        let ghost old_h = self.history@;
        let ghost rec = observed(wall_ns, pts_ns, size, is_keyframe);
        let idx = self.write_cursor;
        let slot = idx % self.capacity;
        let flags: u8 = if is_keyframe {
            1
        } else {
            0
        };
        let stored_pts: u64 = match pts_ns {
            Some(p) => p,
            None => u64::MAX,
        };
        self.ring.set(slot, BufferRecord { wall_ns, pts_ns: stored_pts, size, flags });
        proof {
            assert(1u8 & 1 != 0 && 0u8 & 1 == 0) by (bit_vector);
            assert(decoded(self.ring@[slot as int]) == rec);
            lemma_keyframe_count_bound(old_h);
        }
        self.write_cursor = idx + 1;
        self.total_buffers = self.total_buffers + 1;
        if is_keyframe {
            self.total_keyframes = self.total_keyframes + 1;
        } else {
            self.total_delta_frames = self.total_delta_frames + 1;
        }
        self.last_wall_ns = wall_ns;
        self.history = Ghost(old_h.push(rec));
        proof {
            let h = self.history@;
            let cap = self.capacity as int;
            assert(h.drop_last() =~= old_h);
            assert forall|i: int| window_start(h.len(), self.capacity as nat) <= i < h.len() implies decoded(
                #[trigger] self.ring@[i % cap],
            ) == h[i] by {
                if i < idx {
                    lemma_distinct_slots(i, idx as int, cap);
                    assert(self.ring@[i % cap] == old(self).ring@[i % cap]);
                }
            }
        }
    }

    /// The last `capacity` observations, oldest first, without those that
    /// have no wall-clock time.
    pub fn read_records(&self) -> (r: Vec<RawRecord>)
        requires
            self.wf(),
        ensures
            r@ == window_records(self@.history, self@.capacity),
    {
        let ghost h = self.history@;
        let cursor = self.write_cursor;
        let mut records: Vec<RawRecord> = Vec::new();
        if cursor == 0 {
            proof {
                assert(h.subrange(0, 0) =~= Seq::<RawRecord>::empty());
            }
            return records;
        }
        let start = cursor.saturating_sub(self.capacity);
        let mut i = start;
        proof {
            assert(h.subrange(start as int, start as int) =~= Seq::<RawRecord>::empty());
        }
        while i < cursor
            invariant
                self.wf(),
                h == self.history@,
                cursor == self.write_cursor,
                cursor > 0,
                start == window_start(h.len(), self.capacity as nat),
                start <= i <= cursor,
                records@ == stamped(h.subrange(start as int, i as int)),
            decreases cursor - i,
        {
            let slot = &self.ring[i % self.capacity];
            proof {
                assert(decoded(*slot) == h[i as int]);
                assert(h.subrange(start as int, i + 1).drop_last() =~= h.subrange(start as int, i as int));
            }
            if slot.wall_ns != 0 {
                let pts = if slot.pts_ns == u64::MAX {
                    None
                } else {
                    Some(slot.pts_ns)
                };
                records.push(
                    RawRecord {
                        wall_ns: slot.wall_ns,
                        pts_ns: pts,
                        size: slot.size,
                        is_keyframe: slot.flags & 1 != 0,
                    },
                );
            }
            i = i + 1;
        }
        records
    }

    /// The counters and the records the ring holds. The records are read
    /// again only when something was recorded since the last snapshot.
    pub fn snapshot(&mut self) -> (r: FullPadSnapshot)
        requires
            old(self).wf(),
        ensures
            final(self).wf(),
            final(self)@ == old(self)@,
            r.records@ == window_records(old(self)@.history, old(self)@.capacity),
            r.total_buffers == old(self)@.history.len(),
            r.total_keyframes == keyframe_count(old(self)@.history),
            r.total_delta_frames == old(self)@.history.len() - keyframe_count(old(self)@.history),
            r.last_wall_ns == if old(self)@.history.len() > 0 {
                old(self)@.history.last().wall_ns
            } else {
                0
            },
    {
        let current = self.write_cursor;
        let records = match &self.cached_records {
            Some((generation, cached)) if *generation == current => copy_records(cached),
            _ => {
                let fresh = self.read_records();
                self.cached_records = Some((current, copy_records(&fresh)));
                fresh
            },
        };
        FullPadSnapshot {
            total_buffers: self.total_buffers,
            total_keyframes: self.total_keyframes,
            total_delta_frames: self.total_delta_frames,
            last_wall_ns: self.last_wall_ns,
            records,
        }
    }

    /// Clears the ring, the counters and the cached records.
    pub fn reset(&mut self)
        requires
            old(self).wf(),
        ensures
            final(self).wf(),
            final(self)@.history == Seq::<RawRecord>::empty(),
            final(self)@.capacity == old(self)@.capacity,
    {
        let mut i: usize = 0;
        while i < self.ring.len()
            invariant
                self.ring@.len() == self.capacity,
                self.capacity == old(self).capacity,
                i <= self.ring@.len(),
            decreases self.ring@.len() - i,
        {
            self.ring.set(i, BufferRecord::new_empty());
            i = i + 1;
        }
        self.write_cursor = 0;
        self.total_buffers = 0;
        self.total_keyframes = 0;
        self.total_delta_frames = 0;
        self.last_wall_ns = 0;
        self.cached_records = None;
        self.history = Ghost(Seq::empty());
    }

    pub fn capacity(&self) -> (r: usize)
        ensures
            r == self@.capacity,
    {
        self.capacity
    }

    pub fn total_buffers(&self) -> (r: u64)
        requires
            self.wf(),
        ensures
            r == self@.history.len(),
    {
        self.total_buffers
    }

    pub fn total_keyframes(&self) -> (r: u64)
        requires
            self.wf(),
        ensures
            r == keyframe_count(self@.history),
    {
        self.total_keyframes
    }

    pub fn total_delta_frames(&self) -> (r: u64)
        requires
            self.wf(),
        ensures
            r == self@.history.len() - keyframe_count(self@.history),
    {
        self.total_delta_frames
    }

    pub fn last_wall_ns(&self) -> (r: u64)
        requires
            self.wf(),
        ensures
            r == if self@.history.len() > 0 {
                self@.history.last().wall_ns
            } else {
                0
            },
    {
        self.last_wall_ns
    }
}

fn copy_records(records: &Vec<RawRecord>) -> (r: Vec<RawRecord>)
    ensures
        r@ == records@,
{
    let mut out: Vec<RawRecord> = Vec::new();
    let mut i: usize = 0;
    while i < records.len()
        invariant
            i <= records@.len(),
            out@ == records@.take(i as int),
        decreases records@.len() - i,
    {
        out.push(records[i]);
        proof {
            assert(records@.take(i + 1) =~= records@.take(i as int).push(records@[i as int]));
        }
        i = i + 1;
    }
    proof {
        assert(records@.take(i as int) =~= records@);
    }
    out
}


/// Every observation of `s` has a wall-clock time.
pub open spec fn all_stamped(s: Seq<RawRecord>) -> bool {
    forall|i: int| 0 <= i < s.len() ==> (#[trigger] s[i]).wall_ns != 0
}

proof fn lemma_stamped_all(s: Seq<RawRecord>)
    requires
        all_stamped(s),
    ensures
        stamped(s) == s,
    decreases s.len(),
{
    if s.len() > 0 {
        assert(all_stamped(s.drop_last()));
        lemma_stamped_all(s.drop_last());
        assert(s.drop_last().push(s.last()) =~= s);
    }
}

/// A ring gives back the last `capacity` observations in the order they
/// were recorded (all of them while it has not wrapped); the ones before
/// are gone.
pub proof fn law_ring_keeps_latest(history: Seq<RawRecord>, capacity: nat)
    requires
        all_stamped(history),
    ensures
        window_records(history, capacity) == history.subrange(
            window_start(history.len(), capacity) as int,
            history.len() as int,
        ),
        window_records(history, capacity).len() == if history.len() < capacity {
            history.len()
        } else {
            capacity
        },
{
    let w = history.subrange(window_start(history.len(), capacity) as int, history.len() as int);
    assert(all_stamped(w));
    lemma_stamped_all(w);
}

/// Keyframes and delta frames add up to the buffers recorded.
pub open spec fn counts_balanced(v: LitePadView) -> bool {
    v.total_buffers == v.total_keyframes.wrapping_add(v.total_delta_frames)
}

/// The smallest interval is at most the largest once one was recorded;
/// before, both hold their initial values.
pub open spec fn interval_bounds_ordered(v: LitePadView) -> bool {
    (v.min_interval_ns == u64::MAX && v.max_interval_ns == 0) || v.min_interval_ns <= v.max_interval_ns
}

/// The accumulators of an empty pad are balanced and ordered, and every
/// recorded buffer keeps them so: each buffer is counted once, as a
/// keyframe or as a delta frame, and the interval extremes bracket every
/// interval seen.
pub proof fn law_lite_record_keeps_invariants(v: LitePadView, wall_ns: u64, size: u32, is_keyframe: bool)
    ensures
        counts_balanced(empty_pad()),
        interval_bounds_ordered(empty_pad()),
        counts_balanced(v) ==> counts_balanced(record_spec(v, wall_ns, size, is_keyframe)),
        interval_bounds_ordered(v) ==> interval_bounds_ordered(record_spec(v, wall_ns, size, is_keyframe)),
{
    let t = v.total_buffers;
    let k = v.total_keyframes;
    let d = v.total_delta_frames;
    assert(counts_balanced(v) ==> t.wrapping_add(1) == k.wrapping_add(1).wrapping_add(d)) by {
        if t == k.wrapping_add(d) {
            assert(t == k.wrapping_add(d) ==> t.wrapping_add(1) == k.wrapping_add(1).wrapping_add(d))
                by (bit_vector);
        }
    }
    assert(counts_balanced(v) ==> t.wrapping_add(1) == k.wrapping_add(d.wrapping_add(1))) by {
        if t == k.wrapping_add(d) {
            assert(t == k.wrapping_add(d) ==> t.wrapping_add(1) == k.wrapping_add(d.wrapping_add(1)))
                by (bit_vector);
        }
    }
}


/// The accumulators of a pad that has seen the observations of `history`
/// (wall time, size, keyframe), oldest first, since it was made or reset.
pub open spec fn lite_after(history: Seq<(u64, u32, bool)>) -> LitePadView
    decreases history.len(),
{
    if history.len() == 0 {
        empty_pad()
    } else {
        let o = history.last();
        record_spec(lite_after(history.drop_last()), o.0, o.1, o.2)
    }
}

/// The intervals between consecutive observations of `history`, summed; an
/// observation earlier than the one before it adds 0.
pub open spec fn interval_sum(history: Seq<(u64, u32, bool)>) -> nat
    decreases history.len(),
{
    if history.len() <= 1 {
        0
    } else {
        let prev = history[history.len() - 2].0;
        let wall = history.last().0;
        interval_sum(history.drop_last()) + (if wall >= prev {
            (wall - prev) as nat
        } else {
            0nat
        })
    }
}

/// The squares of the coarsened sizes of `history`, summed.
pub open spec fn size_sq_sum(history: Seq<(u64, u32, bool)>) -> nat
    decreases history.len(),
{
    if history.len() == 0 {
        0
    } else {
        let unit = history.last().1 / 1024;
        size_sq_sum(history.drop_last()) + (unit * unit) as nat
    }
}

/// Every observation is counted once: after any history that fits the
/// counters, the buffers recorded are its length, and keyframes and delta
/// frames add up to them.
pub proof fn law_lite_counts_add_up(history: Seq<(u64, u32, bool)>)
    requires
        history.len() <= u64::MAX,
    ensures
        lite_after(history).total_buffers == history.len(),
        lite_after(history).total_keyframes + lite_after(history).total_delta_frames == history.len(),
    decreases history.len(),
{
    if history.len() > 0 {
        law_lite_counts_add_up(history.drop_last());
    }
}

/// With every wall time after the epoch, the interval accumulator holds the
/// intervals between consecutive observations, one fewer than the buffers
/// recorded (while their sum fits in 64 bits), and the previous time is the
/// latest observation's.
pub proof fn law_lite_sums_consecutive_intervals(history: Seq<(u64, u32, bool)>)
    requires
        forall|i: int| 0 <= i < history.len() ==> (#[trigger] history[i]).0 > 0,
        interval_sum(history) <= u64::MAX,
    ensures
        lite_after(history).sum_interval_ns == interval_sum(history),
        history.len() > 0 ==> lite_after(history).prev_wall_ns == history.last().0,
        history.len() == 0 ==> lite_after(history).prev_wall_ns == 0,
    decreases history.len(),
{
    if history.len() > 0 {
        let rest = history.drop_last();
        assert forall|i: int| 0 <= i < rest.len() implies (#[trigger] rest[i]).0 > 0 by {
            assert(rest[i] == history[i]);
        }
        if rest.len() > 1 {
            assert(rest[rest.len() - 2] == history[history.len() - 3]);
        }
        law_lite_sums_consecutive_intervals(rest);
        if rest.len() > 0 {
            assert(rest.last() == history[history.len() - 2]);
        }
    }
}

/// The size-variance accumulator never wraps over a year of raw 8K NV12 at
/// 100 fps: up to 3,155,760,000 observations of at most 49,766,400 bytes
/// each leave it equal to the exact sum of the squared coarsened sizes.
pub proof fn law_lite_size_squares_fit(history: Seq<(u64, u32, bool)>)
    requires
        history.len() <= 3_155_760_000,
        forall|i: int| 0 <= i < history.len() ==> (#[trigger] history[i]).1 <= 49_766_400,
    ensures
        lite_after(history).sum_size_sq_units == size_sq_sum(history),
        size_sq_sum(history) <= history.len() * 2_361_960_000,
    decreases history.len(),
{
    if history.len() > 0 {
        let rest = history.drop_last();
        assert forall|i: int| 0 <= i < rest.len() implies (#[trigger] rest[i]).1 <= 49_766_400 by {
            assert(rest[i] == history[i]);
        }
        law_lite_size_squares_fit(rest);
        let size = history.last().1;
        assert(size == history[history.len() - 1].1);
        let unit: u64 = (size as u64) / SIZE_COARSEN_DIVISOR;
        assert(unit <= 48_600);
        assert(unit * unit <= 2_361_960_000) by (nonlinear_arith)
            requires
                unit <= 48_600,
        ;
        assert(sat_mul(unit, unit) == unit * unit);
        assert(unit == size / 1024);
        assert(rest.len() * 2_361_960_000 + 2_361_960_000 == history.len() * 2_361_960_000);
    }
}

/// Per-pad measurement buffer: the accumulators or the ring, after the
/// configured statistics level.
pub enum PadBuffer {
    Lite(LitePadBuffer),
    Full(FullPadBuffer),
}

impl PadBuffer {
    pub open spec fn wf(&self) -> bool {
        match self {
            PadBuffer::Lite(_) => true,
            PadBuffer::Full(b) => b.wf(),
        }
    }

    /// Whether another buffer can be recorded: a ring needs a slot, and its
    /// cursor room to advance.
    pub open spec fn can_record(&self) -> bool {
        match self {
            PadBuffer::Lite(_) => true,
            PadBuffer::Full(b) => b@.capacity > 0 && b@.history.len() < usize::MAX,
        }
    }

    /// Buffers recorded since the pad was made or reset.
    pub open spec fn spec_total_buffers(&self) -> int {
        match self {
            PadBuffer::Lite(b) => b@.total_buffers as int,
            PadBuffer::Full(b) => b@.history.len() as int,
        }
    }

    /// A buffer for the given statistics level; a ring of `capacity` slots
    /// for the full level.
    pub fn new(level: StatsLevel, capacity: usize) -> (r: PadBuffer)
        ensures
            r.wf(),
            match level {
                StatsLevel::Lite => r matches PadBuffer::Lite(b) && b@ == empty_pad(),
                StatsLevel::Full => r matches PadBuffer::Full(b) && b@.history == Seq::<RawRecord>::empty()
                    && b@.capacity == capacity,
            },
    {
        match level {
            StatsLevel::Lite => PadBuffer::Lite(LitePadBuffer::new()),
            StatsLevel::Full => PadBuffer::Full(FullPadBuffer::new(capacity)),
        }
    }

    /// Records a buffer observation; the accumulators take no presentation
    /// time.
    pub fn record(&mut self, wall_ns: u64, pts_ns: Option<u64>, size: u32, is_keyframe: bool)
        requires
            old(self).wf(),
            old(self).can_record(),
        ensures
            final(self).wf(),
            match *old(self) {
                PadBuffer::Lite(b) => *final(self) matches PadBuffer::Lite(n) && n@ == record_spec(
                    b@,
                    wall_ns,
                    size,
                    is_keyframe,
                ),
                PadBuffer::Full(b) => *final(self) matches PadBuffer::Full(n) && n@.history == b@.history.push(
                    observed(wall_ns, pts_ns, size, is_keyframe),
                ) && n@.capacity == b@.capacity,
            },
    {
        match self {
            PadBuffer::Lite(b) => b.record(wall_ns, size, is_keyframe),
            PadBuffer::Full(b) => b.record(wall_ns, pts_ns, size, is_keyframe),
        }
    }

    /// Wall-clock time of the latest buffer, 0 before the first.
    pub fn last_wall_ns(&self) -> (r: u64)
        requires
            self.wf(),
        ensures
            r == match self {
                PadBuffer::Lite(b) => b@.last_wall_ns,
                PadBuffer::Full(b) => if b@.history.len() > 0 {
                    b@.history.last().wall_ns
                } else {
                    0
                },
            },
    {
        match self {
            PadBuffer::Lite(b) => b.last_wall_ns(),
            PadBuffer::Full(b) => b.last_wall_ns(),
        }
    }

    pub fn total_buffers(&self) -> (r: u64)
        requires
            self.wf(),
        ensures
            r == self.spec_total_buffers(),
    {
        match self {
            PadBuffer::Lite(b) => b.total_buffers(),
            PadBuffer::Full(b) => b.total_buffers(),
        }
    }

    pub fn total_keyframes(&self) -> (r: u64)
        requires
            self.wf(),
        ensures
            r == match self {
                PadBuffer::Lite(b) => b@.total_keyframes as int,
                PadBuffer::Full(b) => keyframe_count(b@.history) as int,
            },
    {
        match self {
            PadBuffer::Lite(b) => b.total_keyframes(),
            PadBuffer::Full(b) => b.total_keyframes(),
        }
    }

    pub fn total_delta_frames(&self) -> (r: u64)
        requires
            self.wf(),
        ensures
            r == match self {
                PadBuffer::Lite(b) => b@.total_delta_frames as int,
                PadBuffer::Full(b) => b@.history.len() - keyframe_count(b@.history),
            },
    {
        match self {
            PadBuffer::Lite(b) => b.total_delta_frames(),
            PadBuffer::Full(b) => b.total_delta_frames(),
        }
    }

    /// The raw records of a ring; `None` for the accumulators.
    pub fn read_records(&self) -> (r: Option<Vec<RawRecord>>)
        requires
            self.wf(),
        ensures
            match self {
                PadBuffer::Lite(_) => r is None,
                PadBuffer::Full(b) => r matches Some(v) && v@ == window_records(b@.history, b@.capacity),
            },
    {
        match self {
            PadBuffer::Lite(_) => None,
            PadBuffer::Full(b) => Some(b.read_records()),
        }
    }

    pub fn level(&self) -> (r: StatsLevel)
        ensures
            r == match self {
                PadBuffer::Lite(_) => StatsLevel::Lite,
                PadBuffer::Full(_) => StatsLevel::Full,
            },
    {
        match self {
            PadBuffer::Lite(_) => StatsLevel::Lite,
            PadBuffer::Full(_) => StatsLevel::Full,
        }
    }

    /// Clears the counters and what the buffer holds; the level and the
    /// ring's capacity stay.
    pub fn reset(&mut self)
        requires
            old(self).wf(),
        ensures
            final(self).wf(),
            match *old(self) {
                PadBuffer::Lite(_) => *final(self) matches PadBuffer::Lite(n) && n@ == empty_pad(),
                PadBuffer::Full(b) => *final(self) matches PadBuffer::Full(n) && n@.history == Seq::<
                    RawRecord,
                >::empty() && n@.capacity == b@.capacity,
            },
    {
        match self {
            PadBuffer::Lite(b) => b.reset(),
            PadBuffer::Full(b) => b.reset(),
        }
    }
}


impl PadBuffer {
    /// Whether the buffer can take another record: always for the
    /// accumulators; for a ring, while its cursor can still advance.
    pub fn can_record_more(&self) -> (r: bool)
        requires
            self.wf(),
            self.level_capacity_ok(),
        ensures
            r == self.can_record(),
    {
        match self {
            PadBuffer::Lite(_) => true,
            PadBuffer::Full(b) => b.history_len() < usize::MAX,
        }
    }

    /// A ring has a slot to write to.
    pub open spec fn level_capacity_ok(&self) -> bool {
        match self {
            PadBuffer::Lite(_) => true,
            PadBuffer::Full(b) => b@.capacity > 0,
        }
    }
}

impl FullPadBuffer {
    /// Number of observations recorded since the ring was made or reset.
    pub fn history_len(&self) -> (r: usize)
        requires
            self.wf(),
        ensures
            r == self@.history.len(),
    {
        self.write_cursor
    }
}

/// A registered pad and its buffer.
pub struct PadEntry {
    pub name: String,
    pub buffer: PadBuffer,
}

/// Per-time processing totals of an element: the sum of the delays between
/// a buffer's arrival on a sink pad and a departure from a src pad, and how
/// many delays were summed.
#[derive(Clone, Copy, Debug, PartialEq, Eq, Structural)]
pub struct ProcessingTotals {
    pub sum_ns: u64,
    pub count: u64,
}

/// The measurements of one element: a buffer per registered pad, the
/// streaming threads seen on each side, and its processing-time totals.
pub struct ElementProbe {
    element_name: String,
    element_type: String,
    sink_pads: Vec<PadEntry>,
    src_pads: Vec<PadEntry>,
    stats_level: StatsLevel,
    window_size: usize,
    /// Src pads are not probed (tee elements: their request pads carry
    /// duplicates).
    skip_src_pads: bool,
    thread_id: u32,
    sink_thread_id: u32,
    src_thread_id: u32,
    parent_bin: Option<String>,
    last_sink_arrival_ns: u64,
    proc_time_sum_ns: u64,
    proc_time_count: u64,
}

/// The pads of `pads` have distinct names and well-formed buffers of the
/// element's level and window.
pub open spec fn pads_wf(pads: Seq<PadEntry>, level: StatsLevel, window: usize) -> bool {
    &&& forall|i: int, j: int| 0 <= i < j < pads.len() ==> (#[trigger] pads[i]).name@ != (#[trigger] pads[j]).name@
    &&& forall|i: int|
        0 <= i < pads.len() ==> {
            &&& (#[trigger] pads[i]).buffer.wf()
            &&& match level {
                StatsLevel::Lite => pads[i].buffer is Lite,
                StatsLevel::Full => pads[i].buffer matches PadBuffer::Full(b) && b@.capacity == window,
            }
        }
}

/// Some pad of `pads` is named `name`.
pub open spec fn has_pad(pads: Seq<PadEntry>, name: Seq<char>) -> bool {
    exists|i: int| 0 <= i < pads.len() && (#[trigger] pads[i]).name@ == name
}

impl ElementProbe {
    pub closed spec fn wf(&self) -> bool {
        &&& pads_wf(self.sink_pads@, self.stats_level, self.window_size)
        &&& pads_wf(self.src_pads@, self.stats_level, self.window_size)
        &&& self.skip_src_pads ==> self.src_pads@.len() == 0
    }

    pub closed spec fn spec_element_name(&self) -> String {
        self.element_name
    }

    pub closed spec fn spec_element_type(&self) -> String {
        self.element_type
    }

    /// The element's name.
    pub fn element_name(&self) -> (r: &String)
        ensures
            *r == self.spec_element_name(),
    {
        &self.element_name
    }

    /// The element's factory type.
    pub fn element_type(&self) -> (r: &String)
        ensures
            *r == self.spec_element_type(),
    {
        &self.element_type
    }

    pub closed spec fn spec_sink_pads(&self) -> Seq<PadEntry> {
        self.sink_pads@
    }

    pub closed spec fn spec_src_pads(&self) -> Seq<PadEntry> {
        self.src_pads@
    }

    pub closed spec fn spec_level(&self) -> StatsLevel {
        self.stats_level
    }

    pub closed spec fn spec_window(&self) -> usize {
        self.window_size
    }

    pub closed spec fn spec_skips_src(&self) -> bool {
        self.skip_src_pads
    }

    pub closed spec fn spec_threads(&self) -> (u32, u32, u32) {
        (self.thread_id, self.sink_thread_id, self.src_thread_id)
    }

    pub closed spec fn spec_last_sink_arrival(&self) -> u64 {
        self.last_sink_arrival_ns
    }

    pub closed spec fn spec_totals(&self) -> ProcessingTotals {
        ProcessingTotals { sum_ns: self.proc_time_sum_ns, count: self.proc_time_count }
    }

    pub closed spec fn spec_parent_bin(&self) -> Option<String> {
        self.parent_bin
    }

    /// A probe with no pad registered yet.
    pub fn new(
        element_name: String,
        element_type: String,
        level: StatsLevel,
        capacity: usize,
        skip_src_pads: bool,
        parent_bin: Option<String>,
    ) -> (r: ElementProbe)
        ensures
            r.wf(),
            r.spec_element_name() == element_name,
            r.spec_element_type() == element_type,
            r.spec_sink_pads().len() == 0,
            r.spec_src_pads().len() == 0,
            r.spec_level() == level,
            r.spec_window() == capacity,
            r.spec_skips_src() == skip_src_pads,
            r.spec_threads() == (0u32, 0u32, 0u32),
            r.spec_last_sink_arrival() == 0,
            r.spec_totals() == (ProcessingTotals { sum_ns: 0, count: 0 }),
            r.spec_parent_bin() == parent_bin,
    {
        ElementProbe {
            element_name,
            element_type,
            sink_pads: Vec::new(),
            src_pads: Vec::new(),
            stats_level: level,
            window_size: capacity,
            skip_src_pads,
            thread_id: 0,
            sink_thread_id: 0,
            src_thread_id: 0,
            parent_bin,
            last_sink_arrival_ns: 0,
            proc_time_sum_ns: 0,
            proc_time_count: 0,
        }
    }

    /// A buffer arrived on a sink pad at `wall_ns`.
    pub fn record_sink_arrival(&mut self, wall_ns: u64)
        requires
            old(self).wf(),
        ensures
            final(self).wf(),
            final(self).spec_last_sink_arrival() == wall_ns,
            final(self).spec_totals() == old(self).spec_totals(),
            final(self).spec_sink_pads() == old(self).spec_sink_pads(),
            final(self).spec_src_pads() == old(self).spec_src_pads(),
            final(self).spec_threads() == old(self).spec_threads(),
    {
        self.last_sink_arrival_ns = wall_ns;
    }

    /// A buffer left a src pad at `wall_ns`: the delay since the last sink
    /// arrival, when there was one before, is added to the totals.
    pub fn record_src_departure(&mut self, wall_ns: u64)
        requires
            old(self).wf(),
        ensures
            final(self).wf(),
            final(self).spec_last_sink_arrival() == old(self).spec_last_sink_arrival(),
            final(self).spec_totals() == if old(self).spec_last_sink_arrival() > 0 && wall_ns > old(
                self,
            ).spec_last_sink_arrival() {
                ProcessingTotals {
                    sum_ns: old(self).spec_totals().sum_ns.wrapping_add(
                        (wall_ns - old(self).spec_last_sink_arrival()) as u64,
                    ),
                    count: old(self).spec_totals().count.wrapping_add(1),
                }
            } else {
                old(self).spec_totals()
            },
            final(self).spec_sink_pads() == old(self).spec_sink_pads(),
            final(self).spec_src_pads() == old(self).spec_src_pads(),
            final(self).spec_threads() == old(self).spec_threads(),
    {
        let sink_ns = self.last_sink_arrival_ns;
        if sink_ns > 0 && wall_ns > sink_ns {
            let delta = wall_ns - sink_ns;
            self.proc_time_sum_ns = self.proc_time_sum_ns.wrapping_add(delta);
            self.proc_time_count = self.proc_time_count.wrapping_add(1);
        }
    }

    /// Whether the sink and src sides run on different threads, once both
    /// were seen.
    pub fn is_cross_thread(&self) -> (r: Option<bool>)
        ensures
            r == if self.spec_threads().1 > 0 && self.spec_threads().2 > 0 {
                Some(self.spec_threads().1 != self.spec_threads().2)
            } else {
                None
            },
    {
        if self.sink_thread_id > 0 && self.src_thread_id > 0 {
            Some(self.sink_thread_id != self.src_thread_id)
        } else {
            None
        }
    }

    /// Notes that thread `tid` drives this element, on its src side when
    /// `is_src`, else on its sink side.
    pub fn update_thread_id(&mut self, is_src: bool, tid: u32)
        requires
            old(self).wf(),
        ensures
            final(self).wf(),
            final(self).spec_threads() == if is_src {
                (tid, old(self).spec_threads().1, tid)
            } else {
                (tid, tid, old(self).spec_threads().2)
            },
            final(self).spec_sink_pads() == old(self).spec_sink_pads(),
            final(self).spec_src_pads() == old(self).spec_src_pads(),
            final(self).spec_totals() == old(self).spec_totals(),
            final(self).spec_last_sink_arrival() == old(self).spec_last_sink_arrival(),
    {
        self.thread_id = tid;
        if is_src {
            self.src_thread_id = tid;
        } else {
            self.sink_thread_id = tid;
        }
    }

    /// The thread last seen driving this element, 0 before any.
    pub fn get_thread_id(&self) -> (r: u32)
        ensures
            r == self.spec_threads().0,
    {
        self.thread_id
    }

    /// What CPU attribution reads: the thread seen (none before any) and the
    /// processing totals (none before a delay was summed).
    pub fn cpu_attribution_hint(&self) -> (r: (Option<u32>, Option<ProcessingTotals>))
        ensures
            r.0 == if self.spec_threads().0 > 0 {
                Some(self.spec_threads().0)
            } else {
                None
            },
            r.1 == if self.spec_totals().count > 0 {
                Some(self.spec_totals())
            } else {
                None
            },
    {
        let thread_id = if self.thread_id > 0 {
            Some(self.thread_id)
        } else {
            None
        };
        let totals = if self.proc_time_count > 0 {
            Some(ProcessingTotals { sum_ns: self.proc_time_sum_ns, count: self.proc_time_count })
        } else {
            None
        };
        (thread_id, totals)
    }

    /// The registered sink pads.
    pub fn sink_pads(&self) -> (r: &Vec<PadEntry>)
        ensures
            r@ == self.spec_sink_pads(),
    {
        &self.sink_pads
    }

    /// The registered src pads.
    pub fn src_pads(&self) -> (r: &Vec<PadEntry>)
        ensures
            r@ == self.spec_src_pads(),
    {
        &self.src_pads
    }

    pub fn parent_bin(&self) -> (r: &Option<String>)
        ensures
            *r == self.spec_parent_bin(),
    {
        &self.parent_bin
    }
}

fn find_pad(pads: &Vec<PadEntry>, name: &str) -> (r: Option<usize>)
    ensures
        match r {
            Some(i) => i < pads@.len() && pads@[i as int].name@ == name@,
            None => !has_pad(pads@, name@),
        },
{
    let mut i: usize = 0;
    while i < pads.len()
        invariant
            i <= pads@.len(),
            forall|k: int| 0 <= k < i ==> (#[trigger] pads@[k]).name@ != name@,
        decreases pads@.len() - i,
    {
        if str_eq(pads[i].name.as_str(), name) {
            return Some(i);
        }
        i = i + 1;
    }
    None
}

/// `pads` with a fresh buffer registered for `name` when it had none;
/// whether it was registered.
fn register_pad(pads: &mut Vec<PadEntry>, name: &str, level: StatsLevel, window: usize) -> (registered: bool)
    requires
        pads_wf(old(pads)@, level, window),
    ensures
        pads_wf(final(pads)@, level, window),
        registered == !has_pad(old(pads)@, name@),
        registered ==> final(pads)@.len() == old(pads)@.len() + 1 && final(pads)@.drop_last() == old(pads)@
            && final(pads)@.last().name@ == name@ && final(pads)@.last().buffer.spec_total_buffers() == 0,
        !registered ==> final(pads)@ == old(pads)@,
{
    if find_pad(pads, name).is_some() {
        return false;
    }
    let ghost before = pads@;
    let buffer = PadBuffer::new(level, window);
    pads.push(PadEntry { name: name.to_string(), buffer });
    proof {
        assert(pads@.drop_last() =~= before);
        assert forall|i: int, j: int| 0 <= i < j < pads@.len() implies (#[trigger] pads@[i]).name@ != (
        #[trigger] pads@[j]).name@ by {
            if j == before.len() {
                assert(pads@[i] == before[i]);
            } else {
                assert(pads@[i] == before[i]);
                assert(pads@[j] == before[j]);
            }
        }
        assert forall|i: int| 0 <= i < pads@.len() implies {
            &&& (#[trigger] pads@[i]).buffer.wf()
            &&& match level {
                StatsLevel::Lite => pads@[i].buffer is Lite,
                StatsLevel::Full => pads@[i].buffer matches PadBuffer::Full(b) && b@.capacity == window,
            }
        } by {
            if i < before.len() {
                assert(pads@[i] == before[i]);
            }
        }
    }
    true
}

impl ElementProbe {
    /// Registers a buffer for sink pad `name`; `false` when it already has one.
    pub fn register_sink_pad(&mut self, name: &str) -> (registered: bool)
        requires
            old(self).wf(),
        ensures
            final(self).wf(),
            registered == !has_pad(old(self).spec_sink_pads(), name@),
            registered ==> final(self).spec_sink_pads().drop_last() == old(self).spec_sink_pads()
                && final(self).spec_sink_pads().len() == old(self).spec_sink_pads().len() + 1
                && final(self).spec_sink_pads().last().name@ == name@,
            !registered ==> final(self).spec_sink_pads() == old(self).spec_sink_pads(),
            final(self).spec_src_pads() == old(self).spec_src_pads(),
    {
        register_pad(&mut self.sink_pads, name, self.stats_level, self.window_size)
    }

    /// Registers a buffer for src pad `name`; `false` when src pads are not
    /// probed or it already has one.
    pub fn register_src_pad(&mut self, name: &str) -> (registered: bool)
        requires
            old(self).wf(),
        ensures
            final(self).wf(),
            registered == (!old(self).spec_skips_src() && !has_pad(old(self).spec_src_pads(), name@)),
            registered ==> final(self).spec_src_pads().drop_last() == old(self).spec_src_pads()
                && final(self).spec_src_pads().len() == old(self).spec_src_pads().len() + 1
                && final(self).spec_src_pads().last().name@ == name@,
            !registered ==> final(self).spec_src_pads() == old(self).spec_src_pads(),
            final(self).spec_sink_pads() == old(self).spec_sink_pads(),
    {
        if self.skip_src_pads {
            return false;
        }
        register_pad(&mut self.src_pads, name, self.stats_level, self.window_size)
    }

    /// Resets the buffers of every pad, the threads seen and the totals;
    /// the pads stay registered.
    pub fn reset(&mut self)
        requires
            old(self).wf(),
        ensures
            final(self).wf(),
            final(self).spec_sink_pads().len() == old(self).spec_sink_pads().len(),
            final(self).spec_src_pads().len() == old(self).spec_src_pads().len(),
            forall|i: int|
                0 <= i < final(self).spec_sink_pads().len() ==> (#[trigger] final(self).spec_sink_pads()[i]).name
                    == old(self).spec_sink_pads()[i].name && final(self).spec_sink_pads()[i].buffer.spec_total_buffers()
                    == 0,
            forall|i: int|
                0 <= i < final(self).spec_src_pads().len() ==> (#[trigger] final(self).spec_src_pads()[i]).name
                    == old(self).spec_src_pads()[i].name && final(self).spec_src_pads()[i].buffer.spec_total_buffers()
                    == 0,
            final(self).spec_threads() == (0u32, 0u32, 0u32),
            final(self).spec_last_sink_arrival() == 0,
            final(self).spec_totals() == (ProcessingTotals { sum_ns: 0, count: 0 }),
            final(self).spec_element_name() == old(self).spec_element_name(),
            final(self).spec_element_type() == old(self).spec_element_type(),
            final(self).spec_level() == old(self).spec_level(),
            final(self).spec_window() == old(self).spec_window(),
            final(self).spec_parent_bin() == old(self).spec_parent_bin(),
    {
        reset_pads(&mut self.sink_pads, self.stats_level, self.window_size);
        reset_pads(&mut self.src_pads, self.stats_level, self.window_size);
        self.thread_id = 0;
        self.sink_thread_id = 0;
        self.src_thread_id = 0;
        self.last_sink_arrival_ns = 0;
        self.proc_time_sum_ns = 0;
        self.proc_time_count = 0;
    }
}

fn reset_pads(pads: &mut Vec<PadEntry>, level: StatsLevel, window: usize)
    requires
        pads_wf(old(pads)@, level, window),
    ensures
        pads_wf(final(pads)@, level, window),
        final(pads)@.len() == old(pads)@.len(),
        forall|i: int|
            0 <= i < final(pads)@.len() ==> (#[trigger] final(pads)@[i]).name == old(pads)@[i].name
                && final(pads)@[i].buffer.spec_total_buffers() == 0,
{
    let ghost original = pads@;
    let mut rest: Vec<PadEntry> = Vec::new();
    std::mem::swap(pads, &mut rest);
    let ghost mut done: int = 0;
    while rest.len() > 0
        invariant
            pads_wf(original, level, window),
            0 <= done <= original.len(),
            rest@ == original.skip(done),
            pads@.len() == done,
            forall|i: int|
                0 <= i < done ==> (#[trigger] pads@[i]).name == original[i].name && pads@[i].buffer.spec_total_buffers()
                    == 0 && pads@[i].buffer.wf() && match level {
                    StatsLevel::Lite => pads@[i].buffer is Lite,
                    StatsLevel::Full => pads@[i].buffer matches PadBuffer::Full(b) && b@.capacity == window,
                },
        decreases rest@.len(),
    {
        let mut entry = rest.remove(0);
        proof {
            assert(entry == original[done]);
            assert(rest@ =~= original.skip(done + 1));
        }
        entry.buffer.reset();
        pads.push(entry);
        proof {
            done = done + 1;
        }
    }
    proof {
        assert forall|i: int, j: int| 0 <= i < j < pads@.len() implies (#[trigger] pads@[i]).name@ != (
        #[trigger] pads@[j]).name@ by {
            assert(original[i].name@ != original[j].name@);
        }
    }
}



/// `after` is `before` with the buffer of pad `name` having recorded the
/// observation when `recorded`; otherwise unchanged, which happens only when
/// no pad of that name can take a record.
pub open spec fn recorded_on(
    before: Seq<PadEntry>,
    after: Seq<PadEntry>,
    recorded: bool,
    name: Seq<char>,
    wall_ns: u64,
    pts_ns: Option<u64>,
    size: u32,
    is_keyframe: bool,
) -> bool {
    &&& recorded ==> exists|i: int|
        0 <= i < before.len() && (#[trigger] before[i]).name@ == name && before[i].buffer.can_record() && after
            == before.update(i, PadEntry { name: before[i].name, buffer: after[i].buffer }) && match (
            before[i].buffer,
            after[i].buffer,
        ) {
            (PadBuffer::Lite(b), PadBuffer::Lite(n)) => n@ == record_spec(b@, wall_ns, size, is_keyframe),
            (PadBuffer::Full(b), PadBuffer::Full(n)) => n@.history == b@.history.push(
                observed(wall_ns, pts_ns, size, is_keyframe),
            ) && n@.capacity == b@.capacity,
            _ => false,
        }
    &&& !recorded ==> after == before
    &&& !recorded ==> forall|i: int|
        0 <= i < before.len() && (#[trigger] before[i]).name@ == name ==> !before[i].buffer.can_record()
}

/// A pad whose raw records can be read and that passes the name filter.
pub open spec fn readable_pad(p: PadEntry, filter: Option<Seq<char>>) -> bool {
    &&& p.buffer is Full
    &&& match filter {
        Some(n) => p.name@ == n,
        None => true,
    }
}

/// The pad of `pads` with the most buffers among the readable ones (the
/// first of equal counts).
pub open spec fn best_pad(pads: Seq<PadEntry>, filter: Option<Seq<char>>) -> Option<int>
    decreases pads.len(),
{
    if pads.len() == 0 {
        None
    } else {
        let prev = best_pad(pads.drop_last(), filter);
        let i = pads.len() - 1;
        if readable_pad(pads[i], filter) && (prev is None || pads[i].buffer.spec_total_buffers()
            > pads[prev.unwrap()].buffer.spec_total_buffers()) {
            Some(i)
        } else {
            prev
        }
    }
}

proof fn lemma_best_pad_in_range(pads: Seq<PadEntry>, filter: Option<Seq<char>>)
    ensures
        best_pad(pads, filter) matches Some(i) ==> 0 <= i < pads.len() && readable_pad(pads[i], filter),
    decreases pads.len(),
{
    if pads.len() > 0 {
        lemma_best_pad_in_range(pads.drop_last(), filter);
    }
}

impl ElementProbe {
    /// Records a buffer on pad `name` (a src pad when `is_src`); `false`, with
    /// nothing changed, when the pad is not registered or its ring cannot
    /// advance further.
    pub fn record_pad(
        &mut self,
        is_src: bool,
        name: &str,
        wall_ns: u64,
        pts_ns: Option<u64>,
        size: u32,
        is_keyframe: bool,
    ) -> (recorded: bool)
        requires
            old(self).wf(),
            old(self).spec_level() == StatsLevel::Full ==> old(self).spec_window() > 0,
        ensures
            final(self).wf(),
            final(self).spec_threads() == old(self).spec_threads(),
            final(self).spec_totals() == old(self).spec_totals(),
            is_src ==> recorded_on(
                old(self).spec_src_pads(),
                final(self).spec_src_pads(),
                recorded,
                name@,
                wall_ns,
                pts_ns,
                size,
                is_keyframe,
            ),
            !is_src ==> recorded_on(
                old(self).spec_sink_pads(),
                final(self).spec_sink_pads(),
                recorded,
                name@,
                wall_ns,
                pts_ns,
                size,
                is_keyframe,
            ),
            is_src ==> final(self).spec_sink_pads() == old(self).spec_sink_pads(),
            !is_src ==> final(self).spec_src_pads() == old(self).spec_src_pads(),
    {
        let level = self.stats_level;
        let window = self.window_size;
        if is_src {
            record_on(&mut self.src_pads, level, window, name, wall_ns, pts_ns, size, is_keyframe)
        } else {
            record_on(&mut self.sink_pads, level, window, name, wall_ns, pts_ns, size, is_keyframe)
        }
    }

    /// The raw records of the readable pad with the most buffers (src pads
    /// first, then sink pads; only pads named `pad_filter` when given), with
    /// its name and buffer count; `None` when no pad is readable.
    pub fn read_raw_records_from_best_pad(&self, pad_filter: Option<&str>) -> (r: Option<(String, Vec<RawRecord>, u64)>)
        requires
            self.wf(),
        ensures
            ({
                let all = self.spec_src_pads() + self.spec_sink_pads();
                let filter = match pad_filter {
                    Some(f) => Some(f@),
                    None => None,
                };
                match best_pad(all, filter) {
                    None => r is None,
                    Some(i) => r matches Some((name, records, total)) && (name@ == all[i].name@ && (all[i].buffer matches PadBuffer::Full(
                        b,
                    ) && records@ == window_records(b@.history, b@.capacity)) && total == all[i].buffer.spec_total_buffers()),
                }
            }),
    {
        let ghost all = self.src_pads@ + self.sink_pads@;
        let ghost filter = match pad_filter {
            Some(f) => Some(f@),
            None => None,
        };
        let ns = self.src_pads.len();
        let mut best: Option<(bool, usize)> = None;
        let mut best_total: u64 = 0;
        let mut k: usize = 0;
        while k < ns
            invariant
                self.wf(),
                all == self.src_pads@ + self.sink_pads@,
                ns == self.src_pads@.len(),
                filter == match pad_filter {
                    Some(f) => Some(f@),
                    None => None::<Seq<char>>,
                },
                k <= ns,
                match best_pad(all.take(k as int), filter) {
                    Some(i) => best == Some((true, i as usize)) && 0 <= i < k && best_total == all[i].buffer.spec_total_buffers(),
                    None => best is None,
                },
            decreases ns - k,
        {
            proof {
                assert(all.take(k + 1).drop_last() =~= all.take(k as int));
                lemma_best_pad_in_range(all.take(k as int), filter);
            }
            let entry = &self.src_pads[k];
            proof {
                assert(*entry == all[k as int]);
                assert(entry.buffer.wf());
            }
            let matches_filter = match pad_filter {
                Some(f) => str_eq(entry.name.as_str(), f),
                None => true,
            };
            let readable = matches_filter && match &entry.buffer {
                PadBuffer::Full(_) => true,
                PadBuffer::Lite(_) => false,
            };
            if readable {
                let total = entry.buffer.total_buffers();
                if best.is_none() || total > best_total {
                    best = Some((true, k));
                    best_total = total;
                }
            }
            k = k + 1;
        }
        let mut m: usize = 0;
        while m < self.sink_pads.len()
            invariant
                self.wf(),
                all == self.src_pads@ + self.sink_pads@,
                ns == self.src_pads@.len(),
                filter == match pad_filter {
                    Some(f) => Some(f@),
                    None => None::<Seq<char>>,
                },
                m <= self.sink_pads@.len(),
                match best_pad(all.take(ns + m), filter) {
                    Some(i) => 0 <= i < ns + m && best_total == all[i].buffer.spec_total_buffers() && if i < ns {
                        best == Some((true, i as usize))
                    } else {
                        best == Some((false, (i - ns) as usize))
                    },
                    None => best is None,
                },
            decreases self.sink_pads@.len() - m,
        {
            proof {
                assert(all.take(ns + m + 1).drop_last() =~= all.take(ns + m));
                lemma_best_pad_in_range(all.take(ns + m), filter);
            }
            let entry = &self.sink_pads[m];
            proof {
                assert(*entry == all[ns + m]);
                assert(entry.buffer.wf());
            }
            let matches_filter = match pad_filter {
                Some(f) => str_eq(entry.name.as_str(), f),
                None => true,
            };
            let readable = matches_filter && match &entry.buffer {
                PadBuffer::Full(_) => true,
                PadBuffer::Lite(_) => false,
            };
            if readable {
                let total = entry.buffer.total_buffers();
                if best.is_none() || total > best_total {
                    best = Some((false, m));
                    best_total = total;
                }
            }
            m = m + 1;
        }
        proof {
            assert(all.take(ns + m) =~= all);
            lemma_best_pad_in_range(all, filter);
        }
        match best {
            None => None,
            Some((from_src, i)) => {
                let entry = if from_src {
                    &self.src_pads[i]
                } else {
                    &self.sink_pads[i]
                };
                proof {
                    let j = best_pad(all, filter).unwrap();
                    if from_src {
                        assert(*entry == all[j]);
                    } else {
                        assert(*entry == all[j]);
                    }
                    assert(entry.buffer.wf());
                }
                match entry.buffer.read_records() {
                    Some(records) => Some((entry.name.clone(), records, entry.buffer.total_buffers())),
                    None => None,
                }
            },
        }
    }
}

fn record_on(
    pads: &mut Vec<PadEntry>,
    level: StatsLevel,
    window: usize,
    name: &str,
    wall_ns: u64,
    pts_ns: Option<u64>,
    size: u32,
    is_keyframe: bool,
) -> (recorded: bool)
    requires
        pads_wf(old(pads)@, level, window),
        level == StatsLevel::Full ==> window > 0,
    ensures
        pads_wf(final(pads)@, level, window),
        recorded_on(old(pads)@, final(pads)@, recorded, name@, wall_ns, pts_ns, size, is_keyframe),
{
    let i = match find_pad(pads, name) {
        Some(i) => i,
        None => return false,
    };
    let ghost before = pads@;
    proof {
        assert(pads@[i as int].buffer.wf());
    }
    if !pads[i].buffer.can_record_more() {
        proof {
            assert forall|k: int| 0 <= k < before.len() && (#[trigger] before[k]).name@ == name@ implies !before[
                k
            ].buffer.can_record() by {
                if k < i {
                    assert(before[k].name@ != before[i as int].name@);
                } else if k > i {
                    assert(before[i as int].name@ != before[k].name@);
                }
            }
        }
        return false;
    }
    let mut entry = pads.remove(i);
    proof {
        assert(entry == before[i as int]);
    }
    entry.buffer.record(wall_ns, pts_ns, size, is_keyframe);
    pads.insert(i, entry);
    proof {
        let after = pads@;
        assert(after =~= before.update(i as int, PadEntry { name: before[i as int].name, buffer: after[i as int].buffer }));
        assert forall|a: int, b: int| 0 <= a < b < after.len() implies (#[trigger] after[a]).name@ != (
        #[trigger] after[b]).name@ by {
            assert(after[a].name == before[a].name);
            assert(after[b].name == before[b].name);
        }
        assert forall|a: int| 0 <= a < after.len() implies {
            &&& (#[trigger] after[a]).buffer.wf()
            &&& match level {
                StatsLevel::Lite => after[a].buffer is Lite,
                StatsLevel::Full => after[a].buffer matches PadBuffer::Full(b) && b@.capacity == window,
            }
        } by {
            if a != i {
                assert(after[a] == before[a]);
            }
        }
    }
    true
}

} // verus!
