//! Matching of buffers across pads by presentation timestamp.
//!
//! A buffer that crosses an element, or a link between two elements, keeps
//! its presentation timestamp (PTS). Pairing the records of two pads by PTS
//! gives, per buffer, the wall-clock time between the two observations: the
//! latency of a link (downstream sink pad after upstream src pad) or the
//! transit time through an element (its src pad after its sink pad).
//!
//! The records of the later pad are reduced to their `(pts, wall)` pairs,
//! ordered by PTS and then by wall-clock time. The records of the earlier pad
//! are walked in order with a cursor into those pairs: the cursor stays on
//! the group of its PTS while consecutive records share it, and jumps to the
//! first pair of a record's PTS otherwise.
use vstd::prelude::*;
use vstd::relations::{sorted_by, total_ordering};
use vstd::seq_lib::{lemma_sorted_unique, to_multiset_update};
use crate::element_probe::RawRecord;
use crate::pipeline_structure::TopologyEdge;
use crate::text::str_eq;

verus! {

/// Lexicographic order on `(pts, wall)` pairs.
pub open spec fn pair_leq(a: (u64, u64), b: (u64, u64)) -> bool {
    a.0 < b.0 || (a.0 == b.0 && a.1 <= b.1)
}

pub open spec fn pair_order() -> spec_fn((u64, u64), (u64, u64)) -> bool {
    |a: (u64, u64), b: (u64, u64)| pair_leq(a, b)
}

/// The `(pts, wall)` pairs of the records that carry a PTS, in record order.
pub open spec fn timed_pairs(records: Seq<RawRecord>) -> Seq<(u64, u64)>
    decreases records.len(),
{
    if records.len() == 0 {
        Seq::empty()
    } else {
        let prev = timed_pairs(records.drop_last());
        match records.last().pts_ns {
            Some(p) => prev.push((p, records.last().wall_ns)),
            None => prev,
        }
    }
}

/// How many records carry a PTS.
pub open spec fn timed_count(records: Seq<RawRecord>) -> nat {
    timed_pairs(records).len()
}

/// The pairs of `records` in lexicographic order.
pub open spec fn sorted_pairs(records: Seq<RawRecord>) -> Seq<(u64, u64)> {
    timed_pairs(records).sort_by(pair_order())
}

proof fn lemma_pair_order_total()
    ensures
        total_ordering(pair_order()),
{
}

proof fn lemma_timed_pairs_len(records: Seq<RawRecord>)
    ensures
        timed_pairs(records).len() <= records.len(),
    decreases records.len(),
{
    if records.len() > 0 {
        lemma_timed_pairs_len(records.drop_last());
    }
}

fn pair_less(a: (u64, u64), b: (u64, u64)) -> (r: bool)
    ensures
        r == !pair_leq(b, a),
{
    a.0 < b.0 || (a.0 == b.0 && a.1 < b.1)
}

/// The `(pts, wall)` pairs of `records` that carry a PTS, in lexicographic
/// order.
pub fn sorted_timed_pairs(records: &Vec<RawRecord>) -> (r: Vec<(u64, u64)>)
    ensures
        r@ == sorted_pairs(records@),
{
    let mut v: Vec<(u64, u64)> = Vec::new();
    let n = records.len();
    let mut k: usize = 0;
    while k < n
        invariant
            n == records@.len(),
            k <= n,
            v@ == timed_pairs(records@.take(k as int)),
        decreases n - k,
    {
        proof {
            assert(records@.take(k + 1).drop_last() =~= records@.take(k as int));
        }
        let rec = &records[k];
        match rec.pts_ns {
            Some(p) => v.push((p, rec.wall_ns)),
            None => {},
        }
        k = k + 1;
    }
    proof {
        assert(records@.take(n as int) =~= records@);
    }
    let ghost original = v@;
    let len = v.len();
    let mut i: usize = 1;
    while i < len
        invariant
            1 <= i || len == 0,
            i <= len || len == 0,
            len == v@.len(),
            v@.to_multiset() == original.to_multiset(),
            forall|a: int, b: int| 0 <= a < b < i && b < len ==> pair_leq(#[trigger] v@[a], #[trigger] v@[b]),
        decreases len - i,
    {
        let mut j: usize = i;
        while j > 0 && pair_less(v[j], v[j - 1])
            invariant
                0 < i < len == v@.len(),
                j <= i,
                v@.to_multiset() == original.to_multiset(),
                forall|a: int, b: int| 0 <= a < b < j ==> pair_leq(#[trigger] v@[a], #[trigger] v@[b]),
                forall|a: int, b: int| j <= a < b <= i ==> pair_leq(#[trigger] v@[a], #[trigger] v@[b]),
                forall|a: int, b: int| 0 <= a < j && j < b <= i ==> pair_leq(#[trigger] v@[a], #[trigger] v@[b]),
            decreases j,
        {
            let x = v[j - 1];
            let y = v[j];
            proof {
                to_multiset_update(v@, j - 1, y);
                to_multiset_update(v@.update(j - 1, y), j as int, x);
                broadcast use vstd::multiset::group_multiset_axioms;
                broadcast use vstd::seq_lib::to_multiset_contains;
                assert(v@.contains(x)) by {
                    assert(v@[j - 1] == x);
                }
                assert(v@.to_multiset().insert(y).remove(x).insert(x).remove(y) =~= v@.to_multiset());
            }
            v.set(j - 1, y);
            v.set(j, x);
            j = j - 1;
        }
        proof {
            assert forall|a: int, b: int| 0 <= a < b <= i implies pair_leq(#[trigger] v@[a], #[trigger] v@[b]) by {
                if b == j && a < j {
                    assert(pair_leq(v@[a], v@[j - 1]) || a == j - 1);
                }
            }
        }
        i = i + 1;
    }
    proof {
        lemma_pair_order_total();
        timed_pairs(records@).lemma_sort_by_ensures(pair_order());
        assert(sorted_by(v@, pair_order()));
        lemma_sorted_unique(v@, timed_pairs(records@).sort_by(pair_order()), pair_order());
    }
    v
}

/// The pairs are in lexicographic order.
pub open spec fn pairs_sorted(s: Seq<(u64, u64)>) -> bool {
    forall|i: int, j: int| 0 <= i < j < s.len() ==> pair_leq(#[trigger] s[i], #[trigger] s[j])
}

proof fn lemma_sorted_pairs_sorted(records: Seq<RawRecord>)
    ensures
        pairs_sorted(sorted_pairs(records)),
        sorted_pairs(records).len() == timed_count(records),
{
    lemma_pair_order_total();
    timed_pairs(records).lemma_sort_by_ensures(pair_order());
    let s = sorted_pairs(records);
    assert forall|i: int, j: int| 0 <= i < j < s.len() implies pair_leq(#[trigger] s[i], #[trigger] s[j]) by {
        assert(pair_order()(s[i], s[j]));
    }
    vstd::seq_lib::to_multiset_len(timed_pairs(records));
    vstd::seq_lib::to_multiset_len(s);
}

/// The first index from `k` on whose pair has a PTS of at least `p`; the
/// length when there is none.
pub open spec fn first_pts_at_least(s: Seq<(u64, u64)>, k: int, p: u64) -> int
    decreases s.len() - k,
{
    if k >= s.len() {
        s.len() as int
    } else if s[k].0 >= p {
        k
    } else {
        first_pts_at_least(s, k + 1, p)
    }
}

/// The end of the run of pairs with PTS `p` that goes on from `k`.
pub open spec fn run_end(s: Seq<(u64, u64)>, k: int, p: u64) -> int
    decreases s.len() - k,
{
    if k >= s.len() || s[k].0 != p {
        k
    } else {
        run_end(s, k + 1, p)
    }
}

/// The first index in `[k, hi)` whose wall-clock time is at least `w`; `hi`
/// when there is none.
pub open spec fn first_wall_at_least(s: Seq<(u64, u64)>, k: int, hi: int, w: int) -> int
    decreases hi - k,
{
    if k >= hi {
        hi
    } else if s[k].1 >= w {
        k
    } else {
        first_wall_at_least(s, k + 1, hi, w)
    }
}

/// The last index in `[lo, hi)` whose wall-clock time is at most `w`.
pub open spec fn last_wall_at_most(s: Seq<(u64, u64)>, lo: int, hi: int, w: int) -> Option<int>
    decreases hi - lo,
{
    if hi <= lo {
        None
    } else if s[hi - 1].1 <= w {
        Some(hi - 1)
    } else {
        last_wall_at_most(s, lo, hi - 1, w)
    }
}

/// Where the cursor goes for a record with PTS `p`: it stays where it is on
/// a pair of that PTS, else it moves to the first pair of PTS at least `p`.
pub open spec fn group_start(s: Seq<(u64, u64)>, cursor: int, p: u64) -> int {
    if s[cursor].0 == p {
        cursor
    } else {
        first_pts_at_least(s, 0, p)
    }
}

/// One record `(p, w)` of the upstream pad against the downstream pairs `s`
/// with the cursor at `cursor`: the latency found, if any, and the next
/// cursor. The match is the first pair of the group of `p` from the cursor
/// on that was seen at or after `w`; the cursor then moves past it.
pub open spec fn causal_step(s: Seq<(u64, u64)>, cursor: int, p: u64, w: u64) -> (Option<u64>, int) {
    if cursor >= s.len() {
        (None, cursor)
    } else {
        let start = group_start(s, cursor, p);
        if start >= s.len() || s[start].0 != p {
            (None, start)
        } else {
            let end = run_end(s, start, p);
            let idx = first_wall_at_least(s, start, end, w as int);
            if idx < end {
                (Some((s[idx].1 - w) as u64), idx + 1)
            } else {
                (None, start)
            }
        }
    }
}

/// One record `(p, w)` of an element's src pad against the pairs `s` of its
/// sink pad: the transit time found, if any, and the next cursor. The match
/// is the last pair of the group of `p` from the cursor on that was seen at
/// or before `w`; the cursor stays on the group.
pub open spec fn transit_step(s: Seq<(u64, u64)>, cursor: int, p: u64, w: u64) -> (Option<u64>, int) {
    if cursor >= s.len() {
        (None, cursor)
    } else {
        let start = group_start(s, cursor, p);
        if start >= s.len() || s[start].0 != p {
            (None, start)
        } else {
            match last_wall_at_most(s, start, run_end(s, start, p), w as int) {
                Some(i) => (Some((w - s[i].1) as u64), start),
                None => (None, start),
            }
        }
    }
}

/// The latencies found walking the upstream `records` against the
/// downstream pairs `s`, and where the cursor ends.
pub open spec fn causal_run(s: Seq<(u64, u64)>, records: Seq<RawRecord>) -> (Seq<u64>, int)
    decreases records.len(),
{
    if records.len() == 0 {
        (Seq::empty(), 0)
    } else {
        let prev = causal_run(s, records.drop_last());
        let r = records.last();
        match r.pts_ns {
            None => prev,
            Some(p) => {
                let step = causal_step(s, prev.1, p, r.wall_ns);
                (
                    match step.0 {
                        Some(d) => prev.0.push(d),
                        None => prev.0,
                    },
                    step.1,
                )
            },
        }
    }
}

/// The transit times found walking the src pad `records` against the sink
/// pad pairs `s`, and where the cursor ends.
pub open spec fn transit_run(s: Seq<(u64, u64)>, records: Seq<RawRecord>) -> (Seq<u64>, int)
    decreases records.len(),
{
    if records.len() == 0 {
        (Seq::empty(), 0)
    } else {
        let prev = transit_run(s, records.drop_last());
        let r = records.last();
        match r.pts_ns {
            None => prev,
            Some(p) => {
                let step = transit_step(s, prev.1, p, r.wall_ns);
                (
                    match step.0 {
                        Some(d) => prev.0.push(d),
                        None => prev.0,
                    },
                    step.1,
                )
            },
        }
    }
}

proof fn lemma_first_pts_scan(s: Seq<(u64, u64)>, j: int, i: int, p: u64)
    requires
        0 <= j <= i <= s.len(),
        forall|k: int| j <= k < i ==> (#[trigger] s[k]).0 < p,
        i == s.len() || s[i].0 >= p,
    ensures
        first_pts_at_least(s, j, p) == i,
    decreases i - j,
{
    if j < i {
        lemma_first_pts_scan(s, j + 1, i, p);
    }
}

proof fn lemma_first_pts_range(s: Seq<(u64, u64)>, k: int, p: u64)
    requires
        0 <= k <= s.len(),
    ensures
        k <= first_pts_at_least(s, k, p) <= s.len(),
    decreases s.len() - k,
{
    if k < s.len() && s[k].0 < p {
        lemma_first_pts_range(s, k + 1, p);
    }
}

proof fn lemma_run_end(s: Seq<(u64, u64)>, k: int, p: u64)
    requires
        0 <= k <= s.len(),
    ensures
        k <= run_end(s, k, p) <= s.len(),
        forall|m: int| k <= m < run_end(s, k, p) ==> (#[trigger] s[m]).0 == p,
    decreases s.len() - k,
{
    if k < s.len() && s[k].0 == p {
        lemma_run_end(s, k + 1, p);
    }
}

proof fn lemma_first_wall_scan(s: Seq<(u64, u64)>, j: int, i: int, hi: int, w: int)
    requires
        j <= i <= hi,
        forall|k: int| j <= k < i ==> (#[trigger] s[k]).1 < w,
        i == hi || s[i].1 >= w,
    ensures
        first_wall_at_least(s, j, hi, w) == i,
    decreases i - j,
{
    if j < i {
        lemma_first_wall_scan(s, j + 1, i, hi, w);
    }
}

proof fn lemma_first_wall_found(s: Seq<(u64, u64)>, k: int, hi: int, w: int)
    requires
        k <= hi,
    ensures
        k <= first_wall_at_least(s, k, hi, w) <= hi,
        first_wall_at_least(s, k, hi, w) < hi ==> s[first_wall_at_least(s, k, hi, w)].1 >= w,
    decreases hi - k,
{
    if k < hi && s[k].1 < w {
        lemma_first_wall_found(s, k + 1, hi, w);
    }
}

proof fn lemma_last_wall_scan(s: Seq<(u64, u64)>, lo: int, a: int, hi: int, w: int)
    requires
        lo <= a <= hi,
        forall|k: int| a <= k < hi ==> (#[trigger] s[k]).1 > w,
        a > lo ==> s[a - 1].1 <= w,
    ensures
        last_wall_at_most(s, lo, hi, w) == (if a > lo {
            Some(a - 1)
        } else {
            None::<int>
        }),
    decreases hi - a,
{
    if a < hi {
        lemma_last_wall_scan(s, lo, a, hi - 1, w);
    }
}

/// The first index whose pair has a PTS of at least `p`.
fn lower_bound_pts(s: &Vec<(u64, u64)>, p: u64) -> (r: usize)
    requires
        pairs_sorted(s@),
    ensures
        r == first_pts_at_least(s@, 0, p),
{
    let mut lo: usize = 0;
    let mut hi: usize = s.len();
    while lo < hi
        invariant
            pairs_sorted(s@),
            lo <= hi <= s@.len(),
            forall|k: int| 0 <= k < lo ==> (#[trigger] s@[k]).0 < p,
            forall|k: int| hi <= k < s@.len() ==> (#[trigger] s@[k]).0 >= p,
        decreases hi - lo,
    {
        let mid = lo + (hi - lo) / 2;
        if s[mid].0 < p {
            proof {
                assert forall|k: int| 0 <= k < mid + 1 implies (#[trigger] s@[k]).0 < p by {
                    if k < mid {
                        assert(pair_leq(s@[k], s@[mid as int]));
                    }
                }
            }
            lo = mid + 1;
        } else {
            proof {
                assert forall|k: int| mid <= k < s@.len() implies (#[trigger] s@[k]).0 >= p by {
                    if k > mid {
                        assert(pair_leq(s@[mid as int], s@[k]));
                    }
                }
            }
            hi = mid;
        }
    }
    proof {
        lemma_first_pts_scan(s@, 0, lo as int, p);
    }
    lo
}

/// The end of the run of PTS `p` that goes on from `k`.
fn run_end_index(s: &Vec<(u64, u64)>, k: usize, p: u64) -> (r: usize)
    requires
        k <= s@.len(),
    ensures
        r == run_end(s@, k as int, p),
{
    let mut e = k;
    while e < s.len() && s[e].0 == p
        invariant
            k <= e <= s@.len(),
            run_end(s@, e as int, p) == run_end(s@, k as int, p),
        decreases s@.len() - e,
    {
        e = e + 1;
    }
    e
}

/// The first index in `[lo, hi)`, a run of one PTS, whose wall-clock time is
/// at least `w` (when `above` is false) or above `w` (when it is true).
fn wall_partition(s: &Vec<(u64, u64)>, lo: usize, hi: usize, w: u64, above: bool) -> (r: usize)
    requires
        pairs_sorted(s@),
        lo <= hi <= s@.len(),
        forall|k: int| lo <= k < hi ==> (#[trigger] s@[k]).0 == s@[lo as int].0,
    ensures
        lo <= r <= hi,
        !above ==> r == first_wall_at_least(s@, lo as int, hi as int, w as int),
        above ==> forall|k: int| lo <= k < r ==> (#[trigger] s@[k]).1 <= w,
        above ==> forall|k: int| r <= k < hi ==> (#[trigger] s@[k]).1 > w,
{
    let mut a: usize = lo;
    let mut b: usize = hi;
    while a < b
        invariant
            pairs_sorted(s@),
            lo <= a <= b <= hi <= s@.len(),
            forall|k: int| lo <= k < hi ==> (#[trigger] s@[k]).0 == s@[lo as int].0,
            forall|k: int| lo <= k < a ==> if above {
                (#[trigger] s@[k]).1 <= w
            } else {
                s@[k].1 < w
            },
            forall|k: int| b <= k < hi ==> if above {
                (#[trigger] s@[k]).1 > w
            } else {
                s@[k].1 >= w
            },
        decreases b - a,
    {
        let mid = a + (b - a) / 2;
        let go_right = if above {
            s[mid].1 <= w
        } else {
            s[mid].1 < w
        };
        if go_right {
            proof {
                assert forall|k: int| lo <= k < mid + 1 implies if above {
                    (#[trigger] s@[k]).1 <= w
                } else {
                    s@[k].1 < w
                } by {
                    if k < mid {
                        assert(pair_leq(s@[k], s@[mid as int]));
                        assert(s@[k].0 == s@[mid as int].0);
                    }
                }
            }
            a = mid + 1;
        } else {
            proof {
                assert forall|k: int| mid <= k < hi implies if above {
                    (#[trigger] s@[k]).1 > w
                } else {
                    s@[k].1 >= w
                } by {
                    if k > mid {
                        assert(pair_leq(s@[mid as int], s@[k]));
                        assert(s@[k].0 == s@[mid as int].0);
                    }
                }
            }
            b = mid;
        }
    }
    proof {
        if !above {
            lemma_first_wall_scan(s@, lo as int, a as int, hi as int, w as int);
        }
    }
    a
}

/// Where the group of PTS `p` starts, with the cursor at `cursor`.
fn group_start_index(s: &Vec<(u64, u64)>, cursor: usize, p: u64) -> (r: usize)
    requires
        pairs_sorted(s@),
        cursor < s@.len(),
    ensures
        r == group_start(s@, cursor as int, p),
        r <= s@.len(),
{
    if s[cursor].0 == p {
        cursor
    } else {
        proof {
            lemma_first_pts_range(s@, 0, p);
        }
        lower_bound_pts(s, p)
    }
}

/// Latencies of a link, in nanoseconds: the upstream pad's `from_records`
/// walked against the downstream pad's `to_records`. Also how many upstream
/// records carry a PTS.
pub fn causal_latencies_ns(from_records: &Vec<RawRecord>, to_records: &Vec<RawRecord>) -> (r: (Vec<u64>, u64))
    ensures
        r.0@ == causal_run(sorted_pairs(to_records@), from_records@).0,
        r.1 == timed_count(from_records@),
        r.0@.len() <= r.1,
{
    let pairs = sorted_timed_pairs(to_records);
    let ghost s = pairs@;
    proof {
        lemma_sorted_pairs_sorted(to_records@);
    }
    let n = pairs.len();
    let m = from_records.len();
    let mut out: Vec<u64> = Vec::new();
    let mut cursor: usize = 0;
    let mut with_pts: u64 = 0;
    let mut k: usize = 0;
    while k < m
        invariant
            s == pairs@,
            s == sorted_pairs(to_records@),
            pairs_sorted(s),
            n == s.len(),
            m == from_records@.len(),
            k <= m,
            cursor <= n,
            out@ == causal_run(s, from_records@.take(k as int)).0,
            cursor == causal_run(s, from_records@.take(k as int)).1,
            with_pts == timed_count(from_records@.take(k as int)),
        decreases m - k,
    {
        let ghost prefix = from_records@.take(k + 1);
        proof {
            assert(prefix.drop_last() =~= from_records@.take(k as int));
            lemma_timed_pairs_len(prefix);
        }
        let rec = &from_records[k];
        let w = rec.wall_ns;
        match rec.pts_ns {
            None => {},
            Some(p) => {
                with_pts = with_pts + 1;
                if cursor < n {
                    let start = group_start_index(&pairs, cursor, p);
                    if start < n && pairs[start].0 == p {
                        let end = run_end_index(&pairs, start, p);
                        proof {
                            lemma_run_end(s, start as int, p);
                        }
                        let idx = wall_partition(&pairs, start, end, w, false);
                        proof {
                            lemma_first_wall_found(s, start as int, end as int, w as int);
                        }
                        if idx < end {
                            out.push(pairs[idx].1 - w);
                            cursor = idx + 1;
                        } else {
                            cursor = start;
                        }
                    } else {
                        cursor = start;
                    }
                }
            },
        }
        k = k + 1;
    }
    proof {
        assert(from_records@.take(m as int) =~= from_records@);
        lemma_causal_run_len(s, from_records@);
    }
    (out, with_pts)
}

/// Transit times through an element, in nanoseconds: its src pad's
/// `src_records` walked against its sink pad's `sink_records`.
pub fn transit_times_ns(sink_records: &Vec<RawRecord>, src_records: &Vec<RawRecord>) -> (r: Vec<u64>)
    ensures
        r@ == transit_run(sorted_pairs(sink_records@), src_records@).0,
{
    let pairs = sorted_timed_pairs(sink_records);
    let ghost s = pairs@;
    proof {
        lemma_sorted_pairs_sorted(sink_records@);
    }
    let n = pairs.len();
    let m = src_records.len();
    let mut out: Vec<u64> = Vec::new();
    let mut cursor: usize = 0;
    let mut k: usize = 0;
    while k < m
        invariant
            s == pairs@,
            pairs_sorted(s),
            n == s.len(),
            m == src_records@.len(),
            k <= m,
            cursor <= n,
            out@ == transit_run(s, src_records@.take(k as int)).0,
            cursor == transit_run(s, src_records@.take(k as int)).1,
        decreases m - k,
    {
        proof {
            assert(src_records@.take(k + 1).drop_last() =~= src_records@.take(k as int));
        }
        let rec = &src_records[k];
        let w = rec.wall_ns;
        match rec.pts_ns {
            None => {},
            Some(p) => {
                if cursor < n {
                    let start = group_start_index(&pairs, cursor, p);
                    if start < n && pairs[start].0 == p {
                        let end = run_end_index(&pairs, start, p);
                        proof {
                            lemma_run_end(s, start as int, p);
                        }
                        let a = wall_partition(&pairs, start, end, w, true);
                        proof {
                            lemma_last_wall_scan(s, start as int, a as int, end as int, w as int);
                        }
                        if a > start {
                            out.push(w - pairs[a - 1].1);
                        }
                    }
                    cursor = start;
                }
            },
        }
        k = k + 1;
    }
    proof {
        assert(src_records@.take(m as int) =~= src_records@);
    }
    out
}

/// How much trust a link's latency deserves, from how many upstream
/// buffers were matched and the share of them among those with a PTS.
#[derive(Clone, Copy, Debug, PartialEq, Eq, Structural)]
pub enum CausalConfidence {
    Low,
    Medium,
    High,
}

/// High with at least 50 matches and a match rate of at least 4/5; medium
/// with at least 20 matches and a rate of at least 2/5; low otherwise. The
/// rate is `matched / sources`, and 0 when `sources` is 0.
pub open spec fn confidence_spec(matched: int, sources: int) -> CausalConfidence {
    if matched >= 50 && sources > 0 && 5 * matched >= 4 * sources {
        CausalConfidence::High
    } else if matched >= 20 && sources > 0 && 5 * matched >= 2 * sources {
        CausalConfidence::Medium
    } else {
        CausalConfidence::Low
    }
}

pub fn causal_confidence_label(matched_samples: u64, sources_with_pts: u64) -> (r: CausalConfidence)
    ensures
        r == confidence_spec(matched_samples as int, sources_with_pts as int),
{
    let matched = matched_samples as u128;
    let sources = sources_with_pts as u128;
    if matched_samples >= 50 && sources_with_pts > 0 && 5 * matched >= 4 * sources {
        CausalConfidence::High
    } else if matched_samples >= 20 && sources_with_pts > 0 && 5 * matched >= 2 * sources {
        CausalConfidence::Medium
    } else {
        CausalConfidence::Low
    }
}

/// What a pad's snapshot offers to the matching: its name, how many buffers
/// it saw, and its records when it keeps them.
pub struct PadRecords {
    pub pad_name: String,
    pub total_buffers: u64,
    /// The wall-clock time of the pad's latest buffer; 0 before any.
    pub last_wall_ns: u64,
    pub records: Option<Vec<RawRecord>>,
}

/// The first pad from `k` on named `name`.
pub open spec fn first_named(pads: Seq<PadRecords>, k: int, name: Seq<char>) -> Option<int>
    decreases pads.len() - k,
{
    if k >= pads.len() {
        None
    } else if pads[k].pad_name@ == name {
        Some(k)
    } else {
        first_named(pads, k + 1, name)
    }
}

/// The pad that saw the most buffers; the last of them on a tie.
pub open spec fn busiest_pad(pads: Seq<PadRecords>) -> Option<int>
    decreases pads.len(),
{
    if pads.len() == 0 {
        None
    } else {
        let prev = busiest_pad(pads.drop_last());
        let i = pads.len() - 1;
        if prev is None || pads[i].total_buffers >= pads[prev.unwrap()].total_buffers {
            Some(i)
        } else {
            prev
        }
    }
}

/// Among the pads that keep records, the one with the most records; the last
/// of them on a tie.
pub open spec fn longest_records_pad(pads: Seq<PadRecords>) -> Option<int>
    decreases pads.len(),
{
    if pads.len() == 0 {
        None
    } else {
        let prev = longest_records_pad(pads.drop_last());
        let i = pads.len() - 1;
        if pads[i].records is Some && (prev is None || pads[i].records.unwrap()@.len()
            >= pads[prev.unwrap()].records.unwrap()@.len()) {
            Some(i)
        } else {
            prev
        }
    }
}

/// The upstream pad of a link: the src pad of that name, else the busiest
/// src pad; an element without src pads (a tee that skips them) offers its
/// busiest sink pad, whose buffers carry the same PTS.
pub open spec fn upstream_pad(src: Seq<PadRecords>, sink: Seq<PadRecords>, name: Seq<char>) -> Option<PadRecords> {
    match first_named(src, 0, name) {
        Some(i) => Some(src[i]),
        None => if src.len() > 0 {
            Some(src[busiest_pad(src).unwrap()])
        } else {
            match busiest_pad(sink) {
                Some(i) => Some(sink[i]),
                None => None,
            }
        },
    }
}

/// The downstream pad of a link: the sink pad of that name, else the
/// busiest sink pad.
pub open spec fn downstream_pad(sink: Seq<PadRecords>, name: Seq<char>) -> Option<PadRecords> {
    match first_named(sink, 0, name) {
        Some(i) => Some(sink[i]),
        None => match busiest_pad(sink) {
            Some(i) => Some(sink[i]),
            None => None,
        },
    }
}

proof fn lemma_busiest_in_range(pads: Seq<PadRecords>)
    ensures
        busiest_pad(pads) matches Some(i) ==> 0 <= i < pads.len(),
        pads.len() > 0 ==> busiest_pad(pads) is Some,
    decreases pads.len(),
{
    if pads.len() > 0 {
        lemma_busiest_in_range(pads.drop_last());
    }
}

proof fn lemma_longest_in_range(pads: Seq<PadRecords>)
    ensures
        longest_records_pad(pads) matches Some(i) ==> 0 <= i < pads.len() && pads[i].records is Some,
    decreases pads.len(),
{
    if pads.len() > 0 {
        lemma_longest_in_range(pads.drop_last());
    }
}

fn find_named(pads: &Vec<PadRecords>, name: &str) -> (r: Option<usize>)
    ensures
        r matches Some(i) ==> first_named(pads@, 0, name@) == Some(i as int) && i < pads@.len(),
        r is None ==> first_named(pads@, 0, name@) is None,
{
    let n = pads.len();
    let mut k: usize = 0;
    while k < n
        invariant
            n == pads@.len(),
            k <= n,
            first_named(pads@, k as int, name@) == first_named(pads@, 0, name@),
        decreases n - k,
    {
        if str_eq(pads[k].pad_name.as_str(), name) {
            return Some(k);
        }
        k = k + 1;
    }
    None
}

fn busiest_index(pads: &Vec<PadRecords>) -> (r: Option<usize>)
    ensures
        r matches Some(i) ==> busiest_pad(pads@) == Some(i as int) && i < pads@.len(),
        r is None ==> busiest_pad(pads@) is None,
{
    let n = pads.len();
    let mut best: Option<usize> = None;
    let mut k: usize = 0;
    while k < n
        invariant
            n == pads@.len(),
            k <= n,
            match best {
                Some(i) => busiest_pad(pads@.take(k as int)) == Some(i as int) && i < k,
                None => busiest_pad(pads@.take(k as int)) is None,
            },
        decreases n - k,
    {
        proof {
            assert(pads@.take(k + 1).drop_last() =~= pads@.take(k as int));
        }
        let better = match best {
            None => true,
            Some(i) => pads[k].total_buffers >= pads[i].total_buffers,
        };
        if better {
            best = Some(k);
        }
        k = k + 1;
    }
    proof {
        assert(pads@.take(n as int) =~= pads@);
    }
    best
}

fn longest_records_index(pads: &Vec<PadRecords>) -> (r: Option<usize>)
    ensures
        r matches Some(i) ==> longest_records_pad(pads@) == Some(i as int) && i < pads@.len(),
        r is None ==> longest_records_pad(pads@) is None,
{
    let n = pads.len();
    let mut best: Option<usize> = None;
    let mut k: usize = 0;
    while k < n
        invariant
            n == pads@.len(),
            k <= n,
            match best {
                Some(i) => longest_records_pad(pads@.take(k as int)) == Some(i as int) && i < k
                    && pads@[i as int].records is Some,
                None => longest_records_pad(pads@.take(k as int)) is None,
            },
        decreases n - k,
    {
        proof {
            assert(pads@.take(k + 1).drop_last() =~= pads@.take(k as int));
        }
        let better = match (&pads[k].records, best) {
            (None, _) => false,
            (Some(_), None) => true,
            (Some(r), Some(i)) => match &pads[i].records {
                Some(b) => r.len() >= b.len(),
                None => true,
            },
        };
        if better {
            best = Some(k);
        }
        k = k + 1;
    }
    proof {
        assert(pads@.take(n as int) =~= pads@);
    }
    best
}

/// The latency of a link between two elements, from their pads' records.
pub struct CausalLatency {
    /// Per matched buffer, the nanoseconds from the upstream pad to the
    /// downstream pad.
    pub latencies_ns: Vec<u64>,
    /// How many upstream records carry a PTS: the base of the match rate.
    pub sources_with_pts: u64,
    pub confidence: CausalConfidence,
}

/// The latency of the link from pad `from_pad_name` of the upstream element
/// (pads `from_src` and `from_sink`) to pad `to_pad_name` of the downstream
/// element (sink pads `to_sink`); `None` when either end has no pad to offer
/// or its pad keeps no records.
pub fn compute_causal_edge_latency(
    from_src: &Vec<PadRecords>,
    from_sink: &Vec<PadRecords>,
    to_sink: &Vec<PadRecords>,
    from_pad_name: &str,
    to_pad_name: &str,
) -> (r: Option<CausalLatency>)
    ensures
        match (upstream_pad(from_src@, from_sink@, from_pad_name@), downstream_pad(to_sink@, to_pad_name@)) {
            (Some(up), Some(down)) => match (up.records, down.records) {
                (Some(ur), Some(dr)) => r matches Some(c) && {
                    let run = causal_run(sorted_pairs(dr@), ur@).0;
                    &&& c.latencies_ns@ == run
                    &&& c.sources_with_pts == timed_count(ur@)
                    &&& run.len() <= c.sources_with_pts
                    &&& c.confidence == confidence_spec(run.len() as int, timed_count(ur@) as int)
                },
                _ => r is None,
            },
            _ => r is None,
        },
{
    let up: &PadRecords = match find_named(from_src, from_pad_name) {
        Some(i) => &from_src[i],
        None => {
            if from_src.len() > 0 {
                proof {
                    lemma_busiest_in_range(from_src@);
                }
                match busiest_index(from_src) {
                    Some(i) => &from_src[i],
                    None => {
                        return None;
                    },
                }
            } else {
                match busiest_index(from_sink) {
                    Some(i) => &from_sink[i],
                    None => {
                        return None;
                    },
                }
            }
        },
    };
    let down: &PadRecords = match find_named(to_sink, to_pad_name) {
        Some(i) => &to_sink[i],
        None => match busiest_index(to_sink) {
            Some(i) => &to_sink[i],
            None => {
                return None;
            },
        },
    };
    match (&up.records, &down.records) {
        (Some(ur), Some(dr)) => {
            let (latencies_ns, sources_with_pts) = causal_latencies_ns(ur, dr);
            proof {
                lemma_causal_run_len(sorted_pairs(dr@), ur@);
            }
            let matched = latencies_ns.len() as u64;
            let confidence = causal_confidence_label(matched, sources_with_pts);
            Some(CausalLatency { latencies_ns, sources_with_pts, confidence })
        },
        _ => None,
    }
}

/// A record matches at most once, and only when it carries a PTS.
proof fn lemma_causal_run_len(s: Seq<(u64, u64)>, records: Seq<RawRecord>)
    ensures
        causal_run(s, records).0.len() <= timed_count(records) <= records.len(),
        transit_run(s, records).0.len() <= timed_count(records),
    decreases records.len(),
{
    lemma_timed_pairs_len(records);
    if records.len() > 0 {
        lemma_causal_run_len(s, records.drop_last());
    }
}

/// `d` is the time from a record of `first` to a record of `second` that
/// carries the same PTS and was seen no earlier.
pub open spec fn same_pts_delay(first: Seq<RawRecord>, second: Seq<RawRecord>, d: u64) -> bool {
    exists|i: int, j: int|
        #![trigger first[i], second[j]]
        0 <= i < first.len() && 0 <= j < second.len() && first[i].pts_ns is Some && second[j].pts_ns
            == first[i].pts_ns && second[j].wall_ns >= first[i].wall_ns && d == second[j].wall_ns
            - first[i].wall_ns
}

/// `d` was measured from record `up[i]` to pair `s[m]` of the same PTS.
spec fn causal_witness(up: Seq<RawRecord>, s: Seq<(u64, u64)>, d: u64) -> bool {
    exists|i: int, m: int|
        #![trigger up[i], s[m]]
        0 <= i < up.len() && 0 <= m < s.len() && up[i].pts_ns == Some(s[m].0) && s[m].1 >= up[i].wall_ns
            && d == s[m].1 - up[i].wall_ns
}

/// `d` was measured from pair `s[m]` to record `src[i]` of the same PTS.
spec fn transit_witness(src: Seq<RawRecord>, s: Seq<(u64, u64)>, d: u64) -> bool {
    exists|i: int, m: int|
        #![trigger src[i], s[m]]
        0 <= i < src.len() && 0 <= m < s.len() && src[i].pts_ns == Some(s[m].0) && src[i].wall_ns >= s[m].1
            && d == src[i].wall_ns - s[m].1
}

proof fn lemma_last_wall_found(s: Seq<(u64, u64)>, lo: int, hi: int, w: int)
    ensures
        last_wall_at_most(s, lo, hi, w) matches Some(i) ==> lo <= i < hi && s[i].1 <= w,
    decreases hi - lo,
{
    if hi > lo && s[hi - 1].1 > w {
        lemma_last_wall_found(s, lo, hi - 1, w);
    }
}

proof fn lemma_group_start_range(s: Seq<(u64, u64)>, cursor: int, p: u64)
    requires
        0 <= cursor < s.len(),
    ensures
        0 <= group_start(s, cursor, p) <= s.len(),
{
    lemma_first_pts_range(s, 0, p);
}

proof fn lemma_causal_witnesses(s: Seq<(u64, u64)>, up: Seq<RawRecord>)
    ensures
        causal_run(s, up).1 >= 0,
        forall|k: int| 0 <= k < causal_run(s, up).0.len() ==> causal_witness(up, s, #[trigger] causal_run(s, up).0[k]),
    decreases up.len(),
{
    if up.len() > 0 {
        let rest = up.drop_last();
        lemma_causal_witnesses(s, rest);
        let prev = causal_run(s, rest);
        assert forall|k: int| 0 <= k < prev.0.len() implies causal_witness(up, s, #[trigger] prev.0[k]) by {
            let (i, m) = choose|i: int, m: int|
                #![trigger rest[i], s[m]]
                0 <= i < rest.len() && 0 <= m < s.len() && rest[i].pts_ns == Some(s[m].0) && s[m].1 >= rest[i].wall_ns
                    && prev.0[k] == s[m].1 - rest[i].wall_ns;
            assert(up[i] == rest[i]);
        }
        let r = up.last();
        if let Some(p) = r.pts_ns {
            let cursor = prev.1;
            if cursor < s.len() {
                lemma_group_start_range(s, cursor, p);
                let start = group_start(s, cursor, p);
                if start < s.len() && s[start].0 == p {
                    lemma_run_end(s, start, p);
                    let end = run_end(s, start, p);
                    lemma_first_wall_found(s, start, end, r.wall_ns as int);
                    let idx = first_wall_at_least(s, start, end, r.wall_ns as int);
                    if idx < end {
                        assert(s[idx].0 == p);
                        assert(up[up.len() - 1] == r);
                        assert(causal_witness(up, s, (s[idx].1 - r.wall_ns) as u64));
                    }
                }
            }
        }
    }
}

proof fn lemma_transit_witnesses(s: Seq<(u64, u64)>, src: Seq<RawRecord>)
    ensures
        transit_run(s, src).1 >= 0,
        forall|k: int| 0 <= k < transit_run(s, src).0.len() ==> transit_witness(src, s, #[trigger] transit_run(s, src).0[k]),
    decreases src.len(),
{
    if src.len() > 0 {
        let rest = src.drop_last();
        lemma_transit_witnesses(s, rest);
        let prev = transit_run(s, rest);
        assert forall|k: int| 0 <= k < prev.0.len() implies transit_witness(src, s, #[trigger] prev.0[k]) by {
            let (i, m) = choose|i: int, m: int|
                #![trigger rest[i], s[m]]
                0 <= i < rest.len() && 0 <= m < s.len() && rest[i].pts_ns == Some(s[m].0) && rest[i].wall_ns >= s[m].1
                    && prev.0[k] == rest[i].wall_ns - s[m].1;
            assert(src[i] == rest[i]);
        }
        let r = src.last();
        if let Some(p) = r.pts_ns {
            let cursor = prev.1;
            if cursor < s.len() {
                lemma_group_start_range(s, cursor, p);
                let start = group_start(s, cursor, p);
                if start < s.len() && s[start].0 == p {
                    lemma_run_end(s, start, p);
                    let end = run_end(s, start, p);
                    lemma_last_wall_found(s, start, end, r.wall_ns as int);
                    if let Some(i) = last_wall_at_most(s, start, end, r.wall_ns as int) {
                        assert(s[i].0 == p);
                        assert(src[src.len() - 1] == r);
                        assert(transit_witness(src, s, (r.wall_ns - s[i].1) as u64));
                    }
                }
            }
        }
    }
}

proof fn lemma_timed_pair_from_record(records: Seq<RawRecord>, x: (u64, u64))
    requires
        timed_pairs(records).contains(x),
    ensures
        exists|j: int| 0 <= j < records.len() && (#[trigger] records[j]).pts_ns == Some(x.0) && records[j].wall_ns == x.1,
    decreases records.len(),
{
    let rest = records.drop_last();
    let last = records.last();
    if last.pts_ns == Some(x.0) && last.wall_ns == x.1 {
        assert(records[records.len() - 1] == last);
    } else {
        let t = timed_pairs(records);
        let k = choose|k: int| 0 <= k < t.len() && t[k] == x;
        match last.pts_ns {
            Some(p) => {
                if k == t.len() - 1 {
                    assert(t[k] == (p, last.wall_ns));
                }
                assert(timed_pairs(rest)[k] == x);
            },
            None => {},
        }
        assert(timed_pairs(rest).contains(x));
        lemma_timed_pair_from_record(rest, x);
        let j = choose|j: int| 0 <= j < rest.len() && (#[trigger] rest[j]).pts_ns == Some(x.0) && rest[j].wall_ns == x.1;
        assert(records[j] == rest[j]);
    }
}

proof fn lemma_sorted_pair_from_record(records: Seq<RawRecord>, m: int)
    requires
        0 <= m < sorted_pairs(records).len(),
    ensures
        exists|j: int|
            0 <= j < records.len() && (#[trigger] records[j]).pts_ns == Some(sorted_pairs(records)[m].0)
                && records[j].wall_ns == sorted_pairs(records)[m].1,
{
    lemma_pair_order_total();
    timed_pairs(records).lemma_sort_by_ensures(pair_order());
    let x = sorted_pairs(records)[m];
    assert(sorted_pairs(records).contains(x));
    assert(timed_pairs(records).contains(x));
    lemma_timed_pair_from_record(records, x);
}

/// Every latency of a link is measured on one buffer: the time from an
/// upstream record to a downstream record of the same PTS seen no earlier,
/// so none is negative; and no more latencies are found than upstream
/// records carry a PTS.
pub proof fn law_causal_latencies_pair_same_pts(up: Seq<RawRecord>, down: Seq<RawRecord>)
    ensures
        causal_run(sorted_pairs(down), up).0.len() <= timed_count(up),
        forall|k: int|
            0 <= k < causal_run(sorted_pairs(down), up).0.len() ==> same_pts_delay(
                up,
                down,
                #[trigger] causal_run(sorted_pairs(down), up).0[k],
            ),
{
    let s = sorted_pairs(down);
    lemma_causal_run_len(s, up);
    lemma_causal_witnesses(s, up);
    let run = causal_run(s, up).0;
    assert forall|k: int| 0 <= k < run.len() implies same_pts_delay(up, down, #[trigger] run[k]) by {
        assert(causal_witness(up, s, run[k]));
        let (i, m) = choose|i: int, m: int|
            #![trigger up[i], s[m]]
            0 <= i < up.len() && 0 <= m < s.len() && up[i].pts_ns == Some(s[m].0) && s[m].1 >= up[i].wall_ns && run[k]
                == s[m].1 - up[i].wall_ns;
        lemma_sorted_pair_from_record(down, m);
        let j = choose|j: int| 0 <= j < down.len() && (#[trigger] down[j]).pts_ns == Some(s[m].0) && down[j].wall_ns == s[m].1;
        assert(up[i].pts_ns is Some && down[j].pts_ns == up[i].pts_ns);
    }
}

/// Every transit time through an element is measured on one buffer: the
/// time from a sink pad record to a src pad record of the same PTS seen no
/// earlier, so none is negative; and no more are found than src pad
/// records carry a PTS.
pub proof fn law_transit_times_pair_same_pts(sink: Seq<RawRecord>, src: Seq<RawRecord>)
    ensures
        transit_run(sorted_pairs(sink), src).0.len() <= timed_count(src),
        forall|k: int|
            0 <= k < transit_run(sorted_pairs(sink), src).0.len() ==> same_pts_delay(
                sink,
                src,
                #[trigger] transit_run(sorted_pairs(sink), src).0[k],
            ),
{
    let s = sorted_pairs(sink);
    lemma_causal_run_len(s, src);
    lemma_transit_witnesses(s, src);
    let run = transit_run(s, src).0;
    assert forall|k: int| 0 <= k < run.len() implies same_pts_delay(sink, src, #[trigger] run[k]) by {
        assert(transit_witness(src, s, run[k]));
        let (i, m) = choose|i: int, m: int|
            #![trigger src[i], s[m]]
            0 <= i < src.len() && 0 <= m < s.len() && src[i].pts_ns == Some(s[m].0) && src[i].wall_ns >= s[m].1
                && run[k] == src[i].wall_ns - s[m].1;
        lemma_sorted_pair_from_record(sink, m);
        let j = choose|j: int| 0 <= j < sink.len() && (#[trigger] sink[j]).pts_ns == Some(s[m].0) && sink[j].wall_ns == s[m].1;
        assert(sink[j].pts_ns is Some && src[i].pts_ns == sink[j].pts_ns);
    }
}

/// Transit times through an element, in nanoseconds, between the sink pad
/// and the src pad that keep the most records; `None` when either side has
/// no such pad or no buffer could be matched.
pub fn intra_element_transit_ns(sink_pads: &Vec<PadRecords>, src_pads: &Vec<PadRecords>) -> (r: Option<Vec<u64>>)
    ensures
        match (longest_records_pad(sink_pads@), longest_records_pad(src_pads@)) {
            (Some(i), Some(j)) => {
                let t = transit_run(sorted_pairs(sink_pads@[i].records.unwrap()@), src_pads@[j].records.unwrap()@).0;
                if t.len() == 0 {
                    r is None
                } else {
                    r matches Some(v) && v@ == t
                }
            },
            _ => r is None,
        },
{
    let i = match longest_records_index(sink_pads) {
        Some(i) => i,
        None => {
            return None;
        },
    };
    let j = match longest_records_index(src_pads) {
        Some(j) => j,
        None => {
            return None;
        },
    };
    proof {
        lemma_longest_in_range(sink_pads@);
        lemma_longest_in_range(src_pads@);
    }
    match (&sink_pads[i].records, &src_pads[j].records) {
        (Some(sink_records), Some(src_records)) => {
            if sink_records.len() == 0 || src_records.len() == 0 {
                proof {
                    lemma_transit_without_records(sink_records@, src_records@);
                }
                return None;
            }
            let t = transit_times_ns(sink_records, src_records);
            if t.len() == 0 {
                None
            } else {
                Some(t)
            }
        },
        _ => None,
    }
}

proof fn lemma_transit_without_records(sink_records: Seq<RawRecord>, src_records: Seq<RawRecord>)
    requires
        sink_records.len() == 0 || src_records.len() == 0,
    ensures
        transit_run(sorted_pairs(sink_records), src_records).0.len() == 0,
{
    lemma_timed_pairs_len(sink_records);
    lemma_sorted_pairs_sorted(sink_records);
    lemma_transit_empty(sorted_pairs(sink_records), src_records);
}

proof fn lemma_transit_empty(s: Seq<(u64, u64)>, records: Seq<RawRecord>)
    requires
        s.len() == 0 || records.len() == 0,
    ensures
        transit_run(s, records).0.len() == 0,
        transit_run(s, records).1 == 0,
    decreases records.len(),
{
    if records.len() > 0 {
        lemma_transit_empty(s, records.drop_last());
    }
}

/// What one link contributes to its pipeline's overall confidence.
#[derive(Clone, Copy, Debug, PartialEq, Eq, Structural)]
pub struct EdgeConfidence {
    pub confidence: Option<CausalConfidence>,
    pub matched_samples: Option<u64>,
}

/// A link weighs as many matches as it had, and at least one.
pub open spec fn edge_weight(e: EdgeConfidence) -> int {
    match e.matched_samples {
        Some(m) => if m >= 1 {
            m as int
        } else {
            1
        },
        None => 1,
    }
}

/// The total weight of the links of confidence `c`.
pub open spec fn confidence_weight(edges: Seq<EdgeConfidence>, c: CausalConfidence) -> int
    decreases edges.len(),
{
    if edges.len() == 0 {
        0
    } else {
        confidence_weight(edges.drop_last(), c) + if edges.last().confidence == Some(c) {
            edge_weight(edges.last())
        } else {
            0
        }
    }
}

/// The weighted mean of the links' scores (low 1, medium 2, high 3) gives
/// the pipeline's confidence: high from 2.5 on, medium from 1.5 on, low
/// below; none when no link has a confidence.
pub open spec fn aggregate_confidence_spec(edges: Seq<EdgeConfidence>) -> Option<CausalConfidence> {
    let l = confidence_weight(edges, CausalConfidence::Low);
    let m = confidence_weight(edges, CausalConfidence::Medium);
    let h = confidence_weight(edges, CausalConfidence::High);
    let total = l + m + h;
    let score = l + 2 * m + 3 * h;
    if total <= 0 {
        None
    } else if 2 * score >= 5 * total {
        Some(CausalConfidence::High)
    } else if 2 * score >= 3 * total {
        Some(CausalConfidence::Medium)
    } else {
        Some(CausalConfidence::Low)
    }
}

proof fn lemma_weights_nonneg(edges: Seq<EdgeConfidence>, c: CausalConfidence)
    ensures
        0 <= confidence_weight(edges, c) <= edges.len() * u64::MAX,
    decreases edges.len(),
{
    if edges.len() > 0 {
        lemma_weights_nonneg(edges.drop_last(), c);
        assert((edges.len() - 1) * u64::MAX + u64::MAX == edges.len() * u64::MAX) by (nonlinear_arith);
    }
}

/// The overall confidence of a pipeline's links.
pub fn aggregate_causal_latency_health(edges: &Vec<EdgeConfidence>) -> (r: Option<CausalConfidence>)
    ensures
        r == aggregate_confidence_spec(edges@),
{
    let n = edges.len();
    let mut l: u128 = 0;
    let mut m: u128 = 0;
    let mut h: u128 = 0;
    let mut k: usize = 0;
    while k < n
        invariant
            n == edges@.len(),
            k <= n,
            l == confidence_weight(edges@.take(k as int), CausalConfidence::Low),
            m == confidence_weight(edges@.take(k as int), CausalConfidence::Medium),
            h == confidence_weight(edges@.take(k as int), CausalConfidence::High),
        decreases n - k,
    {
        let ghost prefix = edges@.take(k + 1);
        proof {
            assert(prefix.drop_last() =~= edges@.take(k as int));
            lemma_weights_nonneg(prefix, CausalConfidence::Low);
            lemma_weights_nonneg(prefix, CausalConfidence::Medium);
            lemma_weights_nonneg(prefix, CausalConfidence::High);
            assert((k + 1) * u64::MAX <= u128::MAX) by (nonlinear_arith)
                requires
                    k < usize::MAX,
                    usize::MAX <= u64::MAX,
            ;
        }
        let e = edges[k];
        let weight: u128 = match e.matched_samples {
            Some(s) => if s >= 1 {
                s as u128
            } else {
                1
            },
            None => 1,
        };
        match e.confidence {
            Some(CausalConfidence::Low) => l = l + weight,
            Some(CausalConfidence::Medium) => m = m + weight,
            Some(CausalConfidence::High) => h = h + weight,
            None => {},
        }
        k = k + 1;
    }
    proof {
        assert(edges@.take(n as int) =~= edges@);
        lemma_weights_nonneg(edges@, CausalConfidence::Low);
        assert(n * u64::MAX + 2 < u128::MAX) by (nonlinear_arith)
            requires
                n <= u64::MAX,
        ;
    }
    if l == 0 && m == 0 && h == 0 {
        return None;
    }
    // With total weight w and score s: 2s >= 5w exactly when h >= 3l + m,
    // and 2s >= 3w exactly when m + 3h >= l.
    let high = h >= m && (h - m) / 3 >= l;
    let medium = l <= m || (l - m + 2) / 3 <= h;
    proof {
        let li = l as int;
        let mi = m as int;
        let hi = h as int;
        assert(high <==> hi >= 3 * li + mi) by (nonlinear_arith)
            requires
                high == (h >= m && (h - m) / 3 >= l),
                li == l,
                mi == m,
                hi == h,
        ;
        assert(medium <==> mi + 3 * hi >= li) by (nonlinear_arith)
            requires
                medium == (l <= m || (l - m + 2) / 3 <= h),
                li == l,
                mi == m,
                hi == h,
                l < u128::MAX,
        ;
    }
    if high {
        Some(CausalConfidence::High)
    } else if medium {
        Some(CausalConfidence::Medium)
    } else {
        Some(CausalConfidence::Low)
    }
}

/// The PTS values of the records that carry one, in record order.
pub open spec fn pts_values(records: Seq<RawRecord>) -> Seq<u64> {
    timed_pairs(records).map_values(|p: (u64, u64)| p.0)
}

/// How many distinct PTS values the records carry: the frames of a stream
/// whose buffers are packets of frames.
pub open spec fn distinct_pts_count(records: Seq<RawRecord>) -> nat {
    pts_values(records).to_set().len()
}

/// The earliest wall-clock time of the records; `u64::MAX` without records.
pub open spec fn min_wall(records: Seq<RawRecord>) -> u64
    decreases records.len(),
{
    if records.len() == 0 {
        u64::MAX
    } else {
        let prev = min_wall(records.drop_last());
        if records.last().wall_ns < prev {
            records.last().wall_ns
        } else {
            prev
        }
    }
}

/// The latest wall-clock time of the records; 0 without records.
pub open spec fn max_wall(records: Seq<RawRecord>) -> u64
    decreases records.len(),
{
    if records.len() == 0 {
        0
    } else {
        let prev = max_wall(records.drop_last());
        if records.last().wall_ns > prev {
            records.last().wall_ns
        } else {
            prev
        }
    }
}

/// What a pad's records say of the frames that crossed it.
#[derive(Clone, Copy, Debug, PartialEq, Eq, Structural)]
pub struct FrameMetrics {
    /// The distinct PTS values when the records carry any, else the pad's
    /// buffer count.
    pub frame_count: u64,
    pub unique_pts_count: u64,
    /// With at least two distinct PTS values, the time between the earliest
    /// and the latest record when it is not zero: the span over which the
    /// frame rate is measured.
    pub wall_span_ns: Option<u64>,
}

pub open spec fn frame_metrics_spec(total_buffers: u64, records: Option<Seq<RawRecord>>) -> FrameMetrics {
    match records {
        None => FrameMetrics { frame_count: total_buffers, unique_pts_count: 0, wall_span_ns: None },
        Some(recs) => {
            let unique = distinct_pts_count(recs);
            let span = if max_wall(recs) > min_wall(recs) {
                (max_wall(recs) - min_wall(recs)) as u64
            } else {
                0
            };
            FrameMetrics {
                frame_count: if unique == 0 {
                    total_buffers
                } else {
                    unique as u64
                },
                unique_pts_count: unique as u64,
                wall_span_ns: if unique >= 2 && span > 0 {
                    Some(span)
                } else {
                    None
                },
            }
        },
    }
}

proof fn lemma_same_pts_set(records: Seq<RawRecord>, distinct: Seq<u64>)
    requires
        forall|x: u64| distinct.contains(x) <==> exists|j: int|
            0 <= j < sorted_pairs(records).len() && (#[trigger] sorted_pairs(records)[j]).0 == x,
    ensures
        distinct.to_set() == pts_values(records).to_set(),
{
    broadcast use vstd::seq_lib::to_multiset_contains;

    lemma_pair_order_total();
    timed_pairs(records).lemma_sort_by_ensures(pair_order());
    let t = timed_pairs(records);
    let s = sorted_pairs(records);
    assert forall|x: u64| distinct.to_set().contains(x) == pts_values(records).to_set().contains(x) by {
        if distinct.contains(x) {
            let j = choose|j: int| 0 <= j < s.len() && (#[trigger] s[j]).0 == x;
            assert(s.contains(s[j]));
            assert(s.to_multiset().count(s[j]) > 0);
            assert(t.contains(s[j]));
            let i = choose|i: int| 0 <= i < t.len() && t[i] == s[j];
            assert(pts_values(records)[i] == x);
            assert(pts_values(records).contains(x));
        }
        if pts_values(records).contains(x) {
            let i = choose|i: int| 0 <= i < pts_values(records).len() && pts_values(records)[i] == x;
            assert(t[i].0 == x);
            assert(t.contains(t[i]));
            assert(t.to_multiset().count(t[i]) > 0);
            assert(s.contains(t[i]));
            let j = choose|j: int| 0 <= j < s.len() && s[j] == t[i];
            assert(s[j].0 == x);
        }
    }
    assert(distinct.to_set() =~= pts_values(records).to_set());
}

/// The frame metrics of a pad from its buffer count and its records.
pub fn pad_frame_metrics(total_buffers: u64, records: &Option<Vec<RawRecord>>) -> (r: FrameMetrics)
    ensures
        r == frame_metrics_spec(
            total_buffers,
            match records {
                Some(v) => Some(v@),
                None => None,
            },
        ),
{
    let recs = match records {
        Some(v) => v,
        None => {
            return FrameMetrics { frame_count: total_buffers, unique_pts_count: 0, wall_span_ns: None };
        },
    };
    let n = recs.len();
    let mut first_wall: u64 = u64::MAX;
    let mut last_wall: u64 = 0;
    let mut k: usize = 0;
    while k < n
        invariant
            n == recs@.len(),
            k <= n,
            first_wall == min_wall(recs@.take(k as int)),
            last_wall == max_wall(recs@.take(k as int)),
        decreases n - k,
    {
        proof {
            assert(recs@.take(k + 1).drop_last() =~= recs@.take(k as int));
        }
        let w = recs[k].wall_ns;
        if w < first_wall {
            first_wall = w;
        }
        if w > last_wall {
            last_wall = w;
        }
        k = k + 1;
    }
    proof {
        assert(recs@.take(n as int) =~= recs@);
    }
    let pairs = sorted_timed_pairs(recs);
    proof {
        lemma_sorted_pairs_sorted(recs@);
    }
    let ghost s = pairs@;
    let mut distinct: Vec<u64> = Vec::new();
    let mut j: usize = 0;
    while j < pairs.len()
        invariant
            s == pairs@,
            pairs_sorted(s),
            j <= s.len(),
            forall|a: int, b: int| 0 <= a < b < distinct@.len() ==> distinct@[a] < distinct@[b],
            j > 0 ==> distinct@.len() > 0 && distinct@.last() == s[j - 1].0,
            j == 0 ==> distinct@.len() == 0,
            forall|x: u64| distinct@.contains(x) <==> exists|i: int| 0 <= i < j && (#[trigger] s[i]).0 == x,
        decreases s.len() - j,
    {
        let p = pairs[j].0;
        let ghost before = distinct@;
        if distinct.len() == 0 || distinct[distinct.len() - 1] != p {
            proof {
                if j > 0 {
                    assert(pair_leq(s[j - 1], s[j as int]));
                }
            }
            distinct.push(p);
        }
        proof {
            assert forall|x: u64| distinct@.contains(x) <==> exists|i: int|
                0 <= i < j + 1 && (#[trigger] s[i]).0 == x by {
                if distinct@.contains(x) && !before.contains(x) {
                    assert(x == p);
                    assert(s[j as int].0 == x);
                }
                if exists|i: int| 0 <= i < j + 1 && (#[trigger] s[i]).0 == x {
                    let i = choose|i: int| 0 <= i < j + 1 && (#[trigger] s[i]).0 == x;
                    if i == j {
                        assert(distinct@.last() == p);
                        assert(distinct@[distinct@.len() - 1] == p);
                    } else {
                        assert(before.contains(x));
                        let a = choose|a: int| 0 <= a < before.len() && before[a] == x;
                        assert(distinct@[a] == x);
                    }
                }
            }
        }
        j = j + 1;
    }
    proof {
        lemma_same_pts_set(recs@, distinct@);
        assert(distinct@.no_duplicates()) by {
            assert forall|a: int, b: int| 0 <= a < distinct@.len() && 0 <= b < distinct@.len() && a != b implies distinct@[a]
                != distinct@[b] by {
                if a < b {
                    assert(distinct@[a] < distinct@[b]);
                } else {
                    assert(distinct@[b] < distinct@[a]);
                }
            }
        }
        distinct@.unique_seq_to_set();
    }
    let unique = distinct.len() as u64;
    let span: u64 = if last_wall > first_wall {
        last_wall - first_wall
    } else {
        0
    };
    FrameMetrics {
        frame_count: if unique == 0 {
            total_buffers
        } else {
            unique
        },
        unique_pts_count: unique,
        wall_span_ns: if unique >= 2 && span > 0 {
            Some(span)
        } else {
            None
        },
    }
}

pub open spec fn records_view(records: Option<Vec<RawRecord>>) -> Option<Seq<RawRecord>> {
    match records {
        Some(v) => Some(v@),
        None => None,
    }
}

/// An element's pads, as far as the frame count goes.
pub struct ElementRecords {
    pub element_name: String,
    pub src_pads: Vec<PadRecords>,
    pub sink_pads: Vec<PadRecords>,
}

/// The frames counted on an element's primary pad: the busiest of its pads,
/// src pads before sink pads, the last of them on a tie.
pub open spec fn element_frames(e: ElementRecords) -> Option<u64> {
    let all = e.src_pads@ + e.sink_pads@;
    match busiest_pad(all) {
        Some(i) => Some(frame_metrics_spec(all[i].total_buffers, records_view(all[i].records)).frame_count),
        None => None,
    }
}

/// The most frames counted on the primary pad of any element; 0 when no
/// element has a pad.
pub open spec fn total_frames_spec(elements: Seq<ElementRecords>) -> u64
    decreases elements.len(),
{
    if elements.len() == 0 {
        0
    } else {
        let prev = total_frames_spec(elements.drop_last());
        match element_frames(elements.last()) {
            Some(f) => if f > prev {
                f
            } else {
                prev
            },
            None => prev,
        }
    }
}

fn element_primary_frames(e: &ElementRecords) -> (r: Option<u64>)
    ensures
        r == element_frames(*e),
{
    let ghost all = e.src_pads@ + e.sink_pads@;
    let ns = e.src_pads.len();
    let mut best: Option<&PadRecords> = None;
    let ghost mut best_idx: int = -1;
    let mut k: usize = 0;
    while k < ns
        invariant
            all == e.src_pads@ + e.sink_pads@,
            ns == e.src_pads@.len(),
            k <= ns,
            match best {
                Some(p) => busiest_pad(all.take(k as int)) == Some(best_idx) && 0 <= best_idx < k && *p
                    == all[best_idx],
                None => busiest_pad(all.take(k as int)) is None,
            },
        decreases ns - k,
    {
        proof {
            assert(all.take(k + 1).drop_last() =~= all.take(k as int));
        }
        let pad_k = &e.src_pads[k];
        assert(*pad_k == all[k as int]);
        let better = match best {
            None => true,
            Some(p) => pad_k.total_buffers >= p.total_buffers,
        };
        if better {
            best = Some(pad_k);
            proof {
                best_idx = k as int;
            }
        }
        k = k + 1;
    }
    let nk = e.sink_pads.len();
    let mut j: usize = 0;
    while j < nk
        invariant
            all == e.src_pads@ + e.sink_pads@,
            ns == e.src_pads@.len(),
            nk == e.sink_pads@.len(),
            j <= nk,
            match best {
                Some(p) => busiest_pad(all.take(ns + j)) == Some(best_idx) && 0 <= best_idx < ns + j && *p
                    == all[best_idx],
                None => busiest_pad(all.take(ns + j)) is None,
            },
        decreases nk - j,
    {
        proof {
            assert(all.take(ns + j + 1).drop_last() =~= all.take(ns + j));
        }
        let pad_j = &e.sink_pads[j];
        assert(*pad_j == all[ns + j]);
        let better = match best {
            None => true,
            Some(p) => pad_j.total_buffers >= p.total_buffers,
        };
        if better {
            best = Some(pad_j);
            proof {
                best_idx = ns + j;
            }
        }
        j = j + 1;
    }
    proof {
        assert(all.take(ns + nk) =~= all);
    }
    match best {
        Some(pad) => Some(pad_frame_metrics(pad.total_buffers, &pad.records).frame_count),
        None => None,
    }
}

/// The pipeline's frame count: the most frames counted on the primary pad
/// of any of its elements.
pub fn summary_total_frames(elements: &Vec<ElementRecords>) -> (r: u64)
    ensures
        r == total_frames_spec(elements@),
{
    let n = elements.len();
    let mut best: u64 = 0;
    let mut k: usize = 0;
    while k < n
        invariant
            n == elements@.len(),
            k <= n,
            best == total_frames_spec(elements@.take(k as int)),
        decreases n - k,
    {
        proof {
            assert(elements@.take(k + 1).drop_last() =~= elements@.take(k as int));
        }
        match element_primary_frames(&elements[k]) {
            Some(f) => {
                if f > best {
                    best = f;
                }
            },
            None => {},
        }
        k = k + 1;
    }
    proof {
        assert(elements@.take(n as int) =~= elements@);
    }
    best
}

/// The pipeline's frame count is the largest of its elements' counts: no
/// element with a pad counted more, and it is the count of one of them, or
/// 0 when no element counted anything.
pub proof fn law_total_frames_is_largest(elements: Seq<ElementRecords>)
    ensures
        forall|k: int|
            0 <= k < elements.len() && (#[trigger] element_frames(elements[k])) is Some ==> element_frames(
                elements[k],
            ).unwrap() <= total_frames_spec(elements),
        total_frames_spec(elements) == 0 || exists|k: int|
            0 <= k < elements.len() && #[trigger] element_frames(elements[k]) == Some(total_frames_spec(elements)),
    decreases elements.len(),
{
    if elements.len() > 0 {
        let rest = elements.drop_last();
        law_total_frames_is_largest(rest);
        assert forall|k: int| 0 <= k < elements.len() && (#[trigger] element_frames(elements[k])) is Some implies element_frames(
            elements[k],
        ).unwrap() <= total_frames_spec(elements) by {
            if k < rest.len() {
                assert(elements[k] == rest[k]);
                assert(element_frames(rest[k]) == element_frames(elements[k]));
            }
        }
        if total_frames_spec(elements) != 0 {
            if total_frames_spec(elements) == total_frames_spec(rest) {
                let k = choose|k: int|
                    0 <= k < rest.len() && #[trigger] element_frames(rest[k]) == Some(total_frames_spec(rest));
                assert(elements[k] == rest[k]);
            } else {
                assert(element_frames(elements[elements.len() - 1]) == Some(total_frames_spec(elements)));
            }
        }
    }
}

/// The latest wall-clock time seen on any of the pads, those of `primary`
/// first; 0 without pads.
pub open spec fn latest_wall(primary: Seq<PadRecords>, secondary: Seq<PadRecords>) -> u64 {
    max_last_wall(primary + secondary)
}

pub open spec fn max_last_wall(pads: Seq<PadRecords>) -> u64
    decreases pads.len(),
{
    if pads.len() == 0 {
        0
    } else {
        let prev = max_last_wall(pads.drop_last());
        if pads.last().last_wall_ns > prev {
            pads.last().last_wall_ns
        } else {
            prev
        }
    }
}

fn max_last_wall_of(pads: &Vec<PadRecords>, start: u64) -> (r: u64)
    ensures
        r == (if max_last_wall(pads@) > start {
            max_last_wall(pads@)
        } else {
            start
        }),
{
    let mut best = start;
    let mut k: usize = 0;
    while k < pads.len()
        invariant
            k <= pads@.len(),
            best == (if max_last_wall(pads@.take(k as int)) > start {
                max_last_wall(pads@.take(k as int))
            } else {
                start
            }),
        decreases pads@.len() - k,
    {
        proof {
            assert(pads@.take(k + 1).drop_last() =~= pads@.take(k as int));
        }
        if pads[k].last_wall_ns > best {
            best = pads[k].last_wall_ns;
        }
        k = k + 1;
    }
    proof {
        assert(pads@.take(pads@.len() as int) =~= pads@);
    }
    best
}

proof fn lemma_max_last_wall_concat(a: Seq<PadRecords>, b: Seq<PadRecords>)
    ensures
        max_last_wall(a + b) == (if max_last_wall(b) > max_last_wall(a) {
            max_last_wall(b)
        } else {
            max_last_wall(a)
        }),
    decreases b.len(),
{
    if b.len() > 0 {
        assert((a + b).drop_last() =~= a + b.drop_last());
        lemma_max_last_wall_concat(a, b.drop_last());
    } else {
        assert(a + b =~= a);
    }
}

/// The latest wall-clock time seen on the pads of `primary` and `secondary`.
pub fn latest_wall_ns(primary: &Vec<PadRecords>, secondary: &Vec<PadRecords>) -> (r: u64)
    ensures
        r == latest_wall(primary@, secondary@),
{
    let a = max_last_wall_of(primary, 0);
    let r = max_last_wall_of(secondary, a);
    proof {
        lemma_max_last_wall_concat(primary@, secondary@);
    }
    r
}

/// The first element named `name`.
pub open spec fn element_named(elements: Seq<ElementRecords>, name: Seq<char>, k: int) -> Option<int>
    decreases elements.len() - k,
{
    if k >= elements.len() {
        None
    } else if elements[k].element_name@ == name {
        Some(k)
    } else {
        element_named(elements, name, k + 1)
    }
}

/// The delay measured on one link of the topology.
pub struct EdgeDelay {
    /// The link's index among the topology's edges.
    pub edge_idx: usize,
    /// How long after the upstream element's latest buffer the downstream
    /// element saw its latest one, in nanoseconds (0 when it was earlier).
    pub freshness_delay_ns: u64,
    pub causal: Option<CausalLatency>,
}

/// What link `i` gives: nothing unless both of its elements are known and
/// have seen a buffer; else the freshness delay between the upstream
/// element's latest buffer (src pads first) and the downstream element's
/// (sink pads first), and the link's causal latency.
pub open spec fn edge_delay_holds(elements: Seq<ElementRecords>, edges: Seq<TopologyEdge>, i: int, d: EdgeDelay) -> bool {
    let e = edges[i];
    match (element_named(elements, e.from_node@, 0), element_named(elements, e.to_node@, 0)) {
        (Some(f), Some(t)) => {
            let from_wall = latest_wall(elements[f].src_pads@, elements[f].sink_pads@);
            let to_wall = latest_wall(elements[t].sink_pads@, elements[t].src_pads@);
            &&& d.edge_idx == i
            &&& d.freshness_delay_ns == (if to_wall > from_wall {
                (to_wall - from_wall) as u64
            } else {
                0
            })
            &&& match (
                upstream_pad(elements[f].src_pads@, elements[f].sink_pads@, e.from_pad@),
                downstream_pad(elements[t].sink_pads@, e.to_pad@),
            ) {
                (Some(up), Some(down)) => match (up.records, down.records) {
                    (Some(ur), Some(dr)) => d.causal matches Some(c) && c.latencies_ns@ == causal_run(
                        sorted_pairs(dr@),
                        ur@,
                    ).0 && c.sources_with_pts == timed_count(ur@) && c.confidence == confidence_spec(
                        causal_run(sorted_pairs(dr@), ur@).0.len() as int,
                        timed_count(ur@) as int,
                    ),
                    _ => d.causal is None,
                },
                _ => d.causal is None,
            }
        },
        _ => false,
    }
}

/// Whether link `i` gives a delay: both of its elements are known and have
/// seen a buffer.
pub open spec fn edge_measured(elements: Seq<ElementRecords>, edges: Seq<TopologyEdge>, i: int) -> bool {
    let e = edges[i];
    match (element_named(elements, e.from_node@, 0), element_named(elements, e.to_node@, 0)) {
        (Some(f), Some(t)) => latest_wall(elements[f].src_pads@, elements[f].sink_pads@) > 0 && latest_wall(
            elements[t].sink_pads@,
            elements[t].src_pads@,
        ) > 0,
        _ => false,
    }
}

/// The links among the first `k` that give a delay, in order.
pub open spec fn measured_edges(elements: Seq<ElementRecords>, edges: Seq<TopologyEdge>, k: int) -> Seq<int>
    decreases k,
{
    if k <= 0 {
        Seq::empty()
    } else if edge_measured(elements, edges, k - 1) {
        measured_edges(elements, edges, k - 1).push(k - 1)
    } else {
        measured_edges(elements, edges, k - 1)
    }
}

fn find_element(elements: &Vec<ElementRecords>, name: &str) -> (r: Option<usize>)
    ensures
        r matches Some(i) ==> element_named(elements@, name@, 0) == Some(i as int) && i < elements@.len(),
        r is None ==> element_named(elements@, name@, 0) is None,
{
    let n = elements.len();
    let mut k: usize = 0;
    while k < n
        invariant
            n == elements@.len(),
            k <= n,
            element_named(elements@, name@, k as int) == element_named(elements@, name@, 0),
        decreases n - k,
    {
        if str_eq(elements[k].element_name.as_str(), name) {
            return Some(k);
        }
        k = k + 1;
    }
    None
}

/// The delays of a topology's links, for those whose elements are both
/// known and have seen a buffer, in the order of the links; none without a
/// topology.
pub fn compute_edge_delays(elements: &Vec<ElementRecords>, topology: Option<&Vec<TopologyEdge>>) -> (r: Vec<
    EdgeDelay,
>)
    ensures
        match topology {
            None => r@.len() == 0,
            Some(edges) => {
                let measured = measured_edges(elements@, edges@, edges@.len() as int);
                &&& r@.len() == measured.len()
                &&& forall|k: int| 0 <= k < r@.len() ==> edge_delay_holds(elements@, edges@, measured[k], #[trigger] r@[k])
            },
        },
{
    let edges = match topology {
        Some(t) => t,
        None => {
            return Vec::new();
        },
    };
    let m = edges.len();
    let mut out: Vec<EdgeDelay> = Vec::new();
    let mut i: usize = 0;
    while i < m
        invariant
            m == edges@.len(),
            i <= m,
            out@.len() == measured_edges(elements@, edges@, i as int).len(),
            forall|k: int|
                0 <= k < out@.len() ==> edge_delay_holds(
                    elements@,
                    edges@,
                    measured_edges(elements@, edges@, i as int)[k],
                    #[trigger] out@[k],
                ),
        decreases m - i,
    {
        let e = &edges[i];
        let from = find_element(elements, e.from_node.as_str());
        let to = find_element(elements, e.to_node.as_str());
        match (from, to) {
            (Some(f), Some(t)) => {
                let from_el = &elements[f];
                let to_el = &elements[t];
                let from_wall = latest_wall_ns(&from_el.src_pads, &from_el.sink_pads);
                let to_wall = latest_wall_ns(&to_el.sink_pads, &to_el.src_pads);
                if from_wall > 0 && to_wall > 0 {
                    let freshness_delay_ns = if to_wall > from_wall {
                        to_wall - from_wall
                    } else {
                        0
                    };
                    let causal = compute_causal_edge_latency(
                        &from_el.src_pads,
                        &from_el.sink_pads,
                        &to_el.sink_pads,
                        e.from_pad.as_str(),
                        e.to_pad.as_str(),
                    );
                    let d = EdgeDelay { edge_idx: i, freshness_delay_ns, causal };
                    proof {
                        assert(edge_delay_holds(elements@, edges@, i as int, d));
                    }
                    out.push(d);
                }
            },
            _ => {},
        }
        i = i + 1;
    }
    out
}

/// The most recent `limit` records of a pad, oldest first; none when the
/// limit is 0.
pub fn buffer_tail(records: &Option<Vec<RawRecord>>, limit: usize) -> (r: Vec<RawRecord>)
    ensures
        r@.len() <= limit,
        limit == 0 ==> r@.len() == 0,
        limit > 0 ==> r@ == match records {
            Some(v) => v@.skip(if v@.len() > limit {
                v@.len() - limit
            } else {
                0
            }),
            None => Seq::empty(),
        },
{
    let mut out: Vec<RawRecord> = Vec::new();
    if limit == 0 {
        return out;
    }
    match records {
        Some(v) => {
            let n = v.len();
            let skip = if n > limit {
                n - limit
            } else {
                0
            };
            let mut k: usize = skip;
            while k < n
                invariant
                    n == v@.len(),
                    skip <= k <= n,
                    out@ == v@.subrange(skip as int, k as int),
                decreases n - k,
            {
                out.push(v[k]);
                proof {
                    assert(out@ =~= v@.subrange(skip as int, k + 1));
                }
                k = k + 1;
            }
            proof {
                assert(v@.skip(skip as int) =~= v@.subrange(skip as int, n as int));
            }
            out
        },
        None => out,
    }
}

/// Walking the records, the wall-clock times between consecutive keyframes
/// (only when the later one was seen after the earlier), and the time of
/// the last keyframe.
pub open spec fn keyframe_walk(records: Seq<RawRecord>) -> (Seq<u64>, Option<u64>)
    decreases records.len(),
{
    if records.len() == 0 {
        (Seq::empty(), None)
    } else {
        let prev = keyframe_walk(records.drop_last());
        let r = records.last();
        if r.is_keyframe {
            (
                match prev.1 {
                    Some(w) => if r.wall_ns > w {
                        prev.0.push((r.wall_ns - w) as u64)
                    } else {
                        prev.0
                    },
                    None => prev.0,
                },
                Some(r.wall_ns),
            )
        } else {
            prev
        }
    }
}

/// The keyframe intervals of a pad, in nanoseconds, when there are at least
/// two of them among at least two records.
pub fn keyframe_intervals_ns(records: &Vec<RawRecord>) -> (r: Option<Vec<u64>>)
    ensures
        match r {
            Some(v) => records@.len() >= 2 && keyframe_walk(records@).0.len() >= 2 && v@ == keyframe_walk(
                records@,
            ).0,
            None => !(records@.len() >= 2 && keyframe_walk(records@).0.len() >= 2),
        },
{
    let n = records.len();
    if n < 2 {
        return None;
    }
    let mut out: Vec<u64> = Vec::new();
    let mut last: Option<u64> = None;
    let mut k: usize = 0;
    while k < n
        invariant
            n == records@.len(),
            k <= n,
            out@ == keyframe_walk(records@.take(k as int)).0,
            last == keyframe_walk(records@.take(k as int)).1,
        decreases n - k,
    {
        proof {
            assert(records@.take(k + 1).drop_last() =~= records@.take(k as int));
        }
        let rec = records[k];
        if rec.is_keyframe {
            match last {
                Some(w) => {
                    if rec.wall_ns > w {
                        out.push(rec.wall_ns - w);
                    }
                },
                None => {},
            }
            last = Some(rec.wall_ns);
        }
        k = k + 1;
    }
    proof {
        assert(records@.take(n as int) =~= records@);
    }
    if out.len() >= 2 {
        Some(out)
    } else {
        None
    }
}

} // verus!
