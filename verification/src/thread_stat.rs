//! Parsing of the per-thread `stat` records that Linux exposes under
//! `/proc/self/task/{tid}/stat`.
//!
//! A record reads `pid (comm) state ppid pgrp session tty_nr tpgid flags
//! minflt cminflt majflt cmajflt utime stime ...`. The `comm` field is enclosed
//! in parentheses and may itself contain spaces and parentheses, so it runs
//! from the first `(` to the last `)`.
use std::collections::HashMap;
use vstd::prelude::*;
use vstd::string::StrSliceExecFns;
use crate::text::{chars_of, parse_u64_range, parse_u64_spec, split_ws, split_ws_ranges};

verus! {

/// Index of the first `c` in `s`, or -1.
pub open spec fn index_of_first(s: Seq<char>, c: char) -> int
    decreases s.len(),
{
    if s.len() == 0 {
        -1
    } else if s[0] == c {
        0
    } else {
        let r = index_of_first(s.drop_first(), c);
        if r < 0 {
            -1
        } else {
            r + 1
        }
    }
}

/// Index of the last `c` in `s`, or -1.
pub open spec fn index_of_last(s: Seq<char>, c: char) -> int
    decreases s.len(),
{
    if s.len() == 0 {
        -1
    } else if s.last() == c {
        s.len() - 1
    } else {
        index_of_last(s.drop_last(), c)
    }
}

/// Inputs on which the record can be sliced: when both parentheses occur,
/// the first `(` stands before the last `)`.
pub open spec fn thread_stat_sliceable(s: Seq<char>) -> bool {
    index_of_first(s, '(') >= 0 && index_of_last(s, ')') >= 0 ==> index_of_first(s, '(')
        < index_of_last(s, ')')
}

/// `(utime, stime, comm)` of a stat record: `comm` lies between the first `(`
/// and the last `)`; the record goes on two bytes after that `)` (so the
/// character after it must be a one-byte one); `utime` and `stime` are the
/// 12th and 13th whitespace-separated fields there.
pub open spec fn thread_stat_spec(s: Seq<char>) -> Option<(u64, u64, Seq<char>)> {
    let open = index_of_first(s, '(');
    let close = index_of_last(s, ')');
    if open < 0 || close < 0 {
        None
    } else if close + 1 >= s.len() || (s[close + 1] as u32) >= 0x80 {
        None
    } else {
        let fields = split_ws(s.skip(close + 2));
        if fields.len() < 13 {
            None
        } else {
            match (parse_u64_spec(fields[11]), parse_u64_spec(fields[12])) {
                (Some(utime), Some(stime)) => Some((utime, stime, s.subrange(open + 1, close))),
                _ => None,
            }
        }
    }
}

proof fn lemma_index_of_first(s: Seq<char>, c: char, i: int)
    requires
        0 <= i <= s.len(),
        forall|k: int| 0 <= k < i ==> s[k] != c,
        i == s.len() || s[i] == c,
    ensures
        index_of_first(s, c) == (if i == s.len() { -1 } else { i }),
    decreases s.len(),
{
    if s.len() > 0 && s[0] != c {
        assert forall|k: int| 0 <= k < i - 1 implies s.drop_first()[k] != c by {
            assert(s.drop_first()[k] == s[k + 1]);
        }
        lemma_index_of_first(s.drop_first(), c, i - 1);
    }
}

proof fn lemma_index_of_last(s: Seq<char>, c: char, i: int)
    requires
        -1 <= i < s.len(),
        forall|k: int| i < k < s.len() ==> s[k] != c,
        i == -1 || s[i] == c,
    ensures
        index_of_last(s, c) == i,
    decreases s.len(),
{
    if s.len() > 0 && i < s.len() - 1 {
        assert forall|k: int| i < k < s.len() - 1 implies s.drop_last()[k] != c by {
            assert(s.drop_last()[k] == s[k]);
        }
        lemma_index_of_last(s.drop_last(), c, i);
    }
}

/// Parses the content of a `/proc/self/task/{tid}/stat` file into
/// `(utime, stime, comm)`.
pub fn parse_thread_stat(content: &str) -> (r: Option<(u64, u64, String)>)
    requires
        thread_stat_sliceable(content@),
    ensures
        match r {
            Some((utime, stime, comm)) => thread_stat_spec(content@) == Some((utime, stime, comm@)),
            None => thread_stat_spec(content@) is None,
        },
{
    let s = chars_of(content);
    let n: usize = s.len();
    let mut open: usize = 0;
    while open < n && s[open] != '('
        invariant
            open <= n == s@.len(),
            forall|k: int| 0 <= k < open ==> s@[k] != '(',
        decreases n - open,
    {
        open = open + 1;
    }
    proof {
        lemma_index_of_first(s@, '(', open as int);
    }
    if open == n {
        return None;
    }
    let mut close: usize = n;
    while close > 0 && s[close - 1] != ')'
        invariant
            close <= n == s@.len(),
            forall|k: int| close <= k < n ==> s@[k] != ')',
        decreases close,
    {
        close = close - 1;
    }
    proof {
        lemma_index_of_last(s@, ')', close - 1);
    }
    if close == 0 {
        return None;
    }
    let close: usize = close - 1;
    let comm = content.substring_char(open + 1, close).to_owned();
    if close + 1 >= n || (s[close + 1] as u32) >= 0x80 {
        return None;
    }
    let fields = split_ws_ranges(&s, close + 2);
    if fields.len() < 13 {
        return None;
    }
    let (a, b) = fields[11];
    let utime = parse_u64_range(&s, a, b);
    let (c, d) = fields[12];
    let stime = parse_u64_range(&s, c, d);
    match (utime, stime) {
        (Some(utime), Some(stime)) => Some((utime, stime, comm)),
        _ => None,
    }
}

/// The cumulative CPU ticks (user and system) last read for each thread, to
/// measure how many a thread spent between two readings.
pub struct TickLedger {
    ticks: HashMap<u32, u64>,
}

impl View for TickLedger {
    type V = Map<u32, u64>;

    closed spec fn view(&self) -> Map<u32, u64> {
        self.ticks@
    }
}

/// `total - previous`, or 0 when the counter went back.
pub open spec fn ticks_since(total: u64, previous: u64) -> u64 {
    if total >= previous {
        (total - previous) as u64
    } else {
        0
    }
}

impl TickLedger {
    /// A ledger that has read no thread yet.
    pub fn new() -> (r: TickLedger)
        ensures
            r@ == Map::<u32, u64>::empty(),
    {
        TickLedger { ticks: HashMap::new() }
    }

    /// Records `total` ticks read for thread `tid`; gives the ticks spent
    /// since its previous reading (0 when the counter went back), or `None`
    /// for a thread not read before.
    pub fn record(&mut self, tid: u32, total: u64) -> (r: Option<u64>)
        ensures
            final(self)@ == old(self)@.insert(tid, total),
            r == (if old(self)@.contains_key(tid) {
                Some(ticks_since(total, old(self)@[tid]))
            } else {
                None::<u64>
            }),
    {
        broadcast use vstd::std_specs::hash::group_hash_axioms;

        let spent = match self.ticks.get(&tid) {
            Some(previous) => Some(
                if total >= *previous {
                    total - *previous
                } else {
                    0
                },
            ),
            None => None,
        };
        self.ticks.insert(tid, total);
        spent
    }

    /// Forgets the threads that are not in `tids`.
    pub fn retain_threads(&mut self, tids: &Vec<u32>)
        ensures
            final(self)@ == old(self)@.restrict(tids@.to_set()),
    {
        broadcast use vstd::std_specs::hash::group_hash_axioms;

        let mut kept: HashMap<u32, u64> = HashMap::new();
        let mut j: usize = 0;
        while j < tids.len()
            invariant
                j <= tids@.len(),
                self@ == old(self)@,
                kept@ == old(self)@.restrict(tids@.take(j as int).to_set()),
            decreases tids@.len() - j,
        {
            let tid = tids[j];
            proof {
                assert(tids@.take(j + 1).to_set() =~= tids@.take(j as int).to_set().insert(tid)) by {
                    assert(tids@.take(j + 1) =~= tids@.take(j as int).push(tid));
                    tids@.take(j as int).lemma_push_to_set_commute(tid);
                }
            }
            match self.ticks.get(&tid) {
                Some(v) => {
                    kept.insert(tid, *v);
                    proof {
                        assert(kept@ =~= old(self)@.restrict(tids@.take(j + 1).to_set()));
                    }
                },
                None => {
                    proof {
                        assert(kept@ =~= old(self)@.restrict(tids@.take(j + 1).to_set()));
                    }
                },
            }
            j = j + 1;
        }
        proof {
            assert(tids@.take(j as int) =~= tids@);
        }
        self.ticks = kept;
    }

    /// Forgets every thread.
    pub fn reset(&mut self)
        ensures
            final(self)@ == Map::<u32, u64>::empty(),
    {
        self.ticks.clear();
    }
}

} // verus!
