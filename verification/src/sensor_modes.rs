//! The native sensor modes of a libcamera camera, read from its
//! capabilities: one size per discrete Bayer resolution, with the bit depths
//! the sensor offers there and, per depth, the fastest frame interval
//! advertised for it.
use vstd::prelude::*;
use crate::caps::{
    discrete_dimension_spec, fourccs_spec, is_bayer_spec, is_libcamera_bayer_structure,
    max_frame_interval_from_structure_framerate, max_framerate_spec, structure_discrete_dimension,
    structure_fourccs, Caps, CapsStructure,
};
use crate::libcamera_modes::{bit_depth_from_fourcc, bit_depth_spec};
use crate::device_formats::{copy_of, sorted_unique_u32, u32_increasing};
use crate::sorted_sets::{same_elements, strictly_sorted_by};
use crate::video_types::{
    add_supported_common_frame_intervals, common_rates_added, fps_gt, FrameInterval, Size, SizeDepth,
};

verus! {

/// A structure that describes one sensor mode: a Bayer structure with one
/// width and one height, and a frame rate when one is required.
pub open spec fn is_mode_structure(st: CapsStructure, require_framerate: bool) -> bool {
    &&& is_bayer_spec(st)
    &&& discrete_dimension_spec(st, "width"@).len() == 1
    &&& discrete_dimension_spec(st, "height"@).len() == 1
    &&& require_framerate ==> max_framerate_spec(st) is Some
}

/// The resolution of a mode structure.
pub open spec fn mode_key(st: CapsStructure) -> (u32, u32) {
    (discrete_dimension_spec(st, "width"@)[0], discrete_dimension_spec(st, "height"@)[0])
}

/// Some structure of `s` is a mode of resolution `key`.
pub open spec fn has_mode(s: Seq<CapsStructure>, require_framerate: bool, key: (u32, u32)) -> bool {
    exists|i: int| 0 <= i < s.len() && is_mode_structure(s[i], require_framerate) && #[trigger] mode_key(s[i]) == key
}

/// Among the first `n` fourccs of a structure, one packs bit depth `d`.
pub open spec fn names_depth_within(st: CapsStructure, n: int, d: u32) -> bool {
    exists|i: int| 0 <= i < n && #[trigger] bit_depth_spec(fourccs_spec(st)[i]) == Some(d)
}

pub open spec fn names_depth(st: CapsStructure, d: u32) -> bool {
    names_depth_within(st, fourccs_spec(st).len() as int, d)
}

/// One mode structure seen for a depth: the depth is listed from then on;
/// its interval becomes the structure's when the depth had none or the
/// structure's is strictly faster.
pub open spec fn depth_step(prev: Option<Option<FrameInterval>>, interval: Option<FrameInterval>) -> Option<
    Option<FrameInterval>,
> {
    match prev {
        None => Some(interval),
        Some(current) => match interval {
            Some(i) => if current is None || fps_gt(i, current.unwrap()) {
                Some(Some(i))
            } else {
                prev
            },
            None => prev,
        },
    }
}

/// What the structures of `s` say of bit depth `d` at resolution `key`:
/// `None` when none lists it, otherwise the interval kept for it.
pub open spec fn depth_state(s: Seq<CapsStructure>, require_framerate: bool, key: (u32, u32), d: u32) -> Option<
    Option<FrameInterval>,
>
    decreases s.len(),
{
    if s.len() == 0 {
        None
    } else {
        let prev = depth_state(s.drop_last(), require_framerate, key, d);
        let st = s.last();
        if is_mode_structure(st, require_framerate) && mode_key(st) == key && names_depth(st, d) {
            depth_step(prev, max_framerate_spec(st))
        } else {
            prev
        }
    }
}

/// The intervals a depth lists for the interval kept.
pub open spec fn interval_list(kept: Option<FrameInterval>) -> Seq<FrameInterval> {
    match kept {
        Some(i) => seq![i],
        None => Seq::empty(),
    }
}

/// `a` comes before `b` in descending order of width, then height.
pub open spec fn key_before(a: (u32, u32), b: (u32, u32)) -> bool {
    a.0 > b.0 || (a.0 == b.0 && a.1 > b.1)
}

/// The sizes are in strictly descending order of resolution.
pub open spec fn keys_descending(keys: Seq<(u32, u32)>) -> bool {
    forall|i: int, j: int| 0 <= i < j < keys.len() ==> key_before(#[trigger] keys[i], #[trigger] keys[j])
}

/// The depths of a size: strictly ascending bit depths, exactly those the
/// structures list at that resolution, each with the interval kept for it.
pub open spec fn depths_match(
    depths: Seq<SizeDepth>,
    s: Seq<CapsStructure>,
    require_framerate: bool,
    key: (u32, u32),
) -> bool {
    &&& forall|i: int, j: int|
        0 <= i < j < depths.len() ==> (#[trigger] depths[i]).bit_depth < (#[trigger] depths[j]).bit_depth
    &&& forall|i: int|
        0 <= i < depths.len() ==> (depth_state(s, require_framerate, key, (#[trigger] depths[i]).bit_depth) matches Some(
            kept,
        ) && depths[i].intervals@ == interval_list(kept))
    &&& forall|d: u32|
        #[trigger] depth_state(s, require_framerate, key, d) is Some ==> exists|i: int|
            0 <= i < depths.len() && (#[trigger] depths[i]).bit_depth == d
}

proof fn lemma_depth_step_idempotent(x: Option<Option<FrameInterval>>, interval: Option<FrameInterval>)
    ensures
        depth_step(depth_step(x, interval), interval) == depth_step(x, interval),
{
}

/// The resolution of `structure` when it is a mode structure.
fn mode_key_of(structure: &CapsStructure, require_framerate: bool) -> (r: Option<(u32, u32)>)
    ensures
        r == if is_mode_structure(*structure, require_framerate) {
            Some(mode_key(*structure))
        } else {
            None
        },
{
    if !is_libcamera_bayer_structure(structure) {
        return None;
    }
    let widths = structure_discrete_dimension(structure, "width");
    let heights = structure_discrete_dimension(structure, "height");
    if widths.len() != 1 || heights.len() != 1 {
        return None;
    }
    if require_framerate && max_frame_interval_from_structure_framerate(structure).is_none() {
        return None;
    }
    Some((widths[0], heights[0]))
}

fn contains_key(keys: &Vec<(u32, u32)>, key: (u32, u32)) -> (r: bool)
    ensures
        r == keys@.contains(key),
{
    let mut i: usize = 0;
    while i < keys.len()
        invariant
            i <= keys@.len(),
            forall|k: int| 0 <= k < i ==> keys@[k] != key,
        decreases keys@.len() - i,
    {
        if keys[i].0 == key.0 && keys[i].1 == key.1 {
            return true;
        }
        i = i + 1;
    }
    false
}

/// The resolutions of the mode structures, each once.
fn collect_mode_keys(structures: &Vec<CapsStructure>, require_framerate: bool) -> (r: Vec<(u32, u32)>)
    ensures
        forall|i: int, j: int| 0 <= i < j < r@.len() ==> r@[i] != r@[j],
        forall|key: (u32, u32)| r@.contains(key) <==> has_mode(structures@, require_framerate, key),
{
    let ghost s = structures@;
    let mut keys: Vec<(u32, u32)> = Vec::new();
    let mut t: usize = 0;
    while t < structures.len()
        invariant
            s == structures@,
            t <= s.len(),
            forall|i: int, j: int| 0 <= i < j < keys@.len() ==> keys@[i] != keys@[j],
            forall|key: (u32, u32)| keys@.contains(key) <==> has_mode(s.take(t as int), require_framerate, key),
        decreases s.len() - t,
    {
        let found = mode_key_of(&structures[t], require_framerate);
        let ghost before = keys@;
        match found {
            Some(key) => {
                if !contains_key(&keys, key) {
                    keys.push(key);
                }
            },
            None => {},
        }
        proof {
            let p = s.take(t as int);
            let q = s.take(t + 1);
            assert forall|key: (u32, u32)| keys@.contains(key) <==> has_mode(q, require_framerate, key) by {
                if has_mode(q, require_framerate, key) {
                    let i = choose|i: int|
                        0 <= i < q.len() && is_mode_structure(q[i], require_framerate) && #[trigger] mode_key(q[i])
                            == key;
                    if i < t {
                        assert(p[i] == q[i]);
                        assert(has_mode(p, require_framerate, key));
                        assert(before.contains(key));
                        let k = choose|k: int| 0 <= k < before.len() && before[k] == key;
                        assert(keys@[k] == key);
                    } else {
                        assert(found == Some(key));
                        if !before.contains(key) {
                            assert(keys@[before.len() as int] == key);
                        } else {
                            let k = choose|k: int| 0 <= k < before.len() && before[k] == key;
                            assert(keys@[k] == key);
                        }
                    }
                }
                if keys@.contains(key) {
                    let k = choose|k: int| 0 <= k < keys@.len() && keys@[k] == key;
                    if k < before.len() {
                        assert(before.contains(key));
                        assert(has_mode(p, require_framerate, key));
                        let i = choose|i: int|
                            0 <= i < p.len() && is_mode_structure(p[i], require_framerate) && #[trigger] mode_key(
                                p[i],
                            ) == key;
                        assert(q[i] == p[i]);
                    } else {
                        assert(q[t as int] == s[t as int]);
                        assert(is_mode_structure(q[t as int], require_framerate) && mode_key(q[t as int]) == key);
                    }
                }
            }
        }
        t = t + 1;
    }
    proof {
        assert(s.take(t as int) =~= s);
    }
    keys
}


/// The depths of `acc` are distinct, each holds what `target` says of it,
/// and every depth `target` lists is among them.
pub open spec fn depths_hold(acc: Seq<SizeDepth>, target: spec_fn(u32) -> Option<Option<FrameInterval>>) -> bool {
    &&& forall|i: int, j: int|
        0 <= i < j < acc.len() ==> (#[trigger] acc[i]).bit_depth != (#[trigger] acc[j]).bit_depth
    &&& forall|i: int|
        0 <= i < acc.len() ==> (target((#[trigger] acc[i]).bit_depth) matches Some(kept) && acc[i].intervals@
            == interval_list(kept))
    &&& forall|d: u32| #[trigger] target(d) is Some ==> exists|i: int| 0 <= i < acc.len() && (#[trigger] acc[i]).bit_depth == d
}

fn find_depth(acc: &Vec<SizeDepth>, d: u32) -> (r: Option<usize>)
    ensures
        match r {
            Some(j) => j < acc@.len() && acc@[j as int].bit_depth == d,
            None => forall|i: int| 0 <= i < acc@.len() ==> (#[trigger] acc@[i]).bit_depth != d,
        },
{
    let mut i: usize = 0;
    while i < acc.len()
        invariant
            i <= acc@.len(),
            forall|k: int| 0 <= k < i ==> (#[trigger] acc@[k]).bit_depth != d,
        decreases acc@.len() - i,
    {
        if acc[i].bit_depth == d {
            return Some(i);
        }
        i = i + 1;
    }
    None
}

/// Applies one mode structure's interval to depth `d` of `acc`.
fn apply_depth(acc: &mut Vec<SizeDepth>, d: u32, interval: Option<FrameInterval>, Ghost(target): Ghost<
    spec_fn(u32) -> Option<Option<FrameInterval>>,
>)
    requires
        depths_hold(old(acc)@, target),
    ensures
        depths_hold(
            final(acc)@,
            |x: u32|
                if x == d {
                    depth_step(target(x), interval)
                } else {
                    target(x)
                },
        ),
{
    let ghost next = |x: u32|
        if x == d {
            depth_step(target(x), interval)
        } else {
            target(x)
        };
    let ghost before = acc@;
    match find_depth(acc, d) {
        None => {
            let intervals: Vec<FrameInterval> = match interval {
                Some(i) => vec![i],
                None => Vec::new(),
            };
            proof {
                if target(d) is Some {
                    let i = choose|i: int| 0 <= i < before.len() && (#[trigger] before[i]).bit_depth == d;
                    assert(before[i].bit_depth != d);
                }
                assert(intervals@ == interval_list(interval));
            }
            acc.push(SizeDepth { bit_depth: d, intervals });
            proof {
                assert forall|x: u32| #[trigger] next(x) is Some implies exists|i: int|
                    0 <= i < acc@.len() && (#[trigger] acc@[i]).bit_depth == x by {
                    if x == d {
                        assert(acc@[before.len() as int].bit_depth == x);
                    } else {
                        assert(target(x) is Some);
                        let i = choose|i: int| 0 <= i < before.len() && (#[trigger] before[i]).bit_depth == x;
                        assert(acc@[i] == before[i]);
                    }
                }
                assert forall|i: int| 0 <= i < acc@.len() implies (next((#[trigger] acc@[i]).bit_depth) matches Some(
                    kept,
                ) && acc@[i].intervals@ == interval_list(kept)) by {
                    if i < before.len() {
                        assert(acc@[i] == before[i]);
                    }
                }
            }
        },
        Some(j) => {
            let replace = match interval {
                Some(i) => acc[j].intervals.len() == 0 || i.frames_per_second_exceeds(&acc[j].intervals[0]),
                None => false,
            };
            if replace {
                let i = interval.unwrap();
                acc.set(j, SizeDepth { bit_depth: d, intervals: vec![i] });
            }
            proof {
                assert(target(d) matches Some(kept) && before[j as int].intervals@ == interval_list(kept));
                assert forall|x: u32| #[trigger] next(x) is Some implies exists|i: int|
                    0 <= i < acc@.len() && (#[trigger] acc@[i]).bit_depth == x by {
                    if x == d {
                        assert(acc@[j as int].bit_depth == x);
                    } else {
                        let i = choose|i: int| 0 <= i < before.len() && (#[trigger] before[i]).bit_depth == x;
                        assert(acc@[i].bit_depth == x);
                    }
                }
                assert forall|i: int| 0 <= i < acc@.len() implies (next((#[trigger] acc@[i]).bit_depth) matches Some(
                    kept,
                ) && acc@[i].intervals@ == interval_list(kept)) by {
                    if i != j {
                        assert(acc@[i] == before[i]);
                        assert(before[i].bit_depth != d);
                    }
                }
                assert forall|a: int, b: int| 0 <= a < b < acc@.len() implies (#[trigger] acc@[a]).bit_depth
                    != (#[trigger] acc@[b]).bit_depth by {
                    assert(acc@[a].bit_depth == before[a].bit_depth);
                    assert(acc@[b].bit_depth == before[b].bit_depth);
                }
            }
        },
    }
}


/// The depths the mode structures of resolution `key` list, unordered.
fn collect_depths(structures: &Vec<CapsStructure>, require_framerate: bool, key: (u32, u32)) -> (r: Vec<SizeDepth>)
    ensures
        depths_hold(r@, |d: u32| depth_state(structures@, require_framerate, key, d)),
{
    let ghost s = structures@;
    let mut acc: Vec<SizeDepth> = Vec::new();
    let mut t: usize = 0;
    while t < structures.len()
        invariant
            s == structures@,
            t <= s.len(),
            depths_hold(acc@, |d: u32| depth_state(s.take(t as int), require_framerate, key, d)),
        decreases s.len() - t,
    {
        let ghost p = s.take(t as int);
        let ghost q = s.take(t + 1);
        proof {
            assert(q.drop_last() =~= p);
            assert(q.last() == s[t as int]);
        }
        let structure = &structures[t];
        if mode_key_of(structure, require_framerate) == Some(key) {
            let fourccs = structure_fourccs(structure);
            let interval = max_frame_interval_from_structure_framerate(structure);
            let ghost f = fourccs_spec(*structure);
            let mut k: usize = 0;
            proof {
                let start = |d: u32|
                    if names_depth_within(*structure, 0, d) {
                        depth_step(depth_state(p, require_framerate, key, d), interval)
                    } else {
                        depth_state(p, require_framerate, key, d)
                    };
                assert(start =~= (|d: u32| depth_state(s.take(t as int), require_framerate, key, d)));
            }
            while k < fourccs.len()
                invariant
                    f == fourccs_spec(*structure),
                    fourccs@.map_values(|x: String| x@) == f,
                    k <= fourccs@.len(),
                    interval == max_framerate_spec(*structure),
                    depths_hold(
                        acc@,
                        |d: u32|
                            if names_depth_within(*structure, k as int, d) {
                                depth_step(depth_state(p, require_framerate, key, d), interval)
                            } else {
                                depth_state(p, require_framerate, key, d)
                            },
                    ),
                decreases fourccs@.len() - k,
            {
                let ghost target = |d: u32|
                    if names_depth_within(*structure, k as int, d) {
                        depth_step(depth_state(p, require_framerate, key, d), interval)
                    } else {
                        depth_state(p, require_framerate, key, d)
                    };
                let ghost after = |d: u32|
                    if names_depth_within(*structure, k + 1, d) {
                        depth_step(depth_state(p, require_framerate, key, d), interval)
                    } else {
                        depth_state(p, require_framerate, key, d)
                    };
                proof {
                    assert(f[k as int] == fourccs@[k as int]@);
                }
                match bit_depth_from_fourcc(fourccs[k].as_str()) {
                    Some(dd) => {
                        apply_depth(&mut acc, dd, interval, Ghost(target));
                        proof {
                            let applied = |x: u32|
                                if x == dd {
                                    depth_step(target(x), interval)
                                } else {
                                    target(x)
                                };
                            assert forall|d: u32| #[trigger] applied(d) == after(d) by {
                                lemma_depth_step_idempotent(depth_state(p, require_framerate, key, d), interval);
                                if names_depth_within(*structure, k as int, d) {
                                    let i = choose|i: int|
                                        0 <= i < k && #[trigger] bit_depth_spec(fourccs_spec(*structure)[i]) == Some(d);
                                    assert(names_depth_within(*structure, k + 1, d));
                                }
                                if d == dd {
                                    assert(bit_depth_spec(fourccs_spec(*structure)[k as int]) == Some(d));
                                    assert(names_depth_within(*structure, k + 1, d));
                                }
                                if names_depth_within(*structure, k + 1, d) && d != dd {
                                    let i = choose|i: int|
                                        0 <= i < k + 1 && #[trigger] bit_depth_spec(fourccs_spec(*structure)[i])
                                            == Some(d);
                                    assert(i != k);
                                    assert(names_depth_within(*structure, k as int, d));
                                }
                            }
                            assert(applied =~= after);
                        }
                    },
                    None => {
                        proof {
                            assert forall|d: u32| #[trigger] target(d) == after(d) by {
                                if names_depth_within(*structure, k + 1, d) {
                                    let i = choose|i: int|
                                        0 <= i < k + 1 && #[trigger] bit_depth_spec(fourccs_spec(*structure)[i])
                                            == Some(d);
                                    assert(i != k);
                                    assert(names_depth_within(*structure, k as int, d));
                                }
                                if names_depth_within(*structure, k as int, d) {
                                    let i = choose|i: int|
                                        0 <= i < k && #[trigger] bit_depth_spec(fourccs_spec(*structure)[i]) == Some(d);
                                    assert(names_depth_within(*structure, k + 1, d));
                                }
                            }
                            assert(target =~= after);
                        }
                    },
                }
                k = k + 1;
            }
            proof {
                let done = |d: u32|
                    if names_depth_within(*structure, k as int, d) {
                        depth_step(depth_state(p, require_framerate, key, d), interval)
                    } else {
                        depth_state(p, require_framerate, key, d)
                    };
                assert(k == f.len());
                assert forall|d: u32| #[trigger] done(d) == depth_state(q, require_framerate, key, d) by {}
                assert(done =~= |d: u32| depth_state(q, require_framerate, key, d));
            }
        } else {
            proof {
                assert forall|d: u32|
                    #[trigger] depth_state(q, require_framerate, key, d) == depth_state(
                        p,
                        require_framerate,
                        key,
                        d,
                    ) by {}
                assert((|d: u32| depth_state(q, require_framerate, key, d)) =~= (|d: u32|
                    depth_state(p, require_framerate, key, d)));
            }
        }
        t = t + 1;
    }
    proof {
        assert(s.take(t as int) =~= s);
    }
    acc
}


/// `depths` in ascending order of bit depth.
fn sort_depths_ascending(depths: Vec<SizeDepth>) -> (r: Vec<SizeDepth>)
    requires
        forall|i: int, j: int|
            0 <= i < j < depths@.len() ==> (#[trigger] depths@[i]).bit_depth != (#[trigger] depths@[j]).bit_depth,
    ensures
        forall|i: int, j: int| 0 <= i < j < r@.len() ==> (#[trigger] r@[i]).bit_depth < (#[trigger] r@[j]).bit_depth,
        forall|x: SizeDepth| r@.contains(x) <==> depths@.contains(x),
{
    let ghost orig = depths@;
    let mut rest = depths;
    let mut out: Vec<SizeDepth> = Vec::new();
    while rest.len() > 0
        invariant
            forall|i: int, j: int| 0 <= i < j < out@.len() ==> (#[trigger] out@[i]).bit_depth < (#[trigger] out@[j]).bit_depth,
            forall|i: int, j: int|
                0 <= i < j < rest@.len() ==> (#[trigger] rest@[i]).bit_depth != (#[trigger] rest@[j]).bit_depth,
            forall|i: int, j: int|
                0 <= i < rest@.len() && 0 <= j < out@.len() ==> (#[trigger] rest@[i]).bit_depth != (
                #[trigger] out@[j]).bit_depth,
            forall|x: SizeDepth| orig.contains(x) <==> (out@.contains(x) || rest@.contains(x)),
        decreases rest@.len(),
    {
        let ghost rest_before = rest@;
        let ghost out_before = out@;
        let item = rest.pop().unwrap();
        proof {
            assert(rest_before =~= rest@.push(item));
            assert forall|i: int| 0 <= i < out_before.len() implies (#[trigger] out_before[i]).bit_depth
                != item.bit_depth by {
                assert(rest_before[rest@.len() as int] == item);
            }
        }
        let mut p: usize = 0;
        while p < out.len() && out[p].bit_depth < item.bit_depth
            invariant
                out@ == out_before,
                p <= out@.len(),
                forall|q: int| 0 <= q < p ==> (#[trigger] out@[q]).bit_depth < item.bit_depth,
            decreases out@.len() - p,
        {
            p = p + 1;
        }
        out.insert(p, item);
        proof {
            assert(out@ == out_before.insert(p as int, item));
            if p < out_before.len() {
                assert(out_before[p as int].bit_depth > item.bit_depth);
            }
            assert forall|i: int, j: int| 0 <= i < j < out@.len() implies (#[trigger] out@[i]).bit_depth < (
            #[trigger] out@[j]).bit_depth by {
                if j < p {
                } else if j == p {
                } else if i < p {
                    assert(out@[j] == out_before[j - 1]);
                    assert(out_before[p as int].bit_depth > item.bit_depth);
                    if j - 1 > p {
                        assert(out_before[p as int].bit_depth < out_before[j - 1].bit_depth);
                    }
                } else if i == p {
                    assert(out@[j] == out_before[j - 1]);
                    if j - 1 > p {
                        assert(out_before[p as int].bit_depth < out_before[j - 1].bit_depth);
                    }
                } else {
                    assert(out@[i] == out_before[i - 1]);
                    assert(out@[j] == out_before[j - 1]);
                }
            }
            assert forall|i: int, j: int| 0 <= i < rest@.len() && 0 <= j < out@.len() implies (
            #[trigger] rest@[i]).bit_depth != (#[trigger] out@[j]).bit_depth by {
                assert(rest@[i] == rest_before[i]);
                if j < p {
                    assert(out@[j] == out_before[j]);
                } else if j == p {
                    assert(rest_before[rest@.len() as int] == item);
                } else {
                    assert(out@[j] == out_before[j - 1]);
                }
            }
            assert forall|x: SizeDepth| orig.contains(x) <==> (out@.contains(x) || rest@.contains(x)) by {
                if out_before.contains(x) {
                    let j = choose|j: int| 0 <= j < out_before.len() && out_before[j] == x;
                    if j < p {
                        assert(out@[j] == x);
                    } else {
                        assert(out@[j + 1] == x);
                    }
                }
                if rest_before.contains(x) {
                    let j = choose|j: int| 0 <= j < rest_before.len() && rest_before[j] == x;
                    if j < rest@.len() {
                        assert(rest@[j] == x);
                    } else {
                        assert(out@[p as int] == x);
                    }
                }
                if out@.contains(x) {
                    let j = choose|j: int| 0 <= j < out@.len() && out@[j] == x;
                    if j < p {
                        assert(out_before[j] == x);
                    } else if j == p {
                        assert(rest_before[rest@.len() as int] == x);
                    } else {
                        assert(out_before[j - 1] == x);
                    }
                }
                if rest@.contains(x) {
                    let j = choose|j: int| 0 <= j < rest@.len() && rest@[j] == x;
                    assert(rest_before[j] == x);
                }
            }
        }
    }
    out
}

/// `keys` in descending order of width, then height.
fn sort_keys_descending(keys: Vec<(u32, u32)>) -> (r: Vec<(u32, u32)>)
    requires
        forall|i: int, j: int| 0 <= i < j < keys@.len() ==> keys@[i] != keys@[j],
    ensures
        keys_descending(r@),
        forall|x: (u32, u32)| r@.contains(x) <==> keys@.contains(x),
{
    let ghost orig = keys@;
    let mut rest = keys;
    let mut out: Vec<(u32, u32)> = Vec::new();
    while rest.len() > 0
        invariant
            keys_descending(out@),
            forall|i: int, j: int| 0 <= i < j < rest@.len() ==> rest@[i] != rest@[j],
            forall|i: int, j: int| 0 <= i < rest@.len() && 0 <= j < out@.len() ==> rest@[i] != out@[j],
            forall|x: (u32, u32)| orig.contains(x) <==> (out@.contains(x) || rest@.contains(x)),
        decreases rest@.len(),
    {
        let ghost rest_before = rest@;
        let ghost out_before = out@;
        let item = rest.pop().unwrap();
        proof {
            assert(rest_before =~= rest@.push(item));
            assert forall|i: int| 0 <= i < out_before.len() implies out_before[i] != item by {
                assert(rest_before[rest@.len() as int] == item);
            }
        }
        let mut p: usize = 0;
        while p < out.len() && (out[p].0 > item.0 || (out[p].0 == item.0 && out[p].1 > item.1))
            invariant
                out@ == out_before,
                p <= out@.len(),
                forall|q: int| 0 <= q < p ==> key_before(#[trigger] out@[q], item),
            decreases out@.len() - p,
        {
            p = p + 1;
        }
        out.insert(p, item);
        proof {
            assert(out@ == out_before.insert(p as int, item));
            if p < out_before.len() {
                assert(out_before[p as int] != item);
                assert(key_before(item, out_before[p as int]));
            }
            assert forall|i: int, j: int| 0 <= i < j < out@.len() implies key_before(
                #[trigger] out@[i],
                #[trigger] out@[j],
            ) by {
                if j < p {
                } else if j == p {
                } else if i < p {
                    assert(out@[j] == out_before[j - 1]);
                    if j - 1 > p {
                        assert(key_before(out_before[p as int], out_before[j - 1]));
                    }
                } else if i == p {
                    assert(out@[j] == out_before[j - 1]);
                    if j - 1 > p {
                        assert(key_before(out_before[p as int], out_before[j - 1]));
                    }
                } else {
                    assert(out@[i] == out_before[i - 1]);
                    assert(out@[j] == out_before[j - 1]);
                }
            }
            assert forall|i: int, j: int| 0 <= i < rest@.len() && 0 <= j < out@.len() implies rest@[i]
                != out@[j] by {
                assert(rest@[i] == rest_before[i]);
                if j < p {
                    assert(out@[j] == out_before[j]);
                } else if j == p {
                    assert(rest_before[rest@.len() as int] == item);
                } else {
                    assert(out@[j] == out_before[j - 1]);
                }
            }
            assert forall|x: (u32, u32)| orig.contains(x) <==> (out@.contains(x) || rest@.contains(x)) by {
                if out_before.contains(x) {
                    let j = choose|j: int| 0 <= j < out_before.len() && out_before[j] == x;
                    if j < p {
                        assert(out@[j] == x);
                    } else {
                        assert(out@[j + 1] == x);
                    }
                }
                if rest_before.contains(x) {
                    let j = choose|j: int| 0 <= j < rest_before.len() && rest_before[j] == x;
                    if j < rest@.len() {
                        assert(rest@[j] == x);
                    } else {
                        assert(out@[p as int] == x);
                    }
                }
                if out@.contains(x) {
                    let j = choose|j: int| 0 <= j < out@.len() && out@[j] == x;
                    if j < p {
                        assert(out_before[j] == x);
                    } else if j == p {
                        assert(rest_before[rest@.len() as int] == x);
                    } else {
                        assert(out_before[j - 1] == x);
                    }
                }
                if rest@.contains(x) {
                    let j = choose|j: int| 0 <= j < rest@.len() && rest@[j] == x;
                    assert(rest_before[j] == x);
                }
            }
        }
    }
    out
}


/// The sizes are the sensor modes of `s`: in strictly descending order of
/// resolution, exactly the resolutions of mode structures, with no size-wide
/// intervals, and with the depths the structures list there.
pub open spec fn mode_sizes_spec(sizes: Seq<Size>, s: Seq<CapsStructure>, require_framerate: bool) -> bool {
    &&& keys_descending(sizes.map_values(|z: Size| (z.width, z.height)))
    &&& forall|i: int|
        0 <= i < sizes.len() ==> {
            let z = #[trigger] sizes[i];
            &&& has_mode(s, require_framerate, (z.width, z.height))
            &&& z.intervals@.len() == 0
            &&& depths_match(z.depths@, s, require_framerate, (z.width, z.height))
        }
    &&& forall|key: (u32, u32)|
        has_mode(s, require_framerate, key) ==> exists|i: int|
            0 <= i < sizes.len() && (#[trigger] sizes[i]).width == key.0 && sizes[i].height == key.1
}

/// The Bayer sensor modes of `caps`, one size per discrete resolution,
/// largest first; with `require_framerate`, structures without a frame rate
/// are skipped (device-level recording caps list invented sizes that way).
/// Per size, the bit depths in ascending order, each with the fastest
/// interval advertised for it (the first of equal rates).
pub fn libcamera_bayer_mode_sizes(caps: &Caps, require_framerate: bool) -> (r: Vec<Size>)
    ensures
        mode_sizes_spec(r@, caps.structures@, require_framerate),
{
    let ghost s = caps.structures@;
    let keys = sort_keys_descending(collect_mode_keys(&caps.structures, require_framerate));
    let mut sizes: Vec<Size> = Vec::new();
    let mut i: usize = 0;
    while i < keys.len()
        invariant
            s == caps.structures@,
            keys_descending(keys@),
            forall|x: (u32, u32)| keys@.contains(x) <==> has_mode(s, require_framerate, x),
            i <= keys@.len(),
            sizes@.len() == i,
            forall|k: int|
                0 <= k < i ==> (#[trigger] sizes@[k]).width == keys@[k].0 && sizes@[k].height == keys@[k].1
                    && sizes@[k].intervals@.len() == 0 && depths_match(
                    sizes@[k].depths@,
                    s,
                    require_framerate,
                    keys@[k],
                ),
        decreases keys@.len() - i,
    {
        let key = keys[i];
        let collected = collect_depths(&caps.structures, require_framerate, key);
        let depths = sort_depths_ascending(collected);
        proof {
            let target = |d: u32| depth_state(s, require_framerate, key, d);
            assert forall|j: int| 0 <= j < depths@.len() implies (depth_state(
                s,
                require_framerate,
                key,
                (#[trigger] depths@[j]).bit_depth,
            ) matches Some(kept) && depths@[j].intervals@ == interval_list(kept)) by {
                assert(depths@.contains(depths@[j]));
                let m = choose|m: int| 0 <= m < collected@.len() && collected@[m] == depths@[j];
                assert(target(collected@[m].bit_depth) matches Some(kept) && collected@[m].intervals@
                    == interval_list(kept));
            }
            assert forall|d: u32| #[trigger] depth_state(s, require_framerate, key, d) is Some implies exists|
                j: int,
            | 0 <= j < depths@.len() && (#[trigger] depths@[j]).bit_depth == d by {
                assert(target(d) is Some);
                let m = choose|m: int| 0 <= m < collected@.len() && (#[trigger] collected@[m]).bit_depth == d;
                assert(collected@.contains(collected@[m]));
                let j = choose|j: int| 0 <= j < depths@.len() && depths@[j] == collected@[m];
                assert(depths@[j].bit_depth == d);
            }
        }
        sizes.push(Size { width: key.0, height: key.1, intervals: Vec::new(), depths });
        i = i + 1;
    }
    proof {
        let view = sizes@.map_values(|z: Size| (z.width, z.height));
        assert(view =~= keys@);
        assert forall|k: int| 0 <= k < sizes@.len() implies {
            let z = #[trigger] sizes@[k];
            &&& has_mode(s, require_framerate, (z.width, z.height))
            &&& z.intervals@.len() == 0
            &&& depths_match(z.depths@, s, require_framerate, (z.width, z.height))
        } by {
            assert(keys@.contains(keys@[k]));
            assert((sizes@[k].width, sizes@[k].height) == keys@[k]);
        }
        assert forall|key: (u32, u32)| has_mode(s, require_framerate, key) implies exists|k: int|
            0 <= k < sizes@.len() && (#[trigger] sizes@[k]).width == key.0 && sizes@[k].height == key.1 by {
            assert(keys@.contains(key));
            let k = choose|k: int| 0 <= k < keys@.len() && keys@[k] == key;
            assert(sizes@[k].width == key.0);
        }
    }
    sizes
}

/// The native sensor modes of `caps`: its Bayer modes that advertise a
/// frame rate.
pub fn libcamera_native_mode_sizes(caps: &Caps) -> (r: Vec<Size>)
    ensures
        mode_sizes_spec(r@, caps.structures@, true),
{
    libcamera_bayer_mode_sizes(caps, true)
}


/// The bit depths a frame-rate probe is tried at, in order.
pub const PROBED_DEPTHS: [u32; 3] = [10, 12, 8];

/// Depth `d` of `depths` already lists a rate.
pub open spec fn depth_has_rate(depths: Seq<SizeDepth>, d: u32) -> bool {
    exists|k: int| 0 <= k < depths.len() && (#[trigger] depths[k]).bit_depth == d && depths[k].intervals@.len() > 0
}

/// The probes one size needs: each probed depth without a rate.
pub open spec fn size_missing(depths: Seq<SizeDepth>, i: int) -> Seq<(usize, u32)> {
    PROBED_DEPTHS@.filter(|d: u32| !depth_has_rate(depths, d)).map_values(|d: u32| (i as usize, d))
}

/// The probes the sizes need, size by size.
pub open spec fn missing_pairs(sizes: Seq<Size>) -> Seq<(usize, u32)>
    decreases sizes.len(),
{
    if sizes.len() == 0 {
        Seq::empty()
    } else {
        missing_pairs(sizes.drop_last()) + size_missing(sizes.last().depths@, sizes.len() - 1)
    }
}

fn has_rate(depths: &Vec<SizeDepth>, d: u32) -> (r: bool)
    ensures
        r == depth_has_rate(depths@, d),
{
    let mut k: usize = 0;
    while k < depths.len()
        invariant
            k <= depths@.len(),
            forall|m: int| 0 <= m < k ==> !((#[trigger] depths@[m]).bit_depth == d && depths@[m].intervals@.len() > 0),
        decreases depths@.len() - k,
    {
        if depths[k].bit_depth == d && depths[k].intervals.len() > 0 {
            return true;
        }
        k = k + 1;
    }
    false
}

/// The (size index, bit depth) pairs whose frame rate still has to be
/// probed: for each size, the depths of `PROBED_DEPTHS` it has no rate for.
pub fn missing_mode_depths(sizes: &Vec<Size>) -> (r: Vec<(usize, u32)>)
    ensures
        r@ == missing_pairs(sizes@),
{
    let mut out: Vec<(usize, u32)> = Vec::new();
    let mut i: usize = 0;
    while i < sizes.len()
        invariant
            i <= sizes@.len(),
            out@ == missing_pairs(sizes@.take(i as int)),
        decreases sizes@.len() - i,
    {
        let depths = &sizes[i].depths;
        let ghost base = out@;
        let ghost f = PROBED_DEPTHS@;
        let mut j: usize = 0;
        while j < 3
            invariant
                j <= 3,
                f == PROBED_DEPTHS@,
                *depths == sizes@[i as int].depths,
                out@ == base + f.take(j as int).filter(|d: u32| !depth_has_rate(depths@, d)).map_values(
                    |d: u32| (i as usize, d),
                ),
            decreases 3 - j,
        {
            let d = PROBED_DEPTHS[j];
            proof {
                assert(f.take(j + 1).drop_last() =~= f.take(j as int));
                assert(f.take(j + 1).last() == d);
            }
            let ghost before = out@;
            if !has_rate(depths, d) {
                out.push((i, d));
            }
            proof {
                let keep = |x: u32| !depth_has_rate(depths@, x);
                let tag = |x: u32| (i as usize, x);
                let a = f.take(j as int).filter(keep);
                let b = f.take(j + 1).filter(keep);
                assert(f.take(j + 1) =~= f.take(j as int).push(d));
                f.take(j as int).lemma_filter_push(d, keep);
                if keep(d) {
                    assert(b == a.push(d));
                    assert(b.map_values(tag) =~= a.map_values(tag).push((i as usize, d)));
                    assert(out@ =~= base + b.map_values(tag));
                } else {
                    assert(b == a);
                }
            }
            j = j + 1;
        }
        proof {
            assert(f.take(3) =~= f);
            assert(sizes@.take(i + 1).drop_last() =~= sizes@.take(i as int));
            assert(sizes@.take(i + 1).last() == sizes@[i as int]);
        }
        i = i + 1;
    }
    proof {
        assert(sizes@.take(i as int) =~= sizes@);
    }
    out
}


/// The rate a probe found for depth `d` of size `i` (the last one given).
pub open spec fn probed_rate(probed: Seq<(usize, u32, FrameInterval)>, i: int, d: u32) -> Option<FrameInterval>
    decreases probed.len(),
{
    if probed.len() == 0 {
        None
    } else if probed.last().0 == i && probed.last().1 == d {
        Some(probed.last().2)
    } else {
        probed_rate(probed.drop_last(), i, d)
    }
}

/// The rates depth `d` lists among `depths` (none when it is absent).
pub open spec fn listed_rates(depths: Seq<SizeDepth>, d: u32) -> Seq<FrameInterval> {
    if exists|k: int| 0 <= k < depths.len() && (#[trigger] depths[k]).bit_depth == d {
        depths[choose|k: int| 0 <= k < depths.len() && (#[trigger] depths[k]).bit_depth == d].intervals@
    } else {
        Seq::empty()
    }
}

/// The rates of depth `d` of size `i` once the probes are in: the probed
/// rate when there is one, else what it listed.
pub open spec fn rates_after(depths: Seq<SizeDepth>, i: int, d: u32, probed: Seq<(usize, u32, FrameInterval)>) -> Seq<
    FrameInterval,
> {
    match probed_rate(probed, i, d) {
        Some(rate) => seq![rate],
        None => listed_rates(depths, d),
    }
}

/// The depths of size `i` after the probes: in increasing order, exactly
/// those with a rate, each with its rates.
pub open spec fn completed_depths(
    new: Seq<SizeDepth>,
    old: Seq<SizeDepth>,
    i: int,
    probed: Seq<(usize, u32, FrameInterval)>,
) -> bool {
    &&& forall|a: int, b: int| 0 <= a < b < new.len() ==> (#[trigger] new[a]).bit_depth < (#[trigger] new[b]).bit_depth
    &&& forall|k: int|
        0 <= k < new.len() ==> (#[trigger] new[k]).intervals@ == rates_after(old, i, new[k].bit_depth, probed)
            && new[k].intervals@.len() > 0
    &&& forall|d: u32|
        #[trigger] rates_after(old, i, d, probed).len() > 0 ==> exists|k: int|
            0 <= k < new.len() && (#[trigger] new[k]).bit_depth == d
}

/// Each bit depth occurs once among `depths`.
pub open spec fn distinct_depths(depths: Seq<SizeDepth>) -> bool {
    forall|a: int, b: int| 0 <= a < b < depths.len() ==> (#[trigger] depths[a]).bit_depth != (#[trigger] depths[b]).bit_depth
}

fn probe_lookup(probed: &Vec<(usize, u32, FrameInterval)>, i: usize, d: u32) -> (r: Option<FrameInterval>)
    ensures
        r == probed_rate(probed@, i as int, d),
{
    let mut n: usize = probed.len();
    assert(probed@.take(n as int) =~= probed@);
    while n > 0
        invariant
            n <= probed@.len(),
            probed_rate(probed@, i as int, d) == probed_rate(probed@.take(n as int), i as int, d),
        decreases n,
    {
        proof {
            assert(probed@.take(n as int).drop_last() =~= probed@.take(n - 1));
            assert(probed@.take(n as int).last() == probed@[n - 1]);
        }
        let (pi, pd, rate) = probed[n - 1];
        if pi == i && pd == d {
            return Some(rate);
        }
        n = n - 1;
    }
    None
}

fn listed_lookup(depths: &Vec<SizeDepth>, d: u32) -> (r: Vec<FrameInterval>)
    requires
        distinct_depths(depths@),
    ensures
        r@ == listed_rates(depths@, d),
{
    let mut k: usize = 0;
    while k < depths.len()
        invariant
            distinct_depths(depths@),
            k <= depths@.len(),
            forall|m: int| 0 <= m < k ==> (#[trigger] depths@[m]).bit_depth != d,
        decreases depths@.len() - k,
    {
        if depths[k].bit_depth == d {
            proof {
                let c = choose|m: int| 0 <= m < depths@.len() && (#[trigger] depths@[m]).bit_depth == d;
                assert(c == k);
            }
            return copy_of(&depths[k].intervals);
        }
        k = k + 1;
    }
    Vec::new()
}

/// The bit depths a size may end up with: its own and the probed ones.
fn depth_candidates(depths: &Vec<SizeDepth>, i: usize, probed: &Vec<(usize, u32, FrameInterval)>) -> (r: Vec<u32>)
    ensures
        forall|m: int| 0 <= m < depths@.len() ==> r@.contains(#[trigger] depths@[m].bit_depth),
        forall|m: int| 0 <= m < probed@.len() && probed@[m].0 == i ==> r@.contains(#[trigger] probed@[m].1),
{
    let mut candidates: Vec<u32> = Vec::new();
    let mut k: usize = 0;
    while k < depths.len()
        invariant
            k <= depths@.len(),
            candidates@.len() == k,
            forall|m: int| 0 <= m < k ==> #[trigger] candidates@[m] == depths@[m].bit_depth,
        decreases depths@.len() - k,
    {
        candidates.push(depths[k].bit_depth);
        k = k + 1;
    }
    let n = candidates.len();
    let mut p: usize = 0;
    while p < probed.len()
        invariant
            n == depths@.len(),
            n <= candidates@.len(),
            forall|m: int| 0 <= m < n ==> #[trigger] candidates@[m] == depths@[m].bit_depth,
            p <= probed@.len(),
            forall|m: int| 0 <= m < p && probed@[m].0 == i ==> candidates@.contains(#[trigger] probed@[m].1),
        decreases probed@.len() - p,
    {
        let ghost before = candidates@;
        if probed[p].0 == i {
            candidates.push(probed[p].1);
            proof {
                assert(candidates@[before.len() as int] == probed@[p as int].1);
            }
        }
        proof {
            assert forall|m: int| 0 <= m < p + 1 && probed@[m].0 == i implies candidates@.contains(#[trigger] probed@[m].1) by {
                if m < p {
                    let w = choose|w: int| 0 <= w < before.len() && before[w] == probed@[m].1;
                    assert(candidates@[w] == before[w]);
                }
            }
        }
        p = p + 1;
    }
    proof {
        assert forall|m: int| 0 <= m < depths@.len() implies candidates@.contains(#[trigger] depths@[m].bit_depth) by {
            assert(candidates@[m] == depths@[m].bit_depth);
        }
    }
    candidates
}

/// The depths of size `i` once the probed rates are in.
#[verifier::rlimit(30)]
fn complete_depths(depths: &Vec<SizeDepth>, i: usize, probed: &Vec<(usize, u32, FrameInterval)>) -> (r: Vec<SizeDepth>)
    requires
        distinct_depths(depths@),
    ensures
        completed_depths(r@, depths@, i as int, probed@),
{
    let candidates = depth_candidates(depths, i, probed);
    let ghost cands = candidates@;
    let ordered = sorted_unique_u32(candidates);
    let mut out: Vec<SizeDepth> = Vec::new();
    let ghost mut last_q: int = -1;
    let mut c: usize = 0;
    while c < ordered.len()
        invariant
            distinct_depths(depths@),
            strictly_sorted_by(ordered@, u32_increasing()),
            c <= ordered@.len(),
            -1 <= last_q < c,
            out@.len() == 0 <==> last_q == -1,
            out@.len() > 0 ==> out@.last().bit_depth == ordered@[last_q],
            forall|a: int, b: int| 0 <= a < b < out@.len() ==> (#[trigger] out@[a]).bit_depth < (#[trigger] out@[b]).bit_depth,
            forall|k: int|
                0 <= k < out@.len() ==> (#[trigger] out@[k]).intervals@ == rates_after(depths@, i as int, out@[k].bit_depth, probed@)
                    && out@[k].intervals@.len() > 0,
            forall|q: int|
                0 <= q < c && #[trigger] rates_after(depths@, i as int, ordered@[q], probed@).len() > 0 ==> exists|k: int|
                    0 <= k < out@.len() && (#[trigger] out@[k]).bit_depth == ordered@[q],
        decreases ordered@.len() - c,
    {
        let d = ordered[c];
        let rates = match probe_lookup(probed, i, d) {
            Some(rate) => vec![rate],
            None => listed_lookup(depths, d),
        };
        let ghost before = out@;
        if rates.len() > 0 {
            proof {
                if last_q >= 0 {
                    assert(u32_increasing()(ordered@[last_q], ordered@[c as int]));
                }
            }
            out.push(SizeDepth { bit_depth: d, intervals: rates });
            proof {
                assert forall|a: int, b: int| 0 <= a < b < out@.len() implies (#[trigger] out@[a]).bit_depth < (
                #[trigger] out@[b]).bit_depth by {
                    if b == before.len() {
                        if a < before.len() - 1 {
                            assert(before[a].bit_depth < before.last().bit_depth);
                        }
                        assert(out@[a] == before[a]);
                    } else {
                        assert(out@[a] == before[a]);
                        assert(out@[b] == before[b]);
                    }
                }
                assert forall|k: int|
                    0 <= k < out@.len() implies (#[trigger] out@[k]).intervals@ == rates_after(depths@, i as int, out@[k].bit_depth, probed@)
                        && out@[k].intervals@.len() > 0 by {
                    if k < before.len() {
                        assert(out@[k] == before[k]);
                    }
                }
                last_q = c as int;
            }
        }
        proof {
            assert forall|q: int|
                0 <= q < c + 1 && #[trigger] rates_after(depths@, i as int, ordered@[q], probed@).len() > 0 implies exists|k: int|
                    0 <= k < out@.len() && (#[trigger] out@[k]).bit_depth == ordered@[q] by {
                if q < c {
                    let k = choose|k: int| 0 <= k < before.len() && (#[trigger] before[k]).bit_depth == ordered@[q];
                    assert(out@[k] == before[k]);
                } else {
                    assert(out@[before.len() as int].bit_depth == ordered@[q]);
                }
            }
        }
        c = c + 1;
    }
    proof {
        assert forall|d: u32| #[trigger] rates_after(depths@, i as int, d, probed@).len() > 0 implies exists|k: int|
            0 <= k < out@.len() && (#[trigger] out@[k]).bit_depth == d by {
            match probed_rate(probed@, i as int, d) {
                Some(_) => {
                    lemma_probed_rate_found(probed@, i as int, d);
                    let m = choose|m: int| 0 <= m < probed@.len() && probed@[m].0 == i && probed@[m].1 == d;
                    assert(cands.contains(probed@[m].1));
                },
                None => {
                    let k = choose|k: int| 0 <= k < depths@.len() && (#[trigger] depths@[k]).bit_depth == d;
                    assert(cands.contains(depths@[k].bit_depth));
                },
            }
            assert(ordered@.contains(d));
            let q = choose|q: int| 0 <= q < ordered@.len() && ordered@[q] == d;
            assert(rates_after(depths@, i as int, ordered@[q], probed@).len() > 0);
        }
    }
    out
}

proof fn lemma_probed_rate_found(probed: Seq<(usize, u32, FrameInterval)>, i: int, d: u32)
    requires
        probed_rate(probed, i, d) is Some,
    ensures
        exists|m: int| 0 <= m < probed.len() && probed[m].0 == i && probed[m].1 == d,
    decreases probed.len(),
{
    if !(probed.last().0 == i && probed.last().1 == d) {
        lemma_probed_rate_found(probed.drop_last(), i, d);
        let m = choose|m: int| 0 <= m < probed.drop_last().len() && probed.drop_last()[m].0 == i && probed.drop_last()[m].1 == d;
        assert(probed[m] == probed.drop_last()[m]);
    }
}

/// The sizes once the probed rates are in: `probed` holds a size index, a
/// bit depth and the rate found there. Each size keeps its dimensions, loses
/// its size-wide intervals, and lists exactly the depths with a rate.
pub fn apply_mode_rates(sizes: Vec<Size>, probed: &Vec<(usize, u32, FrameInterval)>) -> (r: Vec<Size>)
    requires
        forall|i: int| 0 <= i < sizes@.len() ==> distinct_depths(#[trigger] sizes@[i].depths@),
    ensures
        r@.len() == sizes@.len(),
        forall|i: int|
            0 <= i < r@.len() ==> {
                &&& (#[trigger] r@[i]).width == sizes@[i].width
                &&& r@[i].height == sizes@[i].height
                &&& r@[i].intervals@.len() == 0
                &&& completed_depths(r@[i].depths@, sizes@[i].depths@, i, probed@)
            },
{
    let mut out: Vec<Size> = Vec::new();
    let mut i: usize = 0;
    while i < sizes.len()
        invariant
            forall|k: int| 0 <= k < sizes@.len() ==> distinct_depths(#[trigger] sizes@[k].depths@),
            i <= sizes@.len(),
            out@.len() == i,
            forall|k: int|
                0 <= k < i ==> {
                    &&& (#[trigger] out@[k]).width == sizes@[k].width
                    &&& out@[k].height == sizes@[k].height
                    &&& out@[k].intervals@.len() == 0
                    &&& completed_depths(out@[k].depths@, sizes@[k].depths@, k, probed@)
                },
        decreases sizes@.len() - i,
    {
        let depths = complete_depths(&sizes[i].depths, i, probed);
        let ghost before = out@;
        out.push(Size { width: sizes[i].width, height: sizes[i].height, intervals: Vec::new(), depths });
        proof {
            assert forall|k: int| 0 <= k < i + 1 implies {
                &&& (#[trigger] out@[k]).width == sizes@[k].width
                &&& out@[k].height == sizes@[k].height
                &&& out@[k].intervals@.len() == 0
                &&& completed_depths(out@[k].depths@, sizes@[k].depths@, k, probed@)
            } by {
                if k < i {
                    assert(out@[k] == before[k]);
                }
            }
        }
        i = i + 1;
    }
    out
}

/// The sizes with both dimensions set, in order.
pub open spec fn dimensioned(sizes: Seq<Size>) -> Seq<Size>
    decreases sizes.len(),
{
    if sizes.len() == 0 {
        Seq::empty()
    } else if sizes.last().width > 0 && sizes.last().height > 0 {
        dimensioned(sizes.drop_last()).push(sizes.last())
    } else {
        dimensioned(sizes.drop_last())
    }
}

/// Drops the sizes with a zero width or height.
pub fn keep_dimensioned_sizes(sizes: Vec<Size>) -> (r: Vec<Size>)
    ensures
        r@ == dimensioned(sizes@),
{
    let ghost original = sizes@;
    let mut rest = sizes;
    let mut kept: Vec<Size> = Vec::new();
    let ghost mut done: int = 0;
    while rest.len() > 0
        invariant
            0 <= done <= original.len(),
            rest@ == original.skip(done),
            kept@ == dimensioned(original.take(done)),
        decreases rest@.len(),
    {
        let size = rest.remove(0);
        proof {
            assert(size == original[done]);
            assert(rest@ =~= original.skip(done + 1));
            assert(original.take(done + 1).drop_last() =~= original.take(done));
            assert(original.take(done + 1).last() == size);
        }
        if size.width > 0 && size.height > 0 {
            kept.push(size);
        }
        proof {
            done = done + 1;
        }
    }
    proof {
        assert(original.take(done) =~= original);
    }
    kept
}

/// Adds to every depth of every size the default rates no faster than its
/// fastest, unless only native rates are wanted.
pub fn finalize_libcamera_size_intervals(sizes: &mut Vec<Size>, native_fps_only: bool)
    ensures
        final(sizes)@.len() == old(sizes)@.len(),
        forall|i: int|
            0 <= i < final(sizes)@.len() ==> {
                &&& (#[trigger] final(sizes)@[i]).width == old(sizes)@[i].width
                &&& final(sizes)@[i].height == old(sizes)@[i].height
                &&& final(sizes)@[i].intervals == old(sizes)@[i].intervals
                &&& final(sizes)@[i].depths@.len() == old(sizes)@[i].depths@.len()
                &&& forall|k: int|
                    0 <= k < final(sizes)@[i].depths@.len() ==> (#[trigger] final(sizes)@[i].depths@[k]).bit_depth
                        == old(sizes)@[i].depths@[k].bit_depth && common_rates_added(
                        old(sizes)@[i].depths@[k].intervals@,
                        final(sizes)@[i].depths@[k].intervals@,
                        native_fps_only,
                    )
            },
{
    let ghost original = sizes@;
    let mut rest: Vec<Size> = Vec::new();
    std::mem::swap(sizes, &mut rest);
    let ghost mut done: int = 0;
    while rest.len() > 0
        invariant
            0 <= done <= original.len(),
            rest@ == original.skip(done),
            sizes@.len() == done,
            forall|i: int|
                0 <= i < done ==> {
                    &&& (#[trigger] sizes@[i]).width == original[i].width
                    &&& sizes@[i].height == original[i].height
                    &&& sizes@[i].intervals == original[i].intervals
                    &&& sizes@[i].depths@.len() == original[i].depths@.len()
                    &&& forall|k: int|
                        0 <= k < sizes@[i].depths@.len() ==> (#[trigger] sizes@[i].depths@[k]).bit_depth
                            == original[i].depths@[k].bit_depth && common_rates_added(
                            original[i].depths@[k].intervals@,
                            sizes@[i].depths@[k].intervals@,
                            native_fps_only,
                        )
                },
        decreases rest@.len(),
    {
        let size = rest.remove(0);
        proof {
            assert(size == original[done]);
            assert(rest@ =~= original.skip(done + 1));
        }
        let ghost old_depths = size.depths@;
        let Size { width, height, intervals, depths } = size;
        let mut pending = depths;
        let mut finished: Vec<SizeDepth> = Vec::new();
        let ghost mut k: int = 0;
        while pending.len() > 0
            invariant
                0 <= k <= old_depths.len(),
                pending@ == old_depths.skip(k),
                finished@.len() == k,
                forall|m: int|
                    0 <= m < k ==> (#[trigger] finished@[m]).bit_depth == old_depths[m].bit_depth && common_rates_added(
                        old_depths[m].intervals@,
                        finished@[m].intervals@,
                        native_fps_only,
                    ),
            decreases pending@.len(),
        {
            let depth = pending.remove(0);
            proof {
                assert(depth == old_depths[k]);
                assert(pending@ =~= old_depths.skip(k + 1));
            }
            let SizeDepth { bit_depth, intervals: mut rates } = depth;
            add_supported_common_frame_intervals(&mut rates, native_fps_only);
            finished.push(SizeDepth { bit_depth, intervals: rates });
            proof {
                k = k + 1;
            }
        }
        sizes.push(Size { width, height, intervals, depths: finished });
        proof {
            done = done + 1;
        }
    }
}

} // verus!
