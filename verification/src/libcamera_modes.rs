//! Sensor modes of libcamera cameras: bit depths named by fourccs, frame
//! intervals measured by probes, and the environment switch that keeps only
//! native mode rates.
use vstd::prelude::*;
use crate::text::{
    ascii_upper, chars_of, parse_u32_spec, parse_u64_range, range_eq, range_upper_eq,
    to_ascii_upper_chars, trim_range, trim_spec,
};
use crate::video_types::{FrameInterval, VideoEncodeType};

verus! {

/// Whether an environment flag's value reads as enabled: after trimming,
/// `1`, or `true`, `yes` or `on` in any ASCII case.
pub open spec fn env_flag_spec(value: Option<Seq<char>>) -> bool {
    match value {
        None => false,
        Some(v) => {
            let t = trim_spec(v);
            ||| t == "1"@
            ||| ascii_upper(t) == "TRUE"@
            ||| ascii_upper(t) == "YES"@
            ||| ascii_upper(t) == "ON"@
        },
    }
}

pub fn env_flag_enabled(value: Option<&str>) -> (r: bool)
    ensures
        r == env_flag_spec(
            match value {
                Some(v) => Some(v@),
                None => None,
            },
        ),
{
    let value = match value {
        Some(v) => v,
        None => return false,
    };
    let s = chars_of(value);
    let (a, b) = trim_range(&s);
    let one = chars_of("1");
    let t_true = chars_of("TRUE");
    let t_yes = chars_of("YES");
    let t_on = chars_of("ON");
    range_eq(&s, a, b, &one) || range_upper_eq(&s, a, b, &t_true) || range_upper_eq(
        &s,
        a,
        b,
        &t_yes,
    ) || range_upper_eq(&s, a, b, &t_on)
}

/// `s` without the suffix `suf`, when it ends with it.
pub open spec fn strip_suffix_spec(s: Seq<char>, suf: Seq<char>) -> Option<Seq<char>> {
    if s.len() >= suf.len() && s.subrange(s.len() - suf.len(), s.len() as int) == suf {
        Some(s.take(s.len() - suf.len()))
    } else {
        None
    }
}

/// `s` without the prefix `pre`, when it starts with it.
pub open spec fn strip_prefix_spec(s: Seq<char>, pre: Seq<char>) -> Option<Seq<char>> {
    if s.len() >= pre.len() && s.take(pre.len() as int) == pre {
        Some(s.skip(pre.len() as int))
    } else {
        None
    }
}

/// The prefixes of packed Bayer and mono fourccs, in the order they are tried.
pub open spec fn bayer_prefix(k: int) -> Seq<char> {
    if k == 0 {
        "SRGGB"@
    } else if k == 1 {
        "SBGGR"@
    } else if k == 2 {
        "SGRBG"@
    } else if k == 3 {
        "SGBRG"@
    } else if k == 4 {
        "RGGB"@
    } else if k == 5 {
        "BGGR"@
    } else if k == 6 {
        "GRBG"@
    } else if k == 7 {
        "GBRG"@
    } else if k == 8 {
        "MONO"@
    } else {
        "R"@
    }
}

fn bayer_prefix_chars(k: usize) -> (r: Vec<char>)
    requires
        k < 10,
    ensures
        r@ == bayer_prefix(k as int),
{
    let p = if k == 0 {
        "SRGGB"
    } else if k == 1 {
        "SBGGR"
    } else if k == 2 {
        "SGRBG"
    } else if k == 3 {
        "SGBRG"
    } else if k == 4 {
        "RGGB"
    } else if k == 5 {
        "BGGR"
    } else if k == 6 {
        "GRBG"
    } else if k == 7 {
        "GBRG"
    } else if k == 8 {
        "MONO"
    } else {
        "R"
    };
    chars_of(p)
}

pub open spec fn is_csi_depth(d: u32) -> bool {
    d == 8 || d == 10 || d == 12 || d == 16
}

/// The depth read after the first of the prefixes from the `k`-th on that
/// `s` starts with and that is followed by exactly a CSI depth.
pub open spec fn depth_after_prefixes(s: Seq<char>, k: int) -> Option<u32>
    decreases 10 - k,
{
    if k < 0 || k >= 10 {
        None
    } else {
        match strip_prefix_spec(s, bayer_prefix(k)) {
            Some(rest) => match parse_u32_spec(rest) {
                Some(d) => if is_csi_depth(d) {
                    Some(d)
                } else {
                    depth_after_prefixes(s, k + 1)
                },
                None => depth_after_prefixes(s, k + 1),
            },
            None => depth_after_prefixes(s, k + 1),
        }
    }
}

/// The CSI bit depth a packed Bayer or mono fourcc carries: upper-case it,
/// drop a `_CSI2P` suffix, then an `LE` or else a `BE` suffix, then read the
/// number after the first known prefix.
pub open spec fn bit_depth_spec(fourcc: Seq<char>) -> Option<u32> {
    let u = ascii_upper(fourcc);
    let a = match strip_suffix_spec(u, "_CSI2P"@) {
        Some(x) => x,
        None => u,
    };
    let b = match strip_suffix_spec(a, "LE"@) {
        Some(x) => x,
        None => match strip_suffix_spec(a, "BE"@) {
            Some(x) => x,
            None => a,
        },
    };
    depth_after_prefixes(b, 0)
}

/// Length of `s[..end]` without the suffix `suf`, when it ends with it.
fn strip_suffix_len(s: &Vec<char>, end: usize, suf: &Vec<char>) -> (r: Option<usize>)
    requires
        end <= s@.len(),
    ensures
        match strip_suffix_spec(s@.take(end as int), suf@) {
            Some(x) => r == Some((end - suf@.len()) as usize) && x == s@.take(end - suf@.len()),
            None => r is None,
        },
{
    if end < suf.len() {
        return None;
    }
    let start = end - suf.len();
    let m = range_eq(s, start, end, suf);
    proof {
        assert(s@.take(end as int).subrange(start as int, end as int) =~= s@.subrange(
            start as int,
            end as int,
        ));
        assert(s@.take(end as int).take(start as int) =~= s@.take(start as int));
    }
    if m {
        Some(start)
    } else {
        None
    }
}

pub fn bit_depth_from_fourcc(fourcc: &str) -> (r: Option<u32>)
    ensures
        r == bit_depth_spec(fourcc@),
{
    let raw = chars_of(fourcc);
    let u = to_ascii_upper_chars(&raw);
    let n = u.len();
    proof {
        assert(u@.take(n as int) =~= u@);
    }
    let csi = chars_of("_CSI2P");
    let a = match strip_suffix_len(&u, n, &csi) {
        Some(e) => e,
        None => n,
    };
    let le = chars_of("LE");
    let be = chars_of("BE");
    let b = match strip_suffix_len(&u, a, &le) {
        Some(e) => e,
        None => match strip_suffix_len(&u, a, &be) {
            Some(e) => e,
            None => a,
        },
    };
    let ghost stem = u@.take(b as int);
    let mut k: usize = 0;
    while k < 10
        invariant
            k <= 10,
            b <= u@.len(),
            stem == u@.take(b as int),
            depth_after_prefixes(stem, k as int) == bit_depth_spec(fourcc@),
        decreases 10 - k,
    {
        let pre = bayer_prefix_chars(k);
        if pre.len() <= b && range_eq(&u, 0, pre.len(), &pre) {
            proof {
                assert(stem.take(pre@.len() as int) =~= u@.subrange(0, pre@.len() as int));
                assert(stem.skip(pre@.len() as int) =~= u@.subrange(pre@.len() as int, b as int));
            }
            let parsed = parse_u64_range(&u, pre.len(), b);
            if let Some(d) = parsed {
                if d == 8 || d == 10 || d == 12 || d == 16 {
                    return Some(d as u32);
                }
            }
        } else {
            proof {
                if pre@.len() <= b {
                    assert(stem.take(pre@.len() as int) =~= u@.subrange(0, pre@.len() as int));
                }
            }
        }
        k = k + 1;
    }
    None
}

/// An interval measured from a buffer duration in nanoseconds.
pub fn frame_interval_from_nanoseconds(nanoseconds: u64) -> (r: Option<FrameInterval>)
    ensures
        r == (if nanoseconds == 0 || nanoseconds > u32::MAX {
            None
        } else {
            Some(FrameInterval { numerator: nanoseconds as u32, denominator: 1_000_000_000 })
        }),
{
    if nanoseconds == 0 || nanoseconds > (u32::MAX as u64) {
        return None;
    }
    Some(FrameInterval { numerator: nanoseconds as u32, denominator: 1_000_000_000 })
}

/// An interval of 999 fps or more: the rate a probe asks for before the
/// camera clamps it, not a real mode rate.
pub fn is_unclamped_fps_probe_interval(interval: &FrameInterval) -> (r: bool)
    ensures
        r == (interval.numerator != 0 && interval.denominator >= 999 * interval.numerator),
{
    if interval.numerator == 0 {
        return false;
    }
    (interval.denominator as u64) >= 999 * (interval.numerator as u64)
}

/// An interval whose denominator is a second in nanoseconds, as intervals
/// measured from buffer durations are.
pub fn interval_is_from_buffer_duration(interval: &FrameInterval) -> (r: bool)
    ensures
        r == (interval.denominator == 1_000_000_000),
{
    interval.denominator == 1_000_000_000
}

/// Encodes that the ISP of a libcamera camera can stream.
pub fn is_isp_streamable(encode: &VideoEncodeType) -> (r: bool)
    ensures
        r == (encode is Nv12 || encode is Rgb || encode is Yuyv),
{
    match encode {
        VideoEncodeType::Nv12 | VideoEncodeType::Rgb | VideoEncodeType::Yuyv => true,
        _ => false,
    }
}

/// The interval measured from `nanoseconds`, unless it is none or an
/// unclamped probe rate.
pub open spec fn usable_interval(nanoseconds: u64) -> Option<FrameInterval> {
    if nanoseconds == 0 || nanoseconds > u32::MAX {
        None
    } else {
        let interval = FrameInterval { numerator: nanoseconds as u32, denominator: 1_000_000_000 };
        if interval.denominator >= 999 * interval.numerator {
            None
        } else {
            Some(interval)
        }
    }
}

/// What a buffer seen by the frame-rate probe gives: the interval taken
/// from its duration when that is usable; else, when it has a PTS, the
/// interval since the previous PTS when later and usable, the PTS being
/// remembered in any case. The result is the interval captured (if any)
/// and the previous PTS to keep.
pub open spec fn probe_buffer_spec(duration_ns: Option<u64>, pts_ns: Option<u64>, previous_pts_ns: Option<u64>) -> (
    Option<FrameInterval>,
    Option<u64>,
) {
    match duration_ns {
        Some(d) if usable_interval(d) is Some => (usable_interval(d), previous_pts_ns),
        _ => match pts_ns {
            None => (None, previous_pts_ns),
            Some(p) => (
                match previous_pts_ns {
                    Some(q) => if p > q {
                        usable_interval((p - q) as u64)
                    } else {
                        None
                    },
                    None => None,
                },
                Some(p),
            ),
        },
    }
}

fn usable_interval_from(nanoseconds: u64) -> (r: Option<FrameInterval>)
    ensures
        r == usable_interval(nanoseconds),
{
    match frame_interval_from_nanoseconds(nanoseconds) {
        Some(interval) => if is_unclamped_fps_probe_interval(&interval) {
            None
        } else {
            Some(interval)
        },
        None => None,
    }
}

/// One buffer of the frame-rate probe: its duration and PTS, and the PTS
/// of the buffer before; gives the interval to capture, if any, and the
/// previous PTS to keep.
pub fn probe_buffer_interval(duration_ns: Option<u64>, pts_ns: Option<u64>, previous_pts_ns: Option<u64>) -> (r: (
    Option<FrameInterval>,
    Option<u64>,
))
    ensures
        r == probe_buffer_spec(duration_ns, pts_ns, previous_pts_ns),
{
    if let Some(d) = duration_ns {
        let from_duration = usable_interval_from(d);
        if from_duration.is_some() {
            return (from_duration, previous_pts_ns);
        }
    }
    match pts_ns {
        None => (None, previous_pts_ns),
        Some(p) => {
            let captured = match previous_pts_ns {
                Some(q) => if p > q {
                    usable_interval_from(p - q)
                } else {
                    None
                },
                None => None,
            };
            (captured, Some(p))
        },
    }
}

/// Whether a caps filter of `candidate_structures` structures replaces the
/// one captured so far (of `current_structures`, if any): the filter with
/// the most structures is kept, the first of equal ones.
pub fn replaces_captured_filter(current_structures: Option<usize>, candidate_structures: usize) -> (r: bool)
    ensures
        r == match current_structures {
            None => true,
            Some(current) => candidate_structures > current,
        },
{
    match current_structures {
        None => true,
        Some(current) => candidate_structures > current,
    }
}

} // verus!
