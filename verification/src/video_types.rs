//! Video formats, frame sizes and frame intervals, and the rate arithmetic
//! on frame intervals.
//!
//! A frame interval is the time between frames, `numerator / denominator`
//! seconds, so its rate is `denominator / numerator` frames per second.
use vstd::prelude::*;
use crate::text::{chars_of, str_eq};

verus! {

#[derive(Clone, Copy, Debug, PartialEq, Eq, Structural, Hash, PartialOrd, Ord)]
pub struct FrameInterval {
    pub numerator: u32,
    pub denominator: u32,
}

/// Frame intervals available at one sensor bit depth.
#[derive(Clone, Debug, PartialEq, Eq, Hash, PartialOrd, Ord)]
pub struct SizeDepth {
    pub bit_depth: u32,
    pub intervals: Vec<FrameInterval>,
}

#[derive(Clone, Debug, PartialEq, Eq, Hash, PartialOrd, Ord)]
pub struct Size {
    pub width: u32,
    pub height: u32,
    pub intervals: Vec<FrameInterval>,
    pub depths: Vec<SizeDepth>,
}

#[derive(Clone, Debug, PartialEq, Eq, Hash, PartialOrd, Ord)]
pub struct Format {
    pub encode: VideoEncodeType,
    pub sizes: Vec<Size>,
}

#[derive(Clone, Debug, Hash, PartialOrd, Ord)]
pub enum VideoEncodeType {
    H264,
    H265,
    Mjpg,
    Nv12,
    Rgb,
    Unknown(String),
    Yuyv,
}

/// The model of a [`VideoEncodeType`]: its variant, and the text of an unknown one.
pub enum EncodeView {
    H264,
    H265,
    Mjpg,
    Nv12,
    Rgb,
    Unknown(Seq<char>),
    Yuyv,
}

impl View for VideoEncodeType {
    type V = EncodeView;

    open spec fn view(&self) -> EncodeView {
        match self {
            VideoEncodeType::H264 => EncodeView::H264,
            VideoEncodeType::H265 => EncodeView::H265,
            VideoEncodeType::Mjpg => EncodeView::Mjpg,
            VideoEncodeType::Nv12 => EncodeView::Nv12,
            VideoEncodeType::Rgb => EncodeView::Rgb,
            VideoEncodeType::Unknown(s) => EncodeView::Unknown(s@),
            VideoEncodeType::Yuyv => EncodeView::Yuyv,
        }
    }
}

impl PartialEq for VideoEncodeType {
    fn eq(&self, other: &Self) -> (r: bool) {
        match (self, other) {
            (VideoEncodeType::H264, VideoEncodeType::H264) => true,
            (VideoEncodeType::H265, VideoEncodeType::H265) => true,
            (VideoEncodeType::Mjpg, VideoEncodeType::Mjpg) => true,
            (VideoEncodeType::Nv12, VideoEncodeType::Nv12) => true,
            (VideoEncodeType::Rgb, VideoEncodeType::Rgb) => true,
            (VideoEncodeType::Yuyv, VideoEncodeType::Yuyv) => true,
            (VideoEncodeType::Unknown(a), VideoEncodeType::Unknown(b)) => str_eq(a.as_str(), b.as_str()),
            _ => false,
        }
    }
}

impl Eq for VideoEncodeType {}

impl vstd::std_specs::cmp::PartialEqSpecImpl for VideoEncodeType {
    open spec fn obeys_eq_spec() -> bool {
        true
    }

    open spec fn eq_spec(&self, other: &VideoEncodeType) -> bool {
        self@ == other@
    }
}

/// The encode that an upper-cased fourcc names.
pub open spec fn encode_of_uppercase(u: Seq<char>) -> EncodeView {
    if u == "H264"@ {
        EncodeView::H264
    } else if u == "H265"@ || u == "HEVC"@ {
        EncodeView::H265
    } else if u == "MJPG"@ {
        EncodeView::Mjpg
    } else if u == "NV12"@ {
        EncodeView::Nv12
    } else if is_rgb_alias(u) {
        EncodeView::Rgb
    } else if u == "YUYV"@ || u == "YUY2"@ {
        EncodeView::Yuyv
    } else {
        EncodeView::Unknown(u)
    }
}

/// Processed RGB fourccs of ISPs (BGR888 is the common one on a Raspberry Pi).
pub open spec fn is_rgb_alias(u: Seq<char>) -> bool {
    ||| u == "RGB"@
    ||| u == "RGB888"@
    ||| u == "BGR"@
    ||| u == "BGR888"@
    ||| u == "RGBX"@
    ||| u == "BGRX"@
    ||| u == "RGBA"@
    ||| u == "BGRA"@
    ||| u == "XRGB"@
    ||| u == "XBGR"@
    ||| u == "ARGB"@
    ||| u == "ABGR"@
    ||| u == "XBGR8888"@
    ||| u == "XRGB8888"@
    ||| u == "RGBX8888"@
    ||| u == "BGRX8888"@
}

/// What `str::to_uppercase` returns for `s` (Unicode upper-casing).
pub uninterp spec fn unicode_uppercase(s: Seq<char>) -> Seq<char>;

/// Upper-cases `s` with `str::to_uppercase`. The contract only names the
/// result: Unicode's case mapping is not restated here.
#[verifier::external_body]
fn to_uppercase(s: &str) -> (r: String)
    ensures
        r@ == unicode_uppercase(s@),
{
    s.to_uppercase()
}

impl VideoEncodeType {
    /// The encode a fourcc names, in any letter case.
    pub fn from_str(fourcc: &str) -> (r: VideoEncodeType)
        ensures
            r@ == encode_of_uppercase(unicode_uppercase(fourcc@)),
    {
        let upper = to_uppercase(fourcc);
        Self::from_uppercase(upper.as_str())
    }

    /// The encode named by a fourcc that is already upper-cased.
    pub fn from_uppercase(u: &str) -> (r: VideoEncodeType)
        ensures
            r@ == encode_of_uppercase(u@),
    {
        if str_eq(u, "H264") {
            VideoEncodeType::H264
        } else if str_eq(u, "H265") || str_eq(u, "HEVC") {
            VideoEncodeType::H265
        } else if str_eq(u, "MJPG") {
            VideoEncodeType::Mjpg
        } else if str_eq(u, "NV12") {
            VideoEncodeType::Nv12
        } else if str_eq(u, "RGB") || str_eq(u, "RGB888") || str_eq(u, "BGR") || str_eq(u, "BGR888")
            || str_eq(u, "RGBX") || str_eq(u, "BGRX") || str_eq(u, "RGBA") || str_eq(u, "BGRA")
            || str_eq(u, "XRGB") || str_eq(u, "XBGR") || str_eq(u, "ARGB") || str_eq(u, "ABGR")
            || str_eq(u, "XBGR8888") || str_eq(u, "XRGB8888") || str_eq(u, "RGBX8888") || str_eq(
            u,
            "BGRX8888",
        ) {
            VideoEncodeType::Rgb
        } else if str_eq(u, "YUYV") || str_eq(u, "YUY2") {
            VideoEncodeType::Yuyv
        } else {
            VideoEncodeType::Unknown(u.to_owned())
        }
    }
}

/// Rates at which a camera is offered when it advertises none.
pub const DEFAULT_FRAME_INTERVALS: [u32; 6] = [60, 30, 24, 16, 10, 5];

/// Sizes sampled from a camera that advertises a continuous size range.
pub const STANDARD_SIZES: [(u32, u32); 16] = [
    (7680, 4320),
    (7200, 3060),
    (3840, 2160),
    (2560, 1440),
    (1920, 1080),
    (1600, 1200),
    (1440, 1080),
    (1280, 1080),
    (1280, 720),
    (1024, 768),
    (960, 720),
    (800, 600),
    (640, 480),
    (640, 360),
    (320, 240),
    (256, 144),
];

/// `a` runs at a higher rate than `b`: `a.den / a.num > b.den / b.num`,
/// compared without division.
pub open spec fn fps_gt(a: FrameInterval, b: FrameInterval) -> bool {
    a.denominator * b.numerator > b.denominator * a.numerator
}

/// `a` and `b` run at the same rate.
pub open spec fn fps_eq(a: FrameInterval, b: FrameInterval) -> bool {
    a.denominator * b.numerator == b.denominator * a.numerator
}

proof fn lemma_u32_product_fits(a: u32, b: u32)
    ensures
        0 <= a * b <= u64::MAX,
{
    assert(0 <= a * b <= 0xffff_ffffu64 * 0xffff_ffffu64) by (nonlinear_arith)
        requires
            a <= 0xffff_ffffu32,
            b <= 0xffff_ffffu32,
    ;
}

impl FrameInterval {
    pub fn frames_per_second_exceeds(&self, other: &FrameInterval) -> (r: bool)
        ensures
            r == fps_gt(*self, *other),
    {
        proof {
            lemma_u32_product_fits(self.denominator, other.numerator);
            lemma_u32_product_fits(other.denominator, self.numerator);
        }
        (self.denominator as u64) * (other.numerator as u64) > (other.denominator as u64) * (
        self.numerator as u64)
    }

    pub fn frames_per_second_equals(&self, other: &FrameInterval) -> (r: bool)
        ensures
            r == fps_eq(*self, *other),
    {
        proof {
            lemma_u32_product_fits(self.denominator, other.numerator);
            lemma_u32_product_fits(other.denominator, self.numerator);
        }
        (self.denominator as u64) * (other.numerator as u64) == (other.denominator as u64) * (
        self.numerator as u64)
    }
}

/// The interval that `Iterator::reduce` keeps when each step keeps the left
/// interval only if it is strictly faster than the right one.
pub open spec fn fastest_spec(s: Seq<FrameInterval>) -> Option<FrameInterval>
    decreases s.len(),
{
    if s.len() == 0 {
        None
    } else if s.len() == 1 {
        Some(s[0])
    } else {
        match fastest_spec(s.drop_last()) {
            Some(left) => if fps_gt(left, s.last()) {
                Some(left)
            } else {
                Some(s.last())
            },
            None => None,
        }
    }
}

pub fn fastest_frame_interval(intervals: &[FrameInterval]) -> (r: Option<FrameInterval>)
    ensures
        r == fastest_spec(intervals@),
{
    if intervals.len() == 0 {
        return None;
    }
    let mut best = intervals[0];
    let mut i: usize = 1;
    proof {
        assert(intervals@.take(1).drop_last() =~= intervals@.take(0));
    }
    while i < intervals.len()
        invariant
            1 <= i <= intervals@.len(),
            fastest_spec(intervals@.take(i as int)) == Some(best),
        decreases intervals@.len() - i,
    {
        let next = intervals[i];
        proof {
            assert(intervals@.take(i + 1).drop_last() =~= intervals@.take(i as int));
            assert(intervals@.take(i + 1).last() == next);
        }
        if !best.frames_per_second_exceeds(&next) {
            best = next;
        }
        i = i + 1;
    }
    proof {
        assert(intervals@.take(i as int) =~= intervals@);
    }
    Some(best)
}

/// `a` is at least as fast as `b`.
pub open spec fn fps_ge(a: FrameInterval, b: FrameInterval) -> bool {
    !fps_gt(b, a)
}

pub open spec fn positive_numerators(s: Seq<FrameInterval>) -> bool {
    forall|k: int| 0 <= k < s.len() ==> #[trigger] s[k].numerator > 0
}

/// Fastest first: no interval runs faster than one listed before it.
pub open spec fn sorted_fastest_first(s: Seq<FrameInterval>) -> bool {
    forall|i: int, j: int| 0 <= i < j < s.len() ==> fps_ge(#[trigger] s[i], #[trigger] s[j])
}

/// Between intervals of positive numerator, "at least as fast" is transitive.
pub proof fn lemma_fps_ge_transitive(a: FrameInterval, b: FrameInterval, c: FrameInterval)
    requires
        b.numerator > 0,
        fps_ge(a, b),
        fps_ge(b, c),
    ensures
        fps_ge(a, c),
{
    let (an, ad, bn, bd, cn, cd) = (
        a.numerator as int,
        a.denominator as int,
        b.numerator as int,
        b.denominator as int,
        c.numerator as int,
        c.denominator as int,
    );
    assert(ad * cn >= cd * an) by (nonlinear_arith)
        requires
            bn > 0,
            an >= 0,
            cn >= 0,
            ad * bn >= bd * an,
            bd * cn >= cd * bn,
    {
        assert(ad * bn * cn >= bd * an * cn);
        assert(bd * cn * an >= cd * bn * an);
        assert(ad * cn * bn >= cd * an * bn);
    }
}

fn swap_adjacent(v: &mut Vec<FrameInterval>, j: usize)
    requires
        0 < j < old(v)@.len(),
    ensures
        final(v)@ == old(v)@.update(j as int, old(v)@[j - 1]).update(j - 1, old(v)@[j as int]),
        final(v)@.to_multiset() == old(v)@.to_multiset(),
{
    broadcast use vstd::seq_lib::group_to_multiset_ensures;
    broadcast use vstd::multiset::group_multiset_axioms;

    let a = v[j - 1];
    let b = v[j];
    v[j] = a;
    v[j - 1] = b;
    proof {
        let s = old(v)@;
        let s1 = s.update(j as int, a);
        assert(s1.to_multiset() == s.to_multiset().insert(a).remove(b));
        assert(s1.update(j - 1, b).to_multiset() == s1.to_multiset().insert(b).remove(a));
        assert(s1.to_multiset().insert(b).remove(a) =~= s.to_multiset());
    }
}

/// `prefix` with `x` inserted from the end: `x` passes each interval that
/// it runs faster than and stops behind the first one that it does not. On
/// a list ordered fastest first this is a stable insertion: `x` lands after
/// every interval of its own rate.
pub open spec fn insert_fastest(prefix: Seq<FrameInterval>, x: FrameInterval) -> Seq<FrameInterval>
    decreases prefix.len(),
{
    if prefix.len() == 0 {
        seq![x]
    } else if fps_gt(x, prefix.last()) {
        insert_fastest(prefix.drop_last(), x).push(prefix.last())
    } else {
        prefix.push(x)
    }
}

/// `s` ordered fastest first by stable insertion: each interval in turn is
/// inserted into the ordered list of those before it. Intervals of equal
/// rate keep their order, and so does an interval with a zero numerator
/// against any that neither runs faster than the other.
pub open spec fn fastest_first_order(s: Seq<FrameInterval>) -> Seq<FrameInterval>
    decreases s.len(),
{
    if s.len() == 0 {
        s
    } else {
        insert_fastest(fastest_first_order(s.drop_last()), s.last())
    }
}

/// Orders intervals fastest first, keeping the relative order of intervals
/// of equal rate (a stable sort).
pub fn sort_frame_intervals_fastest_first(intervals: &mut Vec<FrameInterval>)
    ensures
        final(intervals)@ == fastest_first_order(old(intervals)@),
        final(intervals)@.to_multiset() == old(intervals)@.to_multiset(),
        positive_numerators(old(intervals)@) ==> sorted_fastest_first(final(intervals)@),
{
    let n = intervals.len();
    if n == 0 {
        return;
    }
    proof {
        let first = old(intervals)@.take(1);
        assert(first.drop_last() =~= Seq::<FrameInterval>::empty());
        assert(fastest_first_order(first.drop_last()) == Seq::<FrameInterval>::empty());
        assert(intervals@.take(1) =~= fastest_first_order(first));
    }
    let mut i: usize = 1;
    while i < n
        invariant
            n == intervals@.len(),
            n == old(intervals)@.len(),
            1 <= i <= n,
            intervals@.take(i as int) == fastest_first_order(old(intervals)@.take(i as int)),
            intervals@.subrange(i as int, n as int) == old(intervals)@.subrange(i as int, n as int),
            intervals@.to_multiset() == old(intervals)@.to_multiset(),
            positive_numerators(old(intervals)@) ==> positive_numerators(intervals@),
            positive_numerators(old(intervals)@) ==> sorted_fastest_first(
                intervals@.take(i as int),
            ),
        decreases n - i,
    {
        let mut j = i;
        let ghost prefix = intervals@.take(i as int);
        let ghost x = intervals@[i as int];
        proof {
            assert(intervals@.take(i + 1) =~= prefix.take(i as int) + seq![x] + prefix.subrange(i as int, i as int));
            assert(prefix.take(i as int) =~= prefix);
            assert(x == old(intervals)@[i as int]) by {
                assert(intervals@.subrange(i as int, n as int)[0] == old(intervals)@.subrange(i as int, n as int)[0]);
            }
            assert(intervals@.subrange(i + 1, n as int) =~= old(intervals)@.subrange(i + 1, n as int)) by {
                assert forall|k: int| 0 <= k < n - i - 1 implies #[trigger] intervals@.subrange(i + 1, n as int)[k]
                    == old(intervals)@.subrange(i + 1, n as int)[k] by {
                    assert(intervals@.subrange(i as int, n as int)[k + 1] == old(intervals)@.subrange(
                        i as int,
                        n as int,
                    )[k + 1]);
                }
            }
            assert(insert_fastest(prefix, x) =~= insert_fastest(prefix.take(i as int), x) + prefix.subrange(
                i as int,
                i as int,
            ));
        }
        proof {
            if positive_numerators(old(intervals)@) {
                assert forall|a: int, b: int|
                    0 <= a < b <= i && a != j && b != j implies fps_ge(
                        #[trigger] intervals@[a],
                        #[trigger] intervals@[b],
                    ) by {
                    assert(intervals@.take(i as int)[a] == intervals@[a]);
                    assert(intervals@.take(i as int)[b] == intervals@[b]);
                }
            }
        }
        while j > 0 && intervals[j].frames_per_second_exceeds(&intervals[j - 1])
            invariant
                n == intervals@.len(),
                n == old(intervals)@.len(),
                0 <= j <= i < n,
                prefix.len() == i,
                x == old(intervals)@[i as int],
                intervals@.take(i + 1) == prefix.take(j as int) + seq![x] + prefix.subrange(j as int, i as int),
                intervals@.subrange(i + 1, n as int) == old(intervals)@.subrange(i + 1, n as int),
                insert_fastest(prefix, x) == insert_fastest(prefix.take(j as int), x) + prefix.subrange(
                    j as int,
                    i as int,
                ),
                intervals@.to_multiset() == old(intervals)@.to_multiset(),
                positive_numerators(old(intervals)@) ==> positive_numerators(intervals@),
                positive_numerators(old(intervals)@) ==> {
                    &&& forall|a: int, b: int|
                        0 <= a < b <= i && a != j && b != j ==> fps_ge(
                            #[trigger] intervals@[a],
                            #[trigger] intervals@[b],
                        )
                    &&& forall|b: int| j < b <= i ==> fps_ge(intervals@[j as int], #[trigger] intervals@[b])
                },
            decreases j,
        {
            proof {
                broadcast use vstd::seq_lib::group_to_multiset_ensures;
            }
            let ghost before = intervals@;
            proof {
                assert(before[j as int] == before.take(i + 1)[j as int]);
                assert(before[j - 1] == before.take(i + 1)[j - 1]);
                assert(before[j as int] == x);
                assert(before[j - 1] == prefix[j - 1]);
            }
            swap_adjacent(intervals, j);
            proof {
                assert(intervals@.take(i + 1) =~= prefix.take(j - 1) + seq![x] + prefix.subrange(j - 1, i as int)) by {
                    assert forall|k: int| 0 <= k < i + 1 implies #[trigger] intervals@.take(i + 1)[k] == (prefix.take(j - 1)
                        + seq![x] + prefix.subrange(j - 1, i as int))[k] by {
                        assert(before.take(i + 1)[k] == before[k]);
                        if k > j {
                            assert(before[k] == (prefix.take(j as int) + seq![x] + prefix.subrange(j as int, i as int))[k]);
                        } else if k < j - 1 {
                            assert(before[k] == (prefix.take(j as int) + seq![x] + prefix.subrange(j as int, i as int))[k]);
                        }
                    }
                }
                assert(intervals@.subrange(i + 1, n as int) =~= before.subrange(i + 1, n as int));
                let shorter = prefix.take(j as int);
                assert(shorter.drop_last() =~= prefix.take(j - 1));
                assert(shorter.last() == prefix[j - 1]);
                assert(fps_gt(x, shorter.last()));
                assert(insert_fastest(shorter, x) == insert_fastest(prefix.take(j - 1), x).push(prefix[j - 1]));
                assert(insert_fastest(prefix, x) =~= insert_fastest(prefix.take(j - 1), x) + prefix.subrange(
                    j - 1,
                    i as int,
                ));
            }
            proof {
                if positive_numerators(old(intervals)@) {
                    assert forall|k: int| 0 <= k < intervals@.len() implies #[trigger] intervals@[k].numerator > 0 by {
                        assert(before[k].numerator > 0);
                        assert(before[j - 1].numerator > 0);
                        assert(before[j as int].numerator > 0);
                    }
                    assert forall|a: int, b: int|
                        0 <= a < b <= i && a != j - 1 && b != j - 1 implies fps_ge(
                            #[trigger] intervals@[a],
                            #[trigger] intervals@[b],
                        ) by {
                        if a == j {
                            assert(intervals@[a] == before[j - 1]);
                            assert(before[b] == intervals@[b]);
                        } else if b == j {
                            assert(intervals@[b] == before[j - 1]);
                            assert(before[a] == intervals@[a]);
                        }
                    }
                    assert forall|b: int| j - 1 < b <= i implies fps_ge(intervals@[j - 1], #[trigger] intervals@[b]) by {
                        if b == j {
                        } else {
                            assert(fps_ge(before[j as int], before[b]));
                        }
                    }
                }
            }
            j = j - 1;
        }
        proof {
            let shorter = prefix.take(j as int);
            if j == 0 {
                assert(insert_fastest(shorter, x) == seq![x]);
            } else {
                assert(intervals@[j as int] == intervals@.take(i + 1)[j as int]);
                assert(intervals@[j - 1] == intervals@.take(i + 1)[j - 1]);
                assert(intervals@[j - 1] == prefix[j - 1]);
                assert(shorter.last() == prefix[j - 1]);
                assert(insert_fastest(shorter, x) == shorter.push(x));
            }
            assert(intervals@.take(i + 1) =~= insert_fastest(prefix, x));
            let upto = old(intervals)@.take(i + 1);
            assert(upto.drop_last() =~= old(intervals)@.take(i as int));
            assert(x == old(intervals)@[i as int]);
            assert(upto.last() == x);
            assert(intervals@.take(i + 1) == fastest_first_order(upto));
            assert(intervals@.subrange(i + 1, n as int) =~= old(intervals)@.subrange(i + 1, n as int));
        }
        proof {
            if positive_numerators(old(intervals)@) {
                assert forall|a: int, b: int| 0 <= a < b < i + 1 implies fps_ge(
                    #[trigger] intervals@.take(i + 1)[a],
                    #[trigger] intervals@.take(i + 1)[b],
                ) by {
                    if a == j {
                    } else if b == j {
                        // intervals[j] does not run faster than intervals[j - 1]
                        if a < j - 1 {
                            lemma_fps_ge_transitive(intervals@[a], intervals@[j - 1], intervals@[b]);
                        }
                    }
                }
            }
        }
        i = i + 1;
    }
    proof {
        assert(intervals@.take(n as int) =~= intervals@);
        assert(old(intervals)@.take(n as int) =~= old(intervals)@);
    }
}

/// Some listed interval runs at the rate of `c`.
pub open spec fn has_rate_of(s: Seq<FrameInterval>, c: FrameInterval) -> bool {
    exists|i: int| 0 <= i < s.len() && fps_eq(c, #[trigger] s[i])
}

/// `cur` after offering the default rates from the `k`-th on: each default
/// rate no faster than `native` and not yet listed is appended.
pub open spec fn with_common_rates(cur: Seq<FrameInterval>, native: FrameInterval, k: nat) -> Seq<
    FrameInterval,
>
    decreases 6 - k,
{
    if k >= 6 {
        cur
    } else {
        let common = FrameInterval { numerator: 1, denominator: DEFAULT_FRAME_INTERVALS@[k as int] };
        let next = if fps_gt(common, native) || has_rate_of(cur, common) {
            cur
        } else {
            cur.push(common)
        };
        with_common_rates(next, native, k + 1)
    }
}

proof fn lemma_with_common_rates_positive(cur: Seq<FrameInterval>, native: FrameInterval, k: nat)
    requires
        positive_numerators(cur),
    ensures
        positive_numerators(with_common_rates(cur, native, k)),
    decreases 6 - k,
{
    if k < 6 {
        let common = FrameInterval { numerator: 1, denominator: DEFAULT_FRAME_INTERVALS@[k as int] };
        let next = if fps_gt(common, native) || has_rate_of(cur, common) {
            cur
        } else {
            cur.push(common)
        };
        assert(positive_numerators(next)) by {
            assert forall|i: int| 0 <= i < next.len() implies #[trigger] next[i].numerator > 0 by {
                if i < cur.len() {
                    assert(next[i] == cur[i]);
                }
            }
        }
        lemma_with_common_rates_positive(next, native, k + 1);
    }
}

/// `new` is `old` with the default rates no faster than its fastest interval
/// and not yet listed appended, then put in [`fastest_first_order`] (a
/// stable order, fastest first when the numerators are positive); or `old`
/// itself when it is empty or only native rates are wanted.
pub open spec fn common_rates_added(old: Seq<FrameInterval>, new: Seq<FrameInterval>, native_fps_only: bool) -> bool {
    match fastest_spec(old) {
        None => new == old,
        Some(native) => if native_fps_only {
            new == old
        } else {
            &&& new == fastest_first_order(with_common_rates(old, native, 0))
            &&& new.to_multiset() == with_common_rates(old, native, 0).to_multiset()
            &&& positive_numerators(old) ==> sorted_fastest_first(new)
        },
    }
}

/// Adds the default rates (60, 30, 24, 16, 10 and 5 fps) that are no faster
/// than the fastest listed interval, unless `native_fps_only`, then orders
/// the list fastest first, intervals of equal rate in the order they were
/// listed. An empty list stays empty.
pub fn add_supported_common_frame_intervals(intervals: &mut Vec<FrameInterval>, native_fps_only: bool)
    ensures
        common_rates_added(old(intervals)@, final(intervals)@, native_fps_only),
{
    let native_max = match fastest_frame_interval(intervals.as_slice()) {
        Some(native) => native,
        None => {
            return;
        },
    };
    if native_fps_only {
        return;
    }
    let defaults = DEFAULT_FRAME_INTERVALS;
    let mut k: usize = 0;
    while k < 6
        invariant
            k <= 6,
            defaults == DEFAULT_FRAME_INTERVALS,
            with_common_rates(intervals@, native_max, k as nat) == with_common_rates(
                old(intervals)@,
                native_max,
                0,
            ),
        decreases 6 - k,
    {
        let common = FrameInterval { numerator: 1, denominator: defaults[k] };
        if !common.frames_per_second_exceeds(&native_max) {
            let mut listed = false;
            let mut i: usize = 0;
            while i < intervals.len()
                invariant
                    i <= intervals@.len(),
                    listed == (exists|m: int| 0 <= m < i && fps_eq(common, #[trigger] intervals@[m])),
                decreases intervals@.len() - i,
            {
                if common.frames_per_second_equals(&intervals[i]) {
                    listed = true;
                }
                i = i + 1;
            }
            if !listed {
                intervals.push(common);
            }
        }
        k = k + 1;
    }
    proof {
        if positive_numerators(old(intervals)@) {
            lemma_with_common_rates_positive(old(intervals)@, native_max, 0);
        }
        assert(with_common_rates(intervals@, native_max, 6) == intervals@);
    }
    sort_frame_intervals_fastest_first(intervals);
}

/// The intervals `(max(n, min_numerator), max(d, min_denominator))` for
/// `d` stepping from `d` to `d_end`.
pub open spec fn interval_row(n: int, d: int, d_end: int, step: int, min_n: int, min_d: int) -> Seq<FrameInterval>
    decreases (if d > d_end { 0 } else { d_end + 1 - d }),
{
    if step <= 0 || d > d_end {
        Seq::empty()
    } else {
        seq![FrameInterval { numerator: (if n > min_n { n } else { min_n }) as u32, denominator: (if d > min_d { d } else { min_d }) as u32 }]
            + interval_row(n, d + step, d_end, step, min_n, min_d)
    }
}

/// The rows of [`interval_row`] for `n` stepping from `n` to `n_end`.
pub open spec fn interval_grid(n: int, n_end: int, d_end: int, step: int, min_n: int, min_d: int) -> Seq<FrameInterval>
    decreases (if n > n_end { 0 } else { n_end + 1 - n }),
{
    if step <= 0 || n > n_end {
        Seq::empty()
    } else {
        interval_row(n, 0, d_end, step, min_n, min_d) + interval_grid(n + step, n_end, d_end, step, min_n, min_d)
    }
}

/// The intervals of a continuous range, sampled: numerators and
/// denominators step by `step` (at least 5) from 0 up to the range end's
/// (capped at 30), each raised to at least the range start's (and at least 1).
pub open spec fn intervals_from_range_spec(start: FrameInterval, end: FrameInterval, step: usize) -> Seq<FrameInterval> {
    let step = if step > 5 { step as int } else { 5 };
    let n_end = if end.numerator < 30 { end.numerator as int } else { 30 };
    let d_end = if end.denominator < 30 { end.denominator as int } else { 30 };
    let min_n = if start.numerator > 1 { start.numerator as int } else { 1 };
    let min_d = if start.denominator > 1 { start.denominator as int } else { 1 };
    interval_grid(0, n_end, d_end, step, min_n, min_d)
}

proof fn lemma_row_split(n: int, d: int, d_end: int, step: int, min_n: int, min_d: int)
    requires
        step > 0,
        d <= d_end,
    ensures
        interval_row(n, d, d_end, step, min_n, min_d) == seq![FrameInterval { numerator: (if n > min_n { n } else { min_n }) as u32, denominator: (if d > min_d { d } else { min_d }) as u32 }]
            + interval_row(n, d + step, d_end, step, min_n, min_d),
{
}

pub fn compute_intervals_from_range(interval_start: FrameInterval, interval_end: FrameInterval, step: usize) -> (r: Vec<FrameInterval>)
    ensures
        r@ == intervals_from_range_spec(interval_start, interval_end, step),
{
    let step: u64 = if step > 5 { step as u64 } else { 5 };
    let n_end: u64 = if interval_end.numerator < 30 { interval_end.numerator as u64 } else { 30 };
    let d_end: u64 = if interval_end.denominator < 30 { interval_end.denominator as u64 } else { 30 };
    let min_n: u32 = if interval_start.numerator > 1 { interval_start.numerator } else { 1 };
    let min_d: u32 = if interval_start.denominator > 1 { interval_start.denominator } else { 1 };
    let ghost total = interval_grid(0, n_end as int, d_end as int, step as int, min_n as int, min_d as int);
    let mut intervals: Vec<FrameInterval> = Vec::new();
    let mut n: u64 = 0;
    let mut more_rows = true;
    assert(intervals@ + total =~= total);
    while more_rows
        invariant
            step >= 5,
            n_end <= 30,
            d_end <= 30,
            more_rows ==> n <= n_end,
            total == interval_grid(0, n_end as int, d_end as int, step as int, min_n as int, min_d as int),
            total == intervals@ + (if more_rows {
                interval_grid(n as int, n_end as int, d_end as int, step as int, min_n as int, min_d as int)
            } else {
                Seq::<FrameInterval>::empty()
            }),
        decreases n_end - n + (if more_rows { 1int } else { 0int }),
    {
        let ghost rest = interval_grid(n as int + step as int, n_end as int, d_end as int, step as int, min_n as int, min_d as int);
        let mut d: u64 = 0;
        let mut more_columns = true;
        assert(intervals@ + interval_row(n as int, 0, d_end as int, step as int, min_n as int, min_d as int) + rest =~= total);
        while more_columns
            invariant
                step >= 5,
                n <= n_end <= 30,
                d_end <= 30,
                more_columns ==> d <= d_end,
                total == intervals@ + (if more_columns {
                    interval_row(n as int, d as int, d_end as int, step as int, min_n as int, min_d as int)
                } else {
                    Seq::<FrameInterval>::empty()
                }) + rest,
            decreases d_end - d + (if more_columns { 1int } else { 0int }),
        {
            let entry = FrameInterval {
                numerator: if n as u32 > min_n { n as u32 } else { min_n },
                denominator: if d as u32 > min_d { d as u32 } else { min_d },
            };
            proof {
                lemma_row_split(n as int, d as int, d_end as int, step as int, min_n as int, min_d as int);
            }
            let ghost before = intervals@;
            intervals.push(entry);
            if d_end - d < step {
                more_columns = false;
                proof {
                    assert(interval_row(n as int, d + step, d_end as int, step as int, min_n as int, min_d as int) =~= Seq::<FrameInterval>::empty());
                    assert(total =~= intervals@ + Seq::<FrameInterval>::empty() + rest);
                }
            } else {
                proof {
                    assert(total =~= intervals@ + interval_row(n as int, d + step, d_end as int, step as int, min_n as int, min_d as int) + rest);
                }
                d = d + step;
            }
        }
        if n_end - n < step {
            more_rows = false;
            proof {
                assert(rest =~= Seq::<FrameInterval>::empty());
                assert(total =~= intervals@ + Seq::<FrameInterval>::empty());
            }
        } else {
            n = n + step;
            proof {
                assert(total =~= intervals@ + Seq::<FrameInterval>::empty() + rest);
                assert(total =~= intervals@ + rest);
            }
        }
    }
    intervals
}

} // verus!
