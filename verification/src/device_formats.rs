//! The formats of a local camera, read from the capabilities its device
//! advertises: per encode, the frame sizes and, per size, the frame
//! intervals. Continuous size ranges are sampled at the standard sizes;
//! structures without a rate get the default rates (none for libcamera,
//! whose native sensor modes replace the sizes when known).
use vstd::prelude::*;
use crate::caps::{
    field_spec, fraction_interval, interval_from_fraction, list_ints, list_intervals,
    list_intervals_exec, list_strings, keep_native_mode_frame_intervals, native_sizes_rel, Caps, CapsField,
    CapsStructure, CapsValue,
};
use crate::sorted_sets::{lemma_sorted_set_exists, same_elements, sort_unique_by, sorted_set, strict_order, strictly_sorted_by};
use crate::text::str_eq;
use crate::video_types::{
    compute_intervals_from_range, encode_of_uppercase, intervals_from_range_spec, unicode_uppercase,
    EncodeView, Format, FrameInterval, Size, SizeDepth, VideoEncodeType, DEFAULT_FRAME_INTERVALS,
    STANDARD_SIZES,
};
use crate::sensor_modes::{libcamera_native_mode_sizes, mode_sizes_spec};

verus! {

/// Increasing order of integers.
pub open spec fn u32_increasing() -> spec_fn(u32, u32) -> bool {
    |a: u32, b: u32| a < b
}

pub open spec fn u32_itself() -> spec_fn(u32) -> u32 {
    |a: u32| a
}

/// Decreasing order of intervals by numerator, then denominator.
pub open spec fn interval_decreasing() -> spec_fn(FrameInterval, FrameInterval) -> bool {
    |a: FrameInterval, b: FrameInterval| a.numerator > b.numerator || (a.numerator == b.numerator && a.denominator > b.denominator)
}

pub open spec fn interval_itself() -> spec_fn(FrameInterval) -> FrameInterval {
    |a: FrameInterval| a
}

/// Increasing order of intervals by numerator, then denominator.
pub open spec fn interval_lt(a: FrameInterval, b: FrameInterval) -> bool {
    a.numerator < b.numerator || (a.numerator == b.numerator && a.denominator < b.denominator)
}

/// Lexicographic order of interval lists (a proper prefix comes first).
pub open spec fn intervals_lt(a: Seq<FrameInterval>, b: Seq<FrameInterval>) -> bool
    decreases a.len(),
{
    if a.len() == 0 {
        b.len() > 0
    } else if b.len() == 0 {
        false
    } else if interval_lt(a[0], b[0]) {
        true
    } else if a[0] != b[0] {
        false
    } else {
        intervals_lt(a.drop_first(), b.drop_first())
    }
}

/// What orders a size in a format: width, height, then intervals.
pub type SizeKey = (u32, u32, Seq<FrameInterval>);

pub open spec fn size_key() -> spec_fn(Size) -> SizeKey {
    |z: Size| (z.width, z.height, z.intervals@)
}

/// Increasing order of size keys.
pub open spec fn size_key_lt(a: SizeKey, b: SizeKey) -> bool {
    a.0 < b.0 || (a.0 == b.0 && (a.1 < b.1 || (a.1 == b.1 && intervals_lt(a.2, b.2))))
}

/// Decreasing order of size keys: the largest size first.
pub open spec fn size_decreasing() -> spec_fn(SizeKey, SizeKey) -> bool {
    |a: SizeKey, b: SizeKey| size_key_lt(b, a)
}

proof fn lemma_u32_order()
    ensures
        strict_order(u32_increasing()),
{
}

proof fn lemma_interval_order()
    ensures
        strict_order(interval_decreasing()),
{
}

proof fn lemma_intervals_lt_irreflexive(a: Seq<FrameInterval>)
    ensures
        !intervals_lt(a, a),
    decreases a.len(),
{
    if a.len() > 0 {
        lemma_intervals_lt_irreflexive(a.drop_first());
    }
}

proof fn lemma_intervals_lt_transitive(a: Seq<FrameInterval>, b: Seq<FrameInterval>, c: Seq<FrameInterval>)
    requires
        intervals_lt(a, b),
        intervals_lt(b, c),
    ensures
        intervals_lt(a, c),
    decreases a.len(),
{
    if a.len() > 0 && b.len() > 0 && c.len() > 0 {
        if a[0] == b[0] && b[0] == c[0] {
            lemma_intervals_lt_transitive(a.drop_first(), b.drop_first(), c.drop_first());
        }
    }
}

proof fn lemma_intervals_lt_total(a: Seq<FrameInterval>, b: Seq<FrameInterval>)
    ensures
        intervals_lt(a, b) || intervals_lt(b, a) || a == b,
    decreases a.len(),
{
    if a.len() > 0 && b.len() > 0 {
        if a[0] == b[0] {
            lemma_intervals_lt_total(a.drop_first(), b.drop_first());
            if a.drop_first() == b.drop_first() {
                assert(a =~= seq![a[0]] + a.drop_first());
                assert(b =~= seq![b[0]] + b.drop_first());
            }
        }
    } else if a.len() == 0 && b.len() == 0 {
        assert(a =~= b);
    }
}

proof fn lemma_size_order()
    ensures
        strict_order(size_decreasing()),
{
    let lt = size_decreasing();
    assert forall|a: SizeKey| !(#[trigger] lt(a, a)) by {
        lemma_intervals_lt_irreflexive(a.2);
    }
    assert forall|a: SizeKey, b: SizeKey, c: SizeKey| #[trigger] lt(a, b) && #[trigger] lt(b, c) implies lt(a, c) by {
        if a.0 == b.0 && b.0 == c.0 && a.1 == b.1 && b.1 == c.1 {
            lemma_intervals_lt_transitive(c.2, b.2, a.2);
        }
    }
    assert forall|a: SizeKey, b: SizeKey| a != b implies #[trigger] lt(a, b) || #[trigger] lt(b, a) by {
        lemma_intervals_lt_total(a.2, b.2);
    }
}

fn u32_before(a: &u32, b: &u32) -> (r: bool)
    ensures
        r == u32_increasing()(u32_itself()(*a), u32_itself()(*b)),
{
    *a < *b
}

fn interval_before(a: &FrameInterval, b: &FrameInterval) -> (r: bool)
    ensures
        r == interval_decreasing()(interval_itself()(*a), interval_itself()(*b)),
{
    a.numerator > b.numerator || (a.numerator == b.numerator && a.denominator > b.denominator)
}

fn intervals_less(a: &Vec<FrameInterval>, b: &Vec<FrameInterval>) -> (r: bool)
    ensures
        r == intervals_lt(a@, b@),
{
    let mut i: usize = 0;
    assert(a@.skip(0) =~= a@);
    assert(b@.skip(0) =~= b@);
    while i < a.len() && i < b.len() && a[i].numerator == b[i].numerator && a[i].denominator == b[i].denominator
        invariant
            i <= a@.len(),
            i <= b@.len(),
            intervals_lt(a@, b@) == intervals_lt(a@.skip(i as int), b@.skip(i as int)),
        decreases a@.len() - i,
    {
        proof {
            assert(a@.skip(i as int)[0] == a@[i as int]);
            assert(b@.skip(i as int)[0] == b@[i as int]);
            assert(a@.skip(i as int).drop_first() =~= a@.skip(i + 1));
            assert(b@.skip(i as int).drop_first() =~= b@.skip(i + 1));
        }
        i = i + 1;
    }
    proof {
        if i < a@.len() && i < b@.len() {
            assert(a@.skip(i as int)[0] == a@[i as int]);
            assert(b@.skip(i as int)[0] == b@[i as int]);
        }
    }
    if i == a.len() {
        i < b.len()
    } else if i == b.len() {
        false
    } else {
        a[i].numerator < b[i].numerator || (a[i].numerator == b[i].numerator && a[i].denominator < b[i].denominator)
    }
}

fn size_before(a: &Size, b: &Size) -> (r: bool)
    ensures
        r == size_decreasing()(size_key()(*a), size_key()(*b)),
{
    b.width < a.width || (b.width == a.width && (b.height < a.height || (b.height == a.height && intervals_less(
        &b.intervals,
        &a.intervals,
    ))))
}

/// The distinct values of `values`, in increasing order.
pub fn sorted_unique_u32(values: Vec<u32>) -> (r: Vec<u32>)
    ensures
        r@ == sorted_set(values@, u32_increasing()),
        strictly_sorted_by(r@, u32_increasing()),
        same_elements(r@, values@),
{
    proof {
        lemma_u32_order();
        assert(values@.map_values(u32_itself()) =~= values@);
    }
    let r = sort_unique_by::<u32, u32, _>(
        values,
        u32_before,
        Ghost(u32_itself()),
        Ghost(u32_increasing()),
    );
    proof {
        assert(r@.map_values(u32_itself()) =~= r@);
        assert(values@.map_values(u32_itself()) =~= values@);
    }
    r
}

/// The distinct intervals of `intervals`, largest numerator first.
pub fn sorted_unique_intervals(intervals: Vec<FrameInterval>) -> (r: Vec<FrameInterval>)
    ensures
        r@ == sorted_set(intervals@, interval_decreasing()),
{
    proof {
        lemma_interval_order();
        assert(intervals@.map_values(interval_itself()) =~= intervals@);
    }
    let r = sort_unique_by::<FrameInterval, FrameInterval, _>(
        intervals,
        interval_before,
        Ghost(interval_itself()),
        Ghost(interval_decreasing()),
    );
    proof {
        assert(r@.map_values(interval_itself()) =~= r@);
    }
    r
}

/// The sizes of `sizes` with distinct keys, largest first.
pub fn sorted_unique_sizes(sizes: Vec<Size>) -> (r: Vec<Size>)
    ensures
        r@.map_values(size_key()) == sorted_set(sizes@.map_values(size_key()), size_decreasing()),
        strictly_sorted_by(r@.map_values(size_key()), size_decreasing()),
        same_elements(r@.map_values(size_key()), sizes@.map_values(size_key())),
        forall|z: Size| r@.contains(z) ==> sizes@.contains(z),
{
    proof {
        lemma_size_order();
    }
    sort_unique_by::<Size, SizeKey, _>(
        sizes,
        size_before,
        Ghost(size_key()),
        Ghost(size_decreasing()),
    )
}


/// The encode a fourcc names, in any letter case.
pub open spec fn fourcc_encode(s: Seq<char>) -> EncodeView {
    encode_of_uppercase(unicode_uppercase(s))
}

pub open spec fn fourcc_encode_fn() -> spec_fn(Seq<char>) -> EncodeView {
    |s: Seq<char>| fourcc_encode(s)
}

/// The encodes a structure describes: raw video by its `format` (one
/// fourcc or a list of them), JPEG, H.264 and H.265 by media type; `None`
/// for anything else (Bayer included), which is skipped.
pub open spec fn structure_encodes_spec(st: CapsStructure) -> Option<Seq<EncodeView>> {
    if st.name@ == "video/x-raw"@ {
        match field_spec(st.fields@, "format"@) {
            Some(CapsField::Value(CapsValue::Str(s))) => Some(seq![fourcc_encode(s@)]),
            Some(CapsField::List(items)) => Some(list_strings(items@).map_values(fourcc_encode_fn())),
            _ => None,
        }
    } else if st.name@ == "image/jpeg"@ {
        Some(seq![EncodeView::Mjpg])
    } else if st.name@ == "video/x-h264"@ {
        Some(seq![EncodeView::H264])
    } else if st.name@ == "video/x-h265"@ {
        Some(seq![EncodeView::H265])
    } else {
        None
    }
}

/// Field `name` of `st` is an integer range.
pub open spec fn is_int_range(st: CapsStructure, name: Seq<char>) -> bool {
    field_spec(st.fields@, name) matches Some(CapsField::IntRange { .. })
}

/// The widths (or heights) of the standard sizes within `start..=end` that
/// are multiples of `step`, in the standard sizes' order.
pub open spec fn standard_dims(sizes: Seq<(u32, u32)>, start: u32, end: u32, step: u32, use_width: bool) -> Seq<u32>
    decreases sizes.len(),
{
    if sizes.len() == 0 {
        Seq::empty()
    } else {
        let rest = standard_dims(sizes.drop_last(), start, end, step, use_width);
        let d = if use_width {
            sizes.last().0
        } else {
            sizes.last().1
        };
        if start <= d && d <= end && d % step == 0 {
            rest.push(d)
        } else {
            rest
        }
    }
}

/// The values a width or height field gives: an integer, the standard
/// sizes within a range, or the integers of a list; `None` for other types
/// or a missing field, which skips the structure.
pub open spec fn dimension_spec(st: CapsStructure, name: Seq<char>, use_width: bool) -> Option<Seq<u32>> {
    match field_spec(st.fields@, name) {
        Some(CapsField::Value(CapsValue::Int(v))) => Some(seq![v as u32]),
        Some(CapsField::IntRange { min, max, step }) => Some(
            standard_dims(STANDARD_SIZES@, min as u32, max as u32, step as u32, use_width),
        ),
        Some(CapsField::List(items)) => Some(list_ints(items@)),
        _ => None,
    }
}

/// The default rates as intervals, fastest first.
pub open spec fn default_intervals() -> Seq<FrameInterval> {
    DEFAULT_FRAME_INTERVALS@.map_values(|d: u32| FrameInterval { numerator: 1, denominator: d })
}

/// The intervals a `framerate` field gives: a fraction, a sampled range or
/// the fractions of a list; `None` for other types. Without the field,
/// libcamera gets none and other cameras the default rates.
pub open spec fn framerate_spec(st: CapsStructure, is_libcamera: bool) -> Option<Seq<FrameInterval>> {
    match field_spec(st.fields@, "framerate"@) {
        Some(CapsField::Value(CapsValue::Fraction(f))) => Some(seq![fraction_interval(f)]),
        Some(CapsField::FractionRange { low, high }) => Some(
            intervals_from_range_spec(fraction_interval(low), fraction_interval(high), 1),
        ),
        Some(CapsField::List(items)) => Some(list_intervals(items@)),
        Some(_) => None,
        None => if is_libcamera {
            Some(Seq::empty())
        } else {
            Some(default_intervals())
        },
    }
}

/// The range steps a structure's dimensions are read with are not zero.
pub open spec fn steps_readable(st: CapsStructure, is_libcamera: bool) -> bool {
    (structure_encodes_spec(st) is Some && !(is_libcamera && (is_int_range(st, "width"@) || is_int_range(
        st,
        "height"@,
    )))) ==> {
        &&& field_spec(st.fields@, "height"@) matches Some(CapsField::IntRange { step, .. }) ==> step as u32 != 0
        &&& dimension_spec(st, "height"@, false) is Some ==> (field_spec(st.fields@, "width"@) matches Some(
            CapsField::IntRange { step, .. },
        ) ==> step as u32 != 0)
    }
}

/// Each width paired with the height at the same place (the shorter list
/// decides), all with the same intervals.
pub open spec fn zip_sizes(widths: Seq<u32>, heights: Seq<u32>, intervals: Seq<FrameInterval>) -> Seq<SizeKey> {
    Seq::new(
        if widths.len() < heights.len() {
            widths.len()
        } else {
            heights.len()
        },
        |i: int| (widths[i], heights[i], intervals),
    )
}

/// What a structure contributes: its encodes and its sizes (distinct widths
/// and heights in increasing order, paired up; distinct intervals, largest
/// first); `None` when it is skipped. Libcamera structures with a size
/// range are skipped: its discrete sizes come as separate structures.
pub open spec fn structure_sizes_spec(st: CapsStructure, is_libcamera: bool) -> Option<(Seq<EncodeView>, Seq<SizeKey>)> {
    match structure_encodes_spec(st) {
        None => None,
        Some(encodes) => if is_libcamera && (is_int_range(st, "width"@) || is_int_range(st, "height"@)) {
            None
        } else {
            match (dimension_spec(st, "height"@, false), dimension_spec(st, "width"@, true), framerate_spec(st, is_libcamera)) {
                (Some(heights), Some(widths), Some(intervals)) => Some(
                    (
                        encodes,
                        zip_sizes(
                            sorted_set(widths, u32_increasing()),
                            sorted_set(heights, u32_increasing()),
                            sorted_set(intervals, interval_decreasing()),
                        ),
                    ),
                ),
                _ => None,
            }
        },
    }
}

fn structure_encodes(structure: &CapsStructure) -> (r: Option<Vec<VideoEncodeType>>)
    ensures
        match r {
            Some(v) => structure_encodes_spec(*structure) == Some(v@.map_values(|e: VideoEncodeType| e@)),
            None => structure_encodes_spec(*structure) is None,
        },
{
    if str_eq(structure.name.as_str(), "video/x-raw") {
        match structure.field("format") {
            Some(CapsField::Value(CapsValue::Str(fourcc))) => {
                let mut v: Vec<VideoEncodeType> = Vec::new();
                v.push(VideoEncodeType::from_str(fourcc.as_str()));
                assert(v@.map_values(|e: VideoEncodeType| e@) =~= seq![fourcc_encode(fourcc@)]);
                Some(v)
            },
            Some(CapsField::List(items)) => {
                let mut v: Vec<VideoEncodeType> = Vec::new();
                let mut i: usize = 0;
                while i < items.len()
                    invariant
                        i <= items@.len(),
                        v@.map_values(|e: VideoEncodeType| e@) == list_strings(items@.take(i as int)).map_values(
                            fourcc_encode_fn(),
                        ),
                    decreases items@.len() - i,
                {
                    proof {
                        assert(items@.take(i + 1).drop_last() =~= items@.take(i as int));
                    }
                    let ghost before = v@;
                    match &items[i] {
                        CapsValue::Str(fourcc) => {
                            v.push(VideoEncodeType::from_str(fourcc.as_str()));
                            assert(v@.map_values(|e: VideoEncodeType| e@) =~= before.map_values(
                                |e: VideoEncodeType| e@,
                            ).push(fourcc_encode(fourcc@)));
                        },
                        _ => {},
                    }
                    i = i + 1;
                }
                assert(items@.take(i as int) =~= items@);
                Some(v)
            },
            _ => None,
        }
    } else if str_eq(structure.name.as_str(), "image/jpeg") {
        let v = vec![VideoEncodeType::Mjpg];
        assert(v@.map_values(|e: VideoEncodeType| e@) =~= seq![EncodeView::Mjpg]);
        Some(v)
    } else if str_eq(structure.name.as_str(), "video/x-h264") {
        let v = vec![VideoEncodeType::H264];
        assert(v@.map_values(|e: VideoEncodeType| e@) =~= seq![EncodeView::H264]);
        Some(v)
    } else if str_eq(structure.name.as_str(), "video/x-h265") {
        let v = vec![VideoEncodeType::H265];
        assert(v@.map_values(|e: VideoEncodeType| e@) =~= seq![EncodeView::H265]);
        Some(v)
    } else {
        None
    }
}

fn field_is_int_range(structure: &CapsStructure, name: &str) -> (r: bool)
    ensures
        r == is_int_range(*structure, name@),
{
    match structure.field(name) {
        Some(CapsField::IntRange { .. }) => true,
        _ => false,
    }
}

fn dimension_values(structure: &CapsStructure, name: &str, use_width: bool) -> (r: Option<Vec<u32>>)
    requires
        field_spec(structure.fields@, name@) matches Some(CapsField::IntRange { step, .. }) ==> step as u32 != 0,
    ensures
        match r {
            Some(v) => dimension_spec(*structure, name@, use_width) == Some(v@),
            None => dimension_spec(*structure, name@, use_width) is None,
        },
{
    match structure.field(name) {
        Some(CapsField::Value(CapsValue::Int(value))) => {
            let v = vec![*value as u32];
            assert(v@ =~= seq![*value as u32]);
            Some(v)
        },
        Some(CapsField::IntRange { min, max, step }) => {
            let start = *min as u32;
            let end = *max as u32;
            let step = *step as u32;
            let mut v: Vec<u32> = Vec::new();
            let mut i: usize = 0;
            while i < 16
                invariant
                    step != 0,
                    i <= 16,
                    v@ == standard_dims(STANDARD_SIZES@.take(i as int), start, end, step, use_width),
                decreases 16 - i,
            {
                proof {
                    assert(STANDARD_SIZES@.take(i + 1).drop_last() =~= STANDARD_SIZES@.take(i as int));
                }
                let (width, height) = STANDARD_SIZES[i];
                let d = if use_width {
                    width
                } else {
                    height
                };
                if start <= d && d <= end && d % step == 0 {
                    v.push(d);
                }
                i = i + 1;
            }
            assert(STANDARD_SIZES@.take(16) =~= STANDARD_SIZES@);
            Some(v)
        },
        Some(CapsField::List(items)) => {
            let mut v: Vec<u32> = Vec::new();
            let mut i: usize = 0;
            while i < items.len()
                invariant
                    i <= items@.len(),
                    v@ == list_ints(items@.take(i as int)),
                decreases items@.len() - i,
            {
                proof {
                    assert(items@.take(i + 1).drop_last() =~= items@.take(i as int));
                }
                match &items[i] {
                    CapsValue::Int(value) => v.push(*value as u32),
                    _ => {},
                }
                i = i + 1;
            }
            assert(items@.take(i as int) =~= items@);
            Some(v)
        },
        _ => None,
    }
}

fn framerate_intervals(structure: &CapsStructure, is_libcamera: bool) -> (r: Option<Vec<FrameInterval>>)
    ensures
        match r {
            Some(v) => framerate_spec(*structure, is_libcamera) == Some(v@),
            None => framerate_spec(*structure, is_libcamera) is None,
        },
{
    match structure.field("framerate") {
        Some(CapsField::Value(CapsValue::Fraction(f))) => {
            let v = vec![interval_from_fraction(*f)];
            assert(v@ =~= seq![fraction_interval(*f)]);
            Some(v)
        },
        Some(CapsField::FractionRange { low, high }) => Some(
            compute_intervals_from_range(interval_from_fraction(*low), interval_from_fraction(*high), 1),
        ),
        Some(CapsField::List(items)) => Some(list_intervals_exec(items)),
        Some(_) => None,
        None => {
            if is_libcamera {
                Some(Vec::new())
            } else {
                let mut v: Vec<FrameInterval> = Vec::new();
                let mut i: usize = 0;
                while i < 6
                    invariant
                        i <= 6,
                        v@ == DEFAULT_FRAME_INTERVALS@.take(i as int).map_values(
                            |d: u32| FrameInterval { numerator: 1, denominator: d },
                        ),
                    decreases 6 - i,
                {
                    v.push(FrameInterval { numerator: 1, denominator: DEFAULT_FRAME_INTERVALS[i] });
                    proof {
                        assert(DEFAULT_FRAME_INTERVALS@.take(i + 1) =~= DEFAULT_FRAME_INTERVALS@.take(
                            i as int,
                        ).push(DEFAULT_FRAME_INTERVALS@[i as int]));
                        assert(v@ =~= DEFAULT_FRAME_INTERVALS@.take(i + 1).map_values(
                            |d: u32| FrameInterval { numerator: 1, denominator: d },
                        ));
                    }
                    i = i + 1;
                }
                assert(DEFAULT_FRAME_INTERVALS@.take(6) =~= DEFAULT_FRAME_INTERVALS@);
                Some(v)
            }
        },
    }
}

pub fn copy_of<T: Copy>(v: &Vec<T>) -> (r: Vec<T>)
    ensures
        r@ == v@,
{
    let mut out: Vec<T> = Vec::new();
    let mut i: usize = 0;
    while i < v.len()
        invariant
            i <= v@.len(),
            out@ == v@.take(i as int),
        decreases v@.len() - i,
    {
        out.push(v[i]);
        proof {
            assert(v@.take(i + 1) =~= v@.take(i as int).push(v@[i as int]));
        }
        i = i + 1;
    }
    assert(v@.take(i as int) =~= v@);
    out
}

/// What `structure` contributes, as values.
fn structure_sizes(structure: &CapsStructure, is_libcamera: bool) -> (r: Option<(Vec<VideoEncodeType>, Vec<Size>)>)
    requires
        steps_readable(*structure, is_libcamera),
    ensures
        match r {
            Some((encodes, sizes)) => {
                &&& structure_sizes_spec(*structure, is_libcamera) == Some(
                    (encodes@.map_values(|e: VideoEncodeType| e@), sizes@.map_values(size_key())),
                )
                &&& forall|k: int| 0 <= k < sizes@.len() ==> (#[trigger] sizes@[k]).depths@.len() == 0
            },
            None => structure_sizes_spec(*structure, is_libcamera) is None,
        },
{
    let encodes = match structure_encodes(structure) {
        Some(encodes) => encodes,
        None => return None,
    };
    if is_libcamera && (field_is_int_range(structure, "width") || field_is_int_range(structure, "height")) {
        return None;
    }
    let heights = match dimension_values(structure, "height", false) {
        Some(v) => v,
        None => return None,
    };
    let widths = match dimension_values(structure, "width", true) {
        Some(v) => v,
        None => return None,
    };
    let intervals = match framerate_intervals(structure, is_libcamera) {
        Some(v) => v,
        None => return None,
    };
    let heights = sorted_unique_u32(heights);
    let widths = sorted_unique_u32(widths);
    let intervals = sorted_unique_intervals(intervals);
    let n = if widths.len() < heights.len() {
        widths.len()
    } else {
        heights.len()
    };
    let ghost target = zip_sizes(widths@, heights@, intervals@);
    let mut sizes: Vec<Size> = Vec::new();
    let mut i: usize = 0;
    while i < n
        invariant
            n <= widths@.len(),
            n <= heights@.len(),
            n == target.len(),
            target == zip_sizes(widths@, heights@, intervals@),
            i <= n,
            sizes@.map_values(size_key()) == target.take(i as int),
            forall|k: int| 0 <= k < sizes@.len() ==> (#[trigger] sizes@[k]).depths@.len() == 0,
        decreases n - i,
    {
        let size = Size { width: widths[i], height: heights[i], intervals: copy_of(&intervals), depths: Vec::new() };
        let ghost before = sizes@;
        sizes.push(size);
        proof {
            assert(sizes@.map_values(size_key()) =~= before.map_values(size_key()).push(size_key()(size)));
            assert(target.take(i + 1) =~= target.take(i as int).push(target[i as int]));
        }
        i = i + 1;
    }
    proof {
        assert(target.take(n as int) =~= target);
    }
    Some((encodes, sizes))
}


/// What the structures of `s` contribute, in order: for each structure that
/// is not skipped, each of its encodes with its sizes.
pub open spec fn contributions(s: Seq<CapsStructure>, is_libcamera: bool) -> Seq<(EncodeView, Seq<SizeKey>)>
    decreases s.len(),
{
    if s.len() == 0 {
        Seq::empty()
    } else {
        contributions(s.drop_last(), is_libcamera) + match structure_sizes_spec(s.last(), is_libcamera) {
            Some((encodes, sizes)) => encodes.map_values(|e: EncodeView| (e, sizes)),
            None => Seq::empty(),
        }
    }
}

/// Some contribution gives size `z` to encode `e`.
pub open spec fn encode_has_size(cs: Seq<(EncodeView, Seq<SizeKey>)>, e: EncodeView, z: SizeKey) -> bool {
    exists|i: int| 0 <= i < cs.len() && cs[i].0 == e && (#[trigger] cs[i].1).contains(z)
}

pub open spec fn entry_keys(entries: Seq<(VideoEncodeType, Vec<Size>)>, i: int) -> Seq<SizeKey> {
    entries[i].1@.map_values(size_key())
}

/// The entries hold, once per encode, exactly the sizes the contributions
/// give it, and only encodes that were given a size.
pub open spec fn entries_match(entries: Seq<(VideoEncodeType, Vec<Size>)>, cs: Seq<(EncodeView, Seq<SizeKey>)>) -> bool {
    &&& forall|i: int, j: int| 0 <= i < j < entries.len() ==> (#[trigger] entries[i]).0@ != (#[trigger] entries[j]).0@
    &&& forall|i: int, z: SizeKey|
        0 <= i < entries.len() ==> (#[trigger] entry_keys(entries, i).contains(z) <==> encode_has_size(
            cs,
            entries[i].0@,
            z,
        ))
    &&& forall|e: EncodeView, z: SizeKey|
        #[trigger] encode_has_size(cs, e, z) ==> exists|i: int| 0 <= i < entries.len() && (#[trigger] entries[i]).0@ == e
    &&& forall|i: int| 0 <= i < entries.len() ==> (#[trigger] entries[i]).1@.len() > 0
    &&& forall|i: int, k: int|
        0 <= i < entries.len() && 0 <= k < entries[i].1@.len() ==> (#[trigger] entries[i].1@[k]).depths@.len() == 0
}

proof fn lemma_has_size_push(cs: Seq<(EncodeView, Seq<SizeKey>)>, c: (EncodeView, Seq<SizeKey>), e: EncodeView, z: SizeKey)
    ensures
        encode_has_size(cs.push(c), e, z) <==> (encode_has_size(cs, e, z) || (c.0 == e && c.1.contains(z))),
{
    let d = cs.push(c);
    if encode_has_size(cs, e, z) {
        let i = choose|i: int| 0 <= i < cs.len() && cs[i].0 == e && (#[trigger] cs[i].1).contains(z);
        assert(d[i] == cs[i]);
    }
    if c.0 == e && c.1.contains(z) {
        assert(d[cs.len() as int] == c);
    }
    if encode_has_size(d, e, z) {
        let i = choose|i: int| 0 <= i < d.len() && d[i].0 == e && (#[trigger] d[i].1).contains(z);
        if i < cs.len() {
            assert(d[i] == cs[i]);
        }
    }
}

fn copy_size(z: &Size) -> (r: Size)
    ensures
        size_key()(r) == size_key()(*z),
        r.depths@.len() == 0,
{
    Size { width: z.width, height: z.height, intervals: copy_of(&z.intervals), depths: Vec::new() }
}

fn find_entry(entries: &Vec<(VideoEncodeType, Vec<Size>)>, encode: &VideoEncodeType) -> (r: Option<usize>)
    ensures
        match r {
            Some(j) => j < entries@.len() && entries@[j as int].0@ == encode@,
            None => forall|i: int| 0 <= i < entries@.len() ==> (#[trigger] entries@[i]).0@ != encode@,
        },
{
    let mut i: usize = 0;
    while i < entries.len()
        invariant
            i <= entries@.len(),
            forall|k: int| 0 <= k < i ==> (#[trigger] entries@[k]).0@ != encode@,
        decreases entries@.len() - i,
    {
        if entries[i].0 == *encode {
            return Some(i);
        }
        i = i + 1;
    }
    None
}

/// Gives `sizes` to `encode`.
fn add_contribution(
    entries: &mut Vec<(VideoEncodeType, Vec<Size>)>,
    encode: VideoEncodeType,
    sizes: &Vec<Size>,
    Ghost(cs): Ghost<Seq<(EncodeView, Seq<SizeKey>)>>,
)
    requires
        entries_match(old(entries)@, cs),
    ensures
        entries_match(final(entries)@, cs.push((encode@, sizes@.map_values(size_key())))),
{
    let ghost c = (encode@, sizes@.map_values(size_key()));
    let ghost next = cs.push(c);
    let ghost before = entries@;
    proof {
        assert forall|e: EncodeView, z: SizeKey| #[trigger] encode_has_size(next, e, z) == (encode_has_size(cs, e, z) || (
        c.0 == e && c.1.contains(z))) by {
            lemma_has_size_push(cs, c, e, z);
        }
    }
    if sizes.len() == 0 {
        proof {
            assert forall|i: int, z: SizeKey| 0 <= i < entries@.len() implies (#[trigger] entry_keys(
                entries@,
                i,
            ).contains(z) <==> encode_has_size(next, entries@[i].0@, z)) by {
                assert(!c.1.contains(z));
            }
            assert forall|e: EncodeView, z: SizeKey| #[trigger] encode_has_size(next, e, z) implies exists|i: int|
                0 <= i < entries@.len() && (#[trigger] entries@[i]).0@ == e by {
                assert(!c.1.contains(z));
                assert(encode_has_size(cs, e, z));
            }
        }
        return;
    }
    let mut copies: Vec<Size> = Vec::new();
    let mut k: usize = 0;
    while k < sizes.len()
        invariant
            k <= sizes@.len(),
            copies@.map_values(size_key()) == sizes@.take(k as int).map_values(size_key()),
            forall|m: int| 0 <= m < copies@.len() ==> (#[trigger] copies@[m]).depths@.len() == 0,
        decreases sizes@.len() - k,
    {
        let ghost prev = copies@;
        let z = copy_size(&sizes[k]);
        copies.push(z);
        proof {
            assert(copies@.map_values(size_key()) =~= prev.map_values(size_key()).push(size_key()(z)));
            assert(sizes@.take(k + 1).map_values(size_key()) =~= sizes@.take(k as int).map_values(size_key()).push(
                size_key()(sizes@[k as int]),
            ));
        }
        k = k + 1;
    }
    proof {
        assert(sizes@.take(k as int) =~= sizes@);
    }
    match find_entry(entries, &encode) {
        None => {
            entries.push((encode, copies));
            proof {
                let n = before.len() as int;
                assert forall|i: int, z: SizeKey| 0 <= i < entries@.len() implies (#[trigger] entry_keys(
                    entries@,
                    i,
                ).contains(z) <==> encode_has_size(next, entries@[i].0@, z)) by {
                    if i < n {
                        assert(entries@[i] == before[i]);
                        assert(entry_keys(entries@, i) == entry_keys(before, i));
                        if c.0 == entries@[i].0@ && c.1.contains(z) {
                            assert(false);
                        }
                    } else {
                        assert(entry_keys(entries@, i) == c.1);
                        if encode_has_size(cs, c.0, z) {
                            let j = choose|j: int| 0 <= j < before.len() && (#[trigger] before[j]).0@ == c.0;
                            assert(false);
                        }
                    }
                }
                assert forall|e: EncodeView, z: SizeKey| #[trigger] encode_has_size(next, e, z) implies exists|i: int|
                    0 <= i < entries@.len() && (#[trigger] entries@[i]).0@ == e by {
                    if encode_has_size(cs, e, z) {
                        let j = choose|j: int| 0 <= j < before.len() && (#[trigger] before[j]).0@ == e;
                        assert(entries@[j] == before[j]);
                    } else {
                        assert(entries@[n].0@ == e);
                    }
                }
                assert forall|i: int, j: int| 0 <= i < j < entries@.len() implies (#[trigger] entries@[i]).0@
                    != (#[trigger] entries@[j]).0@ by {
                    if j == n {
                        assert(entries@[i] == before[i]);
                    } else {
                        assert(entries@[i] == before[i]);
                        assert(entries@[j] == before[j]);
                    }
                }
                assert forall|i: int, m: int|
                    0 <= i < entries@.len() && 0 <= m < entries@[i].1@.len() implies (#[trigger] entries@[i].1@[m]).depths@.len()
                    == 0 by {
                    if i < n {
                        assert(entries@[i] == before[i]);
                    }
                }
                assert forall|i: int| 0 <= i < entries@.len() implies (#[trigger] entries@[i]).1@.len() > 0 by {
                    if i < n {
                        assert(entries@[i] == before[i]);
                    }
                }
            }
        },
        Some(j) => {
            let (found_encode, mut found_sizes) = entries.remove(j);
            let ghost old_sizes = found_sizes@;
            let ghost copied = copies@;
            found_sizes.append(&mut copies);
            entries.insert(j, (found_encode, found_sizes));
            proof {
                assert(entries@ == before.update(j as int, entries@[j as int]));
                assert(entry_keys(entries@, j as int) =~= entry_keys(before, j as int) + c.1);
                assert forall|i: int, z: SizeKey| 0 <= i < entries@.len() implies (#[trigger] entry_keys(
                    entries@,
                    i,
                ).contains(z) <==> encode_has_size(next, entries@[i].0@, z)) by {
                    if i != j {
                        assert(entries@[i] == before[i]);
                        assert(entry_keys(entries@, i) == entry_keys(before, i));
                    } else {
                        let ks = entry_keys(before, j as int);
                        if (ks + c.1).contains(z) {
                            let m = choose|m: int| 0 <= m < (ks + c.1).len() && (ks + c.1)[m] == z;
                            if m < ks.len() {
                                assert(ks.contains(z));
                            } else {
                                assert(c.1[m - ks.len()] == z);
                                assert(c.1.contains(z));
                            }
                        }
                        if ks.contains(z) {
                            let m = choose|m: int| 0 <= m < ks.len() && ks[m] == z;
                            assert((ks + c.1)[m] == z);
                        }
                        if c.1.contains(z) {
                            let m = choose|m: int| 0 <= m < c.1.len() && c.1[m] == z;
                            assert((ks + c.1)[ks.len() + m] == z);
                        }
                    }
                }
                assert forall|e: EncodeView, z: SizeKey| #[trigger] encode_has_size(next, e, z) implies exists|i: int|
                    0 <= i < entries@.len() && (#[trigger] entries@[i]).0@ == e by {
                    if encode_has_size(cs, e, z) {
                        let i = choose|i: int| 0 <= i < before.len() && (#[trigger] before[i]).0@ == e;
                        assert(entries@[i].0@ == e);
                    } else {
                        assert(entries@[j as int].0@ == e);
                    }
                }
                assert forall|i: int, m: int|
                    0 <= i < entries@.len() && 0 <= m < entries@[i].1@.len() implies (#[trigger] entries@[i].1@[m]).depths@.len()
                    == 0 by {
                    if i != j {
                        assert(entries@[i] == before[i]);
                    } else if m >= old_sizes.len() {
                        assert(entries@[i].1@[m] == copied[m - old_sizes.len()]);
                    }
                }
                assert forall|i: int, i2: int| 0 <= i < i2 < entries@.len() implies (#[trigger] entries@[i]).0@
                    != (#[trigger] entries@[i2]).0@ by {
                    assert(entries@[i].0@ == before[i].0@);
                    assert(entries@[i2].0@ == before[i2].0@);
                }
                assert forall|i: int| 0 <= i < entries@.len() implies (#[trigger] entries@[i]).1@.len() > 0 by {
                    assert(entries@[i].1@.len() >= before[i].1@.len());
                }
            }
        },
    }
}


pub open spec fn format_keys(formats: Seq<Format>, i: int) -> Seq<SizeKey> {
    formats[i].sizes@.map_values(size_key())
}

/// One format per encode that some contribution gives a size, its sizes
/// exactly the ones given to it, largest first, without bit depths.
pub open spec fn plain_formats_spec(formats: Seq<Format>, cs: Seq<(EncodeView, Seq<SizeKey>)>) -> bool {
    &&& forall|i: int, j: int| 0 <= i < j < formats.len() ==> (#[trigger] formats[i]).encode@ != (#[trigger] formats[j]).encode@
    &&& forall|i: int| 0 <= i < formats.len() ==> (#[trigger] formats[i]).sizes@.len() > 0
    &&& forall|i: int| 0 <= i < formats.len() ==> strictly_sorted_by(#[trigger] format_keys(formats, i), size_decreasing())
    &&& forall|i: int, z: SizeKey|
        0 <= i < formats.len() ==> (#[trigger] format_keys(formats, i).contains(z) <==> encode_has_size(
            cs,
            formats[i].encode@,
            z,
        ))
    &&& forall|i: int, k: int|
        0 <= i < formats.len() && 0 <= k < formats[i].sizes@.len() ==> (#[trigger] formats[i].sizes@[k]).depths@.len()
            == 0
    &&& forall|e: EncodeView, z: SizeKey|
        #[trigger] encode_has_size(cs, e, z) ==> exists|i: int| 0 <= i < formats.len() && (#[trigger] formats[i]).encode@ == e
}

/// Some structure of `structures` that is not a Bayer one contributes
/// encode `e`.
pub open spec fn encode_from_non_bayer(structures: Seq<CapsStructure>, e: EncodeView, is_libcamera: bool) -> bool {
    exists|k: int|
        0 <= k < structures.len() && (#[trigger] structures[k]).name@ != "video/x-bayer"@ && structure_sizes_spec(
            structures[k],
            is_libcamera,
        ) is Some && structure_sizes_spec(structures[k], is_libcamera).unwrap().0.contains(e)
}

proof fn lemma_contributed_not_bayer(st: CapsStructure, is_libcamera: bool)
    requires
        structure_sizes_spec(st, is_libcamera) is Some,
    ensures
        st.name@ != "video/x-bayer"@,
{
    reveal_strlit("video/x-bayer");
    reveal_strlit("video/x-raw");
    reveal_strlit("image/jpeg");
    reveal_strlit("video/x-h264");
    reveal_strlit("video/x-h265");
    if st.name@ == "video/x-bayer"@ {
        assert(st.name@ != "video/x-raw"@) by {
            assert(st.name@.len() != "video/x-raw"@.len());
        }
        assert(st.name@ != "image/jpeg"@) by {
            assert(st.name@.len() != "image/jpeg"@.len());
        }
        assert(st.name@ != "video/x-h264"@) by {
            assert(st.name@[8] != "video/x-h264"@[8]);
        }
        assert(st.name@ != "video/x-h265"@) by {
            assert(st.name@[8] != "video/x-h265"@[8]);
        }
    }
}

proof fn lemma_contribution_source(structures: Seq<CapsStructure>, is_libcamera: bool, i: int)
    requires
        0 <= i < contributions(structures, is_libcamera).len(),
    ensures
        encode_from_non_bayer(structures, contributions(structures, is_libcamera)[i].0, is_libcamera),
    decreases structures.len(),
{
    let rest = structures.drop_last();
    let prev = contributions(rest, is_libcamera);
    let cs = contributions(structures, is_libcamera);
    let e = cs[i].0;
    if i < prev.len() {
        lemma_contribution_source(rest, is_libcamera, i);
        assert(cs[i] == prev[i]);
        let k = choose|k: int|
            0 <= k < rest.len() && (#[trigger] rest[k]).name@ != "video/x-bayer"@ && structure_sizes_spec(
                rest[k],
                is_libcamera,
            ) is Some && structure_sizes_spec(rest[k], is_libcamera).unwrap().0.contains(e);
        assert(structures[k] == rest[k]);
    } else {
        let last = structures.last();
        let k = structures.len() - 1;
        assert(structures[k] == last);
        match structure_sizes_spec(last, is_libcamera) {
            Some((encodes, sizes)) => {
                let tail = encodes.map_values(|x: EncodeView| (x, sizes));
                assert(cs[i] == tail[i - prev.len()]);
                assert(encodes[i - prev.len()] == e);
                lemma_contributed_not_bayer(last, is_libcamera);
            },
            None => {},
        }
    }
}

proof fn lemma_contributed_intervals_sorted(structures: Seq<CapsStructure>, is_libcamera: bool, m: int, z: SizeKey)
    requires
        0 <= m < contributions(structures, is_libcamera).len(),
        contributions(structures, is_libcamera)[m].1.contains(z),
    ensures
        strictly_sorted_by(z.2, interval_decreasing()),
    decreases structures.len(),
{
    let rest = structures.drop_last();
    let prev = contributions(rest, is_libcamera);
    let cs = contributions(structures, is_libcamera);
    if m < prev.len() {
        assert(cs[m] == prev[m]);
        lemma_contributed_intervals_sorted(rest, is_libcamera, m, z);
    } else {
        let last = structures.last();
        match structure_sizes_spec(last, is_libcamera) {
            Some((encodes, sizes)) => {
                let tail = encodes.map_values(|x: EncodeView| (x, sizes));
                assert(cs[m] == tail[m - prev.len()]);
                assert(sizes.contains(z));
                let k = choose|k: int| 0 <= k < sizes.len() && sizes[k] == z;
                let intervals = framerate_spec(last, is_libcamera).unwrap();
                assert(z.2 == sorted_set(intervals, interval_decreasing()));
                lemma_interval_order();
                lemma_sorted_set_exists(intervals, interval_decreasing());
            },
            None => {},
        }
    }
}

/// The formats a device's capabilities describe, before any libcamera
/// adjustment: no two share an encode, each lists its sizes largest first
/// (by width, then height), each encode comes from a structure that is not
/// a Bayer one, and each size lists its intervals in strictly decreasing
/// order (by numerator, then denominator).
pub proof fn law_device_formats_shape(formats: Seq<Format>, structures: Seq<CapsStructure>, is_libcamera: bool)
    requires
        plain_formats_spec(formats, contributions(structures, is_libcamera)),
    ensures
        forall|i: int, j: int|
            0 <= i < j < formats.len() ==> (#[trigger] formats[i]).encode@ != (#[trigger] formats[j]).encode@,
        forall|i: int, a: int, b: int|
            0 <= i < formats.len() && 0 <= a < b < formats[i].sizes@.len() ==> {
                let za = #[trigger] formats[i].sizes@[a];
                let zb = #[trigger] formats[i].sizes@[b];
                za.width > zb.width || (za.width == zb.width && za.height >= zb.height)
            },
        forall|i: int| 0 <= i < formats.len() ==> encode_from_non_bayer(structures, #[trigger] formats[i].encode@, is_libcamera),
        forall|i: int, k: int|
            0 <= i < formats.len() && 0 <= k < formats[i].sizes@.len() ==> strictly_sorted_by(
                (#[trigger] formats[i].sizes@[k]).intervals@,
                interval_decreasing(),
            ),
{
    let cs = contributions(structures, is_libcamera);
    assert forall|i: int, k: int|
        0 <= i < formats.len() && 0 <= k < formats[i].sizes@.len() implies strictly_sorted_by(
            (#[trigger] formats[i].sizes@[k]).intervals@,
            interval_decreasing(),
        ) by {
        let keys = format_keys(formats, i);
        let z = keys[k];
        assert(z == size_key()(formats[i].sizes@[k]));
        assert(keys.contains(z));
        assert(encode_has_size(cs, formats[i].encode@, z));
        let m = choose|m: int| 0 <= m < cs.len() && cs[m].0 == formats[i].encode@ && (#[trigger] cs[m].1).contains(z);
        lemma_contributed_intervals_sorted(structures, is_libcamera, m, z);
    }
    assert forall|i: int, a: int, b: int|
        0 <= i < formats.len() && 0 <= a < b < formats[i].sizes@.len() implies {
            let za = #[trigger] formats[i].sizes@[a];
            let zb = #[trigger] formats[i].sizes@[b];
            za.width > zb.width || (za.width == zb.width && za.height >= zb.height)
        } by {
        let keys = format_keys(formats, i);
        assert(strictly_sorted_by(keys, size_decreasing()));
        assert(size_decreasing()(keys[a], keys[b]));
        assert(keys[a] == size_key()(formats[i].sizes@[a]));
        assert(keys[b] == size_key()(formats[i].sizes@[b]));
    }
    assert forall|i: int| 0 <= i < formats.len() implies encode_from_non_bayer(
        structures,
        #[trigger] formats[i].encode@,
        is_libcamera,
    ) by {
        let keys = format_keys(formats, i);
        assert(formats[i].sizes@.len() > 0);
        assert(keys.contains(keys[0]));
        assert(encode_has_size(cs, formats[i].encode@, keys[0]));
        let m = choose|m: int| 0 <= m < cs.len() && cs[m].0 == formats[i].encode@ && (#[trigger] cs[m].1).contains(keys[0]);
        lemma_contribution_source(structures, is_libcamera, m);
    }
}

/// The formats of `fs` that have a size all have one and are formats of `fs`.
proof fn lemma_with_sizes(fs: Seq<Format>)
    ensures
        forall|i: int| 0 <= i < with_sizes(fs).len() ==> (#[trigger] with_sizes(fs)[i]).sizes@.len() > 0,
        forall|i: int| 0 <= i < with_sizes(fs).len() ==> exists|k: int| 0 <= k < fs.len() && fs[k] == #[trigger] with_sizes(fs)[i],
    decreases fs.len(),
{
    if fs.len() > 0 {
        let rest = fs.drop_last();
        lemma_with_sizes(rest);
        assert forall|i: int| 0 <= i < with_sizes(fs).len() implies exists|k: int|
            0 <= k < fs.len() && fs[k] == #[trigger] with_sizes(fs)[i] by {
            if i < with_sizes(rest).len() {
                assert(with_sizes(fs)[i] == with_sizes(rest)[i]);
                let k = choose|k: int| 0 <= k < rest.len() && rest[k] == #[trigger] with_sizes(rest)[i];
                assert(fs[k] == rest[k]);
            } else {
                assert(fs[fs.len() - 1] == with_sizes(fs)[i]);
            }
        }
        assert forall|i: int| 0 <= i < with_sizes(fs).len() implies (#[trigger] with_sizes(fs)[i]).sizes@.len() > 0 by {
            if i < with_sizes(rest).len() {
                assert(with_sizes(fs)[i] == with_sizes(rest)[i]);
            }
        }
    }
}

/// The formats of `fs` that an ISP streams are formats of `fs` of an ISP
/// encode.
proof fn lemma_isp_only(fs: Seq<Format>)
    ensures
        forall|i: int| 0 <= i < isp_only(fs).len() ==> is_isp_encode((#[trigger] isp_only(fs)[i]).encode@),
    decreases fs.len(),
{
    if fs.len() > 0 {
        let rest = fs.drop_last();
        lemma_isp_only(rest);
        assert forall|i: int| 0 <= i < isp_only(fs).len() implies is_isp_encode((#[trigger] isp_only(fs)[i]).encode@) by {
            if i < isp_only(rest).len() {
                assert(isp_only(fs)[i] == isp_only(rest)[i]);
            }
        }
    }
}

/// The formats of a libcamera device are all ones its ISP streams (NV12,
/// RGB or YUYV), and every one of them lists a size.
pub proof fn law_libcamera_formats_streamable(
    base: Seq<Format>,
    r: Seq<Format>,
    caps: Caps,
    native: Seq<Size>,
    native_fps_only: bool,
)
    requires
        libcamera_formats_spec(base, r, caps, native, native_fps_only),
    ensures
        forall|i: int| 0 <= i < r.len() ==> is_isp_encode((#[trigger] r[i]).encode@) && r[i].sizes@.len() > 0,
{
    let isp = isp_only(base);
    lemma_isp_only(base);
    if native.len() > 0 {
        let encodes = if isp.len() == 0 {
            isp_encodes()
        } else {
            isp.map_values(|f: Format| f.encode@)
        };
        assert forall|i: int| 0 <= i < r.len() implies is_isp_encode((#[trigger] r[i]).encode@) && r[i].sizes@.len() > 0 by {
            assert(r[i].encode@ == encodes[i]);
            if isp.len() > 0 {
                assert(encodes[i] == isp[i].encode@);
            }
            assert(r[i].sizes@.map_values(size_deep()).len() == native.map_values(size_deep()).len());
        }
    } else if native_fps_only {
        let kept = choose|kept: Seq<Format>|
            {
                &&& kept.len() == isp.len()
                &&& forall|i: int|
                    0 <= i < kept.len() ==> (#[trigger] kept[i]).encode == isp[i].encode && native_sizes_rel(
                        caps,
                        isp[i].sizes@,
                        kept[i].sizes@,
                    )
                &&& r == with_sizes(kept)
            };
        lemma_with_sizes(kept);
        assert forall|i: int| 0 <= i < r.len() implies is_isp_encode((#[trigger] r[i]).encode@) && r[i].sizes@.len() > 0 by {
            let k = choose|k: int| 0 <= k < kept.len() && kept[k] == #[trigger] with_sizes(kept)[i];
            assert(kept[k].encode == isp[k].encode);
        }
    } else {
        lemma_with_sizes(isp);
        assert forall|i: int| 0 <= i < r.len() implies is_isp_encode((#[trigger] r[i]).encode@) && r[i].sizes@.len() > 0 by {
            let k = choose|k: int| 0 <= k < isp.len() && isp[k] == #[trigger] with_sizes(isp)[i];
        }
    }
}

/// The sizes come largest first: by width, then by height.
pub open spec fn sizes_largest_first(sizes: Seq<Size>) -> bool {
    forall|a: int, b: int|
        0 <= a < b < sizes.len() ==> (#[trigger] sizes[a]).width > (#[trigger] sizes[b]).width || (
        sizes[a].width == sizes[b].width && sizes[a].height >= sizes[b].height)
}

/// No two formats share an encode.
pub open spec fn encodes_distinct(formats: Seq<Format>) -> bool {
    forall|i: int, j: int| 0 <= i < j < formats.len() ==> (#[trigger] formats[i]).encode@ != (#[trigger] formats[j]).encode@
}

proof fn lemma_isp_only_keeps(fs: Seq<Format>)
    ensures
        forall|i: int| 0 <= i < isp_only(fs).len() ==> exists|k: int| 0 <= k < fs.len() && fs[k] == #[trigger] isp_only(fs)[i],
        encodes_distinct(fs) ==> encodes_distinct(isp_only(fs)),
    decreases fs.len(),
{
    if fs.len() > 0 {
        let rest = fs.drop_last();
        lemma_isp_only_keeps(rest);
        let r = isp_only(fs);
        let r0 = isp_only(rest);
        assert forall|i: int| 0 <= i < r.len() implies exists|k: int| 0 <= k < fs.len() && fs[k] == #[trigger] r[i] by {
            if i < r0.len() {
                assert(r[i] == r0[i]);
                let k = choose|k: int| 0 <= k < rest.len() && rest[k] == #[trigger] r0[i];
                assert(fs[k] == rest[k]);
            } else {
                assert(fs[fs.len() - 1] == r[i]);
            }
        }
        if encodes_distinct(fs) {
            assert(encodes_distinct(rest)) by {
                assert forall|i: int, j: int| 0 <= i < j < rest.len() implies (#[trigger] rest[i]).encode@
                    != (#[trigger] rest[j]).encode@ by {
                    assert(rest[i] == fs[i] && rest[j] == fs[j]);
                }
            }
            assert forall|i: int, j: int| 0 <= i < j < r.len() implies (#[trigger] r[i]).encode@ != (
            #[trigger] r[j]).encode@ by {
                if j < r0.len() {
                    assert(r[i] == r0[i] && r[j] == r0[j]);
                } else {
                    assert(r[i] == r0[i]);
                    let k = choose|k: int| 0 <= k < rest.len() && rest[k] == #[trigger] r0[i];
                    assert(fs[k] == rest[k]);
                    assert(r[j] == fs[fs.len() - 1]);
                }
            }
        }
    }
}

proof fn lemma_with_sizes_keeps(fs: Seq<Format>)
    ensures
        forall|i: int| 0 <= i < with_sizes(fs).len() ==> exists|k: int| 0 <= k < fs.len() && fs[k] == #[trigger] with_sizes(fs)[i],
        encodes_distinct(fs) ==> encodes_distinct(with_sizes(fs)),
    decreases fs.len(),
{
    if fs.len() > 0 {
        let rest = fs.drop_last();
        lemma_with_sizes_keeps(rest);
        let r = with_sizes(fs);
        let r0 = with_sizes(rest);
        assert forall|i: int| 0 <= i < r.len() implies exists|k: int| 0 <= k < fs.len() && fs[k] == #[trigger] r[i] by {
            if i < r0.len() {
                assert(r[i] == r0[i]);
                let k = choose|k: int| 0 <= k < rest.len() && rest[k] == #[trigger] r0[i];
                assert(fs[k] == rest[k]);
            } else {
                assert(fs[fs.len() - 1] == r[i]);
            }
        }
        if encodes_distinct(fs) {
            assert(encodes_distinct(rest)) by {
                assert forall|i: int, j: int| 0 <= i < j < rest.len() implies (#[trigger] rest[i]).encode@
                    != (#[trigger] rest[j]).encode@ by {
                    assert(rest[i] == fs[i] && rest[j] == fs[j]);
                }
            }
            assert forall|i: int, j: int| 0 <= i < j < r.len() implies (#[trigger] r[i]).encode@ != (
            #[trigger] r[j]).encode@ by {
                if j < r0.len() {
                    assert(r[i] == r0[i] && r[j] == r0[j]);
                } else {
                    assert(r[i] == r0[i]);
                    let k = choose|k: int| 0 <= k < rest.len() && rest[k] == #[trigger] r0[i];
                    assert(fs[k] == rest[k]);
                    assert(r[j] == fs[fs.len() - 1]);
                }
            }
        }
    }
}

proof fn lemma_native_rel_keeps_order(caps: Caps, old: Seq<Size>, new: Seq<Size>)
    requires
        native_sizes_rel(caps, old, new),
    ensures
        forall|k: int| 0 <= k < new.len() ==> exists|m: int|
            0 <= m < old.len() && old[m].width == (#[trigger] new[k]).width && old[m].height == new[k].height,
        sizes_largest_first(old) ==> sizes_largest_first(new),
    decreases old.len(),
{
    if old.len() > 0 {
        let rest = old.drop_last();
        let s = old.last();
        assert(sizes_largest_first(old) ==> sizes_largest_first(rest)) by {
            if sizes_largest_first(old) {
                assert forall|a: int, b: int| 0 <= a < b < rest.len() implies (#[trigger] rest[a]).width > (
                #[trigger] rest[b]).width || (rest[a].width == rest[b].width && rest[a].height >= rest[b].height) by {
                    assert(rest[a] == old[a] && rest[b] == old[b]);
                }
            }
        }
        match crate::caps::native_interval_spec(caps, s) {
            None => {
                lemma_native_rel_keeps_order(caps, rest, new);
                assert forall|k: int| 0 <= k < new.len() implies exists|m: int|
                    0 <= m < old.len() && old[m].width == (#[trigger] new[k]).width && old[m].height == new[k].height by {
                    let m = choose|m: int|
                        0 <= m < rest.len() && rest[m].width == (#[trigger] new[k]).width && rest[m].height == new[k].height;
                    assert(old[m] == rest[m]);
                }
            },
            Some(_) => {
                let n0 = new.drop_last();
                lemma_native_rel_keeps_order(caps, rest, n0);
                assert forall|k: int| 0 <= k < new.len() implies exists|m: int|
                    0 <= m < old.len() && old[m].width == (#[trigger] new[k]).width && old[m].height == new[k].height by {
                    if k < n0.len() {
                        assert(new[k] == n0[k]);
                        let m = choose|m: int|
                            0 <= m < rest.len() && rest[m].width == (#[trigger] n0[k]).width && rest[m].height == n0[k].height;
                        assert(old[m] == rest[m]);
                    } else {
                        assert(old[old.len() - 1] == s);
                    }
                }
                if sizes_largest_first(old) {
                    assert forall|a: int, b: int| 0 <= a < b < new.len() implies (#[trigger] new[a]).width > (
                    #[trigger] new[b]).width || (new[a].width == new[b].width && new[a].height >= new[b].height) by {
                        assert(new[a] == n0[a]);
                        if b < n0.len() {
                            assert(new[b] == n0[b]);
                        } else {
                            let m = choose|m: int|
                                0 <= m < rest.len() && rest[m].width == (#[trigger] n0[a]).width && rest[m].height == n0[a].height;
                            assert(rest[m] == old[m]);
                            assert(old[old.len() - 1] == s);
                            assert(old[m].width > old[old.len() - 1].width || (old[m].width == old[old.len() - 1].width
                                && old[m].height >= old[old.len() - 1].height));
                        }
                    }
                }
            },
        }
    }
}

/// The formats of a libcamera device have distinct encodes; each lists its
/// sizes largest first whenever they come from the device's capabilities,
/// and otherwise lists the native sensor sizes in the order given, so
/// largest first too when those are.
pub proof fn law_libcamera_formats_distinct_and_ordered(
    structures: Seq<CapsStructure>,
    base: Seq<Format>,
    r: Seq<Format>,
    caps: Caps,
    native: Seq<Size>,
    native_fps_only: bool,
)
    requires
        plain_formats_spec(base, contributions(structures, true)),
        libcamera_formats_spec(base, r, caps, native, native_fps_only),
    ensures
        encodes_distinct(r),
        native.len() == 0 ==> forall|i: int| 0 <= i < r.len() ==> sizes_largest_first(#[trigger] r[i].sizes@),
        native.len() > 0 && sizes_largest_first(native) ==> forall|i: int|
            0 <= i < r.len() ==> sizes_largest_first(#[trigger] r[i].sizes@),
{
    law_device_formats_shape(base, structures, true);
    assert(encodes_distinct(base));
    assert forall|i: int| 0 <= i < base.len() implies sizes_largest_first(#[trigger] base[i].sizes@) by {
        assert forall|a: int, b: int| 0 <= a < b < base[i].sizes@.len() implies (#[trigger] base[i].sizes@[a]).width
            > (#[trigger] base[i].sizes@[b]).width || (base[i].sizes@[a].width == base[i].sizes@[b].width
            && base[i].sizes@[a].height >= base[i].sizes@[b].height) by {
            let za = base[i].sizes@[a];
            let zb = base[i].sizes@[b];
            assert(za.width > zb.width || (za.width == zb.width && za.height >= zb.height));
        }
    }
    let isp = isp_only(base);
    lemma_isp_only_keeps(base);
    assert forall|i: int| 0 <= i < isp.len() implies sizes_largest_first(#[trigger] isp[i].sizes@) by {
        let k = choose|k: int| 0 <= k < base.len() && base[k] == #[trigger] isp[i];
    }
    if native.len() > 0 {
        let encodes = if isp.len() == 0 {
            isp_encodes()
        } else {
            isp.map_values(|f: Format| f.encode@)
        };
        assert forall|i: int, j: int| 0 <= i < j < r.len() implies (#[trigger] r[i]).encode@ != (
        #[trigger] r[j]).encode@ by {
            assert(r[i].encode@ == encodes[i] && r[j].encode@ == encodes[j]);
            if isp.len() > 0 {
                assert(encodes[i] == isp[i].encode@ && encodes[j] == isp[j].encode@);
            }
        }
        if sizes_largest_first(native) {
            assert forall|i: int| 0 <= i < r.len() implies sizes_largest_first(#[trigger] r[i].sizes@) by {
                let zs = r[i].sizes@;
                assert(zs.map_values(size_deep()) == native.map_values(size_deep()));
                assert(zs.len() == native.len());
                assert forall|a: int, b: int| 0 <= a < b < zs.len() implies (#[trigger] zs[a]).width > (
                #[trigger] zs[b]).width || (zs[a].width == zs[b].width && zs[a].height >= zs[b].height) by {
                    assert(zs.map_values(size_deep())[a] == native.map_values(size_deep())[a]);
                    assert(zs.map_values(size_deep())[b] == native.map_values(size_deep())[b]);
                    assert(native[a].width > native[b].width || (native[a].width == native[b].width
                        && native[a].height >= native[b].height));
                }
            }
        }
    } else if native_fps_only {
        let kept = choose|kept: Seq<Format>|
            {
                &&& kept.len() == isp.len()
                &&& forall|i: int|
                    0 <= i < kept.len() ==> (#[trigger] kept[i]).encode == isp[i].encode && native_sizes_rel(
                        caps,
                        isp[i].sizes@,
                        kept[i].sizes@,
                    )
                &&& r == with_sizes(kept)
            };
        assert(encodes_distinct(kept)) by {
            assert forall|i: int, j: int| 0 <= i < j < kept.len() implies (#[trigger] kept[i]).encode@ != (
            #[trigger] kept[j]).encode@ by {
                assert(kept[i].encode == isp[i].encode && kept[j].encode == isp[j].encode);
            }
        }
        assert forall|i: int| 0 <= i < kept.len() implies sizes_largest_first(#[trigger] kept[i].sizes@) by {
            assert(native_sizes_rel(caps, isp[i].sizes@, kept[i].sizes@));
            lemma_native_rel_keeps_order(caps, isp[i].sizes@, kept[i].sizes@);
        }
        lemma_with_sizes_keeps(kept);
        assert forall|i: int| 0 <= i < r.len() implies sizes_largest_first(#[trigger] r[i].sizes@) by {
            let k = choose|k: int| 0 <= k < kept.len() && kept[k] == #[trigger] with_sizes(kept)[i];
        }
    } else {
        lemma_with_sizes_keeps(isp);
        assert forall|i: int| 0 <= i < r.len() implies sizes_largest_first(#[trigger] r[i].sizes@) by {
            let k = choose|k: int| 0 <= k < isp.len() && isp[k] == #[trigger] with_sizes(isp)[i];
        }
    }
}

/// The structures' dimension steps are all readable.
pub open spec fn caps_steps_readable(caps: Caps, is_libcamera: bool) -> bool {
    forall|i: int| 0 <= i < caps.structures@.len() ==> steps_readable(#[trigger] caps.structures@[i], is_libcamera)
}

/// The formats `caps` describe, before any libcamera adjustment.
fn plain_formats(caps: &Caps, is_libcamera: bool) -> (r: Vec<Format>)
    requires
        caps_steps_readable(*caps, is_libcamera),
    ensures
        plain_formats_spec(r@, contributions(caps.structures@, is_libcamera)),
{
    let ghost s = caps.structures@;
    let mut entries: Vec<(VideoEncodeType, Vec<Size>)> = Vec::new();
    let mut t: usize = 0;
    proof {
        assert(s.take(0) =~= Seq::<CapsStructure>::empty());
        assert(contributions(s.take(0), is_libcamera) =~= Seq::empty());
    }
    while t < caps.structures.len()
        invariant
            s == caps.structures@,
            caps_steps_readable(*caps, is_libcamera),
            t <= s.len(),
            entries_match(entries@, contributions(s.take(t as int), is_libcamera)),
        decreases s.len() - t,
    {
        let ghost cs0 = contributions(s.take(t as int), is_libcamera);
        proof {
            assert(s.take(t + 1).drop_last() =~= s.take(t as int));
            assert(s.take(t + 1).last() == s[t as int]);
            assert(steps_readable(s[t as int], is_libcamera));
        }
        match structure_sizes(&caps.structures[t], is_libcamera) {
            Some((encodes, sizes)) => {
                let ghost zs = sizes@.map_values(size_key());
                let ghost es = encodes@.map_values(|e: VideoEncodeType| e@);
                let mut rest = encodes;
                let ghost mut k: int = 0;
                while rest.len() > 0
                    invariant
                        0 <= k <= es.len(),
                        rest@.map_values(|e: VideoEncodeType| e@) == es.skip(k),
                        zs == sizes@.map_values(size_key()),
                        entries_match(entries@, cs0 + es.take(k).map_values(|e: EncodeView| (e, zs))),
                    decreases rest@.len(),
                {
                    let ghost rv = rest@;
                    let encode = rest.remove(0);
                    proof {
                        assert(encode == rv[0]);
                        assert(rv.len() > 0);
                        assert(rv.map_values(|e: VideoEncodeType| e@).len() == rv.len());
                        assert(es.skip(k).len() == rv.len());
                        assert(k < es.len());
                        assert(rv.map_values(|e: VideoEncodeType| e@)[0] == encode@);
                        assert(es.skip(k)[0] == es[k]);
                        assert(es[k] == encode@);
                        assert(rest@ =~= rv.subrange(1, rv.len() as int));
                        assert forall|m: int| 0 <= m < rest@.len() implies rest@.map_values(|e: VideoEncodeType| e@)[m] == #[trigger] es.skip(k + 1)[m] by {
                            assert(rest@[m] == rv[m + 1]);
                            assert(rv.map_values(|e: VideoEncodeType| e@)[m + 1] == es.skip(k)[m + 1]);
                            assert(es.skip(k)[m + 1] == es[k + 1 + m]);
                            assert(es.skip(k + 1)[m] == es[k + 1 + m]);
                        }
                        assert(rest@.map_values(|e: VideoEncodeType| e@) =~= es.skip(k + 1));
                        assert(es.take(k + 1).map_values(|e: EncodeView| (e, zs)) =~= es.take(k).map_values(
                            |e: EncodeView| (e, zs),
                        ).push((encode@, zs)));
                        assert(cs0 + es.take(k + 1).map_values(|e: EncodeView| (e, zs)) =~= (cs0 + es.take(k).map_values(
                            |e: EncodeView| (e, zs),
                        )).push((encode@, zs)));
                    }
                    add_contribution(
                        &mut entries,
                        encode,
                        &sizes,
                        Ghost(cs0 + es.take(k).map_values(|e: EncodeView| (e, zs))),
                    );
                    proof {
                        k = k + 1;
                    }
                }
                proof {
                    assert(es.skip(k).len() == 0);
                    assert(es.take(k) =~= es);
                    assert(contributions(s.take(t + 1), is_libcamera) =~= cs0 + es.map_values(|e: EncodeView| (e, zs)));
                }
            },
            None => {
                proof {
                    assert(contributions(s.take(t + 1), is_libcamera) =~= cs0);
                }
            },
        }
        t = t + 1;
    }
    proof {
        assert(s.take(t as int) =~= s);
    }
    let ghost cs = contributions(s, is_libcamera);
    let ghost all = entries@;
    let mut formats: Vec<Format> = Vec::new();
    let mut rest = entries;
    let ghost mut done: int = 0;
    while rest.len() > 0
        invariant
            0 <= done <= all.len(),
            rest@ == all.skip(done),
            entries_match(all, cs),
            formats@.len() == done,
            forall|i: int| 0 <= i < done ==> (#[trigger] formats@[i]).encode == all[i].0,
            forall|i: int| 0 <= i < done ==> (#[trigger] formats@[i]).sizes@.len() > 0,
            forall|i: int| 0 <= i < done ==> strictly_sorted_by(#[trigger] format_keys(formats@, i), size_decreasing()),
            forall|i: int| 0 <= i < done ==> same_elements(#[trigger] format_keys(formats@, i), entry_keys(all, i)),
            forall|i: int, k: int|
                0 <= i < done && 0 <= k < formats@[i].sizes@.len() ==> (#[trigger] formats@[i].sizes@[k]).depths@.len()
                    == 0,
        decreases rest@.len(),
    {
        let (encode, sizes) = rest.remove(0);
        proof {
            assert((encode, sizes) == all[done]);
            assert(rest@ =~= all.skip(done + 1));
        }
        let ghost given = sizes@;
        let sorted = sorted_unique_sizes(sizes);
        proof {
            assert(sorted@.len() > 0) by {
                assert(given.len() > 0);
                assert(given.map_values(size_key())[0] == size_key()(given[0]));
                assert(given.map_values(size_key()).contains(size_key()(given[0])));
                assert(sorted@.map_values(size_key()).contains(size_key()(given[0])));
            }
            assert forall|k: int| 0 <= k < sorted@.len() implies (#[trigger] sorted@[k]).depths@.len() == 0 by {
                assert(sorted@.contains(sorted@[k]));
                assert(given.contains(sorted@[k]));
            }
        }
        let ghost before = formats@;
        formats.push(Format { encode, sizes: sorted });
        proof {
            assert forall|i: int| 0 <= i < done + 1 implies strictly_sorted_by(#[trigger] format_keys(formats@, i), size_decreasing()) by {
                if i < done {
                    assert(formats@[i] == before[i]);
                    assert(format_keys(formats@, i) == format_keys(before, i));
                }
            }
            assert forall|i: int| 0 <= i < done + 1 implies same_elements(#[trigger] format_keys(formats@, i), entry_keys(all, i)) by {
                if i < done {
                    assert(formats@[i] == before[i]);
                    assert(format_keys(formats@, i) == format_keys(before, i));
                }
            }
            assert forall|i: int, k: int|
                0 <= i < done + 1 && 0 <= k < formats@[i].sizes@.len() implies (#[trigger] formats@[i].sizes@[k]).depths@.len()
                    == 0 by {
                if i < done {
                    assert(formats@[i] == before[i]);
                }
            }
            done = done + 1;
        }
    }
    proof {
        assert(done == all.len());
        let f = formats@;
        assert forall|i: int, z: SizeKey| 0 <= i < f.len() implies (#[trigger] format_keys(f, i).contains(z) <==> encode_has_size(
            cs,
            f[i].encode@,
            z,
        )) by {
            assert(entry_keys(all, i).contains(z) <==> encode_has_size(cs, all[i].0@, z));
        }
        assert forall|e: EncodeView, z: SizeKey| #[trigger] encode_has_size(cs, e, z) implies exists|i: int|
            0 <= i < f.len() && (#[trigger] f[i]).encode@ == e by {
            let i = choose|i: int| 0 <= i < all.len() && (#[trigger] all[i]).0@ == e;
            assert(f[i].encode@ == e);
        }
        assert forall|i: int, j: int| 0 <= i < j < f.len() implies (#[trigger] f[i]).encode@ != (#[trigger] f[j]).encode@ by {
            assert(all[i].0@ != all[j].0@);
        }
    }
    formats
}


/// The encodes an ISP streams: NV12, RGB and YUYV.
pub open spec fn is_isp_encode(e: EncodeView) -> bool {
    e is Nv12 || e is Rgb || e is Yuyv
}

/// The formats of `fs` that an ISP streams, in order.
pub open spec fn isp_only(fs: Seq<Format>) -> Seq<Format>
    decreases fs.len(),
{
    if fs.len() == 0 {
        Seq::empty()
    } else if is_isp_encode(fs.last().encode@) {
        isp_only(fs.drop_last()).push(fs.last())
    } else {
        isp_only(fs.drop_last())
    }
}

/// The formats of `fs` that have a size, in order.
pub open spec fn with_sizes(fs: Seq<Format>) -> Seq<Format>
    decreases fs.len(),
{
    if fs.len() == 0 {
        Seq::empty()
    } else if fs.last().sizes@.len() > 0 {
        with_sizes(fs.drop_last()).push(fs.last())
    } else {
        with_sizes(fs.drop_last())
    }
}

/// A size with everything it holds, bit depths included.
pub type SizeDeep = (u32, u32, Seq<FrameInterval>, Seq<(u32, Seq<FrameInterval>)>);

pub open spec fn size_deep() -> spec_fn(Size) -> SizeDeep {
    |z: Size| (z.width, z.height, z.intervals@, z.depths@.map_values(|d: SizeDepth| (d.bit_depth, d.intervals@)))
}

/// The encodes libcamera lists native sizes for when none of its own
/// formats is streamable.
pub open spec fn isp_encodes() -> Seq<EncodeView> {
    seq![EncodeView::Nv12, EncodeView::Rgb, EncodeView::Yuyv]
}

/// The libcamera formats after adjustment: only the ISP encodes; with
/// native sensor sizes known, each of them (or NV12, RGB and YUYV when there
/// is none) lists exactly those sizes; otherwise, when asked to, only the
/// native rate of each size is kept; formats left without sizes go.
pub open spec fn libcamera_formats_spec(
    base: Seq<Format>,
    r: Seq<Format>,
    caps: Caps,
    native: Seq<Size>,
    native_fps_only: bool,
) -> bool {
    let isp = isp_only(base);
    if native.len() > 0 {
        let encodes = if isp.len() == 0 {
            isp_encodes()
        } else {
            isp.map_values(|f: Format| f.encode@)
        };
        &&& r.len() == encodes.len()
        &&& forall|i: int|
            0 <= i < r.len() ==> (#[trigger] r[i]).encode@ == encodes[i] && r[i].sizes@.map_values(size_deep())
                == native.map_values(size_deep())
    } else if native_fps_only {
        exists|kept: Seq<Format>|
            {
                &&& kept.len() == isp.len()
                &&& forall|i: int|
                    0 <= i < kept.len() ==> (#[trigger] kept[i]).encode == isp[i].encode && native_sizes_rel(
                        caps,
                        isp[i].sizes@,
                        kept[i].sizes@,
                    )
                &&& r == with_sizes(kept)
            }
    } else {
        r == with_sizes(isp)
    }
}

fn copy_size_deep(z: &Size) -> (r: Size)
    ensures
        size_deep()(r) == size_deep()(*z),
{
    let mut depths: Vec<SizeDepth> = Vec::new();
    let mut i: usize = 0;
    while i < z.depths.len()
        invariant
            i <= z.depths@.len(),
            depths@.map_values(|d: SizeDepth| (d.bit_depth, d.intervals@)) == z.depths@.take(i as int).map_values(
                |d: SizeDepth| (d.bit_depth, d.intervals@),
            ),
        decreases z.depths@.len() - i,
    {
        let ghost before = depths@;
        let d = SizeDepth { bit_depth: z.depths[i].bit_depth, intervals: copy_of(&z.depths[i].intervals) };
        depths.push(d);
        proof {
            assert(depths@.map_values(|d: SizeDepth| (d.bit_depth, d.intervals@)) =~= before.map_values(
                |d: SizeDepth| (d.bit_depth, d.intervals@),
            ).push((d.bit_depth, d.intervals@)));
            assert(z.depths@.take(i + 1).map_values(|d: SizeDepth| (d.bit_depth, d.intervals@)) =~= z.depths@.take(
                i as int,
            ).map_values(|d: SizeDepth| (d.bit_depth, d.intervals@)).push(
                (z.depths@[i as int].bit_depth, z.depths@[i as int].intervals@),
            ));
        }
        i = i + 1;
    }
    proof {
        assert(z.depths@.take(i as int) =~= z.depths@);
    }
    Size { width: z.width, height: z.height, intervals: copy_of(&z.intervals), depths }
}

fn copy_sizes_deep(sizes: &Vec<Size>) -> (r: Vec<Size>)
    ensures
        r@.map_values(size_deep()) == sizes@.map_values(size_deep()),
{
    let mut out: Vec<Size> = Vec::new();
    let mut i: usize = 0;
    while i < sizes.len()
        invariant
            i <= sizes@.len(),
            out@.map_values(size_deep()) == sizes@.take(i as int).map_values(size_deep()),
        decreases sizes@.len() - i,
    {
        let ghost before = out@;
        let z = copy_size_deep(&sizes[i]);
        out.push(z);
        proof {
            assert(out@.map_values(size_deep()) =~= before.map_values(size_deep()).push(size_deep()(z)));
            assert(sizes@.take(i + 1).map_values(size_deep()) =~= sizes@.take(i as int).map_values(size_deep()).push(
                size_deep()(sizes@[i as int]),
            ));
        }
        i = i + 1;
    }
    proof {
        assert(sizes@.take(i as int) =~= sizes@);
    }
    out
}

fn is_isp(encode: &VideoEncodeType) -> (r: bool)
    ensures
        r == is_isp_encode(encode@),
{
    match encode {
        VideoEncodeType::Nv12 | VideoEncodeType::Rgb | VideoEncodeType::Yuyv => true,
        _ => false,
    }
}

fn keep_isp_formats(formats: Vec<Format>) -> (r: Vec<Format>)
    ensures
        r@ == isp_only(formats@),
{
    let ghost original = formats@;
    let mut rest = formats;
    let mut kept: Vec<Format> = Vec::new();
    let ghost mut done: int = 0;
    while rest.len() > 0
        invariant
            0 <= done <= original.len(),
            rest@ == original.skip(done),
            kept@ == isp_only(original.take(done)),
        decreases rest@.len(),
    {
        let format = rest.remove(0);
        proof {
            assert(format == original[done]);
            assert(rest@ =~= original.skip(done + 1));
            assert(original.take(done + 1).drop_last() =~= original.take(done));
            assert(original.take(done + 1).last() == format);
        }
        if is_isp(&format.encode) {
            kept.push(format);
        }
        proof {
            done = done + 1;
        }
    }
    proof {
        assert(original.take(done) =~= original);
    }
    kept
}

fn keep_formats_with_sizes(formats: Vec<Format>) -> (r: Vec<Format>)
    ensures
        r@ == with_sizes(formats@),
{
    let ghost original = formats@;
    let mut rest = formats;
    let mut kept: Vec<Format> = Vec::new();
    let ghost mut done: int = 0;
    while rest.len() > 0
        invariant
            0 <= done <= original.len(),
            rest@ == original.skip(done),
            kept@ == with_sizes(original.take(done)),
        decreases rest@.len(),
    {
        let format = rest.remove(0);
        proof {
            assert(format == original[done]);
            assert(rest@ =~= original.skip(done + 1));
            assert(original.take(done + 1).drop_last() =~= original.take(done));
            assert(original.take(done + 1).last() == format);
        }
        if format.sizes.len() > 0 {
            kept.push(format);
        }
        proof {
            done = done + 1;
        }
    }
    proof {
        assert(original.take(done) =~= original);
    }
    kept
}

/// The formats of a local camera from the capabilities its device
/// advertises. For libcamera, `probed_native_sizes` are the sensor modes
/// found by probing the camera (empty when probing found none, in which case
/// the Bayer modes of `caps` are used), and `native_fps_only` asks to keep
/// only the native rate of each size. The formats come in no particular
/// order.
pub fn device_formats_from_caps(
    caps: &Caps,
    is_libcamera: bool,
    probed_native_sizes: Vec<Size>,
    native_fps_only: bool,
) -> (r: Vec<Format>)
    requires
        caps_steps_readable(*caps, is_libcamera),
    ensures
        !is_libcamera ==> plain_formats_spec(r@, contributions(caps.structures@, false)),
        is_libcamera ==> exists|base: Seq<Format>, native: Seq<Size>|
            {
                &&& plain_formats_spec(base, contributions(caps.structures@, true))
                &&& if probed_native_sizes@.len() > 0 {
                    native == probed_native_sizes@
                } else {
                    mode_sizes_spec(native, caps.structures@, true)
                }
                &&& libcamera_formats_spec(base, r@, *caps, native, native_fps_only)
            },
{
    let base = plain_formats(caps, is_libcamera);
    if !is_libcamera {
        return base;
    }
    let ghost base_view = base@;
    let formats = keep_isp_formats(base);
    let ghost probed = probed_native_sizes@;
    let native = if probed_native_sizes.len() == 0 {
        libcamera_native_mode_sizes(caps)
    } else {
        probed_native_sizes
    };
    proof {
        assert(if probed.len() > 0 {
            native@ == probed
        } else {
            mode_sizes_spec(native@, caps.structures@, true)
        });
    }
    let r = if native.len() > 0 {
        let mut encodes: Vec<VideoEncodeType> = Vec::new();
        if formats.len() == 0 {
            encodes.push(VideoEncodeType::Nv12);
            encodes.push(VideoEncodeType::Rgb);
            encodes.push(VideoEncodeType::Yuyv);
            assert(encodes@.map_values(|e: VideoEncodeType| e@) =~= isp_encodes());
        } else {
            let ghost fv = formats@;
            let mut rest = formats;
            let ghost mut done: int = 0;
            while rest.len() > 0
                invariant
                    0 <= done <= fv.len(),
                    rest@ == fv.skip(done),
                    encodes@.map_values(|e: VideoEncodeType| e@) == fv.take(done).map_values(|f: Format| f.encode@),
                decreases rest@.len(),
            {
                let format = rest.remove(0);
                proof {
                    assert(format == fv[done]);
                    assert(rest@ =~= fv.skip(done + 1));
                }
                let ghost before = encodes@;
                encodes.push(format.encode);
                proof {
                    assert(encodes@.map_values(|e: VideoEncodeType| e@) =~= before.map_values(|e: VideoEncodeType| e@).push(
                        fv[done].encode@,
                    ));
                    assert(fv.take(done + 1).map_values(|f: Format| f.encode@) =~= fv.take(done).map_values(
                        |f: Format| f.encode@,
                    ).push(fv[done].encode@));
                    done = done + 1;
                }
            }
            proof {
                assert(fv.take(done) =~= fv);
            }
        }
        let ghost ev = encodes@.map_values(|e: VideoEncodeType| e@);
        let mut out: Vec<Format> = Vec::new();
        let mut rest = encodes;
        let ghost mut done: int = 0;
        while rest.len() > 0
            invariant
                0 <= done <= ev.len(),
                rest@.map_values(|e: VideoEncodeType| e@) == ev.skip(done),
                out@.len() == done,
                forall|i: int|
                    0 <= i < done ==> (#[trigger] out@[i]).encode@ == ev[i] && out@[i].sizes@.map_values(size_deep())
                        == native@.map_values(size_deep()),
            decreases rest@.len(),
        {
            let ghost rv = rest@;
            let encode = rest.remove(0);
            proof {
                assert(rv.len() > 0);
                assert(rv.map_values(|e: VideoEncodeType| e@).len() == rv.len());
                assert(ev.skip(done).len() == rv.len());
                assert(rv.map_values(|e: VideoEncodeType| e@)[0] == encode@);
                assert(ev.skip(done)[0] == ev[done]);
                assert(rest@ =~= rv.subrange(1, rv.len() as int));
                assert forall|m: int| 0 <= m < rest@.len() implies rest@.map_values(|e: VideoEncodeType| e@)[m]
                    == #[trigger] ev.skip(done + 1)[m] by {
                    assert(rest@[m] == rv[m + 1]);
                    assert(rv.map_values(|e: VideoEncodeType| e@)[m + 1] == ev.skip(done)[m + 1]);
                    assert(ev.skip(done)[m + 1] == ev[done + 1 + m]);
                }
                assert(rest@.map_values(|e: VideoEncodeType| e@) =~= ev.skip(done + 1));
            }
            let ghost before = out@;
            out.push(Format { encode, sizes: copy_sizes_deep(&native) });
            proof {
                assert forall|i: int| 0 <= i < done + 1 implies (#[trigger] out@[i]).encode@ == ev[i] && out@[i].sizes@.map_values(
                    size_deep(),
                ) == native@.map_values(size_deep()) by {
                    if i < done {
                        assert(out@[i] == before[i]);
                    }
                }
                done = done + 1;
            }
        }
        proof {
            assert(libcamera_formats_spec(base_view, out@, *caps, native@, native_fps_only));
        }
        out
    } else {
        let mut formats = formats;
        if native_fps_only {
            let ghost isp = formats@;
            keep_native_mode_frame_intervals(&mut formats, caps);
            let ghost kept = formats@;
            let r = keep_formats_with_sizes(formats);
            proof {
                assert(kept.len() == isp.len());
                assert(libcamera_formats_spec(base_view, r@, *caps, native@, native_fps_only));
            }
            r
        } else {
            keep_formats_with_sizes(formats)
        }
    };
    proof {
        assert(plain_formats_spec(base_view, contributions(caps.structures@, true)));
        assert(libcamera_formats_spec(base_view, r@, *caps, native@, native_fps_only));
    }
    r
}


fn structure_steps_readable(structure: &CapsStructure, is_libcamera: bool) -> (r: bool)
    ensures
        r == steps_readable(*structure, is_libcamera),
{
    if structure_encodes(structure).is_none() {
        return true;
    }
    if is_libcamera && (field_is_int_range(structure, "width") || field_is_int_range(structure, "height")) {
        return true;
    }
    match structure.field("height") {
        Some(CapsField::IntRange { min: _, max: _, step }) => {
            if *step as u32 == 0 {
                return false;
            }
        },
        _ => {},
    }
    if dimension_values(structure, "height", false).is_none() {
        return true;
    }
    match structure.field("width") {
        Some(CapsField::IntRange { min: _, max: _, step }) => *step as u32 != 0,
        _ => true,
    }
}

/// Whether every size range `caps` would be sampled with has a step.
pub fn caps_dimensions_readable(caps: &Caps, is_libcamera: bool) -> (r: bool)
    ensures
        r == caps_steps_readable(*caps, is_libcamera),
{
    let mut i: usize = 0;
    while i < caps.structures.len()
        invariant
            i <= caps.structures@.len(),
            forall|k: int| 0 <= k < i ==> steps_readable(#[trigger] caps.structures@[k], is_libcamera),
        decreases caps.structures@.len() - i,
    {
        if !structure_steps_readable(&caps.structures[i], is_libcamera) {
            return false;
        }
        i = i + 1;
    }
    true
}

} // verus!
