//! Media capabilities as a camera advertises them: a list of structures,
//! each a media type name and typed fields (`width`, `height`, `framerate`,
//! `format`, ...). The readers here look fields up by name and act on the
//! type of the value found, as capability negotiation does.
use vstd::prelude::*;
use crate::libcamera_modes::{bit_depth_from_fourcc, bit_depth_spec};
use crate::text::str_eq;
use crate::video_types::{fastest_frame_interval, fastest_spec, fps_gt, Format, FrameInterval, Size};

verus! {

/// A fraction `numerator / denominator`.
#[derive(Clone, Copy, Debug, PartialEq, Eq)]
pub struct Fraction {
    pub numerator: i32,
    pub denominator: i32,
}

/// A single typed value.
#[derive(Clone, Debug, PartialEq, Eq)]
pub enum CapsValue {
    /// An `int` value.
    Int(i32),
    Fraction(Fraction),
    /// A string value.
    Str(String),
    /// A value of a type that no reader here looks at.
    Other,
}

/// A field's value.
#[derive(Clone, Debug, PartialEq, Eq)]
pub enum CapsField {
    Value(CapsValue),
    IntRange { min: i32, max: i32, step: i32 },
    FractionRange { low: Fraction, high: Fraction },
    /// A list of alternatives.
    List(Vec<CapsValue>),
    /// An ordered array.
    Array(Vec<CapsValue>),
}

#[derive(Clone, Debug, PartialEq, Eq)]
pub struct CapsStructure {
    /// The media type, such as `video/x-raw`.
    pub name: String,
    pub fields: Vec<(String, CapsField)>,
}

#[derive(Clone, Debug, PartialEq, Eq)]
pub struct Caps {
    pub structures: Vec<CapsStructure>,
}

/// The value of the first field named `name`.
pub open spec fn field_spec(fields: Seq<(String, CapsField)>, name: Seq<char>) -> Option<CapsField>
    decreases fields.len(),
{
    if fields.len() == 0 {
        None
    } else if fields[0].0@ == name {
        Some(fields[0].1)
    } else {
        field_spec(fields.drop_first(), name)
    }
}

impl CapsStructure {
    pub fn field(&self, name: &str) -> (r: Option<&CapsField>)
        ensures
            match field_spec(self.fields@, name@) {
                Some(f) => r == Some(&f),
                None => r is None,
            },
    {
        let mut i: usize = 0;
        assert(self.fields@.skip(0) =~= self.fields@);
        while i < self.fields.len()
            invariant
                i <= self.fields@.len(),
                field_spec(self.fields@, name@) == field_spec(self.fields@.skip(i as int), name@),
            decreases self.fields@.len() - i,
        {
            proof {
                assert(self.fields@.skip(i as int).drop_first() =~= self.fields@.skip(i + 1));
                assert(self.fields@.skip(i as int)[0] == self.fields@[i as int]);
            }
            if str_eq(self.fields[i].0.as_str(), name) {
                return Some(&self.fields[i].1);
            }
            i = i + 1;
        }
        None
    }
}

/// A fraction read as a frame interval: the interval is the inverse of the
/// rate, so the fraction's denominator becomes the interval's numerator.
pub open spec fn fraction_interval(f: Fraction) -> FrameInterval {
    FrameInterval { numerator: f.denominator as u32, denominator: f.numerator as u32 }
}

pub fn interval_from_fraction(f: Fraction) -> (r: FrameInterval)
    ensures
        r == fraction_interval(f),
{
    FrameInterval { numerator: f.denominator as u32, denominator: f.numerator as u32 }
}

/// The fractions of a list, as intervals, skipping other values.
pub open spec fn list_intervals(items: Seq<CapsValue>) -> Seq<FrameInterval>
    decreases items.len(),
{
    if items.len() == 0 {
        Seq::empty()
    } else {
        let rest = list_intervals(items.drop_last());
        match items.last() {
            CapsValue::Fraction(f) => rest.push(fraction_interval(f)),
            _ => rest,
        }
    }
}

pub fn list_intervals_exec(items: &Vec<CapsValue>) -> (r: Vec<FrameInterval>)
    ensures
        r@ == list_intervals(items@),
{
    let mut r: Vec<FrameInterval> = Vec::new();
    let mut i: usize = 0;
    while i < items.len()
        invariant
            i <= items@.len(),
            r@ == list_intervals(items@.take(i as int)),
        decreases items@.len() - i,
    {
        proof {
            assert(items@.take(i + 1).drop_last() =~= items@.take(i as int));
        }
        match &items[i] {
            CapsValue::Fraction(f) => r.push(interval_from_fraction(*f)),
            _ => {},
        }
        i = i + 1;
    }
    proof {
        assert(items@.take(i as int) =~= items@);
    }
    r
}

/// The fastest interval a structure's `framerate` advertises: the fraction
/// itself, the upper bound of a range, or the fastest fraction of a list.
pub open spec fn max_framerate_spec(st: CapsStructure) -> Option<FrameInterval> {
    match field_spec(st.fields@, "framerate"@) {
        Some(CapsField::Value(CapsValue::Fraction(f))) => Some(fraction_interval(f)),
        Some(CapsField::FractionRange { low, high }) => Some(fraction_interval(high)),
        Some(CapsField::List(items)) => fastest_spec(list_intervals(items@)),
        _ => None,
    }
}

pub fn max_frame_interval_from_structure_framerate(structure: &CapsStructure) -> (r: Option<
    FrameInterval,
>)
    ensures
        r == max_framerate_spec(*structure),
{
    match structure.field("framerate") {
        Some(CapsField::Value(CapsValue::Fraction(f))) => Some(interval_from_fraction(*f)),
        Some(CapsField::FractionRange { low: _, high }) => Some(interval_from_fraction(*high)),
        Some(CapsField::List(items)) => {
            let intervals = list_intervals_exec(items);
            fastest_frame_interval(intervals.as_slice())
        },
        _ => None,
    }
}

/// The `int` value of the field `name`, if it has one.
pub open spec fn int_field_spec(st: CapsStructure, name: Seq<char>) -> Option<i32> {
    match field_spec(st.fields@, name) {
        Some(CapsField::Value(CapsValue::Int(v))) => Some(v),
        _ => None,
    }
}

pub fn int_field(structure: &CapsStructure, name: &str) -> (r: Option<i32>)
    ensures
        r == int_field_spec(*structure, name@),
{
    match structure.field(name) {
        Some(CapsField::Value(CapsValue::Int(v))) => Some(*v),
        _ => None,
    }
}

/// Over the structures of exactly `width`×`height`, the fastest advertised
/// interval; a later one replaces the one kept only when strictly faster.
pub open spec fn max_interval_for_size_spec(structures: Seq<CapsStructure>, width: i32, height: i32) -> Option<
    FrameInterval,
>
    decreases structures.len(),
{
    if structures.len() == 0 {
        None
    } else {
        let kept = max_interval_for_size_spec(structures.drop_last(), width, height);
        let st = structures.last();
        if int_field_spec(st, "width"@) == Some(width) && int_field_spec(st, "height"@) == Some(
            height,
        ) {
            match max_framerate_spec(st) {
                Some(interval) => match kept {
                    None => Some(interval),
                    Some(current) => if fps_gt(interval, current) {
                        Some(interval)
                    } else {
                        Some(current)
                    },
                },
                None => kept,
            }
        } else {
            kept
        }
    }
}

/// Highest advertised rate for a discrete `width`×`height` in `caps`. Size
/// ranges are ignored and no default rates are invented.
pub fn libcamera_max_frame_interval_for_size(caps: &Caps, width: i32, height: i32) -> (r: Option<
    FrameInterval,
>)
    ensures
        r == max_interval_for_size_spec(caps.structures@, width, height),
{
    let mut maximum: Option<FrameInterval> = None;
    let mut i: usize = 0;
    while i < caps.structures.len()
        invariant
            i <= caps.structures@.len(),
            maximum == max_interval_for_size_spec(caps.structures@.take(i as int), width, height),
        decreases caps.structures@.len() - i,
    {
        let structure = &caps.structures[i];
        proof {
            assert(caps.structures@.take(i + 1).drop_last() =~= caps.structures@.take(i as int));
            assert(caps.structures@.take(i + 1).last() == *structure);
        }
        let w = int_field(structure, "width");
        let h = int_field(structure, "height");
        if w == Some(width) && h == Some(height) {
            match max_frame_interval_from_structure_framerate(structure) {
                Some(interval) => {
                    let replace = match maximum {
                        None => true,
                        Some(current) => interval.frames_per_second_exceeds(&current),
                    };
                    if replace {
                        maximum = Some(interval);
                    }
                },
                None => {},
            }
        }
        i = i + 1;
    }
    proof {
        assert(caps.structures@.take(i as int) =~= caps.structures@);
    }
    maximum
}

/// The two `int` values of the `api.libcamera.PixelArraySize` array.
pub fn libcamera_pixel_array_size(properties: &CapsStructure) -> (r: Option<(i32, i32)>)
    ensures
        r == match field_spec(properties.fields@, "api.libcamera.PixelArraySize"@) {
            Some(CapsField::Array(values)) => if values@.len() == 2 {
                match (values@[0], values@[1]) {
                    (CapsValue::Int(w), CapsValue::Int(h)) => Some((w, h)),
                    _ => None,
                }
            } else {
                None
            },
            _ => None,
        },
{
    match properties.field("api.libcamera.PixelArraySize") {
        Some(CapsField::Array(values)) => {
            if values.len() != 2 {
                return None;
            }
            match (&values[0], &values[1]) {
                (CapsValue::Int(w), CapsValue::Int(h)) => Some((*w, *h)),
                _ => None,
            }
        },
        _ => None,
    }
}

/// The native rate of a size: the fastest rate `caps` advertise for its
/// discrete size, or else the fastest interval it lists.
pub open spec fn native_interval_spec(caps: Caps, size: Size) -> Option<FrameInterval> {
    match max_interval_for_size_spec(caps.structures@, size.width as i32, size.height as i32) {
        Some(interval) => Some(interval),
        None => fastest_spec(size.intervals@),
    }
}

/// `new` is `old` with each size's intervals replaced by its native rate,
/// and the sizes that have none dropped.
pub open spec fn native_sizes_rel(caps: Caps, old: Seq<Size>, new: Seq<Size>) -> bool
    decreases old.len(),
{
    if old.len() == 0 {
        new.len() == 0
    } else {
        let s = old.last();
        match native_interval_spec(caps, s) {
            None => native_sizes_rel(caps, old.drop_last(), new),
            Some(native) => {
                &&& new.len() > 0
                &&& new.last().width == s.width
                &&& new.last().height == s.height
                &&& new.last().intervals@ == seq![native]
                &&& new.last().depths == s.depths
                &&& native_sizes_rel(caps, old.drop_last(), new.drop_last())
            },
        }
    }
}

fn keep_native_sizes(caps: &Caps, sizes: Vec<Size>) -> (r: Vec<Size>)
    ensures
        native_sizes_rel(*caps, sizes@, r@),
{
    let ghost original = sizes@;
    let mut rest = sizes;
    let mut kept: Vec<Size> = Vec::new();
    let ghost mut done: int = 0;
    while rest.len() > 0
        invariant
            0 <= done <= original.len(),
            rest@ == original.skip(done),
            native_sizes_rel(*caps, original.take(done), kept@),
        decreases rest@.len(),
    {
        let size = rest.remove(0);
        proof {
            assert(size == original[done]);
            assert(original.take(done + 1).drop_last() =~= original.take(done));
            assert(original.take(done + 1).last() == size);
            assert(rest@ =~= original.skip(done + 1));
        }
        let native = match libcamera_max_frame_interval_for_size(
            caps,
            size.width as i32,
            size.height as i32,
        ) {
            Some(interval) => Some(interval),
            None => fastest_frame_interval(size.intervals.as_slice()),
        };
        match native {
            Some(native) => {
                let mut intervals: Vec<FrameInterval> = Vec::new();
                intervals.push(native);
                let ghost before = kept@;
                kept.push(Size { width: size.width, height: size.height, intervals, depths: size.depths });
                proof {
                    assert(kept@.drop_last() =~= before);
                }
            },
            None => {},
        }
        proof {
            done = done + 1;
        }
    }
    proof {
        assert(original.take(done) =~= original);
    }
    kept
}

/// Keeps only each size's native mode rate (the fastest rate the caps
/// advertise for that discrete size), falling back to the fastest listed
/// interval when the caps expose no matching size; sizes left without any
/// interval are dropped.
pub fn keep_native_mode_frame_intervals(formats: &mut Vec<Format>, caps: &Caps)
    ensures
        final(formats)@.len() == old(formats)@.len(),
        forall|i: int|
            0 <= i < final(formats)@.len() ==> {
                &&& (#[trigger] final(formats)@[i]).encode == old(formats)@[i].encode
                &&& native_sizes_rel(*caps, old(formats)@[i].sizes@, final(formats)@[i].sizes@)
            },
{
    let ghost original = formats@;
    let mut rest: Vec<Format> = Vec::new();
    std::mem::swap(formats, &mut rest);
    let ghost mut done: int = 0;
    while rest.len() > 0
        invariant
            0 <= done <= original.len(),
            rest@ == original.skip(done),
            formats@.len() == done,
            forall|i: int|
                0 <= i < done ==> {
                    &&& (#[trigger] formats@[i]).encode == original[i].encode
                    &&& native_sizes_rel(*caps, original[i].sizes@, formats@[i].sizes@)
                },
        decreases rest@.len(),
    {
        let format = rest.remove(0);
        proof {
            assert(format == original[done]);
            assert(rest@ =~= original.skip(done + 1));
        }
        let sizes = keep_native_sizes(caps, format.sizes);
        formats.push(Format { encode: format.encode, sizes });
        proof {
            done = done + 1;
        }
    }
}

/// The strings of a list, skipping other values.
pub open spec fn list_strings(items: Seq<CapsValue>) -> Seq<Seq<char>>
    decreases items.len(),
{
    if items.len() == 0 {
        Seq::empty()
    } else {
        let rest = list_strings(items.drop_last());
        match items.last() {
            CapsValue::Str(s) => rest.push(s@),
            _ => rest,
        }
    }
}

/// The fourccs a structure's `format` field names: one string, or the
/// strings of a list.
pub open spec fn fourccs_spec(st: CapsStructure) -> Seq<Seq<char>> {
    match field_spec(st.fields@, "format"@) {
        Some(CapsField::Value(CapsValue::Str(s))) => seq![s@],
        Some(CapsField::List(items)) => list_strings(items@),
        _ => Seq::empty(),
    }
}

pub fn structure_fourccs(structure: &CapsStructure) -> (r: Vec<String>)
    ensures
        r@.map_values(|s: String| s@) == fourccs_spec(*structure),
{
    let mut out: Vec<String> = Vec::new();
    match structure.field("format") {
        Some(CapsField::Value(CapsValue::Str(s))) => {
            out.push(s.clone());
            assert(out@.map_values(|s: String| s@) =~= seq![s@]);
        },
        Some(CapsField::List(items)) => {
            let mut i: usize = 0;
            while i < items.len()
                invariant
                    i <= items@.len(),
                    out@.map_values(|s: String| s@) == list_strings(items@.take(i as int)),
                decreases items@.len() - i,
            {
                proof {
                    assert(items@.take(i + 1).drop_last() =~= items@.take(i as int));
                }
                match &items[i] {
                    CapsValue::Str(s) => {
                        let ghost before = out@;
                        out.push(s.clone());
                        assert(out@.map_values(|s: String| s@) =~= before.map_values(|s: String| s@).push(s@));
                    },
                    _ => {},
                }
                i = i + 1;
            }
            assert(items@.take(i as int) =~= items@);
        },
        _ => {
            assert(out@.map_values(|s: String| s@) =~= Seq::<Seq<char>>::empty());
        },
    }
    out
}

/// The `int` values of a list, as unsigned, skipping other values.
pub open spec fn list_ints(items: Seq<CapsValue>) -> Seq<u32>
    decreases items.len(),
{
    if items.len() == 0 {
        Seq::empty()
    } else {
        let rest = list_ints(items.drop_last());
        match items.last() {
            CapsValue::Int(v) => rest.push(v as u32),
            _ => rest,
        }
    }
}

/// The discrete values of a dimension field: one `int`, or the `int`s of a
/// list; ranges give none.
pub open spec fn discrete_dimension_spec(st: CapsStructure, field: Seq<char>) -> Seq<u32> {
    match field_spec(st.fields@, field) {
        Some(CapsField::Value(CapsValue::Int(v))) => seq![v as u32],
        Some(CapsField::List(items)) => list_ints(items@),
        _ => Seq::empty(),
    }
}

pub fn structure_discrete_dimension(structure: &CapsStructure, field: &str) -> (r: Vec<u32>)
    ensures
        r@ == discrete_dimension_spec(*structure, field@),
{
    let mut out: Vec<u32> = Vec::new();
    match structure.field(field) {
        Some(CapsField::Value(CapsValue::Int(v))) => {
            out.push(*v as u32);
            assert(out@ =~= seq![*v as u32]);
        },
        Some(CapsField::List(items)) => {
            let mut i: usize = 0;
            while i < items.len()
                invariant
                    i <= items@.len(),
                    out@ == list_ints(items@.take(i as int)),
                decreases items@.len() - i,
            {
                proof {
                    assert(items@.take(i + 1).drop_last() =~= items@.take(i as int));
                }
                match &items[i] {
                    CapsValue::Int(v) => out.push(*v as u32),
                    _ => {},
                }
                i = i + 1;
            }
            assert(items@.take(i as int) =~= items@);
        },
        _ => {},
    }
    out
}

/// Bayer sensor modes: `video/x-bayer` structures, and `video/x-raw` ones
/// whose format carries a packed bit depth.
pub open spec fn is_bayer_spec(st: CapsStructure) -> bool {
    if st.name@ == "video/x-bayer"@ {
        true
    } else if st.name@ == "video/x-raw"@ {
        exists|i: int| 0 <= i < fourccs_spec(st).len() && (#[trigger] bit_depth_spec(fourccs_spec(st)[i])) is Some
    } else {
        false
    }
}

pub fn is_libcamera_bayer_structure(structure: &CapsStructure) -> (r: bool)
    ensures
        r == is_bayer_spec(*structure),
{
    if str_eq(structure.name.as_str(), "video/x-bayer") {
        return true;
    }
    if !str_eq(structure.name.as_str(), "video/x-raw") {
        return false;
    }
    let fourccs = structure_fourccs(structure);
    let ghost f = fourccs_spec(*structure);
    let mut i: usize = 0;
    while i < fourccs.len()
        invariant
            structure.name@ != "video/x-bayer"@,
            structure.name@ == "video/x-raw"@,
            f == fourccs_spec(*structure),
            i <= fourccs@.len(),
            fourccs@.map_values(|s: String| s@) == f,
            forall|k: int| 0 <= k < i ==> (#[trigger] bit_depth_spec(f[k])) is None,
        decreases fourccs@.len() - i,
    {
        assert(f[i as int] == fourccs@[i as int]@);
        if bit_depth_from_fourcc(fourccs[i].as_str()).is_some() {
            return true;
        }
        i = i + 1;
    }
    false
}

} // verus!
