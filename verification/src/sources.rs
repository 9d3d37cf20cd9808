//! Video sources: local cameras, ONVIF cameras and redirects, and the rules
//! that recognise a local camera again after devices were renumbered.
use vstd::prelude::*;
use crate::text::str_eq;
use crate::stream_types::VideoCaptureConfiguration;
use crate::video_types::{EncodeView, Format, VideoEncodeType};

verus! {

#[verifier::external_type_specification]
#[verifier::external_body]
pub struct ExRegex(regex::Regex);

/// Whether `regex::Regex::new` accepts `pattern`.
pub uninterp spec fn regex_compiles(pattern: Seq<char>) -> bool;

/// Whether the regex compiled from `pattern` matches somewhere in
/// `haystack` (`regex::Regex::is_match`).
pub uninterp spec fn regex_matches(pattern: Seq<char>, haystack: Seq<char>) -> bool;

/// A regular expression, with the pattern it was compiled from.
pub struct CompiledRegex {
    pattern: Ghost<Seq<char>>,
    regex: regex::Regex,
}

impl CompiledRegex {
    pub closed spec fn pattern(&self) -> Seq<char> {
        self.pattern@
    }
}

/// Compiles `pattern` with `regex::Regex::new`. The contract claims that
/// whether the pattern compiles depends on the pattern alone, and records
/// the pattern beside the compiled regex.
#[verifier::external_body]
fn regex_new(pattern: &str) -> (r: Option<CompiledRegex>)
    ensures
        r is Some <==> regex_compiles(pattern@),
        r matches Some(c) ==> c.pattern() == pattern@,
{
    match regex::Regex::new(pattern) {
        Ok(regex) => Some(CompiledRegex { pattern: Ghost(pattern@), regex }),
        Err(_) => None,
    }
}

/// Tests `re` against `haystack` with `regex::Regex::is_match`. The
/// contract claims that the answer depends on the regex's pattern and the
/// haystack alone; what it is is left to the name.
#[verifier::external_body]
fn regex_is_match(re: &CompiledRegex, haystack: &str) -> (r: bool)
    ensures
        r == regex_matches(re.pattern(), haystack@),
{
    re.regex.is_match(haystack)
}

/// Whether `pattern` matches somewhere in `haystack`; `None` when the
/// pattern does not compile.
fn regex_find(pattern: &str, haystack: &str) -> (r: Option<bool>)
    ensures
        match r {
            None => !regex_compiles(pattern@),
            Some(b) => regex_compiles(pattern@) && b == regex_matches(pattern@, haystack@),
        },
{
    match regex_new(pattern) {
        Some(re) => Some(regex_is_match(&re, haystack)),
        None => None,
    }
}

/// How a local camera is attached, with the bus description it came with.
#[derive(Clone, Debug)]
pub enum VideoSourceLocalType {
    Unknown(String),
    Usb(String),
    LegacyRpiCam(String),
    Libcamera(String),
}

pub enum LocalTypeView {
    Unknown(Seq<char>),
    Usb(Seq<char>),
    LegacyRpiCam(Seq<char>),
    Libcamera(Seq<char>),
}

impl View for VideoSourceLocalType {
    type V = LocalTypeView;

    open spec fn view(&self) -> LocalTypeView {
        match self {
            VideoSourceLocalType::Unknown(s) => LocalTypeView::Unknown(s@),
            VideoSourceLocalType::Usb(s) => LocalTypeView::Usb(s@),
            VideoSourceLocalType::LegacyRpiCam(s) => LocalTypeView::LegacyRpiCam(s@),
            VideoSourceLocalType::Libcamera(s) => LocalTypeView::Libcamera(s@),
        }
    }
}

impl PartialEq for VideoSourceLocalType {
    fn eq(&self, other: &Self) -> (r: bool) {
        match (self, other) {
            (VideoSourceLocalType::Unknown(a), VideoSourceLocalType::Unknown(b)) => str_eq(a.as_str(), b.as_str()),
            (VideoSourceLocalType::Usb(a), VideoSourceLocalType::Usb(b)) => str_eq(a.as_str(), b.as_str()),
            (VideoSourceLocalType::LegacyRpiCam(a), VideoSourceLocalType::LegacyRpiCam(b)) => str_eq(
                a.as_str(),
                b.as_str(),
            ),
            (VideoSourceLocalType::Libcamera(a), VideoSourceLocalType::Libcamera(b)) => str_eq(
                a.as_str(),
                b.as_str(),
            ),
            _ => false,
        }
    }
}

impl Eq for VideoSourceLocalType {}

impl vstd::std_specs::cmp::PartialEqSpecImpl for VideoSourceLocalType {
    open spec fn obeys_eq_spec() -> bool {
        true
    }

    open spec fn eq_spec(&self, other: &VideoSourceLocalType) -> bool {
        self@ == other@
    }
}

/// Bus descriptions of USB cameras: `usb-<pci domain:bus:device>.<function>-<port>`
/// or `usb-<unknown>.usb-<hub>.<port>`.
pub const USB_BUS_PATTERN: &'static str = r"usb-(?P<interface>(([0-9a-fA-F]{2}){1,2}:?){4})?\.(usb-)?(?P<device>.*)";

/// Bus descriptions of Raspberry Pi cameras in legacy camera mode.
pub const V4L2_BUS_PATTERN: &'static str = r"platform:(?P<device>\S+)-v4l2-[0-9]";

/// The connection type a bus description names, given whether each pattern
/// compiled and matched (`None` when it did not compile).
pub open spec fn local_type_spec(description: Seq<char>, usb: Option<bool>, v4l2: Option<bool>) -> LocalTypeView {
    if usb == Some(true) {
        LocalTypeView::Usb(description)
    } else if v4l2 == Some(true) {
        LocalTypeView::LegacyRpiCam(description)
    } else {
        LocalTypeView::Unknown(description)
    }
}

impl VideoSourceLocalType {
    /// The connection type of `description`, from the outcome of the USB and
    /// legacy camera patterns on it.
    pub fn from_pattern_matches(description: &str, usb: Option<bool>, v4l2: Option<bool>) -> (r: VideoSourceLocalType)
        ensures
            r@ == local_type_spec(description@, usb, v4l2),
    {
        if usb == Some(true) {
            VideoSourceLocalType::Usb(description.to_owned())
        } else if v4l2 == Some(true) {
            VideoSourceLocalType::LegacyRpiCam(description.to_owned())
        } else {
            VideoSourceLocalType::Unknown(description.to_owned())
        }
    }

    /// The connection type of a camera from its V4L2 bus description.
    pub fn from_str(description: &str) -> (r: VideoSourceLocalType)
        ensures
            r@ == local_type_spec(
                description@,
                if regex_compiles(USB_BUS_PATTERN@) {
                    Some(regex_matches(USB_BUS_PATTERN@, description@))
                } else {
                    None
                },
                if regex_compiles(V4L2_BUS_PATTERN@) {
                    Some(regex_matches(V4L2_BUS_PATTERN@, description@))
                } else {
                    None
                },
            ),
    {
        let usb = regex_find(USB_BUS_PATTERN, description);
        let v4l2 = regex_find(V4L2_BUS_PATTERN, description);
        Self::from_pattern_matches(description, usb, v4l2)
    }

    pub fn duplicate(&self) -> (r: VideoSourceLocalType)
        ensures
            r == *self,
    {
        match self {
            VideoSourceLocalType::Unknown(s) => VideoSourceLocalType::Unknown(s.clone()),
            VideoSourceLocalType::Usb(s) => VideoSourceLocalType::Usb(s.clone()),
            VideoSourceLocalType::LegacyRpiCam(s) => VideoSourceLocalType::LegacyRpiCam(s.clone()),
            VideoSourceLocalType::Libcamera(s) => VideoSourceLocalType::Libcamera(s.clone()),
        }
    }
}

/// A camera attached to this machine.
#[derive(Clone, Debug, PartialEq, Eq)]
pub struct VideoSourceLocal {
    pub name: String,
    pub device_path: String,
    pub typ: VideoSourceLocalType,
}

#[derive(Clone, Debug, PartialEq, Eq)]
pub enum VideoSourceOnvifType {
    Onvif(String),
}

/// A camera reached over ONVIF, by its stream URL.
#[derive(Clone, Debug, PartialEq, Eq)]
pub struct VideoSourceOnvif {
    pub name: String,
    pub source: VideoSourceOnvifType,
}

#[derive(Clone, Debug, PartialEq, Eq)]
pub enum VideoSourceRedirectType {
    Redirect(String),
}

/// A stream produced elsewhere that is only announced.
#[derive(Clone, Debug, PartialEq, Eq)]
pub struct VideoSourceRedirect {
    pub name: String,
    pub source: VideoSourceRedirectType,
}

#[derive(Clone, Debug, PartialEq, Eq)]
pub enum VideoSourceType {
    Local(VideoSourceLocal),
    Onvif(VideoSourceOnvif),
    Redirect(VideoSourceRedirect),
}

/// What every video source answers.
pub trait VideoSource {
    spec fn spec_name(&self) -> Seq<char>;

    spec fn spec_source_string(&self) -> Seq<char>;

    spec fn spec_is_valid(&self) -> bool;

    spec fn spec_is_shareable(&self) -> bool;

    fn name(&self) -> (r: &String)
        ensures
            r@ == self.spec_name(),
    ;

    /// The string that designates the source (a device path, a URL).
    fn source_string(&self) -> (r: &str)
        ensures
            r@ == self.spec_source_string(),
    ;

    fn is_valid(&self) -> (r: bool)
        ensures
            r == self.spec_is_valid(),
    ;

    /// Whether several streams may use the source at once.
    fn is_shareable(&self) -> (r: bool)
        ensures
            r == self.spec_is_shareable(),
    ;
}

impl VideoSource for VideoSourceLocal {
    open spec fn spec_name(&self) -> Seq<char> {
        self.name@
    }

    open spec fn spec_source_string(&self) -> Seq<char> {
        self.device_path@
    }

    /// A local camera is valid when it has a device path.
    open spec fn spec_is_valid(&self) -> bool {
        self.device_path@.len() > 0
    }

    /// A local camera serves one stream.
    open spec fn spec_is_shareable(&self) -> bool {
        false
    }

    fn name(&self) -> (r: &String) {
        &self.name
    }

    fn source_string(&self) -> (r: &str) {
        self.device_path.as_str()
    }

    fn is_valid(&self) -> (r: bool) {
        self.device_path.as_str().unicode_len() > 0
    }

    fn is_shareable(&self) -> (r: bool) {
        false
    }
}

impl VideoSource for VideoSourceOnvif {
    open spec fn spec_name(&self) -> Seq<char> {
        self.name@
    }

    open spec fn spec_source_string(&self) -> Seq<char> {
        match self.source {
            VideoSourceOnvifType::Onvif(url) => url@,
        }
    }

    open spec fn spec_is_valid(&self) -> bool {
        true
    }

    open spec fn spec_is_shareable(&self) -> bool {
        true
    }

    fn name(&self) -> (r: &String) {
        &self.name
    }

    fn source_string(&self) -> (r: &str) {
        match &self.source {
            VideoSourceOnvifType::Onvif(url) => url.as_str(),
        }
    }

    fn is_valid(&self) -> (r: bool) {
        match &self.source {
            VideoSourceOnvifType::Onvif(_) => true,
        }
    }

    fn is_shareable(&self) -> (r: bool) {
        true
    }
}

impl VideoSource for VideoSourceRedirect {
    open spec fn spec_name(&self) -> Seq<char> {
        self.name@
    }

    open spec fn spec_source_string(&self) -> Seq<char> {
        match self.source {
            VideoSourceRedirectType::Redirect(s) => s@,
        }
    }

    open spec fn spec_is_valid(&self) -> bool {
        true
    }

    open spec fn spec_is_shareable(&self) -> bool {
        true
    }

    fn name(&self) -> (r: &String) {
        &self.name
    }

    fn source_string(&self) -> (r: &str) {
        match &self.source {
            VideoSourceRedirectType::Redirect(s) => s.as_str(),
        }
    }

    fn is_valid(&self) -> (r: bool) {
        match &self.source {
            VideoSourceRedirectType::Redirect(_) => true,
        }
    }

    fn is_shareable(&self) -> (r: bool) {
        true
    }
}

impl VideoSource for VideoSourceType {
    open spec fn spec_name(&self) -> Seq<char> {
        match self {
            VideoSourceType::Local(s) => s.spec_name(),
            VideoSourceType::Onvif(s) => s.spec_name(),
            VideoSourceType::Redirect(s) => s.spec_name(),
        }
    }

    open spec fn spec_source_string(&self) -> Seq<char> {
        match self {
            VideoSourceType::Local(s) => s.spec_source_string(),
            VideoSourceType::Onvif(s) => s.spec_source_string(),
            VideoSourceType::Redirect(s) => s.spec_source_string(),
        }
    }

    open spec fn spec_is_valid(&self) -> bool {
        match self {
            VideoSourceType::Local(s) => s.spec_is_valid(),
            VideoSourceType::Onvif(s) => s.spec_is_valid(),
            VideoSourceType::Redirect(s) => s.spec_is_valid(),
        }
    }

    open spec fn spec_is_shareable(&self) -> bool {
        match self {
            VideoSourceType::Local(s) => s.spec_is_shareable(),
            VideoSourceType::Onvif(s) => s.spec_is_shareable(),
            VideoSourceType::Redirect(s) => s.spec_is_shareable(),
        }
    }

    fn name(&self) -> (r: &String) {
        match self {
            VideoSourceType::Local(s) => s.name(),
            VideoSourceType::Onvif(s) => s.name(),
            VideoSourceType::Redirect(s) => s.name(),
        }
    }

    fn source_string(&self) -> (r: &str) {
        match self {
            VideoSourceType::Local(s) => s.source_string(),
            VideoSourceType::Onvif(s) => s.source_string(),
            VideoSourceType::Redirect(s) => s.source_string(),
        }
    }

    fn is_valid(&self) -> (r: bool) {
        match self {
            VideoSourceType::Local(s) => s.is_valid(),
            VideoSourceType::Onvif(s) => s.is_valid(),
            VideoSourceType::Redirect(s) => s.is_valid(),
        }
    }

    fn is_shareable(&self) -> (r: bool) {
        match self {
            VideoSourceType::Local(s) => s.is_shareable(),
            VideoSourceType::Onvif(s) => s.is_shareable(),
            VideoSourceType::Redirect(s) => s.is_shareable(),
        }
    }
}

impl VideoSourceType {
    /// The source behind the variant, through the common interface.
    pub fn inner(&self) -> (r: &VideoSourceType)
        ensures
            r == self,
    {
        self
    }

    pub fn duplicate(&self) -> (r: VideoSourceType)
        ensures
            r == *self,
    {
        match self {
            VideoSourceType::Local(s) => VideoSourceType::Local(
                VideoSourceLocal { name: s.name.clone(), device_path: s.device_path.clone(), typ: s.typ.duplicate() },
            ),
            VideoSourceType::Onvif(s) => VideoSourceType::Onvif(
                VideoSourceOnvif {
                    name: s.name.clone(),
                    source: match &s.source {
                        VideoSourceOnvifType::Onvif(u) => VideoSourceOnvifType::Onvif(u.clone()),
                    },
                },
            ),
            VideoSourceType::Redirect(s) => VideoSourceType::Redirect(
                VideoSourceRedirect {
                    name: s.name.clone(),
                    source: match &s.source {
                        VideoSourceRedirectType::Redirect(u) => VideoSourceRedirectType::Redirect(u.clone()),
                    },
                },
            ),
        }
    }
}

/// The local cameras of `candidates` named `name`, in order.
pub open spec fn same_name_spec(candidates: Seq<VideoSourceType>, name: Seq<char>) -> Seq<VideoSourceType>
    decreases candidates.len(),
{
    if candidates.len() == 0 {
        Seq::empty()
    } else {
        let rest = same_name_spec(candidates.drop_last(), name);
        match candidates.last() {
            VideoSourceType::Local(camera) => if camera.name@ == name {
                rest.push(candidates.last())
            } else {
                rest
            },
            _ => rest,
        }
    }
}

/// The local cameras of `candidates` attached as `typ`, in order.
pub open spec fn same_bus_spec(candidates: Seq<VideoSourceType>, typ: LocalTypeView) -> Seq<VideoSourceType>
    decreases candidates.len(),
{
    if candidates.len() == 0 {
        Seq::empty()
    } else {
        let rest = same_bus_spec(candidates.drop_last(), typ);
        match candidates.last() {
            VideoSourceType::Local(camera) => if camera.typ@ == typ {
                rest.push(candidates.last())
            } else {
                rest
            },
            _ => rest,
        }
    }
}

/// The formats listed for `source`: those of its first entry.
pub open spec fn formats_of(formats: Seq<(String, Vec<Format>)>, source: Seq<char>) -> Option<Seq<Format>>
    decreases formats.len(),
{
    if formats.len() == 0 {
        None
    } else if formats[0].0@ == source {
        Some(formats[0].1@)
    } else {
        formats_of(formats.drop_first(), source)
    }
}

pub open spec fn offers_encode(formats: Seq<(String, Vec<Format>)>, source: Seq<char>, encode: EncodeView) -> bool {
    match formats_of(formats, source) {
        Some(fs) => exists|i: int| 0 <= i < fs.len() && (#[trigger] fs[i]).encode@ == encode,
        None => false,
    }
}

/// The candidates whose listed formats offer `encode`, in order.
pub open spec fn same_encode_spec(
    candidates: Seq<VideoSourceType>,
    encode: EncodeView,
    formats: Seq<(String, Vec<Format>)>,
) -> Seq<VideoSourceType>
    decreases candidates.len(),
{
    if candidates.len() == 0 {
        Seq::empty()
    } else {
        let rest = same_encode_spec(candidates.drop_last(), encode, formats);
        if offers_encode(formats, candidates.last().spec_source_string(), encode) {
            rest.push(candidates.last())
        } else {
            rest
        }
    }
}

fn offers_encode_exec(formats: &[(String, Vec<Format>)], source: &str, encode: &VideoEncodeType) -> (r: bool)
    ensures
        r == offers_encode(formats@, source@, encode@),
{
    let mut i: usize = 0;
    assert(formats@.skip(0) =~= formats@);
    while i < formats.len()
        invariant
            i <= formats@.len(),
            formats_of(formats@, source@) == formats_of(formats@.skip(i as int), source@),
        decreases formats@.len() - i,
    {
        proof {
            assert(formats@.skip(i as int).drop_first() =~= formats@.skip(i + 1));
            assert(formats@.skip(i as int)[0] == formats@[i as int]);
        }
        if str_eq(formats[i].0.as_str(), source) {
            let fs = &formats[i].1;
            let mut k: usize = 0;
            assert(formats_of(formats@, source@) == Some(fs@));
            while k < fs.len()
                invariant
                    formats_of(formats@, source@) == Some(fs@),
                    k <= fs@.len(),
                    forall|m: int| 0 <= m < k ==> (#[trigger] fs@[m]).encode@ != encode@,
                decreases fs@.len() - k,
            {
                if fs[k].encode == *encode {
                    assert(fs@[k as int].encode@ == encode@);
                    return true;
                }
                k = k + 1;
            }
            return false;
        }
        i = i + 1;
    }
    false
}

impl VideoSourceLocal {
    /// Rule one of identification: candidates must be local cameras of the
    /// same name.
    pub fn get_cameras_with_same_name(candidates: &[VideoSourceType], name: &str) -> (r: Vec<VideoSourceType>)
        ensures
            r@ == same_name_spec(candidates@, name@),
    {
        let mut out: Vec<VideoSourceType> = Vec::new();
        let mut i: usize = 0;
        while i < candidates.len()
            invariant
                i <= candidates@.len(),
                out@ == same_name_spec(candidates@.take(i as int), name@),
            decreases candidates@.len() - i,
        {
            proof {
                assert(candidates@.take(i + 1).drop_last() =~= candidates@.take(i as int));
            }
            match &candidates[i] {
                VideoSourceType::Local(camera) => {
                    if str_eq(camera.name.as_str(), name) {
                        out.push(candidates[i].duplicate());
                    }
                },
                _ => {},
            }
            i = i + 1;
        }
        proof {
            assert(candidates@.take(i as int) =~= candidates@);
        }
        out
    }

    /// Rule two: candidates must offer the configured source encoding.
    pub fn get_cameras_with_same_encode(
        candidates: &[VideoSourceType],
        encode: &VideoEncodeType,
        formats: &[(String, Vec<Format>)],
    ) -> (r: Vec<VideoSourceType>)
        ensures
            r@ == same_encode_spec(candidates@, encode@, formats@),
    {
        let mut out: Vec<VideoSourceType> = Vec::new();
        let mut i: usize = 0;
        while i < candidates.len()
            invariant
                i <= candidates@.len(),
                out@ == same_encode_spec(candidates@.take(i as int), encode@, formats@),
            decreases candidates@.len() - i,
        {
            proof {
                assert(candidates@.take(i + 1).drop_last() =~= candidates@.take(i as int));
            }
            if offers_encode_exec(formats, candidates[i].source_string(), encode) {
                out.push(candidates[i].duplicate());
            }
            i = i + 1;
        }
        proof {
            assert(candidates@.take(i as int) =~= candidates@);
        }
        out
    }

    /// Rule three: candidates must sit on the same bus.
    pub fn get_cameras_with_same_bus(candidates: &[VideoSourceType], typ: &VideoSourceLocalType) -> (r: Vec<
        VideoSourceType,
    >)
        ensures
            r@ == same_bus_spec(candidates@, typ@),
    {
        let mut out: Vec<VideoSourceType> = Vec::new();
        let mut i: usize = 0;
        while i < candidates.len()
            invariant
                i <= candidates@.len(),
                out@ == same_bus_spec(candidates@.take(i as int), typ@),
            decreases candidates@.len() - i,
        {
            proof {
                assert(candidates@.take(i + 1).drop_last() =~= candidates@.take(i as int));
            }
            match &candidates[i] {
                VideoSourceType::Local(camera) => {
                    if camera.typ == *typ {
                        out.push(candidates[i].duplicate());
                    }
                },
                _ => {},
            }
            i = i + 1;
        }
        proof {
            assert(candidates@.take(i as int) =~= candidates@);
        }
        out
    }

    /// Finds which of `candidates` this camera is now, after devices may have
    /// been renumbered: same name, then same encoding, then same bus. `Err`
    /// when no candidate is left; `Ok(None)` when several identical cameras
    /// cannot be told apart (their identity is then kept as it is).
    pub fn try_identify_device(
        &self,
        capture_configuration: &VideoCaptureConfiguration,
        candidates: &[VideoSourceType],
        formats: &[(String, Vec<Format>)],
    ) -> (r: Result<Option<String>, IdentifyError>)
        ensures
            match identify_spec(
                self.name@,
                self.typ@,
                capture_configuration.source_encode@,
                candidates@,
                formats@,
            ) {
                IdentifyOutcome::NotFound => r == Err::<Option<String>, IdentifyError>(
                    IdentifyError::DeviceNotFound,
                ),
                IdentifyOutcome::Found(source) => r matches Ok(Some(x)) && x@ == source,
                IdentifyOutcome::Ambiguous => r == Ok::<Option<String>, IdentifyError>(None),
            },
    {
        let by_name = Self::get_cameras_with_same_name(candidates, self.name.as_str());
        if by_name.len() == 0 {
            return Err(IdentifyError::DeviceNotFound);
        }
        let by_encode = Self::get_cameras_with_same_encode(
            by_name.as_slice(),
            &capture_configuration.source_encode,
            formats,
        );
        if by_encode.len() == 0 {
            return Err(IdentifyError::DeviceNotFound);
        }
        if by_encode.len() == 1 {
            return Ok(Some(by_encode[0].source_string().to_owned()));
        }
        let by_bus = Self::get_cameras_with_same_bus(by_encode.as_slice(), &self.typ);
        if by_bus.len() == 1 {
            return Ok(Some(by_bus[0].source_string().to_owned()));
        }
        Ok(None)
    }
}

/// The outcome of identification.
pub enum IdentifyOutcome {
    NotFound,
    /// The source string of the camera found.
    Found(Seq<char>),
    Ambiguous,
}

pub open spec fn identify_spec(
    name: Seq<char>,
    typ: LocalTypeView,
    encode: EncodeView,
    candidates: Seq<VideoSourceType>,
    formats: Seq<(String, Vec<Format>)>,
) -> IdentifyOutcome {
    let by_name = same_name_spec(candidates, name);
    let by_encode = same_encode_spec(by_name, encode, formats);
    let by_bus = same_bus_spec(by_encode, typ);
    if by_name.len() == 0 || by_encode.len() == 0 {
        IdentifyOutcome::NotFound
    } else if by_encode.len() == 1 {
        IdentifyOutcome::Found(by_encode[0].spec_source_string())
    } else if by_bus.len() == 1 {
        IdentifyOutcome::Found(by_bus[0].spec_source_string())
    } else {
        IdentifyOutcome::Ambiguous
    }
}

/// Why a camera cannot be identified.
#[derive(Clone, Copy, Debug, PartialEq, Eq, Structural)]
pub enum IdentifyError {
    DeviceNotFound,
}

} // verus!
