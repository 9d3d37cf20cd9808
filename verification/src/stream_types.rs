//! Stream configurations: what a stream captures, where it sends it, and
//! the rules that keep two streams from colliding.
use vstd::prelude::*;
use crate::sources::{VideoSource, VideoSourceType};
use crate::text::str_eq;
use crate::video_types::{FrameInterval, VideoEncodeType};

verus! {

/// A codec property value of a transcoding configuration.
#[derive(Clone, Debug, PartialEq)]
pub enum PropertyValue {
    Bool(bool),
    Integer(i64),
    /// A floating-point number, held as its IEEE-754 bits.
    Number(u64),
    String(String),
}

#[derive(Clone, Debug, PartialEq)]
pub struct ManualTranscodingConfig {
    pub encoder: String,
    pub encoder_properties: Vec<(String, PropertyValue)>,
    pub decoder: String,
    pub decoder_properties: Vec<(String, PropertyValue)>,
}

/// Transcoding whose decoder and encoder are picked automatically; the
/// property bags keep the user's values.
#[derive(Clone, Debug, PartialEq)]
pub struct AutoTranscodingConfig {
    pub encoder_properties: Vec<(String, PropertyValue)>,
    pub decoder_properties: Vec<(String, PropertyValue)>,
}

#[derive(Clone, Debug, PartialEq)]
pub enum SourceConfiguration {
    /// The source is streamed in its own encoding.
    Classic,
    AutoTranscoding(AutoTranscodingConfig),
    ManualTranscoding(ManualTranscodingConfig),
}

/// An auto transcoding with empty property bags.
pub open spec fn is_default_auto(c: SourceConfiguration) -> bool {
    match c {
        SourceConfiguration::AutoTranscoding(a) => a.encoder_properties@.len() == 0
            && a.decoder_properties@.len() == 0,
        _ => false,
    }
}

pub fn default_auto_transcoding() -> (r: SourceConfiguration)
    ensures
        is_default_auto(r),
{
    SourceConfiguration::AutoTranscoding(
        AutoTranscodingConfig { encoder_properties: Vec::new(), decoder_properties: Vec::new() },
    )
}

/// What a video stream captures: the source's encoding, the encoding sent
/// to the sinks, the frame size and interval.
#[derive(Clone, Debug, PartialEq)]
pub struct VideoCaptureConfiguration {
    pub source_encode: VideoEncodeType,
    pub sink_encode: VideoEncodeType,
    pub height: u32,
    pub width: u32,
    pub frame_interval: FrameInterval,
    pub bit_depth: Option<u32>,
    pub source_configuration: SourceConfiguration,
    pub auto_restart_on_config_change: bool,
}

impl VideoEncodeType {
    pub fn duplicate(&self) -> (r: VideoEncodeType)
        ensures
            r == *self,
    {
        match self {
            VideoEncodeType::H264 => VideoEncodeType::H264,
            VideoEncodeType::H265 => VideoEncodeType::H265,
            VideoEncodeType::Mjpg => VideoEncodeType::Mjpg,
            VideoEncodeType::Nv12 => VideoEncodeType::Nv12,
            VideoEncodeType::Rgb => VideoEncodeType::Rgb,
            VideoEncodeType::Unknown(s) => VideoEncodeType::Unknown(s.clone()),
            VideoEncodeType::Yuyv => VideoEncodeType::Yuyv,
        }
    }
}

/// Why a capture configuration cannot be built.
#[derive(Clone, Copy, Debug, PartialEq, Eq, Structural)]
pub enum CaptureConfigError {
    /// Neither the source nor the sink encoding is given.
    MissingEncode,
}

/// `c` is what the stored fields read back as: a missing encoding takes the
/// other one; a missing source configuration is classic when the encodings
/// agree and auto transcoding otherwise.
pub open spec fn read_from_stored(
    source_encode: Option<VideoEncodeType>,
    sink_encode: Option<VideoEncodeType>,
    height: u32,
    width: u32,
    frame_interval: FrameInterval,
    bit_depth: Option<u32>,
    source_configuration: Option<SourceConfiguration>,
    auto_restart_on_config_change: bool,
    c: VideoCaptureConfiguration,
) -> bool {
    &&& c.source_encode == match source_encode {
        Some(e) => e,
        None => sink_encode->0,
    }
    &&& c.sink_encode == match sink_encode {
        Some(e) => e,
        None => source_encode->0,
    }
    &&& c.height == height && c.width == width && c.frame_interval == frame_interval
    &&& c.bit_depth == bit_depth
    &&& c.auto_restart_on_config_change == auto_restart_on_config_change
    &&& match source_configuration {
        Some(sc) => c.source_configuration == sc,
        None => if c.source_encode@ == c.sink_encode@ {
            c.source_configuration is Classic
        } else {
            is_default_auto(c.source_configuration)
        },
    }
}

impl VideoCaptureConfiguration {
    /// Takes the probed frame size and interval and encoding. When the source
    /// and sink encodings were the same, both follow the probe; otherwise only
    /// the source encoding does and the sink keeps its own.
    pub fn apply_probe_result(&mut self, probed: &Self)
        ensures
            final(self).source_encode == probed.source_encode,
            final(self).sink_encode == if old(self).source_encode@ == old(self).sink_encode@ {
                probed.sink_encode
            } else {
                old(self).sink_encode
            },
            final(self).height == probed.height,
            final(self).width == probed.width,
            final(self).frame_interval == probed.frame_interval,
            final(self).bit_depth == old(self).bit_depth,
            final(self).source_configuration == old(self).source_configuration,
            final(self).auto_restart_on_config_change == old(self).auto_restart_on_config_change,
    {
        if self.source_encode == self.sink_encode {
            self.source_encode = probed.source_encode.duplicate();
            self.sink_encode = probed.sink_encode.duplicate();
        } else {
            self.source_encode = probed.source_encode.duplicate();
        }
        self.height = probed.height;
        self.width = probed.width;
        self.frame_interval = probed.frame_interval;
    }

    /// A classic configuration whose source and sink encodings differ needs
    /// transcoding: it becomes an auto transcoding with empty property bags.
    pub fn normalize_source_configuration(&mut self)
        ensures
            if old(self).source_encode@ != old(self).sink_encode@ && old(self).source_configuration is Classic {
                is_default_auto(final(self).source_configuration)
            } else {
                final(self).source_configuration == old(self).source_configuration
            },
            final(self).source_encode == old(self).source_encode,
            final(self).sink_encode == old(self).sink_encode,
            final(self).height == old(self).height,
            final(self).width == old(self).width,
            final(self).frame_interval == old(self).frame_interval,
            final(self).bit_depth == old(self).bit_depth,
            final(self).auto_restart_on_config_change == old(self).auto_restart_on_config_change,
    {
        let classic = match &self.source_configuration {
            SourceConfiguration::Classic => true,
            _ => false,
        };
        if !(self.source_encode == self.sink_encode) && classic {
            self.source_configuration = default_auto_transcoding();
        }
    }

    /// A configuration from its stored fields. A missing encoding takes the
    /// other one; with neither it is an error. A missing source configuration
    /// is classic when the encodings agree and auto transcoding otherwise.
    pub fn from_stored_fields(
        source_encode: Option<VideoEncodeType>,
        sink_encode: Option<VideoEncodeType>,
        height: u32,
        width: u32,
        frame_interval: FrameInterval,
        bit_depth: Option<u32>,
        source_configuration: Option<SourceConfiguration>,
        auto_restart_on_config_change: bool,
    ) -> (r: Result<VideoCaptureConfiguration, CaptureConfigError>)
        ensures
            (source_encode is None && sink_encode is None) <==> r == Err::<
                VideoCaptureConfiguration,
                CaptureConfigError,
            >(CaptureConfigError::MissingEncode),
            (source_encode is Some || sink_encode is Some) ==> r is Ok,
            r matches Ok(c) ==> read_from_stored(
                source_encode,
                sink_encode,
                height,
                width,
                frame_interval,
                bit_depth,
                source_configuration,
                auto_restart_on_config_change,
                c,
            ),
    {
        let (source, sink) = match (source_encode, sink_encode) {
            (Some(source), Some(sink)) => (source, sink),
            (None, Some(sink)) => (sink.duplicate(), sink),
            (Some(source), None) => (source.duplicate(), source),
            (None, None) => return Err(CaptureConfigError::MissingEncode),
        };
        let configuration = match source_configuration {
            Some(c) => c,
            None => if source == sink {
                SourceConfiguration::Classic
            } else {
                default_auto_transcoding()
            },
        };
        Ok(
            VideoCaptureConfiguration {
                source_encode: source,
                sink_encode: sink,
                height,
                width,
                frame_interval,
                bit_depth,
                source_configuration: configuration,
                auto_restart_on_config_change,
            },
        )
    }
}

/// A redirect stream carries no capture settings.
#[derive(Clone, Copy, Debug, Default, PartialEq, Eq, Structural)]
pub struct RedirectCaptureConfiguration {}

#[derive(Clone, Debug, PartialEq)]
pub enum CaptureConfiguration {
    Video(VideoCaptureConfiguration),
    /// Only used to create a stream easily; always turned into `Video`.
    Redirect(RedirectCaptureConfiguration),
}

#[derive(Clone, Copy, Debug, Default, PartialEq, Eq, Structural)]
pub struct ExtendedConfiguration {
    pub thermal: bool,
    pub disable_mavlink: bool,
    pub disable_zenoh: bool,
    pub disable_thumbnails: bool,
    pub disable_lazy: bool,
    pub disable_recording: bool,
}

#[derive(Clone, Debug, PartialEq)]
pub struct StreamInformation {
    /// Where the stream is sent, as URLs.
    pub endpoints: Vec<String>,
    pub configuration: CaptureConfiguration,
    pub extended_configuration: Option<ExtendedConfiguration>,
}

#[derive(Clone, Copy, Debug, PartialEq, Eq, Structural)]
pub enum StreamStatusState {
    Running,
    Idle,
    Stopped,
}

/// The MAVLink identity a stream's camera component answers with.
#[derive(Clone, Copy, Debug, PartialEq, Eq, Structural)]
pub struct MavlinkComponent {
    pub system_id: u8,
    pub component_id: u8,
}

#[derive(Clone, Debug, PartialEq)]
pub struct VideoAndStreamInformation {
    pub name: String,
    pub stream_information: StreamInformation,
    pub video_source: VideoSourceType,
}

/// Why two streams cannot coexist.
#[derive(Clone, Copy, Debug, PartialEq, Eq, Structural)]
pub enum StreamConflict {
    /// Both streams have the same name.
    SameName,
    /// Both use the same source, which cannot be shared.
    SameSource,
    /// They send to a common endpoint.
    CommonEndpoint,
}

pub open spec fn share_endpoint(a: Seq<String>, b: Seq<String>) -> bool {
    exists|i: int, j: int| 0 <= i < a.len() && 0 <= j < b.len() && (#[trigger] a[i])@ == (#[trigger] b[j])@
}

/// The conflict between two streams, checked in this order: name, source,
/// endpoints.
pub open spec fn conflict_spec(a: VideoAndStreamInformation, b: VideoAndStreamInformation) -> Option<StreamConflict> {
    if a.name@ == b.name@ {
        Some(StreamConflict::SameName)
    } else if !a.video_source.spec_is_shareable() && a.video_source.spec_source_string()
        == b.video_source.spec_source_string() {
        Some(StreamConflict::SameSource)
    } else if share_endpoint(a.stream_information.endpoints@, b.stream_information.endpoints@) {
        Some(StreamConflict::CommonEndpoint)
    } else {
        None
    }
}

impl VideoAndStreamInformation {
    pub fn conflicts_with(&self, other: &VideoAndStreamInformation) -> (r: Result<(), StreamConflict>)
        ensures
            match conflict_spec(*self, *other) {
                Some(c) => r == Err::<(), StreamConflict>(c),
                None => r is Ok,
            },
    {
        if str_eq(self.name.as_str(), other.name.as_str()) {
            return Err(StreamConflict::SameName);
        }
        if !self.video_source.is_shareable() && str_eq(
            self.video_source.source_string(),
            other.video_source.source_string(),
        ) {
            return Err(StreamConflict::SameSource);
        }
        let ours = &self.stream_information.endpoints;
        let theirs = &other.stream_information.endpoints;
        let mut i: usize = 0;
        while i < ours.len()
            invariant
                conflict_spec(*self, *other) != Some(StreamConflict::SameName),
                conflict_spec(*self, *other) != Some(StreamConflict::SameSource),
                ours == &self.stream_information.endpoints,
                theirs == &other.stream_information.endpoints,
                i <= ours@.len(),
                forall|a: int, b: int| 0 <= a < i && 0 <= b < theirs@.len() ==> (#[trigger] ours@[a])@ != (
                #[trigger] theirs@[b])@,
            decreases ours@.len() - i,
        {
            let mut j: usize = 0;
            while j < theirs.len()
                invariant
                    conflict_spec(*self, *other) != Some(StreamConflict::SameName),
                    conflict_spec(*self, *other) != Some(StreamConflict::SameSource),
                    ours == &self.stream_information.endpoints,
                    theirs == &other.stream_information.endpoints,
                    i < ours@.len(),
                    j <= theirs@.len(),
                    forall|a: int, b: int| 0 <= a < i && 0 <= b < theirs@.len() ==> (#[trigger] ours@[a])@ != (
                    #[trigger] theirs@[b])@,
                    forall|b: int| 0 <= b < j ==> ours@[i as int]@ != (#[trigger] theirs@[b])@,
                decreases theirs@.len() - j,
            {
                if str_eq(ours[i].as_str(), theirs[j].as_str()) {
                    assert(share_endpoint(ours@, theirs@));
                    return Err(StreamConflict::CommonEndpoint);
                }
                j = j + 1;
            }
            i = i + 1;
        }
        Ok(())
    }
}


/// The streams of `s` whose video source is valid, in order.
pub open spec fn valid_streams_spec(s: Seq<VideoAndStreamInformation>) -> Seq<VideoAndStreamInformation>
    decreases s.len(),
{
    if s.len() == 0 {
        Seq::empty()
    } else if s.last().video_source.spec_is_valid() {
        valid_streams_spec(s.drop_last()).push(s.last())
    } else {
        valid_streams_spec(s.drop_last())
    }
}

/// The streams to start: those whose video source is valid, in order.
pub fn keep_valid_streams(streams: Vec<VideoAndStreamInformation>) -> (r: Vec<VideoAndStreamInformation>)
    ensures
        r@ == valid_streams_spec(streams@),
{
    let ghost original = streams@;
    let mut rest = streams;
    let mut kept: Vec<VideoAndStreamInformation> = Vec::new();
    let ghost mut done: int = 0;
    while rest.len() > 0
        invariant
            0 <= done <= original.len(),
            rest@ == original.skip(done),
            kept@ == valid_streams_spec(original.take(done)),
        decreases rest@.len(),
    {
        let stream = rest.remove(0);
        proof {
            assert(stream == original[done]);
            assert(rest@ =~= original.skip(done + 1));
            assert(original.take(done + 1).drop_last() =~= original.take(done));
            assert(original.take(done + 1).last() == stream);
        }
        if stream.video_source.is_valid() {
            kept.push(stream);
        }
        proof {
            done = done + 1;
        }
    }
    proof {
        assert(original.take(done) =~= original);
    }
    kept
}


/// Which optional fields a stored capture configuration carries.
#[derive(Clone, Copy, Debug, PartialEq, Eq, Structural)]
pub struct StoredFields {
    /// The source encoding, stored only when it differs from the sink's.
    pub source_encode: bool,
    pub bit_depth: bool,
    /// The source configuration, stored only when it is not classic.
    pub source_configuration: bool,
    /// The restart flag, stored only when set.
    pub auto_restart_on_config_change: bool,
}

impl VideoCaptureConfiguration {
    /// The optional fields the stored form of this configuration carries:
    /// what equals its default when read back is left out.
    pub fn stored_fields(&self) -> (r: StoredFields)
        ensures
            r == (StoredFields {
                source_encode: self.source_encode@ != self.sink_encode@,
                bit_depth: self.bit_depth is Some,
                source_configuration: !(self.source_configuration is Classic),
                auto_restart_on_config_change: self.auto_restart_on_config_change,
            }),
    {
        StoredFields {
            source_encode: !(self.source_encode == self.sink_encode),
            bit_depth: self.bit_depth.is_some(),
            source_configuration: match self.source_configuration {
                SourceConfiguration::Classic => false,
                _ => true,
            },
            auto_restart_on_config_change: self.auto_restart_on_config_change,
        }
    }
}


/// A configuration written with the fields `stored_fields` keeps reads back
/// as itself (its encodings by value), except a classic configuration whose
/// encodings differ, which reads back as auto transcoding.
pub proof fn law_stored_configuration_reads_back(c: VideoCaptureConfiguration, r: VideoCaptureConfiguration)
    requires
        !(c.source_encode@ != c.sink_encode@ && c.source_configuration is Classic),
        read_from_stored(
            if c.source_encode@ != c.sink_encode@ {
                Some(c.source_encode)
            } else {
                None
            },
            Some(c.sink_encode),
            c.height,
            c.width,
            c.frame_interval,
            c.bit_depth,
            if !(c.source_configuration is Classic) {
                Some(c.source_configuration)
            } else {
                None
            },
            c.auto_restart_on_config_change,
            r,
        ),
    ensures
        r.source_encode@ == c.source_encode@,
        r.sink_encode == c.sink_encode,
        r.height == c.height && r.width == c.width && r.frame_interval == c.frame_interval,
        r.bit_depth == c.bit_depth,
        r.source_configuration == c.source_configuration,
        r.auto_restart_on_config_change == c.auto_restart_on_config_change,
{
}


/// Two streams conflict exactly when they share a name, or the first uses
/// a source that cannot be shared and both name the same source, or they
/// send to a common endpoint; the name is checked first, then the source.
/// A shareable source never makes a source conflict.
pub proof fn law_stream_conflicts(a: VideoAndStreamInformation, b: VideoAndStreamInformation)
    ensures
        a.name@ == b.name@ ==> conflict_spec(a, b) == Some(StreamConflict::SameName),
        a.name@ != b.name@ && !a.video_source.spec_is_shareable() && a.video_source.spec_source_string()
            == b.video_source.spec_source_string() ==> conflict_spec(a, b) == Some(StreamConflict::SameSource),
        a.video_source.spec_is_shareable() ==> conflict_spec(a, b) != Some(StreamConflict::SameSource),
        a.video_source.spec_source_string() != b.video_source.spec_source_string() ==> conflict_spec(a, b)
            != Some(StreamConflict::SameSource),
        conflict_spec(a, b) == Some(StreamConflict::CommonEndpoint) ==> exists|i: int, j: int|
            0 <= i < a.stream_information.endpoints@.len() && 0 <= j < b.stream_information.endpoints@.len()
                && (#[trigger] a.stream_information.endpoints@[i])@ == (#[trigger] b.stream_information.endpoints@[j])@,
        conflict_spec(a, b) is None <==> {
            &&& a.name@ != b.name@
            &&& !(!a.video_source.spec_is_shareable() && a.video_source.spec_source_string()
                == b.video_source.spec_source_string())
            &&& forall|i: int, j: int|
                0 <= i < a.stream_information.endpoints@.len() && 0 <= j < b.stream_information.endpoints@.len()
                    ==> (#[trigger] a.stream_information.endpoints@[i])@ != (
                #[trigger] b.stream_information.endpoints@[j])@
        },
{
}

proof fn lemma_valid_streams_from(s: Seq<VideoAndStreamInformation>)
    ensures
        forall|k: int|
            0 <= k < valid_streams_spec(s).len() ==> (#[trigger] valid_streams_spec(s)[k]).video_source.spec_is_valid()
                && s.contains(valid_streams_spec(s)[k]),
        forall|i: int| 0 <= i < s.len() && (#[trigger] s[i]).video_source.spec_is_valid() ==> valid_streams_spec(
            s,
        ).contains(s[i]),
        valid_streams_spec(s).len() <= s.len(),
    decreases s.len(),
{
    if s.len() > 0 {
        let rest = s.drop_last();
        lemma_valid_streams_from(rest);
        let r = valid_streams_spec(s);
        let r0 = valid_streams_spec(rest);
        assert forall|k: int| 0 <= k < r.len() implies (#[trigger] r[k]).video_source.spec_is_valid() && s.contains(
            r[k],
        ) by {
            if k < r0.len() {
                assert(r[k] == r0[k]);
                let m = choose|m: int| 0 <= m < rest.len() && rest[m] == r0[k];
                assert(s[m] == rest[m]);
            } else {
                assert(r[k] == s[s.len() - 1]);
            }
        }
        assert forall|i: int| 0 <= i < s.len() && (#[trigger] s[i]).video_source.spec_is_valid() implies r.contains(
            s[i],
        ) by {
            if i < rest.len() {
                assert(rest[i] == s[i]);
                assert(r0.contains(rest[i]));
                let m = choose|m: int| 0 <= m < r0.len() && r0[m] == rest[i];
                assert(r[m] == r0[m]);
            } else {
                assert(r[r.len() - 1] == s[i]);
            }
        }
    }
}

/// The streams kept for starting are exactly those with a valid source:
/// every stream whose source is valid is kept, every kept stream has a
/// valid source and is one of the streams given, and a list of valid
/// streams is kept whole, in its order.
pub proof fn law_valid_streams_kept(s: Seq<VideoAndStreamInformation>)
    ensures
        forall|i: int| 0 <= i < s.len() && (#[trigger] s[i]).video_source.spec_is_valid() ==> valid_streams_spec(
            s,
        ).contains(s[i]),
        forall|k: int|
            0 <= k < valid_streams_spec(s).len() ==> (#[trigger] valid_streams_spec(s)[k]).video_source.spec_is_valid()
                && s.contains(valid_streams_spec(s)[k]),
        (forall|i: int| 0 <= i < s.len() ==> (#[trigger] s[i]).video_source.spec_is_valid()) ==> valid_streams_spec(s)
            == s,
    decreases s.len(),
{
    lemma_valid_streams_from(s);
    if s.len() > 0 && forall|i: int| 0 <= i < s.len() ==> (#[trigger] s[i]).video_source.spec_is_valid() {
        let rest = s.drop_last();
        assert forall|i: int| 0 <= i < rest.len() implies (#[trigger] rest[i]).video_source.spec_is_valid() by {
            assert(rest[i] == s[i]);
        }
        law_valid_streams_kept(rest);
        assert(s.last() == s[s.len() - 1]);
        assert(rest.push(s.last()) =~= s);
    }
}


/// A local camera serves one stream: two streams of different names on
/// the same device conflict as sharing a source, while two streams on the
/// same ONVIF or redirect source do not conflict over it.
pub proof fn law_local_camera_serves_one_stream(a: VideoAndStreamInformation, b: VideoAndStreamInformation)
    ensures
        a.name@ != b.name@ && a.video_source is Local && b.video_source is Local
            && a.video_source->Local_0.device_path@ == b.video_source->Local_0.device_path@ ==> conflict_spec(a, b)
            == Some(StreamConflict::SameSource),
        !(a.video_source is Local) ==> conflict_spec(a, b) != Some(StreamConflict::SameSource),
{
}

/// At startup a local camera stream is started exactly when its device
/// path is not empty; ONVIF and redirect streams are always started.
pub proof fn law_startup_keeps_cameras_with_a_device(s: Seq<VideoAndStreamInformation>)
    ensures
        forall|i: int|
            0 <= i < s.len() && (#[trigger] s[i]).video_source is Local ==> (valid_streams_spec(s).contains(s[i])
                <==> s[i].video_source->Local_0.device_path@.len() > 0),
        forall|i: int|
            0 <= i < s.len() && !((#[trigger] s[i]).video_source is Local) ==> valid_streams_spec(s).contains(s[i]),
{
    lemma_valid_streams_from(s);
    let r = valid_streams_spec(s);
    assert forall|i: int| 0 <= i < s.len() && (#[trigger] s[i]).video_source is Local implies (r.contains(s[i])
        <==> s[i].video_source->Local_0.device_path@.len() > 0) by {
        if r.contains(s[i]) {
            let k = choose|k: int| 0 <= k < r.len() && r[k] == s[i];
            assert(r[k].video_source.spec_is_valid());
        }
    }
}

} // verus!
