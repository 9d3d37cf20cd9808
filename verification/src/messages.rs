//! Messages published for visualisation tools (timestamps, compressed video
//! frames, logs), and the HTTP API's request bodies and error kinds.
use vstd::prelude::*;
use crate::controls::Control;
use crate::stream_types::StreamInformation;
use crate::text::{chars_of, range_eq};
use crate::video_types::Format;

verus! {

#[verifier::external_type_specification]
#[verifier::external_body]
pub struct ExSystemTime(std::time::SystemTime);

/// The system clock's current reading, from `SystemTime::now`. Nothing is
/// claimed of it: it is the clock's.
#[verifier::external_body]
fn system_time_now() -> (r: std::time::SystemTime) {
    std::time::SystemTime::now()
}

/// The time elapsed from the Unix epoch to `t`, from
/// `SystemTime::duration_since(UNIX_EPOCH)`, as whole seconds and the
/// nanoseconds past them; `None` when `t` is before the epoch. The contract
/// claims only what `Duration::subsec_nanos` documents: the nanoseconds are
/// under one second.
#[verifier::external_body]
fn since_unix_epoch(t: std::time::SystemTime) -> (r: Option<(u64, u32)>)
    ensures
        r matches Some((_, nanoseconds)) ==> nanoseconds < 1_000_000_000,
{
    match t.duration_since(std::time::UNIX_EPOCH) {
        Ok(elapsed) => Some((elapsed.as_secs(), elapsed.subsec_nanos())),
        Err(_) => None,
    }
}

/// A time as an offset from an epoch.
#[derive(Clone, Copy, Debug, PartialEq, Eq, Structural)]
pub struct Timestamp {
    sec: u32,
    nsec: u32,
}

impl Timestamp {
    pub closed spec fn spec_sec(&self) -> u32 {
        self.sec
    }

    pub closed spec fn spec_nsec(&self) -> u32 {
        self.nsec
    }

    pub fn new(sec: u32, nsec: u32) -> (r: Timestamp)
        ensures
            r.spec_sec() == sec,
            r.spec_nsec() == nsec,
    {
        Timestamp { sec, nsec }
    }

    /// The timestamp of a Unix time: the seconds are kept modulo 2^32.
    pub fn from_unix(seconds: i64, nanoseconds: u32) -> (r: Timestamp)
        ensures
            r.spec_sec() == seconds as u32,
            r.spec_nsec() == nanoseconds,
    {
        Timestamp { sec: seconds as u32, nsec: nanoseconds }
    }

    /// The timestamp of a time `seconds` and `nanoseconds` after the Unix
    /// epoch: the seconds are kept modulo 2^32.
    pub fn from_epoch_offset(seconds: u64, nanoseconds: u32) -> (r: Timestamp)
        ensures
            r.spec_sec() == seconds as u32,
            r.spec_nsec() == nanoseconds,
    {
        Timestamp { sec: seconds as u32, nsec: nanoseconds }
    }

    /// The current UTC time: the clock's Unix seconds modulo 2^32 and the
    /// nanoseconds past them; `None` when the system clock reads before the
    /// Unix epoch.
    pub fn now() -> (r: Option<Timestamp>)
        ensures
            r matches Some(t) ==> t.spec_nsec() < 1_000_000_000,
    {
        match since_unix_epoch(system_time_now()) {
            Some((seconds, nanoseconds)) => Some(Timestamp::from_epoch_offset(seconds, nanoseconds)),
            None => None,
        }
    }

    pub fn sec(&self) -> (r: u32)
        ensures
            r == self.spec_sec(),
    {
        self.sec
    }

    pub fn nsec(&self) -> (r: u32)
        ensures
            r == self.spec_nsec(),
    {
        self.nsec
    }
}

/// One frame of a compressed video bitstream (`h264`, `h265`, `vp9` or
/// `av1`), holding exactly what decodes one image.
#[derive(Clone, Debug)]
pub struct CompressedVideo {
    pub timestamp: Timestamp,
    pub frame_id: String,
    pub data: Vec<u8>,
    pub format: String,
}

#[derive(Clone, Copy, Debug, PartialEq, Eq, Structural, Hash, PartialOrd, Ord)]
pub enum Level {
    Unknown,
    Debug,
    Info,
    Warning,
    Error,
    Fatal,
}

impl Level {
    /// The level's number in the log schema.
    pub fn value(&self) -> (r: i32)
        ensures
            r == match self {
                Level::Unknown => 0i32,
                Level::Debug => 1,
                Level::Info => 2,
                Level::Warning => 3,
                Level::Error => 4,
                Level::Fatal => 5,
            },
    {
        match self {
            Level::Unknown => 0,
            Level::Debug => 1,
            Level::Info => 2,
            Level::Warning => 3,
            Level::Error => 4,
            Level::Fatal => 5,
        }
    }
}

/// A log message.
#[derive(Clone, Debug)]
pub struct Log {
    pub timestamp: Timestamp,
    pub level: Level,
    pub message: String,
    pub name: String,
    pub file: String,
    pub line: u32,
}

/// Errors of the HTTP API.
#[derive(Clone, Debug)]
pub enum Error {
    BadRequest(String),
    NotFound(String),
    Internal(String),
    Unavailable(String),
}

impl Error {
    /// The HTTP status code of the error.
    pub fn status_code(&self) -> (r: u16)
        ensures
            r == match self {
                Error::BadRequest(_) => 400u16,
                Error::NotFound(_) => 404,
                Error::Internal(_) => 500,
                Error::Unavailable(_) => 503,
            },
    {
        match self {
            Error::BadRequest(_) => 400,
            Error::NotFound(_) => 404,
            Error::Internal(_) => 500,
            Error::Unavailable(_) => 503,
        }
    }
}

/// A video source as the API lists it.
#[derive(Debug)]
pub struct ApiVideoSource {
    pub name: String,
    pub source: String,
    pub formats: Vec<Format>,
    pub controls: Vec<Control>,
}

/// A control value to set on a device.
#[derive(Clone, Debug)]
pub struct V4lControl {
    pub device: String,
    pub v4l_id: u64,
    pub value: i64,
}

/// A stream to create.
#[derive(Debug)]
pub struct PostStream {
    pub name: String,
    pub source: String,
    pub stream_information: StreamInformation,
}

#[derive(Clone, Debug)]
pub struct RemoveStream {
    pub name: String,
}

#[derive(Clone, Copy, Debug)]
pub struct ResetSettings {
    pub all: Option<bool>,
}

#[derive(Clone, Debug)]
pub struct ResetCameraControls {
    pub device: String,
}

#[derive(Clone, Debug)]
pub struct XmlFileRequest {
    pub file: String,
}

#[derive(Clone, Debug)]
pub struct SdpFileRequest {
    pub source: String,
}

/// `s` without every leading repetition of `prefix`, as
/// `str::trim_start_matches` removes them.
pub open spec fn trim_start_matches_spec(s: Seq<char>, prefix: Seq<char>) -> Seq<char>
    decreases s.len(),
{
    if prefix.len() > 0 && s.len() >= prefix.len() && s.take(prefix.len() as int) == prefix {
        trim_start_matches_spec(s.skip(prefix.len() as int), prefix)
    } else {
        s
    }
}

/// The path of a web client file inside the embedded web client: the
/// request path without its leading `webrtc/` parts.
pub fn webrtc_relative_path(filename: &str) -> (r: Vec<char>)
    ensures
        r@ == trim_start_matches_spec(filename@, "webrtc/"@),
{
    let s = chars_of(filename);
    let prefix = chars_of("webrtc/");
    let n = prefix.len();
    let mut start: usize = 0;
    assert(s@.skip(0) =~= s@);
    while n > 0 && s.len() - start >= n && range_eq(&s, start, start + n, &prefix)
        invariant
            start <= s@.len(),
            n == prefix@.len(),
            prefix@ == "webrtc/"@,
            trim_start_matches_spec(s@, prefix@) == trim_start_matches_spec(s@.skip(start as int), prefix@),
        decreases s@.len() - start,
    {
        proof {
            assert(s@.skip(start as int).take(n as int) =~= s@.subrange(start as int, start + n));
            assert(s@.skip(start as int).skip(n as int) =~= s@.skip(start + n));
        }
        start = start + n;
    }
    proof {
        if n > 0 && s@.len() - start >= n {
            assert(s@.skip(start as int).take(n as int) =~= s@.subrange(start as int, start + n));
        }
    }
    let mut out: Vec<char> = Vec::new();
    let mut i: usize = start;
    while i < s.len()
        invariant
            start <= i <= s@.len(),
            out@ == s@.subrange(start as int, i as int),
        decreases s@.len() - i,
    {
        out.push(s[i]);
        proof {
            assert(s@.subrange(start as int, i + 1) =~= s@.subrange(start as int, i as int).push(s@[i as int]));
        }
        i = i + 1;
    }
    assert(s@.skip(start as int) =~= s@.subrange(start as int, s@.len() as int));
    out
}

} // verus!
