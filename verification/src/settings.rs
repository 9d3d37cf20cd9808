//! The persisted settings: the file header, the MAVLink endpoint and the
//! configured streams, and the manager that holds them once loaded. Reading
//! and writing the file is left to the caller.
use vstd::prelude::*;
use crate::sources::{VideoSourceLocal, VideoSourceLocalType, VideoSourceType};
use crate::stream_types::{
    CaptureConfiguration, SourceConfiguration, StreamInformation, VideoAndStreamInformation,
    VideoCaptureConfiguration,
};
use crate::video_types::{FrameInterval, VideoEncodeType};

verus! {

#[derive(Clone, Debug)]
pub struct HeaderSettingsFile {
    pub name: String,
    pub version: u32,
}

impl HeaderSettingsFile {
    pub fn duplicate(&self) -> (r: HeaderSettingsFile)
        ensures
            r == *self,
    {
        HeaderSettingsFile { name: self.name.clone(), version: self.version }
    }
}

#[derive(Debug)]
pub struct SettingsStruct {
    pub header: HeaderSettingsFile,
    pub mavlink_endpoint: String,
    pub streams: Vec<VideoAndStreamInformation>,
}

pub open spec fn is_default_settings(s: SettingsStruct) -> bool {
    &&& s.header.name@ == "Camera Manager"@
    &&& s.header.version == 0
    &&& s.mavlink_endpoint@ == "udpout:0.0.0.0:14550"@
    &&& s.streams@.len() == 1
    &&& s.streams@[0].name@ == "Test"@
    &&& s.streams@[0].stream_information.endpoints@.len() == 1
    &&& s.streams@[0].stream_information.endpoints@[0]@ == "udp://0.0.0.0:5601"@
}

impl SettingsStruct {
    /// The settings of a fresh install: one H264 test stream of the default
    /// camera, sent to `udp://0.0.0.0:5601`.
    pub fn default() -> (r: SettingsStruct)
        ensures
            is_default_settings(r),
    {
        let mut endpoints: Vec<String> = Vec::new();
        endpoints.push("udp://0.0.0.0:5601".to_owned());
        let configuration = CaptureConfiguration::Video(
            VideoCaptureConfiguration {
                source_encode: VideoEncodeType::H264,
                sink_encode: VideoEncodeType::H264,
                height: 720,
                width: 1080,
                frame_interval: FrameInterval { numerator: 1, denominator: 30 },
                bit_depth: None,
                source_configuration: SourceConfiguration::Classic,
                auto_restart_on_config_change: false,
            },
        );
        let stream = VideoAndStreamInformation {
            name: "Test".to_owned(),
            stream_information: StreamInformation {
                endpoints,
                configuration,
                extended_configuration: None,
            },
            video_source: VideoSourceType::Local(
                VideoSourceLocal {
                    name: "Camera Manager Default Camera".to_owned(),
                    device_path: "/dev/video0".to_owned(),
                    typ: VideoSourceLocalType::Usb("usb-0000:08:00.3-1".to_owned()),
                },
            ),
        };
        let mut streams: Vec<VideoAndStreamInformation> = Vec::new();
        streams.push(stream);
        SettingsStruct {
            header: HeaderSettingsFile { name: "Camera Manager".to_owned(), version: 0 },
            mavlink_endpoint: "udpout:0.0.0.0:14550".to_owned(),
            streams,
        }
    }
}

/// The loaded settings and the file they live in.
#[derive(Debug)]
pub struct ManagerStruct {
    pub file_name: String,
    pub config: SettingsStruct,
}

/// Holds the settings once loaded.
pub struct SettingsManager {
    pub content: Option<ManagerStruct>,
}

impl SettingsManager {
    /// A manager with nothing loaded.
    pub fn new() -> (r: SettingsManager)
        ensures
            r.content is None,
    {
        SettingsManager { content: None }
    }

    /// Holds the settings of `file_name`: those read from it, or the default
    /// settings when the file could not be read or parsed (`loaded` is `None`).
    pub fn init(&mut self, file_name: String, loaded: Option<SettingsStruct>)
        ensures
            final(self).content matches Some(c) && c.file_name == file_name && match loaded {
                Some(l) => c.config == l,
                None => is_default_settings(c.config),
            },
    {
        let config = match loaded {
            Some(settings) => settings,
            None => SettingsStruct::default(),
        };
        self.content = Some(ManagerStruct { file_name, config });
    }

    pub fn header(&self) -> (r: HeaderSettingsFile)
        requires
            self.content is Some,
        ensures
            r == self.content->0.config.header,
    {
        match &self.content {
            Some(content) => content.config.header.duplicate(),
            None => HeaderSettingsFile { name: String::new(), version: 0 },
        }
    }

    pub fn mavlink_endpoint(&self) -> (r: String)
        requires
            self.content is Some,
        ensures
            r == self.content->0.config.mavlink_endpoint,
    {
        match &self.content {
            Some(content) => content.config.mavlink_endpoint.clone(),
            None => String::new(),
        }
    }

    pub fn set_mavlink_endpoint(&mut self, endpoint: &str)
        requires
            old(self).content is Some,
        ensures
            final(self).content matches Some(c) && c.config.mavlink_endpoint@ == endpoint@
                && c.file_name == old(self).content->0.file_name && c.config.header == old(
                self,
            ).content->0.config.header && c.config.streams == old(self).content->0.config.streams,
    {
        match &mut self.content {
            Some(content) => {
                content.config.mavlink_endpoint = endpoint.to_owned();
            },
            None => {},
        }
    }

    pub fn streams(&self) -> (r: &Vec<VideoAndStreamInformation>)
        requires
            self.content is Some,
        ensures
            r == &self.content->0.config.streams,
    {
        match &self.content {
            Some(content) => &content.config.streams,
            None => {
                proof {
                    assert(false);
                }
                &self.content.as_ref().unwrap().config.streams
            },
        }
    }

    /// Replaces the configured streams with `streams`, leaving it empty.
    pub fn set_streams(&mut self, streams: &mut Vec<VideoAndStreamInformation>)
        requires
            old(self).content is Some,
        ensures
            final(self).content matches Some(c) && c.config.streams@ == old(streams)@
                && c.file_name == old(self).content->0.file_name && c.config.header == old(
                self,
            ).content->0.config.header && c.config.mavlink_endpoint == old(
                self,
            ).content->0.config.mavlink_endpoint,
            final(streams)@.len() == 0,
    {
        match &mut self.content {
            Some(content) => {
                content.config.streams.clear();
                content.config.streams.append(streams);
            },
            None => {},
        }
    }
}

} // verus!
