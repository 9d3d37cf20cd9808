//! The settings file of the command-line camera manager: a header, the
//! MAVLink endpoint and the videos to stream.
use vstd::prelude::*;

verus! {

#[derive(Clone, Debug)]
pub struct HeaderSettingsFile {
    pub name: String,
    pub version: u32,
}

/// One video to stream: its device, and optionally a pipeline and an endpoint.
#[derive(Clone, Debug)]
pub struct VideoConfiguration {
    pub device: String,
    pub pipeline: Option<String>,
    pub endpoint: Option<String>,
}

/// The settings: header, MAVLink endpoint and videos.
#[derive(Clone, Debug)]
pub struct SettingsStruct {
    pub header: HeaderSettingsFile,
    pub mavlink_endpoint: String,
    pub videos_configuration: Vec<VideoConfiguration>,
}

impl SettingsStruct {
    pub fn default() -> (r: SettingsStruct)
        ensures
            r.header.name@ == "Camera Manager"@,
            r.header.version == 0,
            r.mavlink_endpoint@ == "udpout:0.0.0.0:14550"@,
            r.videos_configuration@.len() == 0,
    {
        SettingsStruct {
            header: HeaderSettingsFile { name: "Camera Manager".to_owned(), version: 0 },
            mavlink_endpoint: "udpout:0.0.0.0:14550".to_owned(),
            videos_configuration: Vec::new(),
        }
    }
}

} // verus!
