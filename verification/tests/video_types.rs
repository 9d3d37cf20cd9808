use mavlink_camera_manager::stream_types::{
    AutoTranscodingConfig, CaptureConfigError, ManualTranscodingConfig, PropertyValue,
    SourceConfiguration, VideoCaptureConfiguration,
};
use mavlink_camera_manager::video_types::{FrameInterval, VideoEncodeType};

#[test]
fn from_str_maps_isp_aliases() {
    assert_eq!(VideoEncodeType::from_str("NV12"), VideoEncodeType::Nv12);
    assert_eq!(VideoEncodeType::from_str("YUY2"), VideoEncodeType::Yuyv);
    assert_eq!(VideoEncodeType::from_str("BGR888"), VideoEncodeType::Rgb);
    assert_eq!(VideoEncodeType::from_str("RGB"), VideoEncodeType::Rgb);
    assert_eq!(VideoEncodeType::from_str("XBGR8888"), VideoEncodeType::Rgb);
    assert!(matches!(
        VideoEncodeType::from_str("SRGGB10_CSI2P"),
        VideoEncodeType::Unknown(_)
    ));
}

#[test]
fn normalize_upgrades_classic_mismatched_encodes_to_auto_transcoding() {
    let mut configuration = VideoCaptureConfiguration {
        source_encode: VideoEncodeType::Nv12,
        sink_encode: VideoEncodeType::H264,
        height: 720,
        width: 1280,
        frame_interval: FrameInterval {
            numerator: 1,
            denominator: 30,
        },
        bit_depth: None,
        source_configuration: SourceConfiguration::Classic,
        auto_restart_on_config_change: false,
    };

    configuration.normalize_source_configuration();

    assert_eq!(
        configuration.source_configuration,
        SourceConfiguration::AutoTranscoding(AutoTranscodingConfig {
            encoder_properties: Vec::new(),
            decoder_properties: Vec::new(),
        })
    );
}

#[test]
fn from_str_reads_fourccs_in_any_case() {
    assert_eq!(VideoEncodeType::from_str("nv12"), VideoEncodeType::Nv12);
    assert_eq!(VideoEncodeType::from_str("hevc"), VideoEncodeType::H265);
    assert_eq!(
        VideoEncodeType::from_str("grey"),
        VideoEncodeType::Unknown("GREY".to_string())
    );
}

fn thirty_fps() -> FrameInterval {
    FrameInterval {
        numerator: 1,
        denominator: 30,
    }
}

/// A configuration read back from stored fields of a 1280x720, 30 fps
/// stream.
fn read_back(
    source_encode: Option<VideoEncodeType>,
    encode: Option<VideoEncodeType>,
    source_configuration: Option<SourceConfiguration>,
) -> Result<VideoCaptureConfiguration, CaptureConfigError> {
    VideoCaptureConfiguration::from_stored_fields(
        source_encode,
        encode,
        720,
        1280,
        thirty_fps(),
        None,
        source_configuration,
        false,
    )
}

#[test]
fn legacy_json_encode_only_deserializes_as_classic_h264() {
    let configuration = read_back(None, Some(VideoEncodeType::H264), None)
        .expect("legacy fields should read back");
    assert_eq!(configuration.source_encode, VideoEncodeType::H264);
    assert_eq!(configuration.sink_encode, VideoEncodeType::H264);
    assert_eq!(configuration.source_configuration, SourceConfiguration::Classic);
    let stored = configuration.stored_fields();
    assert!(!stored.source_encode);
    assert!(!stored.source_configuration);
}

#[test]
fn legacy_raw_encode_nv12_deserializes_as_classic() {
    let configuration = read_back(None, Some(VideoEncodeType::Nv12), None)
        .expect("legacy NV12 fields should read back");
    assert_eq!(configuration.source_encode, VideoEncodeType::Nv12);
    assert_eq!(configuration.sink_encode, VideoEncodeType::Nv12);
    assert_eq!(configuration.source_configuration, SourceConfiguration::Classic);
}

#[test]
fn transcoding_json_without_source_configuration_deserializes_to_auto_transcoding() {
    let configuration = read_back(Some(VideoEncodeType::Nv12), Some(VideoEncodeType::H264), None)
        .expect("transcoding fields should read back");
    assert_eq!(configuration.source_encode, VideoEncodeType::Nv12);
    assert_eq!(configuration.sink_encode, VideoEncodeType::H264);
    assert_eq!(
        configuration.source_configuration,
        SourceConfiguration::AutoTranscoding(AutoTranscodingConfig {
            encoder_properties: Vec::new(),
            decoder_properties: Vec::new(),
        })
    );
    let stored = configuration.stored_fields();
    assert!(stored.source_encode);
    assert!(stored.source_configuration);
}

#[test]
fn explicit_manual_transcoding_still_deserializes() {
    let manual = SourceConfiguration::ManualTranscoding(ManualTranscodingConfig {
        encoder: "x264enc".to_string(),
        encoder_properties: Vec::new(),
        decoder: "nv12decoder".to_string(),
        decoder_properties: Vec::new(),
    });
    let configuration = read_back(
        Some(VideoEncodeType::Nv12),
        Some(VideoEncodeType::H264),
        Some(manual.clone()),
    )
    .expect("explicit manual fields should read back");
    assert_eq!(configuration.source_configuration, manual);
}

#[test]
fn explicit_classic_with_mismatched_encodes_still_deserializes() {
    let configuration = read_back(
        Some(VideoEncodeType::Nv12),
        Some(VideoEncodeType::H264),
        Some(SourceConfiguration::Classic),
    )
    .expect("explicit classic with mismatched encodes should read back");
    assert_eq!(configuration.source_encode, VideoEncodeType::Nv12);
    assert_eq!(configuration.sink_encode, VideoEncodeType::H264);
    assert_eq!(configuration.source_configuration, SourceConfiguration::Classic);
}

#[test]
fn auto_restart_on_config_change_skipped_when_false() {
    let configuration = VideoCaptureConfiguration {
        source_encode: VideoEncodeType::H264,
        sink_encode: VideoEncodeType::H264,
        height: 720,
        width: 1280,
        frame_interval: thirty_fps(),
        bit_depth: None,
        source_configuration: SourceConfiguration::Classic,
        auto_restart_on_config_change: false,
    };
    assert!(!configuration.stored_fields().auto_restart_on_config_change);
    let configuration = VideoCaptureConfiguration {
        auto_restart_on_config_change: true,
        ..configuration
    };
    assert!(configuration.stored_fields().auto_restart_on_config_change);
}

#[test]
fn auto_transcoding_config_roundtrips_codec_properties() {
    let auto = SourceConfiguration::AutoTranscoding(AutoTranscodingConfig {
        encoder_properties: vec![("bitrate".to_string(), PropertyValue::Integer(4000))],
        decoder_properties: Vec::new(),
    });
    let configuration = read_back(Some(VideoEncodeType::Nv12), Some(VideoEncodeType::H264), Some(auto))
        .expect("auto transcoding fields with properties should read back");
    let SourceConfiguration::AutoTranscoding(auto_config) = &configuration.source_configuration else {
        panic!("expected auto transcoding");
    };
    assert_eq!(
        auto_config.encoder_properties,
        vec![("bitrate".to_string(), PropertyValue::Integer(4000))]
    );
    assert!(configuration.stored_fields().source_configuration);
}

#[test]
fn missing_encode_and_source_encode_errors() {
    assert_eq!(read_back(None, None, None), Err(CaptureConfigError::MissingEncode));
}
