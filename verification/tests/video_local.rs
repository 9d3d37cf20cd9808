use mavlink_camera_manager::caps::{
    interval_from_fraction, libcamera_max_frame_interval_for_size, libcamera_pixel_array_size,
    keep_native_mode_frame_intervals, Caps, CapsField, CapsStructure, CapsValue, Fraction,
};
use mavlink_camera_manager::libcamera_modes::{
    bit_depth_from_fourcc, env_flag_enabled, frame_interval_from_nanoseconds,
    interval_is_from_buffer_duration, is_unclamped_fps_probe_interval, probe_buffer_interval,
    replaces_captured_filter,
};
use mavlink_camera_manager::sources::{
    IdentifyError, VideoSource, VideoSourceLocal, VideoSourceLocalType, VideoSourceType,
};
use mavlink_camera_manager::stream_types::{
    CaptureConfiguration, SourceConfiguration, StreamInformation, VideoAndStreamInformation,
    VideoCaptureConfiguration,
};
use mavlink_camera_manager::video_types::{
    add_supported_common_frame_intervals, sort_frame_intervals_fastest_first, Format, FrameInterval, Size,
    VideoEncodeType,
};

fn frame_interval(numerator: u32, denominator: u32) -> FrameInterval {
    FrameInterval {
        numerator,
        denominator,
    }
}

fn fraction(numerator: i32, denominator: i32) -> Fraction {
    Fraction {
        numerator,
        denominator,
    }
}

fn field(name: &str, value: CapsField) -> (String, CapsField) {
    (name.to_string(), value)
}

fn int_value(value: i32) -> CapsField {
    CapsField::Value(CapsValue::Int(value))
}

fn caps_of(name: &str, fields: Vec<(String, CapsField)>) -> Caps {
    Caps {
        structures: vec![CapsStructure {
            name: name.to_string(),
            fields,
        }],
    }
}

#[test]
fn bus_decode() {
    let descriptions = vec![
        (
            // Normal desktop
            VideoSourceLocalType::Usb("usb-0000:08:00.3-1".into()),
            "usb-0000:08:00.3-1",
        ),
        (
            // Normal desktop with additional hubs
            VideoSourceLocalType::Usb("usb-0000:08:00.3-2.1".into()),
            "usb-0000:08:00.3-2.1",
        ),
        (
            // Provided by the raspberry pi with a USB camera
            VideoSourceLocalType::Usb("usb-3f980000.usb-1.4".into()),
            "usb-3f980000.usb-1.4",
        ),
        (
            // Provided by the raspberry pi with a Raspberry Pi camera when in to use legacy camera mode
            VideoSourceLocalType::LegacyRpiCam("platform:bcm2835-v4l2-0".into()),
            "platform:bcm2835-v4l2-0",
        ),
        (
            // Sanity test
            VideoSourceLocalType::Unknown("potato".into()),
            "potato",
        ),
    ];

    for description in descriptions {
        assert_eq!(description.0, VideoSourceLocalType::from_str(description.1));
    }
}

#[test]
fn env_flag_enabled_accepts_common_truthy_values() {
    assert!(env_flag_enabled(Some("1")));
    assert!(env_flag_enabled(Some("true")));
    assert!(env_flag_enabled(Some(" YES ")));
    assert!(env_flag_enabled(Some("on")));
    assert!(env_flag_enabled(Some("On")));
    assert!(!env_flag_enabled(Some("0")));
    assert!(!env_flag_enabled(Some("false")));
    assert!(!env_flag_enabled(None));
    assert!(!env_flag_enabled(Some("")));
}

#[test]
fn keep_native_mode_frame_intervals_drops_padded_rates_per_size() {
    let caps = caps_of(
        "video/x-raw",
        vec![
            field("width", int_value(640)),
            field("height", int_value(480)),
            field(
                "framerate",
                CapsField::List(vec![
                    CapsValue::Fraction(fraction(60, 1)),
                    CapsValue::Fraction(fraction(90, 1)),
                    CapsValue::Fraction(fraction(120, 1)),
                    CapsValue::Fraction(fraction(20665, 100)),
                ]),
            ),
        ],
    );
    let mut formats = vec![Format {
        encode: VideoEncodeType::Yuyv,
        sizes: vec![Size {
            width: 640,
            height: 480,
            intervals: vec![
                frame_interval(100, 20665),
                frame_interval(1, 120),
                frame_interval(1, 90),
                frame_interval(1, 60),
                frame_interval(1, 30),
            ],
            depths: Vec::new(),
        }],
    }];

    keep_native_mode_frame_intervals(&mut formats, &caps);

    assert_eq!(formats[0].sizes.len(), 1);
    assert_eq!(formats[0].sizes[0].intervals.len(), 1);
    let native = &formats[0].sizes[0].intervals[0];
    assert!(native.frames_per_second_equals(&frame_interval(100, 20665)));
}

#[test]
fn keep_native_mode_frame_intervals_falls_back_to_fastest_listed() {
    let caps = Caps {
        structures: Vec::new(),
    };
    let mut formats = vec![Format {
        encode: VideoEncodeType::Yuyv,
        sizes: vec![
            Size {
                width: 1920,
                height: 1080,
                intervals: vec![
                    frame_interval(100, 4757),
                    frame_interval(1, 30),
                    frame_interval(1, 24),
                ],
                depths: Vec::new(),
            },
            Size {
                width: 3280,
                height: 2464,
                intervals: vec![
                    frame_interval(100, 2119),
                    frame_interval(1, 20),
                    frame_interval(1, 15),
                ],
                depths: Vec::new(),
            },
        ],
    }];

    keep_native_mode_frame_intervals(&mut formats, &caps);

    assert!(
        formats[0].sizes[0].intervals[0].frames_per_second_equals(&frame_interval(100, 4757))
    );
    assert!(
        formats[0].sizes[1].intervals[0].frames_per_second_equals(&frame_interval(100, 2119))
    );
}

#[test]
fn pixel_array_size_reads_gst_value_array() {
    let properties = CapsStructure {
        name: "camera-properties".to_string(),
        fields: vec![field(
            "api.libcamera.PixelArraySize",
            CapsField::Array(vec![CapsValue::Int(3280), CapsValue::Int(2464)]),
        )],
    };
    assert_eq!(libcamera_pixel_array_size(&properties), Some((3280, 2464)));
}

#[test]
fn max_frame_interval_for_size_uses_fraction_range_max() {
    let caps = caps_of(
        "video/x-raw",
        vec![
            field("width", int_value(3280)),
            field("height", int_value(2464)),
            field(
                "framerate",
                CapsField::FractionRange {
                    low: fraction(1, 1),
                    high: fraction(2119, 100),
                },
            ),
        ],
    );
    let maximum = libcamera_max_frame_interval_for_size(&caps, 3280, 2464).unwrap();
    assert_eq!(maximum, frame_interval(100, 2119));
}

#[test]
fn max_frame_interval_for_size_uses_fastest_list_entry() {
    let caps = caps_of(
        "video/x-raw",
        vec![
            field("width", int_value(640)),
            field("height", int_value(480)),
            field(
                "framerate",
                CapsField::List(vec![
                    CapsValue::Fraction(fraction(60, 1)),
                    CapsValue::Fraction(fraction(90, 1)),
                    CapsValue::Fraction(fraction(20665, 100)),
                ]),
            ),
        ],
    );
    let maximum = libcamera_max_frame_interval_for_size(&caps, 640, 480).unwrap();
    let expected = frame_interval(100, 20665);
    assert!(!maximum.frames_per_second_exceeds(&expected));
    assert!(!expected.frames_per_second_exceeds(&maximum));
    assert!(frame_interval(1, 120).frames_per_second_exceeds(&frame_interval(100, 2119)));
    assert!(libcamera_max_frame_interval_for_size(&caps, 3280, 2464).is_none());
}

#[test]
fn bit_depth_from_fourcc_reads_packed_bayer_and_ignores_yuv() {
    assert_eq!(bit_depth_from_fourcc("SRGGB10"), Some(10));
    assert_eq!(bit_depth_from_fourcc("SRGGB8_CSI2P"), Some(8));
    assert_eq!(bit_depth_from_fourcc("SBGGR12"), Some(12));
    assert_eq!(bit_depth_from_fourcc("R10"), Some(10));
    assert_eq!(bit_depth_from_fourcc("rggb10le"), Some(10));
    assert_eq!(bit_depth_from_fourcc("grbg10le"), Some(10));
    assert_eq!(bit_depth_from_fourcc("NV12"), None);
    assert_eq!(bit_depth_from_fourcc("YUY2"), None);
    assert_eq!(bit_depth_from_fourcc("BGR888"), None);
    assert_eq!(bit_depth_from_fourcc("GRAY8"), None);
    assert_eq!(bit_depth_from_fourcc("GRAY16_LE"), None);
}

#[test]
fn add_supported_common_frame_intervals_keeps_native_and_adds_slower_defaults() {
    let mut intervals = vec![frame_interval(100, 2119)];
    add_supported_common_frame_intervals(&mut intervals, false);
    let listed: Vec<(u32, u32)> = intervals
        .iter()
        .map(|interval| (interval.numerator, interval.denominator))
        .collect();
    assert_eq!(listed, vec![(100, 2119), (1, 16), (1, 10), (1, 5)]);
}

#[test]
fn add_supported_common_frame_intervals_is_per_depth_native_max() {
    let mut eight_bit = vec![frame_interval(100, 8370)];
    add_supported_common_frame_intervals(&mut eight_bit, false);
    let eight_listed: Vec<(u32, u32)> = eight_bit
        .iter()
        .map(|interval| (interval.numerator, interval.denominator))
        .collect();
    assert_eq!(
        eight_listed,
        vec![
            (100, 8370),
            (1, 60),
            (1, 30),
            (1, 24),
            (1, 16),
            (1, 10),
            (1, 5)
        ]
    );

    let mut ten_bit = vec![frame_interval(100, 4185)];
    add_supported_common_frame_intervals(&mut ten_bit, false);
    let ten_listed: Vec<(u32, u32)> = ten_bit
        .iter()
        .map(|interval| (interval.numerator, interval.denominator))
        .collect();
    assert_eq!(
        ten_listed,
        vec![(100, 4185), (1, 30), (1, 24), (1, 16), (1, 10), (1, 5)]
    );
}

#[test]
fn frame_interval_from_nanoseconds_preserves_fractional_fps() {
    let interval = frame_interval_from_nanoseconds(47_192_000).unwrap();
    let fps = f64::from(interval.denominator) / f64::from(interval.numerator);
    assert!((fps - 21.19).abs() < 0.01);
    assert!(interval_is_from_buffer_duration(&interval));
}

#[test]
fn unclamped_fps_probe_interval_is_exactly_1000fps() {
    assert!(is_unclamped_fps_probe_interval(&frame_interval(1, 1000)));
    assert!(!is_unclamped_fps_probe_interval(&frame_interval(1, 21)));
    assert!(!is_unclamped_fps_probe_interval(&frame_interval(100, 2119)));
    let from_gst: FrameInterval = interval_from_fraction(fraction(1000, 1));
    assert!(is_unclamped_fps_probe_interval(&from_gst));
    let from_buffer = frame_interval_from_nanoseconds(1_000_000).unwrap();
    assert!(is_unclamped_fps_probe_interval(&from_buffer));
}

fn add_available_camera(name: &str, device_path: &str, usb_bus: &str) -> VideoSourceType {
    VideoSourceType::Local(VideoSourceLocal {
        name: name.into(),
        device_path: device_path.into(),
        typ: VideoSourceLocalType::Usb(usb_bus.into()),
    })
}

fn formats_for(encodes: &[VideoEncodeType]) -> Vec<Format> {
    encodes
        .iter()
        .cloned()
        .map(|encode| Format {
            encode,
            sizes: vec![Size {
                width: 1920,
                height: 1080,
                intervals: vec![FrameInterval {
                    numerator: 30,
                    denominator: 1,
                }],
                depths: Vec::new(),
            }],
        })
        .collect()
}

fn create_stream(
    name: &str,
    device_path: &str,
    usb_bus: &str,
    encode: VideoEncodeType,
) -> VideoAndStreamInformation {
    VideoAndStreamInformation {
        name: "dummy stream".into(),
        stream_information: StreamInformation {
            configuration: CaptureConfiguration::Video(VideoCaptureConfiguration {
                source_encode: encode.clone(),
                sink_encode: encode,
                height: 1080,
                width: 1920,
                frame_interval: FrameInterval {
                    numerator: 30,
                    denominator: 1,
                },
                bit_depth: None,
                source_configuration: SourceConfiguration::Classic,
                auto_restart_on_config_change: false,
            }),
            endpoints: vec!["udp://0.0.0.0:5600".to_string()],
            extended_configuration: None,
        },
        video_source: VideoSourceType::Local(VideoSourceLocal {
            name: name.into(),
            device_path: device_path.into(),
            typ: VideoSourceLocalType::Usb(usb_bus.into()),
        }),
    }
}

fn formats_map(entries: Vec<(&str, Vec<Format>)>) -> Vec<(String, Vec<Format>)> {
    entries
        .into_iter()
        .map(|(path, formats)| (path.to_string(), formats))
        .collect()
}

fn parts(stream: &VideoAndStreamInformation) -> (&VideoSourceLocal, &VideoCaptureConfiguration) {
    let (VideoSourceType::Local(source), CaptureConfiguration::Video(capture_configuration)) = (
        &stream.video_source,
        &stream.stream_information.configuration,
    ) else {
        unreachable!("Wrong setup")
    };
    (source, capture_configuration)
}

use VideoEncodeType::{H264, Mjpg, Yuyv};

#[test]
fn test_get_cameras_with_same_name() {
    let candidates = vec![
        add_available_camera("A", "/dev/video0", "usb_port_0"),
        add_available_camera("A", "/dev/video1", "usb_port_0"),
        add_available_camera("A", "/dev/video2", "usb_port_1"),
        add_available_camera("A", "/dev/video3", "usb_port_1"),
        add_available_camera("B", "/dev/video4", "usb_port_2"),
        add_available_camera("B", "/dev/video5", "usb_port_2"),
    ];

    let same_name_candidates = VideoSourceLocal::get_cameras_with_same_name(&candidates, "A");
    assert_eq!(candidates[..4].to_vec(), same_name_candidates);
}

#[test]
fn test_get_cameras_with_same_encode() {
    let candidates = vec![
        add_available_camera("A", "/dev/video0", "usb_port_0"),
        add_available_camera("B", "/dev/video1", "usb_port_1"),
        add_available_camera("C", "/dev/video2", "usb_port_0"),
        add_available_camera("D", "/dev/video3", "usb_port_1"),
    ];

    let formats = formats_map(vec![
        ("/dev/video0", formats_for(&[H264])),
        ("/dev/video1", formats_for(&[H264])),
        ("/dev/video2", formats_for(&[Yuyv, Mjpg])),
        ("/dev/video3", formats_for(&[Yuyv, Mjpg])),
    ]);

    let same_encode_candidates =
        VideoSourceLocal::get_cameras_with_same_encode(&candidates, &H264, &formats);
    assert_eq!(candidates[..2].to_vec(), same_encode_candidates);
}

#[test]
fn test_get_cameras_with_same_bus() {
    let candidates = vec![
        add_available_camera("A", "/dev/video0", "usb_port_0"),
        add_available_camera("B", "/dev/video1", "usb_port_0"),
        add_available_camera("C", "/dev/video2", "usb_port_1"),
        add_available_camera("D", "/dev/video3", "usb_port_1"),
    ];

    let same_encode_candidates = VideoSourceLocal::get_cameras_with_same_bus(
        &candidates,
        &VideoSourceLocalType::Usb("usb_port_0".into()),
    );
    assert_eq!(candidates[..2].to_vec(), same_encode_candidates);
}

#[test]
fn identify_a_candidate_with_same_name_and_encode() {
    let candidates = vec![
        add_available_camera("A", "/dev/video0", "usb_port_0"),
        add_available_camera("A", "/dev/video1", "usb_port_0"),
        add_available_camera("B", "/dev/video2", "usb_port_1"),
        add_available_camera("B", "/dev/video3", "usb_port_1"),
        add_available_camera("C", "/dev/video3", "usb_port_1"),
    ];
    let formats = formats_map(vec![
        ("/dev/video0", formats_for(&[H264])),
        ("/dev/video1", formats_for(&[Yuyv, Mjpg])),
        ("/dev/video2", formats_for(&[H264])),
        ("/dev/video3", formats_for(&[Yuyv, Mjpg])),
    ]);

    let stream = create_stream("A", "/dev/video0", "usb_port_0", H264);
    let (source, capture_configuration) = parts(&stream);

    let Ok(Some(candidate_source_string)) =
        source.try_identify_device(capture_configuration, &candidates, &formats)
    else {
        panic!("Failed to identify the only device with the same name and encode")
    };

    assert_eq!(
        candidate_source_string,
        stream.video_source.inner().source_string().to_string()
    );

    // If we remove the only device with the same name and encode, we should get an error
    assert_eq!(
        source.try_identify_device(capture_configuration, &candidates[1..], &formats),
        Err(IdentifyError::DeviceNotFound)
    );
}

#[test]
fn identify_a_candidate_when_usb_port_changed() {
    let last_usb_bus = "usb_port_1";
    let current_usb_bus = "usb_port_0";

    let candidates = vec![
        add_available_camera("A", "/dev/video0", current_usb_bus),
        add_available_camera("A", "/dev/video1", current_usb_bus),
        add_available_camera("B", "/dev/video2", "usb_port_3"),
        add_available_camera("B", "/dev/video3", "usb_port_3"),
    ];
    let formats = formats_map(vec![
        ("/dev/video0", formats_for(&[H264])),
        ("/dev/video1", formats_for(&[Yuyv, Mjpg])),
        ("/dev/video2", formats_for(&[H264])),
        ("/dev/video3", formats_for(&[Yuyv, Mjpg])),
    ]);

    for n in 0..3 {
        let stream = create_stream("A", &format!("/dev/video{n}"), last_usb_bus, H264);
        let (source, capture_configuration) = parts(&stream);

        let Ok(Some(candidate_source_string)) =
            source.try_identify_device(capture_configuration, &candidates, &formats)
        else {
            panic!("Failed to identify the only device with the same name and encode")
        };
        assert_eq!(
            candidate_source_string,
            candidates[0].inner().source_string()
        );

        let mut other_candidates = candidates.clone();
        other_candidates.remove(0);
        assert!(source
            .try_identify_device(capture_configuration, &other_candidates, &formats)
            .is_err());
    }
}

#[test]
fn identify_a_candidate_when_path_changed() {
    let last_path = "/dev/video1";
    let current_path = "/dev/video0";

    let candidates = vec![
        add_available_camera("A", current_path, "usb_port_0"),
        add_available_camera("A", last_path, "usb_port_1"),
        add_available_camera("A", "/dev/video3", "usb_port_0"),
        add_available_camera("A", "/dev/video5", "usb_port_1"),
    ];
    let formats = formats_map(vec![
        (current_path, formats_for(&[H264])),
        (last_path, formats_for(&[H264])),
        ("/dev/video3", formats_for(&[Yuyv, Mjpg])),
        ("/dev/video5", formats_for(&[Yuyv, Mjpg])),
    ]);

    for n in 0..=1 {
        let stream = create_stream("A", last_path, &format!("usb_port_{n}"), H264);
        let (source, capture_configuration) = parts(&stream);

        let Ok(Some(candidate_source_string)) =
            source.try_identify_device(capture_configuration, &candidates, &formats)
        else {
            panic!("Failed to identify the only device with the same name and encode")
        };
        assert_eq!(
            candidate_source_string,
            candidates[n].inner().source_string()
        );
    }
}

#[test]
fn do_not_identify_if_several_devices_with_same_name_and_encode() {
    let last_usb_bus = "usb_port_1";
    let current_usb_bus = "usb_port_0";

    let candidates = vec![
        add_available_camera("A", "/dev/video0", current_usb_bus),
        add_available_camera("A", "/dev/video1", current_usb_bus),
        add_available_camera("A", "/dev/video4", "usb_port_2"),
        add_available_camera("A", "/dev/video5", "usb_port_2"),
    ];
    let formats = formats_map(vec![
        ("/dev/video0", formats_for(&[H264])),
        ("/dev/video1", formats_for(&[Yuyv, Mjpg])),
        ("/dev/video4", formats_for(&[H264])),
        ("/dev/video5", formats_for(&[Yuyv, Mjpg])),
    ]);

    for n in 0..5 {
        let stream = create_stream("A", &format!("/dev/video{n}"), last_usb_bus, H264);
        let (source, capture_configuration) = parts(&stream);

        assert!(source
            .try_identify_device(capture_configuration, &candidates, &formats)
            .expect("Failed to identify the only device with the same name and encode")
            .is_none())
    }
}

#[test]
fn fastest_first_order_is_stable_for_equal_rates() {
    let interval = |numerator: u32, denominator: u32| FrameInterval { numerator, denominator };
    let mut intervals = vec![interval(1, 30), interval(2, 60), interval(1, 60), interval(10, 300)];
    sort_frame_intervals_fastest_first(&mut intervals);
    assert_eq!(
        intervals,
        vec![interval(1, 60), interval(1, 30), interval(2, 60), interval(10, 300)]
    );
}

#[test]
fn fastest_first_order_with_zero_numerators() {
    let interval = |numerator: u32, denominator: u32| FrameInterval { numerator, denominator };
    let mut unbounded = vec![interval(1, 30), interval(0, 1)];
    sort_frame_intervals_fastest_first(&mut unbounded);
    assert_eq!(unbounded, vec![interval(0, 1), interval(1, 30)]);
    let mut undefined = vec![interval(1, 30), interval(0, 0), interval(1, 60)];
    sort_frame_intervals_fastest_first(&mut undefined);
    assert_eq!(undefined, vec![interval(1, 30), interval(0, 0), interval(1, 60)]);
}

#[test]
fn probe_prefers_buffer_duration_then_pts_step() {
    let from_duration = FrameInterval { numerator: 33_333_333, denominator: 1_000_000_000 };
    assert_eq!(
        probe_buffer_interval(Some(33_333_333), Some(500), Some(100)),
        (Some(from_duration), Some(100))
    );
    // An unclamped duration (1 ms, 1000 fps) falls back to the PTS step.
    let from_pts = FrameInterval { numerator: 50_000_000, denominator: 1_000_000_000 };
    assert_eq!(
        probe_buffer_interval(Some(1_000_000), Some(150_000_000), Some(100_000_000)),
        (Some(from_pts), Some(150_000_000))
    );
    assert_eq!(probe_buffer_interval(None, Some(100), None), (None, Some(100)));
    assert_eq!(probe_buffer_interval(None, Some(100), Some(200)), (None, Some(100)));
    assert_eq!(probe_buffer_interval(None, None, Some(7)), (None, Some(7)));
}

#[test]
fn probe_keeps_the_filter_with_most_structures() {
    assert!(replaces_captured_filter(None, 0));
    assert!(replaces_captured_filter(Some(2), 3));
    assert!(!replaces_captured_filter(Some(3), 3));
}
