use mavlink_camera_manager::caps::{Caps, CapsField, CapsStructure, CapsValue, Fraction};
use mavlink_camera_manager::device_formats::{caps_dimensions_readable, device_formats_from_caps};
use mavlink_camera_manager::video_types::{Format, FrameInterval, Size, VideoEncodeType};

fn interval(numerator: u32, denominator: u32) -> FrameInterval {
    FrameInterval {
        numerator,
        denominator,
    }
}

fn text(value: &str) -> CapsField {
    CapsField::Value(CapsValue::Str(value.to_string()))
}

fn int_value(value: i32) -> CapsField {
    CapsField::Value(CapsValue::Int(value))
}

fn fps(numerator: i32, denominator: i32) -> CapsValue {
    CapsValue::Fraction(Fraction {
        numerator,
        denominator,
    })
}

fn structure(name: &str, fields: Vec<(&str, CapsField)>) -> CapsStructure {
    CapsStructure {
        name: name.to_string(),
        fields: fields
            .into_iter()
            .map(|(field, value)| (field.to_string(), value))
            .collect(),
    }
}

fn format_of<'a>(formats: &'a [Format], encode: &VideoEncodeType) -> &'a Format {
    formats
        .iter()
        .find(|format| &format.encode == encode)
        .expect("format listed")
}

fn dimensions(format: &Format) -> Vec<(u32, u32)> {
    format
        .sizes
        .iter()
        .map(|size| (size.width, size.height))
        .collect()
}

#[test]
fn discrete_caps_give_one_format_per_encode() {
    let caps = Caps {
        structures: vec![
            structure(
                "video/x-raw",
                vec![
                    ("format", text("YUY2")),
                    ("width", int_value(1920)),
                    ("height", int_value(1080)),
                    ("framerate", CapsField::Value(fps(30, 1))),
                ],
            ),
            structure(
                "video/x-raw",
                vec![
                    ("format", text("yuy2")),
                    ("width", int_value(640)),
                    ("height", int_value(480)),
                    ("framerate", CapsField::List(vec![fps(15, 1), fps(30, 1), fps(15, 1)])),
                ],
            ),
            structure(
                "image/jpeg",
                vec![("width", int_value(1280)), ("height", int_value(720))],
            ),
            structure("video/x-bayer", vec![("width", int_value(64)), ("height", int_value(64))]),
            structure("audio/x-raw", vec![("width", int_value(64)), ("height", int_value(64))]),
        ],
    };
    let formats = device_formats_from_caps(&caps, false, Vec::new(), false);
    assert_eq!(formats.len(), 2);

    let yuyv = format_of(&formats, &VideoEncodeType::Yuyv);
    assert_eq!(dimensions(yuyv), vec![(1920, 1080), (640, 480)]);
    assert_eq!(yuyv.sizes[0].intervals, vec![interval(1, 30)]);
    assert_eq!(yuyv.sizes[1].intervals, vec![interval(1, 30), interval(1, 15)]);
    assert!(yuyv.sizes.iter().all(|size| size.depths.is_empty()));

    let mjpg = format_of(&formats, &VideoEncodeType::Mjpg);
    assert_eq!(dimensions(mjpg), vec![(1280, 720)]);
    assert_eq!(
        mjpg.sizes[0].intervals,
        vec![
            interval(1, 60),
            interval(1, 30),
            interval(1, 24),
            interval(1, 16),
            interval(1, 10),
            interval(1, 5)
        ]
    );
}

#[test]
fn size_ranges_are_sampled_at_standard_sizes() {
    let caps = Caps {
        structures: vec![structure(
            "video/x-raw",
            vec![
                ("format", CapsField::List(vec![CapsValue::Str("NV12".into()), CapsValue::Int(3)])),
                (
                    "width",
                    CapsField::IntRange {
                        min: 320,
                        max: 1920,
                        step: 8,
                    },
                ),
                (
                    "height",
                    CapsField::IntRange {
                        min: 240,
                        max: 1080,
                        step: 8,
                    },
                ),
                ("framerate", CapsField::Value(fps(30, 1))),
            ],
        )],
    };
    assert!(caps_dimensions_readable(&caps, false));
    let formats = device_formats_from_caps(&caps, false, Vec::new(), false);
    assert_eq!(formats.len(), 1);
    assert_eq!(formats[0].encode, VideoEncodeType::Nv12);
    // Distinct widths and heights are paired in increasing order, then the
    // sizes are listed largest first.
    assert_eq!(
        dimensions(&formats[0]),
        vec![
            (1440, 1080),
            (1280, 768),
            (1024, 720),
            (960, 600),
            (800, 480),
            (640, 360),
            (320, 240)
        ]
    );
}

#[test]
fn unknown_fourccs_are_kept_as_unknown() {
    let caps = Caps {
        structures: vec![structure(
            "video/x-raw",
            vec![
                ("format", text("gray8")),
                ("width", int_value(320)),
                ("height", int_value(240)),
                ("framerate", CapsField::Value(fps(10, 1))),
            ],
        )],
    };
    let formats = device_formats_from_caps(&caps, false, Vec::new(), false);
    assert_eq!(formats.len(), 1);
    assert_eq!(formats[0].encode, VideoEncodeType::Unknown("GRAY8".into()));
}

#[test]
fn zero_step_ranges_are_reported_unreadable() {
    let caps = Caps {
        structures: vec![structure(
            "video/x-raw",
            vec![
                ("format", text("NV12")),
                ("width", int_value(640)),
                (
                    "height",
                    CapsField::IntRange {
                        min: 1,
                        max: 1080,
                        step: 0,
                    },
                ),
            ],
        )],
    };
    assert!(!caps_dimensions_readable(&caps, false));
    // A libcamera device skips range structures before reading them.
    assert!(caps_dimensions_readable(&caps, true));
}

fn libcamera_caps() -> Caps {
    Caps {
        structures: vec![
            structure(
                "video/x-raw",
                vec![("format", text("NV12")), ("width", int_value(1920)), ("height", int_value(1080))],
            ),
            structure(
                "video/x-raw",
                vec![
                    ("format", text("YUY2")),
                    (
                        "width",
                        CapsField::IntRange {
                            min: 64,
                            max: 4096,
                            step: 2,
                        },
                    ),
                    ("height", int_value(1080)),
                ],
            ),
            structure(
                "image/jpeg",
                vec![("width", int_value(1920)), ("height", int_value(1080))],
            ),
            structure(
                "video/x-bayer",
                vec![
                    ("format", text("rggb10le")),
                    ("width", int_value(3280)),
                    ("height", int_value(2464)),
                    ("framerate", CapsField::Value(fps(2119, 100))),
                ],
            ),
        ],
    }
}

#[test]
fn libcamera_lists_native_sensor_modes_for_isp_encodes() {
    let formats = device_formats_from_caps(&libcamera_caps(), true, Vec::new(), false);
    assert_eq!(formats.len(), 1);
    assert_eq!(formats[0].encode, VideoEncodeType::Nv12);
    assert_eq!(dimensions(&formats[0]), vec![(3280, 2464)]);
    assert_eq!(formats[0].sizes[0].depths[0].bit_depth, 10);
}

#[test]
fn libcamera_prefers_probed_sizes() {
    let probed = vec![Size {
        width: 1640,
        height: 1232,
        intervals: Vec::new(),
        depths: Vec::new(),
    }];
    let formats = device_formats_from_caps(&libcamera_caps(), true, probed, false);
    assert_eq!(formats.len(), 1);
    assert_eq!(dimensions(&formats[0]), vec![(1640, 1232)]);
}

#[test]
fn libcamera_without_native_modes_keeps_isp_formats() {
    let mut caps = libcamera_caps();
    caps.structures.pop();
    let formats = device_formats_from_caps(&caps, true, Vec::new(), false);
    assert_eq!(formats.len(), 1);
    assert_eq!(formats[0].encode, VideoEncodeType::Nv12);
    assert_eq!(dimensions(&formats[0]), vec![(1920, 1080)]);
    assert!(formats[0].sizes[0].intervals.is_empty());
    // Keeping native rates only drops sizes that have none.
    let native_only = device_formats_from_caps(&caps, true, Vec::new(), true);
    assert!(native_only.is_empty());
}

#[test]
fn libcamera_with_only_bayer_modes_offers_isp_encodes() {
    let caps = Caps {
        structures: vec![libcamera_caps().structures.pop().unwrap()],
    };
    let formats = device_formats_from_caps(&caps, true, Vec::new(), false);
    let encodes: Vec<VideoEncodeType> = formats.iter().map(|format| format.encode.clone()).collect();
    assert_eq!(
        encodes,
        vec![VideoEncodeType::Nv12, VideoEncodeType::Rgb, VideoEncodeType::Yuyv]
    );
    assert!(formats.iter().all(|format| dimensions(format) == vec![(3280, 2464)]));
}
