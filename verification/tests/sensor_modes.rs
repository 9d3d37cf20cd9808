use mavlink_camera_manager::caps::{Caps, CapsField, CapsStructure, CapsValue, Fraction};
use mavlink_camera_manager::sensor_modes::{
    apply_mode_rates, finalize_libcamera_size_intervals, keep_dimensioned_sizes,
    libcamera_bayer_mode_sizes, libcamera_native_mode_sizes, missing_mode_depths,
};
use mavlink_camera_manager::video_types::{FrameInterval, Size, SizeDepth};

fn frame_interval(numerator: u32, denominator: u32) -> FrameInterval {
    FrameInterval {
        numerator,
        denominator,
    }
}

fn listed_bit_depths(size: &Size) -> Vec<u32> {
    size.depths.iter().map(|depth| depth.bit_depth).collect()
}

/// One structure `name, format=(string)F, width=(int)W, height=(int)H[, framerate=(fraction)N/D]`.
fn mode(name: &str, format: &str, width: i32, height: i32, framerate: Option<(i32, i32)>) -> CapsStructure {
    let mut fields = vec![
        (
            "format".to_string(),
            CapsField::Value(CapsValue::Str(format.to_string())),
        ),
        ("width".to_string(), CapsField::Value(CapsValue::Int(width))),
        ("height".to_string(), CapsField::Value(CapsValue::Int(height))),
    ];
    if let Some((numerator, denominator)) = framerate {
        fields.push((
            "framerate".to_string(),
            CapsField::Value(CapsValue::Fraction(Fraction {
                numerator,
                denominator,
            })),
        ));
    }
    CapsStructure {
        name: name.to_string(),
        fields,
    }
}

#[test]
fn libcamera_native_mode_sizes_uses_bayer_modes_not_isp_yuv() {
    let caps = Caps {
        structures: vec![
            mode("video/x-raw", "NV12", 3200, 2400, None),
            mode("video/x-raw", "GRAY8", 3200, 2400, None),
            mode("video/x-raw", "YUY2", 1920, 1080, None),
            mode("video/x-bayer", "rggb10le", 3280, 2464, Some((2119, 100))),
            mode("video/x-bayer", "rggb10le", 1920, 1080, Some((4757, 100))),
            mode("video/x-bayer", "rggb10le", 1640, 1232, Some((4185, 100))),
            mode("video/x-bayer", "rggb8le", 1640, 1232, Some((4185, 100))),
            mode("video/x-bayer", "rggb10le", 640, 480, Some((20665, 100))),
        ],
    };

    let sizes = libcamera_native_mode_sizes(&caps);
    let listed: Vec<(u32, u32)> = sizes.iter().map(|size| (size.width, size.height)).collect();
    assert_eq!(
        listed,
        vec![(3280, 2464), (1920, 1080), (1640, 1232), (640, 480)]
    );
    assert!(!listed.contains(&(3200, 2400)));
    assert!(sizes.iter().all(|size| size.intervals.is_empty()));
    assert_eq!(listed_bit_depths(&sizes[0]), vec![10]);
    assert!(
        sizes[0].depths[0].intervals[0].frames_per_second_equals(&frame_interval(100, 2119))
    );
    assert_eq!(listed_bit_depths(&sizes[2]), vec![8, 10]);
    assert!(
        sizes[3].depths[0].intervals[0].frames_per_second_equals(&frame_interval(100, 20665))
    );
}

#[test]
fn libcamera_bayer_mode_sizes_accepts_raw_stream_formats_without_fps() {
    let caps = Caps {
        structures: vec![
            mode("video/x-bayer", "rggb10le", 3280, 2464, None),
            mode("video/x-bayer", "rggb8le", 3280, 2464, None),
            mode("video/x-bayer", "rggb10le", 1920, 1080, None),
            mode("video/x-bayer", "rggb10le", 1640, 1232, None),
            mode("video/x-bayer", "rggb8le", 1640, 1232, None),
            mode("video/x-bayer", "rggb10le", 640, 480, None),
            mode("video/x-raw", "NV12", 3200, 2400, None),
        ],
    };

    assert!(libcamera_native_mode_sizes(&caps).is_empty());
    let sizes = libcamera_bayer_mode_sizes(&caps, false);
    let listed: Vec<(u32, u32)> = sizes.iter().map(|size| (size.width, size.height)).collect();
    assert_eq!(
        listed,
        vec![(3280, 2464), (1920, 1080), (1640, 1232), (640, 480)]
    );
    assert!(sizes.iter().all(|size| size.intervals.is_empty()));
    assert!(
        sizes
            .iter()
            .all(|size| size.depths.iter().all(|depth| depth.intervals.is_empty()))
    );
    assert_eq!(listed_bit_depths(&sizes[0]), vec![8, 10]);
    assert_eq!(listed_bit_depths(&sizes[1]), vec![10]);
    assert_eq!(listed_bit_depths(&sizes[2]), vec![8, 10]);
    assert_eq!(listed_bit_depths(&sizes[3]), vec![10]);
}

#[test]
fn bayer_modes_keep_the_fastest_rate_per_depth() {
    let caps = Caps {
        structures: vec![
            mode("video/x-bayer", "rggb10le", 1920, 1080, Some((30, 1))),
            mode("video/x-bayer", "rggb10le", 1920, 1080, Some((60, 1))),
            mode("video/x-bayer", "rggb10le", 1920, 1080, Some((45, 1))),
            mode("video/x-bayer", "rggb12", 1920, 1080, Some((15, 1))),
        ],
    };
    let sizes = libcamera_native_mode_sizes(&caps);
    assert_eq!(sizes.len(), 1);
    assert_eq!(listed_bit_depths(&sizes[0]), vec![10, 12]);
    assert_eq!(sizes[0].depths[0].intervals, vec![frame_interval(1, 60)]);
    assert_eq!(sizes[0].depths[1].intervals, vec![frame_interval(1, 15)]);
}

#[test]
fn bayer_modes_skip_ranges_and_lists_of_sizes() {
    let mut ranged = mode("video/x-bayer", "rggb10le", 0, 0, Some((30, 1)));
    ranged.fields[1].1 = CapsField::IntRange {
        min: 64,
        max: 4096,
        step: 2,
    };
    let mut listed = mode("video/x-bayer", "rggb10le", 0, 720, Some((30, 1)));
    listed.fields[1].1 = CapsField::List(vec![CapsValue::Int(1280), CapsValue::Int(960)]);
    let caps = Caps {
        structures: vec![ranged, listed],
    };
    assert!(libcamera_bayer_mode_sizes(&caps, false).is_empty());
}

fn depth(bit_depth: u32, intervals: Vec<FrameInterval>) -> SizeDepth {
    SizeDepth {
        bit_depth,
        intervals,
    }
}

#[test]
fn probes_are_needed_for_depths_without_a_rate() {
    let sizes = vec![
        Size {
            width: 3280,
            height: 2464,
            intervals: Vec::new(),
            depths: vec![depth(10, vec![frame_interval(100, 2119)]), depth(8, Vec::new())],
        },
        Size {
            width: 640,
            height: 480,
            intervals: Vec::new(),
            depths: Vec::new(),
        },
    ];
    assert_eq!(
        missing_mode_depths(&sizes),
        vec![(0, 12), (0, 8), (1, 10), (1, 12), (1, 8)]
    );
}

#[test]
fn probed_rates_complete_the_depths() {
    let sizes = vec![Size {
        width: 1920,
        height: 1080,
        intervals: vec![frame_interval(1, 30)],
        depths: vec![depth(10, vec![frame_interval(100, 4757)]), depth(8, Vec::new())],
    }];
    let probed = vec![(0, 12, frame_interval(1, 40)), (3, 8, frame_interval(1, 90))];
    let completed = apply_mode_rates(sizes, &probed);
    assert_eq!(completed.len(), 1);
    assert!(completed[0].intervals.is_empty());
    assert_eq!(listed_bit_depths(&completed[0]), vec![10, 12]);
    assert_eq!(completed[0].depths[1].intervals, vec![frame_interval(1, 40)]);
}

#[test]
fn finalizing_adds_common_rates_unless_native_only() {
    let mut sizes = keep_dimensioned_sizes(vec![
        Size {
            width: 640,
            height: 480,
            intervals: Vec::new(),
            depths: vec![depth(10, vec![frame_interval(1, 40)])],
        },
        Size {
            width: 0,
            height: 480,
            intervals: Vec::new(),
            depths: Vec::new(),
        },
    ]);
    assert_eq!(sizes.len(), 1);
    let mut native_only = sizes.clone();
    finalize_libcamera_size_intervals(&mut sizes, false);
    assert_eq!(
        sizes[0].depths[0].intervals,
        vec![
            frame_interval(1, 40),
            frame_interval(1, 30),
            frame_interval(1, 24),
            frame_interval(1, 16),
            frame_interval(1, 10),
            frame_interval(1, 5)
        ]
    );
    finalize_libcamera_size_intervals(&mut native_only, true);
    assert_eq!(native_only[0].depths[0].intervals, vec![frame_interval(1, 40)]);
}
