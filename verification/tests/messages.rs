use mavlink_camera_manager::messages::{webrtc_relative_path, Error, Level, Timestamp};

#[test]
fn timestamps_keep_their_fields() {
    let t = Timestamp::new(12, 34);
    assert_eq!((t.sec(), t.nsec()), (12, 34));
    // Seconds beyond 32 bits wrap around.
    let wrapped = Timestamp::from_unix((1i64 << 32) + 5, 7);
    assert_eq!((wrapped.sec(), wrapped.nsec()), (5, 7));
    let offset = Timestamp::from_epoch_offset((1u64 << 32) + 9, 11);
    assert_eq!((offset.sec(), offset.nsec()), (9, 11));
}

#[test]
fn now_is_after_the_epoch() {
    let t = Timestamp::now().expect("the clock reads after 1970");
    // Some time after 2020-01-01, and less than a second of nanoseconds.
    assert!(t.sec() > 1_577_836_800);
    assert!(t.nsec() < 1_000_000_000);
}

#[test]
fn log_levels_number_by_severity() {
    assert_eq!(Level::Unknown.value(), 0);
    assert_eq!(Level::Info.value(), 2);
    assert_eq!(Level::Fatal.value(), 5);
}

#[test]
fn api_errors_map_to_status_codes() {
    assert_eq!(Error::BadRequest("x".into()).status_code(), 400);
    assert_eq!(Error::NotFound("x".into()).status_code(), 404);
    assert_eq!(Error::Internal("x".into()).status_code(), 500);
    assert_eq!(Error::Unavailable("x".into()).status_code(), 503);
}

#[test]
fn webrtc_paths_lose_every_leading_prefix() {
    let path = |s: &str| webrtc_relative_path(s).into_iter().collect::<String>();
    assert_eq!(path("webrtc/index.html"), "index.html");
    assert_eq!(path("webrtc/webrtc/js/app.js"), "js/app.js");
    assert_eq!(path("other/webrtc/x"), "other/webrtc/x");
}
