use mavlink_camera_manager::controls::{
    analogue_gain_mode_nick_for, companion_mode_property, is_mode_like_property, Control,
    ControlSlider, ControlState, ControlType,
};
use mavlink_camera_manager::libcamera_controls::{
    apply_dirty_pending_to_element, apply_order, apply_pending_to_element, control_id_for_property,
    control_value_by_id, find_control, overlay_current_values, reset_controls, set_control_by_name,
    ControlLookupError, ElementControlInfo, EnumNick,
    SOURCE_CONTROL_ID_SPACE,
};
use mavlink_camera_manager::pending::{PendingControls, PendingValue};

const LIBCAMERA_FACTORY: &str = "libcamerasrc";

fn brightness_control(value: i64) -> Control {
    Control {
        name: "brightness".into(),
        element: LIBCAMERA_FACTORY.into(),
        cpp_type: "int64".into(),
        id: 1,
        state: ControlState::default(),
        configuration: ControlType::Slider(ControlSlider {
            default: 0,
            value,
            step: 1,
            max: 1000,
            min: -1000,
        }),
        mutable_in_playing: false,
        requires_restart: false,
        nick: "Brightness".into(),
        blurb: None,
        docs_url: None,
        plugin_name: None,
    }
}

#[test]
fn control_ids_are_stable() {
    assert_eq!(
        control_id_for_property("exposure-time"),
        control_id_for_property("exposure-time")
    );
    assert_ne!(
        control_id_for_property("exposure-time"),
        control_id_for_property("analogue-gain")
    );
    assert!(control_id_for_property("exposure-time") < SOURCE_CONTROL_ID_SPACE);
}

#[test]
fn companion_mode_property_is_generic() {
    assert_eq!(
        companion_mode_property("analogue-gain").as_deref(),
        Some("analogue-gain-mode")
    );
    assert_eq!(
        companion_mode_property("exposure-time").as_deref(),
        Some("exposure-time-mode")
    );
    assert_eq!(companion_mode_property("analogue-gain-mode"), None);
    assert_eq!(companion_mode_property("ae-enable"), None);
    assert_eq!(
        companion_mode_property("brightness").as_deref(),
        Some("brightness-mode")
    );
}

#[test]
fn mode_like_uses_suffix_not_name_table() {
    assert!(is_mode_like_property("analogue-gain-mode"));
    assert!(is_mode_like_property("ae-enable"));
    assert!(is_mode_like_property("awb-enable"));
    assert!(!is_mode_like_property("analogue-gain"));
    assert!(!is_mode_like_property("brightness"));
}

#[test]
fn exposure_time_freezes_analogue_gain_mode() {
    assert_eq!(analogue_gain_mode_nick_for("exposure-time"), Some("manual"));
    assert_eq!(analogue_gain_mode_nick_for("exposure-value"), Some("auto"));
    assert_eq!(analogue_gain_mode_nick_for("brightness"), None);
    assert_eq!(analogue_gain_mode_nick_for("analogue-gain"), None);
}

#[test]
fn overlay_current_values_prefers_pending() {
    let mut pending = PendingControls::new();
    let camera = "test-camera-overlay";
    pending.store_pending(camera, "brightness", 250);
    let controls = vec![brightness_control(0)];
    let overlaid = overlay_current_values(&pending, camera, controls);
    match &overlaid[0].configuration {
        ControlType::Slider(slider) => assert_eq!(slider.value, 250),
        other => panic!("expected slider, got {other:?}"),
    }
}

#[test]
fn overlay_current_values_keeps_default_without_pending() {
    let pending = PendingControls::new();
    let camera = "test-camera-overlay-default";
    let controls = vec![brightness_control(999)];
    let overlaid = overlay_current_values(&pending, camera, controls);
    match &overlaid[0].configuration {
        ControlType::Slider(slider) => assert_eq!(slider.value, 0),
        other => panic!("expected slider, got {other:?}"),
    }
}

#[test]
fn pending_value_preferred_when_idle() {
    let mut pending = PendingControls::new();
    let camera = "test-camera-pending";
    pending.store_pending(camera, "brightness", 250);
    assert_eq!(pending.pending_value(camera, "brightness"), Some(250));
}

#[test]
fn pending_zero_beats_semantic_default() {
    let mut pending = PendingControls::new();
    let camera = "test-camera-saturation-zero";
    pending.store_pending(camera, "saturation", 0);
    assert_eq!(pending.pending_value(camera, "saturation"), Some(0));
}

#[test]
fn pending_value_roundtrips() {
    let mut pending = PendingControls::new();
    let camera = "test-camera-pending-roundtrip";
    pending.store_pending(camera, "brightness", 500);
    assert_eq!(pending.pending_value(camera, "brightness"), Some(500));
    pending.store_pending(camera, "brightness", 250);
    assert_eq!(pending.pending_value(camera, "brightness"), Some(250));
}

fn value_of(values: &[mavlink_camera_manager::pending::PendingValue], property: &str) -> Option<i64> {
    values
        .iter()
        .find(|entry| entry.property == property)
        .map(|entry| entry.value)
}

#[test]
fn dirty_pending_latest_value_wins() {
    let mut pending = PendingControls::new();
    let camera = "test-camera-dirty-latest";
    pending.store_pending(camera, "brightness", -1000);
    pending.mark_dirty(camera);
    pending.store_pending(camera, "brightness", 1000);
    pending.mark_dirty(camera);
    let values = pending
        .take_dirty_pending(camera)
        .expect("dirty pending should be present");
    assert_eq!(value_of(&values, "brightness"), Some(1000));
    assert!(pending.take_dirty_pending(camera).is_none());
}

#[test]
fn dirty_pending_includes_companion_mode() {
    let mut pending = PendingControls::new();
    let camera = "test-camera-dirty-order";
    pending.store_pending(camera, "analogue-gain", 2000);
    pending.store_pending(camera, "analogue-gain-mode", 1);
    pending.mark_dirty(camera);
    let values = pending
        .take_dirty_pending(camera)
        .expect("dirty pending should be present");
    assert_eq!(value_of(&values, "analogue-gain-mode"), Some(1));
    assert_eq!(value_of(&values, "analogue-gain"), Some(2000));
    assert!(pending.take_dirty_pending(camera).is_none());
}

fn sample_element() -> ElementControlInfo {
    let nick = |property: &str, nick: &str, value: i64| EnumNick {
        property: property.into(),
        nick: nick.into(),
        value,
    };
    ElementControlInfo {
        properties: vec![
            "exposure-time".into(),
            "exposure-time-mode".into(),
            "analogue-gain".into(),
            "analogue-gain-mode".into(),
            "ae-enable".into(),
        ],
        enum_values: vec![
            nick("exposure-time-mode", "auto", 0),
            nick("exposure-time-mode", "manual", 1),
            nick("analogue-gain-mode", "auto", 0),
            nick("analogue-gain-mode", "manual", 1),
        ],
    }
}

#[test]
fn set_control_reads_back_and_marks_dirty() {
    let mut pending = PendingControls::new();
    let element = sample_element();
    let camera = "cam-set";
    assert!(!pending.any_dirty());
    set_control_by_name(&mut pending, camera, "exposure-time", 12_000, Some(&element)).unwrap();
    assert!(pending.any_dirty());
    assert_eq!(pending.pending_value(camera, "exposure-time"), Some(12_000));
    assert_eq!(pending.pending_value(camera, "exposure-time-mode"), Some(1));
    assert_eq!(pending.pending_value(camera, "analogue-gain-mode"), Some(1));
    assert_eq!(pending.pending_value(camera, "ae-enable"), Some(0));
    assert_eq!(pending.pending_value("another-camera", "exposure-time"), None);
}

#[test]
fn set_control_then_take_hands_out_value_once() {
    let mut pending = PendingControls::new();
    let element = sample_element();
    let camera = "cam-take";
    set_control_by_name(&mut pending, camera, "analogue-gain", 300, Some(&element)).unwrap();
    let values = pending.take_dirty_pending(camera).unwrap();
    assert_eq!(value_of(&values, "analogue-gain"), Some(300));
    assert_eq!(value_of(&values, "analogue-gain-mode"), Some(1));
    assert!(!pending.any_dirty());
    assert!(pending.take_dirty_pending(camera).is_none());
    // The queued values stay for later reads.
    assert_eq!(pending.pending_value(camera, "analogue-gain"), Some(300));
}

#[test]
fn set_control_without_element_queues_only_the_value() {
    let mut pending = PendingControls::new();
    let camera = "cam-bare";
    set_control_by_name(&mut pending, camera, "exposure-time", 5, None).unwrap();
    let values = pending.copy_pending(camera).unwrap();
    assert_eq!(values.len(), 1);
    assert_eq!(value_of(&values, "exposure-time"), Some(5));
}

#[test]
fn store_for_one_camera_leaves_others() {
    let mut pending = PendingControls::new();
    pending.store_pending("a", "brightness", 1);
    pending.store_pending("b", "brightness", 2);
    pending.store_pending("a", "contrast", 3);
    assert_eq!(pending.pending_value("a", "brightness"), Some(1));
    assert_eq!(pending.pending_value("b", "brightness"), Some(2));
    assert_eq!(pending.pending_value("b", "contrast"), None);
    assert!(!pending.any_dirty());
}

#[test]
fn apply_order_puts_gates_first() {
    let entry = |property: &str, value: i64| PendingValue { property: property.into(), value };
    let ordered = apply_order(vec![
        entry("analogue-gain", 1),
        entry("ae-enable", 0),
        entry("exposure-time", 2),
        entry("analogue-gain-mode", 1),
    ]);
    let names: Vec<&str> = ordered.iter().map(|entry| entry.property.as_str()).collect();
    assert_eq!(
        names,
        vec!["ae-enable", "analogue-gain-mode", "analogue-gain", "exposure-time"]
    );
}

#[test]
fn apply_dirty_pending_orders_gates_first_and_clears_dirty() {
    let mut pending = PendingControls::new();
    let element = sample_element();
    let camera = "cam-apply";
    set_control_by_name(&mut pending, camera, "exposure-time", 100, Some(&element)).unwrap();
    let values = apply_dirty_pending_to_element(&mut pending, camera).unwrap();
    let first_value = values
        .iter()
        .position(|entry| !is_mode_like_property(&entry.property))
        .unwrap();
    assert!(values[first_value..]
        .iter()
        .all(|entry| !is_mode_like_property(&entry.property)));
    assert!(apply_dirty_pending_to_element(&mut pending, camera).is_none());
    let again = apply_pending_to_element(&mut pending, camera).unwrap();
    assert_eq!(again.len(), values.len());
}

#[test]
fn reset_controls_queues_defaults_of_inactive_controls_too() {
    let mut pending = PendingControls::new();
    let mut inactive = brightness_control(500);
    inactive.state.is_inactive = true;
    if let ControlType::Slider(ref mut slider) = inactive.configuration {
        slider.default = 7;
    }
    let mut active = brightness_control(300);
    active.name = "contrast".into();
    assert!(reset_controls(&mut pending, "cam-reset", &[inactive, active]).is_ok());
    assert_eq!(pending.pending_value("cam-reset", "brightness"), Some(7));
    assert_eq!(pending.pending_value("cam-reset", "contrast"), Some(0));
    assert!(pending.any_dirty());
}

#[test]
fn apply_order_keeps_each_group_ascending() {
    let mut pending = PendingControls::new();
    pending.store_pending("cam-order", "saturation", 1);
    pending.store_pending("cam-order", "ae-enable", 1);
    pending.store_pending("cam-order", "brightness", 2);
    pending.store_pending("cam-order", "awb-mode", 0);
    let values = apply_pending_to_element(&mut pending, "cam-order").unwrap();
    let names: Vec<&str> = values.iter().map(|entry| entry.property.as_str()).collect();
    assert_eq!(names, vec!["ae-enable", "awb-mode", "brightness", "saturation"]);
}

#[test]
fn nothing_queued_applies_nothing_and_keeps_dirty_cameras() {
    let mut pending = PendingControls::new();
    pending.store_pending("cam-other", "brightness", 3);
    pending.mark_dirty("cam-other");
    assert!(apply_pending_to_element(&mut pending, "cam-fresh").is_none());
    assert!(pending.any_dirty());
    assert!(apply_dirty_pending_to_element(&mut pending, "cam-fresh").is_none());
    assert!(pending.any_dirty());
}

#[test]
fn controls_are_found_by_id_with_their_current_value() {
    let mut pending = PendingControls::new();
    let mut first = brightness_control(0);
    first.name = "custom-first".into();
    let mut second = brightness_control(0);
    second.name = "custom-second".into();
    second.id = 2;
    let schema = vec![first, second];
    pending.store_pending("cam-find", "custom-second", 42);
    let found = find_control(&pending, "cam-find", schema.clone(), 2).unwrap();
    assert_eq!(found.name, "custom-second");
    assert_eq!(control_value_by_id(&pending, "cam-find", schema.clone(), 2), Ok(42));
    assert_eq!(control_value_by_id(&pending, "cam-find", schema.clone(), 1), Ok(0));
    assert!(find_control(&pending, "cam-find", schema.clone(), 9).is_none());
    assert_eq!(
        control_value_by_id(&pending, "cam-find", schema, 9),
        Err(ControlLookupError::NotFound)
    );
}
