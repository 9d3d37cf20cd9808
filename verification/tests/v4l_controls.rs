use mavlink_camera_manager::controls::{ControlSlider, ControlType};
use mavlink_camera_manager::v4l_controls::{
    control_from_description, controls_from_descriptions, needs_value, refresh_control_values,
    V4lControlDescription, V4lControlKind, V4lMenuItem,
};

fn description(id: u32, name: &str, kind: V4lControlKind) -> V4lControlDescription {
    V4lControlDescription {
        id,
        kind,
        name: name.to_string(),
        minimum: -10,
        maximum: 10,
        step: 2,
        default: 4,
        is_disabled: false,
        is_inactive: true,
        items: None,
    }
}

#[test]
fn integer_controls_become_sliders() {
    let control =
        control_from_description(&description(7, "Brightness", V4lControlKind::Integer), Some(6))
            .unwrap();
    assert_eq!(control.name, "Brightness");
    assert_eq!(control.id, 7);
    assert_eq!(control.cpp_type, "int64");
    assert!(control.state.is_inactive);
    assert_eq!(
        control.configuration,
        ControlType::Slider(ControlSlider {
            default: 4,
            value: 6,
            step: 2,
            max: 10,
            min: -10
        })
    );
}

#[test]
fn booleans_and_menus_keep_their_shape() {
    let boolean =
        control_from_description(&description(1, "Auto", V4lControlKind::Boolean), Some(1)).unwrap();
    assert_eq!(boolean.cpp_type, "bool");
    assert!(matches!(boolean.configuration, ControlType::Bool(ref b) if b.value == 1 && b.default == 4));

    let mut menu = description(2, "Power line", V4lControlKind::Menu);
    menu.items = Some(vec![
        V4lMenuItem {
            index: 0,
            label: "Disabled".into(),
        },
        V4lMenuItem {
            index: 1,
            label: "50 Hz".into(),
        },
    ]);
    let control = control_from_description(&menu, Some(1)).unwrap();
    assert_eq!(control.cpp_type, "int32");
    match control.configuration {
        ControlType::Menu(menu) => {
            assert_eq!(menu.value, 1);
            assert_eq!(menu.options.len(), 2);
            assert_eq!(menu.options[1].name, "50 Hz");
            assert_eq!(menu.options[1].value, 1);
        }
        other => panic!("expected a menu, got {other:?}"),
    }
}

#[test]
fn headings_unreadable_and_itemless_menus_are_skipped() {
    let heading = description(3, "User Controls", V4lControlKind::CtrlClass);
    assert!(!needs_value(&heading));
    assert!(control_from_description(&heading, Some(0)).is_none());
    assert!(control_from_description(&description(4, "X", V4lControlKind::Integer), None).is_none());
    assert!(control_from_description(&description(5, "M", V4lControlKind::Menu), Some(0)).is_none());
    assert!(control_from_description(&description(6, "S", V4lControlKind::String), Some(0)).is_none());
}

#[test]
fn device_controls_keep_their_order_and_refresh_values() {
    let descriptions = vec![
        description(1, "Heading", V4lControlKind::CtrlClass),
        description(2, "Gain", V4lControlKind::Integer64),
        description(3, "Sharpness", V4lControlKind::Integer),
    ];
    let mut controls = controls_from_descriptions(&descriptions, &vec![None, Some(1), Some(2)]);
    let ids: Vec<u64> = controls.iter().map(|control| control.id).collect();
    assert_eq!(ids, vec![2, 3]);
    refresh_control_values(&mut controls, &vec![Some(8), None]);
    assert!(matches!(controls[0].configuration, ControlType::Slider(ref s) if s.value == 8));
    assert!(matches!(controls[1].configuration, ControlType::Slider(ref s) if s.value == 2));
}
