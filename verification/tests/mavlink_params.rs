use mavlink_camera_manager::controls::{Control, ControlBool, ControlSlider, ControlState, ControlType};
use mavlink_camera_manager::mavlink_params::{
    control_id_from_param_id, control_value_from_param_value,
    from_string_to_sized_u8_array_with_null_terminator, get_param_index_and_control_id,
    param_id_from_control_id, param_value_from_control_value, parameter_list, ParamExtType,
};

fn control(id: u64, configuration: ControlType) -> Control {
    Control {
        name: format!("control {id}"),
        element: "v4l2src".into(),
        cpp_type: "int64".into(),
        id,
        state: ControlState::default(),
        configuration,
        mutable_in_playing: false,
        requires_restart: false,
        nick: String::new(),
        blurb: None,
        docs_url: None,
        plugin_name: None,
    }
}

fn slider(value: i64) -> ControlType {
    ControlType::Slider(ControlSlider {
        default: 0,
        value,
        step: 1,
        max: 100,
        min: -100,
    })
}

#[test]
fn names_are_truncated_before_their_terminator() {
    let buf: [u8; 4] = from_string_to_sized_u8_array_with_null_terminator("camera");
    assert_eq!(buf, *b"cam\0");
    let buf: [u8; 6] = from_string_to_sized_u8_array_with_null_terminator("ab");
    assert_eq!(buf, *b"ab\0\0\0\0");
}

#[test]
fn control_values_travel_as_little_endian_bytes() {
    let buf: [u8; 10] = param_value_from_control_value(0x0102);
    assert_eq!(buf, [2, 1, 0, 0, 0, 0, 0, 0, 0, 0]);
    let buf: [u8; 2] = param_value_from_control_value(-1);
    assert_eq!(buf, [0xff, 0xff]);
    assert_eq!(control_value_from_param_value(&[2, 1, 0, 0, 0, 0, 0, 0], ParamExtType::Int64), Some(0x0102));
    assert_eq!(control_value_from_param_value(&[0xff, 0xff, 0xff, 0xff], ParamExtType::Int32), Some(-1));
    assert_eq!(control_value_from_param_value(&[0xff], ParamExtType::Uint8), Some(255));
    assert_eq!(control_value_from_param_value(&[1, 0], ParamExtType::Uint16), None);
}

#[test]
fn control_ids_travel_as_decimal_text() {
    let buf: [u8; 16] = param_id_from_control_id(9_876_543);
    assert_eq!(&buf[..8], b"9876543\0");
    assert_eq!(control_id_from_param_id(&buf), Some(9_876_543));
    let bad: [u8; 16] = *b"12ab\0\0\0\0\0\0\0\0\0\0\0\0";
    assert_eq!(control_id_from_param_id(&bad), None);
}

#[test]
fn parameter_requests_go_by_index_or_by_id() {
    let controls = vec![control(10, slider(1)), control(20, slider(2))];
    let by_id: [u8; 16] = param_id_from_control_id(20);
    assert_eq!(get_param_index_and_control_id(-1, &by_id, &controls), Some((1, 20)));
    let unknown: [u8; 16] = param_id_from_control_id(30);
    assert_eq!(get_param_index_and_control_id(-1, &unknown, &controls), None);
    assert_eq!(get_param_index_and_control_id(0, &unknown, &controls), Some((0, 10)));
    assert_eq!(get_param_index_and_control_id(2, &unknown, &controls), None);
}

#[test]
fn parameter_list_answers_every_control_in_order() {
    let controls = vec![
        control(10, slider(-3)),
        control(7, ControlType::Bool(ControlBool { default: 0, value: 1 })),
    ];
    let list = parameter_list(&controls);
    assert_eq!(list.len(), 2);
    assert_eq!(list[0].param_count, 2);
    assert_eq!(list[0].param_index, 0);
    assert_eq!(&list[0].param_id[..3], b"10\0");
    assert_eq!(&list[0].param_value[..8], &(-3i64).to_le_bytes());
    assert_eq!(list[1].param_index, 1);
    assert_eq!(&list[1].param_id[..2], b"7\0");
    assert_eq!(list[1].param_value[0], 1);
    assert!(list[1].param_value[1..].iter().all(|&b| b == 0));
}

#[test]
fn eight_digit_control_ids_round_trip() {
    for id in [0u64, 7, 10, 99_999_999] {
        let buf: [u8; 8] = param_id_from_control_id(id);
        assert_eq!(control_id_from_param_id(&buf), Some(id));
    }
}

#[test]
fn long_control_ids_keep_their_first_eight_digits() {
    let buf: [u8; 16] = param_id_from_control_id(123_456_789_012);
    assert_eq!(control_id_from_param_id(&buf), Some(12_345_678));
    let buf: [u8; 8] = param_id_from_control_id(100_000_000);
    assert_eq!(control_id_from_param_id(&buf), Some(10_000_000));
}
