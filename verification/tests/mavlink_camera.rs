use mavlink_camera_manager::mavlink_camera::{
    allocate_camera_index, camera_action, camera_component_id, drop_id, heartbeat_step, keeps_receiving,
    heartbeat_countdown_step, new_component_id, RESTART_COUNTDOWN,
    release_camera_index, reset_command_result, set_parameter_ack, CameraAction, CameraCommand,
    CommandResult, HeartbeatAction, InboundMessage, ParamAck, ThreadState,
};
use mavlink_camera_manager::mavlink_params::ParamExtType;

fn param_id(text: &str) -> [u8; 16] {
    let mut id = [0u8; 16];
    id[..text.len()].copy_from_slice(text.as_bytes());
    id
}

fn param_value(value: i64) -> [u8; 128] {
    let mut bytes = [0u8; 128];
    bytes[..8].copy_from_slice(&value.to_le_bytes());
    bytes
}

#[test]
fn camera_indices_take_the_smallest_free_one() {
    let mut used = Vec::new();
    assert_eq!(allocate_camera_index(&mut used), 0);
    assert_eq!(allocate_camera_index(&mut used), 1);
    assert_eq!(allocate_camera_index(&mut used), 2);
    release_camera_index(&mut used, 1);
    assert_eq!(used, vec![0, 2]);
    assert_eq!(allocate_camera_index(&mut used), 1);
    assert_eq!(camera_component_id(0), 100);
    assert_eq!(camera_component_id(3), 103);
}

#[test]
fn heartbeat_ticks_follow_the_thread_state() {
    assert_eq!(heartbeat_step(ThreadState::Running), HeartbeatAction::SendHeartbeat);
    assert_eq!(heartbeat_step(ThreadState::Zombie), HeartbeatAction::Skip);
    assert_eq!(heartbeat_step(ThreadState::Dead), HeartbeatAction::Stop);
    assert_eq!(heartbeat_step(ThreadState::Restart), HeartbeatAction::Pause(3));
    assert!(keeps_receiving(ThreadState::Running));
    assert!(keeps_receiving(ThreadState::Zombie));
    assert!(!keeps_receiving(ThreadState::Dead));
}

#[test]
fn commands_for_this_camera_are_answered() {
    let command = |command| InboundMessage::CommandLong {
        target_system: 1,
        target_component: 100,
        command,
    };
    assert!(matches!(
        camera_action(1, 100, &command(CameraCommand::RequestCameraInformation)),
        CameraAction::SendCameraInformation
    ));
    assert!(matches!(
        camera_action(1, 100, &command(CameraCommand::RequestVideoStreamInformation)),
        CameraAction::SendVideoStreamInformation
    ));
    assert!(matches!(
        camera_action(1, 100, &command(CameraCommand::ResetCameraSettings)),
        CameraAction::ResetControls
    ));
    assert!(matches!(
        camera_action(1, 100, &command(CameraCommand::Other)),
        CameraAction::UnhandledCommand
    ));
}

#[test]
fn messages_for_other_components_are_ignored() {
    let wrong_component = InboundMessage::CommandLong {
        target_system: 1,
        target_component: 101,
        command: CameraCommand::RequestCameraSettings,
    };
    assert!(matches!(camera_action(1, 100, &wrong_component), CameraAction::Ignore));
    let wrong_system = InboundMessage::ParamExtRequestList {
        target_system: 2,
        target_component: 100,
    };
    assert!(matches!(camera_action(1, 100, &wrong_system), CameraAction::Ignore));
    assert!(matches!(camera_action(1, 100, &InboundMessage::Heartbeat), CameraAction::Ignore));
}

#[test]
fn parameter_writes_decode_id_and_value() {
    let message = InboundMessage::ParamExtSet {
        target_system: 1,
        target_component: 100,
        param_id: param_id("9963776"),
        param_value: param_value(-42),
        param_type: ParamExtType::Int64,
    };
    match camera_action(1, 100, &message) {
        CameraAction::SetControl { control_id, value } => {
            assert_eq!(control_id, 9963776);
            assert_eq!(value, -42);
        }
        other => panic!("unexpected action {other:?}"),
    }
    let unreadable = InboundMessage::ParamExtSet {
        target_system: 1,
        target_component: 100,
        param_id: param_id("not-a-number"),
        param_value: param_value(1),
        param_type: ParamExtType::Int64,
    };
    assert!(matches!(camera_action(1, 100, &unreadable), CameraAction::Ignore));
    let untyped = InboundMessage::ParamExtSet {
        target_system: 1,
        target_component: 100,
        param_id: param_id("12"),
        param_value: param_value(1),
        param_type: ParamExtType::Real32,
    };
    assert!(matches!(camera_action(1, 100, &untyped), CameraAction::Ignore));
}

#[test]
fn parameter_reads_and_lists_are_answered() {
    let read = InboundMessage::ParamExtRequestRead {
        target_system: 1,
        target_component: 100,
        param_index: -1,
        param_id: param_id("12"),
    };
    match camera_action(1, 100, &read) {
        CameraAction::ReadParameter {
            param_index,
            param_id: id,
        } => {
            assert_eq!(param_index, -1);
            assert_eq!(id, param_id("12"));
        }
        other => panic!("unexpected action {other:?}"),
    }
    let list = InboundMessage::ParamExtRequestList {
        target_system: 1,
        target_component: 100,
    };
    assert!(matches!(camera_action(1, 100, &list), CameraAction::ListParameters));
}

#[test]
fn acknowledgements_follow_the_outcome() {
    assert_eq!(reset_command_result(true), CommandResult::Accepted);
    assert_eq!(reset_command_result(false), CommandResult::Denied);
    assert_eq!(set_parameter_ack(true), ParamAck::Accepted);
    assert_eq!(set_parameter_ack(false), ParamAck::Failed);
}

#[test]
fn component_ids_start_at_the_first_camera() {
    let mut used = Vec::new();
    assert_eq!(new_component_id(&mut used), 100);
    assert_eq!(new_component_id(&mut used), 101);
    assert!(drop_id(&mut used, 100));
    assert!(!drop_id(&mut used, 100));
    assert_eq!(new_component_id(&mut used), 100);
    assert_eq!(used, vec![101, 100]);
}

#[test]
fn uri_change_holds_back_heartbeats_for_the_countdown() {
    let mut countdown = RESTART_COUNTDOWN;
    let mut sent = 0;
    for _ in 0..8 {
        let (next, send) = heartbeat_countdown_step(countdown);
        countdown = next;
        if send {
            sent += 1;
        }
    }
    assert_eq!(sent, 3);
    assert_eq!(countdown, 0);
}
