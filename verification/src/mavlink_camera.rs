//! The decisions of a MAVLink camera component: which component id it
//! takes, what each heartbeat tick does, and how it answers each message
//! from the ground station. Sending and receiving stay with the caller,
//! which performs the action decided here.
use vstd::prelude::*;
use crate::mavlink_params::{
    control_id_from_param_id, control_id_spec, control_value_from_param_value, control_value_spec,
    ParamExtType,
};

verus! {

/// MAVLink component id of the first camera.
pub const MAV_COMP_ID_CAMERA: u8 = 100;

/// The smallest id from `first` on that is not in `used`.
pub open spec fn is_smallest_free_from(used: Seq<u8>, first: u8, id: u8) -> bool {
    &&& first <= id
    &&& !used.contains(id)
    &&& forall|k: u8| first <= k < id ==> used.contains(k)
}

/// The smallest camera index not in `used`.
pub open spec fn is_smallest_free(used: Seq<u8>, id: u8) -> bool {
    is_smallest_free_from(used, 0, id)
}

/// Takes the smallest id from `first` on that is not taken yet.
pub fn allocate_id(used: &mut Vec<u8>, first: u8) -> (id: u8)
    requires
        exists|k: u8| first <= k && !old(used)@.contains(k),
    ensures
        is_smallest_free_from(old(used)@, first, id),
        final(used)@ == old(used)@.push(id),
{
    let mut id: u8 = first;
    loop
        invariant
            exists|k: u8| first <= k && !used@.contains(k),
            first <= id,
            forall|k: u8| first <= k < id ==> used@.contains(k),
            used@ == old(used)@,
        decreases 255 - id,
    {
        let mut taken = false;
        let mut i: usize = 0;
        while i < used.len()
            invariant
                i <= used@.len(),
                taken == exists|j: int| 0 <= j < i && used@[j] == id,
            decreases used@.len() - i,
        {
            if used[i] == id {
                taken = true;
            }
            i = i + 1;
        }
        if !taken {
            used.push(id);
            return id;
        }
        proof {
            assert(used@.contains(id));
            if id == 255 {
                let k = choose|k: u8| first <= k && !used@.contains(k);
                assert(k <= id);
                assert(false);
            }
        }
        id = id + 1;
    }
}

/// Takes the smallest camera index that no other camera holds.
pub fn allocate_camera_index(used: &mut Vec<u8>) -> (id: u8)
    requires
        exists|k: u8| !old(used)@.contains(k),
    ensures
        is_smallest_free(old(used)@, id),
        final(used)@ == old(used)@.push(id),
{
    assert(exists|k: u8| 0 <= k && !used@.contains(k));
    allocate_id(used, 0)
}

/// Takes the smallest component id from the first camera's on that no
/// other camera holds.
pub fn new_component_id(used: &mut Vec<u8>) -> (id: u8)
    requires
        exists|k: u8| MAV_COMP_ID_CAMERA <= k && !old(used)@.contains(k),
    ensures
        is_smallest_free_from(old(used)@, MAV_COMP_ID_CAMERA, id),
        final(used)@ == old(used)@.push(id),
{
    allocate_id(used, MAV_COMP_ID_CAMERA)
}

/// Gives back component id `id`; `false`, with nothing changed, when it was
/// not taken.
pub fn drop_id(used: &mut Vec<u8>, id: u8) -> (found: bool)
    ensures
        found == old(used)@.contains(id),
        found ==> exists|p: int|
            0 <= p < old(used)@.len() && old(used)@[p] == id && final(used)@ == old(used)@.remove(p),
        !found ==> final(used)@ == old(used)@,
{
    let mut p: usize = 0;
    while p < used.len() && used[p] != id
        invariant
            p <= used@.len(),
            used@ == old(used)@,
            forall|k: int| 0 <= k < p ==> used@[k] != id,
        decreases used@.len() - p,
    {
        p = p + 1;
    }
    if p == used.len() {
        return false;
    }
    used.remove(p);
    true
}

/// Gives back camera index `id`, taken before.
pub fn release_camera_index(used: &mut Vec<u8>, id: u8)
    requires
        old(used)@.contains(id),
    ensures
        exists|p: int| 0 <= p < old(used)@.len() && old(used)@[p] == id && final(used)@ == old(used)@.remove(p) && forall|
            k: int,
        | 0 <= k < p ==> old(used)@[k] != id,
{
    let mut p: usize = 0;
    while p < used.len() && used[p] != id
        invariant
            p <= used@.len(),
            used@ == old(used)@,
            old(used)@.contains(id),
            forall|k: int| 0 <= k < p ==> used@[k] != id,
        decreases used@.len() - p,
    {
        p = p + 1;
    }
    proof {
        if p == used@.len() {
            let j = choose|j: int| 0 <= j < used@.len() && used@[j] == id;
            assert(false);
        }
    }
    used.remove(p);
}

/// The MAVLink component id of the camera with index `id`.
pub fn camera_component_id(id: u8) -> (r: u8)
    requires
        id <= 155,
    ensures
        r == MAV_COMP_ID_CAMERA + id,
{
    MAV_COMP_ID_CAMERA + id
}

/// Lifecycle of the camera's threads.
#[derive(Clone, Copy, Debug, PartialEq, Eq, Structural)]
pub enum ThreadState {
    Dead,
    Running,
    Zombie,
    Restart,
}

/// What a heartbeat tick does.
#[derive(Clone, Copy, Debug, PartialEq, Eq, Structural)]
pub enum HeartbeatAction {
    /// Stay quiet this tick.
    Skip,
    /// The camera is gone: stop the heartbeat.
    Stop,
    /// Wait this many seconds before the next tick.
    Pause(u64),
    SendHeartbeat,
}

/// A heartbeat tick in `state`: a zombie stays quiet, a dead camera stops,
/// a restarting one pauses three seconds, a running one sends a heartbeat.
pub fn heartbeat_step(state: ThreadState) -> (r: HeartbeatAction)
    ensures
        r == match state {
            ThreadState::Zombie => HeartbeatAction::Skip,
            ThreadState::Dead => HeartbeatAction::Stop,
            ThreadState::Restart => HeartbeatAction::Pause(3),
            ThreadState::Running => HeartbeatAction::SendHeartbeat,
        },
{
    match state {
        ThreadState::Zombie => HeartbeatAction::Skip,
        ThreadState::Dead => HeartbeatAction::Stop,
        ThreadState::Restart => HeartbeatAction::Pause(3),
        ThreadState::Running => HeartbeatAction::SendHeartbeat,
    }
}

/// The receiving side keeps going until the camera is dead.
pub fn keeps_receiving(state: ThreadState) -> (r: bool)
    ensures
        r == (state != ThreadState::Dead),
{
    match state {
        ThreadState::Dead => false,
        _ => true,
    }
}

/// The camera commands of a `COMMAND_LONG` this component answers.
#[derive(Clone, Copy, Debug, PartialEq, Eq, Structural)]
pub enum CameraCommand {
    RequestCameraInformation,
    RequestCameraSettings,
    RequestStorageInformation,
    RequestCameraCaptureStatus,
    RequestVideoStreamInformation,
    ResetCameraSettings,
    /// Any other command.
    Other,
}

/// What of a received message the answer depends on.
pub enum InboundMessage {
    CommandLong { target_system: u8, target_component: u8, command: CameraCommand },
    ParamExtSet {
        target_system: u8,
        target_component: u8,
        param_id: [u8; 16],
        param_value: [u8; 128],
        param_type: ParamExtType,
    },
    ParamExtRequestRead { target_system: u8, target_component: u8, param_index: i16, param_id: [u8; 16] },
    ParamExtRequestList { target_system: u8, target_component: u8 },
    Heartbeat,
    /// Any other message.
    Other,
}

/// The answer to a received message.
#[derive(Clone, Copy, Debug)]
pub enum CameraAction {
    /// Nothing to send: the message is for another component, cannot be
    /// read, or needs no answer.
    Ignore,
    SendCameraInformation,
    SendCameraSettings,
    SendStorageInformation,
    SendCaptureStatus,
    SendVideoStreamInformation,
    /// Reset the source's controls to their defaults, then acknowledge.
    ResetControls,
    /// A command this component does not handle: report it.
    UnhandledCommand,
    /// Set a control, then acknowledge with the parameter.
    SetControl { control_id: u64, value: i64 },
    /// Answer with one parameter, found among the source's controls by
    /// index, or by id when the index is -1.
    ReadParameter { param_index: i16, param_id: [u8; 16] },
    /// Answer with every parameter.
    ListParameters,
}

/// The message is addressed to this component.
pub open spec fn addressed(target_system: u8, target_component: u8, system_id: u8, component_id: u8) -> bool {
    target_system == system_id && target_component == component_id
}

/// The answer of component `component_id` of system `system_id` to `message`.
pub open spec fn camera_action_spec(system_id: u8, component_id: u8, message: InboundMessage) -> CameraAction {
    match message {
        InboundMessage::CommandLong { target_system, target_component, command } => if !addressed(
            target_system,
            target_component,
            system_id,
            component_id,
        ) {
            CameraAction::Ignore
        } else {
            match command {
                CameraCommand::RequestCameraInformation => CameraAction::SendCameraInformation,
                CameraCommand::RequestCameraSettings => CameraAction::SendCameraSettings,
                CameraCommand::RequestStorageInformation => CameraAction::SendStorageInformation,
                CameraCommand::RequestCameraCaptureStatus => CameraAction::SendCaptureStatus,
                CameraCommand::RequestVideoStreamInformation => CameraAction::SendVideoStreamInformation,
                CameraCommand::ResetCameraSettings => CameraAction::ResetControls,
                CameraCommand::Other => CameraAction::UnhandledCommand,
            }
        },
        InboundMessage::ParamExtSet { target_system, target_component, param_id, param_value, param_type } => {
            if !addressed(target_system, target_component, system_id, component_id) {
                CameraAction::Ignore
            } else {
                match (control_id_spec(param_id@), control_value_spec(param_value@, param_type)) {
                    (Some(control_id), Some(value)) => CameraAction::SetControl { control_id, value },
                    _ => CameraAction::Ignore,
                }
            }
        },
        InboundMessage::ParamExtRequestRead { target_system, target_component, param_index, param_id } => {
            if !addressed(target_system, target_component, system_id, component_id) {
                CameraAction::Ignore
            } else {
                CameraAction::ReadParameter { param_index, param_id }
            }
        },
        InboundMessage::ParamExtRequestList { target_system, target_component } => if !addressed(
            target_system,
            target_component,
            system_id,
            component_id,
        ) {
            CameraAction::Ignore
        } else {
            CameraAction::ListParameters
        },
        InboundMessage::Heartbeat => CameraAction::Ignore,
        InboundMessage::Other => CameraAction::Ignore,
    }
}

/// How component `component_id` of system `system_id` answers `message`.
pub fn camera_action(system_id: u8, component_id: u8, message: &InboundMessage) -> (r: CameraAction)
    ensures
        r == camera_action_spec(system_id, component_id, *message),
{
    match message {
        InboundMessage::CommandLong { target_system, target_component, command } => {
            if *target_system != system_id || *target_component != component_id {
                return CameraAction::Ignore;
            }
            match command {
                CameraCommand::RequestCameraInformation => CameraAction::SendCameraInformation,
                CameraCommand::RequestCameraSettings => CameraAction::SendCameraSettings,
                CameraCommand::RequestStorageInformation => CameraAction::SendStorageInformation,
                CameraCommand::RequestCameraCaptureStatus => CameraAction::SendCaptureStatus,
                CameraCommand::RequestVideoStreamInformation => CameraAction::SendVideoStreamInformation,
                CameraCommand::ResetCameraSettings => CameraAction::ResetControls,
                CameraCommand::Other => CameraAction::UnhandledCommand,
            }
        },
        InboundMessage::ParamExtSet { target_system, target_component, param_id, param_value, param_type } => {
            if *target_system != system_id || *target_component != component_id {
                return CameraAction::Ignore;
            }
            let control_id = match control_id_from_param_id(param_id) {
                Some(id) => id,
                None => return CameraAction::Ignore,
            };
            match control_value_from_param_value(param_value, *param_type) {
                Some(value) => CameraAction::SetControl { control_id, value },
                None => CameraAction::Ignore,
            }
        },
        InboundMessage::ParamExtRequestRead { target_system, target_component, param_index, param_id } => {
            if *target_system != system_id || *target_component != component_id {
                return CameraAction::Ignore;
            }
            CameraAction::ReadParameter { param_index: *param_index, param_id: *param_id }
        },
        InboundMessage::ParamExtRequestList { target_system, target_component } => {
            if *target_system != system_id || *target_component != component_id {
                return CameraAction::Ignore;
            }
            CameraAction::ListParameters
        },
        InboundMessage::Heartbeat => CameraAction::Ignore,
        InboundMessage::Other => CameraAction::Ignore,
    }
}

/// Result of a command acknowledgement.
#[derive(Clone, Copy, Debug, PartialEq, Eq, Structural)]
pub enum CommandResult {
    Accepted,
    Denied,
}

/// Result of a parameter acknowledgement.
#[derive(Clone, Copy, Debug, PartialEq, Eq, Structural)]
pub enum ParamAck {
    Accepted,
    Failed,
}

/// The acknowledgement of a camera settings reset: accepted when the
/// controls were reset.
pub fn reset_command_result(reset_succeeded: bool) -> (r: CommandResult)
    ensures
        r == if reset_succeeded {
            CommandResult::Accepted
        } else {
            CommandResult::Denied
        },
{
    if reset_succeeded {
        CommandResult::Accepted
    } else {
        CommandResult::Denied
    }
}

/// The acknowledgement of a parameter write: accepted when the control
/// was set.
pub fn set_parameter_ack(set_succeeded: bool) -> (r: ParamAck)
    ensures
        r == if set_succeeded {
            ParamAck::Accepted
        } else {
            ParamAck::Failed
        },
{
    if set_succeeded {
        ParamAck::Accepted
    } else {
        ParamAck::Failed
    }
}

/// A message for another component is never answered.
pub proof fn law_foreign_messages_ignored(system_id: u8, component_id: u8, message: InboundMessage)
    requires
        match message {
            InboundMessage::CommandLong { target_system, target_component, .. } => !addressed(
                target_system,
                target_component,
                system_id,
                component_id,
            ),
            InboundMessage::ParamExtSet { target_system, target_component, .. } => !addressed(
                target_system,
                target_component,
                system_id,
                component_id,
            ),
            InboundMessage::ParamExtRequestRead { target_system, target_component, .. } => !addressed(
                target_system,
                target_component,
                system_id,
                component_id,
            ),
            InboundMessage::ParamExtRequestList { target_system, target_component } => !addressed(
                target_system,
                target_component,
                system_id,
                component_id,
            ),
            _ => true,
        },
    ensures
        camera_action_spec(system_id, component_id, message) == CameraAction::Ignore,
{
}

/// Cameras hold distinct indices: an index just taken was held by no other
/// camera, and giving it back leaves the indices of the others.
pub proof fn law_camera_indices_distinct(used: Seq<u8>, id: u8)
    requires
        forall|i: int, j: int| 0 <= i < j < used.len() ==> used[i] != used[j],
        is_smallest_free(used, id),
    ensures
        forall|i: int, j: int| 0 <= i < j < used.push(id).len() ==> used.push(id)[i] != used.push(id)[j],
        used.push(id).remove(used.len() as int) == used,
{
    assert(used.push(id).remove(used.len() as int) =~= used);
    assert forall|i: int, j: int| 0 <= i < j < used.push(id).len() implies used.push(id)[i] != used.push(id)[j] by {
        if j == used.len() {
            assert(used[i] == used.push(id)[i]);
        }
    }
}


/// Heartbeat ticks held back after the stream URI changes, so that the
/// ground station sees the camera leave and come back with the new URI.
pub const RESTART_COUNTDOWN: u8 = 5;

/// A heartbeat tick with `countdown` ticks still to hold back: the
/// countdown left and whether a heartbeat goes out.
pub open spec fn countdown_step_spec(countdown: u8) -> (u8, bool) {
    if countdown > 0 {
        ((countdown - 1) as u8, false)
    } else {
        (0u8, true)
    }
}

/// While the countdown runs, no heartbeat and one tick less; then a
/// heartbeat every tick.
pub fn heartbeat_countdown_step(countdown: u8) -> (r: (u8, bool))
    ensures
        r == countdown_step_spec(countdown),
{
    if countdown > 0 {
        (countdown - 1, false)
    } else {
        (0, true)
    }
}

/// Heartbeats sent in `ticks` ticks from a countdown of `countdown`.
pub open spec fn heartbeats_sent(countdown: u8, ticks: nat) -> nat
    decreases ticks,
{
    if ticks == 0 {
        0
    } else {
        let (next, send) = countdown_step_spec(countdown);
        heartbeats_sent(next, (ticks - 1) as nat) + if send {
            1nat
        } else {
            0nat
        }
    }
}

/// After the stream URI changes, the first `countdown` ticks send no
/// heartbeat and every later tick sends one.
pub proof fn law_countdown_holds_back_heartbeats(countdown: u8, ticks: nat)
    ensures
        heartbeats_sent(countdown, ticks) == if ticks > countdown {
            (ticks - countdown) as nat
        } else {
            0nat
        },
    decreases ticks,
{
    if ticks > 0 {
        let (next, _) = countdown_step_spec(countdown);
        law_countdown_holds_back_heartbeats(next, (ticks - 1) as nat);
    }
}


/// An addressed request is answered with what it asks for: camera
/// information, settings, storage information, capture status or video
/// stream information each with its own message; a reset with a controls
/// reset; anything else is reported unhandled. Distinct commands never get
/// the same answer.
pub proof fn law_requests_get_their_answers(
    system_id: u8,
    component_id: u8,
    command: CameraCommand,
    other: CameraCommand,
)
    ensures
        ({
            let ask = |c: CameraCommand|
                camera_action_spec(
                    system_id,
                    component_id,
                    InboundMessage::CommandLong { target_system: system_id, target_component: component_id, command: c },
                );
            &&& ask(CameraCommand::RequestCameraInformation) is SendCameraInformation
            &&& ask(CameraCommand::RequestCameraSettings) is SendCameraSettings
            &&& ask(CameraCommand::RequestStorageInformation) is SendStorageInformation
            &&& ask(CameraCommand::RequestCameraCaptureStatus) is SendCaptureStatus
            &&& ask(CameraCommand::RequestVideoStreamInformation) is SendVideoStreamInformation
            &&& ask(CameraCommand::ResetCameraSettings) is ResetControls
            &&& ask(CameraCommand::Other) is UnhandledCommand
            &&& command != other ==> ask(command) != ask(other)
        }),
{
}


/// Addressed parameter messages are answered as asked: a write of a
/// readable id and value sets that control to that value, and is ignored
/// when either cannot be read; a read is answered with the parameter asked
/// for, and a list request with every parameter; heartbeats and other
/// messages get no answer.
pub proof fn law_parameter_messages_answered(
    system_id: u8,
    component_id: u8,
    param_id: [u8; 16],
    param_value: [u8; 128],
    param_type: ParamExtType,
    param_index: i16,
)
    ensures
        ({
            let set = camera_action_spec(
                system_id,
                component_id,
                InboundMessage::ParamExtSet {
                    target_system: system_id,
                    target_component: component_id,
                    param_id,
                    param_value,
                    param_type,
                },
            );
            &&& (control_id_spec(param_id@) is Some && control_value_spec(param_value@, param_type) is Some) ==> set
                == CameraAction::SetControl {
                control_id: control_id_spec(param_id@).unwrap(),
                value: control_value_spec(param_value@, param_type).unwrap(),
            }
            &&& (control_id_spec(param_id@) is None || control_value_spec(param_value@, param_type) is None) ==> set is Ignore
        }),
        camera_action_spec(
            system_id,
            component_id,
            InboundMessage::ParamExtRequestRead {
                target_system: system_id,
                target_component: component_id,
                param_index,
                param_id,
            },
        ) == (CameraAction::ReadParameter { param_index, param_id }),
        camera_action_spec(
            system_id,
            component_id,
            InboundMessage::ParamExtRequestList { target_system: system_id, target_component: component_id },
        ) is ListParameters,
        camera_action_spec(system_id, component_id, InboundMessage::Heartbeat) is Ignore,
        camera_action_spec(system_id, component_id, InboundMessage::Other) is Ignore,
{
}

} // verus!
