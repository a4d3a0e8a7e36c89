use jojo_device::device::{
    button_bindings, default_device, handle_command, merge_actions, message_handler,
    new_default_device, CommandEffect,
};
use jojo_device::model::{
    ActionEntry, Button, ButtonAction, ButtonMode, Device, Id, MouseButton, MouseButtonState,
};
use jojo_device::connection::{session_start, SessionStep};
use jojo_device::protocol::{
    decode_client_message, encode_client_message, encode_server_message, handshake_message, ServerMessage,
};

fn left(state: MouseButtonState) -> ButtonAction {
    ButtonAction::MouseButton(MouseButton::Left, state)
}

fn right(state: MouseButtonState) -> ButtonAction {
    ButtonAction::MouseButton(MouseButton::Right, state)
}

#[test]
fn default_layout() {
    let d = default_device(Id(1), Id(2), Id(3));
    assert_eq!(d.name, b"device_1".to_vec());
    assert_eq!(d.buttons.len(), 2);
    assert_eq!(d.buttons[0].name, b"button_0".to_vec());
    assert_eq!(d.buttons[0].mode, ButtonMode::Hold);
    assert_eq!(d.buttons[1].mode, ButtonMode::Click);
    assert_eq!(d.actions_map[1].actions.len(), 5);
    let b = button_bindings(&d).unwrap();
    assert_eq!(b[0].button, Id(2));
    assert_eq!(format!("{:?}", b[0].actions), format!("{:?}", vec![left(MouseButtonState::Up)]));
}

#[test]
fn fresh_devices_get_random_version_4_ids() {
    let a = new_default_device();
    let b = new_default_device();
    assert_ne!(a.id, b.id);
    assert_ne!(a.buttons[0].id, a.buttons[1].id);
    assert_eq!((a.id.0 >> 76) & 0xf, 4);
    assert_eq!((a.id.0 >> 62) & 0x3, 2);
}

#[test]
fn missing_bindings_name_the_button() {
    let d = Device::new(
        Id(9),
        b"pad".to_vec(),
        None,
        vec![Button::new(Id(1), b"a".to_vec(), ButtonMode::Hold), Button::new(Id(2), b"b".to_vec(), ButtonMode::Click)],
        vec![ActionEntry { button: Id(1), actions: Vec::new() }],
    );
    assert_eq!(button_bindings(&d).unwrap_err(), Id(2));
}

#[test]
fn update_replaces_and_adds_bindings() {
    let mut m = vec![
        ActionEntry { button: Id(1), actions: vec![left(MouseButtonState::Up)] },
        ActionEntry { button: Id(2), actions: vec![right(MouseButtonState::Up)] },
    ];
    let upd = vec![
        ActionEntry { button: Id(2), actions: vec![left(MouseButtonState::Down)] },
        ActionEntry { button: Id(3), actions: Vec::new() },
        ActionEntry { button: Id(2), actions: vec![right(MouseButtonState::Down)] },
    ];
    merge_actions(&mut m, &upd);
    let keys: Vec<Id> = m.iter().map(|e| e.button).collect();
    assert_eq!(keys, vec![Id(1), Id(2), Id(3)]);
    assert_eq!(format!("{:?}", m[1].actions), format!("{:?}", vec![right(MouseButtonState::Down)]));
    assert_eq!(format!("{:?}", m[0].actions), format!("{:?}", vec![left(MouseButtonState::Up)]));
}

#[test]
fn commands_lead_to_restart() {
    let d = default_device(Id(1), Id(2), Id(3));
    let upd = ServerMessage::UpdateDevice(Id(1), vec![ActionEntry { button: Id(2), actions: vec![right(MouseButtonState::Up)] }]);
    match handle_command(&d, &upd) {
        CommandEffect::PersistAndRestart(n) => {
            assert_eq!(n.id, Id(1));
            assert_eq!(n.actions_map.len(), 2);
            assert_eq!(format!("{:?}", n.actions_map[0].actions), format!("{:?}", vec![right(MouseButtonState::Up)]));
            let back = Device::from_bytes(&n.to_bytes()).unwrap();
            assert_eq!(format!("{:?}", back), format!("{:?}", n));
        }
        other => panic!("unexpected {:?}", other),
    }
    assert!(matches!(handle_command(&d, &ServerMessage::RestartDevice(Id(1))), CommandEffect::Restart));
    assert!(matches!(
        handle_command(&d, &ServerMessage::ClearCredentials(Id(1))),
        CommandEffect::ClearCredentialsAndRestart
    ));
}

#[test]
fn frames_from_the_host() {
    let d = default_device(Id(1), Id(2), Id(3));
    assert!(message_handler(&d, &[1, 2, 3]).is_none());
    let frame = encode_server_message(&ServerMessage::RestartDevice(Id(1)));
    assert!(matches!(message_handler(&d, &frame), Some(CommandEffect::Restart)));
}

#[test]
fn stored_device_must_be_exact() {
    let d = default_device(Id(1), Id(2), Id(3));
    let mut bytes = d.to_bytes();
    assert!(Device::from_bytes(&bytes).is_some());
    bytes.push(7);
    assert!(Device::from_bytes(&bytes).is_none());
    assert!(Device::from_bytes(&[]).is_none());
}

#[test]
fn default_gamepad_layout() {
    let d = jojo_device::device::default_gamepad(Id(1), Id(2), Id(3));
    assert_eq!(d.name, b"joystick_1".to_vec());
    assert!(d.mouse_config.is_none());
    assert_eq!(d.buttons[1].mode, ButtonMode::Hold);
    let b = button_bindings(&d).unwrap();
    assert_eq!(
        format!("{:?}", b[1].actions),
        format!("{:?}", vec![ButtonAction::GamepadButton(2, jojo_device::model::GamepadButtonState::Released)])
    );
    let g = jojo_device::device::new_default_gamepad();
    assert_ne!(g.buttons[0].id, g.buttons[1].id);
}

#[test]
fn distinct_id_keeps_version_bits() {
    let v4 = Id(0x340917e8_87a9_455c_9645_d08eb99162f9);
    assert_eq!(jojo_device::ids::distinct_id(v4, Id(7)), v4);
    let other = jojo_device::ids::distinct_id(v4, v4);
    assert_eq!(other, Id(0x340917e8_87a9_455c_9645_d08eb99162f8));
    assert_eq!((other.0 >> 76) & 0xf, 4);
    assert_eq!((other.0 >> 62) & 0x3, 2);
}

#[test]
fn stored_device_binding_a_button_twice_is_refused() {
    let d = Device::new(
        Id(9),
        b"pad".to_vec(),
        None,
        vec![Button::new(Id(1), b"a".to_vec(), ButtonMode::Hold)],
        vec![
            ActionEntry { button: Id(1), actions: Vec::new() },
            ActionEntry { button: Id(1), actions: vec![left(MouseButtonState::Up)] },
        ],
    );
    assert!(Device::from_bytes(&d.to_bytes()).is_none());
    assert!(!jojo_device::device::has_unique_keys(&d.actions_map));
}

#[test]
fn session_starts_with_the_handshake() {
    let d = default_device(Id(1), Id(2), Id(3));
    let steps = session_start(&d);
    let frame = encode_client_message(&handshake_message(d.clone()));
    assert_eq!(
        steps,
        vec![SessionStep::SendHandshake(frame.clone()), SessionStep::StartReader, SessionStep::StartWriter, SessionStep::OpenGate]
    );
    assert!(decode_client_message(&frame).is_some());
}
