use jojo_device::device::default_device;
use jojo_device::model::{
    ActionEntry, Axis, AxisReport, ButtonAction, GamepadButtonState, Id, KeyboardButton,
    MouseButton, MouseButtonState, MouseMotion,
};
use jojo_device::protocol::{
    axis_message, button_message, decode_client_message, decode_server_message,
    encode_client_message, encode_server_message, handshake_message, motion_message, ClientMessage,
    Reads, ServerMessage,
};

const ID: u128 = 0x340917e8_87a9_455c_9645_d08eb99162f9;

fn client_round_trip(m: ClientMessage) {
    let bytes = encode_client_message(&m);
    let back = decode_client_message(&bytes).expect("decodes");
    assert_eq!(format!("{:?}", back), format!("{:?}", m));
    assert_eq!(encode_client_message(&back), bytes);
}

fn server_round_trip(m: ServerMessage) {
    let bytes = encode_server_message(&m);
    let back = decode_server_message(&bytes).expect("decodes");
    assert_eq!(format!("{:?}", back), format!("{:?}", m));
}

fn all_actions() -> Vec<ButtonAction> {
    vec![
        ButtonAction::MouseButton(MouseButton::Middle, MouseButtonState::Down),
        ButtonAction::KeyboardButton(KeyboardButton::Literal(b"Enter".to_vec())),
        ButtonAction::KeyboardButton(KeyboardButton::SequenceDsl(b"{+CTRL}a{-CTRL}".to_vec())),
        ButtonAction::GamepadButton(7, GamepadButtonState::Pressed),
        ButtonAction::CustomButton("caf\u{e9}".as_bytes().to_vec()),
    ]
}

#[test]
fn round_trip_device() {
    client_round_trip(handshake_message(default_device(Id(ID), Id(1), Id(u128::MAX))));
}

#[test]
fn round_trip_reads_all_shapes() {
    client_round_trip(ClientMessage::Reads(vec![
        Reads::new(Some(MouseMotion { x: -3, y: i32::MAX }), Some(all_actions())),
        Reads::new(None, None),
        Reads::new(Some(MouseMotion { x: i32::MIN, y: 0 }), None),
        Reads::new(None, Some(Vec::new())),
    ]));
    client_round_trip(ClientMessage::Reads(Vec::new()));
}

#[test]
fn round_trip_axis_read() {
    client_round_trip(axis_message(AxisReport { axis: Axis::Axis2, value: -30000 }));
}

#[test]
fn round_trip_commands() {
    server_round_trip(ServerMessage::UpdateDevice(
        Id(ID),
        vec![
            ActionEntry { button: Id(5), actions: all_actions() },
            ActionEntry { button: Id(6), actions: Vec::new() },
        ],
    ));
    server_round_trip(ServerMessage::RestartDevice(Id(ID)));
    server_round_trip(ServerMessage::ClearCredentials(Id(0)));
}

#[test]
fn axis_read_layout_matches_bincode() {
    let ours = encode_client_message(&axis_message(AxisReport { axis: Axis::Axis2, value: -5 }));
    let theirs = bincode::serialize(&(2u32, 1u32, -5i32)).unwrap();
    assert_eq!(ours, theirs);
}

#[test]
fn restart_layout_matches_bincode() {
    let ours = encode_server_message(&ServerMessage::RestartDevice(Id(ID)));
    let id_bytes: Vec<u8> = ID.to_be_bytes().to_vec();
    let theirs = bincode::serialize(&(1u32, id_bytes)).unwrap();
    assert_eq!(ours, theirs);
}

#[test]
fn reads_layout_matches_bincode() {
    let ours = encode_client_message(&motion_message(MouseMotion { x: 1, y: -1 }));
    let theirs = bincode::serialize(&(1u32, vec![(Some((1i32, -1i32)), Option::<Vec<u8>>::None)])).unwrap();
    assert_eq!(ours, theirs);
}

#[test]
fn frames_that_are_not_messages_are_refused() {
    let bytes = encode_server_message(&ServerMessage::RestartDevice(Id(ID)));
    let mut longer = bytes.clone();
    longer.push(0);
    assert!(decode_server_message(&longer).is_none());
    assert!(decode_server_message(&bytes[..bytes.len() - 1]).is_none());
    assert!(decode_server_message(&[]).is_none());
    let mut unknown = bytes.clone();
    unknown[0] = 3;
    assert!(decode_server_message(&unknown).is_none());
    assert!(decode_client_message(&[2, 0, 0, 0, 9, 0, 0, 0, 1, 0, 0, 0]).is_none());
}

#[test]
fn button_message_wraps_actions() {
    assert!(button_message(Vec::new()).is_none());
    let m = button_message(vec![ButtonAction::MouseButton(MouseButton::Left, MouseButtonState::Up)]).unwrap();
    let bytes = encode_client_message(&m);
    // tag 1, one Reads, no motion, some list of one action: tag 0, Left, Up
    let expected: Vec<u8> = vec![
        1, 0, 0, 0, 1, 0, 0, 0, 0, 0, 0, 0, 0, 1, 1, 0, 0, 0, 0, 0, 0, 0, 0, 0, 0, 0, 0, 0, 0, 0,
        0, 0, 0, 0,
    ];
    assert_eq!(bytes, expected);
}
