use jojo_device::axis::{AxisCalibration, AxisRead, AxisSampler, AxisState};
use jojo_device::button::{ButtonSampler, Level, Pull};
use jojo_device::calibration::Scale;
use jojo_device::gate::ReadinessGate;
use jojo_device::model::{
    Axis, AxisReport, ButtonAction, ButtonMode, GamepadButtonState, KeyboardButton, MouseButton,
    MouseButtonState, MouseConfig, MouseMotion,
};
use jojo_device::stick::{mean, MouseRead, StickCalibration, StickRead, StickSampler, StickState};

fn mixed_actions() -> Vec<ButtonAction> {
    vec![
        ButtonAction::MouseButton(MouseButton::Left, MouseButtonState::Up),
        ButtonAction::KeyboardButton(KeyboardButton::Literal(b"a".to_vec())),
        ButtonAction::GamepadButton(2, GamepadButtonState::Released),
    ]
}

fn summary(v: &[ButtonAction]) -> Vec<String> {
    v.iter().map(|a| format!("{:?}", a)).collect()
}

#[test]
fn hold_button_emits_rewritten_actions_once_per_edge() {
    let mut b = ButtonSampler::new(mixed_actions(), ButtonMode::Hold, Pull::Up);
    assert!(b.read(Level::High).is_empty());
    let pressed = b.read(Level::Low);
    assert_eq!(
        summary(&pressed),
        summary(&[
            ButtonAction::MouseButton(MouseButton::Left, MouseButtonState::Down),
            ButtonAction::KeyboardButton(KeyboardButton::Literal(b"a".to_vec())),
            ButtonAction::GamepadButton(2, GamepadButtonState::Pressed),
        ])
    );
    assert!(b.read(Level::Low).is_empty());
    assert!(b.read(Level::Low).is_empty());
    let released = b.read(Level::High);
    assert_eq!(
        summary(&released),
        summary(&[
            ButtonAction::MouseButton(MouseButton::Left, MouseButtonState::Up),
            ButtonAction::KeyboardButton(KeyboardButton::Literal(b"a".to_vec())),
            ButtonAction::GamepadButton(2, GamepadButtonState::Released),
        ])
    );
}

#[test]
fn hold_button_counts_edges_over_a_sequence() {
    let mut b = ButtonSampler::new(mixed_actions(), ButtonMode::Hold, Pull::Up);
    let levels = [
        Level::High, Level::Low, Level::Low, Level::High, Level::Low, Level::High, Level::High,
    ];
    let emissions: Vec<usize> = levels.iter().map(|l| b.read(*l).len()).collect();
    assert_eq!(emissions, vec![0, 3, 0, 3, 3, 3, 0]);
}

#[test]
fn pull_down_button_starts_low() {
    let mut b = ButtonSampler::new(mixed_actions(), ButtonMode::Hold, Pull::Down);
    assert_eq!(b.level, Level::Low);
    assert!(b.read(Level::Low).is_empty());
    assert_eq!(b.read(Level::High).len(), 3);
}

#[test]
fn click_button_emits_only_on_press() {
    let actions = vec![
        ButtonAction::MouseButton(MouseButton::Left, MouseButtonState::Down),
        ButtonAction::MouseButton(MouseButton::Left, MouseButtonState::Up),
    ];
    let mut b = ButtonSampler::new(actions, ButtonMode::Click, Pull::Up);
    let pressed = b.read(Level::Low);
    assert_eq!(
        summary(&pressed),
        summary(&[
            ButtonAction::MouseButton(MouseButton::Left, MouseButtonState::Down),
            ButtonAction::MouseButton(MouseButton::Left, MouseButtonState::Up),
        ])
    );
    assert!(b.read(Level::Low).is_empty());
    assert!(b.read(Level::High).is_empty());
    assert_eq!(b.read(Level::Low).len(), 2);
}

#[test]
fn empty_action_list_emits_nothing() {
    let mut b = ButtonSampler::new(Vec::new(), ButtonMode::Hold, Pull::Up);
    assert!(b.read(Level::Low).is_empty());
    assert_eq!(b.level, Level::Low);
}

#[test]
fn sampler_waits_for_the_gate() {
    let mut gate = ReadinessGate::new();
    let mut b = ButtonSampler::new(mixed_actions(), ButtonMode::Hold, Pull::Up);
    // 500 ms of ticks at the button's 35 ms cadence, with the button held.
    let mut sent = 0;
    for _ in 0..(500 / 35 + 1) {
        sent += b.tick(&gate, Level::Low).len();
    }
    assert_eq!(sent, 0);
    assert_eq!(b.level, Level::High);
    assert!(gate.signal());
    assert!(!gate.signal());
    assert!(gate.is_ready());
    assert_eq!(b.tick(&gate, Level::Low).len(), 3);
}

#[test]
fn mouse_state_follows_level() {
    assert_eq!(MouseButtonState::from_level(Level::High), MouseButtonState::Up);
    assert_eq!(MouseButtonState::from_level(Level::Low), MouseButtonState::Down);
    assert_eq!(GamepadButtonState::from_level(Level::Low), GamepadButtonState::Pressed);
}

#[test]
fn stick_calibration_from_rest_samples() {
    let mut s = StickSampler::new(MouseConfig::new(1, -1));
    assert_eq!(s.read(1000, 1000), None);
    let xs = vec![1995, 2005, 2000, 2000, 1990, 2010, 2000, 2000, 2000, 2000];
    let ys = vec![1000; 10];
    s.calibrate(&xs, &ys);
    assert_eq!(s.state, StickState::Reading(StickCalibration::calibrate(2000, 1000)));
    assert_eq!(s.read(2000, 1000), None);
}

#[test]
fn baseline_read_is_zero_whatever_the_samples() {
    let mut a = StickSampler::new(MouseConfig::new(1, 1));
    let mut b = StickSampler::new(MouseConfig::new(1, 1));
    a.calibrate(&vec![1500; 10], &vec![800; 10]);
    b.calibrate(&vec![1400, 1600, 1500, 1500, 1450, 1550, 1500, 1500, 1500, 1500], &vec![700, 900, 800, 800, 800, 800, 800, 800, 800, 800]);
    assert_eq!(a.state, b.state);
    assert_eq!(a.read(1500, 800), None);
    assert_eq!(b.read(1500, 800), None);
}

#[test]
fn stick_at_rest_zero_stays_calibrating() {
    let mut s = StickSampler::new(MouseConfig::new(1, 1));
    s.calibrate(&vec![0; 10], &vec![1000; 10]);
    assert_eq!(s.state, StickState::Calibrating);
}

#[test]
fn deadzone_boundary() {
    let c = StickCalibration::calibrate(1000, 1000);
    let at = |x: u16| StickRead::new(x, 1000, c).to_motion().x;
    assert_eq!(at(1049), 0);
    assert_eq!(at(951), 0);
    // round(20 * 1050 / 1000) - 20 and round(20 * 950 / 1000) - 20
    assert_eq!(at(1050), 1);
    assert_eq!(at(950), -1);
    assert_eq!(at(2000), 20);
    assert_eq!(at(0), -20);
    // 20 * 1075 / 1000 = 21.5 rounds to 22
    assert_eq!(at(1075), 2);
}

#[test]
fn stick_report_applies_sensitivity() {
    let mut s = StickSampler::new(MouseConfig::new(1, -1));
    s.calibrate(&vec![1000; 10], &vec![1000; 10]);
    assert_eq!(s.read(2000, 2000), Some(MouseMotion { x: 20, y: -20 }));
    assert_eq!(s.read(2000, 1000), Some(MouseMotion { x: 20, y: 0 }));
}

#[test]
fn stick_general_mapping_saturates() {
    let c = StickCalibration::new(i32::MAX, 0, Scale::new(2, 1), Scale::new(1, 1), 0, 0);
    let m = StickRead::new(1000, 100, c).to_motion();
    assert_eq!(m, MouseMotion { x: i32::MAX, y: 100 });
}

#[test]
fn mean_rounds_down() {
    assert_eq!(mean(&vec![1, 2]), 1);
    assert_eq!(mean(&vec![65535; 10]), 65535);
    assert_eq!(mean(&vec![7]), 7);
}

#[test]
fn legacy_mouse_read() {
    let r = MouseRead::new(3, -4, true);
    assert_eq!(r.reads(), (3, -4, true));
    let c = StickCalibration::calibrate(1000, 1000);
    let m = StickRead::new(2000, 1000, c).to_mouse_read(false);
    assert_eq!(m.reads(), (20, 0, false));
}

#[test]
fn axis_reports_only_large_steps() {
    let mut a = AxisSampler::new(Axis::Axis1);
    assert_eq!(a.read(100), None);
    a.calibrate(100);
    assert_eq!(a.state, AxisState::Reading(AxisCalibration::standard()));
    assert_eq!(a.read(150), None);
    assert_eq!(a.read(151), Some(AxisReport { axis: Axis::Axis1, value: 1510 }));
    assert_eq!(a.last_read, 151);
    assert_eq!(a.read(100), Some(AxisReport { axis: Axis::Axis1, value: 1000 }));
    assert_eq!(a.read(50), None);
}

#[test]
fn axis_scale_is_integer_division() {
    let c = AxisCalibration::standard();
    assert_eq!(c, AxisCalibration::new(0, Scale::new(10, 1)));
    let r = AxisRead::new(3000, Axis::Axis2, c).to_report();
    assert_eq!(r, AxisReport { axis: Axis::Axis2, value: 30000 });
}

#[test]
fn pull_down_click_fires_on_high() {
    let actions = vec![ButtonAction::MouseButton(MouseButton::Right, MouseButtonState::Down)];
    let mut b = ButtonSampler::new(actions, ButtonMode::Click, Pull::Down);
    assert_eq!(b.active, Level::High);
    assert_eq!(b.read(Level::High).len(), 1);
    assert!(b.read(Level::Low).is_empty());
}

#[test]
fn pull_down_hold_reports_high_as_pressed() {
    let mut b = ButtonSampler::new(mixed_actions(), ButtonMode::Hold, Pull::Down);
    let pressed = b.read(Level::High);
    assert_eq!(
        summary(&pressed),
        summary(&[
            ButtonAction::MouseButton(MouseButton::Left, MouseButtonState::Down),
            ButtonAction::KeyboardButton(KeyboardButton::Literal(b"a".to_vec())),
            ButtonAction::GamepadButton(2, GamepadButtonState::Pressed),
        ])
    );
    let released = b.read(Level::Low);
    assert_eq!(format!("{:?}", released[0]), format!("{:?}", ButtonAction::MouseButton(MouseButton::Left, MouseButtonState::Up)));
}

#[test]
fn axis_and_stick_wait_for_the_gate() {
    let mut gate = ReadinessGate::new();
    let mut a = AxisSampler::new(Axis::Axis2);
    let mut s = StickSampler::new(MouseConfig::new(1, 1));
    for raw in [0u16, 3000, 10, 2999] {
        assert_eq!(a.tick(&gate, raw), None);
        assert_eq!(s.tick(&gate, &vec![raw; 10], &vec![raw; 10]), None);
    }
    assert_eq!(a.state, AxisState::Calibrating);
    assert_eq!(s.state, StickState::Calibrating);
    gate.signal();
    assert_eq!(a.tick(&gate, 100), None);
    assert_eq!(a.tick(&gate, 200), Some(AxisReport { axis: Axis::Axis2, value: 2000 }));
    assert_eq!(s.tick(&gate, &vec![1000; 10], &vec![1000; 10]), None);
    assert_eq!(s.tick(&gate, &vec![2000], &vec![1000]), Some(MouseMotion { x: 20, y: 0 }));
}
