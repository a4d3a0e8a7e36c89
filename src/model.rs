//! The device description and the actions that buttons trigger.
use vstd::prelude::*;

verus! {

/// A 128-bit unique identifier (the numeric value of a UUID).
#[derive(Clone, Copy, Debug, PartialEq, Eq, Structural, Hash)]
pub struct Id(pub u128);

#[derive(Clone, Copy, Debug, PartialEq, Eq, Structural, Hash)]
pub enum MouseButton {
    Left,
    Right,
    Middle,
}

#[derive(Clone, Copy, Debug, PartialEq, Eq, Structural, Hash)]
pub enum MouseButtonState {
    Up,
    Down,
}

#[derive(Clone, Copy, Debug, PartialEq, Eq, Structural, Hash)]
pub enum GamepadButtonState {
    Pressed,
    Released,
}

/// Whether a button mirrors its physical state or fires once per press.
#[derive(Clone, Copy, Debug, PartialEq, Eq, Structural, Hash)]
pub enum ButtonMode {
    /// Every level change emits the action list, rewritten to the new state.
    Hold,
    /// Only the press edge emits the action list, unchanged.
    Click,
}

/// A keyboard action; the text is UTF-8.
#[derive(Debug)]
pub enum KeyboardButton {
    /// A literal key name.
    Literal(Vec<u8>),
    /// A key sequence in the escape-sequence notation (`{+CTRL}a{-CTRL}`).
    SequenceDsl(Vec<u8>),
}

pub enum KeyboardButtonModel {
    Literal(Seq<u8>),
    SequenceDsl(Seq<u8>),
}

impl View for KeyboardButton {
    type V = KeyboardButtonModel;

    open spec fn view(&self) -> KeyboardButtonModel {
        match self {
            KeyboardButton::Literal(t) => KeyboardButtonModel::Literal(t@),
            KeyboardButton::SequenceDsl(t) => KeyboardButtonModel::SequenceDsl(t@),
        }
    }
}

impl Clone for KeyboardButton {
    fn clone(&self) -> (r: Self)
        ensures
            r@ == self@,
    {
        match self {
            KeyboardButton::Literal(t) => KeyboardButton::Literal(t.clone()),
            KeyboardButton::SequenceDsl(t) => KeyboardButton::SequenceDsl(t.clone()),
        }
    }
}

/// What a button press reports to the host.
#[derive(Debug)]
pub enum ButtonAction {
    MouseButton(MouseButton, MouseButtonState),
    KeyboardButton(KeyboardButton),
    /// A gamepad button, by number.
    GamepadButton(u8, GamepadButtonState),
    /// An application-defined action, as UTF-8 text.
    CustomButton(Vec<u8>),
}

pub enum ButtonActionModel {
    MouseButton(MouseButton, MouseButtonState),
    KeyboardButton(KeyboardButtonModel),
    GamepadButton(u8, GamepadButtonState),
    CustomButton(Seq<u8>),
}

impl View for ButtonAction {
    type V = ButtonActionModel;

    open spec fn view(&self) -> ButtonActionModel {
        match self {
            ButtonAction::MouseButton(b, s) => ButtonActionModel::MouseButton(*b, *s),
            ButtonAction::KeyboardButton(k) => ButtonActionModel::KeyboardButton(k@),
            ButtonAction::GamepadButton(b, s) => ButtonActionModel::GamepadButton(*b, *s),
            ButtonAction::CustomButton(t) => ButtonActionModel::CustomButton(t@),
        }
    }
}

impl Clone for ButtonAction {
    fn clone(&self) -> (r: Self)
        ensures
            r@ == self@,
    {
        match self {
            ButtonAction::MouseButton(b, s) => ButtonAction::MouseButton(*b, *s),
            ButtonAction::KeyboardButton(k) => ButtonAction::KeyboardButton(k.clone()),
            ButtonAction::GamepadButton(b, s) => ButtonAction::GamepadButton(*b, *s),
            ButtonAction::CustomButton(t) => ButtonAction::CustomButton(t.clone()),
        }
    }
}

/// The models of a list of actions.
pub open spec fn actions_view(v: Seq<ButtonAction>) -> Seq<ButtonActionModel> {
    v.map_values(|a: ButtonAction| a@)
}

pub proof fn lemma_actions_view_push(s: Seq<ButtonAction>, a: ButtonAction)
    ensures
        actions_view(s.push(a)) == actions_view(s).push(a@),
{
    assert(actions_view(s.push(a)) =~= actions_view(s).push(a@));
}

/// Copies a list of actions.
pub fn copy_actions(v: &Vec<ButtonAction>) -> (r: Vec<ButtonAction>)
    ensures
        actions_view(r@) == actions_view(v@),
{
    let mut r: Vec<ButtonAction> = Vec::new();
    let mut i: usize = 0;
    while i < v.len()
        invariant
            i <= v@.len(),
            actions_view(r@) == actions_view(v@.subrange(0, i as int)),
        decreases v@.len() - i,
    {
        let a = v[i].clone();
        proof {
            lemma_actions_view_push(r@, a);
            lemma_actions_view_push(v@.subrange(0, i as int), v@[i as int]);
            assert(v@.subrange(0, i as int).push(v@[i as int]) =~= v@.subrange(0, i + 1));
        }
        r.push(a);
        i = i + 1;
    }
    assert(v@.subrange(0, v@.len() as int) =~= v@);
    r
}

} // verus!

verus! {

/// Per-axis pointer sensitivity: each motion component is multiplied by it.
#[derive(Clone, Copy, Debug, PartialEq, Eq, Structural, Hash)]
pub struct MouseConfig {
    pub x_sen: i8,
    pub y_sen: i8,
}

impl MouseConfig {
    pub fn new(x_sen: i8, y_sen: i8) -> (r: MouseConfig)
        ensures
            r == (MouseConfig { x_sen, y_sen }),
    {
        MouseConfig { x_sen, y_sen }
    }
}

/// A pointer motion delta.
#[derive(Clone, Copy, Debug, PartialEq, Eq, Structural, Hash)]
pub struct MouseMotion {
    pub x: i32,
    pub y: i32,
}

/// The analog axes of a gamepad.
#[derive(Clone, Copy, Debug, PartialEq, Eq, Structural, Hash)]
pub enum Axis {
    Axis1,
    Axis2,
}

/// A scaled value of one gamepad axis.
#[derive(Clone, Copy, Debug, PartialEq, Eq, Structural, Hash)]
pub struct AxisReport {
    pub axis: Axis,
    pub value: i32,
}

} // verus!

verus! {

/// A physical button of the device.
#[derive(Debug)]
pub struct Button {
    pub id: Id,
    /// A human-readable label, as UTF-8.
    pub name: Vec<u8>,
    pub mode: ButtonMode,
}

pub struct ButtonModel {
    pub id: Id,
    pub name: Seq<u8>,
    pub mode: ButtonMode,
}

impl View for Button {
    type V = ButtonModel;

    open spec fn view(&self) -> ButtonModel {
        ButtonModel { id: self.id, name: self.name@, mode: self.mode }
    }
}

impl Clone for Button {
    fn clone(&self) -> (r: Self)
        ensures
            r@ == self@,
    {
        Button { id: self.id, name: self.name.clone(), mode: self.mode }
    }
}

impl Button {
    pub fn new(id: Id, name: Vec<u8>, mode: ButtonMode) -> (r: Button)
        ensures
            r@ == (ButtonModel { id, name: name@, mode }),
    {
        Button { id, name, mode }
    }
}

/// The actions bound to one button.
#[derive(Debug)]
pub struct ActionEntry {
    pub button: Id,
    pub actions: Vec<ButtonAction>,
}

pub struct ActionEntryModel {
    pub button: Id,
    pub actions: Seq<ButtonActionModel>,
}

impl View for ActionEntry {
    type V = ActionEntryModel;

    open spec fn view(&self) -> ActionEntryModel {
        ActionEntryModel { button: self.button, actions: actions_view(self.actions@) }
    }
}

impl Clone for ActionEntry {
    fn clone(&self) -> (r: Self)
        ensures
            r@ == self@,
    {
        ActionEntry { button: self.button, actions: copy_actions(&self.actions) }
    }
}

/// The description of the device: identity, pointer sensitivity, buttons
/// and the actions bound to each button (one entry per button id).
#[derive(Debug)]
pub struct Device {
    pub id: Id,
    /// The display name, as UTF-8.
    pub name: Vec<u8>,
    pub mouse_config: Option<MouseConfig>,
    pub buttons: Vec<Button>,
    pub actions_map: Vec<ActionEntry>,
}

pub open spec fn buttons_view(s: Seq<Button>) -> Seq<ButtonModel> {
    s.map_values(|b: Button| b@)
}

pub open spec fn entries_view(s: Seq<ActionEntry>) -> Seq<ActionEntryModel> {
    s.map_values(|e: ActionEntry| e@)
}

pub struct DeviceModel {
    pub id: Id,
    pub name: Seq<u8>,
    pub mouse_config: Option<MouseConfig>,
    pub buttons: Seq<ButtonModel>,
    pub actions_map: Seq<ActionEntryModel>,
}

impl View for Device {
    type V = DeviceModel;

    open spec fn view(&self) -> DeviceModel {
        DeviceModel {
            id: self.id,
            name: self.name@,
            mouse_config: self.mouse_config,
            buttons: buttons_view(self.buttons@),
            actions_map: entries_view(self.actions_map@),
        }
    }
}

} // verus!
