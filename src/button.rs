//! Digital button sampling: edge detection in `Hold` and `Click` modes.
use vstd::prelude::*;

use crate::gate::ReadinessGate;
use crate::model::{
    actions_view, lemma_actions_view_push, ButtonAction, ButtonActionModel, ButtonMode,
    GamepadButtonState, MouseButtonState,
};

verus! {

/// The logic level read from a digital input pin.
#[derive(Clone, Copy, Debug, PartialEq, Eq, Structural, Hash)]
pub enum Level {
    Low,
    High,
}

/// The pull resistor a button pin is configured with.
#[derive(Clone, Copy, Debug, PartialEq, Eq, Structural, Hash)]
pub enum Pull {
    Up,
    Down,
}

/// The level of an idle pin under the given pull.
pub open spec fn rest_level(pull: Pull) -> Level {
    match pull {
        Pull::Up => Level::High,
        Pull::Down => Level::Low,
    }
}

/// The level of a pressed button under the given pull: the other level.
pub open spec fn active_level(pull: Pull) -> Level {
    match pull {
        Pull::Up => Level::Low,
        Pull::Down => Level::High,
    }
}

pub open spec fn mouse_state_of(pressed: bool) -> MouseButtonState {
    if pressed {
        MouseButtonState::Down
    } else {
        MouseButtonState::Up
    }
}

pub open spec fn gamepad_state_of(pressed: bool) -> GamepadButtonState {
    if pressed {
        GamepadButtonState::Pressed
    } else {
        GamepadButtonState::Released
    }
}

impl MouseButtonState {
    pub fn from_pressed(pressed: bool) -> (r: MouseButtonState)
        ensures
            r == mouse_state_of(pressed),
    {
        if pressed {
            MouseButtonState::Down
        } else {
            MouseButtonState::Up
        }
    }

    /// The state of a button whose pin is pulled up: low is pressed.
    pub fn from_level(level: Level) -> (r: MouseButtonState)
        ensures
            r == mouse_state_of(level == Level::Low),
    {
        MouseButtonState::from_pressed(level == Level::Low)
    }
}

impl GamepadButtonState {
    pub fn from_pressed(pressed: bool) -> (r: GamepadButtonState)
        ensures
            r == gamepad_state_of(pressed),
    {
        if pressed {
            GamepadButtonState::Pressed
        } else {
            GamepadButtonState::Released
        }
    }

    /// The state of a button whose pin is pulled up: low is pressed.
    pub fn from_level(level: Level) -> (r: GamepadButtonState)
        ensures
            r == gamepad_state_of(level == Level::Low),
    {
        GamepadButtonState::from_pressed(level == Level::Low)
    }
}

/// An action with its up/down state set to pressed or released; stateless
/// actions are kept as they are.
pub open spec fn rewrite(a: ButtonActionModel, pressed: bool) -> ButtonActionModel {
    match a {
        ButtonActionModel::MouseButton(b, _) => ButtonActionModel::MouseButton(b, mouse_state_of(pressed)),
        ButtonActionModel::GamepadButton(b, _) => ButtonActionModel::GamepadButton(
            b,
            gamepad_state_of(pressed),
        ),
        _ => a,
    }
}

pub open spec fn rewrite_all(cfg: Seq<ButtonActionModel>, pressed: bool) -> Seq<ButtonActionModel> {
    cfg.map_values(|a: ButtonActionModel| rewrite(a, pressed))
}

/// What one tick emits, given the previous and the current level and the
/// level of a pressed button.
pub open spec fn emitted(
    mode: ButtonMode,
    prev: Level,
    now: Level,
    active: Level,
    cfg: Seq<ButtonActionModel>,
) -> Seq<ButtonActionModel> {
    if prev == now {
        Seq::empty()
    } else {
        match mode {
            ButtonMode::Hold => rewrite_all(cfg, now == active),
            ButtonMode::Click => if now == active {
                cfg
            } else {
                Seq::empty()
            },
        }
    }
}

/// Sets the state of one action to pressed or released.
pub fn rewritten(a: &ButtonAction, pressed: bool) -> (r: ButtonAction)
    ensures
        r@ == rewrite(a@, pressed),
{
    match a {
        ButtonAction::MouseButton(b, _) => ButtonAction::MouseButton(
            *b,
            MouseButtonState::from_pressed(pressed),
        ),
        ButtonAction::GamepadButton(b, _) => ButtonAction::GamepadButton(
            *b,
            GamepadButtonState::from_pressed(pressed),
        ),
        _ => a.clone(),
    }
}

/// Sets the state of every action to pressed or released.
pub fn rewrite_actions(v: &Vec<ButtonAction>, pressed: bool) -> (r: Vec<ButtonAction>)
    ensures
        actions_view(r@) == rewrite_all(actions_view(v@), pressed),
{
    let mut r: Vec<ButtonAction> = Vec::new();
    let mut i: usize = 0;
    while i < v.len()
        invariant
            i <= v@.len(),
            actions_view(r@) == rewrite_all(actions_view(v@.subrange(0, i as int)), pressed),
        decreases v@.len() - i,
    {
        let a = rewritten(&v[i], pressed);
        proof {
            let pre = v@.subrange(0, i as int);
            lemma_actions_view_push(r@, a);
            lemma_actions_view_push(pre, v@[i as int]);
            assert(pre.push(v@[i as int]) =~= v@.subrange(0, i + 1));
            assert(rewrite_all(actions_view(pre).push(v@[i as int]@), pressed) =~= rewrite_all(
                actions_view(pre),
                pressed,
            ).push(rewrite(v@[i as int]@, pressed)));
        }
        r.push(a);
        i = i + 1;
    }
    assert(v@.subrange(0, v@.len() as int) =~= v@);
    r
}

/// The sampling state of one button: its configured actions, its mode, the
/// level of the pin when pressed and the last level seen.
pub struct ButtonSampler {
    pub actions: Vec<ButtonAction>,
    pub mode: ButtonMode,
    pub active: Level,
    pub level: Level,
}

/// The button state that matters to what is emitted.
pub struct ButtonSamplerModel {
    pub actions: Seq<ButtonActionModel>,
    pub mode: ButtonMode,
    pub active: Level,
    pub level: Level,
}

impl View for ButtonSampler {
    type V = ButtonSamplerModel;

    open spec fn view(&self) -> ButtonSamplerModel {
        ButtonSamplerModel {
            actions: actions_view(self.actions@),
            mode: self.mode,
            active: self.active,
            level: self.level,
        }
    }
}

/// One tick of a button: the next state and the actions emitted.
pub open spec fn button_step(s: ButtonSamplerModel, now: Level) -> (ButtonSamplerModel, Seq<ButtonActionModel>) {
    (ButtonSamplerModel { level: now, ..s }, emitted(s.mode, s.level, now, s.active, s.actions))
}

/// One tick of a button behind the readiness gate: nothing happens until
/// the readiness latch is open.
pub open spec fn gated_button_step(s: ButtonSamplerModel, ready: bool, now: Level) -> (ButtonSamplerModel, Seq<ButtonActionModel>) {
    if ready {
        button_step(s, now)
    } else {
        (s, Seq::empty())
    }
}

impl ButtonSampler {
    /// A sampler for a button whose pin idles at the level its pull gives
    /// and reads the other level when pressed.
    pub fn new(actions: Vec<ButtonAction>, mode: ButtonMode, pull: Pull) -> (r: ButtonSampler)
        ensures
            r@ == (ButtonSamplerModel {
                actions: actions_view(actions@),
                mode,
                active: active_level(pull),
                level: rest_level(pull),
            }),
    {
        let (level, active) = match pull {
            Pull::Up => (Level::High, Level::Low),
            Pull::Down => (Level::Low, Level::High),
        };
        ButtonSampler { actions, mode, active, level }
    }

    /// Takes one reading of the pin and returns the actions it triggers
    /// (possibly none).
    pub fn read(&mut self, now: Level) -> (out: Vec<ButtonAction>)
        ensures
            (final(self)@, actions_view(out@)) == button_step(old(self)@, now),
    {
        let prev = self.level;
        self.level = now;
        if prev == now {
            let out: Vec<ButtonAction> = Vec::new();
            assert(actions_view(out@) =~= Seq::<ButtonActionModel>::empty());
            out
        } else {
            match self.mode {
                ButtonMode::Hold => rewrite_actions(&self.actions, now == self.active),
                ButtonMode::Click => if now == self.active {
                    crate::model::copy_actions(&self.actions)
                } else {
                    let out: Vec<ButtonAction> = Vec::new();
                    assert(actions_view(out@) =~= Seq::<ButtonActionModel>::empty());
                    out
                },
            }
        }
    }

    /// Takes one reading if the readiness latch is open; before that it reads nothing
    /// and emits nothing.
    pub fn tick(&mut self, gate: &ReadinessGate, now: Level) -> (out: Vec<ButtonAction>)
        ensures
            (final(self)@, actions_view(out@)) == gated_button_step(old(self)@, gate@, now),
    {
        if gate.is_ready() {
            self.read(now)
        } else {
            let out: Vec<ButtonAction> = Vec::new();
            assert(actions_view(out@) =~= Seq::<ButtonActionModel>::empty());
            out
        }
    }
}

/// The state of a button after the first `k` readings of `levels`.
pub open spec fn state_after(s: ButtonSamplerModel, levels: Seq<Level>, k: nat) -> ButtonSamplerModel
    decreases k,
{
    if k == 0 {
        s
    } else {
        button_step(state_after(s, levels, (k - 1) as nat), levels[k - 1]).0
    }
}

/// What reading `i` of `levels` emits.
pub open spec fn emitted_at(s: ButtonSamplerModel, levels: Seq<Level>, i: nat) -> Seq<ButtonActionModel> {
    button_step(state_after(s, levels, i), levels[i as int]).1
}

/// The level a button last saw, after the first `k` readings.
pub open spec fn last_level(s: ButtonSamplerModel, levels: Seq<Level>, k: nat) -> Level {
    if k == 0 {
        s.level
    } else {
        levels[k - 1]
    }
}

proof fn lemma_state_after(s: ButtonSamplerModel, levels: Seq<Level>, k: nat)
    requires
        k <= levels.len(),
    ensures
        state_after(s, levels, k) == (ButtonSamplerModel { level: last_level(s, levels, k), ..s }),
    decreases k,
{
    if k > 0 {
        lemma_state_after(s, levels, (k - 1) as nat);
    }
}

/// A `Hold` button emits, on each reading, nothing when the level is the
/// one it saw last, and otherwise exactly its action list with every
/// mouse and gamepad action set to pressed when the new level is the
/// pressed level and to released otherwise.
pub proof fn lemma_hold_emits_once_per_edge(s: ButtonSamplerModel, levels: Seq<Level>, i: nat)
    requires
        s.mode == ButtonMode::Hold,
        i < levels.len(),
    ensures
        last_level(s, levels, i) == levels[i as int] ==> emitted_at(s, levels, i) == Seq::<ButtonActionModel>::empty(),
        last_level(s, levels, i) != levels[i as int] ==> emitted_at(s, levels, i) == rewrite_all(
            s.actions,
            levels[i as int] == s.active,
        ),
        forall|j: int| 0 <= j < emitted_at(s, levels, i).len() ==> (
            #[trigger] emitted_at(s, levels, i)[j] matches ButtonActionModel::MouseButton(_, st)
            ==> st == mouse_state_of(levels[i as int] == s.active)),
        forall|j: int| 0 <= j < emitted_at(s, levels, i).len() ==> (
            #[trigger] emitted_at(s, levels, i)[j] matches ButtonActionModel::GamepadButton(_, st)
            ==> st == gamepad_state_of(levels[i as int] == s.active)),
{
    lemma_state_after(s, levels, i);
}

/// A `Click` button emits its whole action list, unchanged, on a reading
/// that moves the level to the pressed level, and nothing on any other
/// reading.
pub proof fn lemma_click_emits_on_press_only(s: ButtonSamplerModel, levels: Seq<Level>, i: nat)
    requires
        s.mode == ButtonMode::Click,
        i < levels.len(),
    ensures
        emitted_at(s, levels, i) == (if last_level(s, levels, i) != levels[i as int] && levels[i as int] == s.active {
            s.actions
        } else {
            Seq::<ButtonActionModel>::empty()
        }),
{
    lemma_state_after(s, levels, i);
}

/// The state of a gated button after the first `k` ticks, each a gate
/// state and a pin level.
pub open spec fn gated_state_after(s: ButtonSamplerModel, ticks: Seq<(bool, Level)>, k: nat) -> ButtonSamplerModel
    decreases k,
{
    if k == 0 {
        s
    } else {
        gated_button_step(gated_state_after(s, ticks, (k - 1) as nat), ticks[k - 1].0, ticks[k - 1].1).0
    }
}

/// What tick `i` of a gated button emits.
pub open spec fn gated_emitted_at(s: ButtonSamplerModel, ticks: Seq<(bool, Level)>, i: nat) -> Seq<ButtonActionModel> {
    gated_button_step(gated_state_after(s, ticks, i), ticks[i as int].0, ticks[i as int].1).1
}

proof fn lemma_gated_state_unchanged(s: ButtonSamplerModel, ticks: Seq<(bool, Level)>, k: nat)
    requires
        k <= ticks.len(),
        forall|j: int| 0 <= j < k ==> !(#[trigger] ticks[j]).0,
    ensures
        gated_state_after(s, ticks, k) == s,
    decreases k,
{
    if k > 0 {
        lemma_gated_state_unchanged(s, ticks, (k - 1) as nat);
    }
}

/// While the readiness latch is closed a button emits nothing and keeps its state; on
/// the first tick after the readiness latch opens it emits what an ungated button
/// would emit for that reading.
pub proof fn lemma_gate_holds_back_then_releases(s: ButtonSamplerModel, ticks: Seq<(bool, Level)>, k: nat)
    requires
        k <= ticks.len(),
        forall|j: int| 0 <= j < k ==> !(#[trigger] ticks[j]).0,
    ensures
        forall|j: nat| j < k ==> #[trigger] gated_emitted_at(s, ticks, j) == Seq::<ButtonActionModel>::empty(),
        gated_state_after(s, ticks, k) == s,
        k < ticks.len() && ticks[k as int].0 ==> gated_emitted_at(s, ticks, k) == emitted(
            s.mode,
            s.level,
            ticks[k as int].1,
            s.active,
            s.actions,
        ),
{
    lemma_gated_state_unchanged(s, ticks, k);
    assert forall|j: nat| j < k implies #[trigger] gated_emitted_at(s, ticks, j) == Seq::<ButtonActionModel>::empty() by {
        lemma_gated_state_unchanged(s, ticks, j);
    }
}

} // verus!
