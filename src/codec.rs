//! The binary layout of the device model and of the protocol messages.
use vstd::prelude::*;

use crate::model::{
    actions_view, buttons_view, entries_view, ActionEntry, ActionEntryModel, Axis, AxisReport, Button, ButtonAction,
    ButtonActionModel, ButtonMode, ButtonModel, Device, DeviceModel, GamepadButtonState, Id,
    KeyboardButton, KeyboardButtonModel, MouseButton, MouseButtonState, MouseConfig, MouseMotion,
};
use crate::wire::{
    be_bytes, be_value, enc_tag, get_be, le_bytes, le_value, lemma_be_canonical, lemma_be_round_trip,
    lemma_be_value_bound, lemma_le_canonical, lemma_le_round_trip, lemma_pow256_values,
    lemma_skip_prefix, lemma_tag_canonical,
    lemma_skip_skip, lemma_tag_round_trip, models, parse_tag, put_be, put_le, put_tag, take_len,
    take_tag, Wire,
};

verus! {

pub proof fn lemma_bytes_model(s: Seq<u8>)
    ensures
        models::<u8>(s) == s,
{
    assert(models::<u8>(s) =~= s);
}

pub proof fn lemma_actions_model(s: Seq<ButtonAction>)
    ensures
        models::<ButtonAction>(s) == actions_view(s),
{
    assert(models::<ButtonAction>(s) =~= actions_view(s));
}

pub proof fn lemma_buttons_model(s: Seq<Button>)
    ensures
        models::<Button>(s) == buttons_view(s),
{
    assert(models::<Button>(s) =~= buttons_view(s));
}

pub proof fn lemma_entries_model(s: Seq<ActionEntry>)
    ensures
        models::<ActionEntry>(s) == entries_view(s),
{
    assert(models::<ActionEntry>(s) =~= entries_view(s));
}

pub proof fn lemma_config_model(c: Option<MouseConfig>)
    ensures
        c.model() == c,
{
}

/// The length of an identifier's bytes.
pub const ID_LEN: usize = 16;

impl Wire for Id {
    type M = Id;

    open spec fn model(&self) -> Id {
        *self
    }

    open spec fn fits(m: Id) -> bool {
        true
    }

    open spec fn enc(m: Id) -> Seq<u8> {
        le_bytes(ID_LEN as nat, 8) + be_bytes(m.0 as nat, 16)
    }

    open spec fn parse(s: Seq<u8>) -> Option<(Id, nat)> {
        if s.len() >= 24 && le_value(s.subrange(0, 8)) == ID_LEN {
            Some((Id(be_value(s.subrange(8, 24)) as u128), 24))
        } else {
            None
        }
    }

    proof fn lemma_fits(&self) {
    }

    proof fn lemma_round_trip(m: Id, rest: Seq<u8>) {
        lemma_pow256_values();
        lemma_le_round_trip(ID_LEN as nat, 8);
        lemma_be_round_trip(m.0 as nat, 16);
        let s = Self::enc(m) + rest;
        assert(s.subrange(0, 8) =~= le_bytes(ID_LEN as nat, 8));
        assert(s.subrange(8, 24) =~= be_bytes(m.0 as nat, 16));
    }

    proof fn lemma_parse_canonical(s: Seq<u8>) {
        if s.len() >= 24 && le_value(s.subrange(0, 8)) == ID_LEN {
            lemma_le_canonical(s.subrange(0, 8));
            let b = s.subrange(8, 24);
            lemma_be_canonical(b);
            lemma_be_value_bound(b);
            lemma_pow256_values();
            assert(s.subrange(0, 24) =~= s.subrange(0, 8) + b);
        }
    }

    fn put(&self, out: &mut Vec<u8>) {
        put_le(out, ID_LEN as u128, 8);
        put_be(out, self.0, 16);
        assert(out@ =~= old(out)@ + Self::enc(self.model()));
    }

    fn take(buf: &[u8], pos: usize) -> (r: Option<(Id, usize)>) {
        let (n, start) = match take_len(buf, pos) {
            Some(x) => x,
            None => {
                return None;
            },
        };
        if n != ID_LEN as u64 || buf.len() - start < 16 {
            return None;
        }
        let v = get_be(buf, start, 16);
        proof {
            lemma_be_value_bound(buf@.subrange(start as int, start + 16));
            lemma_pow256_values();
            assert(buf@.skip(pos as int).subrange(8, 24) =~= buf@.subrange(start as int, start + 16));
        }
        Some((Id(v), start + 16))
    }
}

impl Wire for MouseButton {
    type M = MouseButton;

    open spec fn model(&self) -> MouseButton {
        *self
    }

    open spec fn fits(m: MouseButton) -> bool {
        match m {
            MouseButton::Left => true,
            MouseButton::Right => true,
            MouseButton::Middle => true,
        }
    }

    open spec fn enc(m: MouseButton) -> Seq<u8> {
        match m {
            MouseButton::Left => enc_tag(0),
            MouseButton::Right => enc_tag(1),
            MouseButton::Middle => enc_tag(2),
        }
    }

    open spec fn parse(s: Seq<u8>) -> Option<(MouseButton, nat)> {
        match parse_tag(s) {
            Some(t) => {
                let b = s.skip(4);
                if t == 0 {
                    Some((MouseButton::Left, (4) as nat))
                } else if t == 1 {
                    Some((MouseButton::Right, (4) as nat))
                } else if t == 2 {
                    Some((MouseButton::Middle, (4) as nat))
                } else {
                    None
                }
            },
            None => None,
        }
    }

    proof fn lemma_fits(&self) {
        match self {
            MouseButton::Left => {
            },
            MouseButton::Right => {
            },
            MouseButton::Middle => {
            },
        }
    }

    proof fn lemma_round_trip(m: MouseButton, rest: Seq<u8>) {
        match m {
            MouseButton::Left => {
                lemma_tag_round_trip(0, rest);
                assert(Self::enc(m) + rest =~= enc_tag(0) + (rest));
            },
            MouseButton::Right => {
                lemma_tag_round_trip(1, rest);
                assert(Self::enc(m) + rest =~= enc_tag(1) + (rest));
            },
            MouseButton::Middle => {
                lemma_tag_round_trip(2, rest);
                assert(Self::enc(m) + rest =~= enc_tag(2) + (rest));
            },
        }
    }

    proof fn lemma_parse_canonical(s: Seq<u8>) {
        lemma_tag_canonical(s);
        if s.len() >= 4 {
            if parse_tag(s) == Some(0nat) {
                assert(s.subrange(0, 4) =~= enc_tag(0));
            }
            if parse_tag(s) == Some(1nat) {
                assert(s.subrange(0, 4) =~= enc_tag(1));
            }
            if parse_tag(s) == Some(2nat) {
                assert(s.subrange(0, 4) =~= enc_tag(2));
            }
        }
    }

    fn put(&self, out: &mut Vec<u8>) {
        match self {
            MouseButton::Left => {
                put_tag(out, 0);
            },
            MouseButton::Right => {
                put_tag(out, 1);
            },
            MouseButton::Middle => {
                put_tag(out, 2);
            },
        }
        assert(out@ =~= old(out)@ + Self::enc(self.model()));
    }

    fn take(buf: &[u8], pos: usize) -> (r: Option<(MouseButton, usize)>) {
        let (t, q) = match take_tag(buf, pos) {
            Some(x) => x,
            None => {
                return None;
            },
        };
        proof {
            lemma_skip_skip(buf@, pos as int, 4);
        }
        if t == 0 {
            Some((MouseButton::Left, q))
        } else if t == 1 {
            Some((MouseButton::Right, q))
        } else if t == 2 {
            Some((MouseButton::Middle, q))
        } else {
            None
        }
    }
}

impl Wire for MouseButtonState {
    type M = MouseButtonState;

    open spec fn model(&self) -> MouseButtonState {
        *self
    }

    open spec fn fits(m: MouseButtonState) -> bool {
        match m {
            MouseButtonState::Up => true,
            MouseButtonState::Down => true,
        }
    }

    open spec fn enc(m: MouseButtonState) -> Seq<u8> {
        match m {
            MouseButtonState::Up => enc_tag(0),
            MouseButtonState::Down => enc_tag(1),
        }
    }

    open spec fn parse(s: Seq<u8>) -> Option<(MouseButtonState, nat)> {
        match parse_tag(s) {
            Some(t) => {
                let b = s.skip(4);
                if t == 0 {
                    Some((MouseButtonState::Up, (4) as nat))
                } else if t == 1 {
                    Some((MouseButtonState::Down, (4) as nat))
                } else {
                    None
                }
            },
            None => None,
        }
    }

    proof fn lemma_fits(&self) {
        match self {
            MouseButtonState::Up => {
            },
            MouseButtonState::Down => {
            },
        }
    }

    proof fn lemma_round_trip(m: MouseButtonState, rest: Seq<u8>) {
        match m {
            MouseButtonState::Up => {
                lemma_tag_round_trip(0, rest);
                assert(Self::enc(m) + rest =~= enc_tag(0) + (rest));
            },
            MouseButtonState::Down => {
                lemma_tag_round_trip(1, rest);
                assert(Self::enc(m) + rest =~= enc_tag(1) + (rest));
            },
        }
    }

    proof fn lemma_parse_canonical(s: Seq<u8>) {
        lemma_tag_canonical(s);
        if s.len() >= 4 {
            if parse_tag(s) == Some(0nat) {
                assert(s.subrange(0, 4) =~= enc_tag(0));
            }
            if parse_tag(s) == Some(1nat) {
                assert(s.subrange(0, 4) =~= enc_tag(1));
            }
        }
    }

    fn put(&self, out: &mut Vec<u8>) {
        match self {
            MouseButtonState::Up => {
                put_tag(out, 0);
            },
            MouseButtonState::Down => {
                put_tag(out, 1);
            },
        }
        assert(out@ =~= old(out)@ + Self::enc(self.model()));
    }

    fn take(buf: &[u8], pos: usize) -> (r: Option<(MouseButtonState, usize)>) {
        let (t, q) = match take_tag(buf, pos) {
            Some(x) => x,
            None => {
                return None;
            },
        };
        proof {
            lemma_skip_skip(buf@, pos as int, 4);
        }
        if t == 0 {
            Some((MouseButtonState::Up, q))
        } else if t == 1 {
            Some((MouseButtonState::Down, q))
        } else {
            None
        }
    }
}

impl Wire for GamepadButtonState {
    type M = GamepadButtonState;

    open spec fn model(&self) -> GamepadButtonState {
        *self
    }

    open spec fn fits(m: GamepadButtonState) -> bool {
        match m {
            GamepadButtonState::Pressed => true,
            GamepadButtonState::Released => true,
        }
    }

    open spec fn enc(m: GamepadButtonState) -> Seq<u8> {
        match m {
            GamepadButtonState::Pressed => enc_tag(0),
            GamepadButtonState::Released => enc_tag(1),
        }
    }

    open spec fn parse(s: Seq<u8>) -> Option<(GamepadButtonState, nat)> {
        match parse_tag(s) {
            Some(t) => {
                let b = s.skip(4);
                if t == 0 {
                    Some((GamepadButtonState::Pressed, (4) as nat))
                } else if t == 1 {
                    Some((GamepadButtonState::Released, (4) as nat))
                } else {
                    None
                }
            },
            None => None,
        }
    }

    proof fn lemma_fits(&self) {
        match self {
            GamepadButtonState::Pressed => {
            },
            GamepadButtonState::Released => {
            },
        }
    }

    proof fn lemma_round_trip(m: GamepadButtonState, rest: Seq<u8>) {
        match m {
            GamepadButtonState::Pressed => {
                lemma_tag_round_trip(0, rest);
                assert(Self::enc(m) + rest =~= enc_tag(0) + (rest));
            },
            GamepadButtonState::Released => {
                lemma_tag_round_trip(1, rest);
                assert(Self::enc(m) + rest =~= enc_tag(1) + (rest));
            },
        }
    }

    proof fn lemma_parse_canonical(s: Seq<u8>) {
        lemma_tag_canonical(s);
        if s.len() >= 4 {
            if parse_tag(s) == Some(0nat) {
                assert(s.subrange(0, 4) =~= enc_tag(0));
            }
            if parse_tag(s) == Some(1nat) {
                assert(s.subrange(0, 4) =~= enc_tag(1));
            }
        }
    }

    fn put(&self, out: &mut Vec<u8>) {
        match self {
            GamepadButtonState::Pressed => {
                put_tag(out, 0);
            },
            GamepadButtonState::Released => {
                put_tag(out, 1);
            },
        }
        assert(out@ =~= old(out)@ + Self::enc(self.model()));
    }

    fn take(buf: &[u8], pos: usize) -> (r: Option<(GamepadButtonState, usize)>) {
        let (t, q) = match take_tag(buf, pos) {
            Some(x) => x,
            None => {
                return None;
            },
        };
        proof {
            lemma_skip_skip(buf@, pos as int, 4);
        }
        if t == 0 {
            Some((GamepadButtonState::Pressed, q))
        } else if t == 1 {
            Some((GamepadButtonState::Released, q))
        } else {
            None
        }
    }
}

impl Wire for ButtonMode {
    type M = ButtonMode;

    open spec fn model(&self) -> ButtonMode {
        *self
    }

    open spec fn fits(m: ButtonMode) -> bool {
        match m {
            ButtonMode::Hold => true,
            ButtonMode::Click => true,
        }
    }

    open spec fn enc(m: ButtonMode) -> Seq<u8> {
        match m {
            ButtonMode::Hold => enc_tag(0),
            ButtonMode::Click => enc_tag(1),
        }
    }

    open spec fn parse(s: Seq<u8>) -> Option<(ButtonMode, nat)> {
        match parse_tag(s) {
            Some(t) => {
                let b = s.skip(4);
                if t == 0 {
                    Some((ButtonMode::Hold, (4) as nat))
                } else if t == 1 {
                    Some((ButtonMode::Click, (4) as nat))
                } else {
                    None
                }
            },
            None => None,
        }
    }

    proof fn lemma_fits(&self) {
        match self {
            ButtonMode::Hold => {
            },
            ButtonMode::Click => {
            },
        }
    }

    proof fn lemma_round_trip(m: ButtonMode, rest: Seq<u8>) {
        match m {
            ButtonMode::Hold => {
                lemma_tag_round_trip(0, rest);
                assert(Self::enc(m) + rest =~= enc_tag(0) + (rest));
            },
            ButtonMode::Click => {
                lemma_tag_round_trip(1, rest);
                assert(Self::enc(m) + rest =~= enc_tag(1) + (rest));
            },
        }
    }

    proof fn lemma_parse_canonical(s: Seq<u8>) {
        lemma_tag_canonical(s);
        if s.len() >= 4 {
            if parse_tag(s) == Some(0nat) {
                assert(s.subrange(0, 4) =~= enc_tag(0));
            }
            if parse_tag(s) == Some(1nat) {
                assert(s.subrange(0, 4) =~= enc_tag(1));
            }
        }
    }

    fn put(&self, out: &mut Vec<u8>) {
        match self {
            ButtonMode::Hold => {
                put_tag(out, 0);
            },
            ButtonMode::Click => {
                put_tag(out, 1);
            },
        }
        assert(out@ =~= old(out)@ + Self::enc(self.model()));
    }

    fn take(buf: &[u8], pos: usize) -> (r: Option<(ButtonMode, usize)>) {
        let (t, q) = match take_tag(buf, pos) {
            Some(x) => x,
            None => {
                return None;
            },
        };
        proof {
            lemma_skip_skip(buf@, pos as int, 4);
        }
        if t == 0 {
            Some((ButtonMode::Hold, q))
        } else if t == 1 {
            Some((ButtonMode::Click, q))
        } else {
            None
        }
    }
}

impl Wire for Axis {
    type M = Axis;

    open spec fn model(&self) -> Axis {
        *self
    }

    open spec fn fits(m: Axis) -> bool {
        match m {
            Axis::Axis1 => true,
            Axis::Axis2 => true,
        }
    }

    open spec fn enc(m: Axis) -> Seq<u8> {
        match m {
            Axis::Axis1 => enc_tag(0),
            Axis::Axis2 => enc_tag(1),
        }
    }

    open spec fn parse(s: Seq<u8>) -> Option<(Axis, nat)> {
        match parse_tag(s) {
            Some(t) => {
                let b = s.skip(4);
                if t == 0 {
                    Some((Axis::Axis1, (4) as nat))
                } else if t == 1 {
                    Some((Axis::Axis2, (4) as nat))
                } else {
                    None
                }
            },
            None => None,
        }
    }

    proof fn lemma_fits(&self) {
        match self {
            Axis::Axis1 => {
            },
            Axis::Axis2 => {
            },
        }
    }

    proof fn lemma_round_trip(m: Axis, rest: Seq<u8>) {
        match m {
            Axis::Axis1 => {
                lemma_tag_round_trip(0, rest);
                assert(Self::enc(m) + rest =~= enc_tag(0) + (rest));
            },
            Axis::Axis2 => {
                lemma_tag_round_trip(1, rest);
                assert(Self::enc(m) + rest =~= enc_tag(1) + (rest));
            },
        }
    }

    proof fn lemma_parse_canonical(s: Seq<u8>) {
        lemma_tag_canonical(s);
        if s.len() >= 4 {
            if parse_tag(s) == Some(0nat) {
                assert(s.subrange(0, 4) =~= enc_tag(0));
            }
            if parse_tag(s) == Some(1nat) {
                assert(s.subrange(0, 4) =~= enc_tag(1));
            }
        }
    }

    fn put(&self, out: &mut Vec<u8>) {
        match self {
            Axis::Axis1 => {
                put_tag(out, 0);
            },
            Axis::Axis2 => {
                put_tag(out, 1);
            },
        }
        assert(out@ =~= old(out)@ + Self::enc(self.model()));
    }

    fn take(buf: &[u8], pos: usize) -> (r: Option<(Axis, usize)>) {
        let (t, q) = match take_tag(buf, pos) {
            Some(x) => x,
            None => {
                return None;
            },
        };
        proof {
            lemma_skip_skip(buf@, pos as int, 4);
        }
        if t == 0 {
            Some((Axis::Axis1, q))
        } else if t == 1 {
            Some((Axis::Axis2, q))
        } else {
            None
        }
    }
}

impl Wire for MouseConfig {
    type M = MouseConfig;

    open spec fn model(&self) -> MouseConfig {
        *self
    }

    open spec fn fits(m: MouseConfig) -> bool {
        <i8 as Wire>::fits(m.x_sen)
            && <i8 as Wire>::fits(m.y_sen)
    }

    open spec fn enc(m: MouseConfig) -> Seq<u8> {
        <i8 as Wire>::enc(m.x_sen)
            + <i8 as Wire>::enc(m.y_sen)
    }

    open spec fn parse(s: Seq<u8>) -> Option<(MouseConfig, nat)> {
        match <i8 as Wire>::parse(s) {
            Some((v_x_sen, n0)) => {
                let s0 = s.skip(n0 as int);
                match <i8 as Wire>::parse(s0) {
                    Some((v_y_sen, n1)) => {
                        Some((MouseConfig { x_sen: v_x_sen, y_sen: v_y_sen }, (n0 + n1) as nat))
                    },
                    None => None,
                }
            },
            None => None,
        }
    }

    proof fn lemma_fits(&self) {
        self.x_sen.lemma_fits();
        self.y_sen.lemma_fits();
    }

    proof fn lemma_round_trip(m: MouseConfig, rest: Seq<u8>) {
        assert(Self::enc(m) + rest =~= <i8 as Wire>::enc(m.x_sen) + (<i8 as Wire>::enc(m.y_sen) + rest));
        <i8 as Wire>::lemma_round_trip(m.x_sen, <i8 as Wire>::enc(m.y_sen) + rest);
        lemma_skip_prefix(<i8 as Wire>::enc(m.x_sen), <i8 as Wire>::enc(m.y_sen) + rest);
        <i8 as Wire>::lemma_round_trip(m.y_sen, rest);
    }

    proof fn lemma_parse_canonical(s: Seq<u8>) {
        <i8 as Wire>::lemma_parse_canonical(s);
        if let Some((c0, k0)) = <i8 as Wire>::parse(s) {
            assert(s.subrange(0, (k0) as int) =~= <i8 as Wire>::enc(c0));
            <i8 as Wire>::lemma_parse_canonical(s.skip(k0 as int));
            if let Some((c1, k1)) = <i8 as Wire>::parse(s.skip(k0 as int)) {
                assert(s.subrange(0, (k0 + k1) as int) =~= <i8 as Wire>::enc(c0) + <i8 as Wire>::enc(c1));
            }
        }
    }

    fn put(&self, out: &mut Vec<u8>) {
        self.x_sen.put(out);
        self.y_sen.put(out);
        assert(out@ =~= old(out)@ + Self::enc(self.model()));
    }

    fn take(buf: &[u8], pos: usize) -> (r: Option<(MouseConfig, usize)>) {
        let (v_x_sen, p0) = match <i8 as Wire>::take(buf, pos) {
            Some(x) => x,
            None => {
                return None;
            },
        };
        proof {
            lemma_skip_skip(buf@, pos as int, p0 - pos);
        }
        let (v_y_sen, p1) = match <i8 as Wire>::take(buf, p0) {
            Some(x) => x,
            None => {
                return None;
            },
        };
        proof {
            lemma_skip_skip(buf@, p0 as int, p1 - p0);
        }
        Some((MouseConfig { x_sen: v_x_sen, y_sen: v_y_sen }, p1))
    }
}

impl Wire for MouseMotion {
    type M = MouseMotion;

    open spec fn model(&self) -> MouseMotion {
        *self
    }

    open spec fn fits(m: MouseMotion) -> bool {
        <i32 as Wire>::fits(m.x)
            && <i32 as Wire>::fits(m.y)
    }

    open spec fn enc(m: MouseMotion) -> Seq<u8> {
        <i32 as Wire>::enc(m.x)
            + <i32 as Wire>::enc(m.y)
    }

    open spec fn parse(s: Seq<u8>) -> Option<(MouseMotion, nat)> {
        match <i32 as Wire>::parse(s) {
            Some((v_x, n0)) => {
                let s0 = s.skip(n0 as int);
                match <i32 as Wire>::parse(s0) {
                    Some((v_y, n1)) => {
                        Some((MouseMotion { x: v_x, y: v_y }, (n0 + n1) as nat))
                    },
                    None => None,
                }
            },
            None => None,
        }
    }

    proof fn lemma_fits(&self) {
        self.x.lemma_fits();
        self.y.lemma_fits();
    }

    proof fn lemma_round_trip(m: MouseMotion, rest: Seq<u8>) {
        assert(Self::enc(m) + rest =~= <i32 as Wire>::enc(m.x) + (<i32 as Wire>::enc(m.y) + rest));
        <i32 as Wire>::lemma_round_trip(m.x, <i32 as Wire>::enc(m.y) + rest);
        lemma_skip_prefix(<i32 as Wire>::enc(m.x), <i32 as Wire>::enc(m.y) + rest);
        <i32 as Wire>::lemma_round_trip(m.y, rest);
    }

    proof fn lemma_parse_canonical(s: Seq<u8>) {
        <i32 as Wire>::lemma_parse_canonical(s);
        if let Some((c0, k0)) = <i32 as Wire>::parse(s) {
            assert(s.subrange(0, (k0) as int) =~= <i32 as Wire>::enc(c0));
            <i32 as Wire>::lemma_parse_canonical(s.skip(k0 as int));
            if let Some((c1, k1)) = <i32 as Wire>::parse(s.skip(k0 as int)) {
                assert(s.subrange(0, (k0 + k1) as int) =~= <i32 as Wire>::enc(c0) + <i32 as Wire>::enc(c1));
            }
        }
    }

    fn put(&self, out: &mut Vec<u8>) {
        self.x.put(out);
        self.y.put(out);
        assert(out@ =~= old(out)@ + Self::enc(self.model()));
    }

    fn take(buf: &[u8], pos: usize) -> (r: Option<(MouseMotion, usize)>) {
        let (v_x, p0) = match <i32 as Wire>::take(buf, pos) {
            Some(x) => x,
            None => {
                return None;
            },
        };
        proof {
            lemma_skip_skip(buf@, pos as int, p0 - pos);
        }
        let (v_y, p1) = match <i32 as Wire>::take(buf, p0) {
            Some(x) => x,
            None => {
                return None;
            },
        };
        proof {
            lemma_skip_skip(buf@, p0 as int, p1 - p0);
        }
        Some((MouseMotion { x: v_x, y: v_y }, p1))
    }
}

impl Wire for AxisReport {
    type M = AxisReport;

    open spec fn model(&self) -> AxisReport {
        *self
    }

    open spec fn fits(m: AxisReport) -> bool {
        <Axis as Wire>::fits(m.axis)
            && <i32 as Wire>::fits(m.value)
    }

    open spec fn enc(m: AxisReport) -> Seq<u8> {
        <Axis as Wire>::enc(m.axis)
            + <i32 as Wire>::enc(m.value)
    }

    open spec fn parse(s: Seq<u8>) -> Option<(AxisReport, nat)> {
        match <Axis as Wire>::parse(s) {
            Some((v_axis, n0)) => {
                let s0 = s.skip(n0 as int);
                match <i32 as Wire>::parse(s0) {
                    Some((v_value, n1)) => {
                        Some((AxisReport { axis: v_axis, value: v_value }, (n0 + n1) as nat))
                    },
                    None => None,
                }
            },
            None => None,
        }
    }

    proof fn lemma_fits(&self) {
        self.axis.lemma_fits();
        self.value.lemma_fits();
    }

    proof fn lemma_round_trip(m: AxisReport, rest: Seq<u8>) {
        assert(Self::enc(m) + rest =~= <Axis as Wire>::enc(m.axis) + (<i32 as Wire>::enc(m.value) + rest));
        <Axis as Wire>::lemma_round_trip(m.axis, <i32 as Wire>::enc(m.value) + rest);
        lemma_skip_prefix(<Axis as Wire>::enc(m.axis), <i32 as Wire>::enc(m.value) + rest);
        <i32 as Wire>::lemma_round_trip(m.value, rest);
    }

    proof fn lemma_parse_canonical(s: Seq<u8>) {
        <Axis as Wire>::lemma_parse_canonical(s);
        if let Some((c0, k0)) = <Axis as Wire>::parse(s) {
            assert(s.subrange(0, (k0) as int) =~= <Axis as Wire>::enc(c0));
            <i32 as Wire>::lemma_parse_canonical(s.skip(k0 as int));
            if let Some((c1, k1)) = <i32 as Wire>::parse(s.skip(k0 as int)) {
                assert(s.subrange(0, (k0 + k1) as int) =~= <Axis as Wire>::enc(c0) + <i32 as Wire>::enc(c1));
            }
        }
    }

    fn put(&self, out: &mut Vec<u8>) {
        self.axis.put(out);
        self.value.put(out);
        assert(out@ =~= old(out)@ + Self::enc(self.model()));
    }

    fn take(buf: &[u8], pos: usize) -> (r: Option<(AxisReport, usize)>) {
        let (v_axis, p0) = match <Axis as Wire>::take(buf, pos) {
            Some(x) => x,
            None => {
                return None;
            },
        };
        proof {
            lemma_skip_skip(buf@, pos as int, p0 - pos);
        }
        let (v_value, p1) = match <i32 as Wire>::take(buf, p0) {
            Some(x) => x,
            None => {
                return None;
            },
        };
        proof {
            lemma_skip_skip(buf@, p0 as int, p1 - p0);
        }
        Some((AxisReport { axis: v_axis, value: v_value }, p1))
    }
}

impl Wire for KeyboardButton {
    type M = KeyboardButtonModel;

    open spec fn model(&self) -> KeyboardButtonModel {
        self@
    }

    open spec fn fits(m: KeyboardButtonModel) -> bool {
        match m {
            KeyboardButtonModel::Literal(a0) => <Vec<u8> as Wire>::fits(a0),
            KeyboardButtonModel::SequenceDsl(a0) => <Vec<u8> as Wire>::fits(a0),
        }
    }

    open spec fn enc(m: KeyboardButtonModel) -> Seq<u8> {
        match m {
            KeyboardButtonModel::Literal(a0) => enc_tag(0) + <Vec<u8> as Wire>::enc(a0),
            KeyboardButtonModel::SequenceDsl(a0) => enc_tag(1) + <Vec<u8> as Wire>::enc(a0),
        }
    }

    open spec fn parse(s: Seq<u8>) -> Option<(KeyboardButtonModel, nat)> {
        match parse_tag(s) {
            Some(t) => {
                let b = s.skip(4);
                if t == 0 {
                    match <Vec<u8> as Wire>::parse(b) {
                        Some((a0, n0)) => {
                            Some((KeyboardButtonModel::Literal(a0), (4 + n0) as nat))
                        },
                        None => None,
                    }
                } else if t == 1 {
                    match <Vec<u8> as Wire>::parse(b) {
                        Some((a0, n0)) => {
                            Some((KeyboardButtonModel::SequenceDsl(a0), (4 + n0) as nat))
                        },
                        None => None,
                    }
                } else {
                    None
                }
            },
            None => None,
        }
    }

    proof fn lemma_fits(&self) {
        match self {
            KeyboardButton::Literal(a0) => {
                lemma_bytes_model(a0@);
                a0.lemma_fits();
            },
            KeyboardButton::SequenceDsl(a0) => {
                lemma_bytes_model(a0@);
                a0.lemma_fits();
            },
        }
    }

    proof fn lemma_round_trip(m: KeyboardButtonModel, rest: Seq<u8>) {
        match m {
            KeyboardButtonModel::Literal(a0) => {
                lemma_tag_round_trip(0, <Vec<u8> as Wire>::enc(a0) + rest);
                assert(Self::enc(m) + rest =~= enc_tag(0) + (<Vec<u8> as Wire>::enc(a0) + rest));
                <Vec<u8> as Wire>::lemma_round_trip(a0, rest);
            },
            KeyboardButtonModel::SequenceDsl(a0) => {
                lemma_tag_round_trip(1, <Vec<u8> as Wire>::enc(a0) + rest);
                assert(Self::enc(m) + rest =~= enc_tag(1) + (<Vec<u8> as Wire>::enc(a0) + rest));
                <Vec<u8> as Wire>::lemma_round_trip(a0, rest);
            },
        }
    }

    proof fn lemma_parse_canonical(s: Seq<u8>) {
        lemma_tag_canonical(s);
        if s.len() >= 4 {
            if parse_tag(s) == Some(0nat) {
                <Vec<u8> as Wire>::lemma_parse_canonical(s.skip(4));
                if let Some((c0, k0)) = <Vec<u8> as Wire>::parse(s.skip(4)) {
                    assert(s.subrange(0, (4 + k0) as int) =~= enc_tag(0) + <Vec<u8> as Wire>::enc(c0));
                }
            }
            if parse_tag(s) == Some(1nat) {
                <Vec<u8> as Wire>::lemma_parse_canonical(s.skip(4));
                if let Some((c0, k0)) = <Vec<u8> as Wire>::parse(s.skip(4)) {
                    assert(s.subrange(0, (4 + k0) as int) =~= enc_tag(1) + <Vec<u8> as Wire>::enc(c0));
                }
            }
        }
    }

    fn put(&self, out: &mut Vec<u8>) {
        match self {
            KeyboardButton::Literal(a0) => {
                proof {
                    lemma_bytes_model(a0@);
                }
                put_tag(out, 0);
                a0.put(out);
            },
            KeyboardButton::SequenceDsl(a0) => {
                proof {
                    lemma_bytes_model(a0@);
                }
                put_tag(out, 1);
                a0.put(out);
            },
        }
        assert(out@ =~= old(out)@ + Self::enc(self.model()));
    }

    fn take(buf: &[u8], pos: usize) -> (r: Option<(KeyboardButton, usize)>) {
        let (t, q) = match take_tag(buf, pos) {
            Some(x) => x,
            None => {
                return None;
            },
        };
        proof {
            lemma_skip_skip(buf@, pos as int, 4);
        }
        if t == 0 {
            let (a0, p0) = match <Vec<u8> as Wire>::take(buf, q) {
                Some(x) => x,
                None => {
                    return None;
                },
            };
            proof {
                lemma_skip_skip(buf@, q as int, p0 - q);
                lemma_bytes_model(a0@);
            }
            Some((KeyboardButton::Literal(a0), p0))
        } else if t == 1 {
            let (a0, p0) = match <Vec<u8> as Wire>::take(buf, q) {
                Some(x) => x,
                None => {
                    return None;
                },
            };
            proof {
                lemma_skip_skip(buf@, q as int, p0 - q);
                lemma_bytes_model(a0@);
            }
            Some((KeyboardButton::SequenceDsl(a0), p0))
        } else {
            None
        }
    }
}

impl Wire for ButtonAction {
    type M = ButtonActionModel;

    open spec fn model(&self) -> ButtonActionModel {
        self@
    }

    open spec fn fits(m: ButtonActionModel) -> bool {
        match m {
            ButtonActionModel::MouseButton(a0, a1) => <MouseButton as Wire>::fits(a0) && <MouseButtonState as Wire>::fits(a1),
            ButtonActionModel::KeyboardButton(a0) => <KeyboardButton as Wire>::fits(a0),
            ButtonActionModel::GamepadButton(a0, a1) => <u8 as Wire>::fits(a0) && <GamepadButtonState as Wire>::fits(a1),
            ButtonActionModel::CustomButton(a0) => <Vec<u8> as Wire>::fits(a0),
        }
    }

    open spec fn enc(m: ButtonActionModel) -> Seq<u8> {
        match m {
            ButtonActionModel::MouseButton(a0, a1) => enc_tag(0) + <MouseButton as Wire>::enc(a0) + <MouseButtonState as Wire>::enc(a1),
            ButtonActionModel::KeyboardButton(a0) => enc_tag(1) + <KeyboardButton as Wire>::enc(a0),
            ButtonActionModel::GamepadButton(a0, a1) => enc_tag(2) + <u8 as Wire>::enc(a0) + <GamepadButtonState as Wire>::enc(a1),
            ButtonActionModel::CustomButton(a0) => enc_tag(3) + <Vec<u8> as Wire>::enc(a0),
        }
    }

    open spec fn parse(s: Seq<u8>) -> Option<(ButtonActionModel, nat)> {
        match parse_tag(s) {
            Some(t) => {
                let b = s.skip(4);
                if t == 0 {
                    match <MouseButton as Wire>::parse(b) {
                        Some((a0, n0)) => {
                            let s0 = b.skip(n0 as int);
                            match <MouseButtonState as Wire>::parse(s0) {
                                Some((a1, n1)) => {
                                    Some((ButtonActionModel::MouseButton(a0, a1), (4 + n0 + n1) as nat))
                                },
                                None => None,
                            }
                        },
                        None => None,
                    }
                } else if t == 1 {
                    match <KeyboardButton as Wire>::parse(b) {
                        Some((a0, n0)) => {
                            Some((ButtonActionModel::KeyboardButton(a0), (4 + n0) as nat))
                        },
                        None => None,
                    }
                } else if t == 2 {
                    match <u8 as Wire>::parse(b) {
                        Some((a0, n0)) => {
                            let s0 = b.skip(n0 as int);
                            match <GamepadButtonState as Wire>::parse(s0) {
                                Some((a1, n1)) => {
                                    Some((ButtonActionModel::GamepadButton(a0, a1), (4 + n0 + n1) as nat))
                                },
                                None => None,
                            }
                        },
                        None => None,
                    }
                } else if t == 3 {
                    match <Vec<u8> as Wire>::parse(b) {
                        Some((a0, n0)) => {
                            Some((ButtonActionModel::CustomButton(a0), (4 + n0) as nat))
                        },
                        None => None,
                    }
                } else {
                    None
                }
            },
            None => None,
        }
    }

    proof fn lemma_fits(&self) {
        match self {
            ButtonAction::MouseButton(a0, a1) => {
                a0.lemma_fits();
                a1.lemma_fits();
            },
            ButtonAction::KeyboardButton(a0) => {
                a0.lemma_fits();
            },
            ButtonAction::GamepadButton(a0, a1) => {
                a0.lemma_fits();
                a1.lemma_fits();
            },
            ButtonAction::CustomButton(a0) => {
                lemma_bytes_model(a0@);
                a0.lemma_fits();
            },
        }
    }

    proof fn lemma_round_trip(m: ButtonActionModel, rest: Seq<u8>) {
        match m {
            ButtonActionModel::MouseButton(a0, a1) => {
                lemma_tag_round_trip(0, <MouseButton as Wire>::enc(a0) + (<MouseButtonState as Wire>::enc(a1) + rest));
                assert(Self::enc(m) + rest =~= enc_tag(0) + (<MouseButton as Wire>::enc(a0) + (<MouseButtonState as Wire>::enc(a1) + rest)));
                <MouseButton as Wire>::lemma_round_trip(a0, <MouseButtonState as Wire>::enc(a1) + rest);
                lemma_skip_prefix(<MouseButton as Wire>::enc(a0), <MouseButtonState as Wire>::enc(a1) + rest);
                <MouseButtonState as Wire>::lemma_round_trip(a1, rest);
            },
            ButtonActionModel::KeyboardButton(a0) => {
                lemma_tag_round_trip(1, <KeyboardButton as Wire>::enc(a0) + rest);
                assert(Self::enc(m) + rest =~= enc_tag(1) + (<KeyboardButton as Wire>::enc(a0) + rest));
                <KeyboardButton as Wire>::lemma_round_trip(a0, rest);
            },
            ButtonActionModel::GamepadButton(a0, a1) => {
                lemma_tag_round_trip(2, <u8 as Wire>::enc(a0) + (<GamepadButtonState as Wire>::enc(a1) + rest));
                assert(Self::enc(m) + rest =~= enc_tag(2) + (<u8 as Wire>::enc(a0) + (<GamepadButtonState as Wire>::enc(a1) + rest)));
                <u8 as Wire>::lemma_round_trip(a0, <GamepadButtonState as Wire>::enc(a1) + rest);
                lemma_skip_prefix(<u8 as Wire>::enc(a0), <GamepadButtonState as Wire>::enc(a1) + rest);
                <GamepadButtonState as Wire>::lemma_round_trip(a1, rest);
            },
            ButtonActionModel::CustomButton(a0) => {
                lemma_tag_round_trip(3, <Vec<u8> as Wire>::enc(a0) + rest);
                assert(Self::enc(m) + rest =~= enc_tag(3) + (<Vec<u8> as Wire>::enc(a0) + rest));
                <Vec<u8> as Wire>::lemma_round_trip(a0, rest);
            },
        }
    }

    proof fn lemma_parse_canonical(s: Seq<u8>) {
        lemma_tag_canonical(s);
        if s.len() >= 4 {
            if parse_tag(s) == Some(0nat) {
                <MouseButton as Wire>::lemma_parse_canonical(s.skip(4));
                if let Some((c0, k0)) = <MouseButton as Wire>::parse(s.skip(4)) {
                    assert(s.subrange(0, (4 + k0) as int) =~= enc_tag(0) + <MouseButton as Wire>::enc(c0));
                    <MouseButtonState as Wire>::lemma_parse_canonical(s.skip(4).skip(k0 as int));
                    if let Some((c1, k1)) = <MouseButtonState as Wire>::parse(s.skip(4).skip(k0 as int)) {
                        assert(s.subrange(0, (4 + k0 + k1) as int) =~= enc_tag(0) + <MouseButton as Wire>::enc(c0) + <MouseButtonState as Wire>::enc(c1));
                    }
                }
            }
            if parse_tag(s) == Some(1nat) {
                <KeyboardButton as Wire>::lemma_parse_canonical(s.skip(4));
                if let Some((c0, k0)) = <KeyboardButton as Wire>::parse(s.skip(4)) {
                    assert(s.subrange(0, (4 + k0) as int) =~= enc_tag(1) + <KeyboardButton as Wire>::enc(c0));
                }
            }
            if parse_tag(s) == Some(2nat) {
                <u8 as Wire>::lemma_parse_canonical(s.skip(4));
                if let Some((c0, k0)) = <u8 as Wire>::parse(s.skip(4)) {
                    assert(s.subrange(0, (4 + k0) as int) =~= enc_tag(2) + <u8 as Wire>::enc(c0));
                    <GamepadButtonState as Wire>::lemma_parse_canonical(s.skip(4).skip(k0 as int));
                    if let Some((c1, k1)) = <GamepadButtonState as Wire>::parse(s.skip(4).skip(k0 as int)) {
                        assert(s.subrange(0, (4 + k0 + k1) as int) =~= enc_tag(2) + <u8 as Wire>::enc(c0) + <GamepadButtonState as Wire>::enc(c1));
                    }
                }
            }
            if parse_tag(s) == Some(3nat) {
                <Vec<u8> as Wire>::lemma_parse_canonical(s.skip(4));
                if let Some((c0, k0)) = <Vec<u8> as Wire>::parse(s.skip(4)) {
                    assert(s.subrange(0, (4 + k0) as int) =~= enc_tag(3) + <Vec<u8> as Wire>::enc(c0));
                }
            }
        }
    }

    fn put(&self, out: &mut Vec<u8>) {
        match self {
            ButtonAction::MouseButton(a0, a1) => {
                put_tag(out, 0);
                a0.put(out);
                a1.put(out);
            },
            ButtonAction::KeyboardButton(a0) => {
                put_tag(out, 1);
                a0.put(out);
            },
            ButtonAction::GamepadButton(a0, a1) => {
                put_tag(out, 2);
                a0.put(out);
                a1.put(out);
            },
            ButtonAction::CustomButton(a0) => {
                proof {
                    lemma_bytes_model(a0@);
                }
                put_tag(out, 3);
                a0.put(out);
            },
        }
        assert(out@ =~= old(out)@ + Self::enc(self.model()));
    }

    fn take(buf: &[u8], pos: usize) -> (r: Option<(ButtonAction, usize)>) {
        let (t, q) = match take_tag(buf, pos) {
            Some(x) => x,
            None => {
                return None;
            },
        };
        proof {
            lemma_skip_skip(buf@, pos as int, 4);
        }
        if t == 0 {
            let (a0, p0) = match <MouseButton as Wire>::take(buf, q) {
                Some(x) => x,
                None => {
                    return None;
                },
            };
            proof {
                lemma_skip_skip(buf@, q as int, p0 - q);
            }
            let (a1, p1) = match <MouseButtonState as Wire>::take(buf, p0) {
                Some(x) => x,
                None => {
                    return None;
                },
            };
            proof {
                lemma_skip_skip(buf@, p0 as int, p1 - p0);
            }
            Some((ButtonAction::MouseButton(a0, a1), p1))
        } else if t == 1 {
            let (a0, p0) = match <KeyboardButton as Wire>::take(buf, q) {
                Some(x) => x,
                None => {
                    return None;
                },
            };
            proof {
                lemma_skip_skip(buf@, q as int, p0 - q);
            }
            Some((ButtonAction::KeyboardButton(a0), p0))
        } else if t == 2 {
            let (a0, p0) = match <u8 as Wire>::take(buf, q) {
                Some(x) => x,
                None => {
                    return None;
                },
            };
            proof {
                lemma_skip_skip(buf@, q as int, p0 - q);
            }
            let (a1, p1) = match <GamepadButtonState as Wire>::take(buf, p0) {
                Some(x) => x,
                None => {
                    return None;
                },
            };
            proof {
                lemma_skip_skip(buf@, p0 as int, p1 - p0);
            }
            Some((ButtonAction::GamepadButton(a0, a1), p1))
        } else if t == 3 {
            let (a0, p0) = match <Vec<u8> as Wire>::take(buf, q) {
                Some(x) => x,
                None => {
                    return None;
                },
            };
            proof {
                lemma_skip_skip(buf@, q as int, p0 - q);
                lemma_bytes_model(a0@);
            }
            Some((ButtonAction::CustomButton(a0), p0))
        } else {
            None
        }
    }
}

impl Wire for Button {
    type M = ButtonModel;

    open spec fn model(&self) -> ButtonModel {
        self@
    }

    open spec fn fits(m: ButtonModel) -> bool {
        <Id as Wire>::fits(m.id)
            && <Vec<u8> as Wire>::fits(m.name)
            && <ButtonMode as Wire>::fits(m.mode)
    }

    open spec fn enc(m: ButtonModel) -> Seq<u8> {
        <Id as Wire>::enc(m.id)
            + <Vec<u8> as Wire>::enc(m.name)
            + <ButtonMode as Wire>::enc(m.mode)
    }

    open spec fn parse(s: Seq<u8>) -> Option<(ButtonModel, nat)> {
        match <Id as Wire>::parse(s) {
            Some((v_id, n0)) => {
                let s0 = s.skip(n0 as int);
                match <Vec<u8> as Wire>::parse(s0) {
                    Some((v_name, n1)) => {
                        let s1 = s0.skip(n1 as int);
                        match <ButtonMode as Wire>::parse(s1) {
                            Some((v_mode, n2)) => {
                                Some((ButtonModel { id: v_id, name: v_name, mode: v_mode }, (n0 + n1 + n2) as nat))
                            },
                            None => None,
                        }
                    },
                    None => None,
                }
            },
            None => None,
        }
    }

    proof fn lemma_fits(&self) {
        self.id.lemma_fits();
        lemma_bytes_model(self.name@);
        self.name.lemma_fits();
        self.mode.lemma_fits();
    }

    proof fn lemma_round_trip(m: ButtonModel, rest: Seq<u8>) {
        assert(Self::enc(m) + rest =~= <Id as Wire>::enc(m.id) + (<Vec<u8> as Wire>::enc(m.name) + (<ButtonMode as Wire>::enc(m.mode) + rest)));
        <Id as Wire>::lemma_round_trip(m.id, <Vec<u8> as Wire>::enc(m.name) + (<ButtonMode as Wire>::enc(m.mode) + rest));
        lemma_skip_prefix(<Id as Wire>::enc(m.id), <Vec<u8> as Wire>::enc(m.name) + (<ButtonMode as Wire>::enc(m.mode) + rest));
        <Vec<u8> as Wire>::lemma_round_trip(m.name, <ButtonMode as Wire>::enc(m.mode) + rest);
        lemma_skip_prefix(<Vec<u8> as Wire>::enc(m.name), <ButtonMode as Wire>::enc(m.mode) + rest);
        <ButtonMode as Wire>::lemma_round_trip(m.mode, rest);
    }

    proof fn lemma_parse_canonical(s: Seq<u8>) {
        <Id as Wire>::lemma_parse_canonical(s);
        if let Some((c0, k0)) = <Id as Wire>::parse(s) {
            assert(s.subrange(0, (k0) as int) =~= <Id as Wire>::enc(c0));
            <Vec<u8> as Wire>::lemma_parse_canonical(s.skip(k0 as int));
            if let Some((c1, k1)) = <Vec<u8> as Wire>::parse(s.skip(k0 as int)) {
                assert(s.subrange(0, (k0 + k1) as int) =~= <Id as Wire>::enc(c0) + <Vec<u8> as Wire>::enc(c1));
                <ButtonMode as Wire>::lemma_parse_canonical(s.skip(k0 as int).skip(k1 as int));
                if let Some((c2, k2)) = <ButtonMode as Wire>::parse(s.skip(k0 as int).skip(k1 as int)) {
                    assert(s.subrange(0, (k0 + k1 + k2) as int) =~= <Id as Wire>::enc(c0) + <Vec<u8> as Wire>::enc(c1) + <ButtonMode as Wire>::enc(c2));
                }
            }
        }
    }

    fn put(&self, out: &mut Vec<u8>) {
        proof {
            lemma_bytes_model(self.name@);
        }
        self.id.put(out);
        self.name.put(out);
        self.mode.put(out);
        assert(out@ =~= old(out)@ + Self::enc(self.model()));
    }

    fn take(buf: &[u8], pos: usize) -> (r: Option<(Button, usize)>) {
        let (v_id, p0) = match <Id as Wire>::take(buf, pos) {
            Some(x) => x,
            None => {
                return None;
            },
        };
        proof {
            lemma_skip_skip(buf@, pos as int, p0 - pos);
        }
        let (v_name, p1) = match <Vec<u8> as Wire>::take(buf, p0) {
            Some(x) => x,
            None => {
                return None;
            },
        };
        proof {
            lemma_skip_skip(buf@, p0 as int, p1 - p0);
            lemma_bytes_model(v_name@);
        }
        let (v_mode, p2) = match <ButtonMode as Wire>::take(buf, p1) {
            Some(x) => x,
            None => {
                return None;
            },
        };
        proof {
            lemma_skip_skip(buf@, p1 as int, p2 - p1);
        }
        Some((Button { id: v_id, name: v_name, mode: v_mode }, p2))
    }
}

impl Wire for ActionEntry {
    type M = ActionEntryModel;

    open spec fn model(&self) -> ActionEntryModel {
        self@
    }

    open spec fn fits(m: ActionEntryModel) -> bool {
        <Id as Wire>::fits(m.button)
            && <Vec<ButtonAction> as Wire>::fits(m.actions)
    }

    open spec fn enc(m: ActionEntryModel) -> Seq<u8> {
        <Id as Wire>::enc(m.button)
            + <Vec<ButtonAction> as Wire>::enc(m.actions)
    }

    open spec fn parse(s: Seq<u8>) -> Option<(ActionEntryModel, nat)> {
        match <Id as Wire>::parse(s) {
            Some((v_button, n0)) => {
                let s0 = s.skip(n0 as int);
                match <Vec<ButtonAction> as Wire>::parse(s0) {
                    Some((v_actions, n1)) => {
                        Some((ActionEntryModel { button: v_button, actions: v_actions }, (n0 + n1) as nat))
                    },
                    None => None,
                }
            },
            None => None,
        }
    }

    proof fn lemma_fits(&self) {
        self.button.lemma_fits();
        lemma_actions_model(self.actions@);
        self.actions.lemma_fits();
    }

    proof fn lemma_round_trip(m: ActionEntryModel, rest: Seq<u8>) {
        assert(Self::enc(m) + rest =~= <Id as Wire>::enc(m.button) + (<Vec<ButtonAction> as Wire>::enc(m.actions) + rest));
        <Id as Wire>::lemma_round_trip(m.button, <Vec<ButtonAction> as Wire>::enc(m.actions) + rest);
        lemma_skip_prefix(<Id as Wire>::enc(m.button), <Vec<ButtonAction> as Wire>::enc(m.actions) + rest);
        <Vec<ButtonAction> as Wire>::lemma_round_trip(m.actions, rest);
    }

    proof fn lemma_parse_canonical(s: Seq<u8>) {
        <Id as Wire>::lemma_parse_canonical(s);
        if let Some((c0, k0)) = <Id as Wire>::parse(s) {
            assert(s.subrange(0, (k0) as int) =~= <Id as Wire>::enc(c0));
            <Vec<ButtonAction> as Wire>::lemma_parse_canonical(s.skip(k0 as int));
            if let Some((c1, k1)) = <Vec<ButtonAction> as Wire>::parse(s.skip(k0 as int)) {
                assert(s.subrange(0, (k0 + k1) as int) =~= <Id as Wire>::enc(c0) + <Vec<ButtonAction> as Wire>::enc(c1));
            }
        }
    }

    fn put(&self, out: &mut Vec<u8>) {
        proof {
            lemma_actions_model(self.actions@);
        }
        self.button.put(out);
        self.actions.put(out);
        assert(out@ =~= old(out)@ + Self::enc(self.model()));
    }

    fn take(buf: &[u8], pos: usize) -> (r: Option<(ActionEntry, usize)>) {
        let (v_button, p0) = match <Id as Wire>::take(buf, pos) {
            Some(x) => x,
            None => {
                return None;
            },
        };
        proof {
            lemma_skip_skip(buf@, pos as int, p0 - pos);
        }
        let (v_actions, p1) = match <Vec<ButtonAction> as Wire>::take(buf, p0) {
            Some(x) => x,
            None => {
                return None;
            },
        };
        proof {
            lemma_skip_skip(buf@, p0 as int, p1 - p0);
            lemma_actions_model(v_actions@);
        }
        Some((ActionEntry { button: v_button, actions: v_actions }, p1))
    }
}

impl Wire for Device {
    type M = DeviceModel;

    open spec fn model(&self) -> DeviceModel {
        self@
    }

    open spec fn fits(m: DeviceModel) -> bool {
        <Id as Wire>::fits(m.id)
            && <Vec<u8> as Wire>::fits(m.name)
            && <Option<MouseConfig> as Wire>::fits(m.mouse_config)
            && <Vec<Button> as Wire>::fits(m.buttons)
            && <Vec<ActionEntry> as Wire>::fits(m.actions_map)
    }

    open spec fn enc(m: DeviceModel) -> Seq<u8> {
        <Id as Wire>::enc(m.id)
            + <Vec<u8> as Wire>::enc(m.name)
            + <Option<MouseConfig> as Wire>::enc(m.mouse_config)
            + <Vec<Button> as Wire>::enc(m.buttons)
            + <Vec<ActionEntry> as Wire>::enc(m.actions_map)
    }

    open spec fn parse(s: Seq<u8>) -> Option<(DeviceModel, nat)> {
        match <Id as Wire>::parse(s) {
            Some((v_id, n0)) => {
                let s0 = s.skip(n0 as int);
                match <Vec<u8> as Wire>::parse(s0) {
                    Some((v_name, n1)) => {
                        let s1 = s0.skip(n1 as int);
                        match <Option<MouseConfig> as Wire>::parse(s1) {
                            Some((v_mouse_config, n2)) => {
                                let s2 = s1.skip(n2 as int);
                                match <Vec<Button> as Wire>::parse(s2) {
                                    Some((v_buttons, n3)) => {
                                        let s3 = s2.skip(n3 as int);
                                        match <Vec<ActionEntry> as Wire>::parse(s3) {
                                            Some((v_actions_map, n4)) => {
                                                Some((DeviceModel { id: v_id, name: v_name, mouse_config: v_mouse_config, buttons: v_buttons, actions_map: v_actions_map }, (n0 + n1 + n2 + n3 + n4) as nat))
                                            },
                                            None => None,
                                        }
                                    },
                                    None => None,
                                }
                            },
                            None => None,
                        }
                    },
                    None => None,
                }
            },
            None => None,
        }
    }

    proof fn lemma_fits(&self) {
        self.id.lemma_fits();
        lemma_bytes_model(self.name@);
        self.name.lemma_fits();
        lemma_config_model(self.mouse_config);
        self.mouse_config.lemma_fits();
        lemma_buttons_model(self.buttons@);
        self.buttons.lemma_fits();
        lemma_entries_model(self.actions_map@);
        self.actions_map.lemma_fits();
    }

    proof fn lemma_round_trip(m: DeviceModel, rest: Seq<u8>) {
        assert(Self::enc(m) + rest =~= <Id as Wire>::enc(m.id) + (<Vec<u8> as Wire>::enc(m.name) + (<Option<MouseConfig> as Wire>::enc(m.mouse_config) + (<Vec<Button> as Wire>::enc(m.buttons) + (<Vec<ActionEntry> as Wire>::enc(m.actions_map) + rest)))));
        <Id as Wire>::lemma_round_trip(m.id, <Vec<u8> as Wire>::enc(m.name) + (<Option<MouseConfig> as Wire>::enc(m.mouse_config) + (<Vec<Button> as Wire>::enc(m.buttons) + (<Vec<ActionEntry> as Wire>::enc(m.actions_map) + rest))));
        lemma_skip_prefix(<Id as Wire>::enc(m.id), <Vec<u8> as Wire>::enc(m.name) + (<Option<MouseConfig> as Wire>::enc(m.mouse_config) + (<Vec<Button> as Wire>::enc(m.buttons) + (<Vec<ActionEntry> as Wire>::enc(m.actions_map) + rest))));
        <Vec<u8> as Wire>::lemma_round_trip(m.name, <Option<MouseConfig> as Wire>::enc(m.mouse_config) + (<Vec<Button> as Wire>::enc(m.buttons) + (<Vec<ActionEntry> as Wire>::enc(m.actions_map) + rest)));
        lemma_skip_prefix(<Vec<u8> as Wire>::enc(m.name), <Option<MouseConfig> as Wire>::enc(m.mouse_config) + (<Vec<Button> as Wire>::enc(m.buttons) + (<Vec<ActionEntry> as Wire>::enc(m.actions_map) + rest)));
        <Option<MouseConfig> as Wire>::lemma_round_trip(m.mouse_config, <Vec<Button> as Wire>::enc(m.buttons) + (<Vec<ActionEntry> as Wire>::enc(m.actions_map) + rest));
        lemma_skip_prefix(<Option<MouseConfig> as Wire>::enc(m.mouse_config), <Vec<Button> as Wire>::enc(m.buttons) + (<Vec<ActionEntry> as Wire>::enc(m.actions_map) + rest));
        <Vec<Button> as Wire>::lemma_round_trip(m.buttons, <Vec<ActionEntry> as Wire>::enc(m.actions_map) + rest);
        lemma_skip_prefix(<Vec<Button> as Wire>::enc(m.buttons), <Vec<ActionEntry> as Wire>::enc(m.actions_map) + rest);
        <Vec<ActionEntry> as Wire>::lemma_round_trip(m.actions_map, rest);
    }

    #[verifier::rlimit(100)]
    #[verifier::spinoff_prover]
    proof fn lemma_parse_canonical(s: Seq<u8>) {
        <Id as Wire>::lemma_parse_canonical(s);
        if let Some((c0, k0)) = <Id as Wire>::parse(s) {
            assert(s.subrange(0, (k0) as int) =~= <Id as Wire>::enc(c0));
            <Vec<u8> as Wire>::lemma_parse_canonical(s.skip(k0 as int));
            if let Some((c1, k1)) = <Vec<u8> as Wire>::parse(s.skip(k0 as int)) {
                assert(s.subrange(0, (k0 + k1) as int) =~= <Id as Wire>::enc(c0) + <Vec<u8> as Wire>::enc(c1));
                <Option<MouseConfig> as Wire>::lemma_parse_canonical(s.skip(k0 as int).skip(k1 as int));
                if let Some((c2, k2)) = <Option<MouseConfig> as Wire>::parse(s.skip(k0 as int).skip(k1 as int)) {
                    assert(s.subrange(0, (k0 + k1 + k2) as int) =~= <Id as Wire>::enc(c0) + <Vec<u8> as Wire>::enc(c1) + <Option<MouseConfig> as Wire>::enc(c2));
                    <Vec<Button> as Wire>::lemma_parse_canonical(s.skip(k0 as int).skip(k1 as int).skip(k2 as int));
                    if let Some((c3, k3)) = <Vec<Button> as Wire>::parse(s.skip(k0 as int).skip(k1 as int).skip(k2 as int)) {
                        assert(s.subrange(0, (k0 + k1 + k2 + k3) as int) =~= <Id as Wire>::enc(c0) + <Vec<u8> as Wire>::enc(c1) + <Option<MouseConfig> as Wire>::enc(c2) + <Vec<Button> as Wire>::enc(c3));
                        <Vec<ActionEntry> as Wire>::lemma_parse_canonical(s.skip(k0 as int).skip(k1 as int).skip(k2 as int).skip(k3 as int));
                        if let Some((c4, k4)) = <Vec<ActionEntry> as Wire>::parse(s.skip(k0 as int).skip(k1 as int).skip(k2 as int).skip(k3 as int)) {
                            assert(s.subrange(0, (k0 + k1 + k2 + k3 + k4) as int) =~= <Id as Wire>::enc(c0) + <Vec<u8> as Wire>::enc(c1) + <Option<MouseConfig> as Wire>::enc(c2) + <Vec<Button> as Wire>::enc(c3) + <Vec<ActionEntry> as Wire>::enc(c4));
                        }
                    }
                }
            }
        }
    }

    fn put(&self, out: &mut Vec<u8>) {
        proof {
            lemma_bytes_model(self.name@);
            lemma_config_model(self.mouse_config);
            lemma_buttons_model(self.buttons@);
            lemma_entries_model(self.actions_map@);
        }
        self.id.put(out);
        self.name.put(out);
        self.mouse_config.put(out);
        self.buttons.put(out);
        self.actions_map.put(out);
        assert(out@ =~= old(out)@ + Self::enc(self.model()));
    }

    #[verifier::rlimit(100)]
    #[verifier::spinoff_prover]
    fn take(buf: &[u8], pos: usize) -> (r: Option<(Device, usize)>) {
        let (v_id, p0) = match <Id as Wire>::take(buf, pos) {
            Some(x) => x,
            None => {
                return None;
            },
        };
        proof {
            lemma_skip_skip(buf@, pos as int, p0 - pos);
        }
        let (v_name, p1) = match <Vec<u8> as Wire>::take(buf, p0) {
            Some(x) => x,
            None => {
                return None;
            },
        };
        proof {
            lemma_skip_skip(buf@, p0 as int, p1 - p0);
            lemma_bytes_model(v_name@);
        }
        let (v_mouse_config, p2) = match <Option<MouseConfig> as Wire>::take(buf, p1) {
            Some(x) => x,
            None => {
                return None;
            },
        };
        proof {
            lemma_skip_skip(buf@, p1 as int, p2 - p1);
            lemma_config_model(v_mouse_config);
        }
        let (v_buttons, p3) = match <Vec<Button> as Wire>::take(buf, p2) {
            Some(x) => x,
            None => {
                return None;
            },
        };
        proof {
            lemma_skip_skip(buf@, p2 as int, p3 - p2);
            lemma_buttons_model(v_buttons@);
        }
        let (v_actions_map, p4) = match <Vec<ActionEntry> as Wire>::take(buf, p3) {
            Some(x) => x,
            None => {
                return None;
            },
        };
        proof {
            lemma_skip_skip(buf@, p3 as int, p4 - p3);
            lemma_entries_model(v_actions_map@);
        }
        Some((Device { id: v_id, name: v_name, mouse_config: v_mouse_config, buttons: v_buttons, actions_map: v_actions_map }, p4))
    }
}

} // verus!
