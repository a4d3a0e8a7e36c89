//! Operations on the device description: the actions bound to each button,
//! updates of the bindings, the layout of a new device and what the host's
//! commands lead to.
use vstd::prelude::*;

use crate::codec::{lemma_buttons_model, lemma_entries_model};
use crate::ids::{distinct_id, is_random_v4, random_id};
use crate::model::{
    actions_view, buttons_view, copy_actions, entries_view, ActionEntry, ActionEntryModel, Button,
    ButtonAction, ButtonActionModel, ButtonMode, ButtonModel, Device, DeviceModel, GamepadButtonState, Id,
    KeyboardButton, KeyboardButtonModel, MouseButton, MouseButtonState, MouseConfig,
};
use crate::protocol::{decode_server_message, server_message_from, ServerMessage, ServerMessageModel};
use crate::wire::Wire;

verus! {

/// `i` is the first position of an entry for button `k`.
pub open spec fn is_first_index(m: Seq<ActionEntryModel>, k: Id, i: int) -> bool {
    &&& 0 <= i < m.len()
    &&& m[i].button == k
    &&& forall|j: int| 0 <= j < i ==> (#[trigger] m[j]).button != k
}

pub open spec fn has_entry(m: Seq<ActionEntryModel>, k: Id) -> bool {
    exists|i: int| is_first_index(m, k, i)
}

pub open spec fn first_index(m: Seq<ActionEntryModel>, k: Id) -> int {
    choose|i: int| is_first_index(m, k, i)
}

/// The actions bound to button `k`: those of its first entry.
pub open spec fn actions_of(m: Seq<ActionEntryModel>, k: Id) -> Seq<ButtonActionModel> {
    m[first_index(m, k)].actions
}

/// Binds the actions of `e` to its button: the button's entry is replaced,
/// or the entry is added at the end.
pub open spec fn insert_entry(m: Seq<ActionEntryModel>, e: ActionEntryModel) -> Seq<ActionEntryModel> {
    if has_entry(m, e.button) {
        m.update(first_index(m, e.button), e)
    } else {
        m.push(e)
    }
}

/// The bindings after an update: each entry of the update, in order, is
/// inserted.
pub open spec fn merged(m: Seq<ActionEntryModel>, upd: Seq<ActionEntryModel>) -> Seq<ActionEntryModel>
    decreases upd.len(),
{
    if upd.len() == 0 {
        m
    } else {
        insert_entry(merged(m, upd.drop_last()), upd.last())
    }
}

proof fn lemma_first_index_unique(m: Seq<ActionEntryModel>, k: Id, i: int)
    requires
        is_first_index(m, k, i),
    ensures
        has_entry(m, k),
        first_index(m, k) == i,
{
    let c = first_index(m, k);
    assert(is_first_index(m, k, c));
    if c < i {
        assert(m[c].button != k);
    } else if i < c {
        assert(m[i].button != k);
    }
}

/// Where the entry for button `k` stands, if there is one.
pub fn find_entry(m: &Vec<ActionEntry>, k: Id) -> (r: Option<usize>)
    ensures
        match r {
            Some(i) => is_first_index(entries_view(m@), k, i as int) && first_index(entries_view(m@), k)
                == i,
            None => !has_entry(entries_view(m@), k),
        },
{
    let mut i: usize = 0;
    while i < m.len()
        invariant
            i <= m@.len(),
            forall|j: int| 0 <= j < i ==> (#[trigger] entries_view(m@)[j]).button != k,
        decreases m@.len() - i,
    {
        if m[i].button == k {
            proof {
                lemma_first_index_unique(entries_view(m@), k, i as int);
            }
            return Some(i);
        }
        i = i + 1;
    }
    None
}

/// Binds the actions of `e` to its button.
pub fn insert_entry_into(m: &mut Vec<ActionEntry>, e: ActionEntry)
    ensures
        entries_view(final(m)@) == insert_entry(entries_view(old(m)@), e@),
{
    match find_entry(m, e.button) {
        Some(i) => {
            let ghost v = e@;
            m.set(i, e);
            assert(entries_view(m@) =~= entries_view(old(m)@).update(i as int, v));
        },
        None => {
            let ghost v = e@;
            m.push(e);
            assert(entries_view(m@) =~= entries_view(old(m)@).push(v));
        },
    }
}

/// Applies an update of the bindings.
pub fn merge_actions(m: &mut Vec<ActionEntry>, upd: &Vec<ActionEntry>)
    ensures
        entries_view(final(m)@) == merged(entries_view(old(m)@), entries_view(upd@)),
{
    let mut i: usize = 0;
    while i < upd.len()
        invariant
            i <= upd@.len(),
            entries_view(m@) == merged(entries_view(old(m)@), entries_view(upd@.subrange(0, i as int))),
        decreases upd@.len() - i,
    {
        let e = upd[i].clone();
        insert_entry_into(m, e);
        proof {
            let pre = entries_view(upd@.subrange(0, i as int));
            let next = entries_view(upd@.subrange(0, i + 1));
            assert(next.drop_last() =~= pre);
            assert(next.last() == upd@[i as int]@);
        }
        i = i + 1;
    }
    assert(upd@.subrange(0, upd@.len() as int) =~= upd@);
}

/// Copies a list of entries.
pub fn copy_entries(v: &Vec<ActionEntry>) -> (r: Vec<ActionEntry>)
    ensures
        entries_view(r@) == entries_view(v@),
{
    let mut r: Vec<ActionEntry> = Vec::new();
    let mut i: usize = 0;
    while i < v.len()
        invariant
            i <= v@.len(),
            entries_view(r@) == entries_view(v@.subrange(0, i as int)),
        decreases v@.len() - i,
    {
        let e = v[i].clone();
        let ghost before = r@;
        r.push(e);
        assert(v@.subrange(0, i as int).push(v@[i as int]) =~= v@.subrange(0, i + 1));
        assert(entries_view(before.push(e)) =~= entries_view(before).push(e@));
        assert(entries_view(v@.subrange(0, i as int).push(v@[i as int])) =~= entries_view(
            v@.subrange(0, i as int),
        ).push(v@[i as int]@));
        i = i + 1;
    }
    assert(v@.subrange(0, v@.len() as int) =~= v@);
    r
}

/// Copies a list of buttons.
pub fn copy_buttons(v: &Vec<Button>) -> (r: Vec<Button>)
    ensures
        buttons_view(r@) == buttons_view(v@),
{
    let mut r: Vec<Button> = Vec::new();
    let mut i: usize = 0;
    while i < v.len()
        invariant
            i <= v@.len(),
            buttons_view(r@) == buttons_view(v@.subrange(0, i as int)),
        decreases v@.len() - i,
    {
        let b = v[i].clone();
        let ghost before = r@;
        r.push(b);
        assert(v@.subrange(0, i as int).push(v@[i as int]) =~= v@.subrange(0, i + 1));
        assert(buttons_view(before.push(b)) =~= buttons_view(before).push(b@));
        assert(buttons_view(v@.subrange(0, i as int).push(v@[i as int])) =~= buttons_view(
            v@.subrange(0, i as int),
        ).push(v@[i as int]@));
        i = i + 1;
    }
    assert(v@.subrange(0, v@.len() as int) =~= v@);
    r
}

/// No two entries bind the same button.
pub open spec fn unique_keys(m: Seq<ActionEntryModel>) -> bool {
    forall|i: int, j: int| 0 <= i < m.len() && 0 <= j < m.len() && m[i].button == m[j].button ==> i == j
}

/// The bindings as a map from button to actions.
pub open spec fn entries_map(m: Seq<ActionEntryModel>) -> Map<Id, Seq<ButtonActionModel>> {
    Map::new(|k: Id| has_entry(m, k), |k: Id| actions_of(m, k))
}

proof fn lemma_insert_entry_map(m: Seq<ActionEntryModel>, e: ActionEntryModel)
    ensures
        entries_map(insert_entry(m, e)) == entries_map(m).insert(e.button, e.actions),
        unique_keys(m) ==> unique_keys(insert_entry(m, e)),
{
    let n = insert_entry(m, e);
    if has_entry(m, e.button) {
        let p = first_index(m, e.button);
        assert(is_first_index(m, e.button, p));
        assert(is_first_index(n, e.button, p));
        lemma_first_index_unique(n, e.button, p);
        assert forall|k: Id| k != e.button implies (has_entry(n, k) == has_entry(m, k) && (has_entry(m, k)
            ==> actions_of(n, k) == actions_of(m, k))) by {
            if has_entry(m, k) {
                let q = first_index(m, k);
                assert(is_first_index(m, k, q));
                assert(is_first_index(n, k, q));
                lemma_first_index_unique(n, k, q);
            }
            if has_entry(n, k) {
                let q = first_index(n, k);
                assert(is_first_index(n, k, q));
                assert(q < m.len() && m[q] == n[q]);
                assert forall|j: int| 0 <= j < q implies (#[trigger] m[j]).button != k by {
                    assert(n[j].button != k);
                    if j == p {
                        assert(m[j].button == e.button);
                    } else {
                        assert(m[j] == n[j]);
                    }
                }
                assert(is_first_index(m, k, q));
            }
        }
    } else {
        let p = m.len() as int;
        assert(is_first_index(n, e.button, p)) by {
            assert forall|j: int| 0 <= j < p implies (#[trigger] n[j]).button != e.button by {
                if n[j].button == e.button {
                    lemma_some_first(m, e.button, j);
                }
            }
        }
        lemma_first_index_unique(n, e.button, p);
        assert forall|k: Id| k != e.button implies (has_entry(n, k) == has_entry(m, k) && (has_entry(m, k)
            ==> actions_of(n, k) == actions_of(m, k))) by {
            if has_entry(m, k) {
                let q = first_index(m, k);
                assert(is_first_index(m, k, q));
                assert(is_first_index(n, k, q));
                lemma_first_index_unique(n, k, q);
            }
            if has_entry(n, k) {
                let q = first_index(n, k);
                assert(is_first_index(n, k, q));
                assert(q < m.len() && m[q] == n[q]);
                assert forall|j: int| 0 <= j < q implies (#[trigger] m[j]).button != k by {
                    assert(n[j].button != k);
                    if j == p {
                        assert(m[j].button == e.button);
                    } else {
                        assert(m[j] == n[j]);
                    }
                }
                assert(is_first_index(m, k, q));
            }
        }
    }
    assert(entries_map(n) =~= entries_map(m).insert(e.button, e.actions));
}

/// A button that has an entry somewhere has a first one.
proof fn lemma_some_first(m: Seq<ActionEntryModel>, k: Id, j: int)
    requires
        0 <= j < m.len(),
        m[j].button == k,
    ensures
        has_entry(m, k),
    decreases j,
{
    if exists|v: int| 0 <= v < j && m[v].button == k {
        let v = choose|v: int| 0 <= v < j && m[v].button == k;
        lemma_some_first(m, k, v);
    } else {
        assert(is_first_index(m, k, j));
    }
}

/// Applying an update of the bindings is extending a map by another: the
/// update's actions win for the buttons it names, the other bindings stay,
/// and no button gets two entries.
pub proof fn lemma_merge_extends_map(m: Seq<ActionEntryModel>, upd: Seq<ActionEntryModel>)
    requires
        unique_keys(upd),
    ensures
        entries_map(merged(m, upd)) == entries_map(m).union_prefer_right(entries_map(upd)),
        unique_keys(m) ==> unique_keys(merged(m, upd)),
    decreases upd.len(),
{
    if upd.len() == 0 {
        assert(entries_map(upd) =~= Map::<Id, Seq<ButtonActionModel>>::empty()) by {
            assert forall|k: Id| !has_entry(upd, k) by {
            }
        }
        assert(entries_map(m).union_prefer_right(entries_map(upd)) =~= entries_map(m));
    } else {
        let init = upd.drop_last();
        let e = upd.last();
        assert(unique_keys(init));
        lemma_merge_extends_map(m, init);
        lemma_insert_entry_map(merged(m, init), e);
        // The update's own map gains its last entry, whose button is new.
        assert(!has_entry(init, e.button)) by {
            if has_entry(init, e.button) {
                let q = first_index(init, e.button);
                assert(is_first_index(init, e.button, q));
                assert(upd[q].button == upd[upd.len() - 1].button);
            }
        }
        assert(init.push(e) =~= upd);
        lemma_insert_entry_map(init, e);
        assert(insert_entry(init, e) == upd);
        assert(entries_map(m).union_prefer_right(entries_map(upd)) =~= entries_map(m).union_prefer_right(
            entries_map(init),
        ).insert(e.button, e.actions));
    }
}

/// Whether no two entries bind the same button.
pub fn has_unique_keys(m: &Vec<ActionEntry>) -> (r: bool)
    ensures
        r == unique_keys(entries_view(m@)),
{
    let ghost v = entries_view(m@);
    let mut i: usize = 0;
    while i < m.len()
        invariant
            i <= m@.len(),
            v == entries_view(m@),
            forall|a: int, b: int| 0 <= a < i && 0 <= b < m@.len() && v[a].button == v[b].button ==> a == b,
        decreases m@.len() - i,
    {
        let mut j: usize = 0;
        while j < m.len()
            invariant
                i < m@.len(),
                j <= m@.len(),
                v == entries_view(m@),
                forall|a: int, b: int| 0 <= a < i && 0 <= b < m@.len() && v[a].button == v[b].button ==> a == b,
                forall|b: int| 0 <= b < j && v[i as int].button == v[b].button ==> i == b,
            decreases m@.len() - j,
        {
            if j != i && m[i].button == m[j].button {
                assert(v[i as int].button == v[j as int].button);
                return false;
            }
            j = j + 1;
        }
        i = i + 1;
    }
    true
}

impl Clone for Device {
    fn clone(&self) -> (r: Self)
        ensures
            r@ == self@,
    {
        Device {
            id: self.id,
            name: self.name.clone(),
            mouse_config: self.mouse_config,
            buttons: copy_buttons(&self.buttons),
            actions_map: copy_entries(&self.actions_map),
        }
    }
}

impl Device {
    /// No button has two binding entries.
    pub open spec fn wf(&self) -> bool {
        unique_keys(self@.actions_map)
    }

    pub fn new(
        id: Id,
        name: Vec<u8>,
        mouse_config: Option<MouseConfig>,
        buttons: Vec<Button>,
        actions_map: Vec<ActionEntry>,
    ) -> (r: Device)
        ensures
            r@ == (DeviceModel {
                id,
                name: name@,
                mouse_config,
                buttons: buttons_view(buttons@),
                actions_map: entries_view(actions_map@),
            }),
    {
        Device { id, name, mouse_config, buttons, actions_map }
    }

    /// The device with an update of its bindings applied.
    pub fn with_merged_actions(&self, upd: &Vec<ActionEntry>) -> (r: Device)
        ensures
            r@ == (DeviceModel { actions_map: merged(self@.actions_map, entries_view(upd@)), ..self@ }),
            self.wf() && unique_keys(entries_view(upd@)) ==> r.wf(),
    {
        proof {
            if unique_keys(entries_view(upd@)) {
                lemma_merge_extends_map(self@.actions_map, entries_view(upd@));
            }
        }
        let mut actions_map = copy_entries(&self.actions_map);
        merge_actions(&mut actions_map, upd);
        Device {
            id: self.id,
            name: self.name.clone(),
            mouse_config: self.mouse_config,
            buttons: copy_buttons(&self.buttons),
            actions_map,
        }
    }

    /// The bytes under which the device is stored.
    pub fn to_bytes(&self) -> (r: Vec<u8>)
        ensures
            r@ == Device::enc(self@),
    {
        let mut out: Vec<u8> = Vec::new();
        self.put(&mut out);
        assert(out@ =~= Device::enc(self@));
        out
    }

    /// Reads a stored device; `None` unless the bytes are exactly those of
    /// one device that binds no button twice.
    pub fn from_bytes(b: &[u8]) -> (r: Option<Device>)
        ensures
            match r {
                Some(d) => Device::parse(b@) == Some((d@, b@.len())) && d.wf(),
                None => !(Device::parse(b@) matches Some((m, n)) && n == b@.len() && unique_keys(
                    m.actions_map,
                )),
            },
    {
        assert(b@.skip(0) =~= b@);
        match Device::take(b, 0) {
            Some((d, end)) => if end == b.len() && has_unique_keys(&d.actions_map) {
                Some(d)
            } else {
                None
            },
            None => None,
        }
    }
}

/// What a command of the host leads to. Each ends in a restart of the
/// device.
#[derive(Debug)]
pub enum CommandEffect {
    /// Store this device, then restart.
    PersistAndRestart(Device),
    Restart,
    /// Erase the stored network credentials, then restart.
    ClearCredentialsAndRestart,
}

/// The effect of a command on a device.
pub open spec fn command_effect_ok(device: DeviceModel, cmd: ServerMessageModel, r: CommandEffect) -> bool {
    match cmd {
        ServerMessageModel::UpdateDevice(_, upd) => r matches CommandEffect::PersistAndRestart(d) && d@ == (
        DeviceModel { actions_map: merged(device.actions_map, upd), ..device }),
        ServerMessageModel::RestartDevice(_) => r is Restart,
        ServerMessageModel::ClearCredentials(_) => r is ClearCredentialsAndRestart,
    }
}

/// Decides what a command does to the device.
pub fn handle_command(device: &Device, cmd: &ServerMessage) -> (r: CommandEffect)
    ensures
        command_effect_ok(device@, cmd@, r),
{
    match cmd {
        ServerMessage::UpdateDevice(_, upd) => {
            proof {
                lemma_entries_model(upd@);
            }
            CommandEffect::PersistAndRestart(device.with_merged_actions(upd))
        },
        ServerMessage::RestartDevice(_) => CommandEffect::Restart,
        ServerMessage::ClearCredentials(_) => CommandEffect::ClearCredentialsAndRestart,
    }
}

/// Decides what a frame from the host does: nothing for a frame that is
/// not a command, which is dropped.
pub fn message_handler(device: &Device, frame: &[u8]) -> (r: Option<CommandEffect>)
    ensures
        match server_message_from(frame@) {
            Some(cmd) => r matches Some(e) && command_effect_ok(device@, cmd, e),
            None => r is None,
        },
{
    match decode_server_message(frame) {
        Some(cmd) => Some(handle_command(device, &cmd)),
        None => None,
    }
}

/// The actions bound to each button of the device, in button order; the
/// first button without bound actions is an error.
pub fn button_bindings(device: &Device) -> (r: Result<Vec<ActionEntry>, Id>)
    ensures
        match r {
            Ok(v) => v@.len() == device@.buttons.len() && forall|i: int|
                0 <= i < v@.len() ==> has_entry(device@.actions_map, device@.buttons[i].id) && (
                #[trigger] v@[i])@ == (ActionEntryModel {
                    button: device@.buttons[i].id,
                    actions: actions_of(device@.actions_map, device@.buttons[i].id),
                }),
            Err(k) => exists|i: int|
                0 <= i < device@.buttons.len() && (#[trigger] device@.buttons[i]).id == k && !has_entry(
                    device@.actions_map,
                    k,
                ) && forall|j: int| 0 <= j < i ==> has_entry(device@.actions_map, (#[trigger] device@.buttons[j]).id),
        },
{
    let mut out: Vec<ActionEntry> = Vec::new();
    let mut i: usize = 0;
    while i < device.buttons.len()
        invariant
            i <= device@.buttons.len(),
            out@.len() == i,
            forall|j: int| 0 <= j < i ==> has_entry(device@.actions_map, (#[trigger] device@.buttons[j]).id),
            forall|j: int|
                0 <= j < i ==> has_entry(device@.actions_map, device@.buttons[j].id) && (
                #[trigger] out@[j])@ == (ActionEntryModel {
                    button: device@.buttons[j].id,
                    actions: actions_of(device@.actions_map, device@.buttons[j].id),
                }),
        decreases device@.buttons.len() - i,
    {
        let k = device.buttons[i].id;
        match find_entry(&device.actions_map, k) {
            Some(p) => {
                let e = ActionEntry { button: k, actions: copy_actions(&device.actions_map[p].actions) };
                assert(e@.actions == actions_of(device@.actions_map, k));
                let ghost before = out@;
                out.push(e);
                assert(out@[i as int] == e);
                assert(forall|j: int| 0 <= j < i ==> out@[j] == before[j]);
            },
            None => {
                assert(device@.buttons[i as int].id == k);
                assert(!has_entry(device@.actions_map, k));
                return Err(k);
            },
        }
        i = i + 1;
    }
    Ok(out)
}

/// The text of the key sequence that the default layout binds.
pub open spec fn select_all_sequence() -> Seq<u8> {
    seq![123u8, 43u8, 67u8, 84u8, 82u8, 76u8, 125u8, 97u8, 123u8, 45u8, 67u8, 84u8, 82u8, 76u8, 125u8]
}

/// The layout of a new device: a `Hold` button bound to the left mouse
/// button, and a `Click` button bound to a left click, `{+CTRL}a{-CTRL}`
/// and a right click.
pub open spec fn default_device_model(device_id: Id, hold_id: Id, click_id: Id) -> DeviceModel {
    DeviceModel {
        id: device_id,
        name: seq![100u8, 101u8, 118u8, 105u8, 99u8, 101u8, 95u8, 49u8],
        mouse_config: Some(MouseConfig { x_sen: 1i8, y_sen: -1i8 }),
        buttons: seq![
            ButtonModel { id: hold_id, name: seq![98u8, 117u8, 116u8, 116u8, 111u8, 110u8, 95u8, 48u8], mode: ButtonMode::Hold },
            ButtonModel { id: click_id, name: seq![98u8, 117u8, 116u8, 116u8, 111u8, 110u8, 95u8, 49u8], mode: ButtonMode::Click },
        ],
        actions_map: seq![
            ActionEntryModel {
                button: hold_id,
                actions: seq![ButtonActionModel::MouseButton(MouseButton::Left, MouseButtonState::Up)],
            },
            ActionEntryModel {
                button: click_id,
                actions: seq![
                    ButtonActionModel::MouseButton(MouseButton::Left, MouseButtonState::Down),
                    ButtonActionModel::MouseButton(MouseButton::Left, MouseButtonState::Up),
                    ButtonActionModel::KeyboardButton(KeyboardButtonModel::SequenceDsl(select_all_sequence())),
                    ButtonActionModel::MouseButton(MouseButton::Right, MouseButtonState::Down),
                    ButtonActionModel::MouseButton(MouseButton::Right, MouseButtonState::Up),
                ],
            },
        ],
    }
}

/// The layout of a new device with the given identifiers.
pub fn default_device(device_id: Id, hold_id: Id, click_id: Id) -> (r: Device)
    ensures
        r@ == default_device_model(device_id, hold_id, click_id),
        hold_id != click_id ==> r.wf(),
{
    let name: Vec<u8> = vec![100u8, 101u8, 118u8, 105u8, 99u8, 101u8, 95u8, 49u8];
    let hold_name: Vec<u8> = vec![98u8, 117u8, 116u8, 116u8, 111u8, 110u8, 95u8, 48u8];
    let click_name: Vec<u8> = vec![98u8, 117u8, 116u8, 116u8, 111u8, 110u8, 95u8, 49u8];
    let sequence: Vec<u8> = vec![123u8, 43u8, 67u8, 84u8, 82u8, 76u8, 125u8, 97u8, 123u8, 45u8, 67u8, 84u8, 82u8, 76u8, 125u8];
    let hold_actions: Vec<ButtonAction> = vec![ButtonAction::MouseButton(MouseButton::Left, MouseButtonState::Up)];
    let click_actions: Vec<ButtonAction> = vec![
        ButtonAction::MouseButton(MouseButton::Left, MouseButtonState::Down),
        ButtonAction::MouseButton(MouseButton::Left, MouseButtonState::Up),
        ButtonAction::KeyboardButton(KeyboardButton::SequenceDsl(sequence)),
        ButtonAction::MouseButton(MouseButton::Right, MouseButtonState::Down),
        ButtonAction::MouseButton(MouseButton::Right, MouseButtonState::Up),
    ];
    let buttons: Vec<Button> = vec![
        Button::new(hold_id, hold_name, ButtonMode::Hold),
        Button::new(click_id, click_name, ButtonMode::Click),
    ];
    let actions_map: Vec<ActionEntry> = vec![
        ActionEntry { button: hold_id, actions: hold_actions },
        ActionEntry { button: click_id, actions: click_actions },
    ];
    let d = Device::new(device_id, name, Some(MouseConfig::new(1, -1)), buttons, actions_map);
    assert(d@.name =~= default_device_model(device_id, hold_id, click_id).name);
    assert(d@.buttons[0].name =~= default_device_model(device_id, hold_id, click_id).buttons[0].name);
    assert(d@.buttons[1].name =~= default_device_model(device_id, hold_id, click_id).buttons[1].name);
    assert(d@.buttons =~= default_device_model(device_id, hold_id, click_id).buttons);
    assert(d@.actions_map[0].actions =~= default_device_model(device_id, hold_id, click_id).actions_map[0].actions);
    assert(d@.actions_map[1].actions =~= default_device_model(device_id, hold_id, click_id).actions_map[1].actions);
    assert(d@.actions_map =~= default_device_model(device_id, hold_id, click_id).actions_map);
    d
}

/// The layout of a new gamepad: two `Hold` buttons bound to gamepad
/// buttons 1 and 2, without pointer sensitivity.
pub open spec fn default_gamepad_model(device_id: Id, first_id: Id, second_id: Id) -> DeviceModel {
    DeviceModel {
        id: device_id,
        name: seq![106u8, 111u8, 121u8, 115u8, 116u8, 105u8, 99u8, 107u8, 95u8, 49u8],
        mouse_config: None,
        buttons: seq![
            ButtonModel { id: first_id, name: seq![98u8, 117u8, 116u8, 116u8, 111u8, 110u8, 95u8, 48u8], mode: ButtonMode::Hold },
            ButtonModel { id: second_id, name: seq![98u8, 117u8, 116u8, 116u8, 111u8, 110u8, 95u8, 49u8], mode: ButtonMode::Hold },
        ],
        actions_map: seq![
            ActionEntryModel {
                button: first_id,
                actions: seq![ButtonActionModel::GamepadButton(1u8, GamepadButtonState::Released)],
            },
            ActionEntryModel {
                button: second_id,
                actions: seq![ButtonActionModel::GamepadButton(2u8, GamepadButtonState::Released)],
            },
        ],
    }
}

/// The layout of a new gamepad with the given identifiers.
pub fn default_gamepad(device_id: Id, first_id: Id, second_id: Id) -> (r: Device)
    ensures
        r@ == default_gamepad_model(device_id, first_id, second_id),
        first_id != second_id ==> r.wf(),
{
    let name: Vec<u8> = vec![106u8, 111u8, 121u8, 115u8, 116u8, 105u8, 99u8, 107u8, 95u8, 49u8];
    let first_name: Vec<u8> = vec![98u8, 117u8, 116u8, 116u8, 111u8, 110u8, 95u8, 48u8];
    let second_name: Vec<u8> = vec![98u8, 117u8, 116u8, 116u8, 111u8, 110u8, 95u8, 49u8];
    let buttons: Vec<Button> = vec![
        Button::new(first_id, first_name, ButtonMode::Hold),
        Button::new(second_id, second_name, ButtonMode::Hold),
    ];
    let actions_map: Vec<ActionEntry> = vec![
        ActionEntry { button: first_id, actions: vec![ButtonAction::GamepadButton(1, GamepadButtonState::Released)] },
        ActionEntry { button: second_id, actions: vec![ButtonAction::GamepadButton(2, GamepadButtonState::Released)] },
    ];
    let d = Device::new(device_id, name, None, buttons, actions_map);
    let ghost g = default_gamepad_model(device_id, first_id, second_id);
    assert(d@.name =~= g.name);
    assert(d@.buttons[0].name =~= g.buttons[0].name);
    assert(d@.buttons[1].name =~= g.buttons[1].name);
    assert(d@.buttons =~= g.buttons);
    assert(d@.actions_map[0].actions =~= g.actions_map[0].actions);
    assert(d@.actions_map[1].actions =~= g.actions_map[1].actions);
    assert(d@.actions_map =~= g.actions_map);
    d
}

/// A new gamepad in the default layout, with fresh random identifiers.
pub fn new_default_gamepad() -> (r: Device)
    ensures
        exists|a: Id, b: Id, c: Id| r@ == default_gamepad_model(a, b, c),
        is_random_v4(r@.id),
        is_random_v4(r@.buttons[0].id),
        is_random_v4(r@.buttons[1].id),
        r@.buttons[0].id != r@.buttons[1].id,
        r.wf(),
{
    let device_id = random_id();
    let first_id = random_id();
    let second_id = distinct_id(random_id(), first_id);
    default_gamepad(device_id, first_id, second_id)
}

/// A new device in the default layout, with fresh random identifiers.
pub fn new_default_device() -> (r: Device)
    ensures
        exists|a: Id, b: Id, c: Id| r@ == default_device_model(a, b, c),
        is_random_v4(r@.id),
        is_random_v4(r@.buttons[0].id),
        is_random_v4(r@.buttons[1].id),
        r@.buttons[0].id != r@.buttons[1].id,
        r.wf(),
{
    let device_id = random_id();
    let hold_id = random_id();
    let click_id = distinct_id(random_id(), hold_id);
    default_device(device_id, hold_id, click_id)
}

} // verus!
