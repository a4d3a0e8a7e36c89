//! The messages exchanged with the host and their framing: a message is
//! one binary frame holding exactly its bytes.
use vstd::prelude::*;

use crate::codec::{lemma_actions_model, lemma_bytes_model};
use crate::model::{
    actions_view, ActionEntry, ActionEntryModel, AxisReport, ButtonAction, ButtonActionModel,
    Device, DeviceModel, Id, MouseMotion,
};
use crate::wire::{
    enc_tag, lemma_skip_prefix, lemma_skip_skip, lemma_tag_canonical, lemma_tag_round_trip, models,
    parse_tag, put_tag,
    take_tag, Wire,
};

verus! {

/// One batch of input: an optional pointer motion and optional button
/// actions.
#[derive(Debug)]
pub struct Reads {
    pub mouse_read: Option<MouseMotion>,
    pub button_actions: Option<Vec<ButtonAction>>,
}

pub struct ReadsModel {
    pub mouse_read: Option<MouseMotion>,
    pub button_actions: Option<Seq<ButtonActionModel>>,
}

impl View for Reads {
    type V = ReadsModel;

    open spec fn view(&self) -> ReadsModel {
        ReadsModel { mouse_read: self.mouse_read, button_actions: self.button_actions.model() }
    }
}

impl Reads {
    pub fn new(mouse_read: Option<MouseMotion>, button_actions: Option<Vec<ButtonAction>>) -> (r: Reads)
        ensures
            r.mouse_read == mouse_read,
            r.button_actions == button_actions,
    {
        Reads { mouse_read, button_actions }
    }
}

/// A message from the device to the host.
#[derive(Debug)]
pub enum ClientMessage {
    /// The device description, sent once when a connection opens.
    Device(Device),
    Reads(Vec<Reads>),
    AxisRead(AxisReport),
}

pub enum ClientMessageModel {
    Device(DeviceModel),
    Reads(Seq<ReadsModel>),
    AxisRead(AxisReport),
}

impl View for ClientMessage {
    type V = ClientMessageModel;

    open spec fn view(&self) -> ClientMessageModel {
        match self {
            ClientMessage::Device(d) => ClientMessageModel::Device(d.model()),
            ClientMessage::Reads(r) => ClientMessageModel::Reads(r.model()),
            ClientMessage::AxisRead(a) => ClientMessageModel::AxisRead(*a),
        }
    }
}

/// A command from the host to the device.
#[derive(Debug)]
pub enum ServerMessage {
    /// New action bindings for some buttons of the device.
    UpdateDevice(Id, Vec<ActionEntry>),
    RestartDevice(Id),
    ClearCredentials(Id),
}

pub enum ServerMessageModel {
    UpdateDevice(Id, Seq<ActionEntryModel>),
    RestartDevice(Id),
    ClearCredentials(Id),
}

impl View for ServerMessage {
    type V = ServerMessageModel;

    open spec fn view(&self) -> ServerMessageModel {
        match self {
            ServerMessage::UpdateDevice(id, m) => ServerMessageModel::UpdateDevice(*id, m.model()),
            ServerMessage::RestartDevice(id) => ServerMessageModel::RestartDevice(*id),
            ServerMessage::ClearCredentials(id) => ServerMessageModel::ClearCredentials(*id),
        }
    }
}

pub proof fn lemma_motion_model(m: Option<MouseMotion>)
    ensures
        m.model() == m,
{
}

impl Wire for Reads {
    type M = ReadsModel;

    open spec fn model(&self) -> ReadsModel {
        self@
    }

    open spec fn fits(m: ReadsModel) -> bool {
        <Option<MouseMotion> as Wire>::fits(m.mouse_read)
            && <Option<Vec<ButtonAction>> as Wire>::fits(m.button_actions)
    }

    open spec fn enc(m: ReadsModel) -> Seq<u8> {
        <Option<MouseMotion> as Wire>::enc(m.mouse_read)
            + <Option<Vec<ButtonAction>> as Wire>::enc(m.button_actions)
    }

    open spec fn parse(s: Seq<u8>) -> Option<(ReadsModel, nat)> {
        match <Option<MouseMotion> as Wire>::parse(s) {
            Some((v_mouse_read, n0)) => {
                let s0 = s.skip(n0 as int);
                match <Option<Vec<ButtonAction>> as Wire>::parse(s0) {
                    Some((v_button_actions, n1)) => {
                        Some((ReadsModel { mouse_read: v_mouse_read, button_actions: v_button_actions }, (n0 + n1) as nat))
                    },
                    None => None,
                }
            },
            None => None,
        }
    }

    proof fn lemma_fits(&self) {
        lemma_motion_model(self.mouse_read);
        self.mouse_read.lemma_fits();
        self.button_actions.lemma_fits();
    }

    proof fn lemma_round_trip(m: ReadsModel, rest: Seq<u8>) {
        assert(Self::enc(m) + rest =~= <Option<MouseMotion> as Wire>::enc(m.mouse_read) + (<Option<Vec<ButtonAction>> as Wire>::enc(m.button_actions) + rest));
        <Option<MouseMotion> as Wire>::lemma_round_trip(m.mouse_read, <Option<Vec<ButtonAction>> as Wire>::enc(m.button_actions) + rest);
        lemma_skip_prefix(<Option<MouseMotion> as Wire>::enc(m.mouse_read), <Option<Vec<ButtonAction>> as Wire>::enc(m.button_actions) + rest);
        <Option<Vec<ButtonAction>> as Wire>::lemma_round_trip(m.button_actions, rest);
    }

    proof fn lemma_parse_canonical(s: Seq<u8>) {
        <Option<MouseMotion> as Wire>::lemma_parse_canonical(s);
        if let Some((c0, k0)) = <Option<MouseMotion> as Wire>::parse(s) {
            assert(s.subrange(0, (k0) as int) =~= <Option<MouseMotion> as Wire>::enc(c0));
            <Option<Vec<ButtonAction>> as Wire>::lemma_parse_canonical(s.skip(k0 as int));
            if let Some((c1, k1)) = <Option<Vec<ButtonAction>> as Wire>::parse(s.skip(k0 as int)) {
                assert(s.subrange(0, (k0 + k1) as int) =~= <Option<MouseMotion> as Wire>::enc(c0) + <Option<Vec<ButtonAction>> as Wire>::enc(c1));
            }
        }
    }

    fn put(&self, out: &mut Vec<u8>) {
        proof {
            lemma_motion_model(self.mouse_read);
        }
        self.mouse_read.put(out);
        self.button_actions.put(out);
        assert(out@ =~= old(out)@ + Self::enc(self.model()));
    }

    fn take(buf: &[u8], pos: usize) -> (r: Option<(Reads, usize)>) {
        let (v_mouse_read, p0) = match <Option<MouseMotion> as Wire>::take(buf, pos) {
            Some(x) => x,
            None => {
                return None;
            },
        };
        proof {
            lemma_skip_skip(buf@, pos as int, p0 - pos);
            lemma_motion_model(v_mouse_read);
        }
        let (v_button_actions, p1) = match <Option<Vec<ButtonAction>> as Wire>::take(buf, p0) {
            Some(x) => x,
            None => {
                return None;
            },
        };
        proof {
            lemma_skip_skip(buf@, p0 as int, p1 - p0);
        }
        Some((Reads { mouse_read: v_mouse_read, button_actions: v_button_actions }, p1))
    }
}

impl Wire for ClientMessage {
    type M = ClientMessageModel;

    open spec fn model(&self) -> ClientMessageModel {
        self@
    }

    open spec fn fits(m: ClientMessageModel) -> bool {
        match m {
            ClientMessageModel::Device(a0) => <Device as Wire>::fits(a0),
            ClientMessageModel::Reads(a0) => <Vec<Reads> as Wire>::fits(a0),
            ClientMessageModel::AxisRead(a0) => <AxisReport as Wire>::fits(a0),
        }
    }

    open spec fn enc(m: ClientMessageModel) -> Seq<u8> {
        match m {
            ClientMessageModel::Device(a0) => enc_tag(0) + <Device as Wire>::enc(a0),
            ClientMessageModel::Reads(a0) => enc_tag(1) + <Vec<Reads> as Wire>::enc(a0),
            ClientMessageModel::AxisRead(a0) => enc_tag(2) + <AxisReport as Wire>::enc(a0),
        }
    }

    open spec fn parse(s: Seq<u8>) -> Option<(ClientMessageModel, nat)> {
        match parse_tag(s) {
            Some(t) => {
                let b = s.skip(4);
                if t == 0 {
                    match <Device as Wire>::parse(b) {
                        Some((a0, n0)) => {
                            Some((ClientMessageModel::Device(a0), (4 + n0) as nat))
                        },
                        None => None,
                    }
                } else if t == 1 {
                    match <Vec<Reads> as Wire>::parse(b) {
                        Some((a0, n0)) => {
                            Some((ClientMessageModel::Reads(a0), (4 + n0) as nat))
                        },
                        None => None,
                    }
                } else if t == 2 {
                    match <AxisReport as Wire>::parse(b) {
                        Some((a0, n0)) => {
                            Some((ClientMessageModel::AxisRead(a0), (4 + n0) as nat))
                        },
                        None => None,
                    }
                } else {
                    None
                }
            },
            None => None,
        }
    }

    proof fn lemma_fits(&self) {
        match self {
            ClientMessage::Device(a0) => {
                a0.lemma_fits();
            },
            ClientMessage::Reads(a0) => {
                a0.lemma_fits();
            },
            ClientMessage::AxisRead(a0) => {
                a0.lemma_fits();
            },
        }
    }

    proof fn lemma_round_trip(m: ClientMessageModel, rest: Seq<u8>) {
        match m {
            ClientMessageModel::Device(a0) => {
                lemma_tag_round_trip(0, <Device as Wire>::enc(a0) + rest);
                assert(Self::enc(m) + rest =~= enc_tag(0) + (<Device as Wire>::enc(a0) + rest));
                <Device as Wire>::lemma_round_trip(a0, rest);
            },
            ClientMessageModel::Reads(a0) => {
                lemma_tag_round_trip(1, <Vec<Reads> as Wire>::enc(a0) + rest);
                assert(Self::enc(m) + rest =~= enc_tag(1) + (<Vec<Reads> as Wire>::enc(a0) + rest));
                <Vec<Reads> as Wire>::lemma_round_trip(a0, rest);
            },
            ClientMessageModel::AxisRead(a0) => {
                lemma_tag_round_trip(2, <AxisReport as Wire>::enc(a0) + rest);
                assert(Self::enc(m) + rest =~= enc_tag(2) + (<AxisReport as Wire>::enc(a0) + rest));
                <AxisReport as Wire>::lemma_round_trip(a0, rest);
            },
        }
    }

    proof fn lemma_parse_canonical(s: Seq<u8>) {
        lemma_tag_canonical(s);
        if s.len() >= 4 {
            if parse_tag(s) == Some(0nat) {
                <Device as Wire>::lemma_parse_canonical(s.skip(4));
                if let Some((c0, k0)) = <Device as Wire>::parse(s.skip(4)) {
                    assert(s.subrange(0, (4 + k0) as int) =~= enc_tag(0) + <Device as Wire>::enc(c0));
                }
            }
            if parse_tag(s) == Some(1nat) {
                <Vec<Reads> as Wire>::lemma_parse_canonical(s.skip(4));
                if let Some((c0, k0)) = <Vec<Reads> as Wire>::parse(s.skip(4)) {
                    assert(s.subrange(0, (4 + k0) as int) =~= enc_tag(1) + <Vec<Reads> as Wire>::enc(c0));
                }
            }
            if parse_tag(s) == Some(2nat) {
                <AxisReport as Wire>::lemma_parse_canonical(s.skip(4));
                if let Some((c0, k0)) = <AxisReport as Wire>::parse(s.skip(4)) {
                    assert(s.subrange(0, (4 + k0) as int) =~= enc_tag(2) + <AxisReport as Wire>::enc(c0));
                }
            }
        }
    }

    fn put(&self, out: &mut Vec<u8>) {
        match self {
            ClientMessage::Device(a0) => {
                put_tag(out, 0);
                a0.put(out);
            },
            ClientMessage::Reads(a0) => {
                put_tag(out, 1);
                a0.put(out);
            },
            ClientMessage::AxisRead(a0) => {
                put_tag(out, 2);
                a0.put(out);
            },
        }
        assert(out@ =~= old(out)@ + Self::enc(self.model()));
    }

    fn take(buf: &[u8], pos: usize) -> (r: Option<(ClientMessage, usize)>) {
        let (t, q) = match take_tag(buf, pos) {
            Some(x) => x,
            None => {
                return None;
            },
        };
        proof {
            lemma_skip_skip(buf@, pos as int, 4);
        }
        if t == 0 {
            let (a0, p0) = match <Device as Wire>::take(buf, q) {
                Some(x) => x,
                None => {
                    return None;
                },
            };
            proof {
                lemma_skip_skip(buf@, q as int, p0 - q);
            }
            Some((ClientMessage::Device(a0), p0))
        } else if t == 1 {
            let (a0, p0) = match <Vec<Reads> as Wire>::take(buf, q) {
                Some(x) => x,
                None => {
                    return None;
                },
            };
            proof {
                lemma_skip_skip(buf@, q as int, p0 - q);
            }
            Some((ClientMessage::Reads(a0), p0))
        } else if t == 2 {
            let (a0, p0) = match <AxisReport as Wire>::take(buf, q) {
                Some(x) => x,
                None => {
                    return None;
                },
            };
            proof {
                lemma_skip_skip(buf@, q as int, p0 - q);
            }
            Some((ClientMessage::AxisRead(a0), p0))
        } else {
            None
        }
    }
}

impl Wire for ServerMessage {
    type M = ServerMessageModel;

    open spec fn model(&self) -> ServerMessageModel {
        self@
    }

    open spec fn fits(m: ServerMessageModel) -> bool {
        match m {
            ServerMessageModel::UpdateDevice(a0, a1) => <Id as Wire>::fits(a0) && <Vec<ActionEntry> as Wire>::fits(a1),
            ServerMessageModel::RestartDevice(a0) => <Id as Wire>::fits(a0),
            ServerMessageModel::ClearCredentials(a0) => <Id as Wire>::fits(a0),
        }
    }

    open spec fn enc(m: ServerMessageModel) -> Seq<u8> {
        match m {
            ServerMessageModel::UpdateDevice(a0, a1) => enc_tag(0) + <Id as Wire>::enc(a0) + <Vec<ActionEntry> as Wire>::enc(a1),
            ServerMessageModel::RestartDevice(a0) => enc_tag(1) + <Id as Wire>::enc(a0),
            ServerMessageModel::ClearCredentials(a0) => enc_tag(2) + <Id as Wire>::enc(a0),
        }
    }

    open spec fn parse(s: Seq<u8>) -> Option<(ServerMessageModel, nat)> {
        match parse_tag(s) {
            Some(t) => {
                let b = s.skip(4);
                if t == 0 {
                    match <Id as Wire>::parse(b) {
                        Some((a0, n0)) => {
                            let s0 = b.skip(n0 as int);
                            match <Vec<ActionEntry> as Wire>::parse(s0) {
                                Some((a1, n1)) => {
                                    Some((ServerMessageModel::UpdateDevice(a0, a1), (4 + n0 + n1) as nat))
                                },
                                None => None,
                            }
                        },
                        None => None,
                    }
                } else if t == 1 {
                    match <Id as Wire>::parse(b) {
                        Some((a0, n0)) => {
                            Some((ServerMessageModel::RestartDevice(a0), (4 + n0) as nat))
                        },
                        None => None,
                    }
                } else if t == 2 {
                    match <Id as Wire>::parse(b) {
                        Some((a0, n0)) => {
                            Some((ServerMessageModel::ClearCredentials(a0), (4 + n0) as nat))
                        },
                        None => None,
                    }
                } else {
                    None
                }
            },
            None => None,
        }
    }

    proof fn lemma_fits(&self) {
        match self {
            ServerMessage::UpdateDevice(a0, a1) => {
                a0.lemma_fits();
                a1.lemma_fits();
            },
            ServerMessage::RestartDevice(a0) => {
                a0.lemma_fits();
            },
            ServerMessage::ClearCredentials(a0) => {
                a0.lemma_fits();
            },
        }
    }

    proof fn lemma_round_trip(m: ServerMessageModel, rest: Seq<u8>) {
        match m {
            ServerMessageModel::UpdateDevice(a0, a1) => {
                lemma_tag_round_trip(0, <Id as Wire>::enc(a0) + (<Vec<ActionEntry> as Wire>::enc(a1) + rest));
                assert(Self::enc(m) + rest =~= enc_tag(0) + (<Id as Wire>::enc(a0) + (<Vec<ActionEntry> as Wire>::enc(a1) + rest)));
                <Id as Wire>::lemma_round_trip(a0, <Vec<ActionEntry> as Wire>::enc(a1) + rest);
                lemma_skip_prefix(<Id as Wire>::enc(a0), <Vec<ActionEntry> as Wire>::enc(a1) + rest);
                <Vec<ActionEntry> as Wire>::lemma_round_trip(a1, rest);
            },
            ServerMessageModel::RestartDevice(a0) => {
                lemma_tag_round_trip(1, <Id as Wire>::enc(a0) + rest);
                assert(Self::enc(m) + rest =~= enc_tag(1) + (<Id as Wire>::enc(a0) + rest));
                <Id as Wire>::lemma_round_trip(a0, rest);
            },
            ServerMessageModel::ClearCredentials(a0) => {
                lemma_tag_round_trip(2, <Id as Wire>::enc(a0) + rest);
                assert(Self::enc(m) + rest =~= enc_tag(2) + (<Id as Wire>::enc(a0) + rest));
                <Id as Wire>::lemma_round_trip(a0, rest);
            },
        }
    }

    proof fn lemma_parse_canonical(s: Seq<u8>) {
        lemma_tag_canonical(s);
        if s.len() >= 4 {
            if parse_tag(s) == Some(0nat) {
                <Id as Wire>::lemma_parse_canonical(s.skip(4));
                if let Some((c0, k0)) = <Id as Wire>::parse(s.skip(4)) {
                    assert(s.subrange(0, (4 + k0) as int) =~= enc_tag(0) + <Id as Wire>::enc(c0));
                    <Vec<ActionEntry> as Wire>::lemma_parse_canonical(s.skip(4).skip(k0 as int));
                    if let Some((c1, k1)) = <Vec<ActionEntry> as Wire>::parse(s.skip(4).skip(k0 as int)) {
                        assert(s.subrange(0, (4 + k0 + k1) as int) =~= enc_tag(0) + <Id as Wire>::enc(c0) + <Vec<ActionEntry> as Wire>::enc(c1));
                    }
                }
            }
            if parse_tag(s) == Some(1nat) {
                <Id as Wire>::lemma_parse_canonical(s.skip(4));
                if let Some((c0, k0)) = <Id as Wire>::parse(s.skip(4)) {
                    assert(s.subrange(0, (4 + k0) as int) =~= enc_tag(1) + <Id as Wire>::enc(c0));
                }
            }
            if parse_tag(s) == Some(2nat) {
                <Id as Wire>::lemma_parse_canonical(s.skip(4));
                if let Some((c0, k0)) = <Id as Wire>::parse(s.skip(4)) {
                    assert(s.subrange(0, (4 + k0) as int) =~= enc_tag(2) + <Id as Wire>::enc(c0));
                }
            }
        }
    }

    fn put(&self, out: &mut Vec<u8>) {
        match self {
            ServerMessage::UpdateDevice(a0, a1) => {
                put_tag(out, 0);
                a0.put(out);
                a1.put(out);
            },
            ServerMessage::RestartDevice(a0) => {
                put_tag(out, 1);
                a0.put(out);
            },
            ServerMessage::ClearCredentials(a0) => {
                put_tag(out, 2);
                a0.put(out);
            },
        }
        assert(out@ =~= old(out)@ + Self::enc(self.model()));
    }

    fn take(buf: &[u8], pos: usize) -> (r: Option<(ServerMessage, usize)>) {
        let (t, q) = match take_tag(buf, pos) {
            Some(x) => x,
            None => {
                return None;
            },
        };
        proof {
            lemma_skip_skip(buf@, pos as int, 4);
        }
        if t == 0 {
            let (a0, p0) = match <Id as Wire>::take(buf, q) {
                Some(x) => x,
                None => {
                    return None;
                },
            };
            proof {
                lemma_skip_skip(buf@, q as int, p0 - q);
            }
            let (a1, p1) = match <Vec<ActionEntry> as Wire>::take(buf, p0) {
                Some(x) => x,
                None => {
                    return None;
                },
            };
            proof {
                lemma_skip_skip(buf@, p0 as int, p1 - p0);
            }
            Some((ServerMessage::UpdateDevice(a0, a1), p1))
        } else if t == 1 {
            let (a0, p0) = match <Id as Wire>::take(buf, q) {
                Some(x) => x,
                None => {
                    return None;
                },
            };
            proof {
                lemma_skip_skip(buf@, q as int, p0 - q);
            }
            Some((ServerMessage::RestartDevice(a0), p0))
        } else if t == 2 {
            let (a0, p0) = match <Id as Wire>::take(buf, q) {
                Some(x) => x,
                None => {
                    return None;
                },
            };
            proof {
                lemma_skip_skip(buf@, q as int, p0 - q);
            }
            Some((ServerMessage::ClearCredentials(a0), p0))
        } else {
            None
        }
    }
}

/// The message that a frame holds: the frame must be exactly the bytes of
/// one message.
pub open spec fn client_message_from(b: Seq<u8>) -> Option<ClientMessageModel> {
    match ClientMessage::parse(b) {
        Some((m, n)) => if n == b.len() {
            Some(m)
        } else {
            None
        },
        None => None,
    }
}

/// The command that a frame holds: the frame must be exactly the bytes of
/// one command.
pub open spec fn server_message_from(b: Seq<u8>) -> Option<ServerMessageModel> {
    match ServerMessage::parse(b) {
        Some((m, n)) => if n == b.len() {
            Some(m)
        } else {
            None
        },
        None => None,
    }
}

/// The frame of a message to the host.
pub fn encode_client_message(m: &ClientMessage) -> (r: Vec<u8>)
    ensures
        r@ == ClientMessage::enc(m@),
{
    let mut out: Vec<u8> = Vec::new();
    m.put(&mut out);
    assert(out@ =~= ClientMessage::enc(m@));
    out
}

/// The frame of a command to the device.
pub fn encode_server_message(m: &ServerMessage) -> (r: Vec<u8>)
    ensures
        r@ == ServerMessage::enc(m@),
{
    let mut out: Vec<u8> = Vec::new();
    m.put(&mut out);
    assert(out@ =~= ServerMessage::enc(m@));
    out
}

/// Reads a message to the host from a frame; `None` for a frame that is
/// not exactly the bytes of one message.
pub fn decode_client_message(frame: &[u8]) -> (r: Option<ClientMessage>)
    ensures
        match r {
            Some(m) => client_message_from(frame@) == Some(m@),
            None => client_message_from(frame@) is None,
        },
{
    assert(frame@.skip(0) =~= frame@);
    match ClientMessage::take(frame, 0) {
        Some((m, end)) => if end == frame.len() {
            Some(m)
        } else {
            None
        },
        None => None,
    }
}

/// Reads a command from a frame; `None` for a frame that is not exactly
/// the bytes of one command.
pub fn decode_server_message(frame: &[u8]) -> (r: Option<ServerMessage>)
    ensures
        match r {
            Some(m) => server_message_from(frame@) == Some(m@),
            None => server_message_from(frame@) is None,
        },
{
    assert(frame@.skip(0) =~= frame@);
    match ServerMessage::take(frame, 0) {
        Some((m, end)) => if end == frame.len() {
            Some(m)
        } else {
            None
        },
        None => None,
    }
}

/// Every message and every command, encoded then decoded, comes back equal.
pub proof fn lemma_message_round_trip(c: ClientMessage, s: ServerMessage)
    ensures
        client_message_from(ClientMessage::enc(c@)) == Some(c@),
        server_message_from(ServerMessage::enc(s@)) == Some(s@),
{
    c.lemma_fits();
    s.lemma_fits();
    ClientMessage::lemma_round_trip(c@, Seq::empty());
    ServerMessage::lemma_round_trip(s@, Seq::empty());
    assert(ClientMessage::enc(c@) + Seq::<u8>::empty() =~= ClientMessage::enc(c@));
    assert(ServerMessage::enc(s@) + Seq::<u8>::empty() =~= ServerMessage::enc(s@));
}

/// The message for actions a button emitted; none for an empty list.
pub fn button_message(actions: Vec<ButtonAction>) -> (r: Option<ClientMessage>)
    ensures
        actions@.len() == 0 ==> r is None,
        actions@.len() > 0 ==> (r matches Some(m) && m@ == ClientMessageModel::Reads(
            seq![ReadsModel { mouse_read: None, button_actions: Some(actions_view(actions@)) }],
        )),
{
    if actions.len() == 0 {
        None
    } else {
        proof {
            lemma_actions_model(actions@);
        }
        let reads: Vec<Reads> = vec![Reads::new(None, Some(actions))];
        let m = ClientMessage::Reads(reads);
        assert(m@->Reads_0 =~= seq![ReadsModel { mouse_read: None, button_actions: Some(actions_view(actions@)) }]);
        Some(m)
    }
}

/// The message for a pointer motion.
pub fn motion_message(motion: MouseMotion) -> (r: ClientMessage)
    ensures
        r@ == ClientMessageModel::Reads(seq![ReadsModel { mouse_read: Some(motion), button_actions: None }]),
{
    let reads: Vec<Reads> = vec![Reads::new(Some(motion), None)];
    let m = ClientMessage::Reads(reads);
    assert(m@->Reads_0 =~= seq![ReadsModel { mouse_read: Some(motion), button_actions: None }]);
    m
}

/// The message for a gamepad axis value.
pub fn axis_message(report: AxisReport) -> (r: ClientMessage)
    ensures
        r@ == ClientMessageModel::AxisRead(report),
{
    ClientMessage::AxisRead(report)
}

/// The message that opens a session: the device description.
pub fn handshake_message(device: Device) -> (r: ClientMessage)
    ensures
        r@ == ClientMessageModel::Device(device@),
{
    ClientMessage::Device(device)
}

/// A frame decodes to a message, or to a command, only when it is exactly
/// the bytes of that message or command: decoding is the inverse of
/// encoding.
pub proof fn lemma_frame_is_encoding(b: Seq<u8>)
    ensures
        client_message_from(b) matches Some(m) ==> b == ClientMessage::enc(m),
        server_message_from(b) matches Some(m) ==> b == ServerMessage::enc(m),
{
    ClientMessage::lemma_parse_canonical(b);
    ServerMessage::lemma_parse_canonical(b);
    assert(b.subrange(0, b.len() as int) =~= b);
}

} // verus!
