//! The connection to the host: discovery, then the protocol upgrade, then
//! the live session.
use vstd::prelude::*;

use crate::discovery::ServerAddress;
use crate::ids::{hyphenated, id_text};
use crate::model::{Device, Id};
use crate::protocol::{encode_client_message, handshake_message, ClientMessage, ClientMessageModel};
use crate::wire::Wire;

verus! {

/// The decimal digits of `n`.
pub open spec fn decimal(n: nat) -> Seq<u8>
    decreases n,
{
    if n < 10 {
        seq![(48 + n) as u8]
    } else {
        decimal(n / 10).push((48 + n % 10) as u8)
    }
}

/// Appends the decimal digits of `n`.
pub fn push_decimal(out: &mut Vec<u8>, n: u32)
    ensures
        final(out)@ == old(out)@ + decimal(n as nat),
    decreases n,
{
    if n >= 10 {
        push_decimal(out, n / 10);
    }
    out.push((48 + n % 10) as u8);
    assert(final(out)@ =~= old(out)@ + decimal(n as nat));
}

/// The text of an address: dotted decimal octets, a colon, the port.
pub open spec fn address_text(a: ServerAddress) -> Seq<u8> {
    decimal(a.ip[0] as nat) + seq![46u8] + decimal(a.ip[1] as nat) + seq![46u8] + decimal(a.ip[2] as nat)
        + seq![46u8] + decimal(a.ip[3] as nat) + seq![58u8] + decimal(a.port as nat)
}

/// The URL that the protocol upgrade requests:
/// `ws://<address>/<path>/<device id>`.
pub open spec fn upgrade_url_of(a: ServerAddress, path: Seq<u8>, id: Id) -> Seq<u8> {
    seq![119u8, 115u8, 58u8, 47u8, 47u8] + address_text(a) + seq![47u8] + path + seq![47u8] + hyphenated(id.0)
}

/// Builds the URL of the protocol upgrade for a device.
pub fn upgrade_url(a: ServerAddress, path: &Vec<u8>, id: Id) -> (r: Vec<u8>)
    ensures
        r@ == upgrade_url_of(a, path@, id),
{
    let mut out: Vec<u8> = vec![119u8, 115u8, 58u8, 47u8, 47u8];
    let ghost start = out@;
    push_decimal(&mut out, a.ip[0] as u32);
    out.push(46u8);
    push_decimal(&mut out, a.ip[1] as u32);
    out.push(46u8);
    push_decimal(&mut out, a.ip[2] as u32);
    out.push(46u8);
    push_decimal(&mut out, a.ip[3] as u32);
    out.push(58u8);
    push_decimal(&mut out, a.port as u32);
    assert(out@ =~= start + address_text(a));
    out.push(47u8);
    let mut i: usize = 0;
    let ghost before_path = out@;
    while i < path.len()
        invariant
            i <= path@.len(),
            out@ == before_path + path@.subrange(0, i as int),
        decreases path@.len() - i,
    {
        out.push(path[i]);
        assert(out@ =~= before_path + path@.subrange(0, i + 1));
        i = i + 1;
    }
    assert(path@.subrange(0, path@.len() as int) =~= path@);
    out.push(47u8);
    let text = id_text(id);
    let ghost before_id = out@;
    let mut j: usize = 0;
    while j < text.len()
        invariant
            j <= text@.len(),
            out@ == before_id + text@.subrange(0, j as int),
        decreases text@.len() - j,
    {
        out.push(text[j]);
        assert(out@ =~= before_id + text@.subrange(0, j + 1));
        j = j + 1;
    }
    assert(text@.subrange(0, text@.len() as int) =~= text@);
    assert(out@ =~= upgrade_url_of(a, path@, id));
    out
}

/// The phases of the connection.
#[derive(Clone, Copy, Debug, PartialEq, Eq)]
pub enum WebsocketStates {
    /// Waiting for discovery to name the host.
    Discovery,
    /// Opening the connection to the host and upgrading it.
    Init(ServerAddress),
    /// The session is live.
    Connected,
}

/// What happened since the last step.
#[derive(Clone, Copy, Debug, PartialEq, Eq)]
pub enum ConnectionEvent {
    /// Discovery has no answer yet.
    NothingDiscovered,
    /// Discovery named the host.
    Discovered(ServerAddress),
    /// The connection to the host is open and upgraded.
    Upgraded,
}

/// What the driver of the connection does next.
#[derive(Clone, Copy, Debug, PartialEq, Eq)]
pub enum ConnectionAction {
    /// Poll discovery again after a short pause.
    PollDiscovery,
    /// Connect to this address and perform the upgrade.
    Connect(ServerAddress),
    /// Send the device description, start the reader and the writer, then
    /// open the readiness gate.
    StartSession,
    /// Nothing to do: the session runs on its own.
    Idle,
}

/// One step of the connection: the next phase and the action to take.
pub open spec fn connection_step(s: WebsocketStates, e: ConnectionEvent) -> (WebsocketStates, ConnectionAction) {
    match (s, e) {
        (WebsocketStates::Discovery, ConnectionEvent::Discovered(a)) => (WebsocketStates::Init(a), ConnectionAction::Connect(a)),
        (WebsocketStates::Discovery, _) => (s, ConnectionAction::PollDiscovery),
        (WebsocketStates::Init(_), ConnectionEvent::Upgraded) => (WebsocketStates::Connected, ConnectionAction::StartSession),
        (WebsocketStates::Init(a), _) => (s, ConnectionAction::Connect(a)),
        (WebsocketStates::Connected, _) => (s, ConnectionAction::Idle),
    }
}

/// The connection's current phase.
#[derive(Debug)]
pub struct WebsocketState {
    pub current_state: WebsocketStates,
}

impl WebsocketState {
    pub fn new(init_state: WebsocketStates) -> (r: WebsocketState)
        ensures
            r.current_state == init_state,
    {
        WebsocketState { current_state: init_state }
    }

    /// A connection that starts with discovery.
    pub fn discovering() -> (r: WebsocketState)
        ensures
            r.current_state == WebsocketStates::Discovery,
    {
        WebsocketState::new(WebsocketStates::Discovery)
    }

    pub fn to_init(&mut self, address: ServerAddress)
        ensures
            final(self).current_state == WebsocketStates::Init(address),
    {
        self.current_state = WebsocketStates::Init(address);
    }

    pub fn to_connected(&mut self)
        ensures
            final(self).current_state == WebsocketStates::Connected,
    {
        self.current_state = WebsocketStates::Connected;
    }

    /// Moves on after an event and says what to do next.
    pub fn step(&mut self, e: ConnectionEvent) -> (r: ConnectionAction)
        ensures
            (final(self).current_state, r) == connection_step(old(self).current_state, e),
    {
        match (self.current_state, e) {
            (WebsocketStates::Discovery, ConnectionEvent::Discovered(a)) => {
                self.to_init(a);
                ConnectionAction::Connect(a)
            },
            (WebsocketStates::Discovery, _) => ConnectionAction::PollDiscovery,
            (WebsocketStates::Init(_), ConnectionEvent::Upgraded) => {
                self.to_connected();
                ConnectionAction::StartSession
            },
            (WebsocketStates::Init(a), _) => ConnectionAction::Connect(a),
            (WebsocketStates::Connected, _) => ConnectionAction::Idle,
        }
    }
}

/// One step of opening a session, in the order they are taken.
#[derive(Debug, PartialEq, Eq)]
pub enum SessionStep {
    /// Send this frame, the device description, before anything else.
    SendHandshake(Vec<u8>),
    /// Start the task that reads commands.
    StartReader,
    /// Start the task that sends queued messages.
    StartWriter,
    /// Open the readiness latch, once, so that the samplers start.
    OpenGate,
}

/// The steps that open a session: the handshake is sent first, then the
/// reader and the writer start, and only then is the latch opened.
pub fn session_start(device: &Device) -> (r: Vec<SessionStep>)
    ensures
        r@.len() == 4,
        r@[0] matches SessionStep::SendHandshake(f) && f@ == ClientMessage::enc(ClientMessageModel::Device(device@)),
        r@[1] == SessionStep::StartReader,
        r@[2] == SessionStep::StartWriter,
        r@[3] == SessionStep::OpenGate,
{
    let frame = encode_client_message(&handshake_message(device.clone()));
    vec![SessionStep::SendHandshake(frame), SessionStep::StartReader, SessionStep::StartWriter, SessionStep::OpenGate]
}

} // verus!
