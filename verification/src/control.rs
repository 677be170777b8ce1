//! The client's side of the protocol, as two state machines.
//!
//! The control channel goes from connecting through the handshake to active,
//! where it sends a probe at every tick until a write fails. The data channel
//! connects, announces its domain, waits for the server's cue and relays; when
//! a relay ends, or the cue does not come, it connects again. Each machine is a
//! function from state and event to the next state and the action to perform.

use crate::packet::{Message, Packet};
use vstd::prelude::*;

verus! {

/// The time between two probes on an active control channel, in milliseconds.
pub const HEARTBEAT_INTERVAL_MS: u64 = 500;

/// The byte that a probe consists of.
pub const PROBE: u8 = 1;

/// The pause before a data connection is tried again after the server turned
/// one away, in milliseconds.
pub const RETRY_DELAY_MS: u64 = 200;

/// Where a control channel stands.
#[derive(Debug, Clone, Copy, PartialEq, Eq, Structural)]
pub enum ChannelState {
    /// No connection yet.
    Connecting,
    /// `Init` is sent; the server's answer is awaited.
    AwaitingSuccess,
    /// The handshake is done; probes keep the channel alive.
    Active,
    /// The channel is over.
    Closed,
}

/// What happened on a control connection.
#[derive(Debug)]
pub enum ControlEvent {
    /// The connection to the server stands.
    Connected,
    /// A message arrived.
    Received(Packet),
    /// The connection closed or a read failed.
    Disconnected,
    /// The heartbeat interval elapsed.
    Tick,
    /// A write failed.
    WriteFailed,
}

/// The mathematical value of a [`ControlEvent`].
pub enum ControlEventView {
    Connected,
    Received(Message),
    Disconnected,
    Tick,
    WriteFailed,
}

impl View for ControlEvent {
    type V = ControlEventView;

    open spec fn view(&self) -> ControlEventView {
        match self {
            ControlEvent::Connected => ControlEventView::Connected,
            ControlEvent::Received(packet) => ControlEventView::Received(packet@),
            ControlEvent::Disconnected => ControlEventView::Disconnected,
            ControlEvent::Tick => ControlEventView::Tick,
            ControlEvent::WriteFailed => ControlEventView::WriteFailed,
        }
    }
}

/// What the client does next on its control connection.
#[derive(Debug, PartialEq, Eq)]
pub enum ControlAction {
    /// Send `Init`.
    SendInit,
    /// The tunnel is up under the domain given: send `Ack` and start the heartbeat.
    Establish(String),
    /// Send one probe.
    Probe,
    /// Give up: the handshake failed. No tunnel exists, and none is tried again.
    Fail,
    /// Stop the heartbeat: the server is gone.
    Stop,
    /// Nothing.
    Ignore,
}

/// The mathematical value of a [`ControlAction`].
pub enum ControlActionView {
    SendInit,
    Establish(Seq<char>),
    Probe,
    Fail,
    Stop,
    Ignore,
}

impl View for ControlAction {
    type V = ControlActionView;

    open spec fn view(&self) -> ControlActionView {
        match self {
            ControlAction::SendInit => ControlActionView::SendInit,
            ControlAction::Establish(domain) => ControlActionView::Establish(domain@),
            ControlAction::Probe => ControlActionView::Probe,
            ControlAction::Fail => ControlActionView::Fail,
            ControlAction::Stop => ControlActionView::Stop,
            ControlAction::Ignore => ControlActionView::Ignore,
        }
    }
}

/// The control channel's transition: the state after `event` and the action it calls for.
pub open spec fn control_step(state: ChannelState, event: ControlEventView) -> (
    ChannelState,
    ControlActionView,
) {
    match state {
        ChannelState::Connecting => match event {
            ControlEventView::Connected => (
                ChannelState::AwaitingSuccess,
                ControlActionView::SendInit,
            ),
            _ => (ChannelState::Closed, ControlActionView::Fail),
        },
        ChannelState::AwaitingSuccess => match event {
            ControlEventView::Received(Message::Success(domain)) => (
                ChannelState::Active,
                ControlActionView::Establish(domain),
            ),
            _ => (ChannelState::Closed, ControlActionView::Fail),
        },
        ChannelState::Active => match event {
            ControlEventView::Tick => (ChannelState::Active, ControlActionView::Probe),
            ControlEventView::WriteFailed => (ChannelState::Closed, ControlActionView::Stop),
            ControlEventView::Disconnected => (ChannelState::Closed, ControlActionView::Stop),
            _ => (ChannelState::Active, ControlActionView::Ignore),
        },
        ChannelState::Closed => (ChannelState::Closed, ControlActionView::Ignore),
    }
}

/// Advances a control channel by one event.
pub fn control_next(state: ChannelState, event: ControlEvent) -> (r: (ChannelState, ControlAction))
    ensures
        (r.0, r.1@) == control_step(state, event@),
{
    match state {
        ChannelState::Connecting => match event {
            ControlEvent::Connected => (ChannelState::AwaitingSuccess, ControlAction::SendInit),
            _ => (ChannelState::Closed, ControlAction::Fail),
        },
        ChannelState::AwaitingSuccess => match event {
            ControlEvent::Received(Packet::Success(domain)) => (
                ChannelState::Active,
                ControlAction::Establish(domain),
            ),
            _ => (ChannelState::Closed, ControlAction::Fail),
        },
        ChannelState::Active => match event {
            ControlEvent::Tick => (ChannelState::Active, ControlAction::Probe),
            ControlEvent::WriteFailed => (ChannelState::Closed, ControlAction::Stop),
            ControlEvent::Disconnected => (ChannelState::Closed, ControlAction::Stop),
            _ => (ChannelState::Active, ControlAction::Ignore),
        },
        ChannelState::Closed => (ChannelState::Closed, ControlAction::Ignore),
    }
}

/// Where a data channel stands.
#[derive(Debug, Clone, Copy, PartialEq, Eq, Structural)]
pub enum DataState {
    /// No connection yet, or the last one is over.
    Connecting,
    /// `DataInit` is sent; the server's cue is awaited.
    AwaitingForward,
    /// Bytes flow between the server and the local target.
    Relaying,
}

/// What happened on a data connection.
#[derive(Debug)]
pub enum DataEvent {
    /// The connection to the server stands.
    Connected,
    /// A message arrived.
    Received(Packet),
    /// The connection closed or a read failed before the cue came.
    Disconnected,
    /// The relay ended, on either side.
    RelayEnded,
}

/// The mathematical value of a [`DataEvent`].
pub enum DataEventView {
    Connected,
    Received(Message),
    Disconnected,
    RelayEnded,
}

impl View for DataEvent {
    type V = DataEventView;

    open spec fn view(&self) -> DataEventView {
        match self {
            DataEvent::Connected => DataEventView::Connected,
            DataEvent::Received(packet) => DataEventView::Received(packet@),
            DataEvent::Disconnected => DataEventView::Disconnected,
            DataEvent::RelayEnded => DataEventView::RelayEnded,
        }
    }
}

/// What the client does next on its data connection.
#[derive(Debug, Clone, Copy, PartialEq, Eq, Structural)]
pub enum DataAction {
    /// Send `DataInit` with the tunnel's domain.
    Announce,
    /// Connect to the local target and relay: every byte from here on is payload.
    Relay,
    /// Drop this connection and open a new one.
    Reconnect,
    /// Nothing.
    Ignore,
}

/// The data channel's transition: the state after `event` and the action it calls for.
pub open spec fn data_step(state: DataState, event: DataEventView) -> (DataState, DataAction) {
    match state {
        DataState::Connecting => match event {
            DataEventView::Connected => (DataState::AwaitingForward, DataAction::Announce),
            _ => (DataState::Connecting, DataAction::Reconnect),
        },
        DataState::AwaitingForward => match event {
            DataEventView::Received(Message::DataForward) => (
                DataState::Relaying,
                DataAction::Relay,
            ),
            _ => (DataState::Connecting, DataAction::Reconnect),
        },
        DataState::Relaying => match event {
            DataEventView::RelayEnded => (DataState::Connecting, DataAction::Reconnect),
            DataEventView::Disconnected => (DataState::Connecting, DataAction::Reconnect),
            _ => (DataState::Relaying, DataAction::Ignore),
        },
    }
}

/// Advances a data channel by one event.
pub fn data_next(state: DataState, event: &DataEvent) -> (r: (DataState, DataAction))
    ensures
        r == data_step(state, event@),
{
    match state {
        DataState::Connecting => match event {
            DataEvent::Connected => (DataState::AwaitingForward, DataAction::Announce),
            _ => (DataState::Connecting, DataAction::Reconnect),
        },
        DataState::AwaitingForward => match event {
            DataEvent::Received(Packet::DataForward) => (DataState::Relaying, DataAction::Relay),
            _ => (DataState::Connecting, DataAction::Reconnect),
        },
        DataState::Relaying => match event {
            DataEvent::RelayEnded => (DataState::Connecting, DataAction::Reconnect),
            DataEvent::Disconnected => (DataState::Connecting, DataAction::Reconnect),
            _ => (DataState::Relaying, DataAction::Ignore),
        },
    }
}

/// The message that announces a data connection for `domain`.
pub fn announcement(domain: &str) -> (packet: Packet)
    ensures
        packet@ == Message::DataInit(domain@),
{
    Packet::DataInit(domain.to_owned())
}

/// The handshake is strictly sequenced: a control channel becomes active from
/// one state only, the one in which `Init` is sent, and by one event only, the
/// server's `Success`. Once closed it stays closed and does nothing.
pub proof fn lemma_handshake_is_sequenced(state: ChannelState, event: ControlEventView)
    ensures
        control_step(state, event).0 == ChannelState::Active && state != ChannelState::Active ==> {
            &&& state == ChannelState::AwaitingSuccess
            &&& event matches ControlEventView::Received(Message::Success(_))
        },
        control_step(state, event).0 == ChannelState::AwaitingSuccess ==> {
            &&& state == ChannelState::Connecting
            &&& event is Connected
            &&& control_step(state, event).1 is SendInit
        },
        state == ChannelState::AwaitingSuccess && !(event matches ControlEventView::Received(
            Message::Success(_),
        )) ==> control_step(state, event) == (ChannelState::Closed, ControlActionView::Fail),
        control_step(ChannelState::Closed, event) == (
            ChannelState::Closed,
            ControlActionView::Ignore,
        ),
{
}

/// A data channel never gives up: whatever happens, it is relaying, waiting
/// for the cue, or about to connect again; and it relays only after the
/// server's `DataForward`.
pub proof fn lemma_data_channel_retries(state: DataState, event: DataEventView)
    ensures
        data_step(state, event).1 == DataAction::Relay ==> {
            &&& state == DataState::AwaitingForward
            &&& event == DataEventView::Received(Message::DataForward)
        },
        data_step(state, event).0 == DataState::Connecting ==> data_step(state, event).1
            == DataAction::Reconnect,
{
}

} // verus!
