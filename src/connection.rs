//! The life of one viewer's connection: what to do on each event.
use crate::messages::ClientMessage;
use vstd::prelude::*;

verus! {

#[derive(Clone, Copy, Debug, PartialEq, Eq, Structural)]
pub enum ConnectionState {
    Connected,
    Streaming,
    Closed,
}

#[derive(Clone, Copy, Debug, PartialEq, Eq, Structural)]
pub enum ConnectionEvent {
    /// The connection has been accepted.
    Opened,
    /// The push timer fired.
    PushTick,
    /// A frame arrived and decoded to a command.
    Received(ClientMessage),
    /// A frame arrived that is no command.
    Malformed,
    /// Sending failed.
    SendFailed,
    /// The incoming stream ended or failed.
    ReceiveEnded,
}

#[derive(Clone, Copy, Debug, PartialEq, Eq, Structural)]
pub enum ConnectionAction {
    /// Send the viewer a snapshot of the world.
    SendSnapshot,
    /// Apply the command to the world.
    Apply(ClientMessage),
    /// Stop both directions of this connection.
    TearDown,
    Nothing,
}

/// The next state and the action for an event. A snapshot goes out as
/// soon as the connection opens and on every push tick; commands are
/// applied; malformed frames are dropped; a failure either way closes the
/// connection, which then ignores everything.
pub open spec fn next(s: ConnectionState, e: ConnectionEvent) -> (ConnectionState, ConnectionAction) {
    match s {
        ConnectionState::Closed => (ConnectionState::Closed, ConnectionAction::Nothing),
        _ => match e {
            ConnectionEvent::SendFailed | ConnectionEvent::ReceiveEnded => (
                ConnectionState::Closed,
                ConnectionAction::TearDown,
            ),
            ConnectionEvent::Opened => if s == ConnectionState::Connected {
                (ConnectionState::Streaming, ConnectionAction::SendSnapshot)
            } else {
                (s, ConnectionAction::Nothing)
            },
            ConnectionEvent::PushTick => if s == ConnectionState::Streaming {
                (s, ConnectionAction::SendSnapshot)
            } else {
                (s, ConnectionAction::Nothing)
            },
            ConnectionEvent::Received(m) => if s == ConnectionState::Streaming {
                (s, ConnectionAction::Apply(m))
            } else {
                (s, ConnectionAction::Nothing)
            },
            ConnectionEvent::Malformed => (s, ConnectionAction::Nothing),
        },
    }
}

pub fn step(s: ConnectionState, e: ConnectionEvent) -> (r: (ConnectionState, ConnectionAction))
    ensures
        r == next(s, e),
{
    match s {
        ConnectionState::Closed => (ConnectionState::Closed, ConnectionAction::Nothing),
        _ => match e {
            ConnectionEvent::SendFailed | ConnectionEvent::ReceiveEnded => (
                ConnectionState::Closed,
                ConnectionAction::TearDown,
            ),
            ConnectionEvent::Opened => {
                if s == ConnectionState::Connected {
                    (ConnectionState::Streaming, ConnectionAction::SendSnapshot)
                } else {
                    (s, ConnectionAction::Nothing)
                }
            },
            ConnectionEvent::PushTick => {
                if s == ConnectionState::Streaming {
                    (s, ConnectionAction::SendSnapshot)
                } else {
                    (s, ConnectionAction::Nothing)
                }
            },
            ConnectionEvent::Received(m) => {
                if s == ConnectionState::Streaming {
                    (s, ConnectionAction::Apply(m))
                } else {
                    (s, ConnectionAction::Nothing)
                }
            },
            ConnectionEvent::Malformed => (s, ConnectionAction::Nothing),
        },
    }
}

/// A closed connection stays closed and does nothing, whatever happens.
pub proof fn closed_is_final(e: ConnectionEvent)
    ensures
        next(ConnectionState::Closed, e) == (ConnectionState::Closed, ConnectionAction::Nothing),
{
}

} // verus!
