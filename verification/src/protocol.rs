//! What the network reader hands to the engine: one record per event on a
//! stream, with the stream's name.

use vstd::prelude::*;
use crate::wire::Msg;

verus! {

/// What happened on a stream.
#[derive(Debug, PartialEq, Eq)]
pub enum IncomingKind {
    Connected,
    Disconnected,
    Identity(Msg),
    Snapshot(Msg),
    Event(Msg),
    Other(Msg),
    Error(String),
}

/// One event on the stream `stream`.
#[derive(Debug, PartialEq, Eq)]
pub struct Incoming {
    pub stream: String,
    pub kind: IncomingKind,
}

impl Incoming {
    /// The stream was connected.
    pub fn connected(stream: String) -> (inc: Self)
        ensures
            inc == (Incoming { stream, kind: IncomingKind::Connected }),
    {
        Incoming { stream, kind: IncomingKind::Connected }
    }

    /// The stream was closed.
    pub fn disconnected(stream: String) -> (inc: Self)
        ensures
            inc == (Incoming { stream, kind: IncomingKind::Disconnected }),
    {
        Incoming { stream, kind: IncomingKind::Disconnected }
    }

    /// The agent said who it is.
    pub fn identity(stream: String, msg: Msg) -> (inc: Self)
        ensures
            inc == (Incoming { stream, kind: IncomingKind::Identity(msg) }),
    {
        Incoming { stream, kind: IncomingKind::Identity(msg) }
    }

    /// The agent sent a snapshot.
    pub fn snapshot(stream: String, msg: Msg) -> (inc: Self)
        ensures
            inc == (Incoming { stream, kind: IncomingKind::Snapshot(msg) }),
    {
        Incoming { stream, kind: IncomingKind::Snapshot(msg) }
    }

    /// The agent sent a delta.
    pub fn event(stream: String, msg: Msg) -> (inc: Self)
        ensures
            inc == (Incoming { stream, kind: IncomingKind::Event(msg) }),
    {
        Incoming { stream, kind: IncomingKind::Event(msg) }
    }

    /// The agent sent another message.
    pub fn other(stream: String, msg: Msg) -> (inc: Self)
        ensures
            inc == (Incoming { stream, kind: IncomingKind::Other(msg) }),
    {
        Incoming { stream, kind: IncomingKind::Other(msg) }
    }

    /// The stream failed, or a frame could not be decoded.
    pub fn error(stream: String, msg: String) -> (inc: Self)
        ensures
            inc == (Incoming { stream, kind: IncomingKind::Error(msg) }),
    {
        Incoming { stream, kind: IncomingKind::Error(msg) }
    }

    /// Sorts a decoded message into identity, snapshot, event and the rest.
    pub fn classify(stream: String, msg: Msg) -> (inc: Self)
        ensures
            inc.stream == stream,
            inc.kind == match msg {
                Msg::Identity { .. } => IncomingKind::Identity(msg),
                Msg::Snapshot { .. } => IncomingKind::Snapshot(msg),
                Msg::Event { .. } => IncomingKind::Event(msg),
                _ => IncomingKind::Other(msg),
            },
    {
        let kind = match &msg {
            Msg::Identity { .. } => 0u8,
            Msg::Snapshot { .. } => 1u8,
            Msg::Event { .. } => 2u8,
            _ => 3u8,
        };
        if kind == 0 {
            Incoming::identity(stream, msg)
        } else if kind == 1 {
            Incoming::snapshot(stream, msg)
        } else if kind == 2 {
            Incoming::event(stream, msg)
        } else {
            Incoming::other(stream, msg)
        }
    }
}

} // verus!
