//! Per-connection and per-message state machines.

use vstd::prelude::*;

verus! {

/// Lifecycle of one client connection.
#[derive(Debug, Clone, Copy, PartialEq, Eq, Structural)]
pub enum ConnectionState {
    Handshake,
    Ready,
    Closed,
}

impl ConnectionState {
    /// State after the first frame has been read.
    pub open spec fn after_first_frame(self) -> ConnectionState {
        match self {
            ConnectionState::Handshake => ConnectionState::Ready,
            other => other,
        }
    }

    /// The first frame moves a handshaking connection to `Ready`; any other state is kept.
    #[must_use]
    pub fn on_first_frame(self) -> (r: Self)
        ensures
            r == self.after_first_frame(),
    {
        match self {
            ConnectionState::Handshake => ConnectionState::Ready,
            other => other,
        }
    }

    /// Closing is absorbing: every state moves to `Closed`.
    #[must_use]
    pub fn close(self) -> (r: Self)
        ensures
            r == ConnectionState::Closed,
    {
        ConnectionState::Closed
    }

    pub fn is_closed(&self) -> (r: bool)
        ensures
            r == (*self == ConnectionState::Closed),
    {
        matches!(self, ConnectionState::Closed)
    }

    pub fn is_ready(&self) -> (r: bool)
        ensures
            r == (*self == ConnectionState::Ready),
    {
        matches!(self, ConnectionState::Ready)
    }
}

/// Progress of one message through the broker.
#[derive(Debug, Clone, Copy, PartialEq, Eq, Structural)]
pub enum MessageState {
    Parsed,
    Routed,
    Delivered,
}

/// Position of a message state in the order `Parsed < Routed < Delivered`.
pub open spec fn message_rank(s: MessageState) -> int {
    match s {
        MessageState::Parsed => 0,
        MessageState::Routed => 1,
        MessageState::Delivered => 2,
    }
}

impl MessageState {
    /// State after the message has been routed.
    pub open spec fn after_routed(self) -> MessageState {
        match self {
            MessageState::Parsed => MessageState::Routed,
            other => other,
        }
    }

    /// State after the message has been delivered.
    pub open spec fn after_delivered(self) -> MessageState {
        match self {
            MessageState::Routed => MessageState::Delivered,
            other => other,
        }
    }

    /// `Parsed` moves to `Routed`; any other state is kept.
    #[must_use]
    pub fn on_routed(self) -> (r: Self)
        ensures
            r == self.after_routed(),
    {
        match self {
            MessageState::Parsed => MessageState::Routed,
            other => other,
        }
    }

    /// `Routed` moves to `Delivered`; any other state is kept.
    #[must_use]
    pub fn on_delivered(self) -> (r: Self)
        ensures
            r == self.after_delivered(),
    {
        match self {
            MessageState::Routed => MessageState::Delivered,
            other => other,
        }
    }
}

/// A message never moves backwards: routing and delivery keep or raise its
/// position in `Parsed < Routed < Delivered`, and routing then delivering a
/// freshly parsed message ends in `Delivered`.
pub proof fn lemma_message_state_monotone(s: MessageState)
    ensures
        message_rank(s.after_routed()) >= message_rank(s),
        message_rank(s.after_delivered()) >= message_rank(s),
        MessageState::Parsed.after_routed().after_delivered() == MessageState::Delivered,
{
}

/// A closed connection stays closed: reading another frame does not reopen it,
/// and a connection that has left the handshake is never sent back to it.
pub proof fn lemma_connection_closed_absorbing(s: ConnectionState)
    ensures
        ConnectionState::Closed.after_first_frame() == ConnectionState::Closed,
        s.after_first_frame() != ConnectionState::Handshake,
        s.after_first_frame().after_first_frame() == s.after_first_frame(),
{
}

} // verus!
