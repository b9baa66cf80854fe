use vstd::prelude::*;

verus! {

/// The logical channels, identical on both ends of a connection.
#[derive(Debug, Clone, Copy, PartialEq, Eq, Structural)]
pub enum Channel {
    /// Ordered and reliable, resent on a timer.
    Reliable,
    /// Ordered and reliable, resent at once.
    ReliableCritical,
    /// Unordered and unreliable; carries snapshots only.
    Unreliable,
}

/// How a channel delivers its messages.
#[derive(Debug, Clone, Copy, PartialEq, Eq, Structural)]
pub enum Delivery {
    /// Every message arrives, in send order. A lost message is resent after
    /// the transport's resend delay, or at once when `resend_immediately`.
    ReliableOrdered { resend_immediately: bool },
    /// A message may be lost or overtaken; a newer one supersedes it.
    UnreliableUnordered,
}

/// The kinds of messages the protocol sends.
#[derive(Debug, Clone, Copy, PartialEq, Eq, Structural)]
pub enum MessageKind {
    /// A world snapshot, server to client.
    ServerFrame,
    /// One tick of player input, client to server.
    PlayerInput,
    /// A discrete client action, such as a lobby command.
    ClientAction,
    /// A server notification: score, lobby roster, start of gameplay.
    ServerMessage,
}

pub open spec fn spec_channel_id(c: Channel) -> u8 {
    match c {
        Channel::Reliable => 0,
        Channel::ReliableCritical => 1,
        Channel::Unreliable => 2,
    }
}

pub open spec fn spec_delivery(c: Channel) -> Delivery {
    match c {
        Channel::Reliable => Delivery::ReliableOrdered { resend_immediately: false },
        Channel::ReliableCritical => Delivery::ReliableOrdered { resend_immediately: true },
        Channel::Unreliable => Delivery::UnreliableUnordered,
    }
}

pub open spec fn spec_channel_for(kind: MessageKind) -> Channel {
    match kind {
        MessageKind::ServerFrame => Channel::Unreliable,
        MessageKind::PlayerInput => Channel::ReliableCritical,
        MessageKind::ClientAction => Channel::Reliable,
        MessageKind::ServerMessage => Channel::Reliable,
    }
}

impl Channel {
    /// The channel's number on the wire.
    pub fn id(self) -> (r: u8)
        ensures
            r == spec_channel_id(self),
    {
        match self {
            Channel::Reliable => 0,
            Channel::ReliableCritical => 1,
            Channel::Unreliable => 2,
        }
    }

    /// The reliability class attached to the channel.
    pub fn delivery(self) -> (r: Delivery)
        ensures
            r == spec_delivery(self),
    {
        match self {
            Channel::Reliable => Delivery::ReliableOrdered { resend_immediately: false },
            Channel::ReliableCritical => Delivery::ReliableOrdered { resend_immediately: true },
            Channel::Unreliable => Delivery::UnreliableUnordered,
        }
    }

    /// Every channel, in the order of their numbers.
    pub fn all() -> (r: Vec<Channel>)
        ensures
            r@ == seq![Channel::Reliable, Channel::ReliableCritical, Channel::Unreliable],
            forall|i: int| 0 <= i < r@.len() ==> spec_channel_id(#[trigger] r@[i]) == i,
    {
        let r = vec![Channel::Reliable, Channel::ReliableCritical, Channel::Unreliable];
        assert(r@ =~= seq![Channel::Reliable, Channel::ReliableCritical, Channel::Unreliable]);
        r
    }
}

/// The channel that carries messages of `kind`: snapshots go unreliable,
/// player input on the critical channel, everything else reliable.
pub fn channel_for(kind: MessageKind) -> (r: Channel)
    ensures
        r == spec_channel_for(kind),
        (r == Channel::Unreliable) <==> (kind == MessageKind::ServerFrame),
{
    match kind {
        MessageKind::ServerFrame => Channel::Unreliable,
        MessageKind::PlayerInput => Channel::ReliableCritical,
        MessageKind::ClientAction => Channel::Reliable,
        MessageKind::ServerMessage => Channel::Reliable,
    }
}

} // verus!
