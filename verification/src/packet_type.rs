//! The kinds of datagram, and the byte that names each on the wire.

use vstd::prelude::*;

verus! {

/// What a datagram is for.
#[derive(Clone, Copy, PartialEq, Eq, Debug, Structural)]
pub enum PacketType {
    /// A client opens the handshake with a timestamp of its choice.
    ClientChallengeRequest,
    /// The server answers with the timestamp and its digest.
    ServerChallengeResponse,
    /// The client returns timestamp and digest.
    ClientValidateRequest,
    /// The server has verified the digest.
    ServerValidateResponse,
    /// The client asks to be connected.
    ClientConnectRequest,
    /// The server has accepted the client.
    ServerConnectResponse,
    /// The server has refused the client.
    ServerRejectResponse,
    /// Messages of the channels.
    Data,
    /// Keeps an idle connection alive.
    Heartbeat,
    /// Asks the peer for a pong.
    Ping,
    /// Answers a ping.
    Pong,
    /// The sender leaves.
    Disconnect,
}

/// Where a datagram goes once its header has been read.
#[derive(Clone, Copy, PartialEq, Eq, Debug, Structural)]
pub enum Route {
    /// To the handshake manager.
    Handshake,
    /// To the connection of the sender's address.
    Connection,
    /// Nowhere: the datagram is dropped.
    Dropped,
}

impl PacketType {
    /// The byte that names this kind on the wire.
    pub open spec fn tag(self) -> u8 {
        match self {
            PacketType::ClientChallengeRequest => 0,
            PacketType::ServerChallengeResponse => 1,
            PacketType::ClientValidateRequest => 2,
            PacketType::ServerValidateResponse => 3,
            PacketType::ClientConnectRequest => 4,
            PacketType::ServerConnectResponse => 5,
            PacketType::ServerRejectResponse => 6,
            PacketType::Data => 7,
            PacketType::Heartbeat => 8,
            PacketType::Ping => 9,
            PacketType::Pong => 10,
            PacketType::Disconnect => 11,
        }
    }

    /// The kind that a byte names, if it names one.
    pub open spec fn from_tag(tag: u8) -> Option<PacketType> {
        if tag == 0 {
            Some(PacketType::ClientChallengeRequest)
        } else if tag == 1 {
            Some(PacketType::ServerChallengeResponse)
        } else if tag == 2 {
            Some(PacketType::ClientValidateRequest)
        } else if tag == 3 {
            Some(PacketType::ServerValidateResponse)
        } else if tag == 4 {
            Some(PacketType::ClientConnectRequest)
        } else if tag == 5 {
            Some(PacketType::ServerConnectResponse)
        } else if tag == 6 {
            Some(PacketType::ServerRejectResponse)
        } else if tag == 7 {
            Some(PacketType::Data)
        } else if tag == 8 {
            Some(PacketType::Heartbeat)
        } else if tag == 9 {
            Some(PacketType::Ping)
        } else if tag == 10 {
            Some(PacketType::Pong)
        } else if tag == 11 {
            Some(PacketType::Disconnect)
        } else {
            None
        }
    }

    /// Whether this kind belongs to the handshake.
    pub open spec fn spec_is_handshake(self) -> bool {
        self.tag() < 7
    }

    /// Where a datagram of this kind goes: a handshake datagram to the
    /// handshake manager, any other to the connection of its sender, and
    /// nowhere if the sender has no validated connection.
    pub open spec fn spec_route(self, has_connection: bool) -> Route {
        if self.spec_is_handshake() {
            Route::Handshake
        } else if has_connection {
            Route::Connection
        } else {
            Route::Dropped
        }
    }

    /// The byte that names this kind on the wire.
    pub fn to_u8(self) -> (tag: u8)
        ensures
            tag == self.tag(),
    {
        match self {
            PacketType::ClientChallengeRequest => 0,
            PacketType::ServerChallengeResponse => 1,
            PacketType::ClientValidateRequest => 2,
            PacketType::ServerValidateResponse => 3,
            PacketType::ClientConnectRequest => 4,
            PacketType::ServerConnectResponse => 5,
            PacketType::ServerRejectResponse => 6,
            PacketType::Data => 7,
            PacketType::Heartbeat => 8,
            PacketType::Ping => 9,
            PacketType::Pong => 10,
            PacketType::Disconnect => 11,
        }
    }

    /// The kind that a byte names; `None` for a byte that names none.
    pub fn from_u8(tag: u8) -> (kind: Option<PacketType>)
        ensures
            kind == PacketType::from_tag(tag),
    {
        match tag {
            0 => Some(PacketType::ClientChallengeRequest),
            1 => Some(PacketType::ServerChallengeResponse),
            2 => Some(PacketType::ClientValidateRequest),
            3 => Some(PacketType::ServerValidateResponse),
            4 => Some(PacketType::ClientConnectRequest),
            5 => Some(PacketType::ServerConnectResponse),
            6 => Some(PacketType::ServerRejectResponse),
            7 => Some(PacketType::Data),
            8 => Some(PacketType::Heartbeat),
            9 => Some(PacketType::Ping),
            10 => Some(PacketType::Pong),
            11 => Some(PacketType::Disconnect),
            _ => None,
        }
    }

    /// Whether this kind belongs to the handshake.
    pub fn is_handshake(self) -> (handshake: bool)
        ensures
            handshake == self.spec_is_handshake(),
    {
        self.to_u8() < 7
    }

    /// Where a datagram of this kind goes.
    pub fn route(self, has_connection: bool) -> (route: Route)
        ensures
            route == self.spec_route(has_connection),
    {
        if self.is_handshake() {
            Route::Handshake
        } else if has_connection {
            Route::Connection
        } else {
            Route::Dropped
        }
    }
}

/// Every kind is named by one byte, and that byte names no other kind.
pub proof fn lemma_tag_round_trip(kind: PacketType, tag: u8)
    ensures
        PacketType::from_tag(kind.tag()) == Some(kind),
        PacketType::from_tag(tag) == Some(kind) ==> kind.tag() == tag,
{
}

/// No datagram reaches a connection unless its sender has a validated
/// connection, and no handshake datagram ever does.
pub proof fn lemma_route_needs_connection(kind: PacketType, has_connection: bool)
    ensures
        kind.spec_route(has_connection) == Route::Connection ==> has_connection
            && !kind.spec_is_handshake(),
{
}

} // verus!
