//! The client's side of the handshake.
//!
//! The client sends a timestamp of its choice, takes the server's digest
//! of it, returns both, and asks to be connected once the server has
//! verified them. Until a step is answered it is sent again whenever the
//! resend interval has passed. The timestamp and the digest are kept:
//! they authenticate the request to disconnect.

use crate::address::Timestamp;
use crate::auth_payload::{auth_bits, AuthPayload, AuthView};
use crate::bit_reader::{BitReader, DecodeError};
use crate::bit_writer::BitWriter;
use crate::bits::uint_bits;
use crate::encoding::{byte_string_bits, lemma_byte_string_round_trip};
use crate::handshake_manager::{handshake_header, parse_timestamp_digest, validated_timestamp};
use crate::hmac::timestamp_digest;
use crate::packet_type::PacketType;
use crate::standard_header::{header_bits, StandardHeader};
use vstd::prelude::*;

verus! {

/// How far the client has come in the handshake.
#[derive(Clone, Copy, PartialEq, Eq, Debug, Structural)]
pub enum HandshakeState {
    /// The challenge was sent and the server's digest is awaited.
    AwaitingChallengeResponse,
    /// Timestamp and digest were returned and their verification is
    /// awaited.
    AwaitingValidateResponse,
    /// The server has verified the digest, and its word on the connection
    /// is awaited.
    AwaitingConnectResponse,
    /// The server has accepted the client.
    Connected,
    /// The server has refused the client.
    Rejected,
}

/// What the client holds of its handshake, as mathematics sees it.
pub struct ClientHandshakeView {
    /// How far the handshake has come.
    pub state: HandshakeState,
    /// The timestamp that the client chose.
    pub timestamp: Timestamp,
    /// The digest that the server gave for the timestamp, once it has.
    pub digest: Option<Seq<u8>>,
    /// When the present step was sent last.
    pub last_sent: Option<u64>,
    /// How long a step waits before it is sent again.
    pub resend_interval_millis: u64,
    /// What the client presents to be let in, if it presents anything.
    pub auth: Option<AuthView>,
}

/// The client's side of the handshake.
pub struct ClientHandshakeManager {
    state: HandshakeState,
    timestamp: Timestamp,
    digest: Option<Vec<u8>>,
    last_sent: Option<u64>,
    resend_interval_millis: u64,
    auth: Option<AuthPayload>,
}

/// The bits of what the client presents: none if it presents nothing.
pub open spec fn presented_bits(auth: Option<AuthView>) -> Seq<bool> {
    match auth {
        Some(auth) => auth_bits(auth),
        None => Seq::empty(),
    }
}

/// What a request carries that bears a timestamp and its digest.
pub open spec fn timestamp_digest_bits(timestamp: Timestamp, digest: Seq<u8>) -> Seq<bool> {
    uint_bits(timestamp as nat, 64) + byte_string_bits(digest)
}

/// The bits of the request that the client sends in a state, if it sends
/// one there.
pub open spec fn request_bits(v: ClientHandshakeView) -> Option<Seq<bool>> {
    match v.state {
        HandshakeState::AwaitingChallengeResponse => Some(
            header_bits(handshake_header(PacketType::ClientChallengeRequest)) + uint_bits(
                v.timestamp as nat,
                64,
            ),
        ),
        HandshakeState::AwaitingValidateResponse => match v.digest {
            Some(digest) => Some(
                header_bits(handshake_header(PacketType::ClientValidateRequest))
                    + timestamp_digest_bits(v.timestamp, digest) + presented_bits(v.auth),
            ),
            None => None,
        },
        HandshakeState::AwaitingConnectResponse => Some(
            header_bits(handshake_header(PacketType::ClientConnectRequest)),
        ),
        HandshakeState::Connected => None,
        HandshakeState::Rejected => None,
    }
}

/// Whether the present step is due to be sent at `now`: it was never
/// sent, or the resend interval has passed since.
pub open spec fn is_due(v: ClientHandshakeView, now: u64) -> bool {
    match v.last_sent {
        None => true,
        Some(sent) => now >= sent && now - sent >= v.resend_interval_millis,
    }
}

/// The state after a datagram of the server's of the given kind, with the
/// given payload, has arrived.
///
/// The answer to the challenge counts if it can be decoded and bears the
/// client's own timestamp; the digest it bears is kept. Every answer
/// counts only in the state that awaits it, but for a refusal, which
/// counts until the client is connected. A datagram that counts starts
/// the next step, which has not been sent yet.
pub open spec fn after_response(v: ClientHandshakeView, packet_type: PacketType, payload: Seq<bool>) -> ClientHandshakeView {
    match (v.state, packet_type) {
        (HandshakeState::AwaitingChallengeResponse, PacketType::ServerChallengeResponse) => {
            match parse_timestamp_digest(payload) {
                Ok(((timestamp, digest), used)) => if timestamp == v.timestamp {
                    ClientHandshakeView {
                        state: HandshakeState::AwaitingValidateResponse,
                        digest: Some(digest),
                        last_sent: None,
                        ..v
                    }
                } else {
                    v
                },
                Err(error) => v,
            }
        },
        (HandshakeState::AwaitingValidateResponse, PacketType::ServerValidateResponse) => {
            ClientHandshakeView {
                state: HandshakeState::AwaitingConnectResponse,
                last_sent: None,
                ..v
            }
        },
        (HandshakeState::AwaitingConnectResponse, PacketType::ServerConnectResponse) => {
            ClientHandshakeView { state: HandshakeState::Connected, last_sent: None, ..v }
        },
        (HandshakeState::AwaitingChallengeResponse, PacketType::ServerRejectResponse) => {
            ClientHandshakeView { state: HandshakeState::Rejected, last_sent: None, ..v }
        },
        (HandshakeState::AwaitingValidateResponse, PacketType::ServerRejectResponse) => {
            ClientHandshakeView { state: HandshakeState::Rejected, last_sent: None, ..v }
        },
        (HandshakeState::AwaitingConnectResponse, PacketType::ServerRejectResponse) => {
            ClientHandshakeView { state: HandshakeState::Rejected, last_sent: None, ..v }
        },
        _ => v,
    }
}

impl View for ClientHandshakeManager {
    type V = ClientHandshakeView;

    closed spec fn view(&self) -> ClientHandshakeView {
        ClientHandshakeView {
            state: self.state,
            timestamp: self.timestamp,
            digest: match self.digest {
                Some(digest) => Some(digest@),
                None => None,
            },
            last_sent: self.last_sent,
            resend_interval_millis: self.resend_interval_millis,
            auth: match self.auth {
                Some(auth) => Some(auth@),
                None => None,
            },
        }
    }
}

impl ClientHandshakeManager {
    /// A handshake that begins with the given timestamp, in which the
    /// client presents nothing.
    pub fn new(timestamp: Timestamp, resend_interval_millis: u64) -> (manager: Self)
        ensures
            manager@ == (ClientHandshakeView {
                state: HandshakeState::AwaitingChallengeResponse,
                timestamp,
                digest: None,
                last_sent: None,
                resend_interval_millis,
                auth: None,
            }),
    {
        ClientHandshakeManager {
            state: HandshakeState::AwaitingChallengeResponse,
            timestamp,
            digest: None,
            last_sent: None,
            resend_interval_millis,
            auth: None,
        }
    }

    /// A handshake that begins with the given timestamp, in which the
    /// client presents `auth` with its request to validate.
    pub fn with_auth(timestamp: Timestamp, resend_interval_millis: u64, auth: AuthPayload) -> (manager:
        Self)
        ensures
            manager@ == (ClientHandshakeView {
                state: HandshakeState::AwaitingChallengeResponse,
                timestamp,
                digest: None,
                last_sent: None,
                resend_interval_millis,
                auth: Some(auth@),
            }),
    {
        ClientHandshakeManager {
            state: HandshakeState::AwaitingChallengeResponse,
            timestamp,
            digest: None,
            last_sent: None,
            resend_interval_millis,
            auth: Some(auth),
        }
    }

    /// How far the handshake has come.
    pub fn state(&self) -> (state: HandshakeState)
        ensures
            state == self@.state,
    {
        self.state
    }

    /// Whether the server has accepted the client.
    pub fn is_connected(&self) -> (connected: bool)
        ensures
            connected == (self@.state == HandshakeState::Connected),
    {
        match self.state {
            HandshakeState::Connected => true,
            _ => false,
        }
    }

    /// Writes a timestamp and its digest.
    fn write_timestamp_digest(&self, writer: &mut BitWriter, digest: &Vec<u8>)
        requires
            old(writer).wf(),
        ensures
            final(writer).wf(),
            final(writer)@ == old(writer)@ + timestamp_digest_bits(self@.timestamp, digest@),
    {
        writer.write_u64(self.timestamp);
        writer.write_bytes(digest.as_slice());
        assert(writer@ =~= old(writer)@ + timestamp_digest_bits(self@.timestamp, digest@));
    }

    /// Writes the request of the present step if it is due at `now`, and
    /// takes note that it was sent. Gives nothing, and changes nothing,
    /// where the step is not due and where the handshake has ended.
    pub fn write_request(&mut self, now: u64) -> (request: Option<BitWriter>)
        ensures
            match request {
                Some(writer) => {
                    &&& is_due(old(self)@, now)
                    &&& request_bits(old(self)@) == Some(writer@)
                    &&& writer.wf()
                    &&& final(self)@ == (ClientHandshakeView { last_sent: Some(now), ..old(self)@ })
                },
                None => {
                    &&& !is_due(old(self)@, now) || request_bits(old(self)@) is None
                    &&& final(self)@ == old(self)@
                },
            },
    {
        let due = match self.last_sent {
            None => true,
            Some(sent) => now >= sent && now - sent >= self.resend_interval_millis,
        };
        if !due {
            return None;
        }
        let mut writer = BitWriter::new();
        match self.state {
            HandshakeState::AwaitingChallengeResponse => {
                StandardHeader::new(PacketType::ClientChallengeRequest, 0, 0, 0).ser(&mut writer);
                writer.write_u64(self.timestamp);
                assert(writer@ =~= request_bits(old(self)@).unwrap());
            },
            HandshakeState::AwaitingValidateResponse => {
                match &self.digest {
                    Some(digest) => {
                        StandardHeader::new(PacketType::ClientValidateRequest, 0, 0, 0).ser(
                            &mut writer,
                        );
                        self.write_timestamp_digest(&mut writer, digest);
                        match &self.auth {
                            Some(auth) => {
                                auth.ser(&mut writer);
                            },
                            None => {},
                        }
                        assert(writer@ =~= request_bits(old(self)@).unwrap());
                    },
                    None => {
                        return None;
                    },
                }
            },
            HandshakeState::AwaitingConnectResponse => {
                StandardHeader::new(PacketType::ClientConnectRequest, 0, 0, 0).ser(&mut writer);
                assert(writer@ =~= request_bits(old(self)@).unwrap());
            },
            HandshakeState::Connected => {
                return None;
            },
            HandshakeState::Rejected => {
                return None;
            },
        }
        self.last_sent = Some(now);
        Some(writer)
    }

    /// Takes a datagram of the server's whose header has been read: the
    /// kind is `packet_type`, and `reader` stands at the payload.
    pub fn recv_response(&mut self, packet_type: PacketType, reader: &mut BitReader)
        requires
            old(reader).wf(),
        ensures
            final(reader).wf(),
            final(self)@ == after_response(old(self)@, packet_type, old(reader)@),
    {
        match (self.state, packet_type) {
            (HandshakeState::AwaitingChallengeResponse, PacketType::ServerChallengeResponse) => {
                let mut attempt = *reader;
                let timestamp = match attempt.read_u64() {
                    Ok(timestamp) => timestamp,
                    Err(_) => {
                        return ;
                    },
                };
                let digest = match attempt.read_bytes() {
                    Ok(digest) => digest,
                    Err(_) => {
                        return ;
                    },
                };
                *reader = attempt;
                if timestamp == self.timestamp {
                    self.digest = Some(digest);
                    self.state = HandshakeState::AwaitingValidateResponse;
                    self.last_sent = None;
                }
            },
            (HandshakeState::AwaitingValidateResponse, PacketType::ServerValidateResponse) => {
                self.state = HandshakeState::AwaitingConnectResponse;
                self.last_sent = None;
            },
            (HandshakeState::AwaitingConnectResponse, PacketType::ServerConnectResponse) => {
                self.state = HandshakeState::Connected;
                self.last_sent = None;
            },
            (HandshakeState::AwaitingChallengeResponse, PacketType::ServerRejectResponse) => {
                self.state = HandshakeState::Rejected;
                self.last_sent = None;
            },
            (HandshakeState::AwaitingValidateResponse, PacketType::ServerRejectResponse) => {
                self.state = HandshakeState::Rejected;
                self.last_sent = None;
            },
            (HandshakeState::AwaitingConnectResponse, PacketType::ServerRejectResponse) => {
                self.state = HandshakeState::Rejected;
                self.last_sent = None;
            },
            _ => {},
        }
    }

    /// Writes the request to disconnect, which bears the timestamp and
    /// the digest of the handshake. Gives nothing where the client has no
    /// digest.
    pub fn write_disconnect(&self) -> (request: Option<BitWriter>)
        ensures
            match self@.digest {
                Some(digest) => request matches Some(writer) && writer.wf() && writer@
                    == header_bits(handshake_header(PacketType::Disconnect))
                    + timestamp_digest_bits(self@.timestamp, digest),
                None => request is None,
            },
    {
        match &self.digest {
            Some(digest) => {
                let mut writer = BitWriter::new();
                StandardHeader::new(PacketType::Disconnect, 0, 0, 0).ser(&mut writer);
                self.write_timestamp_digest(&mut writer, digest);
                assert(writer@ =~= header_bits(handshake_header(PacketType::Disconnect))
                    + timestamp_digest_bits(self@.timestamp, digest@));
                Some(writer)
            },
            None => None,
        }
    }
}

/// The server reads from a request exactly the timestamp and the digest
/// that the client wrote into it, whatever follows them.
pub proof fn lemma_server_reads_request(timestamp: Timestamp, digest: Seq<u8>, rest: Seq<bool>)
    requires
        digest.len() <= u64::MAX,
    ensures
        parse_timestamp_digest(timestamp_digest_bits(timestamp, digest) + rest) == Ok::<
            ((Timestamp, Seq<u8>), nat),
            DecodeError,
        >(((timestamp, digest), timestamp_digest_bits(timestamp, digest).len())),
{
    let bits = timestamp_digest_bits(timestamp, digest) + rest;
    assert(bits.take(64) =~= uint_bits(timestamp as nat, 64));
    vstd::arithmetic::power2::lemma2_to64();
    crate::bits::lemma_uint_round_trip(timestamp as nat, 64);
    assert(bits.skip(64) =~= byte_string_bits(digest) + rest);
    lemma_byte_string_round_trip(digest, rest);
}

/// A client that returns the digest which the server gave for its
/// timestamp is validated by that server: the handshake of an honest
/// client with an honest server goes through.
pub proof fn lemma_honest_client_is_validated(secret: Seq<u8>, timestamp: Timestamp, rest: Seq<bool>)
    requires
        timestamp_digest(secret, timestamp).len() <= u64::MAX,
    ensures
        validated_timestamp(
            secret,
            timestamp_digest_bits(timestamp, timestamp_digest(secret, timestamp)) + rest,
        ) == Some(timestamp),
{
    lemma_server_reads_request(timestamp, timestamp_digest(secret, timestamp), rest);
}

/// A request whose digest is not the one that the server gives for its
/// timestamp is not validated, and changes nothing at the server.
pub proof fn lemma_tampered_request_is_invalid(
    secret: Seq<u8>,
    timestamp: Timestamp,
    digest: Seq<u8>,
    rest: Seq<bool>,
)
    requires
        digest.len() <= u64::MAX,
        digest != timestamp_digest(secret, timestamp),
    ensures
        validated_timestamp(secret, timestamp_digest_bits(timestamp, digest) + rest) is None,
{
    lemma_server_reads_request(timestamp, digest, rest);
}

/// The server validates a client that presents something just as one
/// that presents nothing, and finds what the client presents behind the
/// timestamp and the digest.
pub proof fn lemma_server_finds_what_is_presented(
    secret: Seq<u8>,
    timestamp: Timestamp,
    auth: AuthView,
    rest: Seq<bool>,
)
    requires
        timestamp_digest(secret, timestamp).len() <= u64::MAX,
        auth.bytes matches Some(bytes) ==> bytes.len() <= u64::MAX,
        auth.headers matches Some(fields) ==> fields.len() <= u64::MAX
            && crate::auth_payload::fields_fit(fields),
    ensures
        ({
            let digest = timestamp_digest(secret, timestamp);
            let bits = timestamp_digest_bits(timestamp, digest) + (auth_bits(auth) + rest);
            &&& validated_timestamp(secret, bits) == Some(timestamp)
            &&& crate::handshake_manager::after_timestamp_digest(bits) == auth_bits(auth) + rest
            &&& crate::auth_payload::parse_auth(auth_bits(auth) + rest) == Ok::<
                (AuthView, nat),
                DecodeError,
            >((auth, auth_bits(auth).len()))
        }),
{
    let digest = timestamp_digest(secret, timestamp);
    let tail = auth_bits(auth) + rest;
    let bits = timestamp_digest_bits(timestamp, digest) + tail;
    lemma_server_reads_request(timestamp, digest, tail);
    assert(bits.skip(timestamp_digest_bits(timestamp, digest).len() as int) =~= tail);
    crate::auth_payload::lemma_auth_round_trip(auth, rest);
}

} // verus!
