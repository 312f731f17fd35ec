//! The server's side of the handshake.
//!
//! A client sends a timestamp; the server answers with the timestamp and
//! its digest under the server's secret. When the client returns both, the
//! server checks the digest and binds the timestamp to the client's
//! address. A request to disconnect is honoured only if it carries a valid
//! timestamp and digest and the timestamp is the one bound to the address
//! of the connection.

use crate::address::{AddressMap, SocketAddress, Timestamp};
use crate::bit_reader::{BitReader, DecodeError};
use crate::bit_writer::BitWriter;
use crate::bits::{bits_value, uint_bits};
use crate::cache_map::{entries_after_insert, order_after_insert, CacheMap};
use crate::connection::Connection;
use crate::encoding::{byte_string_bits, parse_byte_string, Decoded};
use crate::hmac::{
    digest_valid, generate_secret, sign_timestamp, timestamp_digest, verify_timestamp,
    MAX_SECRET_LEN, SECRET_LEN,
};
use crate::packet_type::PacketType;
use crate::standard_header::{header_bits, StandardHeader};
use vstd::prelude::*;

verus! {

/// The number of digests that the server remembers.
pub const DIGEST_CACHE_SIZE: usize = 64;

/// What the server made of a request to validate.
#[derive(Clone, Copy, PartialEq, Eq, Debug, Structural)]
pub enum HandshakeResult {
    /// The request did not carry a timestamp with its digest.
    Invalid,
    /// The digest was the server's own, and the address is bound.
    Success,
}

/// The state of the server's handshakes.
pub struct HandshakeManager {
    connection_hash_key: Vec<u8>,
    address_to_timestamp_map: AddressMap,
    timestamp_digest_map: CacheMap,
}

/// The header of a datagram that the server sends during the handshake.
pub open spec fn handshake_header(packet_type: PacketType) -> StandardHeader {
    StandardHeader {
        packet_type,
        sender_packet_index: 0,
        sender_ack_index: 0,
        sender_ack_bitfield: 0,
    }
}

/// The bits of the answer to a challenge: the header, the timestamp and
/// its digest.
pub open spec fn challenge_response_bits(secret: Seq<u8>, timestamp: Timestamp) -> Seq<bool> {
    header_bits(handshake_header(PacketType::ServerChallengeResponse)) + uint_bits(
        timestamp as nat,
        64,
    ) + byte_string_bits(timestamp_digest(secret, timestamp))
}

/// Decodes a timestamp followed by a digest.
pub open spec fn parse_timestamp_digest(bits: Seq<bool>) -> Decoded<(Timestamp, Seq<u8>)> {
    if bits.len() < 64 {
        Err(DecodeError::Truncated)
    } else {
        match parse_byte_string(bits.skip(64)) {
            Ok((digest, used)) => Ok(
                ((bits_value(bits.take(64)) as Timestamp, digest), used + 64),
            ),
            Err(error) => Err(error),
        }
    }
}

/// The timestamp that a request carries with a valid digest, if it does.
pub open spec fn validated_timestamp(secret: Seq<u8>, bits: Seq<bool>) -> Option<Timestamp> {
    match parse_timestamp_digest(bits) {
        Ok(((timestamp, digest), used)) => if digest_valid(secret, timestamp, digest) {
            Some(timestamp)
        } else {
            None
        },
        Err(error) => None,
    }
}

/// What is left of the input after a timestamp and a digest were read
/// from it: everything, where they could not be decoded.
pub open spec fn after_timestamp_digest(bits: Seq<bool>) -> Seq<bool> {
    match parse_timestamp_digest(bits) {
        Ok((value, used)) => bits.skip(used as int),
        Err(error) => bits,
    }
}

/// Whether a request to disconnect is honoured for the connection of
/// `address`: it carries a valid timestamp and digest, and the timestamp
/// is the one bound to that address.
pub open spec fn disconnect_honoured(
    secret: Seq<u8>,
    addresses: Map<SocketAddress, Timestamp>,
    address: SocketAddress,
    bits: Seq<bool>,
) -> bool {
    match validated_timestamp(secret, bits) {
        Some(timestamp) => addresses.contains_key(address) && addresses[address] == timestamp,
        None => false,
    }
}

impl HandshakeManager {
    /// The server's secret.
    pub closed spec fn secret(&self) -> Seq<u8> {
        self.connection_hash_key@
    }

    /// The timestamp bound to each address that has validated.
    pub closed spec fn addresses(&self) -> Map<SocketAddress, Timestamp> {
        self.address_to_timestamp_map@
    }

    /// The digests that the server remembers, by timestamp.
    pub closed spec fn digests(&self) -> Map<Timestamp, Seq<u8>> {
        self.timestamp_digest_map.entries()
    }

    /// The timestamps whose digests the server remembers, oldest first.
    pub closed spec fn digest_order(&self) -> Seq<Timestamp> {
        self.timestamp_digest_map.order()
    }

    /// The tables are in order, and every digest remembered is the digest
    /// of its timestamp under the secret.
    pub closed spec fn wf(&self) -> bool {
        &&& self.connection_hash_key@.len() <= MAX_SECRET_LEN
        &&& self.address_to_timestamp_map.wf()
        &&& self.timestamp_digest_map.wf()
        &&& self.timestamp_digest_map.capacity() == DIGEST_CACHE_SIZE
        &&& forall|t: Timestamp| #[trigger]
            self.timestamp_digest_map.entries().contains_key(t)
                ==> self.timestamp_digest_map.entries()[t] == timestamp_digest(
                self.connection_hash_key@,
                t,
            )
    }

    /// A manager with a fresh secret of 32 bytes from the system's random
    /// source and nothing else: no address is bound and no digest is
    /// remembered. Whether there is a secret is the random source's to
    /// say: `None` if it failed.
    pub fn new() -> (manager: Option<Self>)
        ensures
            manager matches Some(m) ==> m.wf() && m.secret().len() == SECRET_LEN && m.addresses()
                == Map::<SocketAddress, Timestamp>::empty() && m.digest_order() == Seq::<
                Timestamp,
            >::empty() && m.digests() == Map::<Timestamp, Seq<u8>>::empty(),
    {
        match generate_secret() {
            Some(secret) => HandshakeManager::with_secret(secret),
            None => None,
        }
    }

    /// A manager with the given secret and nothing else; `None` for a
    /// secret of more than 64 bytes.
    pub fn with_secret(secret: Vec<u8>) -> (manager: Option<Self>)
        ensures
            manager is Some <==> secret@.len() <= MAX_SECRET_LEN,
            manager matches Some(m) ==> m.wf() && m.secret() == secret@ && m.addresses() == Map::<
                SocketAddress,
                Timestamp,
            >::empty() && m.digest_order() == Seq::<Timestamp>::empty() && m.digests() == Map::<
                Timestamp,
                Seq<u8>,
            >::empty(),
    {
        if secret.len() > MAX_SECRET_LEN {
            return None;
        }
        Some(
            HandshakeManager {
                connection_hash_key: secret,
                address_to_timestamp_map: AddressMap::new(),
                timestamp_digest_map: CacheMap::with_capacity(DIGEST_CACHE_SIZE),
            },
        )
    }

    /// Takes a challenge: reads the client's timestamp and writes the
    /// answer. Fails, and changes nothing, where the input ends within the
    /// timestamp.
    pub fn recv_challenge_request(&mut self, reader: &mut BitReader) -> (response: Result<
        BitWriter,
        DecodeError,
    >)
        requires
            old(self).wf(),
            old(reader).wf(),
        ensures
            final(self).wf(),
            final(reader).wf(),
            final(self).secret() == old(self).secret(),
            final(self).addresses() == old(self).addresses(),
            match response {
                Ok(writer) => {
                    let timestamp = bits_value(old(reader)@.take(64)) as Timestamp;
                    &&& old(reader)@.len() >= 64
                    &&& final(reader)@ == old(reader)@.skip(64)
                    &&& writer.wf()
                    &&& writer@ == challenge_response_bits(old(self).secret(), timestamp)
                    &&& final(self).digest_order() == order_after_insert(
                        old(self).digest_order(),
                        DIGEST_CACHE_SIZE as nat,
                        timestamp,
                    )
                    &&& final(self).digests() == entries_after_insert(
                        old(self).digests(),
                        old(self).digest_order(),
                        DIGEST_CACHE_SIZE as nat,
                        timestamp,
                        timestamp_digest(old(self).secret(), timestamp),
                    )
                },
                Err(error) => {
                    &&& error == DecodeError::Truncated
                    &&& old(reader)@.len() < 64
                    &&& final(reader)@ == old(reader)@
                    &&& final(self).digest_order() == old(self).digest_order()
                    &&& final(self).digests() == old(self).digests()
                },
            },
    {
        match reader.read_u64() {
            Ok(timestamp) => Ok(self.write_challenge_response(&timestamp)),
            Err(error) => Err(error),
        }
    }

    /// Writes the answer to a challenge: the timestamp and its digest. The
    /// digest is remembered, so that the same challenge is answered again
    /// without computing it anew.
    pub fn write_challenge_response(&mut self, timestamp: &Timestamp) -> (writer: BitWriter)
        requires
            old(self).wf(),
        ensures
            final(self).wf(),
            final(self).secret() == old(self).secret(),
            final(self).addresses() == old(self).addresses(),
            writer.wf(),
            writer@ == challenge_response_bits(old(self).secret(), *timestamp),
            final(self).digest_order() == order_after_insert(
                old(self).digest_order(),
                DIGEST_CACHE_SIZE as nat,
                *timestamp,
            ),
            final(self).digests() == entries_after_insert(
                old(self).digests(),
                old(self).digest_order(),
                DIGEST_CACHE_SIZE as nat,
                *timestamp,
                timestamp_digest(old(self).secret(), *timestamp),
            ),
    {
        let mut writer = BitWriter::new();
        StandardHeader::new(PacketType::ServerChallengeResponse, 0, 0, 0).ser(&mut writer);
        writer.write_u64(*timestamp);
        proof {
            self.timestamp_digest_map.lemma_domain();
        }
        if !self.timestamp_digest_map.contains_key(timestamp) {
            let digest = sign_timestamp(self.connection_hash_key.as_slice(), *timestamp);
            self.timestamp_digest_map.insert(*timestamp, digest);
        } else {
            assert(self.digests() =~= entries_after_insert(
                old(self).digests(),
                old(self).digest_order(),
                DIGEST_CACHE_SIZE as nat,
                *timestamp,
                timestamp_digest(old(self).secret(), *timestamp),
            ));
        }
        writer.write_bytes(self.timestamp_digest_map.get_unchecked(timestamp).as_slice());
        assert(writer@ =~= challenge_response_bits(old(self).secret(), *timestamp));
        writer
    }

    /// Takes a request to validate from `address`. A request that carries
    /// a timestamp with its digest under this server's secret binds the
    /// timestamp to the address, in place of an earlier one. Any other
    /// request changes nothing.
    pub fn recv_validate_request(&mut self, address: &SocketAddress, reader: &mut BitReader) -> (result:
        HandshakeResult)
        requires
            old(self).wf(),
            old(reader).wf(),
        ensures
            final(self).wf(),
            final(reader).wf(),
            final(self).secret() == old(self).secret(),
            final(self).digests() == old(self).digests(),
            final(self).digest_order() == old(self).digest_order(),
            final(reader)@ == after_timestamp_digest(old(reader)@),
            match validated_timestamp(old(self).secret(), old(reader)@) {
                Some(timestamp) => result == HandshakeResult::Success && final(self).addresses()
                    == old(self).addresses().insert(*address, timestamp),
                None => result == HandshakeResult::Invalid && final(self).addresses() == old(
                    self).addresses(),
            },
    {
        match self.timestamp_validate(reader) {
            Some(timestamp) => {
                self.address_to_timestamp_map.insert(*address, timestamp);
                HandshakeResult::Success
            },
            None => HandshakeResult::Invalid,
        }
    }

    /// Writes the answer to a request to validate that succeeded.
    pub fn write_validate_response(&self) -> (writer: BitWriter)
        ensures
            writer.wf(),
            writer@ == header_bits(handshake_header(PacketType::ServerValidateResponse)),
    {
        let mut writer = BitWriter::new();
        StandardHeader::new(PacketType::ServerValidateResponse, 0, 0, 0).ser(&mut writer);
        assert(writer@ =~= header_bits(handshake_header(PacketType::ServerValidateResponse)));
        writer
    }

    /// Writes the answer to a client that was accepted.
    pub fn write_connect_response(&self) -> (writer: BitWriter)
        ensures
            writer.wf(),
            writer@ == header_bits(handshake_header(PacketType::ServerConnectResponse)),
    {
        let mut writer = BitWriter::new();
        StandardHeader::new(PacketType::ServerConnectResponse, 0, 0, 0).ser(&mut writer);
        assert(writer@ =~= header_bits(handshake_header(PacketType::ServerConnectResponse)));
        writer
    }

    /// Whether a request to disconnect is honoured for `connection`: it
    /// carries a valid timestamp and digest, and the timestamp is the one
    /// bound to the address of the connection.
    pub fn verify_disconnect_request(&mut self, connection: &Connection, reader: &mut BitReader) -> (honoured:
        bool)
        requires
            old(self).wf(),
            old(reader).wf(),
        ensures
            final(self).wf(),
            final(reader).wf(),
            final(self).secret() == old(self).secret(),
            final(self).addresses() == old(self).addresses(),
            final(self).digests() == old(self).digests(),
            final(self).digest_order() == old(self).digest_order(),
            final(reader)@ == after_timestamp_digest(old(reader)@),
            honoured == disconnect_honoured(
                old(self).secret(),
                old(self).addresses(),
                connection.address(),
                old(reader)@,
            ),
    {
        let address = connection.peer_address();
        if let Some(new_timestamp) = self.timestamp_validate(reader) {
            if let Some(old_timestamp) = self.address_to_timestamp_map.get(&address) {
                if old_timestamp == new_timestamp {
                    return true;
                }
            }
        }
        false
    }

    /// Writes the answer to a client that was refused.
    pub fn write_reject_response(&self) -> (writer: BitWriter)
        ensures
            writer.wf(),
            writer@ == header_bits(handshake_header(PacketType::ServerRejectResponse)),
    {
        let mut writer = BitWriter::new();
        StandardHeader::new(PacketType::ServerRejectResponse, 0, 0, 0).ser(&mut writer);
        assert(writer@ =~= header_bits(handshake_header(PacketType::ServerRejectResponse)));
        writer
    }

    /// Forgets the timestamp bound to `address`.
    pub fn delete_user(&mut self, address: &SocketAddress)
        requires
            old(self).wf(),
        ensures
            final(self).wf(),
            final(self).secret() == old(self).secret(),
            final(self).digests() == old(self).digests(),
            final(self).digest_order() == old(self).digest_order(),
            final(self).addresses() == old(self).addresses().remove(*address),
    {
        self.address_to_timestamp_map.remove(address);
    }

    /// The timestamp bound to `address`, if it has validated.
    pub fn timestamp_of(&self, address: &SocketAddress) -> (timestamp: Option<Timestamp>)
        requires
            self.wf(),
        ensures
            timestamp == if self.addresses().contains_key(*address) {
                Some(self.addresses()[*address])
            } else {
                None
            },
    {
        self.address_to_timestamp_map.get(address)
    }

    /// The number of digests that the server remembers.
    pub fn cached_digests(&self) -> (count: usize)
        requires
            self.wf(),
        ensures
            count == self.digest_order().len(),
    {
        self.timestamp_digest_map.len()
    }

    /// Reads a timestamp and a digest, and gives the timestamp if the
    /// digest is its digest under this server's secret.
    pub fn timestamp_validate(&self, reader: &mut BitReader) -> (timestamp: Option<Timestamp>)
        requires
            self.wf(),
            old(reader).wf(),
        ensures
            final(reader).wf(),
            final(reader)@ == after_timestamp_digest(old(reader)@),
            timestamp == validated_timestamp(self.secret(), old(reader)@),
    {
        let mut attempt = *reader;
        let timestamp = match attempt.read_u64() {
            Ok(timestamp) => timestamp,
            Err(_) => {
                return None;
            },
        };
        let digest_bytes = match attempt.read_bytes() {
            Ok(bytes) => bytes,
            Err(_) => {
                return None;
            },
        };
        *reader = attempt;
        proof {
            let used = parse_byte_string(old(reader)@.skip(64)).unwrap().1;
            assert(reader@ =~= old(reader)@.skip((used + 64) as int));
        }
        if verify_timestamp(
            self.connection_hash_key.as_slice(),
            timestamp,
            digest_bytes.as_slice(),
        ) {
            Some(timestamp)
        } else {
            None
        }
    }
}

/// A request to validate binds a timestamp to the address it came from and
/// to no other: replayed from another address, it leaves what is bound to
/// every other address as it was.
pub proof fn lemma_replay_binds_only_the_replayer(
    addresses: Map<SocketAddress, Timestamp>,
    replayer: SocketAddress,
    timestamp: Timestamp,
    other: SocketAddress,
)
    requires
        other != replayer,
    ensures
        addresses.insert(replayer, timestamp).contains_key(other) == addresses.contains_key(other),
        addresses.contains_key(other) ==> addresses.insert(replayer, timestamp)[other]
            == addresses[other],
{
}

/// A request to disconnect is never honoured for a connection whose
/// address has no timestamp bound to it, nor for one whose address is
/// bound to another timestamp than the request carries, however valid the
/// request's digest is.
pub proof fn lemma_stolen_digest_cannot_disconnect(
    secret: Seq<u8>,
    addresses: Map<SocketAddress, Timestamp>,
    victim: SocketAddress,
    bits: Seq<bool>,
)
    requires
        !addresses.contains_key(victim) || validated_timestamp(secret, bits) != Some(
            addresses[victim],
        ),
    ensures
        !disconnect_honoured(secret, addresses, victim, bits),
{
}

} // verus!
