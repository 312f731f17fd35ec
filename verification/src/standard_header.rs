//! The header that every datagram begins with.
//!
//! It takes nine bytes: the kind of the datagram, the sender's index of
//! this datagram, the index of the last datagram that the sender received,
//! and 32 bits that say which of the 32 datagrams before that one it
//! received as well.

use crate::bit_reader::{BitReader, DecodeError};
use crate::bit_writer::BitWriter;
use crate::bits::{bits_value, lemma_uint_round_trip, uint_bits};
use crate::encoding::Decoded;
use crate::packet_type::PacketType;
use vstd::arithmetic::power2::lemma2_to64;
use vstd::prelude::*;

verus! {

/// The header of a datagram.
#[derive(Clone, Copy, PartialEq, Eq, Debug, Structural)]
pub struct StandardHeader {
    /// What the datagram is for.
    pub packet_type: PacketType,
    /// The sender's index of this datagram.
    pub sender_packet_index: u16,
    /// The index of the last datagram that the sender received.
    pub sender_ack_index: u16,
    /// Bit `k` says that the sender received the datagram `k + 1` before
    /// the last one.
    pub sender_ack_bitfield: u32,
}

/// The number of bits of a header.
pub open spec fn header_len() -> nat {
    72
}

/// The bits of a header.
pub open spec fn header_bits(header: StandardHeader) -> Seq<bool> {
    uint_bits(header.packet_type.tag() as nat, 8) + uint_bits(
        header.sender_packet_index as nat,
        16,
    ) + uint_bits(header.sender_ack_index as nat, 16) + uint_bits(
        header.sender_ack_bitfield as nat,
        32,
    )
}

/// Decodes a header. The kind is looked at first: a byte that names no
/// kind makes the input malformed, however much of it there is.
pub open spec fn parse_header(bits: Seq<bool>) -> Decoded<StandardHeader> {
    if bits.len() < 8 {
        Err(DecodeError::Truncated)
    } else {
        match PacketType::from_tag(bits_value(bits.take(8)) as u8) {
            None => Err(DecodeError::Malformed),
            Some(packet_type) => if bits.len() < 72 {
                Err(DecodeError::Truncated)
            } else {
                Ok(
                    (
                        StandardHeader {
                            packet_type,
                            sender_packet_index: bits_value(bits.subrange(8, 24)) as u16,
                            sender_ack_index: bits_value(bits.subrange(24, 40)) as u16,
                            sender_ack_bitfield: bits_value(bits.subrange(40, 72)) as u32,
                        },
                        72,
                    ),
                )
            },
        }
    }
}

impl StandardHeader {
    /// A header with the given fields.
    pub fn new(
        packet_type: PacketType,
        sender_packet_index: u16,
        sender_ack_index: u16,
        sender_ack_bitfield: u32,
    ) -> (header: Self)
        ensures
            header == (StandardHeader {
                packet_type,
                sender_packet_index,
                sender_ack_index,
                sender_ack_bitfield,
            }),
    {
        StandardHeader { packet_type, sender_packet_index, sender_ack_index, sender_ack_bitfield }
    }

    /// Writes the header.
    pub fn ser(&self, writer: &mut BitWriter)
        requires
            old(writer).wf(),
        ensures
            final(writer).wf(),
            final(writer)@ == old(writer)@ + header_bits(*self),
    {
        writer.write_u8(self.packet_type.to_u8());
        writer.write_u16(self.sender_packet_index);
        writer.write_u16(self.sender_ack_index);
        writer.write_u32(self.sender_ack_bitfield);
        assert(writer@ =~= old(writer)@ + header_bits(*self));
    }

    /// Reads a header. Fails, and reads nothing, where the input ends
    /// within the header and where its first byte names no kind.
    pub fn de(reader: &mut BitReader) -> (header: Result<StandardHeader, DecodeError>)
        requires
            old(reader).wf(),
        ensures
            final(reader).wf(),
            final(reader).buffer() == old(reader).buffer(),
            match parse_header(old(reader)@) {
                Ok((h, used)) => header == Ok::<StandardHeader, DecodeError>(h) && final(reader)@
                    == old(reader)@.skip(used as int),
                Err(error) => header == Err::<StandardHeader, DecodeError>(error) && final(reader)@
                    == old(reader)@,
            },
    {
        let ghost bits = reader@;
        let mut attempt = *reader;
        let tag = match attempt.read_u8() {
            Ok(tag) => tag,
            Err(error) => {
                return Err(error);
            },
        };
        let packet_type = match PacketType::from_u8(tag) {
            Some(packet_type) => packet_type,
            None => {
                return Err(DecodeError::Malformed);
            },
        };
        let sender_packet_index = match attempt.read_u16() {
            Ok(index) => index,
            Err(error) => {
                return Err(error);
            },
        };
        assert(bits.skip(8).take(16) =~= bits.subrange(8, 24));
        assert(attempt@ =~= bits.skip(24));
        let sender_ack_index = match attempt.read_u16() {
            Ok(index) => index,
            Err(error) => {
                return Err(error);
            },
        };
        assert(bits.skip(24).take(16) =~= bits.subrange(24, 40));
        assert(attempt@ =~= bits.skip(40));
        let sender_ack_bitfield = match attempt.read_u32() {
            Ok(field) => field,
            Err(error) => {
                return Err(error);
            },
        };
        assert(bits.skip(40).take(32) =~= bits.subrange(40, 72));
        assert(attempt@ =~= bits.skip(72));
        *reader = attempt;
        Ok(StandardHeader { packet_type, sender_packet_index, sender_ack_index, sender_ack_bitfield })
    }
}

/// Reading a header gives back the header that was written, whatever
/// follows it.
pub proof fn lemma_header_round_trip(header: StandardHeader, rest: Seq<bool>)
    ensures
        parse_header(header_bits(header) + rest) == Ok::<(StandardHeader, nat), DecodeError>(
            (header, 72),
        ),
{
    let bits = header_bits(header) + rest;
    lemma2_to64();
    assert(bits.take(8) =~= uint_bits(header.packet_type.tag() as nat, 8));
    lemma_uint_round_trip(header.packet_type.tag() as nat, 8);
    assert(bits.subrange(8, 24) =~= uint_bits(header.sender_packet_index as nat, 16));
    lemma_uint_round_trip(header.sender_packet_index as nat, 16);
    assert(bits.subrange(24, 40) =~= uint_bits(header.sender_ack_index as nat, 16));
    lemma_uint_round_trip(header.sender_ack_index as nat, 16);
    assert(bits.subrange(40, 72) =~= uint_bits(header.sender_ack_bitfield as nat, 32));
    lemma_uint_round_trip(header.sender_ack_bitfield as nat, 32);
}

} // verus!
