//! Messages, and how a message is laid out on the wire.
//!
//! A message is an envelope: the id of its kind, its payload as bytes, and
//! the handles of the entities that the payload refers to. On the wire it
//! is the kind, the length of the payload and the payload; a message of a
//! reliable channel is preceded by its 16-bit index. Which entities a
//! payload refers to follows from the registry of message kinds.

use crate::bit_reader::{BitReader, DecodeError};
use crate::bit_writer::BitWriter;
use crate::bits::{bits_value, uint_bits};
use crate::encoding::{
    byte_string_bits, lemma_byte_string_round_trip, lemma_varint_groups_used,
    lemma_varint_round_trip, parse_byte_string, parse_varint, varint_bits, Decoded,
};
use vstd::prelude::*;

verus! {

/// The id of a kind of message.
pub type MessageKind = u64;

/// The handle by which a peer names an entity.
pub type EntityHandle = u16;

/// The index of a message in its channel; it wraps at 16 bits.
pub type MessageIndex = u16;

/// A message, as mathematics sees it.
pub struct MessageView {
    /// The id of the kind of the message.
    pub kind: MessageKind,
    /// The payload.
    pub payload: Seq<u8>,
    /// The handles of the entities that the payload refers to.
    pub entities: Seq<EntityHandle>,
}

/// A message.
#[derive(Clone, PartialEq, Eq, Debug)]
pub struct MessageContainer {
    kind: MessageKind,
    payload: Vec<u8>,
    entities: Vec<EntityHandle>,
}

impl View for MessageContainer {
    type V = MessageView;

    closed spec fn view(&self) -> MessageView {
        MessageView { kind: self.kind, payload: self.payload@, entities: self.entities@ }
    }
}

/// The messages that a list of containers holds.
pub open spec fn message_views(messages: Seq<MessageContainer>) -> Seq<MessageView> {
    messages.map_values(|m: MessageContainer| m@)
}

/// The registry of message kinds. The id of a kind is its place in the
/// registry. Of each kind the registry knows how many entities a message
/// of the kind refers to: the payload of such a message begins with the
/// handles of these entities, two bytes each in little-endian order.
pub struct MessageKinds {
    entity_slots: Vec<u8>,
}

impl View for MessageKinds {
    type V = Seq<u8>;

    closed spec fn view(&self) -> Seq<u8> {
        self.entity_slots@
    }
}

/// The handle that stands at place `i` at the beginning of a payload.
pub open spec fn handle_at(payload: Seq<u8>, i: int) -> EntityHandle {
    (payload[2 * i] + 256 * payload[2 * i + 1]) as EntityHandle
}

impl MessageKinds {
    /// The handles of the entities that a payload of a kind refers to;
    /// `None` for a kind that the registry does not hold, and for a
    /// payload that is too short for its handles.
    pub open spec fn relations(&self, kind: MessageKind, payload: Seq<u8>) -> Option<Seq<EntityHandle>> {
        if kind >= self@.len() {
            None
        } else if payload.len() < 2 * self@[kind as int] {
            None
        } else {
            Some(Seq::new(self@[kind as int] as nat, |i: int| handle_at(payload, i)))
        }
    }

    /// A registry without kinds.
    pub fn new() -> (kinds: Self)
        ensures
            kinds@ == Seq::<u8>::empty(),
    {
        MessageKinds { entity_slots: Vec::new() }
    }

    /// A registry of `count` kinds whose messages refer to no entity.
    pub fn plain(count: usize) -> (kinds: Self)
        ensures
            kinds@ == Seq::new(count as nat, |i: int| 0u8),
    {
        let mut entity_slots: Vec<u8> = Vec::new();
        let mut i: usize = 0;
        while i < count
            invariant
                i <= count,
                entity_slots@ == Seq::new(i as nat, |i: int| 0u8),
            decreases count - i,
        {
            entity_slots.push(0);
            assert(entity_slots@ =~= Seq::new((i + 1) as nat, |i: int| 0u8));
            i += 1;
        }
        MessageKinds { entity_slots }
    }

    /// Adds a kind whose messages refer to `entity_slots` entities, and
    /// gives its id.
    pub fn add_kind(&mut self, entity_slots: u8) -> (kind: MessageKind)
        ensures
            final(self)@ == old(self)@.push(entity_slots),
            kind == old(self)@.len(),
    {
        let kind = self.entity_slots.len() as u64;
        self.entity_slots.push(entity_slots);
        kind
    }

    /// The handles of the entities that a payload of a kind refers to;
    /// `None` for a kind that the registry does not hold, and for a
    /// payload that is too short for its handles.
    pub fn entity_relations(&self, kind: MessageKind, payload: &Vec<u8>) -> (found: Option<
        Vec<EntityHandle>,
    >)
        ensures
            match found {
                Some(entities) => self.relations(kind, payload@) == Some(entities@),
                None => self.relations(kind, payload@) is None,
            },
    {
        if kind >= self.entity_slots.len() as u64 {
            return None;
        }
        let slots = self.entity_slots[kind as usize] as usize;
        if payload.len() < 2 * slots {
            return None;
        }
        let mut entities: Vec<EntityHandle> = Vec::new();
        let mut i: usize = 0;
        while i < slots
            invariant
                i <= slots <= 255,
                2 * slots <= payload@.len(),
                entities@ == Seq::new(i as nat, |k: int| handle_at(payload@, k)),
            decreases slots - i,
        {
            let low = payload[2 * i] as u16;
            let high = payload[2 * i + 1] as u16;
            entities.push(low + 256 * high);
            assert(entities@ =~= Seq::new((i + 1) as nat, |k: int| handle_at(payload@, k)));
            i += 1;
        }
        Some(entities)
    }
}

/// The bits of a message: its kind, then its payload with the length in
/// front.
pub open spec fn message_bits(message: MessageView) -> Seq<bool> {
    varint_bits(message.kind as nat) + byte_string_bits(message.payload)
}

/// The bits of a message of a reliable channel: its index, then the
/// message.
pub open spec fn indexed_message_bits(index: MessageIndex, message: MessageView) -> Seq<bool> {
    uint_bits(index as nat, 16) + message_bits(message)
}

/// Decodes a message. A kind that the registry does not know makes the
/// input malformed.
pub open spec fn parse_message(kinds: &MessageKinds, bits: Seq<bool>) -> Decoded<MessageView> {
    match parse_varint(bits) {
        Err(error) => Err(error),
        Ok((kind, used)) => match parse_byte_string(bits.skip(used as int)) {
            Err(error) => Err(error),
            Ok((payload, more)) => match kinds.relations(kind, payload) {
                None => Err(DecodeError::Malformed),
                Some(entities) => Ok((MessageView { kind, payload, entities }, used + more)),
            },
        },
    }
}

/// Decodes a message of a reliable channel.
pub open spec fn parse_indexed_message(kinds: &MessageKinds, bits: Seq<bool>) -> Decoded<
    (MessageIndex, MessageView),
> {
    if bits.len() < 16 {
        Err(DecodeError::Truncated)
    } else {
        match parse_message(kinds, bits.skip(16)) {
            Err(error) => Err(error),
            Ok((message, used)) => Ok(
                ((bits_value(bits.take(16)) as MessageIndex, message), used + 16),
            ),
        }
    }
}

impl MessageContainer {
    /// A message of the given kind with the given payload, which refers
    /// to the given entities.
    pub fn new(kind: MessageKind, payload: Vec<u8>, entities: Vec<EntityHandle>) -> (message: Self)
        ensures
            message@ == (MessageView { kind, payload: payload@, entities: entities@ }),
    {
        MessageContainer { kind, payload, entities }
    }

    /// The id of the kind of the message.
    pub fn kind(&self) -> (kind: MessageKind)
        ensures
            kind == self@.kind,
    {
        self.kind
    }

    /// The payload.
    pub fn payload(&self) -> (payload: &Vec<u8>)
        ensures
            payload@ == self@.payload,
    {
        &self.payload
    }

    /// The handles of the entities that the payload refers to.
    pub fn entities(&self) -> (entities: &Vec<EntityHandle>)
        ensures
            entities@ == self@.entities,
    {
        &self.entities
    }

    /// Writes the message.
    pub fn write(&self, writer: &mut BitWriter)
        requires
            old(writer).wf(),
        ensures
            final(writer).wf(),
            final(writer)@ == old(writer)@ + message_bits(self@),
    {
        writer.write_varint(self.kind);
        writer.write_bytes(self.payload.as_slice());
        assert(writer@ =~= old(writer)@ + message_bits(self@));
    }

    /// The number of bits that the message takes on the wire, or `None`
    /// if that number does not fit in 64 bits.
    pub fn bit_length(&self) -> (length: Option<u64>)
        ensures
            match length {
                Some(n) => n == message_bits(self@).len(),
                None => message_bits(self@).len() > u64::MAX,
            },
    {
        let kind_bits = varint_bit_length(self.kind);
        let length_bits = varint_bit_length(self.payload.len() as u64);
        let payload_len = self.payload.len() as u64;
        let payload_bits = match payload_len.checked_mul(8) {
            Some(n) => n,
            None => {
                return None;
            },
        };
        let head = kind_bits + length_bits;
        head.checked_add(payload_bits)
    }

    /// Reads a message. Fails, and reads nothing, where the input ends
    /// within the message, where it is malformed, and where the registry
    /// does not know its kind.
    pub fn read(kinds: &MessageKinds, reader: &mut BitReader) -> (message: Result<
        MessageContainer,
        DecodeError,
    >)
        requires
            old(reader).wf(),
        ensures
            final(reader).wf(),
            match parse_message(kinds, old(reader)@) {
                Ok((m, used)) => message matches Ok(read) && read@ == m && final(reader)@ == old(
                    reader)@.skip(used as int),
                Err(error) => message matches Err(e) && e == error && final(reader)@ == old(
                    reader)@,
            },
    {
        let mut attempt = *reader;
        let kind = match attempt.read_varint() {
            Ok(kind) => kind,
            Err(error) => {
                return Err(error);
            },
        };
        let ghost used = parse_varint(old(reader)@).unwrap().1;
        let payload = match attempt.read_bytes() {
            Ok(payload) => payload,
            Err(error) => {
                return Err(error);
            },
        };
        let entities = match kinds.entity_relations(kind, &payload) {
            Some(entities) => entities,
            None => {
                return Err(DecodeError::Malformed);
            },
        };
        proof {
            let more = parse_byte_string(old(reader)@.skip(used as int)).unwrap().1;
            lemma_varint_groups_used(old(reader)@, 10);
            assert(attempt@ =~= old(reader)@.skip((used + more) as int));
        }
        *reader = attempt;
        Ok(MessageContainer { kind, payload, entities })
    }
}

/// The number of bits that a number of variable length takes.
pub fn varint_bit_length(value: u64) -> (length: u64)
    ensures
        length == varint_bits(value as nat).len(),
        8 <= length <= 80,
{
    let mut rest: u64 = value;
    let mut length: u64 = 8;
    let mut groups: u64 = 1;
    proof {
        vstd::arithmetic::power2::lemma2_to64();
        vstd::arithmetic::power2::lemma2_to64_rest();
    }
    while rest >= 128
        invariant
            1 <= groups <= 10,
            length == 8 * groups,
            groups < 10 ==> rest < vstd::arithmetic::power2::pow2((64 - 7 * (groups - 1)) as nat),
            groups == 10 ==> rest < 2,
            varint_bits(value as nat).len() + 8 == varint_bits(rest as nat).len() + length,
        decreases rest,
    {
        proof {
            vstd::arithmetic::power2::lemma2_to64();
            vstd::arithmetic::power2::lemma2_to64_rest();
            vstd::arithmetic::power2::lemma_pow2_adds(7, (64 - 7 * groups) as nat);
        }
        rest = rest / 128;
        length = length + 8;
        groups = groups + 1;
    }
    length
}

/// Reading a message gives back the message that was written, whatever
/// follows it, where the registry knows its kind and the entities that
/// its payload refers to.
pub proof fn lemma_message_round_trip(kinds: &MessageKinds, message: MessageView, rest: Seq<bool>)
    requires
        message.payload.len() <= u64::MAX,
        kinds.relations(message.kind, message.payload) == Some(message.entities),
    ensures
        parse_message(kinds, message_bits(message) + rest) == Ok::<(MessageView, nat), DecodeError>(
            (message, message_bits(message).len()),
        ),
{
    let bits = message_bits(message) + rest;
    let head = varint_bits(message.kind as nat);
    let body = byte_string_bits(message.payload);
    assert(bits =~= head + (body + rest));
    lemma_varint_round_trip(message.kind, body + rest);
    assert(bits.skip(head.len() as int) =~= body + rest);
    lemma_byte_string_round_trip(message.payload, rest);
}

/// Decoding a message takes at least one bit and no more bits than there
/// are.
pub proof fn lemma_parse_message_used(kinds: &MessageKinds, bits: Seq<bool>)
    ensures
        parse_message(kinds, bits) matches Ok((message, used)) ==> 16 <= used <= bits.len(),
{
    lemma_varint_groups_used(bits, 10);
    if let Ok((kind, used)) = parse_varint(bits) {
        lemma_varint_groups_used(bits.skip(used as int), 10);
    }
}

} // verus!
