//! The receiving end of an unordered, unreliable channel.
//!
//! Messages are delivered in the order in which they arrive, each as often
//! as it arrives: nothing is reordered, retried or left out as a
//! duplicate. A message that refers to an entity which is not in scope
//! waits until it is.

use crate::bit_reader::{BitReader, DecodeError};
use crate::entity_waitlist::{blocked_messages, is_ready, ready_messages, EntityWaitlist};
use crate::chunk::{chunk_bits, lemma_run_bits_first, plain_items};
use crate::message::{
    lemma_message_round_trip, message_bits, message_views, parse_message, EntityHandle,
    MessageContainer, MessageKinds, MessageView,
};
use std::collections::VecDeque;
use vstd::prelude::*;

verus! {

/// What a receiver holds, as mathematics sees it.
pub struct ReceiverView {
    /// The messages that can be delivered, in the order of their arrival.
    pub incoming: Seq<MessageView>,
    /// The messages that wait for an entity, in the order of their
    /// arrival.
    pub waiting: Seq<MessageView>,
}

/// The receiving end of an unordered, unreliable channel.
pub struct UnorderedUnreliableReceiver {
    incoming_messages: Vec<MessageContainer>,
    waiting_messages: VecDeque<MessageContainer>,
}

/// What a receiver holds after a message has arrived.
pub open spec fn after_message(state: ReceiverView, scope: Set<EntityHandle>, message: MessageView) -> ReceiverView {
    if is_ready(scope, message) {
        ReceiverView { incoming: state.incoming.push(message), waiting: state.waiting }
    } else {
        ReceiverView { incoming: state.incoming, waiting: state.waiting.push(message) }
    }
}

/// What a receiver holds after messages have arrived one after the other.
pub open spec fn after_messages(state: ReceiverView, scope: Set<EntityHandle>, messages: Seq<MessageView>) -> ReceiverView
    decreases messages.len(),
{
    if messages.len() == 0 {
        state
    } else {
        after_message(after_messages(state, scope, messages.drop_last()), scope, messages.last())
    }
}

/// What reading the messages of one channel from a datagram gives.
pub struct ChunkParse {
    /// The messages that were read, in order.
    pub messages: Seq<MessageView>,
    /// The number of bits that were read.
    pub used: nat,
    /// Why reading stopped before the end of the run, if it did.
    pub error: Option<DecodeError>,
}

/// Decodes the messages of one channel: each message is preceded by a bit
/// that is set, and a bit that is clear ends the run. Reading stops at the
/// first thing that cannot be decoded; the messages before it stand.
#[verifier::opaque]
pub open spec fn parse_chunk(kinds: &MessageKinds, bits: Seq<bool>) -> ChunkParse
    decreases bits.len(),
{
    if bits.len() == 0 {
        ChunkParse { messages: Seq::empty(), used: 0, error: Some(DecodeError::Truncated) }
    } else if !bits[0] {
        ChunkParse { messages: Seq::empty(), used: 1, error: None }
    } else {
        match parse_message(kinds, bits.skip(1)) {
            Err(error) => ChunkParse { messages: Seq::empty(), used: 1, error: Some(error) },
            Ok((message, used)) => if used >= bits.len() {
                ChunkParse { messages: seq![message], used: 1 + used, error: Some(DecodeError::Truncated) }
            } else {
                let rest = parse_chunk(kinds, bits.skip((1 + used) as int));
                ChunkParse {
                    messages: seq![message] + rest.messages,
                    used: 1 + used + rest.used,
                    error: rest.error,
                }
            },
        }
    }
}

/// The outcome of decoding a run of which `messages` were read from the
/// first `used` bits, from the outcome of decoding the rest of it.
pub open spec fn chunk_after(messages: Seq<MessageView>, used: nat, rest: ChunkParse) -> ChunkParse {
    ChunkParse {
        messages: messages + rest.messages,
        used: used + rest.used,
        error: rest.error,
    }
}

impl View for UnorderedUnreliableReceiver {
    type V = ReceiverView;

    closed spec fn view(&self) -> ReceiverView {
        ReceiverView {
            incoming: message_views(self.incoming_messages@),
            waiting: message_views(self.waiting_messages@),
        }
    }
}

impl UnorderedUnreliableReceiver {
    /// A receiver that holds no message.
    pub fn new() -> (receiver: Self)
        ensures
            receiver@ == (ReceiverView { incoming: Seq::empty(), waiting: Seq::empty() }),
    {
        let receiver = UnorderedUnreliableReceiver {
            incoming_messages: Vec::new(),
            waiting_messages: VecDeque::new(),
        };
        assert(receiver@.incoming =~= Seq::empty());
        assert(receiver@.waiting =~= Seq::empty());
        receiver
    }

    /// Reads one message.
    pub fn read_message(&mut self, message_kinds: &MessageKinds, reader: &mut BitReader) -> (message:
        Result<MessageContainer, DecodeError>)
        requires
            old(reader).wf(),
        ensures
            final(self)@ == old(self)@,
            final(reader).wf(),
            match parse_message(message_kinds, old(reader)@) {
                Ok((m, used)) => message matches Ok(read) && read@ == m && final(reader)@ == old(
                    reader)@.skip(used as int),
                Err(error) => message matches Err(e) && e == error && final(reader)@ == old(
                    reader)@,
            },
    {
        MessageContainer::read(message_kinds, reader)
    }

    /// Takes a message that has arrived. It joins the messages to deliver
    /// if every entity that it refers to is in scope, and waits otherwise.
    pub fn recv_message(&mut self, entity_waitlist: &mut EntityWaitlist, message: MessageContainer)
        ensures
            final(entity_waitlist)@ == old(entity_waitlist)@,
            final(self)@ == after_message(old(self)@, old(entity_waitlist)@, message@),
    {
        if entity_waitlist.message_ready(&message) {
            self.incoming_messages.push(message);
            assert(self@.incoming =~= old(self)@.incoming.push(message@));
        } else {
            self.waiting_messages.push_back(message);
            assert(self@.waiting =~= old(self)@.waiting.push(message@));
        }
    }

    /// Hands over the messages that can be delivered: those that were
    /// ready when they arrived, then those that waited and whose entities
    /// are now all in scope, each group in the order of arrival. The
    /// messages that still wait stay.
    pub fn receive_messages(&mut self, entity_waitlist: &mut EntityWaitlist) -> (delivered: Vec<
        MessageContainer,
    >)
        ensures
            final(entity_waitlist)@ == old(entity_waitlist)@,
            message_views(delivered@) == old(self)@.incoming + ready_messages(
                old(entity_waitlist)@,
                old(self)@.waiting,
            ),
            final(self)@.incoming == Seq::<MessageView>::empty(),
            final(self)@.waiting == blocked_messages(old(entity_waitlist)@, old(self)@.waiting),
    {
        let mut delivered: Vec<MessageContainer> = Vec::new();
        std::mem::swap(&mut self.incoming_messages, &mut delivered);
        let mut waited: VecDeque<MessageContainer> = VecDeque::new();
        std::mem::swap(&mut self.waiting_messages, &mut waited);
        let ghost scope = entity_waitlist@;
        let ghost all = message_views(waited@);
        let ghost first = old(self)@.incoming;
        let mut still: VecDeque<MessageContainer> = VecDeque::new();
        let mut i: usize = 0;
        let count = waited.len();
        assert(message_views(delivered@) =~= first + ready_messages(scope, all.take(0)));
        assert(message_views(still@) =~= blocked_messages(scope, all.take(0)));
        while i < count
            invariant
                i <= count,
                count == all.len(),
                scope == entity_waitlist@,
                waited@.len() == count - i,
                message_views(waited@) == all.skip(i as int),
                message_views(delivered@) == first + ready_messages(scope, all.take(i as int)),
                message_views(still@) == blocked_messages(scope, all.take(i as int)),
            decreases count - i,
        {
            let ghost before_delivered = message_views(delivered@);
            let ghost before_still = message_views(still@);
            let ghost queue = waited@;
            assert(message_views(queue)[0] == queue[0]@);
            let message = waited.pop_front().unwrap();
            proof {
                assert(message@ == all[i as int]);
                assert(all.take(i + 1).drop_last() =~= all.take(i as int));
                assert(all.take(i + 1).last() == all[i as int]);
                assert(waited@ =~= queue.skip(1));
                assert(message_views(waited@) =~= message_views(queue).skip(1));
                assert(all.skip(i as int).skip(1) =~= all.skip(i + 1));
            }
            if entity_waitlist.message_ready(&message) {
                delivered.push(message);
                assert(message_views(delivered@) =~= before_delivered.push(all[i as int]));
            } else {
                still.push_back(message);
                assert(message_views(still@) =~= before_still.push(all[i as int]));
            }
            i += 1;
        }
        assert(all.take(count as int) =~= all);
        self.waiting_messages = still;
        assert(self@.incoming =~= Seq::<MessageView>::empty());
        delivered
    }

    /// Reads the messages of this channel from a datagram and takes each
    /// as it is read. Reading stops at the first thing that cannot be
    /// decoded: the messages before it have arrived, and the failure is
    /// handed back.
    pub fn read_messages(
        &mut self,
        message_kinds: &MessageKinds,
        entity_waitlist: &mut EntityWaitlist,
        reader: &mut BitReader,
    ) -> (outcome: Result<(), DecodeError>)
        requires
            old(reader).wf(),
        ensures
            final(reader).wf(),
            final(entity_waitlist)@ == old(entity_waitlist)@,
            final(self)@ == after_messages(
                old(self)@,
                old(entity_waitlist)@,
                parse_chunk(message_kinds, old(reader)@).messages,
            ),
            final(reader)@ == old(reader)@.skip(parse_chunk(message_kinds, old(reader)@).used as int),
            match parse_chunk(message_kinds, old(reader)@).error {
                None => outcome is Ok,
                Some(error) => outcome == Err::<(), DecodeError>(error),
            },
    {
        let ghost whole = parse_chunk(message_kinds, old(reader)@);
        let ghost scope = entity_waitlist@;
        let ghost mut taken: Seq<MessageView> = Seq::empty();
        let ghost mut used: nat = 0;
        proof {
            assert(reader@ =~= old(reader)@.skip(0));
            assert(whole.messages =~= taken + whole.messages);
        }
        loop
            invariant
                reader.wf(),
                scope == entity_waitlist@,
                scope == old(entity_waitlist)@,
                whole == parse_chunk(message_kinds, old(reader)@),
                used <= old(reader)@.len(),
                reader@ == old(reader)@.skip(used as int),
                whole == chunk_after(taken, used, parse_chunk(message_kinds, reader@)),
                self@ == after_messages(old(self)@, scope, taken),
            decreases reader@.len(),
        {
            let ghost cur = reader@;
            proof {
                lemma_chunk_step(message_kinds, cur);
            }
            let channel_continue = match reader.read_bool() {
                Ok(flag) => flag,
                Err(error) => {
                    proof {
                        assert(whole.messages =~= taken);
                    }
                    return Err(error);
                },
            };
            if !channel_continue {
                proof {
                    assert(whole.messages =~= taken);
                    assert(reader@ =~= old(reader)@.skip((used + 1) as int));
                }
                return Ok(());
            }
            let message = match self.read_message(message_kinds, reader) {
                Ok(message) => message,
                Err(error) => {
                    proof {
                        assert(whole.messages =~= taken);
                        assert(reader@ =~= old(reader)@.skip((used + 1) as int));
                    }
                    return Err(error);
                },
            };
            let ghost size = parse_message(message_kinds, cur.skip(1)).unwrap().1;
            self.recv_message(entity_waitlist, message);
            proof {
                let next = taken.push(message@);
                assert(next.drop_last() =~= taken);
                assert(reader@ =~= cur.skip((1 + size) as int));
                assert(reader@ =~= old(reader)@.skip((used + 1 + size) as int));
                assert(whole.messages =~= next + parse_chunk(message_kinds, reader@).messages);
                taken = next;
                used = used + 1 + size;
            }
        }
    }
}

/// What decoding a run gives, by its first bit and the message after it.
pub proof fn lemma_chunk_step(kinds: &MessageKinds, bits: Seq<bool>)
    ensures
        bits.len() == 0 ==> parse_chunk(kinds, bits) == (ChunkParse {
            messages: Seq::empty(),
            used: 0,
            error: Some(DecodeError::Truncated),
        }),
        bits.len() > 0 && !bits[0] ==> parse_chunk(kinds, bits) == (ChunkParse {
            messages: Seq::empty(),
            used: 1,
            error: None,
        }),
        bits.len() > 0 && bits[0] ==> match parse_message(kinds, bits.skip(1)) {
            Err(error) => parse_chunk(kinds, bits) == (ChunkParse {
                messages: Seq::empty(),
                used: 1,
                error: Some(error),
            }),
            Ok((message, used)) => 1 + used <= bits.len() && parse_chunk(kinds, bits)
                == chunk_after(
                seq![message],
                1 + used,
                parse_chunk(kinds, bits.skip((1 + used) as int)),
            ),
        },
{
    reveal_with_fuel(parse_chunk, 2);
    if bits.len() > 0 && bits[0] {
        crate::message::lemma_parse_message_used(kinds, bits.skip(1));
        if let Ok((message, used)) = parse_message(kinds, bits.skip(1)) {
            if used >= bits.len() {
                assert(bits.skip((1 + used) as int).len() == 0);
                assert(seq![message] + Seq::<MessageView>::empty() =~= seq![message]);
            }
        }
    }
}

/// Messages that can be delivered when they arrive are all kept, in the
/// order of their arrival and as often as they arrive: none is left out
/// because an equal one came before.
pub proof fn lemma_arrivals_are_kept(state: ReceiverView, scope: Set<EntityHandle>, messages: Seq<MessageView>)
    requires
        forall|i: int| 0 <= i < messages.len() ==> is_ready(scope, #[trigger] messages[i]),
    ensures
        after_messages(state, scope, messages).incoming == state.incoming + messages,
        after_messages(state, scope, messages).waiting == state.waiting,
    decreases messages.len(),
{
    if messages.len() == 0 {
        assert(state.incoming + messages =~= state.incoming);
    } else {
        let front = messages.drop_last();
        assert forall|i: int| 0 <= i < front.len() implies is_ready(scope, #[trigger] front[i]) by {
            assert(front[i] == messages[i]);
        }
        lemma_arrivals_are_kept(state, scope, front);
        assert(is_ready(scope, messages[messages.len() - 1]));
        assert((state.incoming + front).push(messages.last()) =~= state.incoming + messages);
    }
}

/// Decoding a run takes no more bits than there are.
pub proof fn lemma_chunk_used(kinds: &MessageKinds, bits: Seq<bool>)
    ensures
        parse_chunk(kinds, bits).used <= bits.len(),
        parse_chunk(kinds, bits).error is None ==> parse_chunk(kinds, bits).used >= 1,
    decreases bits.len(),
{
    lemma_chunk_step(kinds, bits);
    if bits.len() > 0 && bits[0] {
        if let Ok((message, used)) = parse_message(kinds, bits.skip(1)) {
            lemma_chunk_used(kinds, bits.skip((1 + used) as int));
        }
    }
}

/// Whether the registry holds the kind of every message, and knows of
/// each the entities that the message refers to.
pub open spec fn all_known(kinds: &MessageKinds, messages: Seq<MessageView>) -> bool {
    forall|i: int|
        0 <= i < messages.len() ==> (#[trigger] messages[i]).payload.len() <= u64::MAX
            && kinds.relations(messages[i].kind, messages[i].payload) == Some(messages[i].entities)
}

/// What an unreliable sender writes into a datagram, the receiver reads
/// out of it: reading a run gives back the messages that were written, in
/// order and to the end of the run, whatever follows it.
pub proof fn lemma_chunk_round_trip(kinds: &MessageKinds, messages: Seq<MessageView>, rest: Seq<bool>)
    requires
        all_known(kinds, messages),
    ensures
        parse_chunk(kinds, chunk_bits(plain_items(messages)) + rest) == (ChunkParse {
            messages,
            used: chunk_bits(plain_items(messages)).len(),
            error: None,
        }),
    decreases messages.len(),
{
    let wire = plain_items(messages);
    let bits = chunk_bits(wire) + rest;
    lemma_chunk_step(kinds, bits);
    if messages.len() == 0 {
        assert(wire =~= Seq::empty());
        assert(bits[0] == false);
        assert(messages =~= Seq::empty());
    } else {
        let first = messages[0];
        let tail = messages.skip(1);
        let tail_wire = plain_items(tail);
        let piece = message_bits(first);
        let after = chunk_bits(tail_wire) + rest;
        assert(tail_wire =~= wire.skip(1));
        assert(bits == seq![true] + (piece + after)) by {
            lemma_run_bits_first(wire);
            assert(bits =~= seq![true] + (piece + after));
        }
        assert(bits.skip(1) == piece + after) by {
            assert(bits.skip(1) =~= piece + after);
        }
        assert(parse_message(kinds, piece + after) == Ok::<(MessageView, nat), DecodeError>(
            (first, piece.len()),
        )) by {
            lemma_message_round_trip(kinds, first, after);
        }
        assert(bits.skip((1 + piece.len()) as int) == after) by {
            assert(bits.skip((1 + piece.len()) as int) =~= after);
        }
        assert(all_known(kinds, tail)) by {
            assert forall|i: int| 0 <= i < tail.len() implies (#[trigger] tail[i]).payload.len()
                <= u64::MAX && kinds.relations(tail[i].kind, tail[i].payload) == Some(
                tail[i].entities,
            ) by {
                assert(tail[i] == messages[i + 1]);
            }
        }
        lemma_chunk_round_trip(kinds, tail, rest);
        assert(seq![first] + tail =~= messages);
        assert(chunk_bits(wire).len() == 1 + piece.len() + chunk_bits(tail_wire).len()) by {
            lemma_run_bits_first(wire);
        }
    }
}

} // verus!
