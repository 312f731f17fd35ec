//! The channels of one connection, and the part of a datagram that holds
//! their messages.
//!
//! After its header a datagram holds the runs of the channels that had
//! something to send, each preceded by the number of its channel. The
//! writer fills the datagram up to a budget of bits; it begins with
//! another channel each time, so that no channel is kept waiting by the
//! others.

use crate::bit_reader::{BitReader, DecodeError};
use crate::bit_writer::BitWriter;
use crate::channel::{
    after_collect, after_delivery, after_receive, after_run, has_work, sender_write, ChannelMode,
    ChannelReceiver, ChannelReceiverView, ChannelSender, ChannelSenderView,
};
use crate::encoding::{lemma_varint_groups_used, parse_varint, varint_bits};
use crate::entity_waitlist::EntityWaitlist;
use crate::message::{
    message_views, varint_bit_length, EntityHandle, MessageContainer, MessageIndex, MessageKinds,
};
use crate::reliable_receiver::ChannelReadError;
use crate::unordered_unreliable_receiver::UnorderedUnreliableReceiver;
use crate::unordered_unreliable_sender::UnorderedUnreliableSender;
use vstd::prelude::*;

verus! {

/// The number of a channel.
pub type ChannelId = u64;

/// Why the messages of a datagram could not be taken in full.
#[derive(Clone, Copy, PartialEq, Eq, Debug, Structural)]
pub enum DataError {
    /// The number of a channel could not be decoded.
    Decode(DecodeError),
    /// The datagram names a channel that the connection does not have.
    UnknownChannel(ChannelId),
    /// The run of a channel could not be taken in full.
    Channel(ChannelId, ChannelReadError),
}

/// The channels of one connection.
pub struct ChannelSet {
    senders: Vec<ChannelSender>,
    receivers: Vec<ChannelReceiver>,
    next_channel: usize,
}

/// What the receivers of a list hold.
pub open spec fn receiver_views(receivers: Seq<ChannelReceiver>) -> Seq<ChannelReceiverView> {
    receivers.map_values(|r: ChannelReceiver| r@)
}

/// What the senders of a list hold.
pub open spec fn sender_views(senders: Seq<ChannelSender>) -> Seq<ChannelSenderView> {
    senders.map_values(|s: ChannelSender| s@)
}

/// Whether any sender has something to write into the next datagram.
pub open spec fn any_work(senders: Seq<ChannelSenderView>) -> bool {
    exists|i: int| 0 <= i < senders.len() && has_work(#[trigger] senders[i])
}

/// What reading the messages of a datagram gives.
pub struct DataOutcome {
    /// The state of the receivers afterwards.
    pub after: Seq<ChannelReceiverView>,
    /// The number of bits that were read.
    pub used: nat,
    /// Why the messages were not taken in full, if they were not.
    pub error: Option<DataError>,
}

/// What reading the messages of a datagram from `bits` makes of the
/// receivers: run after run is taken by the receiver of its channel,
/// until fewer than eight bits are left or a run cannot be taken.
#[verifier::opaque]
pub open spec fn after_data(
    receivers: Seq<ChannelReceiverView>,
    kinds: &MessageKinds,
    scope: Set<EntityHandle>,
    bits: Seq<bool>,
) -> DataOutcome
    decreases bits.len(),
{
    if bits.len() < 8 {
        DataOutcome { after: receivers, used: 0, error: None }
    } else {
        match parse_varint(bits) {
            Err(error) => DataOutcome {
                after: receivers,
                used: 0,
                error: Some(DataError::Decode(error)),
            },
            Ok((channel, used)) => if channel >= receivers.len() {
                DataOutcome {
                    after: receivers,
                    used,
                    error: Some(DataError::UnknownChannel(channel)),
                }
            } else {
                let run = after_run(receivers[channel as int], kinds, scope, bits.skip(used as int));
                let next = receivers.update(channel as int, run.after);
                let total = used + run.used;
                match run.error {
                    Some(error) => DataOutcome {
                        after: next,
                        used: total,
                        error: Some(DataError::Channel(channel, error)),
                    },
                    None => if used == 0 || total > bits.len() {
                        DataOutcome { after: next, used: total, error: None }
                    } else {
                        let rest = after_data(next, kinds, scope, bits.skip(total as int));
                        DataOutcome {
                            after: rest.after,
                            used: total + rest.used,
                            error: rest.error,
                        }
                    },
                }
            },
        }
    }
}

/// The outcome of reading a datagram of which the first `used` bits were
/// read, from the outcome of reading the rest of it.
pub open spec fn data_after(used: nat, rest: DataOutcome) -> DataOutcome {
    DataOutcome { after: rest.after, used: used + rest.used, error: rest.error }
}

/// Reading the run of a channel takes no more bits than there are, and
/// at least one where it succeeds.
pub proof fn lemma_run_outcome_used(
    v: ChannelReceiverView,
    kinds: &MessageKinds,
    scope: Set<EntityHandle>,
    bits: Seq<bool>,
)
    ensures
        after_run(v, kinds, scope, bits).used <= bits.len(),
        after_run(v, kinds, scope, bits).error is None ==> after_run(v, kinds, scope, bits).used
            >= 1,
{
    crate::unordered_unreliable_receiver::lemma_chunk_used(kinds, bits);
    crate::chunk::lemma_run_used(kinds, bits);
}

impl ChannelSet {
    /// What the receivers hold.
    pub closed spec fn receivers(&self) -> Seq<ChannelReceiverView> {
        receiver_views(self.receivers@)
    }

    /// What the senders hold.
    pub closed spec fn senders(&self) -> Seq<ChannelSenderView> {
        sender_views(self.senders@)
    }

    /// The channel with which the next datagram begins.
    pub closed spec fn next_channel(&self) -> nat {
        self.next_channel as nat
    }

    /// Every channel has its two ends in order.
    pub closed spec fn wf(&self) -> bool {
        &&& self.senders@.len() == self.receivers@.len()
        &&& self.next_channel <= self.senders@.len()
        &&& self.senders@.len() > 0 ==> self.next_channel < self.senders@.len()
        &&& forall|i: int| 0 <= i < self.senders@.len() ==> (#[trigger] self.senders@[i]).wf()
        &&& forall|i: int| 0 <= i < self.receivers@.len() ==> (#[trigger] self.receivers@[i]).wf()
    }

    /// A set without channels.
    pub fn new() -> (set: Self)
        ensures
            set.wf(),
            set.senders() == Seq::<ChannelSenderView>::empty(),
            set.receivers() == Seq::<ChannelReceiverView>::empty(),
            set.next_channel() == 0,
    {
        let set = ChannelSet { senders: Vec::new(), receivers: Vec::new(), next_channel: 0 };
        assert(set.senders() =~= Seq::<ChannelSenderView>::empty());
        assert(set.receivers() =~= Seq::<ChannelReceiverView>::empty());
        set
    }

    /// Adds a channel of the given discipline and gives its number.
    pub fn add_channel(&mut self, mode: ChannelMode) -> (channel: ChannelId)
        requires
            old(self).wf(),
        ensures
            final(self).wf(),
            channel == old(self).senders().len(),
            final(self).senders().len() == old(self).senders().len() + 1,
            final(self).receivers().len() == old(self).receivers().len() + 1,
            final(self).senders().drop_last() == old(self).senders(),
            final(self).receivers().drop_last() == old(self).receivers(),
            final(self).next_channel() == old(self).next_channel(),
            final(self).senders().last() == crate::channel::fresh_sender(mode),
            crate::channel::is_fresh_receiver(final(self).receivers().last(), mode),
    {
        let channel = self.senders.len() as u64;
        let sender = ChannelSender::new(mode);
        let receiver = ChannelReceiver::new(mode);
        self.senders.push(sender);
        self.receivers.push(receiver);
        proof {
            assert(self.senders().drop_last() =~= old(self).senders());
            assert(self.receivers().drop_last() =~= old(self).receivers());
        }
        channel
    }

    /// The number of channels.
    pub fn len(&self) -> (count: usize)
        requires
            self.wf(),
        ensures
            count == self.senders().len(),
    {
        self.senders.len()
    }

    /// Lets the receiver of channel `id` take its run from a datagram.
    fn read_run(
        &mut self,
        id: usize,
        message_kinds: &MessageKinds,
        entity_waitlist: &mut EntityWaitlist,
        reader: &mut BitReader,
    ) -> (outcome: Result<(), ChannelReadError>)
        requires
            old(self).wf(),
            old(reader).wf(),
            id < old(self).receivers().len(),
        ensures
            final(self).wf(),
            final(reader).wf(),
            final(entity_waitlist)@ == old(entity_waitlist)@,
            final(self).senders == old(self).senders,
            final(self).next_channel == old(self).next_channel,
            ({
                let run = after_run(
                    old(self).receivers()[id as int],
                    message_kinds,
                    old(entity_waitlist)@,
                    old(reader)@,
                );
                &&& final(self).receivers() == old(self).receivers().update(id as int, run.after)
                &&& final(reader)@ == old(reader)@.skip(run.used as int)
                &&& outcome == match run.error {
                    Some(error) => Err::<(), ChannelReadError>(error),
                    None => Ok::<(), ChannelReadError>(()),
                }
            }),
    {
        let ghost views = self.receivers();
        let mut taken = ChannelReceiver::UnorderedUnreliable(UnorderedUnreliableReceiver::new());
        self.receivers.set_and_swap(id, &mut taken);
        let outcome = taken.read_messages(message_kinds, entity_waitlist, reader);
        let ghost after = taken@;
        self.receivers.set_and_swap(id, &mut taken);
        proof {
            assert(self.receivers() =~= views.update(id as int, after));
        }
        outcome
    }

    /// Reads the messages of a datagram whose header has been read, and
    /// lets the receiver of each channel take its run.
    pub fn read_data(
        &mut self,
        message_kinds: &MessageKinds,
        entity_waitlist: &mut EntityWaitlist,
        reader: &mut BitReader,
    ) -> (outcome: Result<(), DataError>)
        requires
            old(self).wf(),
            old(reader).wf(),
        ensures
            final(self).wf(),
            final(reader).wf(),
            final(entity_waitlist)@ == old(entity_waitlist)@,
            final(self).senders() == old(self).senders(),
            final(self).next_channel() == old(self).next_channel(),
            final(self).receivers() == after_data(
                old(self).receivers(),
                message_kinds,
                old(entity_waitlist)@,
                old(reader)@,
            ).after,
            final(reader)@ == old(reader)@.skip(
                after_data(
                    old(self).receivers(),
                    message_kinds,
                    old(entity_waitlist)@,
                    old(reader)@,
                ).used as int,
            ),
            outcome == match after_data(
                old(self).receivers(),
                message_kinds,
                old(entity_waitlist)@,
                old(reader)@,
            ).error {
                Some(error) => Err::<(), DataError>(error),
                None => Ok::<(), DataError>(()),
            },
    {
        let ghost scope = entity_waitlist@;
        let ghost whole = after_data(old(self).receivers(), message_kinds, scope, old(reader)@);
        let ghost mut used: nat = 0;
        proof {
            assert(reader@ =~= old(reader)@.skip(0));
        }
        loop
            invariant
                self.wf(),
                reader.wf(),
                scope == entity_waitlist@,
                scope == old(entity_waitlist)@,
                self.senders == old(self).senders,
                self.next_channel == old(self).next_channel,
                used <= old(reader)@.len(),
                reader@ == old(reader)@.skip(used as int),
                whole == after_data(old(self).receivers(), message_kinds, scope, old(reader)@),
                whole == data_after(
                    used,
                    after_data(self.receivers(), message_kinds, scope, reader@),
                ),
            decreases reader@.len(),
        {
            let ghost cur = reader@;
            let ghost views = self.receivers();
            proof {
                lemma_data_step(views, message_kinds, scope, cur);
            }
            if !reader.has_bits(8) {
                return Ok(());
            }
            let channel = match reader.read_varint() {
                Ok(channel) => channel,
                Err(error) => {
                    return Err(DataError::Decode(error));
                },
            };
            let ghost id_bits = parse_varint(cur).unwrap().1;
            proof {
                assert(reader@ =~= old(reader)@.skip((used + id_bits) as int));
            }
            if channel >= self.receivers.len() as u64 {
                return Err(DataError::UnknownChannel(channel));
            }
            let ghost run = after_run(
                views[channel as int],
                message_kinds,
                scope,
                cur.skip(id_bits as int),
            );
            let outcome = self.read_run(channel as usize, message_kinds, entity_waitlist, reader);
            proof {
                assert(reader@ =~= cur.skip((id_bits + run.used) as int));
                assert(reader@ =~= old(reader)@.skip((used + id_bits + run.used) as int));
            }
            match outcome {
                Err(error) => {
                    return Err(DataError::Channel(channel, error));
                },
                Ok(()) => {},
            }
            proof {
                used = used + id_bits + run.used;
            }
        }
    }
}

/// What reading the messages of a datagram gives, by the channel that its
/// first run names.
pub proof fn lemma_data_step(
    receivers: Seq<ChannelReceiverView>,
    kinds: &MessageKinds,
    scope: Set<EntityHandle>,
    bits: Seq<bool>,
)
    ensures
        bits.len() < 8 ==> after_data(receivers, kinds, scope, bits) == (DataOutcome {
            after: receivers,
            used: 0,
            error: None,
        }),
        bits.len() >= 8 ==> match parse_varint(bits) {
            Err(error) => after_data(receivers, kinds, scope, bits) == (DataOutcome {
                after: receivers,
                used: 0,
                error: Some(DataError::Decode(error)),
            }),
            Ok((channel, used)) => 8 <= used <= bits.len() && (if channel >= receivers.len() {
                after_data(receivers, kinds, scope, bits) == (DataOutcome {
                    after: receivers,
                    used,
                    error: Some(DataError::UnknownChannel(channel)),
                })
            } else {
                let run = after_run(receivers[channel as int], kinds, scope, bits.skip(used as int));
                let next = receivers.update(channel as int, run.after);
                &&& used + run.used <= bits.len()
                &&& match run.error {
                    Some(error) => after_data(receivers, kinds, scope, bits) == (DataOutcome {
                        after: next,
                        used: used + run.used,
                        error: Some(DataError::Channel(channel, error)),
                    }),
                    None => after_data(receivers, kinds, scope, bits) == data_after(
                        used + run.used,
                        after_data(next, kinds, scope, bits.skip((used + run.used) as int)),
                    ),
                }
            }),
        },
{
    reveal_with_fuel(after_data, 2);
    if bits.len() >= 8 {
        lemma_varint_groups_used(bits, 10);
        if let Ok((channel, used)) = parse_varint(bits) {
            if channel < receivers.len() {
                lemma_run_outcome_used(
                    receivers[channel as int],
                    kinds,
                    scope,
                    bits.skip(used as int),
                );
            }
        }
    }
}

/// What writing the messages of a datagram gives.
pub struct DataWrite {
    /// The state of the senders afterwards.
    pub after: Seq<ChannelSenderView>,
    /// The bits written.
    pub bits: Seq<bool>,
    /// The indices of the messages that the reliable channels wrote,
    /// channel by channel in the order of writing.
    pub written: Seq<(ChannelId, Seq<MessageIndex>)>,
}

/// The channels in the order in which a datagram takes them up: all of
/// them, beginning with `start`.
pub open spec fn channel_order(start: nat, count: nat) -> Seq<nat> {
    Seq::new(count, |k: int| ((start + k) % (count as int)) as nat)
}

/// Whether a channel writes into a datagram with room for `budget` bits:
/// it has something to send, and there is room for its number and at
/// least one bit more.
pub open spec fn takes_part(v: ChannelSenderView, channel: nat, budget: u64) -> bool {
    has_work(v) && budget > varint_bits(channel).len()
}

/// The budget that is left after `used` bits were written.
pub open spec fn budget_left(budget: u64, used: nat) -> u64 {
    if used <= budget {
        (budget - used) as u64
    } else {
        0
    }
}

/// What the channels write into a datagram with room for `budget` bits,
/// taken up in the given order: each channel that takes part writes its
/// number and its run into the room that the channels before it have
/// left.
pub open spec fn data_write(senders: Seq<ChannelSenderView>, order: Seq<nat>, budget: u64, now: u64) -> DataWrite
    decreases order.len(),
{
    if order.len() == 0 {
        DataWrite { after: senders, bits: Seq::empty(), written: Seq::empty() }
    } else {
        let channel = order[0];
        let v = senders[channel as int];
        if takes_part(v, channel, budget) {
            let id_bits = varint_bits(channel);
            let run = sender_write(v, (budget - id_bits.len()) as u64, now);
            let bits = id_bits + run.bits;
            let rest = data_write(
                senders.update(channel as int, run.after),
                order.skip(1),
                budget_left(budget, bits.len()),
                now,
            );
            DataWrite {
                after: rest.after,
                bits: bits + rest.bits,
                written: match run.indices {
                    Some(indices) => seq![(channel as ChannelId, indices)] + rest.written,
                    None => rest.written,
                },
            }
        } else {
            data_write(senders, order.skip(1), budget, now)
        }
    }
}

/// The indices that a list of written messages holds.
pub open spec fn written_views(written: Seq<(ChannelId, Vec<MessageIndex>)>) -> Seq<
    (ChannelId, Seq<MessageIndex>),
> {
    written.map_values(|w: (ChannelId, Vec<MessageIndex>)| (w.0, w.1@))
}

impl ChannelSet {
    /// Queues a message on a channel. Fails where the set has no such
    /// channel, and where the channel cannot take the message.
    pub fn send_message(&mut self, channel: ChannelId, message: MessageContainer) -> (outcome: Result<
        (),
        DataError,
    >)
        requires
            old(self).wf(),
        ensures
            final(self).wf(),
            final(self).receivers() == old(self).receivers(),
            final(self).next_channel() == old(self).next_channel(),
            channel >= old(self).senders().len() ==> outcome == Err::<(), DataError>(
                DataError::UnknownChannel(channel),
            ) && final(self).senders() == old(self).senders(),
            channel < old(self).senders().len() ==> {
                let sent = crate::channel::after_send(old(self).senders()[channel as int], message@);
                &&& final(self).senders() == old(self).senders().update(channel as int, sent.0)
                &&& outcome == match sent.1 {
                    Some(error) => Err::<(), DataError>(
                        DataError::Channel(channel, ChannelReadError::Protocol(error)),
                    ),
                    None => Ok::<(), DataError>(()),
                }
            },
    {
        if channel >= self.senders.len() as u64 {
            return Err(DataError::UnknownChannel(channel));
        }
        let id = channel as usize;
        let ghost views = self.senders();
        let mut taken = ChannelSender::UnorderedUnreliable(UnorderedUnreliableSender::new());
        self.senders.set_and_swap(id, &mut taken);
        let outcome = taken.send_message(message);
        self.senders.set_and_swap(id, &mut taken);
        proof {
            assert(self.senders() =~= views.update(id as int, self.senders@[id as int]@));
        }
        match outcome {
            Ok(()) => Ok(()),
            Err(error) => Err(DataError::Channel(channel, ChannelReadError::Protocol(error))),
        }
    }

    /// Whether any channel has something to send.
    pub fn has_messages(&self) -> (waiting: bool)
        requires
            self.wf(),
        ensures
            waiting == any_work(self.senders()),
    {
        let mut i: usize = 0;
        while i < self.senders.len()
            invariant
                i <= self.senders.len(),
                self.wf(),
                forall|j: int| 0 <= j < i ==> !has_work(#[trigger] self.senders()[j]),
            decreases self.senders.len() - i,
        {
            if self.senders[i].has_messages() {
                assert(has_work(self.senders()[i as int]));
                return true;
            }
            i += 1;
        }
        false
    }

    /// Lets channel `c` write its number and its run into a datagram with
    /// room for `budget` bits, if it takes part. Gives the indices of the
    /// messages written by a reliable channel, and the room that is left.
    fn write_channel(&mut self, c: usize, writer: &mut BitWriter, budget: u64, now: u64) -> (outcome: (
        Option<Vec<MessageIndex>>,
        u64,
    ))
        requires
            old(self).wf(),
            old(writer).wf(),
            c < old(self).senders().len(),
        ensures
            final(self).wf(),
            final(writer).wf(),
            final(self).receivers == old(self).receivers,
            final(self).next_channel == old(self).next_channel,
            final(self).senders@.len() == old(self).senders@.len(),
            ({
                let v = old(self).senders()[c as int];
                if takes_part(v, c as nat, budget) {
                    let id_bits = varint_bits(c as nat);
                    let run = sender_write(v, (budget - id_bits.len()) as u64, now);
                    &&& final(self).senders() == old(self).senders().update(c as int, run.after)
                    &&& final(writer)@ == old(writer)@ + (id_bits + run.bits)
                    &&& outcome.1 == budget_left(budget, (id_bits + run.bits).len())
                    &&& match run.indices {
                        Some(indices) => outcome.0 matches Some(list) && list@ == indices,
                        None => outcome.0 is None,
                    }
                } else {
                    &&& final(self).senders() == old(self).senders()
                    &&& final(writer)@ == old(writer)@
                    &&& outcome.1 == budget
                    &&& outcome.0 is None
                }
            }),
    {
        let ghost views = self.senders();
        let id_cost = varint_bit_length(c as u64);
        let mut taken = ChannelSender::UnorderedUnreliable(UnorderedUnreliableSender::new());
        self.senders.set_and_swap(c, &mut taken);
        if taken.has_messages() && budget > id_cost {
            let length_before = writer.bit_len();
            writer.write_varint(c as u64);
            let indices = taken.write_messages(writer, budget - id_cost, now);
            let length_after = writer.bit_len();
            let ghost after = taken@;
            let ghost run = sender_write(views[c as int], (budget - id_cost) as u64, now);
            self.senders.set_and_swap(c, &mut taken);
            let used: u128 = length_after - length_before;
            proof {
                assert(writer@ =~= old(writer)@ + (varint_bits(c as nat) + run.bits));
                assert(self.senders() =~= views.update(c as int, after));
            }
            let left: u64 = if used <= budget as u128 {
                budget - (used as u64)
            } else {
                0
            };
            (indices, left)
        } else {
            self.senders.set_and_swap(c, &mut taken);
            proof {
                assert(self.senders@ =~= old(self).senders@);
            }
            (None, budget)
        }
    }

    /// Writes the messages of a datagram: every channel that has
    /// something to send and finds room writes its number and its run.
    /// The channels are taken up in order, beginning with the next
    /// channel; the datagram after this one begins with the channel
    /// after it. The indices of the messages that the reliable channels
    /// wrote are handed back.
    pub fn write_data(&mut self, writer: &mut BitWriter, budget: u64, now: u64) -> (written: Vec<
        (ChannelId, Vec<MessageIndex>),
    >)
        requires
            old(self).wf(),
            old(writer).wf(),
        ensures
            final(self).wf(),
            final(writer).wf(),
            final(self).receivers() == old(self).receivers(),
            final(self).senders().len() == old(self).senders().len(),
            old(self).senders().len() == 0 ==> final(self).next_channel() == 0,
            old(self).senders().len() > 0 ==> final(self).next_channel() as int == (old(
                self).next_channel() as int + 1) % (old(self).senders().len() as int),
            ({
                let expected = data_write(
                    old(self).senders(),
                    channel_order(old(self).next_channel(), old(self).senders().len()),
                    budget,
                    now,
                );
                &&& final(self).senders() == expected.after
                &&& final(writer)@ == old(writer)@ + expected.bits
                &&& written_views(written@) == expected.written
            }),
    {
        let mut written: Vec<(ChannelId, Vec<MessageIndex>)> = Vec::new();
        let count = self.senders.len();
        let start = self.next_channel;
        let ghost order = channel_order(start as nat, count as nat);
        let ghost whole = data_write(old(self).senders(), order, budget, now);
        let mut remaining: u64 = budget;
        let mut k: usize = 0;
        let ghost mut bits: Seq<bool> = Seq::empty();
        proof {
            assert(order.skip(0) =~= order);
            assert(writer@ =~= old(writer)@ + bits);
            assert(written_views(written@) =~= Seq::empty());
            assert(bits + whole.bits =~= whole.bits);
            assert(written_views(written@) + whole.written =~= whole.written);
        }
        while k < count
            invariant
                k <= count,
                count == self.senders@.len(),
                start == old(self).next_channel,
                self.next_channel == start,
                count > 0 ==> start < count,
                self.wf(),
                writer.wf(),
                self.receivers == old(self).receivers,
                order == channel_order(start as nat, count as nat),
                whole == data_write(old(self).senders(), order, budget, now),
                writer@ == old(writer)@ + bits,
                ({
                    let rest = data_write(self.senders(), order.skip(k as int), remaining, now);
                    &&& whole.after == rest.after
                    &&& whole.bits == bits + rest.bits
                    &&& whole.written == written_views(written@) + rest.written
                }),
            decreases count - k,
        {
            let c: usize = if k >= count - start {
                k - (count - start)
            } else {
                start + k
            };
            let ghost views = self.senders();
            let ghost tail = order.skip(k as int);
            let ghost before_written = written_views(written@);
            let ghost before_bits = bits;
            let ghost budget_before = remaining;
            proof {
                assert(tail[0] == order[k as int]);
                lemma_channel_order(start as nat, count as nat, k as nat);
                assert(tail.skip(1) =~= order.skip(k + 1));
            }
            let (indices, left) = self.write_channel(c, writer, remaining, now);
            remaining = left;
            proof {
                if takes_part(views[c as int], c as nat, budget_before) {
                    let run = sender_write(
                        views[c as int],
                        (budget_before - varint_bits(c as nat).len()) as u64,
                        now,
                    );
                    let piece = varint_bits(c as nat) + run.bits;
                    let rest = data_write(self.senders(), tail.skip(1), remaining, now);
                    assert(before_bits + (piece + rest.bits) =~= (before_bits + piece) + rest.bits);
                    bits = before_bits + piece;
                    assert(writer@ =~= old(writer)@ + bits);
                }
            }
            match indices {
                Some(list) => {
                    let ghost entry = (c as ChannelId, list@);
                    written.push((c as u64, list));
                    proof {
                        assert(written_views(written@) =~= before_written.push(entry));
                        let rest = data_write(self.senders(), tail.skip(1), remaining, now);
                        assert(before_written + (seq![entry] + rest.written)
                            =~= before_written.push(entry) + rest.written);
                    }
                },
                None => {},
            }
            k += 1;
        }
        if count > 0 {
            self.next_channel = if start + 1 == count {
                0
            } else {
                start + 1
            };
            proof {
                if start + 1 == count {
                    vstd::arithmetic::div_mod::lemma_mod_self_0(count as int);
                } else {
                    vstd::arithmetic::div_mod::lemma_small_mod((start + 1) as nat, count as nat);
                }
            }
        }
        proof {
            assert(order.skip(count as int).len() == 0);
        }
        written
    }
}

/// The channel that a datagram takes up at place `k`.
proof fn lemma_channel_order(start: nat, count: nat, k: nat)
    requires
        start < count,
        k < count,
    ensures
        channel_order(start, count)[k as int] == if k >= count - start {
            (k - (count - start)) as nat
        } else {
            start + k
        },
{
    if k >= count - start {
        vstd::arithmetic::div_mod::lemma_fundamental_div_mod_converse(
            (start + k) as int,
            count as int,
            1,
            (start + k - count) as int,
        );
    } else {
        vstd::arithmetic::div_mod::lemma_small_mod(start + k, count);
    }
}

impl ChannelSet {
    /// Takes note of the time on every channel: on the reliable channels
    /// every message whose acknowledgement has been waited for
    /// `resend_timeout_millis` or longer is due again.
    pub fn collect_messages(&mut self, now: u64, resend_timeout_millis: u64)
        requires
            old(self).wf(),
        ensures
            final(self).wf(),
            final(self).receivers() == old(self).receivers(),
            final(self).next_channel() == old(self).next_channel(),
            final(self).senders() == old(self).senders().map_values(
                |v: ChannelSenderView| after_collect(v, now, resend_timeout_millis),
            ),
    {
        let ghost views = self.senders();
        let ghost expected = views.map_values(
            |v: ChannelSenderView| after_collect(v, now, resend_timeout_millis),
        );
        let count = self.senders.len();
        let mut i: usize = 0;
        while i < count
            invariant
                i <= count,
                count == self.senders@.len(),
                self.wf(),
                self.receivers == old(self).receivers,
                self.next_channel == old(self).next_channel,
                views == old(self).senders(),
                views.len() == count,
                forall|j: int| 0 <= j < i ==> #[trigger] self.senders()[j] == after_collect(
                    views[j],
                    now,
                    resend_timeout_millis,
                ),
                forall|j: int| i <= j < count ==> #[trigger] self.senders()[j] == views[j],
            decreases count - i,
        {
            let ghost before = self.senders();
            let mut taken = ChannelSender::UnorderedUnreliable(UnorderedUnreliableSender::new());
            self.senders.set_and_swap(i, &mut taken);
            taken.collect_messages(now, resend_timeout_millis);
            let ghost after = taken@;
            self.senders.set_and_swap(i, &mut taken);
            proof {
                assert(before[i as int] == views[i as int]);
                assert(self.senders() =~= before.update(i as int, after));
                assert forall|j: int| 0 <= j < i + 1 implies #[trigger] self.senders()[j]
                    == after_collect(views[j], now, resend_timeout_millis) by {
                    if j < i {
                        assert(before[j] == after_collect(views[j], now, resend_timeout_millis));
                    }
                }
                assert forall|j: int| i + 1 <= j < count implies #[trigger] self.senders()[j]
                    == views[j] by {
                    assert(before[j] == views[j]);
                }
            }
            i += 1;
        }
        assert(self.senders() =~= expected);
    }

    /// The delivery of the message with `message_index` on `channel` was
    /// acknowledged. A channel that the set does not have is left out.
    pub fn notify_message_delivered(&mut self, channel: ChannelId, message_index: &MessageIndex)
        requires
            old(self).wf(),
        ensures
            final(self).wf(),
            final(self).receivers() == old(self).receivers(),
            final(self).next_channel() == old(self).next_channel(),
            final(self).senders() == if channel < old(self).senders().len() {
                old(self).senders().update(
                    channel as int,
                    after_delivery(old(self).senders()[channel as int], *message_index),
                )
            } else {
                old(self).senders()
            },
    {
        if channel >= self.senders.len() as u64 {
            return ;
        }
        let id = channel as usize;
        let ghost views = self.senders();
        let mut taken = ChannelSender::UnorderedUnreliable(UnorderedUnreliableSender::new());
        self.senders.set_and_swap(id, &mut taken);
        taken.notify_message_delivered(message_index);
        let ghost after = taken@;
        self.senders.set_and_swap(id, &mut taken);
        proof {
            assert(self.senders() =~= views.update(id as int, after));
        }
    }

    /// Hands over the messages that can be delivered to the application,
    /// channel by channel: the messages of channel `i` stand at place `i`.
    pub fn receive_messages(&mut self, entity_waitlist: &mut EntityWaitlist) -> (inbox: Vec<
        Vec<MessageContainer>,
    >)
        requires
            old(self).wf(),
        ensures
            final(self).wf(),
            final(entity_waitlist)@ == old(entity_waitlist)@,
            final(self).senders() == old(self).senders(),
            final(self).next_channel() == old(self).next_channel(),
            inbox@.len() == old(self).receivers().len(),
            final(self).receivers().len() == old(self).receivers().len(),
            forall|i: int|
                0 <= i < old(self).receivers().len() ==> message_views((#[trigger] inbox@[i])@)
                    == after_receive(old(self).receivers()[i], old(entity_waitlist)@).0,
            forall|i: int|
                0 <= i < old(self).receivers().len() ==> #[trigger] final(self).receivers()[i]
                    == after_receive(old(self).receivers()[i], old(entity_waitlist)@).1,
    {
        let ghost views = self.receivers();
        let ghost scope = entity_waitlist@;
        let mut inbox: Vec<Vec<MessageContainer>> = Vec::new();
        let count = self.receivers.len();
        let mut i: usize = 0;
        while i < count
            invariant
                i <= count,
                count == self.receivers@.len(),
                self.wf(),
                scope == entity_waitlist@,
                self.senders == old(self).senders,
                self.next_channel == old(self).next_channel,
                views == old(self).receivers(),
                views.len() == count,
                inbox@.len() == i,
                forall|j: int|
                    0 <= j < i ==> message_views((#[trigger] inbox@[j])@) == after_receive(
                        views[j],
                        scope,
                    ).0,
                forall|j: int| 0 <= j < i ==> #[trigger] self.receivers()[j] == after_receive(
                    views[j],
                    scope,
                ).1,
                forall|j: int| i <= j < count ==> #[trigger] self.receivers()[j] == views[j],
            decreases count - i,
        {
            let ghost before = self.receivers();
            let mut taken = ChannelReceiver::UnorderedUnreliable(UnorderedUnreliableReceiver::new());
            self.receivers.set_and_swap(i, &mut taken);
            let messages = taken.receive_messages(entity_waitlist);
            let ghost after = taken@;
            let ghost inbox_before = inbox@;
            self.receivers.set_and_swap(i, &mut taken);
            inbox.push(messages);
            proof {
                assert(before[i as int] == views[i as int]);
                assert(self.receivers() =~= before.update(i as int, after));
                assert forall|j: int| 0 <= j < i + 1 implies message_views((#[trigger] inbox@[j])@)
                    == after_receive(views[j], scope).0 by {
                    if j < i {
                        assert(inbox@[j] == inbox_before[j]);
                    }
                }
                assert forall|j: int| 0 <= j < i + 1 implies #[trigger] self.receivers()[j]
                    == after_receive(views[j], scope).1 by {
                    if j < i {
                        assert(before[j] == after_receive(views[j], scope).1);
                    }
                }
                assert forall|j: int| i + 1 <= j < count implies #[trigger] self.receivers()[j]
                    == views[j] by {
                    assert(before[j] == views[j]);
                }
            }
            i += 1;
        }
        inbox
    }
}

} // verus!
