//! A channel of any of the four disciplines, as the connection sees it.
//!
//! The connection treats all channels alike: it queues messages, asks
//! whether a channel has something to send, lets it write its run into a
//! datagram and read the run of a datagram that has arrived. What each of
//! these does depends on the discipline of the channel.

use crate::bit_reader::BitReader;
use crate::bit_writer::BitWriter;
use crate::channel_error::ChannelProtocolError;
use crate::chunk::{chunk_bits, fitting_count, lemma_fitting_count, parse_run, plain_items};
use crate::entity_waitlist::{blocked_messages, ready_messages, EntityWaitlist};
use crate::message::{
    message_views, EntityHandle, MessageContainer, MessageIndex, MessageKinds, MessageView,
};
use crate::reliable_receiver::{
    after_arrivals, ChannelReadError, ReliableReceiver, ReliableReceiverView,
};
use crate::reliable_sender::{
    any_exhausted, due_items, next_message_index, refreshed, without_index, written_at,
    OutgoingView, ReliableSender, ReliableSenderView, MAX_OUTSTANDING,
};
use crate::sequenced::{
    after_sequenced_arrivals, indexed_items, SequencedReceiver, SequencedSender,
    SequencedSenderView,
};
use crate::unordered_unreliable_receiver::{
    after_messages, parse_chunk, ReceiverView, UnorderedUnreliableReceiver,
};
use crate::unordered_unreliable_sender::UnorderedUnreliableSender;
use vstd::prelude::*;

verus! {

/// The discipline of a channel.
#[derive(Clone, Copy, PartialEq, Eq, Debug, Structural)]
pub enum ChannelMode {
    /// Messages arrive or do not, in any order.
    UnorderedUnreliable,
    /// Messages arrive or do not, but never out of order.
    SequencedUnreliable,
    /// Every message arrives, in any order.
    UnorderedReliable,
    /// Every message arrives, in the order in which it was sent.
    OrderedReliable,
}

/// The sending end of a channel.
pub enum ChannelSender {
    /// Of an unordered, unreliable channel.
    UnorderedUnreliable(UnorderedUnreliableSender),
    /// Of an ordered, unreliable channel.
    SequencedUnreliable(SequencedSender),
    /// Of a reliable channel, ordered or not.
    Reliable(ReliableSender),
}

/// What the sending end of a channel holds, as mathematics sees it.
pub enum ChannelSenderView {
    /// The messages that wait to be written.
    UnorderedUnreliable(Seq<MessageView>),
    /// The messages that wait to be written, with their indices.
    SequencedUnreliable(SequencedSenderView),
    /// The messages that wait for their acknowledgement.
    Reliable(ReliableSenderView),
}

impl View for ChannelSender {
    type V = ChannelSenderView;

    open spec fn view(&self) -> ChannelSenderView {
        match self {
            ChannelSender::UnorderedUnreliable(sender) => ChannelSenderView::UnorderedUnreliable(
                sender@,
            ),
            ChannelSender::SequencedUnreliable(sender) => ChannelSenderView::SequencedUnreliable(
                sender@,
            ),
            ChannelSender::Reliable(sender) => ChannelSenderView::Reliable(sender@),
        }
    }
}

/// The state of a sender after a message was queued, and whether queuing
/// it broke the rules of the channel.
pub open spec fn after_send(v: ChannelSenderView, message: MessageView) -> (
    ChannelSenderView,
    Option<ChannelProtocolError>,
) {
    match v {
        ChannelSenderView::UnorderedUnreliable(queue) => (
            ChannelSenderView::UnorderedUnreliable(queue.push(message)),
            None,
        ),
        ChannelSenderView::SequencedUnreliable(s) => (
            ChannelSenderView::SequencedUnreliable(
                SequencedSenderView {
                    next_index: next_message_index(s.next_index),
                    outgoing: s.outgoing.push((s.next_index, message)),
                },
            ),
            None,
        ),
        ChannelSenderView::Reliable(s) => if s.sending.len() >= MAX_OUTSTANDING {
            (v, Some(ChannelProtocolError::TooManyOutstanding))
        } else {
            (
                ChannelSenderView::Reliable(
                    ReliableSenderView {
                        next_index: next_message_index(s.next_index),
                        sending: s.sending.push(
                            OutgoingView {
                                index: s.next_index,
                                message,
                                last_sent: None,
                                due: true,
                                sends: 0,
                            },
                        ),
                    },
                ),
                None,
            )
        },
    }
}

/// Whether a sender has something to write into the next datagram.
pub open spec fn has_work(v: ChannelSenderView) -> bool {
    match v {
        ChannelSenderView::UnorderedUnreliable(queue) => queue.len() > 0,
        ChannelSenderView::SequencedUnreliable(s) => s.outgoing.len() > 0,
        ChannelSenderView::Reliable(s) => due_items(s.sending).len() > 0,
    }
}

/// Whether a message of a sender has used up its tries.
pub open spec fn has_exhausted(v: ChannelSenderView, max_sends: u32) -> bool {
    match v {
        ChannelSenderView::Reliable(s) => any_exhausted(s.sending, max_sends),
        _ => false,
    }
}

/// The state of a sender after it took note of the time: on a reliable
/// channel every message whose acknowledgement has been waited for
/// `timeout` milliseconds or longer is due again; the other channels stay
/// as they are.
pub open spec fn after_collect(v: ChannelSenderView, now: u64, timeout: u64) -> ChannelSenderView {
    match v {
        ChannelSenderView::Reliable(s) => ChannelSenderView::Reliable(
            ReliableSenderView {
                sending: s.sending.map_values(|e: OutgoingView| refreshed(e, now, timeout)),
                ..s
            },
        ),
        _ => v,
    }
}

/// The state of a sender after the delivery of the message with `index`
/// was acknowledged.
pub open spec fn after_delivery(v: ChannelSenderView, index: MessageIndex) -> ChannelSenderView {
    match v {
        ChannelSenderView::Reliable(s) => ChannelSenderView::Reliable(
            ReliableSenderView { sending: without_index(s.sending, index), ..s },
        ),
        _ => v,
    }
}

impl ChannelSender {
    /// The parts of the sender are in order.
    pub open spec fn wf(&self) -> bool {
        match self {
            ChannelSender::Reliable(sender) => sender.wf(),
            _ => true,
        }
    }

    /// The sending end of a channel of the given discipline, with nothing
    /// to send.
    pub fn new(mode: ChannelMode) -> (sender: Self)
        ensures
            sender.wf(),
            sender@ == fresh_sender(mode),
    {
        match mode {
            ChannelMode::UnorderedUnreliable => ChannelSender::UnorderedUnreliable(
                UnorderedUnreliableSender::new(),
            ),
            ChannelMode::SequencedUnreliable => ChannelSender::SequencedUnreliable(
                SequencedSender::new(),
            ),
            ChannelMode::UnorderedReliable => ChannelSender::Reliable(ReliableSender::new()),
            ChannelMode::OrderedReliable => ChannelSender::Reliable(ReliableSender::new()),
        }
    }

    /// Queues a message. Fails, and changes nothing, where the channel
    /// is reliable and as many messages wait for their acknowledgement as
    /// it can tell apart.
    pub fn send_message(&mut self, message: MessageContainer) -> (outcome: Result<
        (),
        ChannelProtocolError,
    >)
        requires
            old(self).wf(),
        ensures
            final(self).wf(),
            final(self)@ == after_send(old(self)@, message@).0,
            match after_send(old(self)@, message@).1 {
                Some(error) => outcome == Err::<(), ChannelProtocolError>(error),
                None => outcome is Ok,
            },
    {
        match self {
            ChannelSender::UnorderedUnreliable(sender) => {
                sender.send_message(message);
                Ok(())
            },
            ChannelSender::SequencedUnreliable(sender) => {
                sender.send_message(message);
                Ok(())
            },
            ChannelSender::Reliable(sender) => match sender.send_message(message) {
                Ok(_) => Ok(()),
                Err(error) => Err(error),
            },
        }
    }

    /// Takes note of the time: on a reliable channel every message whose
    /// acknowledgement has been waited for `resend_timeout_millis` or
    /// longer is due again. On the other channels nothing changes.
    pub fn collect_messages(&mut self, now: u64, resend_timeout_millis: u64)
        requires
            old(self).wf(),
        ensures
            final(self).wf(),
            final(self)@ == after_collect(old(self)@, now, resend_timeout_millis),
    {
        match self {
            ChannelSender::UnorderedUnreliable(sender) => {
                sender.collect_messages(now, resend_timeout_millis);
            },
            ChannelSender::SequencedUnreliable(sender) => {
                sender.collect_messages(now, resend_timeout_millis);
            },
            ChannelSender::Reliable(sender) => {
                let ghost before = sender@;
                sender.collect_messages(now, resend_timeout_millis);
                assert(sender@.sending =~= before.sending.map_values(
                    |e: OutgoingView| refreshed(e, now, resend_timeout_millis),
                ));
            },
        }
    }

    /// Whether the next datagram should carry this channel.
    pub fn has_messages(&self) -> (waiting: bool)
        requires
            self.wf(),
        ensures
            waiting == has_work(self@),
    {
        match self {
            ChannelSender::UnorderedUnreliable(sender) => sender.has_messages(),
            ChannelSender::SequencedUnreliable(sender) => sender.has_messages(),
            ChannelSender::Reliable(sender) => sender.has_messages(),
        }
    }

    /// Whether a message of the channel has used up its tries: the channel
    /// is reliable, and a message is due although it was written
    /// `max_sends` times or more.
    pub fn check_retries(&self, max_sends: u32) -> (outcome: Result<(), ChannelProtocolError>)
        requires
            self.wf(),
        ensures
            outcome == if has_exhausted(self@, max_sends) {
                Err::<(), ChannelProtocolError>(ChannelProtocolError::RetriesExhausted)
            } else {
                Ok::<(), ChannelProtocolError>(())
            },
    {
        match self {
            ChannelSender::Reliable(sender) => if sender.retries_exhausted(max_sends) {
                Err(ChannelProtocolError::RetriesExhausted)
            } else {
                Ok(())
            },
            _ => Ok(()),
        }
    }

    /// The delivery of the message with `message_index` was acknowledged:
    /// a reliable channel keeps it no longer. The other channels take no
    /// note.
    pub fn notify_message_delivered(&mut self, message_index: &MessageIndex)
        requires
            old(self).wf(),
        ensures
            final(self).wf(),
            final(self)@ == after_delivery(old(self)@, *message_index),
    {
        match self {
            ChannelSender::UnorderedUnreliable(sender) => {
                sender.notify_message_delivered(message_index);
            },
            ChannelSender::SequencedUnreliable(sender) => {
                sender.notify_message_delivered(message_index);
            },
            ChannelSender::Reliable(sender) => {
                sender.notify_message_delivered(message_index);
            },
        }
    }

    /// Writes the run of this channel into a datagram, as many of its
    /// messages as fit in `budget` bits. A reliable channel hands back the
    /// indices of the messages written, which it keeps until their
    /// delivery is acknowledged; the other channels forget what they have
    /// written and hand back nothing.
    pub fn write_messages(&mut self, writer: &mut BitWriter, budget: u64, now: u64) -> (written:
        Option<Vec<MessageIndex>>)
        requires
            old(self).wf(),
            old(writer).wf(),
        ensures
            final(self).wf(),
            final(writer).wf(),
            final(self)@ == sender_write(old(self)@, budget, now).after,
            final(writer)@ == old(writer)@ + sender_write(old(self)@, budget, now).bits,
            match sender_write(old(self)@, budget, now).indices {
                Some(indices) => written matches Some(w) && w@ == indices,
                None => written is None,
            },
    {
        match self {
            ChannelSender::UnorderedUnreliable(sender) => {
                let ghost before = sender@;
                let count = sender.write_messages(writer, budget);
                proof {
                    if budget >= 1 {
                        lemma_fitting_count(plain_items(before), count as nat, budget as nat);
                    } else {
                        assert(writer@ =~= old(writer)@ + Seq::<bool>::empty());
                    }
                }
                None
            },
            ChannelSender::SequencedUnreliable(sender) => {
                let ghost before = sender@;
                let count = sender.write_messages(writer, budget);
                proof {
                    if budget >= 1 {
                        lemma_fitting_count(
                            indexed_items(before.outgoing),
                            count as nat,
                            budget as nat,
                        );
                    } else {
                        assert(writer@ =~= old(writer)@ + Seq::<bool>::empty());
                    }
                }
                None
            },
            ChannelSender::Reliable(sender) => {
                let ghost before = sender@;
                let indices = sender.write_messages(writer, budget, now);
                proof {
                    if budget >= 1 {
                        let items = due_items(before.sending);
                        lemma_fitting_count(items, indices@.len(), budget as nat);
                        assert(sender@.sending =~= marked_sent(
                            before.sending,
                            indices@.len(),
                            now,
                        ));
                        assert(indices@ =~= item_indices(items.take(indices@.len() as int)));
                    } else {
                        assert(writer@ =~= old(writer)@ + Seq::<bool>::empty());
                        assert(indices@ =~= Seq::<MessageIndex>::empty());
                    }
                }
                Some(indices)
            },
        }
    }
}

/// What a sender writes into a datagram, and what becomes of it.
pub struct SenderWrite {
    /// The state of the sender afterwards.
    pub after: ChannelSenderView,
    /// The bits written.
    pub bits: Seq<bool>,
    /// The indices of the messages written, for a reliable channel.
    pub indices: Option<Seq<MessageIndex>>,
}

/// The messages of a reliable sender after the first `count` due messages
/// were written at `now`.
pub open spec fn marked_sent(sending: Seq<OutgoingView>, count: nat, now: u64) -> Seq<OutgoingView> {
    Seq::new(
        sending.len(),
        |j: int|
            if sending[j].due && due_items(sending.take(j)).len() < count {
                written_at(sending[j], now)
            } else {
                sending[j]
            },
    )
}

/// The indices that messages bear in a run; zero for one that bears none.
pub open spec fn item_indices(items: Seq<crate::chunk::WireItem>) -> Seq<MessageIndex> {
    items.map_values(
        |item: crate::chunk::WireItem|
            match item.index {
                Some(index) => index,
                None => 0,
            },
    )
}

/// What a sender writes into a datagram with room for `budget` bits, and
/// what becomes of it: it writes the run of as many of its messages as
/// fit, oldest first. An unreliable sender forgets the messages written.
/// A reliable sender writes the messages that are due, keeps them, and
/// takes note that they were written at `now`. With no budget at all
/// nothing is written.
pub open spec fn sender_write(v: ChannelSenderView, budget: u64, now: u64) -> SenderWrite {
    if budget == 0 {
        SenderWrite {
            after: v,
            bits: Seq::empty(),
            indices: if v is Reliable {
                Some(Seq::empty())
            } else {
                None
            },
        }
    } else {
        match v {
            ChannelSenderView::UnorderedUnreliable(queue) => {
                let count = fitting_count(plain_items(queue), budget as nat);
                SenderWrite {
                    after: ChannelSenderView::UnorderedUnreliable(queue.skip(count as int)),
                    bits: chunk_bits(plain_items(queue).take(count as int)),
                    indices: None,
                }
            },
            ChannelSenderView::SequencedUnreliable(s) => {
                let count = fitting_count(indexed_items(s.outgoing), budget as nat);
                SenderWrite {
                    after: ChannelSenderView::SequencedUnreliable(
                        SequencedSenderView { outgoing: s.outgoing.skip(count as int), ..s },
                    ),
                    bits: chunk_bits(indexed_items(s.outgoing).take(count as int)),
                    indices: None,
                }
            },
            ChannelSenderView::Reliable(s) => {
                let items = due_items(s.sending);
                let count = fitting_count(items, budget as nat);
                SenderWrite {
                    after: ChannelSenderView::Reliable(
                        ReliableSenderView { sending: marked_sent(s.sending, count, now), ..s },
                    ),
                    bits: chunk_bits(items.take(count as int)),
                    indices: Some(item_indices(items.take(count as int))),
                }
            },
        }
    }
}

/// The receiving end of a channel.
pub enum ChannelReceiver {
    /// Of an unordered, unreliable channel.
    UnorderedUnreliable(UnorderedUnreliableReceiver),
    /// Of an ordered, unreliable channel.
    SequencedUnreliable(SequencedReceiver),
    /// Of a reliable channel, ordered or not.
    Reliable(ReliableReceiver),
}

/// What the receiving end of a channel holds, as mathematics sees it.
pub enum ChannelReceiverView {
    /// The messages to deliver and those that wait for an entity.
    UnorderedUnreliable(ReceiverView),
    /// The window of an ordered, unreliable channel.
    SequencedUnreliable(ReliableReceiverView),
    /// The window of a reliable channel.
    Reliable(ReliableReceiverView),
}

impl View for ChannelReceiver {
    type V = ChannelReceiverView;

    open spec fn view(&self) -> ChannelReceiverView {
        match self {
            ChannelReceiver::UnorderedUnreliable(receiver) => {
                ChannelReceiverView::UnorderedUnreliable(receiver@)
            },
            ChannelReceiver::SequencedUnreliable(receiver) => {
                ChannelReceiverView::SequencedUnreliable(receiver@)
            },
            ChannelReceiver::Reliable(receiver) => ChannelReceiverView::Reliable(receiver@),
        }
    }
}

/// What reading the run of a channel from a datagram gives.
pub struct RunOutcome {
    /// The state of the receiver afterwards.
    pub after: ChannelReceiverView,
    /// The number of bits that were read.
    pub used: nat,
    /// Why the run was not taken in full, if it was not.
    pub error: Option<ChannelReadError>,
}

/// What reading the run of a channel from `bits` makes of the receiver.
pub open spec fn after_run(
    v: ChannelReceiverView,
    kinds: &MessageKinds,
    scope: Set<EntityHandle>,
    bits: Seq<bool>,
) -> RunOutcome {
    match v {
        ChannelReceiverView::UnorderedUnreliable(state) => {
            let parsed = parse_chunk(kinds, bits);
            RunOutcome {
                after: ChannelReceiverView::UnorderedUnreliable(
                    after_messages(state, scope, parsed.messages),
                ),
                used: parsed.used,
                error: match parsed.error {
                    Some(error) => Some(ChannelReadError::Decode(error)),
                    None => None,
                },
            }
        },
        ChannelReceiverView::SequencedUnreliable(state) => {
            let parsed = parse_run(kinds, bits);
            RunOutcome {
                after: ChannelReceiverView::SequencedUnreliable(
                    after_sequenced_arrivals(state, parsed.items),
                ),
                used: parsed.used,
                error: match parsed.error {
                    Some(error) => Some(ChannelReadError::Decode(error)),
                    None => None,
                },
            }
        },
        ChannelReceiverView::Reliable(state) => {
            let parsed = parse_run(kinds, bits);
            let taken = after_arrivals(state, parsed.items);
            RunOutcome {
                after: ChannelReceiverView::Reliable(taken.0),
                used: parsed.used,
                error: match taken.1 {
                    Some(error) => Some(ChannelReadError::Protocol(error)),
                    None => match parsed.error {
                        Some(error) => Some(ChannelReadError::Decode(error)),
                        None => None,
                    },
                },
            }
        },
    }
}

/// The messages that a receiver hands over, and its state afterwards.
pub open spec fn after_receive(v: ChannelReceiverView, scope: Set<EntityHandle>) -> (
    Seq<MessageView>,
    ChannelReceiverView,
) {
    match v {
        ChannelReceiverView::UnorderedUnreliable(state) => (
            state.incoming + ready_messages(scope, state.waiting),
            ChannelReceiverView::UnorderedUnreliable(
                ReceiverView {
                    incoming: Seq::empty(),
                    waiting: blocked_messages(scope, state.waiting),
                },
            ),
        ),
        ChannelReceiverView::SequencedUnreliable(state) => (
            state.incoming,
            ChannelReceiverView::SequencedUnreliable(
                ReliableReceiverView { incoming: Seq::empty(), ..state },
            ),
        ),
        ChannelReceiverView::Reliable(state) => (
            state.incoming,
            ChannelReceiverView::Reliable(ReliableReceiverView { incoming: Seq::empty(), ..state }),
        ),
    }
}

impl ChannelReceiver {
    /// The parts of the receiver are in order.
    pub open spec fn wf(&self) -> bool {
        match self {
            ChannelReceiver::UnorderedUnreliable(receiver) => true,
            ChannelReceiver::SequencedUnreliable(receiver) => receiver.wf(),
            ChannelReceiver::Reliable(receiver) => receiver.wf(),
        }
    }

    /// The receiving end of a channel of the given discipline, which has
    /// taken nothing.
    pub fn new(mode: ChannelMode) -> (receiver: Self)
        ensures
            receiver.wf(),
            is_fresh_receiver(receiver@, mode),
    {
        match mode {
            ChannelMode::UnorderedUnreliable => ChannelReceiver::UnorderedUnreliable(
                UnorderedUnreliableReceiver::new(),
            ),
            ChannelMode::SequencedUnreliable => ChannelReceiver::SequencedUnreliable(
                SequencedReceiver::new(),
            ),
            ChannelMode::UnorderedReliable => ChannelReceiver::Reliable(
                ReliableReceiver::unordered(),
            ),
            ChannelMode::OrderedReliable => ChannelReceiver::Reliable(ReliableReceiver::ordered()),
        }
    }

    /// Reads the run of this channel from a datagram and takes its
    /// messages.
    pub fn read_messages(
        &mut self,
        message_kinds: &MessageKinds,
        entity_waitlist: &mut EntityWaitlist,
        reader: &mut BitReader,
    ) -> (outcome: Result<(), ChannelReadError>)
        requires
            old(self).wf(),
            old(reader).wf(),
        ensures
            final(self).wf(),
            final(reader).wf(),
            final(entity_waitlist)@ == old(entity_waitlist)@,
            final(self)@ == after_run(
                old(self)@,
                message_kinds,
                old(entity_waitlist)@,
                old(reader)@,
            ).after,
            final(reader)@ == old(reader)@.skip(
                after_run(old(self)@, message_kinds, old(entity_waitlist)@, old(reader)@).used as int,
            ),
            outcome == match after_run(
                old(self)@,
                message_kinds,
                old(entity_waitlist)@,
                old(reader)@,
            ).error {
                Some(error) => Err::<(), ChannelReadError>(error),
                None => Ok::<(), ChannelReadError>(()),
            },
    {
        match self {
            ChannelReceiver::UnorderedUnreliable(receiver) => {
                match receiver.read_messages(message_kinds, entity_waitlist, reader) {
                    Ok(()) => Ok(()),
                    Err(error) => Err(ChannelReadError::Decode(error)),
                }
            },
            ChannelReceiver::SequencedUnreliable(receiver) => {
                match receiver.read_messages(message_kinds, reader) {
                    Ok(()) => Ok(()),
                    Err(error) => Err(ChannelReadError::Decode(error)),
                }
            },
            ChannelReceiver::Reliable(receiver) => receiver.read_messages(message_kinds, reader),
        }
    }

    /// Hands over the messages that can be delivered to the application.
    pub fn receive_messages(&mut self, entity_waitlist: &mut EntityWaitlist) -> (messages: Vec<
        MessageContainer,
    >)
        requires
            old(self).wf(),
        ensures
            final(self).wf(),
            final(entity_waitlist)@ == old(entity_waitlist)@,
            message_views(messages@) == after_receive(old(self)@, old(entity_waitlist)@).0,
            final(self)@ == after_receive(old(self)@, old(entity_waitlist)@).1,
    {
        match self {
            ChannelReceiver::UnorderedUnreliable(receiver) => receiver.receive_messages(
                entity_waitlist,
            ),
            ChannelReceiver::SequencedUnreliable(receiver) => receiver.receive_messages(),
            ChannelReceiver::Reliable(receiver) => receiver.receive_messages(),
        }
    }
}

/// What the sending end of a channel of the given discipline holds before
/// anything was sent.
pub open spec fn fresh_sender(mode: ChannelMode) -> ChannelSenderView {
    match mode {
        ChannelMode::UnorderedUnreliable => ChannelSenderView::UnorderedUnreliable(Seq::empty()),
        ChannelMode::SequencedUnreliable => ChannelSenderView::SequencedUnreliable(
            SequencedSenderView { next_index: 0, outgoing: Seq::empty() },
        ),
        ChannelMode::UnorderedReliable => ChannelSenderView::Reliable(
            ReliableSenderView { next_index: 0, sending: Seq::empty() },
        ),
        ChannelMode::OrderedReliable => ChannelSenderView::Reliable(
            ReliableSenderView { next_index: 0, sending: Seq::empty() },
        ),
    }
}

/// Whether a receiver is the receiving end of a channel of the given
/// discipline that has taken nothing.
pub open spec fn is_fresh_receiver(v: ChannelReceiverView, mode: ChannelMode) -> bool {
    match mode {
        ChannelMode::UnorderedUnreliable => v == ChannelReceiverView::UnorderedUnreliable(
            ReceiverView { incoming: Seq::empty(), waiting: Seq::empty() },
        ),
        ChannelMode::SequencedUnreliable => v matches ChannelReceiverView::SequencedUnreliable(s)
            && s.ordered && s.next_index == 0 && s.incoming.len() == 0 && s.delivered.len() == 0
            && s.window == Seq::new(
            crate::sequenced::SEQUENCE_WINDOW as nat,
            |k: int| crate::reliable_receiver::SlotView::Empty,
        ),
        ChannelMode::UnorderedReliable => v matches ChannelReceiverView::Reliable(s) && !s.ordered
            && s.next_index == 0 && s.incoming.len() == 0 && s.delivered.len() == 0 && s.window
            == Seq::new(
            crate::reliable_receiver::WINDOW_SIZE as nat,
            |k: int| crate::reliable_receiver::SlotView::Empty,
        ),
        ChannelMode::OrderedReliable => v matches ChannelReceiverView::Reliable(s) && s.ordered
            && s.next_index == 0 && s.incoming.len() == 0 && s.delivered.len() == 0 && s.window
            == Seq::new(
            crate::reliable_receiver::WINDOW_SIZE as nat,
            |k: int| crate::reliable_receiver::SlotView::Empty,
        ),
    }
}

} // verus!
