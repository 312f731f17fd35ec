//! The two ends of an ordered, unreliable channel.
//!
//! The sender gives every message the next index of the channel and
//! writes it once. The receiver delivers messages in the order of their
//! indices as far as they arrive: it holds a message that arrives early
//! in a window of 64 indices until the messages before it have arrived.
//! It does not wait for ever. When a message arrives beyond the window,
//! the window moves on until the message is its last place; the messages
//! that were held in the places passed are delivered in the order of
//! their indices, and the messages that were missing there are given up.
//! A message that arrives after its index was passed is left out.

use crate::bit_reader::BitReader;
use crate::bit_writer::BitWriter;
use crate::chunk::{
    chunk_bits, fills_budget, indexed_views, item_cost, parse_run, read_run, run_bits, write_item,
    WireItem,
};
use crate::bit_reader::DecodeError;
use crate::message::{message_views, MessageContainer, MessageIndex, MessageKinds, MessageView};
use crate::reliable_receiver::{
    after_advance, after_flush, after_store, index_after, slot_view, ReliableReceiverView, Slot,
    SlotView,
};
use crate::reliable_sender::next_message_index;
use crate::wrapping_number::{spec_wrapping_diff, wrapping_diff};
use std::collections::VecDeque;
use vstd::prelude::*;

verus! {

/// The number of indices in the window of the receiver.
pub const SEQUENCE_WINDOW: usize = 64;

/// What the sender holds, as mathematics sees it.
pub struct SequencedSenderView {
    /// The index that the next message gets.
    pub next_index: MessageIndex,
    /// The messages that wait to be written, with their indices, oldest
    /// first.
    pub outgoing: Seq<(MessageIndex, MessageView)>,
}

/// The sending end of an ordered, unreliable channel.
pub struct SequencedSender {
    next_index: MessageIndex,
    outgoing_messages: VecDeque<(MessageIndex, MessageContainer)>,
}

/// The messages of a queue as they stand in a run.
pub open spec fn indexed_items(outgoing: Seq<(MessageIndex, MessageView)>) -> Seq<WireItem> {
    outgoing.map_values(
        |e: (MessageIndex, MessageView)| WireItem { index: Some(e.0), message: e.1 },
    )
}

impl View for SequencedSender {
    type V = SequencedSenderView;

    closed spec fn view(&self) -> SequencedSenderView {
        SequencedSenderView {
            next_index: self.next_index,
            outgoing: indexed_views(self.outgoing_messages@),
        }
    }
}

impl SequencedSender {
    /// A sender with nothing to send, whose first message gets index 0.
    pub fn new() -> (sender: Self)
        ensures
            sender@ == (SequencedSenderView { next_index: 0, outgoing: Seq::empty() }),
    {
        let sender = SequencedSender { next_index: 0, outgoing_messages: VecDeque::new() };
        assert(sender@.outgoing =~= Seq::empty());
        sender
    }

    /// Queues a message under the next index.
    pub fn send_message(&mut self, message: MessageContainer)
        ensures
            final(self)@ == (SequencedSenderView {
                next_index: next_message_index(old(self)@.next_index),
                outgoing: old(self)@.outgoing.push((old(self)@.next_index, message@)),
            }),
    {
        let index = self.next_index;
        self.outgoing_messages.push_back((index, message));
        self.next_index = if index == 65535 {
            0
        } else {
            index + 1
        };
        assert(self@.outgoing =~= old(self)@.outgoing.push((index, message@)));
    }

    /// Nothing is ever sent again on this channel: the passing of time
    /// changes nothing.
    pub fn collect_messages(&mut self, now: u64, resend_timeout_millis: u64)
        ensures
            final(self)@ == old(self)@,
    {
    }

    /// Whether a message waits to be written.
    pub fn has_messages(&self) -> (waiting: bool)
        ensures
            waiting == (self@.outgoing.len() > 0),
    {
        self.outgoing_messages.len() > 0
    }

    /// Nothing waits for an acknowledgement on this channel: a message
    /// that was delivered changes nothing.
    pub fn notify_message_delivered(&mut self, message_index: &MessageIndex)
        ensures
            final(self)@ == old(self)@,
    {
    }

    /// Writes the run of this channel into a datagram: the oldest
    /// messages, as many as fit in `budget` bits together with the bit
    /// that ends the run. They are forgotten; the others wait for the next
    /// datagram. With no budget at all nothing is written.
    pub fn write_messages(&mut self, writer: &mut BitWriter, budget: u64) -> (written: usize)
        requires
            old(writer).wf(),
        ensures
            final(writer).wf(),
            final(self)@.next_index == old(self)@.next_index,
            budget == 0 ==> written == 0 && final(writer)@ == old(writer)@ && final(self)@ == old(
                self)@,
            budget >= 1 ==> {
                &&& fills_budget(indexed_items(old(self)@.outgoing), written as nat, budget as nat)
                &&& final(writer)@ == old(writer)@ + chunk_bits(
                    indexed_items(old(self)@.outgoing).take(written as int),
                )
                &&& final(self)@.outgoing == old(self)@.outgoing.skip(written as int)
            },
    {
        if budget == 0 {
            return 0;
        }
        let ghost all = indexed_items(old(self)@.outgoing);
        let mut remaining: u64 = budget - 1;
        let mut written: usize = 0;
        let mut room = true;
        let total = self.outgoing_messages.len();
        proof {
            assert(all.take(0) =~= Seq::<WireItem>::empty());
            assert(writer@ =~= old(writer)@ + run_bits(all.take(0)));
            assert(self@.outgoing =~= old(self)@.outgoing.skip(0));
        }
        while room && self.outgoing_messages.len() > 0
            invariant
                writer.wf(),
                all == indexed_items(old(self)@.outgoing),
                total == old(self)@.outgoing.len(),
                self.next_index == old(self).next_index,
                written + self.outgoing_messages@.len() == total,
                self@.outgoing == old(self)@.outgoing.skip(written as int),
                writer@ == old(writer)@ + run_bits(all.take(written as int)),
                remaining + 1 + run_bits(all.take(written as int)).len() == budget,
                !room ==> written < total && chunk_bits(all.take(written + 1)).len() > budget,
            decreases self.outgoing_messages@.len() + if room { 1nat } else { 0nat },
        {
            let ghost queue = self.outgoing_messages@;
            proof {
                assert(indexed_views(queue)[0] == (queue[0].0, queue[0].1@));
                assert(all[written as int] == (WireItem {
                    index: Some(queue[0].0),
                    message: queue[0].1@,
                }));
                assert(all.take(written + 1).drop_last() =~= all.take(written as int));
                assert(all.take(written + 1).last() == all[written as int]);
                crate::chunk::lemma_item_len(0, queue[0].0, queue[0].1@);
            }
            let cost = item_cost(true, &self.outgoing_messages[0].1);
            let fits = match cost {
                Some(bits) => bits <= remaining,
                None => false,
            };
            if fits {
                let (index, message) = self.outgoing_messages.pop_front().unwrap();
                write_item(writer, Some(index), &message);
                remaining = remaining - cost.unwrap();
                proof {
                    assert(self.outgoing_messages@ =~= queue.skip(1));
                    assert(indexed_views(self.outgoing_messages@) =~= indexed_views(queue).skip(1));
                    assert(old(self)@.outgoing.skip(written as int).skip(1) =~= old(
                        self)@.outgoing.skip(written + 1));
                    assert(writer@ =~= old(writer)@ + run_bits(all.take(written + 1)));
                }
                written = written + 1;
            } else {
                room = false;
            }
        }
        writer.write_bit(false);
        proof {
            assert(writer@ =~= old(writer)@ + chunk_bits(all.take(written as int)));
        }
        written
    }
}

/// The receiving end of an ordered, unreliable channel. Its view is that
/// of an ordered receiver with a window of 64 places.
pub struct SequencedReceiver {
    next_index: MessageIndex,
    slots: Vec<Slot>,
    incoming_messages: Vec<MessageContainer>,
    delivered: Ghost<Seq<MessageIndex>>,
}

/// The state after the window has moved on by `count` places, whether
/// they were taken or not.
pub open spec fn after_slide(v: ReliableReceiverView, count: nat) -> ReliableReceiverView
    decreases count,
{
    if count == 0 {
        v
    } else {
        after_slide(after_advance(v), (count - 1) as nat)
    }
}

/// The number of places by which the window moves on for a message that
/// arrives `offset` places after its beginning: none for a message
/// within the window; for a message beyond it as many as make the message
/// its last place, but no more than the window has.
pub open spec fn slide_count(offset: int) -> nat {
    if offset < SEQUENCE_WINDOW {
        0
    } else if offset - (SEQUENCE_WINDOW - 1) >= SEQUENCE_WINDOW {
        SEQUENCE_WINDOW as nat
    } else {
        (offset - (SEQUENCE_WINDOW - 1)) as nat
    }
}

/// What the arrival of a message with `index` makes of the state.
pub open spec fn after_sequenced_arrival(v: ReliableReceiverView, index: MessageIndex, message: MessageView) -> ReliableReceiverView {
    let offset = spec_wrapping_diff(v.next_index, index);
    if offset < 0 {
        v
    } else if offset < SEQUENCE_WINDOW {
        after_flush(after_store(v, offset, message), SEQUENCE_WINDOW as nat)
    } else {
        let slid = after_slide(v, slide_count(offset));
        let moved = ReliableReceiverView {
            next_index: index_after(index, -(SEQUENCE_WINDOW - 1)),
            ..slid
        };
        after_flush(after_store(moved, SEQUENCE_WINDOW - 1, message), SEQUENCE_WINDOW as nat)
    }
}

/// What the arrival of messages one after the other makes of the state.
pub open spec fn after_sequenced_arrivals(v: ReliableReceiverView, items: Seq<(MessageIndex, MessageView)>) -> ReliableReceiverView
    decreases items.len(),
{
    if items.len() == 0 {
        v
    } else {
        after_sequenced_arrival(
            after_sequenced_arrivals(v, items.drop_last()),
            items.last().0,
            items.last().1,
        )
    }
}

impl View for SequencedReceiver {
    type V = ReliableReceiverView;

    closed spec fn view(&self) -> ReliableReceiverView {
        ReliableReceiverView {
            ordered: true,
            next_index: self.next_index,
            window: Seq::new(
                SEQUENCE_WINDOW as nat,
                |k: int| slot_view(self.slots@[(self.next_index + k) % 64]),
            ),
            incoming: message_views(self.incoming_messages@),
            delivered: self.delivered@,
        }
    }
}

impl SequencedReceiver {
    /// The window has its 64 places.
    pub closed spec fn wf(&self) -> bool {
        self.slots@.len() == SEQUENCE_WINDOW
    }

    /// A receiver that has taken nothing and expects index 0 first.
    pub fn new() -> (receiver: Self)
        ensures
            receiver.wf(),
            receiver@ == (ReliableReceiverView {
                ordered: true,
                next_index: 0,
                window: Seq::new(SEQUENCE_WINDOW as nat, |k: int| SlotView::Empty),
                incoming: Seq::empty(),
                delivered: Seq::empty(),
            }),
    {
        let mut slots: Vec<Slot> = Vec::new();
        let mut i: usize = 0;
        while i < SEQUENCE_WINDOW
            invariant
                i <= SEQUENCE_WINDOW,
                slots@.len() == i,
                forall|k: int| 0 <= k < i ==> #[trigger] slots@[k] is Empty,
            decreases SEQUENCE_WINDOW - i,
        {
            slots.push(Slot::Empty);
            i += 1;
        }
        let receiver = SequencedReceiver {
            next_index: 0,
            slots,
            incoming_messages: Vec::new(),
            delivered: Ghost(Seq::empty()),
        };
        proof {
            assert(receiver@.window =~= Seq::new(SEQUENCE_WINDOW as nat, |k: int| SlotView::Empty));
            assert(receiver@.incoming =~= Seq::empty());
        }
        receiver
    }

    /// Moves the window on by one place and delivers the message that was
    /// held in the first place, if one was.
    fn advance(&mut self)
        requires
            old(self).wf(),
        ensures
            final(self).wf(),
            final(self)@ == after_advance(old(self)@),
    {
        let place: usize = (self.next_index % 64) as usize;
        let ghost before = self@;
        proof {
            assert(before.window[0] == slot_view(self.slots@[place as int]));
        }
        let mut taken = Slot::Empty;
        self.slots.set_and_swap(place, &mut taken);
        match taken {
            Slot::Held(message) => {
                self.incoming_messages.push(message);
                proof {
                    self.delivered@ = self.delivered@.push(self.next_index);
                }
            },
            _ => {},
        }
        self.next_index = if self.next_index == 65535 {
            0
        } else {
            self.next_index + 1
        };
        proof {
            assert(self@.window =~= before.window.skip(1).push(SlotView::Empty));
            assert(self@.incoming =~= after_advance(before).incoming);
        }
    }

    /// Whether the first place of the window is free.
    fn front_is_empty(&self) -> (empty: bool)
        requires
            self.wf(),
        ensures
            empty == (self@.window[0] is Empty),
    {
        let place: usize = (self.next_index % 64) as usize;
        assert(self@.window[0] == slot_view(self.slots@[place as int]));
        match &self.slots[place] {
            Slot::Empty => true,
            _ => false,
        }
    }

    /// Moves the window on past every place at its beginning that is
    /// taken.
    fn flush(&mut self)
        requires
            old(self).wf(),
        ensures
            final(self).wf(),
            final(self)@ == after_flush(old(self)@, SEQUENCE_WINDOW as nat),
    {
        let mut steps: usize = 0;
        while steps < SEQUENCE_WINDOW
            invariant
                steps <= SEQUENCE_WINDOW,
                self.wf(),
                after_flush(old(self)@, SEQUENCE_WINDOW as nat) == after_flush(
                    self@,
                    (SEQUENCE_WINDOW - steps) as nat,
                ),
            decreases SEQUENCE_WINDOW - steps,
        {
            if self.front_is_empty() {
                return ;
            }
            self.advance();
            steps += 1;
        }
    }

    /// Puts a message into its place `offset` in the window, unless the
    /// place is taken.
    fn store(&mut self, offset: u16, index: MessageIndex, message: MessageContainer)
        requires
            old(self).wf(),
            offset < 64,
            index == index_after(old(self)@.next_index, offset as int),
        ensures
            final(self).wf(),
            final(self)@ == after_store(old(self)@, offset as int, message@),
    {
        let place: usize = (index % 64) as usize;
        let ghost before = self@;
        proof {
            assert((self.next_index + offset) % 64 == place as int);
            assert(before.window[offset as int] == slot_view(self.slots@[place as int]));
        }
        let empty = match &self.slots[place] {
            Slot::Empty => true,
            _ => false,
        };
        if empty {
            self.slots.set(place, Slot::Held(message));
            proof {
                assert(self@.window =~= before.window.update(
                    offset as int,
                    SlotView::Held(message@),
                ));
            }
        }
    }

    /// Moves the window on by `count` places, whether they are taken or
    /// not.
    fn slide(&mut self, count: u16)
        requires
            old(self).wf(),
            count <= 64,
        ensures
            final(self).wf(),
            final(self)@ == after_slide(old(self)@, count as nat),
    {
        let mut done: u16 = 0;
        while done < count
            invariant
                done <= count <= 64,
                self.wf(),
                after_slide(old(self)@, count as nat) == after_slide(self@, (count - done) as nat),
            decreases count - done,
        {
            self.advance();
            done += 1;
        }
    }

    /// Lets the window begin at `start`. The places of the window stay as
    /// they are: either the window begins there already, or all its
    /// places are free.
    fn rebase(&mut self, start: MessageIndex)
        requires
            old(self).wf(),
            old(self)@.next_index == start || forall|k: int|
                0 <= k < SEQUENCE_WINDOW ==> #[trigger] old(self)@.window[k] is Empty,
        ensures
            final(self).wf(),
            final(self)@ == (ReliableReceiverView { next_index: start, ..old(self)@ }),
    {
        let ghost before = self@;
        let ghost slots = self.slots@;
        let ghost from = self.next_index;
        self.next_index = start;
        proof {
            if from != start {
                assert forall|p: int| 0 <= p < 64 implies slots[p] is Empty by {
                    let k = (p - from % 64 + 64) % 64;
                    assert((from + k) % 64 == p);
                    assert(before.window[k] == slot_view(slots[p]));
                }
            }
            assert(self@.window =~= before.window);
        }
    }

    /// Takes a message that has arrived with `index`.
    pub fn recv_message(&mut self, index: MessageIndex, message: MessageContainer)
        requires
            old(self).wf(),
        ensures
            final(self).wf(),
            final(self)@ == after_sequenced_arrival(old(self)@, index, message@),
    {
        let offset = wrapping_diff(self.next_index, index);
        if offset < 0 {
            return ;
        }
        if offset < 64 {
            self.store(offset as u16, index, message);
            self.flush();
            return ;
        }
        let beyond: u16 = (offset - 63) as u16;
        let count: u16 = if beyond >= 64 {
            64
        } else {
            beyond
        };
        self.slide(count);
        let start: MessageIndex = if index >= 63 {
            index - 63
        } else {
            index + (65536 - 63) as u16
        };
        proof {
            assert(count == slide_count(offset as int));
            lemma_slide_effect(old(self)@, count as nat);
            lemma_window_start(old(self)@.next_index, index, start, count as int);
        }
        self.rebase(start);
        self.store(63, index, message);
        self.flush();
    }

    /// Hands over the messages that were delivered since the last call.
    pub fn receive_messages(&mut self) -> (messages: Vec<MessageContainer>)
        requires
            old(self).wf(),
        ensures
            final(self).wf(),
            message_views(messages@) == old(self)@.incoming,
            final(self)@ == (ReliableReceiverView { incoming: Seq::empty(), ..old(self)@ }),
    {
        let mut messages: Vec<MessageContainer> = Vec::new();
        std::mem::swap(&mut self.incoming_messages, &mut messages);
        assert(self@.incoming =~= Seq::empty());
        assert(self@.window =~= old(self)@.window);
        messages
    }

    /// Reads the run of this channel from a datagram and takes its
    /// messages in order. A failure to decode the run to its end is
    /// reported after the messages before the failure were taken.
    pub fn read_messages(&mut self, message_kinds: &MessageKinds, reader: &mut BitReader) -> (outcome:
        Result<(), DecodeError>)
        requires
            old(self).wf(),
            old(reader).wf(),
        ensures
            final(self).wf(),
            final(reader).wf(),
            final(reader)@ == old(reader)@.skip(parse_run(message_kinds, old(reader)@).used as int),
            final(self)@ == after_sequenced_arrivals(
                old(self)@,
                parse_run(message_kinds, old(reader)@).items,
            ),
            outcome == match parse_run(message_kinds, old(reader)@).error {
                Some(error) => Err::<(), DecodeError>(error),
                None => Ok::<(), DecodeError>(()),
            },
    {
        let (mut items, failure) = read_run(message_kinds, reader);
        let ghost all = indexed_views(items@);
        proof {
            assert(all.take(0) =~= Seq::empty());
            assert(all.skip(0) =~= all);
        }
        let ghost mut done: int = 0;
        while items.len() > 0
            invariant
                self.wf(),
                0 <= done <= all.len(),
                indexed_views(items@) == all.skip(done),
                self@ == after_sequenced_arrivals(old(self)@, all.take(done)),
            decreases items@.len(),
        {
            let ghost queue = items@;
            proof {
                assert(indexed_views(queue)[0] == (queue[0].0, queue[0].1@));
            }
            let (index, message) = items.pop_front().unwrap();
            proof {
                assert(indexed_views(queue).len() == queue.len());
                assert(all.skip(done).len() == all.len() - done);
                assert(all.skip(done)[0] == all[done]);
                assert(all[done] == (index, message@));
                assert(items@ =~= queue.skip(1));
                assert(indexed_views(items@) =~= indexed_views(queue).skip(1));
                assert(all.skip(done).skip(1) =~= all.skip(done + 1));
                assert(all.take(done + 1).drop_last() =~= all.take(done));
                assert(all.take(done + 1).last() == all[done]);
            }
            self.recv_message(index, message);
            proof {
                done = done + 1;
            }
        }
        proof {
            assert(all.take(done) =~= all);
        }
        match failure {
            Some(error) => Err(error),
            None => Ok(()),
        }
    }
}

/// The index at which the window begins after it has moved on for a
/// message beyond it.
proof fn lemma_window_start(next: MessageIndex, index: MessageIndex, start: MessageIndex, count: int)
    requires
        spec_wrapping_diff(next, index) >= 64,
        count == slide_count(spec_wrapping_diff(next, index)),
        start == if index >= 63 {
            (index - 63) as MessageIndex
        } else {
            (index + 65536 - 63) as MessageIndex
        },
    ensures
        start == index_after(index, -(SEQUENCE_WINDOW - 1)),
        index == index_after(start, 63),
        count < 64 ==> index_after(next, count) == start,
{
}

/// Moving the window on by places keeps its length; the index at which it
/// begins moves on by as much, and the places at its end are free.
proof fn lemma_slide_effect(v: ReliableReceiverView, count: nat)
    requires
        v.window.len() == SEQUENCE_WINDOW,
        count <= SEQUENCE_WINDOW,
    ensures
        after_slide(v, count).window.len() == SEQUENCE_WINDOW,
        after_slide(v, count).ordered == v.ordered,
        after_slide(v, count).next_index == index_after(v.next_index, count as int),
        forall|k: int|
            SEQUENCE_WINDOW - count <= k < SEQUENCE_WINDOW ==> #[trigger] after_slide(
                v,
                count,
            ).window[k] is Empty,
    decreases count,
{
    if count > 0 {
        let next = after_advance(v);
        lemma_slide_effect(next, (count - 1) as nat);
        let after = after_slide(v, count);
        assert forall|k: int| SEQUENCE_WINDOW - count <= k < SEQUENCE_WINDOW implies #[trigger] after.window[k] is Empty by {
            if k == SEQUENCE_WINDOW - count {
                lemma_slide_keeps_free(next, (count - 1) as nat, (SEQUENCE_WINDOW - 1) as int);
            }
        }
    }
}

/// A free place stays free while the window moves on, and comes nearer
/// to its beginning.
proof fn lemma_slide_keeps_free(v: ReliableReceiverView, count: nat, place: int)
    requires
        v.window.len() == SEQUENCE_WINDOW,
        count <= place < SEQUENCE_WINDOW,
        v.window[place] is Empty,
    ensures
        after_slide(v, count).window[place - count] is Empty,
    decreases count,
{
    if count > 0 {
        let next = after_advance(v);
        assert(next.window[place - 1] == v.window[place]);
        lemma_slide_keeps_free(next, (count - 1) as nat, place - 1);
    }
}

} // verus!
