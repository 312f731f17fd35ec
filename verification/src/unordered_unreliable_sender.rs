//! The sending end of an unordered, unreliable channel.
//!
//! A message is written to one datagram and then forgotten, whether the
//! datagram arrives or not.

use crate::bit_writer::BitWriter;
use crate::chunk::{chunk_bits, fills_budget, item_cost, plain_items, run_bits, write_item, WireItem};
use crate::message::{message_views, MessageContainer, MessageIndex, MessageView};
use std::collections::VecDeque;
use vstd::prelude::*;

verus! {

/// The sending end of an unordered, unreliable channel. Its view is the
/// messages that wait to be written, oldest first.
pub struct UnorderedUnreliableSender {
    outgoing_messages: VecDeque<MessageContainer>,
}

impl View for UnorderedUnreliableSender {
    type V = Seq<MessageView>;

    closed spec fn view(&self) -> Seq<MessageView> {
        message_views(self.outgoing_messages@)
    }
}

impl UnorderedUnreliableSender {
    /// A sender with nothing to send.
    pub fn new() -> (sender: Self)
        ensures
            sender@ == Seq::<MessageView>::empty(),
    {
        let sender = UnorderedUnreliableSender { outgoing_messages: VecDeque::new() };
        assert(sender@ =~= Seq::<MessageView>::empty());
        sender
    }

    /// Queues a message.
    pub fn send_message(&mut self, message: MessageContainer)
        ensures
            final(self)@ == old(self)@.push(message@),
    {
        self.outgoing_messages.push_back(message);
        assert(self@ =~= old(self)@.push(message@));
    }

    /// Nothing is ever sent again on this channel: the passing of time
    /// changes nothing.
    pub fn collect_messages(&mut self, now: u64, resend_timeout_millis: u64)
        ensures
            final(self)@ == old(self)@,
    {
    }

    /// Whether a message waits to be written.
    pub fn has_messages(&self) -> (waiting: bool)
        ensures
            waiting == (self@.len() > 0),
    {
        self.outgoing_messages.len() > 0
    }

    /// Nothing waits for an acknowledgement on this channel: a message
    /// that was delivered changes nothing.
    pub fn notify_message_delivered(&mut self, message_index: &MessageIndex)
        ensures
            final(self)@ == old(self)@,
    {
    }

    /// Writes the run of this channel into a datagram: the oldest
    /// messages, as many as fit in `budget` bits together with the bit
    /// that ends the run. They are forgotten; the others wait for the next
    /// datagram. With no budget at all nothing is written.
    pub fn write_messages(&mut self, writer: &mut BitWriter, budget: u64) -> (written: usize)
        requires
            old(writer).wf(),
        ensures
            final(writer).wf(),
            budget == 0 ==> written == 0 && final(writer)@ == old(writer)@ && final(self)@ == old(
                self)@,
            budget >= 1 ==> {
                &&& fills_budget(plain_items(old(self)@), written as nat, budget as nat)
                &&& final(writer)@ == old(writer)@ + chunk_bits(
                    plain_items(old(self)@).take(written as int),
                )
                &&& final(self)@ == old(self)@.skip(written as int)
            },
    {
        if budget == 0 {
            return 0;
        }
        let ghost all = plain_items(old(self)@);
        let mut remaining: u64 = budget - 1;
        let mut written: usize = 0;
        let mut room = true;
        let total = self.outgoing_messages.len();
        proof {
            assert(all.take(0) =~= Seq::<WireItem>::empty());
            assert(writer@ =~= old(writer)@ + run_bits(all.take(0)));
            assert(self@ =~= old(self)@.skip(0));
        }
        while room && self.outgoing_messages.len() > 0
            invariant
                writer.wf(),
                all == plain_items(old(self)@),
                total == old(self)@.len(),
                written + self.outgoing_messages@.len() == total,
                self@ == old(self)@.skip(written as int),
                writer@ == old(writer)@ + run_bits(all.take(written as int)),
                remaining + 1 + run_bits(all.take(written as int)).len() == budget,
                !room ==> written < total && chunk_bits(all.take(written + 1)).len() > budget,
            decreases self.outgoing_messages@.len() + if room { 1nat } else { 0nat },
        {
            let ghost queue = self.outgoing_messages@;
            proof {
                assert(message_views(queue)[0] == queue[0]@);
                assert(all[written as int].message == queue[0]@);
                assert(all[written as int].index is None);
                assert(all.take(written + 1).drop_last() =~= all.take(written as int));
                assert(all.take(written + 1).last() == all[written as int]);
            }
            let cost = item_cost(false, &self.outgoing_messages[0]);
            let fits = match cost {
                Some(bits) => bits <= remaining,
                None => false,
            };
            if fits {
                let message = self.outgoing_messages.pop_front().unwrap();
                write_item(writer, None, &message);
                remaining = remaining - cost.unwrap();
                proof {
                    assert(self.outgoing_messages@ =~= queue.skip(1));
                    assert(message_views(self.outgoing_messages@) =~= message_views(queue).skip(1));
                    assert(old(self)@.skip(written as int).skip(1) =~= old(self)@.skip(written + 1));
                    assert(writer@ =~= old(writer)@ + run_bits(all.take(written + 1)));
                }
                written = written + 1;
            } else {
                room = false;
            }
        }
        writer.write_bit(false);
        proof {
            assert(writer@ =~= old(writer)@ + chunk_bits(all.take(written as int)));
        }
        written
    }
}

} // verus!
