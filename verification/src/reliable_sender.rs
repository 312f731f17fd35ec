//! The sending end of a reliable channel.
//!
//! Every message gets the next index of the channel and is kept until its
//! delivery is acknowledged. A message is due when it has never been
//! written, and again whenever the time to wait for its acknowledgement
//! has passed since it was written last. Due messages are written into
//! the next datagram that has room for them.

use crate::bit_writer::BitWriter;
use crate::channel_error::ChannelProtocolError;
use crate::chunk::{chunk_bits, fills_budget, item_cost, run_bits, write_item, WireItem};
use crate::message::{MessageContainer, MessageIndex, MessageView};
use std::collections::VecDeque;
use vstd::prelude::*;

verus! {

/// The largest number of messages that may wait for their
/// acknowledgement at once: as many as the window of the receiver holds.
pub const MAX_OUTSTANDING: usize = 256;

/// A message that waits for its acknowledgement, as mathematics sees it.
pub struct OutgoingView {
    /// The index of the message in its channel.
    pub index: MessageIndex,
    /// The message.
    pub message: MessageView,
    /// When the message was written last, in milliseconds; `None` if it
    /// never was.
    pub last_sent: Option<u64>,
    /// Whether the message is to be written into the next datagram.
    pub due: bool,
    /// How often the message was written.
    pub sends: u32,
}

/// What a reliable sender holds, as mathematics sees it.
pub struct ReliableSenderView {
    /// The index that the next message gets.
    pub next_index: MessageIndex,
    /// The messages that wait for their acknowledgement, oldest first.
    pub sending: Seq<OutgoingView>,
}

/// What is kept of a message beside the message itself.
#[derive(Clone, Copy, PartialEq, Eq, Debug, Structural)]
pub struct Pending {
    /// The index of the message in its channel.
    pub index: MessageIndex,
    /// When the message was written last.
    pub last_sent: Option<u64>,
    /// Whether the message is to be written into the next datagram.
    pub due: bool,
    /// How often the message was written.
    pub sends: u32,
}

/// The sending end of a reliable channel.
pub struct ReliableSender {
    next_index: MessageIndex,
    messages: VecDeque<MessageContainer>,
    pending: Vec<Pending>,
}

/// The index after `index`.
pub open spec fn next_message_index(index: MessageIndex) -> MessageIndex {
    if index == 65535 {
        0
    } else {
        (index + 1) as MessageIndex
    }
}

/// A message as it stands in a run.
pub open spec fn wire_item(entry: OutgoingView) -> WireItem {
    WireItem { index: Some(entry.index), message: entry.message }
}

/// The messages among `sending` that are due, as they stand in a run.
pub open spec fn due_items(sending: Seq<OutgoingView>) -> Seq<WireItem>
    decreases sending.len(),
{
    if sending.len() == 0 {
        Seq::empty()
    } else if sending.last().due {
        due_items(sending.drop_last()).push(wire_item(sending.last()))
    } else {
        due_items(sending.drop_last())
    }
}

/// A message after it was written at `now`.
pub open spec fn written_at(entry: OutgoingView, now: u64) -> OutgoingView {
    OutgoingView {
        last_sent: Some(now),
        due: false,
        sends: if entry.sends < u32::MAX {
            (entry.sends + 1) as u32
        } else {
            entry.sends
        },
        ..entry
    }
}

/// Whether a message is due although it was written `max_sends` times or
/// more: it has used up its tries.
pub open spec fn is_exhausted(entry: OutgoingView, max_sends: u32) -> bool {
    entry.due && entry.sends >= max_sends
}

/// Whether any message has used up its tries.
pub open spec fn any_exhausted(sending: Seq<OutgoingView>, max_sends: u32) -> bool {
    exists|i: int| 0 <= i < sending.len() && is_exhausted(#[trigger] sending[i], max_sends)
}

/// Whether the time to wait for the acknowledgement of a message has
/// passed at `now`.
pub open spec fn timed_out(entry: OutgoingView, now: u64, timeout: u64) -> bool {
    entry.last_sent matches Some(sent) && now >= sent && now - sent >= timeout
}

/// A message after time has passed: it is due if it was, or if the time
/// to wait for its acknowledgement has passed.
pub open spec fn refreshed(entry: OutgoingView, now: u64, timeout: u64) -> OutgoingView {
    OutgoingView { due: entry.due || timed_out(entry, now, timeout), ..entry }
}

/// The messages among `sending` that do not bear `index`.
pub open spec fn without_index(sending: Seq<OutgoingView>, index: MessageIndex) -> Seq<OutgoingView>
    decreases sending.len(),
{
    if sending.len() == 0 {
        Seq::empty()
    } else if sending.last().index == index {
        without_index(sending.drop_last(), index)
    } else {
        without_index(sending.drop_last(), index).push(sending.last())
    }
}

/// More messages hold no fewer due messages.
pub proof fn lemma_due_count_grows(sending: Seq<OutgoingView>, a: int, b: int)
    requires
        0 <= a <= b <= sending.len(),
    ensures
        due_items(sending.take(a)).len() <= due_items(sending.take(b)).len(),
    decreases b - a,
{
    if a < b {
        assert(sending.take(b).drop_last() =~= sending.take(b - 1));
        lemma_due_count_grows(sending, a, b - 1);
    }
}

/// The due messages among the first messages are the first of the due
/// messages.
pub proof fn lemma_due_items_prefix(sending: Seq<OutgoingView>, j: int)
    requires
        0 <= j <= sending.len(),
    ensures
        due_items(sending.take(j)).len() <= due_items(sending).len(),
        due_items(sending.take(j)) == due_items(sending).take(
            due_items(sending.take(j)).len() as int,
        ),
    decreases sending.len(),
{
    if j == sending.len() {
        assert(sending.take(j) =~= sending);
        assert(due_items(sending).take(due_items(sending).len() as int) =~= due_items(sending));
    } else {
        let front = sending.drop_last();
        assert(front.take(j) =~= sending.take(j));
        lemma_due_items_prefix(front, j);
        let count = due_items(sending.take(j)).len() as int;
        assert(due_items(front).take(count) =~= due_items(sending).take(count));
    }
}

impl View for ReliableSender {
    type V = ReliableSenderView;

    closed spec fn view(&self) -> ReliableSenderView {
        ReliableSenderView {
            next_index: self.next_index,
            sending: Seq::new(
                self.pending@.len(),
                |i: int|
                    OutgoingView {
                        index: self.pending@[i].index,
                        message: self.messages@[i]@,
                        last_sent: self.pending@[i].last_sent,
                        due: self.pending@[i].due,
                        sends: self.pending@[i].sends,
                    },
            ),
        }
    }
}

impl ReliableSender {
    /// Every message has its record, and there are no more messages than
    /// the channel can tell apart.
    pub closed spec fn wf(&self) -> bool {
        self.messages@.len() == self.pending@.len() && self.pending@.len() <= MAX_OUTSTANDING
    }

    /// A well-formed sender holds no more messages than the channel can
    /// tell apart.
    pub proof fn lemma_bounded(&self)
        requires
            self.wf(),
        ensures
            self@.sending.len() <= MAX_OUTSTANDING,
    {
    }

    /// A sender with nothing to send, whose first message gets index 0.
    pub fn new() -> (sender: Self)
        ensures
            sender.wf(),
            sender@ == (ReliableSenderView { next_index: 0, sending: Seq::empty() }),
    {
        let sender = ReliableSender {
            next_index: 0,
            messages: VecDeque::new(),
            pending: Vec::new(),
        };
        assert(sender@.sending =~= Seq::empty());
        sender
    }

    /// Queues a message under the next index: it is due at once. Fails,
    /// and changes nothing, where as many messages wait for their
    /// acknowledgement as the channel can tell apart.
    pub fn send_message(&mut self, message: MessageContainer) -> (outcome: Result<
        MessageIndex,
        ChannelProtocolError,
    >)
        requires
            old(self).wf(),
        ensures
            final(self).wf(),
            old(self)@.sending.len() >= MAX_OUTSTANDING ==> outcome == Err::<
                MessageIndex,
                ChannelProtocolError,
            >(ChannelProtocolError::TooManyOutstanding) && final(self)@ == old(self)@,
            old(self)@.sending.len() < MAX_OUTSTANDING ==> outcome == Ok::<
                MessageIndex,
                ChannelProtocolError,
            >(old(self)@.next_index) && final(self)@ == (ReliableSenderView {
                next_index: next_message_index(old(self)@.next_index),
                sending: old(self)@.sending.push(
                    OutgoingView {
                        index: old(self)@.next_index,
                        message: message@,
                        last_sent: None,
                        due: true,
                        sends: 0,
                    },
                ),
            }),
    {
        if self.pending.len() >= MAX_OUTSTANDING {
            return Err(ChannelProtocolError::TooManyOutstanding);
        }
        let index = self.next_index;
        self.messages.push_back(message);
        self.pending.push(Pending { index, last_sent: None, due: true, sends: 0 });
        self.next_index = if index == 65535 {
            0
        } else {
            index + 1
        };
        assert(self@.sending =~= old(self)@.sending.push(
            OutgoingView { index, message: message@, last_sent: None, due: true, sends: 0 },
        ));
        Ok(index)
    }

    /// Whether a message has used up its tries: it is due although it was
    /// written `max_sends` times or more. The connection is to be torn
    /// down then.
    pub fn retries_exhausted(&self, max_sends: u32) -> (exhausted: bool)
        requires
            self.wf(),
        ensures
            exhausted == any_exhausted(self@.sending, max_sends),
    {
        let mut i: usize = 0;
        while i < self.pending.len()
            invariant
                i <= self.pending.len(),
                self.wf(),
                forall|j: int| 0 <= j < i ==> !is_exhausted(#[trigger] self@.sending[j], max_sends),
            decreases self.pending.len() - i,
        {
            if self.pending[i].due && self.pending[i].sends >= max_sends {
                assert(is_exhausted(self@.sending[i as int], max_sends));
                return true;
            }
            i += 1;
        }
        false
    }

    /// Whether the sender can take another message.
    pub fn has_room(&self) -> (room: bool)
        requires
            self.wf(),
        ensures
            room == (self@.sending.len() < MAX_OUTSTANDING),
    {
        self.pending.len() < MAX_OUTSTANDING
    }

    /// Takes note of the time: every message whose acknowledgement has
    /// been waited for `resend_timeout_millis` or longer is due again.
    pub fn collect_messages(&mut self, now: u64, resend_timeout_millis: u64)
        requires
            old(self).wf(),
        ensures
            final(self).wf(),
            final(self)@.next_index == old(self)@.next_index,
            final(self)@.sending.len() == old(self)@.sending.len(),
            forall|i: int|
                0 <= i < old(self)@.sending.len() ==> #[trigger] final(self)@.sending[i]
                    == refreshed(old(self)@.sending[i], now, resend_timeout_millis),
    {
        let mut i: usize = 0;
        while i < self.pending.len()
            invariant
                i <= self.pending.len(),
                self.wf(),
                self.messages == old(self).messages,
                self.next_index == old(self).next_index,
                self.pending@.len() == old(self).pending@.len(),
                forall|j: int|
                    0 <= j < i ==> #[trigger] self@.sending[j] == refreshed(
                        old(self)@.sending[j],
                        now,
                        resend_timeout_millis,
                    ),
                forall|j: int|
                    i <= j < self.pending@.len() ==> #[trigger] self.pending@[j] == old(
                        self).pending@[j],
            decreases self.pending.len() - i,
        {
            let entry = self.pending[i];
            let expired = match entry.last_sent {
                Some(sent) => now >= sent && now - sent >= resend_timeout_millis,
                None => false,
            };
            let ghost before = self@.sending;
            self.pending.set(
                i,
                Pending {
                    index: entry.index,
                    last_sent: entry.last_sent,
                    due: entry.due || expired,
                    sends: entry.sends,
                },
            );
            proof {
                assert forall|j: int| 0 <= j < i implies #[trigger] self@.sending[j] == refreshed(
                    old(self)@.sending[j],
                    now,
                    resend_timeout_millis,
                ) by {
                    assert(self@.sending[j] == before[j]);
                }
                assert(self@.sending[i as int] == refreshed(
                    old(self)@.sending[i as int],
                    now,
                    resend_timeout_millis,
                ));
            }
            i += 1;
        }
    }

    /// Whether a message is due.
    pub fn has_messages(&self) -> (waiting: bool)
        requires
            self.wf(),
        ensures
            waiting == (due_items(self@.sending).len() > 0),
    {
        let ghost all = self@.sending;
        let mut i: usize = 0;
        assert(all.take(0) =~= Seq::empty());
        while i < self.pending.len()
            invariant
                i <= self.pending.len(),
                self.wf(),
                all == self@.sending,
                due_items(all.take(i as int)).len() == 0,
            decreases self.pending.len() - i,
        {
            proof {
                assert(all.take(i + 1).drop_last() =~= all.take(i as int));
                assert(all.take(i + 1).last() == all[i as int]);
            }
            if self.pending[i].due {
                proof {
                    lemma_due_count_grows(all, i + 1, all.len() as int);
                    assert(all.take(all.len() as int) =~= all);
                }
                return true;
            }
            i += 1;
        }
        assert(all.take(i as int) =~= all);
        false
    }

    /// The delivery of the message with `message_index` was acknowledged:
    /// it is kept no longer.
    pub fn notify_message_delivered(&mut self, message_index: &MessageIndex)
        requires
            old(self).wf(),
        ensures
            final(self).wf(),
            final(self)@ == (ReliableSenderView {
                next_index: old(self)@.next_index,
                sending: without_index(old(self)@.sending, *message_index),
            }),
    {
        let ghost all = self@.sending;
        let mut messages: VecDeque<MessageContainer> = VecDeque::new();
        std::mem::swap(&mut self.messages, &mut messages);
        let mut pending: Vec<Pending> = Vec::new();
        std::mem::swap(&mut self.pending, &mut pending);
        let total = pending.len();
        let mut i: usize = 0;
        assert(all.take(0) =~= Seq::empty());
        assert(self@.sending =~= without_index(all.take(0), *message_index));
        while i < total
            invariant
                i <= total,
                total == all.len(),
                total <= MAX_OUTSTANDING,
                pending@ == old(self).pending@,
                pending@.len() == total,
                messages@.len() == total - i,
                forall|j: int| 0 <= j < total - i ==> (#[trigger] messages@[j])@ == all[i + j].message,
                forall|j: int|
                    0 <= j < total ==> #[trigger] all[j] == (OutgoingView {
                        index: pending@[j].index,
                        message: all[j].message,
                        last_sent: pending@[j].last_sent,
                        due: pending@[j].due,
                        sends: pending@[j].sends,
                    }),
                self.next_index == old(self).next_index,
                self.messages@.len() == self.pending@.len(),
                self.pending@.len() <= i,
                self@.sending == without_index(all.take(i as int), *message_index),
            decreases total - i,
        {
            let ghost before = self@.sending;
            let message = messages.pop_front().unwrap();
            let entry = pending[i];
            proof {
                assert(all.take(i + 1).drop_last() =~= all.take(i as int));
                assert(all.take(i + 1).last() == all[i as int]);
                assert(message@ == all[i as int].message);
            }
            if entry.index != *message_index {
                self.messages.push_back(message);
                self.pending.push(entry);
                assert(self@.sending =~= before.push(all[i as int]));
            } else {
                assert(self@.sending =~= before);
            }
            i += 1;
        }
        assert(all.take(total as int) =~= all);
    }

    /// Writes the run of this channel into a datagram: the due messages,
    /// oldest first, as many as fit in `budget` bits together with the bit
    /// that ends the run. Each message written counts as written at `now`
    /// and is due no longer; every message is kept. The indices of the
    /// messages written are handed back. With no budget at all nothing
    /// is written.
    pub fn write_messages(&mut self, writer: &mut BitWriter, budget: u64, now: u64) -> (written: Vec<
        MessageIndex,
    >)
        requires
            old(self).wf(),
            old(writer).wf(),
        ensures
            final(self).wf(),
            final(writer).wf(),
            final(self)@.next_index == old(self)@.next_index,
            final(self)@.sending.len() == old(self)@.sending.len(),
            budget == 0 ==> written@.len() == 0 && final(writer)@ == old(writer)@ && final(self)@
                == old(self)@,
            budget >= 1 ==> {
                let items = due_items(old(self)@.sending);
                &&& fills_budget(items, written@.len(), budget as nat)
                &&& final(writer)@ == old(writer)@ + chunk_bits(items.take(written@.len() as int))
                &&& forall|k: int|
                    0 <= k < written@.len() ==> items[k].index == Some(#[trigger] written@[k])
                &&& forall|j: int|
                    0 <= j < old(self)@.sending.len() ==> #[trigger] final(self)@.sending[j] == (
                    if old(self)@.sending[j].due && due_items(old(self)@.sending.take(j)).len()
                        < written@.len() {
                        written_at(old(self)@.sending[j], now)
                    } else {
                        old(self)@.sending[j]
                    })
            },
    {
        let mut written: Vec<MessageIndex> = Vec::new();
        if budget == 0 {
            return written;
        }
        let ghost all = old(self)@.sending;
        let ghost items = due_items(all);
        let mut remaining: u64 = budget - 1;
        let mut room = true;
        let mut j: usize = 0;
        proof {
            assert(all.take(0) =~= Seq::empty());
            assert(items.take(0) =~= Seq::empty());
            assert(writer@ =~= old(writer)@ + run_bits(items.take(0)));
        }
        while room && j < self.pending.len()
            invariant
                j <= self.pending.len(),
                self.wf(),
                writer.wf(),
                all == old(self)@.sending,
                items == due_items(all),
                self.messages == old(self).messages,
                self.next_index == old(self).next_index,
                self.pending@.len() == old(self).pending@.len(),
                written@.len() == due_items(all.take(j as int)).len(),
                written@.len() <= items.len(),
                writer@ == old(writer)@ + run_bits(items.take(written@.len() as int)),
                remaining + 1 + run_bits(items.take(written@.len() as int)).len() == budget,
                forall|k: int|
                    0 <= k < written@.len() ==> items[k].index == Some(#[trigger] written@[k]),
                forall|i: int|
                    0 <= i < j ==> #[trigger] self@.sending[i] == (if all[i].due {
                        written_at(all[i], now)
                    } else {
                        all[i]
                    }),
                forall|i: int|
                    j <= i < self.pending@.len() ==> #[trigger] self.pending@[i] == old(
                        self).pending@[i],
                !room ==> j < self.pending@.len() && all[j as int].due && chunk_bits(
                    items.take((written@.len() + 1) as int),
                ).len() > budget && written@.len() < items.len(),
            decreases self.pending.len() - j + if room { 1nat } else { 0nat },
        {
            let entry = self.pending[j];
            let ghost count = written@.len() as int;
            proof {
                assert(all.take(j + 1).drop_last() =~= all.take(j as int));
                assert(all.take(j + 1).last() == all[j as int]);
                lemma_due_items_prefix(all, j + 1);
                lemma_due_items_prefix(all, j as int);
            }
            if entry.due {
                proof {
                    assert(due_items(all.take(j + 1)) == due_items(all.take(j as int)).push(
                        wire_item(all[j as int]),
                    ));
                    assert(items[count] == wire_item(all[j as int]));
                    assert(items.take(count + 1).drop_last() =~= items.take(count));
                    assert(items.take(count + 1).last() == items[count]);
                }
                let cost = item_cost(true, &self.messages[j]);
                let fits = match cost {
                    Some(bits) => bits <= remaining,
                    None => false,
                };
                if fits {
                    write_item(writer, Some(entry.index), &self.messages[j]);
                    remaining = remaining - cost.unwrap();
                    let ghost before = self@.sending;
                    self.pending.set(
                        j,
                        Pending {
                            index: entry.index,
                            last_sent: Some(now),
                            due: false,
                            sends: if entry.sends < u32::MAX {
                                entry.sends + 1
                            } else {
                                entry.sends
                            },
                        },
                    );
                    written.push(entry.index);
                    proof {
                        assert(writer@ =~= old(writer)@ + run_bits(items.take(count + 1)));
                        assert forall|i: int| 0 <= i < j implies #[trigger] self@.sending[i] == (
                        if all[i].due {
                            written_at(all[i], now)
                        } else {
                            all[i]
                        }) by {
                            assert(self@.sending[i] == before[i]);
                        }
                        assert(self@.sending[j as int] == written_at(all[j as int], now));
                    }
                    j += 1;
                } else {
                    room = false;
                }
            } else {
                assert(self@.sending[j as int] == all[j as int]);
                j += 1;
            }
        }
        writer.write_bit(false);
        proof {
            let n = written@.len() as int;
            assert(writer@ =~= old(writer)@ + chunk_bits(items.take(n)));
            if room {
                assert(all.take(j as int) =~= all);
            }
            assert forall|i: int| 0 <= i < all.len() implies #[trigger] self@.sending[i] == (if all[i].due
                && due_items(all.take(i)).len() < n {
                written_at(all[i], now)
            } else {
                all[i]
            }) by {
                if i < j {
                    if all[i].due {
                        assert(all.take(i + 1).drop_last() =~= all.take(i));
                        assert(all.take(i + 1).last() == all[i]);
                        lemma_due_count_grows(all, i + 1, j as int);
                    }
                } else {
                    lemma_due_count_grows(all, j as int, i);
                }
            }
        }
        written
    }
}

/// Writing and the passing of time keep every message: a message leaves
/// the sender only when its delivery is acknowledged, and then no other
/// message leaves with it.
pub proof fn lemma_kept_until_acknowledged(sending: Seq<OutgoingView>, index: MessageIndex, i: int)
    requires
        0 <= i < sending.len(),
        sending[i].index != index,
    ensures
        without_index(sending, index).contains(sending[i]),
    decreases sending.len(),
{
    let front = sending.drop_last();
    if i < front.len() {
        lemma_kept_until_acknowledged(front, index, i);
        let kept = without_index(front, index);
        let k = choose|k: int| 0 <= k < kept.len() && kept[k] == front[i];
        if sending.last().index != index {
            assert(kept.push(sending.last())[k] == sending[i]);
        }
    } else {
        let kept = without_index(front, index);
        assert(kept.push(sending.last())[kept.len() as int] == sending[i]);
    }
}

} // verus!
