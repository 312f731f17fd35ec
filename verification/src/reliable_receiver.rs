//! The receiving end of a reliable channel.
//!
//! The receiver keeps a window of 256 indices that begins at the oldest
//! index it has not taken yet. A message whose index lies before the
//! window, or whose place in the window is taken, is a duplicate and is
//! left out. On an unordered channel a message is delivered as it
//! arrives; on an ordered channel it is held until every message before
//! it has arrived, so that messages are delivered in the order of their
//! indices.

use crate::bit_reader::{BitReader, DecodeError};
use crate::channel_error::ChannelProtocolError;
use crate::chunk::{indexed_views, parse_run, read_run};
use crate::message::{message_views, MessageContainer, MessageIndex, MessageKinds, MessageView};
use crate::reliable_sender::next_message_index;
use crate::wrapping_number::{spec_wrapping_diff, wrapping_diff};
use vstd::prelude::*;

verus! {

/// The number of indices in the window of a receiver.
pub const WINDOW_SIZE: usize = 256;

/// A place in the window, as mathematics sees it.
pub enum SlotView {
    /// No message with this index has arrived.
    Empty,
    /// The message with this index has arrived and was delivered.
    Seen,
    /// The message with this index has arrived and waits for the messages
    /// before it.
    Held(MessageView),
}

/// What a reliable receiver holds, as mathematics sees it.
pub struct ReliableReceiverView {
    /// Whether messages are delivered in the order of their indices.
    pub ordered: bool,
    /// The oldest index that has not been taken: the window begins here.
    pub next_index: MessageIndex,
    /// The 256 places of the window, the place of `next_index` first.
    pub window: Seq<SlotView>,
    /// The messages that can be handed over, in the order of delivery.
    pub incoming: Seq<MessageView>,
    /// The indices of all messages delivered so far, in the order of
    /// delivery.
    pub delivered: Seq<MessageIndex>,
}

/// A place in the window.
pub enum Slot {
    /// No message with this index has arrived.
    Empty,
    /// The message with this index has arrived and was delivered.
    Seen,
    /// The message with this index has arrived and waits.
    Held(MessageContainer),
}

/// The receiving end of a reliable channel.
pub struct ReliableReceiver {
    ordered: bool,
    next_index: MessageIndex,
    slots: Vec<Slot>,
    incoming_messages: Vec<MessageContainer>,
    delivered: Ghost<Seq<MessageIndex>>,
}

/// What a place in the window holds.
pub open spec fn slot_view(slot: Slot) -> SlotView {
    match slot {
        Slot::Empty => SlotView::Empty,
        Slot::Seen => SlotView::Seen,
        Slot::Held(message) => SlotView::Held(message@),
    }
}

/// The index that lies `offset` after `index`.
pub open spec fn index_after(index: MessageIndex, offset: int) -> MessageIndex {
    ((index + offset) % 65536) as MessageIndex
}

/// The state after a message has taken its place `offset` in the window.
/// A place that is taken stays as it is: the message is a duplicate.
pub open spec fn after_store(v: ReliableReceiverView, offset: int, message: MessageView) -> ReliableReceiverView {
    if !(v.window[offset] is Empty) {
        v
    } else if v.ordered {
        ReliableReceiverView { window: v.window.update(offset, SlotView::Held(message)), ..v }
    } else {
        ReliableReceiverView {
            window: v.window.update(offset, SlotView::Seen),
            incoming: v.incoming.push(message),
            delivered: v.delivered.push(index_after(v.next_index, offset)),
            ..v
        }
    }
}

/// The state after the window has moved on by one place. A message that
/// was held in the first place is delivered.
pub open spec fn after_advance(v: ReliableReceiverView) -> ReliableReceiverView {
    let moved = ReliableReceiverView {
        next_index: next_message_index(v.next_index),
        window: v.window.skip(1).push(SlotView::Empty),
        ..v
    };
    match v.window[0] {
        SlotView::Held(message) => ReliableReceiverView {
            incoming: v.incoming.push(message),
            delivered: v.delivered.push(v.next_index),
            ..moved
        },
        _ => moved,
    }
}

/// The state after the window has moved on past every place at its
/// beginning that is taken, at most `limit` places.
pub open spec fn after_flush(v: ReliableReceiverView, limit: nat) -> ReliableReceiverView
    decreases limit,
{
    if limit == 0 || v.window[0] is Empty {
        v
    } else {
        after_flush(after_advance(v), (limit - 1) as nat)
    }
}

/// What the arrival of a message with `index` makes of the state, and
/// whether it breaks the rules of the channel.
pub open spec fn after_arrival(v: ReliableReceiverView, index: MessageIndex, message: MessageView) -> (
    ReliableReceiverView,
    Option<ChannelProtocolError>,
) {
    let offset = spec_wrapping_diff(v.next_index, index);
    if offset < 0 {
        (v, None)
    } else if offset >= WINDOW_SIZE {
        (v, Some(ChannelProtocolError::OutOfWindow))
    } else {
        (after_flush(after_store(v, offset, message), WINDOW_SIZE as nat), None)
    }
}

/// Whether the message with `index` has been taken: its index lies
/// before the window, or its place in the window is taken.
pub open spec fn is_taken(v: ReliableReceiverView, index: MessageIndex) -> bool {
    let offset = spec_wrapping_diff(v.next_index, index);
    offset < 0 || (offset < WINDOW_SIZE && !(v.window[offset] is Empty))
}

impl View for ReliableReceiver {
    type V = ReliableReceiverView;

    closed spec fn view(&self) -> ReliableReceiverView {
        ReliableReceiverView {
            ordered: self.ordered,
            next_index: self.next_index,
            window: Seq::new(
                WINDOW_SIZE as nat,
                |k: int| slot_view(self.slots@[(self.next_index + k) % 256]),
            ),
            incoming: message_views(self.incoming_messages@),
            delivered: self.delivered@,
        }
    }
}

impl ReliableReceiver {
    /// The window has its 256 places.
    pub closed spec fn wf(&self) -> bool {
        self.slots@.len() == WINDOW_SIZE
    }

    /// A receiver that has taken nothing and expects index 0 first.
    pub fn new(ordered: bool) -> (receiver: Self)
        ensures
            receiver.wf(),
            receiver@ == (ReliableReceiverView {
                ordered,
                next_index: 0,
                window: Seq::new(WINDOW_SIZE as nat, |k: int| SlotView::Empty),
                incoming: Seq::empty(),
                delivered: Seq::empty(),
            }),
    {
        let mut slots: Vec<Slot> = Vec::new();
        let mut i: usize = 0;
        while i < WINDOW_SIZE
            invariant
                i <= WINDOW_SIZE,
                slots@.len() == i,
                forall|k: int| 0 <= k < i ==> #[trigger] slots@[k] is Empty,
            decreases WINDOW_SIZE - i,
        {
            slots.push(Slot::Empty);
            i += 1;
        }
        let receiver = ReliableReceiver {
            ordered,
            next_index: 0,
            slots,
            incoming_messages: Vec::new(),
            delivered: Ghost(Seq::empty()),
        };
        proof {
            assert(receiver@.window =~= Seq::new(WINDOW_SIZE as nat, |k: int| SlotView::Empty));
            assert(receiver@.incoming =~= Seq::empty());
        }
        receiver
    }

    /// A receiver of an unordered reliable channel.
    pub fn unordered() -> (receiver: Self)
        ensures
            receiver.wf(),
            !receiver@.ordered,
            receiver@.next_index == 0,
            receiver@.window == Seq::new(WINDOW_SIZE as nat, |k: int| SlotView::Empty),
            receiver@.incoming == Seq::<MessageView>::empty(),
            receiver@.delivered == Seq::<MessageIndex>::empty(),
    {
        ReliableReceiver::new(false)
    }

    /// A receiver of an ordered reliable channel.
    pub fn ordered() -> (receiver: Self)
        ensures
            receiver.wf(),
            receiver@.ordered,
            receiver@.next_index == 0,
            receiver@.window == Seq::new(WINDOW_SIZE as nat, |k: int| SlotView::Empty),
            receiver@.incoming == Seq::<MessageView>::empty(),
            receiver@.delivered == Seq::<MessageIndex>::empty(),
    {
        ReliableReceiver::new(true)
    }

    /// Moves the window on past every place at its beginning that is
    /// taken.
    fn flush(&mut self)
        requires
            old(self).wf(),
        ensures
            final(self).wf(),
            final(self)@ == after_flush(old(self)@, WINDOW_SIZE as nat),
    {
        let mut steps: usize = 0;
        while steps < WINDOW_SIZE
            invariant
                steps <= WINDOW_SIZE,
                self.wf(),
                after_flush(old(self)@, WINDOW_SIZE as nat) == after_flush(
                    self@,
                    (WINDOW_SIZE - steps) as nat,
                ),
            decreases WINDOW_SIZE - steps,
        {
            let place: usize = (self.next_index % 256) as usize;
            let ghost before = self@;
            proof {
                assert(before.window[0] == slot_view(self.slots@[place as int]));
            }
            let mut taken = Slot::Empty;
            self.slots.set_and_swap(place, &mut taken);
            match taken {
                Slot::Empty => {
                    proof {
                        assert(self@.window =~= before.window);
                        assert(self@ == before);
                    }
                    return ;
                },
                Slot::Seen => {},
                Slot::Held(message) => {
                    self.incoming_messages.push(message);
                    proof {
                        self.delivered@ = self.delivered@.push(self.next_index);
                    }
                },
            }
            self.next_index = if self.next_index == 65535 {
                0
            } else {
                self.next_index + 1
            };
            proof {
                assert(self@.window =~= before.window.skip(1).push(SlotView::Empty));
                assert(self@.incoming =~= after_advance(before).incoming);
                assert(self@ == after_advance(before));
            }
            steps += 1;
        }
    }

    /// Puts a message into its place `offset` in the window, unless the
    /// place is taken.
    fn store(&mut self, offset: u16, index: MessageIndex, message: MessageContainer)
        requires
            old(self).wf(),
            offset < 256,
            index == index_after(old(self)@.next_index, offset as int),
        ensures
            final(self).wf(),
            final(self)@ == after_store(old(self)@, offset as int, message@),
    {
        let place: usize = (index % 256) as usize;
        let ghost before = self@;
        proof {
            assert((self.next_index + offset) % 256 == place as int);
            assert(before.window[offset as int] == slot_view(self.slots@[place as int]));
        }
        let empty = match &self.slots[place] {
            Slot::Empty => true,
            _ => false,
        };
        if empty {
            if self.ordered {
                self.slots.set(place, Slot::Held(message));
                proof {
                    assert(self@.window =~= before.window.update(
                        offset as int,
                        SlotView::Held(message@),
                    ));
                }
            } else {
                self.slots.set(place, Slot::Seen);
                self.incoming_messages.push(message);
                proof {
                    self.delivered@ = self.delivered@.push(index);
                    assert(self@.window =~= before.window.update(offset as int, SlotView::Seen));
                    assert(self@.incoming =~= before.incoming.push(message@));
                }
            }
        }
    }

    /// Takes a message that has arrived with `index`. A duplicate is left
    /// out. A message beyond the window breaks the rules of the channel:
    /// nothing is taken then.
    pub fn recv_message(&mut self, index: MessageIndex, message: MessageContainer) -> (outcome: Result<
        (),
        ChannelProtocolError,
    >)
        requires
            old(self).wf(),
        ensures
            final(self).wf(),
            final(self)@ == after_arrival(old(self)@, index, message@).0,
            match after_arrival(old(self)@, index, message@).1 {
                Some(error) => outcome == Err::<(), ChannelProtocolError>(error),
                None => outcome is Ok,
            },
    {
        let offset = wrapping_diff(self.next_index, index);
        if offset < 0 {
            return Ok(());
        }
        if offset >= 256 {
            return Err(ChannelProtocolError::OutOfWindow);
        }
        self.store(offset as u16, index, message);
        self.flush();
        Ok(())
    }

    /// Hands over the messages that were delivered since the last call.
    pub fn receive_messages(&mut self) -> (messages: Vec<MessageContainer>)
        requires
            old(self).wf(),
        ensures
            final(self).wf(),
            message_views(messages@) == old(self)@.incoming,
            final(self)@ == (ReliableReceiverView { incoming: Seq::empty(), ..old(self)@ }),
    {
        let mut messages: Vec<MessageContainer> = Vec::new();
        std::mem::swap(&mut self.incoming_messages, &mut messages);
        assert(self@.incoming =~= Seq::empty());
        assert(self@.window =~= old(self)@.window);
        messages
    }

    /// The oldest index that has not been taken.
    pub fn next_index(&self) -> (index: MessageIndex)
        ensures
            index == self@.next_index,
    {
        self.next_index
    }
}

/// Why the run of a reliable channel could not be taken in full.
#[derive(Clone, Copy, PartialEq, Eq, Debug, Structural)]
pub enum ChannelReadError {
    /// The run could not be decoded to its end.
    Decode(DecodeError),
    /// A message broke the rules of the channel.
    Protocol(ChannelProtocolError),
}

/// What the arrival of messages one after the other makes of the state.
/// The first message that breaks the rules of the channel ends it: the
/// messages after it are not taken.
pub open spec fn after_arrivals(v: ReliableReceiverView, items: Seq<(MessageIndex, MessageView)>) -> (
    ReliableReceiverView,
    Option<ChannelProtocolError>,
)
    decreases items.len(),
{
    if items.len() == 0 {
        (v, None)
    } else {
        let first = after_arrival(v, items[0].0, items[0].1);
        if first.1 is Some {
            first
        } else {
            after_arrivals(first.0, items.skip(1))
        }
    }
}

impl ReliableReceiver {
    /// Reads the run of this channel from a datagram and takes its
    /// messages in order. A message that breaks the rules of the channel
    /// ends the taking and is reported; otherwise a failure to decode the
    /// run to its end is reported, after the messages before the failure
    /// were taken.
    pub fn read_messages(&mut self, message_kinds: &MessageKinds, reader: &mut BitReader) -> (outcome:
        Result<(), ChannelReadError>)
        requires
            old(self).wf(),
            old(reader).wf(),
        ensures
            final(self).wf(),
            final(reader).wf(),
            final(reader)@ == old(reader)@.skip(parse_run(message_kinds, old(reader)@).used as int),
            final(self)@ == after_arrivals(
                old(self)@,
                parse_run(message_kinds, old(reader)@).items,
            ).0,
            outcome == match after_arrivals(
                old(self)@,
                parse_run(message_kinds, old(reader)@).items,
            ).1 {
                Some(error) => Err::<(), ChannelReadError>(ChannelReadError::Protocol(error)),
                None => match parse_run(message_kinds, old(reader)@).error {
                    Some(error) => Err::<(), ChannelReadError>(ChannelReadError::Decode(error)),
                    None => Ok::<(), ChannelReadError>(()),
                },
            },
    {
        let (mut items, failure) = read_run(message_kinds, reader);
        let ghost all = indexed_views(items@);
        proof {
            assert(all.skip(0) =~= all);
        }
        let ghost mut done: int = 0;
        while items.len() > 0
            invariant
                self.wf(),
                reader.wf(),
                reader@ == old(reader)@.skip(parse_run(message_kinds, old(reader)@).used as int),
                all == parse_run(message_kinds, old(reader)@).items,
                failure == parse_run(message_kinds, old(reader)@).error,
                0 <= done <= all.len(),
                indexed_views(items@) == all.skip(done),
                after_arrivals(old(self)@, all) == after_arrivals(self@, all.skip(done)),
            decreases items@.len(),
        {
            let ghost queue = items@;
            let ghost rest = all.skip(done);
            proof {
                assert(indexed_views(queue)[0] == (queue[0].0, queue[0].1@));
            }
            let (index, message) = items.pop_front().unwrap();
            proof {
                assert(rest[0] == (index, message@));
                assert(items@ =~= queue.skip(1));
                assert(indexed_views(items@) =~= indexed_views(queue).skip(1));
                assert(rest.skip(1) =~= all.skip(done + 1));
            }
            match self.recv_message(index, message) {
                Ok(()) => {},
                Err(error) => {
                    return Err(ChannelReadError::Protocol(error));
                },
            }
            proof {
                done = done + 1;
            }
        }
        match failure {
            Some(error) => Err(ChannelReadError::Decode(error)),
            None => Ok(()),
        }
    }
}

/// Whether each index is the one after the index before it.
pub open spec fn consecutive(indices: Seq<MessageIndex>) -> bool {
    forall|i: int|
        0 <= i < indices.len() - 1 ==> #[trigger] indices[i + 1] == next_message_index(indices[i])
}

/// Whether an ordered receiver has delivered its messages in the order of
/// their indices, and expects the index after the last one delivered.
pub open spec fn in_order(v: ReliableReceiverView) -> bool {
    &&& v.ordered
    &&& v.window.len() == WINDOW_SIZE
    &&& forall|k: int| 0 <= k < v.window.len() ==> !(#[trigger] v.window[k] is Seen)
    &&& consecutive(v.delivered)
    &&& v.delivered.len() > 0 ==> v.next_index == next_message_index(v.delivered.last())
}

/// Moving the window on keeps the order of delivery.
proof fn lemma_flush_in_order(v: ReliableReceiverView, limit: nat)
    requires
        in_order(v),
    ensures
        in_order(after_flush(v, limit)),
    decreases limit,
{
    if limit > 0 && !(v.window[0] is Empty) {
        let next = after_advance(v);
        assert(v.window[0] is Held);
        assert forall|k: int| 0 <= k < next.window.len() implies !(#[trigger] next.window[k]
            is Seen) by {
            if k < WINDOW_SIZE - 1 {
                assert(next.window[k] == v.window[k + 1]);
            }
        }
        assert forall|i: int| 0 <= i < next.delivered.len() - 1 implies #[trigger] next.delivered[i
            + 1] == next_message_index(next.delivered[i]) by {
            if i < v.delivered.len() - 1 {
                assert(v.delivered[i + 1] == next_message_index(v.delivered[i]));
            }
        }
        lemma_flush_in_order(next, (limit - 1) as nat);
    }
}

/// An ordered receiver delivers its messages in the order of their
/// indices, each index one after the last: whatever arrives, in whatever
/// order, the indices delivered stay consecutive.
pub proof fn lemma_ordered_delivery(v: ReliableReceiverView, index: MessageIndex, message: MessageView)
    requires
        in_order(v),
    ensures
        in_order(after_arrival(v, index, message).0),
{
    let offset = spec_wrapping_diff(v.next_index, index);
    if 0 <= offset < WINDOW_SIZE {
        let stored = after_store(v, offset, message);
        assert forall|k: int| 0 <= k < stored.window.len() implies !(#[trigger] stored.window[k]
            is Seen) by {
            assert(!(v.window[k] is Seen));
        }
        lemma_flush_in_order(stored, WINDOW_SIZE as nat);
    }
}

/// A receiver that has taken nothing has delivered in order.
pub proof fn lemma_ordered_start(v: ReliableReceiverView)
    requires
        v.ordered,
        v.window == Seq::new(WINDOW_SIZE as nat, |k: int| SlotView::Empty),
        v.delivered.len() == 0,
    ensures
        in_order(v),
{
}

/// Whether the window is at rest: its first place is free.
pub open spec fn settled(v: ReliableReceiverView) -> bool {
    v.window.len() == WINDOW_SIZE && v.window[0] is Empty
}

/// The number of places by which the window moves on.
pub open spec fn flush_count(v: ReliableReceiverView, limit: nat) -> nat
    decreases limit,
{
    if limit == 0 || v.window[0] is Empty {
        0
    } else {
        1 + flush_count(after_advance(v), (limit - 1) as nat)
    }
}

/// What moving the window on does to it: the places passed were taken,
/// the places behind them move to the front, and free places follow.
proof fn lemma_flush_effect(v: ReliableReceiverView, limit: nat)
    requires
        v.window.len() == WINDOW_SIZE,
        limit <= WINDOW_SIZE,
    ensures
        ({
            let count = flush_count(v, limit);
            let after = after_flush(v, limit);
            &&& count <= limit
            &&& after.window.len() == WINDOW_SIZE
            &&& after.next_index == index_after(v.next_index, count as int)
            &&& forall|k: int| 0 <= k < count ==> !(#[trigger] v.window[k] is Empty)
            &&& forall|k: int|
                0 <= k < WINDOW_SIZE - count ==> #[trigger] after.window[k] == v.window[k + count]
            &&& forall|k: int|
                WINDOW_SIZE - count <= k < WINDOW_SIZE ==> #[trigger] after.window[k] is Empty
            &&& count < limit ==> after.window[0] is Empty
        }),
    decreases limit,
{
    if limit > 0 && !(v.window[0] is Empty) {
        let next = after_advance(v);
        lemma_flush_effect(next, (limit - 1) as nat);
        let inner = flush_count(next, (limit - 1) as nat);
        let count = flush_count(v, limit);
        let after = after_flush(v, limit);
        assert(count == inner + 1);
        assert forall|k: int| 0 <= k < count implies !(#[trigger] v.window[k] is Empty) by {
            if k > 0 {
                assert(next.window[k - 1] == v.window[k]);
            }
        }
        assert forall|k: int| 0 <= k < WINDOW_SIZE - count implies #[trigger] after.window[k]
            == v.window[k + count] by {
            assert(after.window[k] == next.window[k + inner]);
            assert(next.window[k + inner] == v.window[k + inner + 1]);
        }
    }
}

/// A message that has been taken is left out when it arrives again: the
/// receiver stays as it is, and delivers nothing.
pub proof fn lemma_duplicate_left_out(v: ReliableReceiverView, index: MessageIndex, message: MessageView)
    requires
        settled(v),
        is_taken(v, index),
    ensures
        after_arrival(v, index, message).0 == v,
{
}

/// The distance from the beginning of the window to an index within it,
/// after the window has moved on.
proof fn lemma_distance_after_advance(next: MessageIndex, index: MessageIndex, count: int)
    requires
        0 <= count <= 256,
        0 <= spec_wrapping_diff(next, index) < 256,
    ensures
        spec_wrapping_diff(index_after(next, count), index) == spec_wrapping_diff(next, index)
            - count,
{
}

/// After a message has arrived within the window it counts as taken, and
/// a window that was at rest is at rest again.
pub proof fn lemma_arrival_is_taken(v: ReliableReceiverView, index: MessageIndex, message: MessageView)
    requires
        v.window.len() == WINDOW_SIZE,
        0 <= spec_wrapping_diff(v.next_index, index) < WINDOW_SIZE,
    ensures
        is_taken(after_arrival(v, index, message).0, index),
        settled(after_arrival(v, index, message).0),
{
    let offset = spec_wrapping_diff(v.next_index, index);
    let stored = after_store(v, offset, message);
    lemma_flush_effect(stored, WINDOW_SIZE as nat);
    let count = flush_count(stored, WINDOW_SIZE as nat);
    let after = after_flush(stored, WINDOW_SIZE as nat);
    assert(after == after_arrival(v, index, message).0);
    assert(!(stored.window[offset] is Empty));
    lemma_distance_after_advance(v.next_index, index, count as int);
    if count <= offset {
        assert(after.window[offset - count] == stored.window[offset]);
    }
    if count == WINDOW_SIZE {
        assert(after.window[0] is Empty);
    }
}

/// Whether an index is near enough to the window for the receiver to tell
/// that it lies behind it.
pub open spec fn in_reach(v: ReliableReceiverView, index: MessageIndex) -> bool {
    spec_wrapping_diff(v.next_index, index) > -32768 + WINDOW_SIZE
}

/// Whether an index stays in reach while the given messages arrive.
pub open spec fn stays_in_reach(
    v: ReliableReceiverView,
    items: Seq<(MessageIndex, MessageView)>,
    index: MessageIndex,
) -> bool
    decreases items.len(),
{
    in_reach(v, index) && (items.len() > 0 ==> stays_in_reach(
        after_arrival(v, items[0].0, items[0].1).0,
        items.skip(1),
        index,
    ))
}

/// The distance from the beginning of the window to an index behind it,
/// after the window has moved on.
proof fn lemma_distance_behind(next: MessageIndex, index: MessageIndex, count: int)
    requires
        0 <= count <= 256,
        -32768 + 256 < spec_wrapping_diff(next, index) < 0,
    ensures
        spec_wrapping_diff(index_after(next, count), index) == spec_wrapping_diff(next, index)
            - count,
{
}

/// The arrival of a message leaves a window at rest, and its length as
/// it is.
pub proof fn lemma_arrival_settles(v: ReliableReceiverView, index: MessageIndex, message: MessageView)
    requires
        settled(v),
    ensures
        settled(after_arrival(v, index, message).0),
{
    let offset = spec_wrapping_diff(v.next_index, index);
    if 0 <= offset < WINDOW_SIZE {
        lemma_arrival_is_taken(v, index, message);
    }
}

/// A message that has been taken stays taken whatever arrives, as long as
/// its index is in reach.
pub proof fn lemma_taken_stays_taken(
    v: ReliableReceiverView,
    arriving: MessageIndex,
    message: MessageView,
    index: MessageIndex,
)
    requires
        v.window.len() == WINDOW_SIZE,
        is_taken(v, index),
        in_reach(v, index),
    ensures
        is_taken(after_arrival(v, arriving, message).0, index),
{
    let place = spec_wrapping_diff(v.next_index, arriving);
    if 0 <= place < WINDOW_SIZE {
        let offset = spec_wrapping_diff(v.next_index, index);
        let stored = after_store(v, place, message);
        lemma_flush_effect(stored, WINDOW_SIZE as nat);
        let count = flush_count(stored, WINDOW_SIZE as nat);
        let after = after_flush(stored, WINDOW_SIZE as nat);
        assert(after == after_arrival(v, arriving, message).0);
        if offset < 0 {
            lemma_distance_behind(v.next_index, index, count as int);
        } else {
            assert(!(stored.window[offset] is Empty));
            lemma_distance_after_advance(v.next_index, index, count as int);
            if count <= offset {
                assert(after.window[offset - count] == stored.window[offset]);
            }
        }
    }
}

/// No message is delivered twice: when a message has been taken, a message
/// that arrives later with its index changes nothing and is not
/// delivered, whatever has arrived in between, as long as the index has
/// stayed in reach.
pub proof fn lemma_delivered_at_most_once(
    v: ReliableReceiverView,
    items: Seq<(MessageIndex, MessageView)>,
    index: MessageIndex,
    message: MessageView,
)
    requires
        settled(v),
        is_taken(v, index),
        stays_in_reach(v, items, index),
    ensures
        after_arrival(after_arrivals(v, items).0, index, message).0 == after_arrivals(v, items).0,
    decreases items.len(),
{
    if items.len() == 0 {
        lemma_duplicate_left_out(v, index, message);
    } else {
        let first = after_arrival(v, items[0].0, items[0].1);
        lemma_arrival_settles(v, items[0].0, items[0].1);
        lemma_taken_stays_taken(v, items[0].0, items[0].1, index);
        if first.1 is Some {
            assert(first.0 == v);
            lemma_duplicate_left_out(v, index, message);
        } else {
            lemma_delivered_at_most_once(first.0, items.skip(1), index, message);
        }
    }
}

} // verus!
