//! Which messages travelled in which datagram.
//!
//! A reliable channel learns that a message was delivered when the
//! datagram that carried it is acknowledged. This module remembers, for
//! every datagram that was sent and is not yet acknowledged, the messages
//! of the reliable channels that it carried.

use crate::ack_manager::SentPacket;
use crate::channel_set::{written_views, ChannelId};
use crate::message::MessageIndex;
use std::collections::VecDeque;
use vstd::prelude::*;

verus! {

/// A message of a reliable channel: the number of the channel and the
/// index of the message.
pub type Carried = (ChannelId, MessageIndex);

/// A datagram that was sent, with the messages that it carried, as
/// mathematics sees it.
pub struct InFlightView {
    /// The index of the datagram.
    pub packet_index: u16,
    /// The messages that the datagram carried.
    pub messages: Seq<Carried>,
}

/// A datagram that was sent, with the messages that it carried.
pub struct InFlight {
    packet_index: u16,
    messages: Vec<Carried>,
}

impl View for InFlight {
    type V = InFlightView;

    closed spec fn view(&self) -> InFlightView {
        InFlightView { packet_index: self.packet_index, messages: self.messages@ }
    }
}

/// The datagrams that were sent and are not yet acknowledged, with the
/// messages that they carried.
pub struct DeliveryTracker {
    in_flight: VecDeque<InFlight>,
}

/// What the datagrams of a list are.
pub open spec fn in_flight_views(list: Seq<InFlight>) -> Seq<InFlightView> {
    list.map_values(|e: InFlight| e@)
}

/// The messages that channels wrote, one after the other.
pub open spec fn carried_messages(written: Seq<(ChannelId, Seq<MessageIndex>)>) -> Seq<Carried>
    decreases written.len(),
{
    if written.len() == 0 {
        Seq::empty()
    } else {
        carried_messages(written.drop_last()) + written.last().1.map_values(
            |index: MessageIndex| (written.last().0, index),
        )
    }
}

/// Whether the datagram with `index` is among those acknowledged.
pub open spec fn is_among(packets: Seq<SentPacket>, index: u16) -> bool {
    exists|i: int| 0 <= i < packets.len() && (#[trigger] packets[i]).index == index
}

/// The messages that the acknowledged datagrams carried, in the order in
/// which the datagrams were sent.
pub open spec fn delivered_messages(in_flight: Seq<InFlightView>, acked: Seq<SentPacket>) -> Seq<Carried>
    decreases in_flight.len(),
{
    if in_flight.len() == 0 {
        Seq::empty()
    } else if is_among(acked, in_flight.last().packet_index) {
        delivered_messages(in_flight.drop_last(), acked) + in_flight.last().messages
    } else {
        delivered_messages(in_flight.drop_last(), acked)
    }
}

/// The datagrams that are not among the given ones, in their order.
pub open spec fn still_in_flight(in_flight: Seq<InFlightView>, gone: Seq<SentPacket>) -> Seq<InFlightView>
    decreases in_flight.len(),
{
    if in_flight.len() == 0 {
        Seq::empty()
    } else if is_among(gone, in_flight.last().packet_index) {
        still_in_flight(in_flight.drop_last(), gone)
    } else {
        still_in_flight(in_flight.drop_last(), gone).push(in_flight.last())
    }
}

/// Whether the datagram with `index` is among the given ones.
fn among(packets: &Vec<SentPacket>, index: u16) -> (found: bool)
    ensures
        found == is_among(packets@, index),
{
    let mut i: usize = 0;
    while i < packets.len()
        invariant
            i <= packets.len(),
            forall|j: int| 0 <= j < i ==> (#[trigger] packets@[j]).index != index,
        decreases packets.len() - i,
    {
        if packets[i].index == index {
            return true;
        }
        i += 1;
    }
    false
}

impl View for DeliveryTracker {
    type V = Seq<InFlightView>;

    closed spec fn view(&self) -> Seq<InFlightView> {
        in_flight_views(self.in_flight@)
    }
}

impl DeliveryTracker {
    /// A tracker that remembers no datagram.
    pub fn new() -> (tracker: Self)
        ensures
            tracker@ == Seq::<InFlightView>::empty(),
    {
        let tracker = DeliveryTracker { in_flight: VecDeque::new() };
        assert(tracker@ =~= Seq::<InFlightView>::empty());
        tracker
    }

    /// The number of datagrams remembered.
    pub fn len(&self) -> (count: usize)
        ensures
            count == self@.len(),
    {
        self.in_flight.len()
    }

    /// Remembers that the datagram with `packet_index` carried what the
    /// channels wrote.
    pub fn record(&mut self, packet_index: u16, written: &Vec<(ChannelId, Vec<MessageIndex>)>)
        ensures
            final(self)@ == old(self)@.push(
                InFlightView {
                    packet_index,
                    messages: carried_messages(written_views(written@)),
                },
            ),
    {
        let ghost all = written_views(written@);
        let mut messages: Vec<Carried> = Vec::new();
        let mut i: usize = 0;
        assert(all.take(0) =~= Seq::empty());
        while i < written.len()
            invariant
                i <= written.len(),
                all == written_views(written@),
                messages@ == carried_messages(all.take(i as int)),
            decreases written.len() - i,
        {
            let channel = written[i].0;
            let ghost before = messages@;
            let ghost indices = written@[i as int].1@;
            let mut k: usize = 0;
            assert(indices.take(0) =~= Seq::empty());
            assert(messages@ =~= before + indices.take(0).map_values(
                |index: MessageIndex| (channel, index),
            ));
            while k < written[i].1.len()
                invariant
                    i < written.len(),
                    k <= written@[i as int].1@.len(),
                    indices == written@[i as int].1@,
                    channel == written@[i as int].0,
                    messages@ == before + indices.take(k as int).map_values(
                        |index: MessageIndex| (channel, index),
                    ),
                decreases written@[i as int].1@.len() - k,
            {
                messages.push((channel, written[i].1[k]));
                assert(messages@ =~= before + indices.take(k + 1).map_values(
                    |index: MessageIndex| (channel, index),
                ));
                k += 1;
            }
            proof {
                assert(indices.take(k as int) =~= indices);
                assert(all.take(i + 1).drop_last() =~= all.take(i as int));
                assert(all.take(i + 1).last() == (channel, indices));
            }
            i += 1;
        }
        assert(all.take(i as int) =~= all);
        self.in_flight.push_back(InFlight { packet_index, messages });
        assert(self@ =~= old(self)@.push(
            InFlightView { packet_index, messages: carried_messages(all) },
        ));
    }

    /// Takes the datagrams that were acknowledged: they are remembered no
    /// longer, and the messages that they carried are handed back in the
    /// order in which the datagrams were sent.
    pub fn take_acked(&mut self, acked: &Vec<SentPacket>) -> (delivered: Vec<Carried>)
        ensures
            delivered@ == delivered_messages(old(self)@, acked@),
            final(self)@ == still_in_flight(old(self)@, acked@),
    {
        let ghost all = self@;
        let mut waiting: VecDeque<InFlight> = VecDeque::new();
        std::mem::swap(&mut self.in_flight, &mut waiting);
        let mut delivered: Vec<Carried> = Vec::new();
        let ghost mut i: int = 0;
        proof {
            assert(all.take(0) =~= Seq::empty());
            assert(all.skip(0) =~= all);
            assert(self@ =~= still_in_flight(all.take(0), acked@));
        }
        while waiting.len() > 0
            invariant
                0 <= i <= all.len(),
                in_flight_views(waiting@) == all.skip(i),
                delivered@ == delivered_messages(all.take(i), acked@),
                self@ == still_in_flight(all.take(i), acked@),
            decreases waiting@.len(),
        {
            let ghost kept = self@;
            let ghost queue = waiting@;
            proof {
                assert(in_flight_views(queue).len() == queue.len());
                assert(all.skip(i).len() == all.len() - i);
                assert(in_flight_views(queue)[0] == queue[0]@);
                assert(all.skip(i)[0] == all[i]);
                assert(all.take(i + 1).drop_last() =~= all.take(i));
                assert(all.take(i + 1).last() == all[i]);
            }
            let mut entry = waiting.pop_front().unwrap();
            proof {
                assert(waiting@ =~= queue.skip(1));
                assert(in_flight_views(waiting@) =~= in_flight_views(queue).skip(1));
                assert(all.skip(i).skip(1) =~= all.skip(i + 1));
            }
            if among(acked, entry.packet_index) {
                delivered.append(&mut entry.messages);
            } else {
                self.in_flight.push_back(entry);
                assert(self@ =~= kept.push(all[i]));
            }
            proof {
                i = i + 1;
            }
        }
        assert(all.take(i) =~= all);
        delivered
    }

    /// Forgets the datagrams that were declared lost: the messages that
    /// they carried are not acknowledged through them any more.
    pub fn forget(&mut self, lost: &Vec<SentPacket>)
        ensures
            final(self)@ == still_in_flight(old(self)@, lost@),
    {
        self.take_acked(lost);
    }
}

} // verus!
