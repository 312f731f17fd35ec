//! The acknowledgement of datagrams over a substrate that loses them.
//!
//! Every datagram carries the index that its sender gave it, the index of
//! the newest datagram that the sender has received, and a field of bits
//! for the 32 datagrams before that one. From these each end learns which
//! of its own datagrams have arrived.

use crate::ack_field::{
    field_bit, fold, fold_index, fold_indices, initial_receive_state, lemma_ack_bitfield,
    newest_number, arrived_numbers, state_reports, ReceiveState,
};
use crate::packet_type::PacketType;
use crate::standard_header::StandardHeader;
use crate::wrapping_number::{spec_wrapping_diff, wrapping_diff};
use vstd::prelude::*;

verus! {

/// A datagram that was sent and has not been acknowledged.
#[derive(Clone, Copy, PartialEq, Eq, Debug, Structural)]
pub struct SentPacket {
    /// The index of the datagram.
    pub index: u16,
    /// When it was sent, in milliseconds.
    pub sent_at: u64,
}

/// What an ack manager holds, as mathematics sees it.
pub struct AckView {
    /// The index that the next datagram to be sent gets.
    pub next_packet_index: u16,
    /// What is known of the datagrams that arrived from the peer.
    pub received: ReceiveState,
    /// The indices of the datagrams that arrived from the peer, in the
    /// order of their arrival.
    pub arrivals: Seq<u16>,
    /// The datagrams that were sent and not acknowledged, oldest first.
    pub sent: Seq<SentPacket>,
}

/// Keeps track of the datagrams of one connection, in both directions.
pub struct AckManager {
    next_packet_index: u16,
    received: ReceiveState,
    sent_packets: Vec<SentPacket>,
    arrivals: Ghost<Seq<u16>>,
}

/// Whether a header with `ack_index` and `ack_field` acknowledges the
/// datagram with `index`: it is the newest that the peer has received, or
/// one of the 32 before it and its bit is set.
pub open spec fn is_acked(ack_index: u16, ack_field: u32, index: u16) -> bool {
    let behind = spec_wrapping_diff(index, ack_index);
    behind == 0 || (1 <= behind <= 32 && field_bit(ack_field, (behind - 1) as u32))
}

/// Whether a datagram counts as lost at `now`: `timeout` milliseconds
/// have passed since it was sent.
pub open spec fn is_lost(packet: SentPacket, now: u64, timeout: u64) -> bool {
    now >= packet.sent_at && now - packet.sent_at >= timeout
}

/// The datagrams among `packets` that `chosen` holds of, in their order.
pub open spec fn select_packets(packets: Seq<SentPacket>, chosen: spec_fn(SentPacket) -> bool) -> Seq<SentPacket>
    decreases packets.len(),
{
    if packets.len() == 0 {
        Seq::empty()
    } else if chosen(packets.last()) {
        select_packets(packets.drop_last(), chosen).push(packets.last())
    } else {
        select_packets(packets.drop_last(), chosen)
    }
}

/// The datagrams among `packets` that a header acknowledges.
pub open spec fn acked_packets(packets: Seq<SentPacket>, ack_index: u16, ack_field: u32) -> Seq<SentPacket> {
    select_packets(packets, |p: SentPacket| is_acked(ack_index, ack_field, p.index))
}

/// The datagrams among `packets` that a header does not acknowledge.
pub open spec fn unacked_packets(packets: Seq<SentPacket>, ack_index: u16, ack_field: u32) -> Seq<SentPacket> {
    select_packets(packets, |p: SentPacket| !is_acked(ack_index, ack_field, p.index))
}

/// The datagrams among `packets` that count as lost at `now`.
pub open spec fn lost_packets(packets: Seq<SentPacket>, now: u64, timeout: u64) -> Seq<SentPacket> {
    select_packets(packets, |p: SentPacket| is_lost(p, now, timeout))
}

/// The datagrams among `packets` that do not count as lost at `now`.
pub open spec fn pending_packets(packets: Seq<SentPacket>, now: u64, timeout: u64) -> Seq<SentPacket> {
    select_packets(packets, |p: SentPacket| !is_lost(p, now, timeout))
}

/// Whether a header acknowledges the datagram with `index`.
pub fn acknowledges(ack_index: u16, ack_field: u32, index: u16) -> (acked: bool)
    ensures
        acked == is_acked(ack_index, ack_field, index),
{
    let behind = wrapping_diff(index, ack_index);
    if behind == 0 {
        true
    } else if 1 <= behind && behind <= 32 {
        (ack_field >> ((behind - 1) as u32)) & 1 == 1
    } else {
        false
    }
}

impl View for AckManager {
    type V = AckView;

    closed spec fn view(&self) -> AckView {
        AckView {
            next_packet_index: self.next_packet_index,
            received: self.received,
            arrivals: self.arrivals@,
            sent: self.sent_packets@,
        }
    }
}

impl AckManager {
    /// What is known of the peer's datagrams is what their arrivals give.
    pub closed spec fn wf(&self) -> bool {
        self.received == fold_indices(self.arrivals@)
    }

    /// What a well-formed manager knows of the peer's datagrams.
    pub proof fn lemma_received(&self)
        requires
            self.wf(),
        ensures
            self@.received == fold_indices(self@.arrivals),
    {
    }

    /// A manager of a connection on which nothing was sent or received.
    pub fn new() -> (manager: Self)
        ensures
            manager.wf(),
            manager@ == (AckView {
                next_packet_index: 0,
                received: initial_receive_state(),
                arrivals: Seq::empty(),
                sent: Seq::empty(),
            }),
    {
        AckManager {
            next_packet_index: 0,
            received: ReceiveState { received_any: false, last_index: 65535, bitfield: 0 },
            sent_packets: Vec::new(),
            arrivals: Ghost(Seq::empty()),
        }
    }

    /// The index that the next datagram to be sent gets.
    pub fn next_packet_index(&self) -> (index: u16)
        ensures
            index == self@.next_packet_index,
    {
        self.next_packet_index
    }

    /// What is known of the datagrams that arrived from the peer.
    pub fn received(&self) -> (received: ReceiveState)
        ensures
            received == self@.received,
    {
        self.received
    }

    /// The number of datagrams that were sent and not acknowledged.
    pub fn outstanding(&self) -> (count: usize)
        ensures
            count == self@.sent.len(),
    {
        self.sent_packets.len()
    }

    /// Stamps the header of the next datagram to be sent: it bears the
    /// next index and what is known of the peer's datagrams. The datagram
    /// counts as sent at `now`, and the index after it is next.
    pub fn next_outgoing_header(&mut self, packet_type: PacketType, now: u64) -> (header:
        StandardHeader)
        requires
            old(self).wf(),
        ensures
            final(self).wf(),
            header == (StandardHeader {
                packet_type,
                sender_packet_index: old(self)@.next_packet_index,
                sender_ack_index: old(self)@.received.last_index,
                sender_ack_bitfield: old(self)@.received.bitfield,
            }),
            final(self)@ == (AckView {
                next_packet_index: if old(self)@.next_packet_index == 65535 {
                    0u16
                } else {
                    (old(self)@.next_packet_index + 1) as u16
                },
                sent: old(self)@.sent.push(
                    SentPacket { index: old(self)@.next_packet_index, sent_at: now },
                ),
                ..old(self)@
            }),
    {
        let index = self.next_packet_index;
        let header = StandardHeader::new(
            packet_type,
            index,
            self.received.last_index,
            self.received.bitfield,
        );
        self.sent_packets.push(SentPacket { index, sent_at: now });
        self.next_packet_index = if index == 65535 {
            0
        } else {
            index + 1
        };
        header
    }

    /// Takes the header of a datagram that has arrived: its index joins
    /// the arrivals, and the datagrams that it acknowledges are no longer
    /// outstanding. They are handed back, oldest first.
    pub fn process_incoming_header(&mut self, header: &StandardHeader) -> (acked: Vec<SentPacket>)
        requires
            old(self).wf(),
        ensures
            final(self).wf(),
            acked@ == acked_packets(
                old(self)@.sent,
                header.sender_ack_index,
                header.sender_ack_bitfield,
            ),
            final(self)@ == (AckView {
                received: fold_index(old(self)@.received, header.sender_packet_index),
                arrivals: old(self)@.arrivals.push(header.sender_packet_index),
                sent: unacked_packets(
                    old(self)@.sent,
                    header.sender_ack_index,
                    header.sender_ack_bitfield,
                ),
                ..old(self)@
            }),
    {
        self.received = fold(self.received, header.sender_packet_index);
        proof {
            let more = self.arrivals@.push(header.sender_packet_index);
            assert(more.drop_last() =~= self.arrivals@);
            self.arrivals@ = more;
        }
        let ack_index = header.sender_ack_index;
        let ack_field = header.sender_ack_bitfield;
        let ghost all = self.sent_packets@;
        let ghost chosen = |p: SentPacket| is_acked(ack_index, ack_field, p.index);
        let ghost other = |p: SentPacket| !is_acked(ack_index, ack_field, p.index);
        let mut acked: Vec<SentPacket> = Vec::new();
        let mut kept: Vec<SentPacket> = Vec::new();
        let mut i: usize = 0;
        assert(all.take(0) =~= Seq::empty());
        while i < self.sent_packets.len()
            invariant
                i <= self.sent_packets.len(),
                all == self.sent_packets@,
                chosen == |p: SentPacket| is_acked(ack_index, ack_field, p.index),
                other == |p: SentPacket| !is_acked(ack_index, ack_field, p.index),
                acked@ == select_packets(all.take(i as int), chosen),
                kept@ == select_packets(all.take(i as int), other),
            decreases self.sent_packets.len() - i,
        {
            let packet = self.sent_packets[i];
            proof {
                assert(all.take(i + 1).drop_last() =~= all.take(i as int));
                assert(all.take(i + 1).last() == packet);
            }
            if acknowledges(ack_index, ack_field, packet.index) {
                acked.push(packet);
            } else {
                kept.push(packet);
            }
            i += 1;
        }
        assert(all.take(i as int) =~= all);
        self.sent_packets = kept;
        acked
    }

    /// Declares lost the datagrams that were sent `timeout` milliseconds
    /// ago or more: they are no longer outstanding, and are handed back,
    /// oldest first.
    pub fn collect_lost(&mut self, now: u64, timeout: u64) -> (lost: Vec<SentPacket>)
        requires
            old(self).wf(),
        ensures
            final(self).wf(),
            lost@ == lost_packets(old(self)@.sent, now, timeout),
            final(self)@ == (AckView {
                sent: pending_packets(old(self)@.sent, now, timeout),
                ..old(self)@
            }),
    {
        let ghost all = self.sent_packets@;
        let ghost chosen = |p: SentPacket| is_lost(p, now, timeout);
        let ghost other = |p: SentPacket| !is_lost(p, now, timeout);
        let mut lost: Vec<SentPacket> = Vec::new();
        let mut kept: Vec<SentPacket> = Vec::new();
        let mut i: usize = 0;
        assert(all.take(0) =~= Seq::empty());
        while i < self.sent_packets.len()
            invariant
                i <= self.sent_packets.len(),
                all == self.sent_packets@,
                chosen == |p: SentPacket| is_lost(p, now, timeout),
                other == |p: SentPacket| !is_lost(p, now, timeout),
                lost@ == select_packets(all.take(i as int), chosen),
                kept@ == select_packets(all.take(i as int), other),
            decreases self.sent_packets.len() - i,
        {
            let packet = self.sent_packets[i];
            proof {
                assert(all.take(i + 1).drop_last() =~= all.take(i as int));
                assert(all.take(i + 1).last() == packet);
            }
            if now >= packet.sent_at && now - packet.sent_at >= timeout {
                lost.push(packet);
            } else {
                kept.push(packet);
            }
            i += 1;
        }
        assert(all.take(i as int) =~= all);
        self.sent_packets = kept;
        lost
    }
}

/// What a manager reports of the peer's datagrams is true to what has
/// arrived: its newest index is the number of the newest arrival modulo
/// 2^16, and bit `k` of its field is set exactly if the datagram `k + 1`
/// before the newest has arrived.
pub proof fn lemma_reported_acks(manager: AckManager)
    requires
        manager.wf(),
        manager@.arrivals.len() > 0,
    ensures
        state_reports(
            manager@.received,
            newest_number(manager@.arrivals),
            arrived_numbers(manager@.arrivals),
        ),
{
    manager.lemma_received();
    lemma_ack_bitfield(manager@.arrivals);
}

} // verus!
