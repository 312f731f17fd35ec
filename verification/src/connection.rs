//! The state of the connection to one peer, and what it does at each
//! tick.
//!
//! The host calls `tick` at a fixed cadence with the present time. The
//! connection never keeps a timer of its own: it compares the time it is
//! given with the times at which it last heard from the peer and last
//! sent to it.

use crate::ack_field::{fold_index, initial_receive_state};
use crate::ack_manager::{
    acked_packets, lost_packets, pending_packets, unacked_packets, AckManager, AckView, SentPacket,
};
use crate::address::SocketAddress;
use crate::bit_reader::BitReader;
use crate::bit_writer::BitWriter;
use crate::channel::{
    after_collect, after_delivery, after_receive, after_send, fresh_sender, is_fresh_receiver,
    ChannelMode, ChannelReceiverView, ChannelSenderView,
};
use crate::channel_set::{
    after_data, any_work, channel_order, data_write, ChannelId, ChannelSet, DataError,
};
use crate::delivery::{
    carried_messages, delivered_messages, still_in_flight, Carried, DeliveryTracker, InFlightView,
};
use crate::entity_waitlist::EntityWaitlist;
use crate::message::{message_views, MessageContainer, MessageKinds};
use crate::packet_type::PacketType;
use crate::reliable_receiver::ChannelReadError;
use crate::rtt::{after_sample, spec_resend_timeout, RttEstimator};
use crate::standard_header::{header_bits, StandardHeader};
use vstd::prelude::*;

verus! {

/// The times that rule a connection, in milliseconds.
#[derive(Clone, Copy, PartialEq, Eq, Debug, Structural)]
pub struct ConnectionConfig {
    /// How long the peer may stay silent before the connection is given
    /// up.
    pub disconnect_timeout_millis: u64,
    /// How long the connection may stay silent before it sends a
    /// heartbeat.
    pub heartbeat_interval_millis: u64,
    /// How long a step of the handshake waits before it is sent again.
    pub handshake_resend_interval_millis: u64,
    /// How long the connection waits between two pings.
    pub ping_interval_millis: u64,
    /// The round-trip time that is assumed before any was measured.
    pub initial_rtt_millis: u32,
    /// The shortest time to wait before a message is sent again.
    pub min_resend_timeout_millis: u32,
    /// The longest time to wait before a message is sent again.
    pub max_resend_timeout_millis: u32,
}

/// Why a connection has ended.
#[derive(Clone, Copy, PartialEq, Eq, Debug, Structural)]
pub enum DisconnectReason {
    /// The peer stayed silent for the time after which a connection is
    /// given up.
    TimeoutError,
    /// The peer asked to leave.
    PeerLeft,
}

/// What the host does for a connection after a tick.
#[derive(Clone, Copy, PartialEq, Eq, Debug, Structural)]
pub enum TickAction {
    /// Nothing.
    Idle,
    /// Send a datagram with the messages that wait.
    SendData,
    /// Send a heartbeat.
    SendHeartbeat,
    /// Tell the application that the connection has ended, and tear the
    /// connection down.
    Disconnect(DisconnectReason),
}

/// The times of a connection, as mathematics sees them.
#[derive(Clone, Copy, PartialEq, Eq, Debug, Structural)]
pub struct Timers {
    /// When the peer was heard from last.
    pub last_heard: u64,
    /// When a datagram was sent to the peer last.
    pub last_sent: u64,
    /// When the peer was asked for a pong last.
    pub last_ping: u64,
    /// Whether the connection has ended.
    pub disconnected: bool,
}

/// The time that has passed since `then`; none if `now` lies before it.
pub open spec fn elapsed(then: u64, now: u64) -> u64 {
    if now >= then {
        (now - then) as u64
    } else {
        0
    }
}

/// What a tick at `now` makes of the times of a connection, and what the
/// host is to do.
///
/// A connection that has ended does nothing. A connection whose peer has
/// been silent for the disconnect timeout ends. Otherwise the connection
/// sends if messages wait, or if it has been silent itself for the
/// heartbeat interval.
pub open spec fn tick_step(config: ConnectionConfig, timers: Timers, now: u64, has_messages: bool) -> (
    Timers,
    TickAction,
) {
    if timers.disconnected {
        (timers, TickAction::Idle)
    } else if elapsed(timers.last_heard, now) >= config.disconnect_timeout_millis {
        (
            Timers { disconnected: true, ..timers },
            TickAction::Disconnect(DisconnectReason::TimeoutError),
        )
    } else if has_messages {
        (Timers { last_sent: now, ..timers }, TickAction::SendData)
    } else if elapsed(timers.last_sent, now) >= config.heartbeat_interval_millis {
        (Timers { last_sent: now, ..timers }, TickAction::SendHeartbeat)
    } else {
        (timers, TickAction::Idle)
    }
}

/// Whether it is time to ask the peer for a pong: the connection has not
/// ended, and the ping interval has passed since the last ping. A ping
/// serves to measure the round-trip time when nothing else is sent; a
/// heartbeat serves to keep the connection from being given up.
pub open spec fn spec_ping_due(config: ConnectionConfig, timers: Timers, now: u64) -> bool {
    !timers.disconnected && elapsed(timers.last_ping, now) >= config.ping_interval_millis
}

/// The kind of datagram with which a datagram of the given kind is
/// answered at once: a ping with a pong, and nothing else with anything.
pub open spec fn spec_answer_to(packet_type: PacketType) -> Option<PacketType> {
    if packet_type == PacketType::Ping {
        Some(PacketType::Pong)
    } else {
        None
    }
}

/// The times of a connection after ticks at the given times, during which
/// nothing is heard from the peer.
pub open spec fn after_ticks(config: ConnectionConfig, timers: Timers, ticks: Seq<(u64, bool)>) -> Timers
    decreases ticks.len(),
{
    if ticks.len() == 0 {
        timers
    } else {
        tick_step(
            config,
            after_ticks(config, timers, ticks.drop_last()),
            ticks.last().0,
            ticks.last().1,
        ).0
    }
}

/// The number of times that the connection tells the host to disconnect
/// during ticks at the given times.
pub open spec fn disconnects(config: ConnectionConfig, timers: Timers, ticks: Seq<(u64, bool)>) -> nat
    decreases ticks.len(),
{
    if ticks.len() == 0 {
        0
    } else {
        let before = after_ticks(config, timers, ticks.drop_last());
        let action = tick_step(config, before, ticks.last().0, ticks.last().1).1;
        disconnects(config, timers, ticks.drop_last()) + if action is Disconnect {
            1nat
        } else {
            0nat
        }
    }
}

impl ConnectionConfig {
    /// The times that a connection has unless the host says otherwise:
    /// ten seconds until a silent peer is given up, a heartbeat after
    /// three seconds of silence, a quarter of a second between two tries
    /// of a handshake step, and a second between two pings. A round trip
    /// is taken to last a fifth of a second until it was measured, and a
    /// message is sent again after no less than a tenth of a second and
    /// no more than two seconds.
    pub fn default_config() -> (config: Self)
        ensures
            config == (ConnectionConfig {
                disconnect_timeout_millis: 10_000,
                heartbeat_interval_millis: 3_000,
                handshake_resend_interval_millis: 250,
                ping_interval_millis: 1_000,
                initial_rtt_millis: 200,
                min_resend_timeout_millis: 100,
                max_resend_timeout_millis: 2_000,
            }),
    {
        ConnectionConfig {
            disconnect_timeout_millis: 10_000,
            heartbeat_interval_millis: 3_000,
            handshake_resend_interval_millis: 250,
            ping_interval_millis: 1_000,
            initial_rtt_millis: 200,
            min_resend_timeout_millis: 100,
            max_resend_timeout_millis: 2_000,
        }
    }
}

/// The channels of a connection and the datagrams that carry their
/// messages, as mathematics sees them.
pub struct ChannelState {
    /// What the sending ends of the channels hold.
    pub senders: Seq<ChannelSenderView>,
    /// What the receiving ends of the channels hold.
    pub receivers: Seq<ChannelReceiverView>,
    /// The channel with which the next datagram begins.
    pub next_channel: nat,
    /// The datagrams that were sent and are not yet acknowledged, with
    /// the messages of the reliable channels that they carried.
    pub in_flight: Seq<InFlightView>,
}

/// The senders after the delivery of messages was acknowledged, one
/// after the other. A message of a channel that does not exist is left
/// out.
pub open spec fn after_deliveries(senders: Seq<ChannelSenderView>, delivered: Seq<Carried>) -> Seq<ChannelSenderView>
    decreases delivered.len(),
{
    if delivered.len() == 0 {
        senders
    } else {
        let before = after_deliveries(senders, delivered.drop_last());
        let (channel, index) = delivered.last();
        if channel < before.len() {
            before.update(channel as int, after_delivery(before[channel as int], index))
        } else {
            before
        }
    }
}

/// The room for messages in a datagram with room for `budget` bits: what
/// the header leaves.
pub open spec fn data_budget(budget: u64) -> u64 {
    if budget >= 72 {
        (budget - 72) as u64
    } else {
        0
    }
}

/// The estimate of the round-trip time after a header has acknowledged
/// datagrams at `now`: the time since the oldest of them was sent is a
/// sample of the round-trip time. Where the header acknowledges none, the
/// estimate stays as it is.
pub open spec fn after_acknowledgement(estimate: RttEstimator, acked: Seq<SentPacket>, now: u64) -> RttEstimator {
    if acked.len() == 0 {
        estimate
    } else {
        after_sample(estimate, rtt_sample(acked[0].sent_at, now))
    }
}

/// The time between sending and acknowledgement as a sample of the
/// round-trip time: no more than fits in 32 bits.
pub open spec fn rtt_sample(sent_at: u64, now: u64) -> u32 {
    if elapsed(sent_at, now) > u32::MAX {
        u32::MAX
    } else {
        elapsed(sent_at, now) as u32
    }
}

/// The connection to one peer.
pub struct Connection {
    address: SocketAddress,
    config: ConnectionConfig,
    timers: Timers,
    ack_manager: AckManager,
    channels: ChannelSet,
    tracker: DeliveryTracker,
    rtt: RttEstimator,
}

impl Connection {
    /// The address of the peer.
    pub closed spec fn address(&self) -> SocketAddress {
        self.address
    }

    /// The times that rule the connection.
    pub closed spec fn config(&self) -> ConnectionConfig {
        self.config
    }

    /// The times of the connection.
    pub closed spec fn timers(&self) -> Timers {
        self.timers
    }

    /// What the connection knows of the datagrams in both directions.
    pub closed spec fn acks(&self) -> AckView {
        self.ack_manager@
    }

    /// The channels of the connection and the datagrams that carry their
    /// messages.
    pub closed spec fn channels(&self) -> ChannelState {
        ChannelState {
            senders: self.channels.senders(),
            receivers: self.channels.receivers(),
            next_channel: self.channels.next_channel(),
            in_flight: self.tracker@,
        }
    }

    /// The estimate of the round-trip time.
    pub closed spec fn rtt(&self) -> RttEstimator {
        self.rtt
    }

    /// The parts of the connection are in order.
    pub closed spec fn wf(&self) -> bool {
        self.ack_manager.wf() && self.channels.wf()
    }

    /// A connection to the peer at `address` that begins at `now`.
    pub fn new(address: SocketAddress, config: ConnectionConfig, now: u64) -> (connection: Self)
        ensures
            connection.wf(),
            connection.address() == address,
            connection.config() == config,
            connection.timers() == (Timers {
                last_heard: now,
                last_sent: now,
                last_ping: now,
                disconnected: false,
            }),
            connection.acks() == (AckView {
                next_packet_index: 0,
                received: initial_receive_state(),
                arrivals: Seq::empty(),
                sent: Seq::empty(),
            }),
            connection.channels() == (ChannelState {
                senders: Seq::empty(),
                receivers: Seq::empty(),
                next_channel: 0,
                in_flight: Seq::empty(),
            }),
            connection.rtt() == (RttEstimator {
                rtt_millis: config.initial_rtt_millis,
                deviation_millis: 0,
                min_timeout_millis: config.min_resend_timeout_millis,
                max_timeout_millis: config.max_resend_timeout_millis,
            }),
    {
        Connection {
            address,
            config,
            timers: Timers { last_heard: now, last_sent: now, last_ping: now, disconnected: false },
            ack_manager: AckManager::new(),
            channels: ChannelSet::new(),
            tracker: DeliveryTracker::new(),
            rtt: RttEstimator::new(
                config.initial_rtt_millis,
                config.min_resend_timeout_millis,
                config.max_resend_timeout_millis,
            ),
        }
    }

    /// The address of the peer.
    pub fn peer_address(&self) -> (address: SocketAddress)
        ensures
            address == self.address(),
    {
        self.address
    }

    /// Whether the connection has ended.
    pub fn is_disconnected(&self) -> (ended: bool)
        ensures
            ended == self.timers().disconnected,
    {
        self.timers.disconnected
    }

    /// A datagram has arrived from the peer at `now`: the peer is not
    /// silent, and the header of the datagram is taken. The reliable
    /// channels learn of the messages whose datagrams the header
    /// acknowledges. The datagrams of this end that the header
    /// acknowledges are handed back, oldest first.
    pub fn process_incoming_header(&mut self, header: &StandardHeader, now: u64) -> (acked: Vec<
        SentPacket,
    >)
        requires
            old(self).wf(),
        ensures
            final(self).wf(),
            final(self).address() == old(self).address(),
            final(self).config() == old(self).config(),
            final(self).timers() == (Timers { last_heard: now, ..old(self).timers() }),
            acked@ == acked_packets(
                old(self).acks().sent,
                header.sender_ack_index,
                header.sender_ack_bitfield,
            ),
            final(self).acks() == (AckView {
                received: fold_index(old(self).acks().received, header.sender_packet_index),
                arrivals: old(self).acks().arrivals.push(header.sender_packet_index),
                sent: unacked_packets(
                    old(self).acks().sent,
                    header.sender_ack_index,
                    header.sender_ack_bitfield,
                ),
                ..old(self).acks()
            }),
            final(self).channels() == (ChannelState {
                senders: after_deliveries(
                    old(self).channels().senders,
                    delivered_messages(old(self).channels().in_flight, acked@),
                ),
                in_flight: still_in_flight(old(self).channels().in_flight, acked@),
                ..old(self).channels()
            }),
            final(self).rtt() == after_acknowledgement(old(self).rtt(), acked@, now),
    {
        self.timers.last_heard = now;
        let acked = self.ack_manager.process_incoming_header(header);
        if acked.len() > 0 {
            let sent_at = acked[0].sent_at;
            let waited: u64 = if now >= sent_at {
                now - sent_at
            } else {
                0
            };
            let sample: u32 = if waited > u32::MAX as u64 {
                u32::MAX
            } else {
                waited as u32
            };
            self.rtt.sample(sample);
        }
        let delivered = self.tracker.take_acked(&acked);
        self.notify_delivered(&delivered);
        acked
    }

    /// Stamps the header of the next datagram to the peer, which counts
    /// as sent at `now`.
    pub fn next_outgoing_header(&mut self, packet_type: PacketType, now: u64) -> (header:
        StandardHeader)
        requires
            old(self).wf(),
        ensures
            final(self).wf(),
            final(self).address() == old(self).address(),
            final(self).config() == old(self).config(),
            final(self).rtt() == old(self).rtt(),
            final(self).timers() == old(self).timers(),
            final(self).channels() == old(self).channels(),
            header == (StandardHeader {
                packet_type,
                sender_packet_index: old(self).acks().next_packet_index,
                sender_ack_index: old(self).acks().received.last_index,
                sender_ack_bitfield: old(self).acks().received.bitfield,
            }),
            final(self).acks() == (AckView {
                next_packet_index: if old(self).acks().next_packet_index == 65535 {
                    0u16
                } else {
                    (old(self).acks().next_packet_index + 1) as u16
                },
                sent: old(self).acks().sent.push(
                    SentPacket { index: old(self).acks().next_packet_index, sent_at: now },
                ),
                ..old(self).acks()
            }),
    {
        self.ack_manager.next_outgoing_header(packet_type, now)
    }

    /// Says what the host is to do for this connection at `now`, given
    /// whether any channel has messages to send.
    pub fn tick(&mut self, now: u64, has_messages: bool) -> (action: TickAction)
        requires
            old(self).wf(),
        ensures
            final(self).wf(),
            final(self).address() == old(self).address(),
            final(self).config() == old(self).config(),
            final(self).rtt() == old(self).rtt(),
            final(self).acks() == old(self).acks(),
            final(self).channels() == old(self).channels(),
            (final(self).timers(), action) == tick_step(
                old(self).config(),
                old(self).timers(),
                now,
                has_messages,
            ),
    {
        if self.timers.disconnected {
            return TickAction::Idle;
        }
        let silent: u64 = if now >= self.timers.last_heard {
            now - self.timers.last_heard
        } else {
            0
        };
        if silent >= self.config.disconnect_timeout_millis {
            self.timers.disconnected = true;
            return TickAction::Disconnect(DisconnectReason::TimeoutError);
        }
        if has_messages {
            self.timers.last_sent = now;
            return TickAction::SendData;
        }
        let quiet: u64 = if now >= self.timers.last_sent {
            now - self.timers.last_sent
        } else {
            0
        };
        if quiet >= self.config.heartbeat_interval_millis {
            self.timers.last_sent = now;
            return TickAction::SendHeartbeat;
        }
        TickAction::Idle
    }

    /// The peer has asked to leave, and the request was honoured: the
    /// connection ends. The host is told once, whoever ends the
    /// connection first.
    pub fn disconnect(&mut self) -> (action: TickAction)
        requires
            old(self).wf(),
        ensures
            final(self).wf(),
            final(self).address() == old(self).address(),
            final(self).config() == old(self).config(),
            final(self).rtt() == old(self).rtt(),
            final(self).acks() == old(self).acks(),
            final(self).channels() == old(self).channels(),
            final(self).timers() == (Timers { disconnected: true, ..old(self).timers() }),
            action == if old(self).timers().disconnected {
                TickAction::Idle
            } else {
                TickAction::Disconnect(DisconnectReason::PeerLeft)
            },
    {
        if self.timers.disconnected {
            TickAction::Idle
        } else {
            self.timers.disconnected = true;
            TickAction::Disconnect(DisconnectReason::PeerLeft)
        }
    }
}

/// Ticks change neither the time at which the peer was heard from last,
/// nor bring an ended connection back.
pub proof fn lemma_ticks_keep_last_heard(config: ConnectionConfig, timers: Timers, ticks: Seq<(u64, bool)>)
    ensures
        after_ticks(config, timers, ticks).last_heard == timers.last_heard,
        timers.disconnected ==> after_ticks(config, timers, ticks).disconnected,
        timers.disconnected ==> disconnects(config, timers, ticks) == 0,
        after_ticks(config, timers, ticks).disconnected == (timers.disconnected || disconnects(
            config,
            timers,
            ticks,
        ) > 0),
        disconnects(config, timers, ticks) <= 1,
    decreases ticks.len(),
{
    if ticks.len() > 0 {
        lemma_ticks_keep_last_heard(config, timers, ticks.drop_last());
    }
}

/// However often the host ticks, a connection tells it to disconnect at
/// most once.
pub proof fn lemma_disconnects_at_most_once(config: ConnectionConfig, timers: Timers, ticks: Seq<(u64, bool)>)
    ensures
        disconnects(config, timers, ticks) <= 1,
{
    lemma_ticks_keep_last_heard(config, timers, ticks);
}

/// If nothing arrives from the peer and a tick comes when the peer has
/// been silent for the disconnect timeout, the connection tells the host
/// to disconnect exactly once.
pub proof fn lemma_idle_disconnects_once(
    config: ConnectionConfig,
    timers: Timers,
    ticks: Seq<(u64, bool)>,
    k: int,
)
    requires
        !timers.disconnected,
        0 <= k < ticks.len(),
        elapsed(timers.last_heard, ticks[k].0) >= config.disconnect_timeout_millis,
    ensures
        disconnects(config, timers, ticks) == 1,
    decreases ticks.len(),
{
    let front = ticks.drop_last();
    lemma_ticks_keep_last_heard(config, timers, front);
    lemma_ticks_keep_last_heard(config, timers, ticks);
    if k < front.len() {
        assert(front[k] == ticks[k]);
        lemma_idle_disconnects_once(config, timers, front, k);
    }
}

impl Connection {
    /// Adds a channel of the given discipline and gives its number.
    pub fn add_channel(&mut self, mode: ChannelMode) -> (channel: ChannelId)
        requires
            old(self).wf(),
        ensures
            final(self).wf(),
            final(self).address() == old(self).address(),
            final(self).config() == old(self).config(),
            final(self).rtt() == old(self).rtt(),
            final(self).timers() == old(self).timers(),
            final(self).acks() == old(self).acks(),
            channel == old(self).channels().senders.len(),
            final(self).channels().in_flight == old(self).channels().in_flight,
            final(self).channels().next_channel == old(self).channels().next_channel,
            final(self).channels().senders == old(self).channels().senders.push(
                fresh_sender(mode),
            ),
            final(self).channels().receivers.len() == old(self).channels().receivers.len() + 1,
            final(self).channels().receivers.drop_last() == old(self).channels().receivers,
            is_fresh_receiver(final(self).channels().receivers.last(), mode),
    {
        let channel = self.channels.add_channel(mode);
        proof {
            assert(self.channels.senders() =~= old(self).channels.senders().push(
                fresh_sender(mode),
            ));
        }
        channel
    }

    /// Queues a message on a channel. Fails where the connection has no
    /// such channel, and where the channel cannot take the message.
    pub fn send_message(&mut self, channel: ChannelId, message: MessageContainer) -> (outcome: Result<
        (),
        DataError,
    >)
        requires
            old(self).wf(),
        ensures
            final(self).wf(),
            final(self).address() == old(self).address(),
            final(self).config() == old(self).config(),
            final(self).rtt() == old(self).rtt(),
            final(self).timers() == old(self).timers(),
            final(self).acks() == old(self).acks(),
            channel >= old(self).channels().senders.len() ==> outcome == Err::<(), DataError>(
                DataError::UnknownChannel(channel),
            ) && final(self).channels() == old(self).channels(),
            channel < old(self).channels().senders.len() ==> {
                let sent = after_send(old(self).channels().senders[channel as int], message@);
                &&& final(self).channels() == (ChannelState {
                    senders: old(self).channels().senders.update(channel as int, sent.0),
                    ..old(self).channels()
                })
                &&& outcome == match sent.1 {
                    Some(error) => Err::<(), DataError>(
                        DataError::Channel(channel, ChannelReadError::Protocol(error)),
                    ),
                    None => Ok::<(), DataError>(()),
                }
            },
    {
        self.channels.send_message(channel, message)
    }

    /// Whether any channel has something to send.
    pub fn has_messages(&self) -> (waiting: bool)
        requires
            self.wf(),
        ensures
            waiting == any_work(self.channels().senders),
    {
        self.channels.has_messages()
    }

    /// Takes note of the time. On the reliable channels every message
    /// whose acknowledgement has been waited for `resend_timeout_millis`
    /// or longer is due again. The datagrams that were sent that long ago
    /// count as lost: the connection waits for their acknowledgement no
    /// longer.
    pub fn collect_messages(&mut self, now: u64, resend_timeout_millis: u64)
        requires
            old(self).wf(),
        ensures
            final(self).wf(),
            final(self).address() == old(self).address(),
            final(self).config() == old(self).config(),
            final(self).rtt() == old(self).rtt(),
            final(self).timers() == old(self).timers(),
            final(self).acks() == (AckView {
                sent: pending_packets(old(self).acks().sent, now, resend_timeout_millis),
                ..old(self).acks()
            }),
            final(self).channels() == (ChannelState {
                senders: old(self).channels().senders.map_values(
                    |v: ChannelSenderView| after_collect(v, now, resend_timeout_millis),
                ),
                in_flight: still_in_flight(
                    old(self).channels().in_flight,
                    lost_packets(old(self).acks().sent, now, resend_timeout_millis),
                ),
                ..old(self).channels()
            }),
    {
        let lost = self.ack_manager.collect_lost(now, resend_timeout_millis);
        self.tracker.forget(&lost);
        self.channels.collect_messages(now, resend_timeout_millis);
    }

    /// The time to wait before a message is sent again, in milliseconds:
    /// what the estimate of the round-trip time gives.
    pub fn resend_timeout(&self) -> (timeout: u64)
        ensures
            timeout == spec_resend_timeout(self.rtt()),
    {
        self.rtt.resend_timeout() as u64
    }

    /// Hands over the messages that can be delivered to the application,
    /// channel by channel: the messages of channel `i` stand at place `i`.
    pub fn receive_messages(&mut self, entity_waitlist: &mut EntityWaitlist) -> (inbox: Vec<
        Vec<MessageContainer>,
    >)
        requires
            old(self).wf(),
        ensures
            final(self).wf(),
            final(entity_waitlist)@ == old(entity_waitlist)@,
            final(self).address() == old(self).address(),
            final(self).config() == old(self).config(),
            final(self).rtt() == old(self).rtt(),
            final(self).timers() == old(self).timers(),
            final(self).acks() == old(self).acks(),
            final(self).channels().senders == old(self).channels().senders,
            final(self).channels().next_channel == old(self).channels().next_channel,
            final(self).channels().in_flight == old(self).channels().in_flight,
            inbox@.len() == old(self).channels().receivers.len(),
            final(self).channels().receivers.len() == old(self).channels().receivers.len(),
            forall|i: int|
                0 <= i < old(self).channels().receivers.len() ==> message_views(
                    (#[trigger] inbox@[i])@,
                ) == after_receive(old(self).channels().receivers[i], old(entity_waitlist)@).0,
            forall|i: int|
                0 <= i < old(self).channels().receivers.len() ==> #[trigger] final(
                    self).channels().receivers[i] == after_receive(
                    old(self).channels().receivers[i],
                    old(entity_waitlist)@,
                ).1,
    {
        self.channels.receive_messages(entity_waitlist)
    }

    /// Tells the channels that the delivery of messages was acknowledged.
    fn notify_delivered(&mut self, delivered: &Vec<Carried>)
        requires
            old(self).wf(),
        ensures
            final(self).wf(),
            final(self).address == old(self).address,
            final(self).config == old(self).config,
            final(self).timers == old(self).timers,
            final(self).ack_manager == old(self).ack_manager,
            final(self).tracker == old(self).tracker,
            final(self).rtt == old(self).rtt,
            final(self).channels.receivers() == old(self).channels.receivers(),
            final(self).channels.next_channel() == old(self).channels.next_channel(),
            final(self).channels.senders() == after_deliveries(
                old(self).channels.senders(),
                delivered@,
            ),
    {
        let mut i: usize = 0;
        assert(delivered@.take(0) =~= Seq::empty());
        while i < delivered.len()
            invariant
                i <= delivered.len(),
                self.wf(),
                self.address == old(self).address,
                self.config == old(self).config,
                self.timers == old(self).timers,
                self.ack_manager == old(self).ack_manager,
                self.tracker == old(self).tracker,
                self.rtt == old(self).rtt,
                self.channels.receivers() == old(self).channels.receivers(),
                self.channels.next_channel() == old(self).channels.next_channel(),
                self.channels.senders() == after_deliveries(
                    old(self).channels.senders(),
                    delivered@.take(i as int),
                ),
            decreases delivered.len() - i,
        {
            let (channel, index) = delivered[i];
            proof {
                assert(delivered@.take(i + 1).drop_last() =~= delivered@.take(i as int));
                assert(delivered@.take(i + 1).last() == delivered@[i as int]);
            }
            self.channels.notify_message_delivered(channel, &index);
            i += 1;
        }
        assert(delivered@.take(i as int) =~= delivered@);
    }

    /// Writes a datagram with the messages that wait, into room for
    /// `budget` bits: the header, then the runs of the channels. The
    /// datagram counts as sent at `now`, and the connection remembers
    /// which messages of the reliable channels it carries.
    pub fn write_data_packet(&mut self, budget: u64, now: u64) -> (writer: BitWriter)
        requires
            old(self).wf(),
        ensures
            final(self).wf(),
            writer.wf(),
            final(self).address() == old(self).address(),
            final(self).config() == old(self).config(),
            final(self).rtt() == old(self).rtt(),
            final(self).timers() == old(self).timers(),
            final(self).acks() == (AckView {
                next_packet_index: if old(self).acks().next_packet_index == 65535 {
                    0u16
                } else {
                    (old(self).acks().next_packet_index + 1) as u16
                },
                sent: old(self).acks().sent.push(
                    SentPacket { index: old(self).acks().next_packet_index, sent_at: now },
                ),
                ..old(self).acks()
            }),
            ({
                let header = StandardHeader {
                    packet_type: PacketType::Data,
                    sender_packet_index: old(self).acks().next_packet_index,
                    sender_ack_index: old(self).acks().received.last_index,
                    sender_ack_bitfield: old(self).acks().received.bitfield,
                };
                let written = data_write(
                    old(self).channels().senders,
                    channel_order(
                        old(self).channels().next_channel,
                        old(self).channels().senders.len(),
                    ),
                    data_budget(budget),
                    now,
                );
                &&& writer@ == header_bits(header) + written.bits
                &&& final(self).channels().senders == written.after
                &&& final(self).channels().receivers == old(self).channels().receivers
                &&& final(self).channels().in_flight == old(self).channels().in_flight.push(
                    InFlightView {
                        packet_index: header.sender_packet_index,
                        messages: carried_messages(written.written),
                    },
                )
            }),
    {
        let header = self.ack_manager.next_outgoing_header(PacketType::Data, now);
        let mut writer = BitWriter::new();
        header.ser(&mut writer);
        let room: u64 = if budget >= 72 {
            budget - 72
        } else {
            0
        };
        let written = self.channels.write_data(&mut writer, room, now);
        self.tracker.record(header.sender_packet_index, &written);
        proof {
            let expected = data_write(
                old(self).channels().senders,
                channel_order(old(self).channels().next_channel, old(self).channels().senders.len()),
                data_budget(budget),
                now,
            );
            assert(writer@ =~= header_bits(header) + expected.bits);
        }
        writer
    }

    /// Writes a heartbeat: a datagram that is its header alone. It counts
    /// as sent at `now`.
    pub fn write_heartbeat(&mut self, now: u64) -> (writer: BitWriter)
        requires
            old(self).wf(),
        ensures
            final(self).wf(),
            writer.wf(),
            final(self).address() == old(self).address(),
            final(self).config() == old(self).config(),
            final(self).rtt() == old(self).rtt(),
            final(self).timers() == old(self).timers(),
            final(self).channels() == old(self).channels(),
            final(self).acks() == (AckView {
                next_packet_index: if old(self).acks().next_packet_index == 65535 {
                    0u16
                } else {
                    (old(self).acks().next_packet_index + 1) as u16
                },
                sent: old(self).acks().sent.push(
                    SentPacket { index: old(self).acks().next_packet_index, sent_at: now },
                ),
                ..old(self).acks()
            }),
            writer@ == header_bits(
                StandardHeader {
                    packet_type: PacketType::Heartbeat,
                    sender_packet_index: old(self).acks().next_packet_index,
                    sender_ack_index: old(self).acks().received.last_index,
                    sender_ack_bitfield: old(self).acks().received.bitfield,
                },
            ),
    {
        let header = self.ack_manager.next_outgoing_header(PacketType::Heartbeat, now);
        let mut writer = BitWriter::new();
        header.ser(&mut writer);
        assert(writer@ =~= header_bits(header));
        writer
    }

    /// Takes a datagram with messages that has arrived at `now`, and
    /// whose header has been read. The peer is not silent. The reliable
    /// channels learn of the messages whose datagrams the header
    /// acknowledges, and the receivers take the runs of their channels.
    pub fn read_data_packet(
        &mut self,
        header: &StandardHeader,
        message_kinds: &MessageKinds,
        entity_waitlist: &mut EntityWaitlist,
        reader: &mut BitReader,
        now: u64,
    ) -> (outcome: Result<(), DataError>)
        requires
            old(self).wf(),
            old(reader).wf(),
        ensures
            final(self).wf(),
            final(reader).wf(),
            final(entity_waitlist)@ == old(entity_waitlist)@,
            final(self).address() == old(self).address(),
            final(self).config() == old(self).config(),
            final(self).timers() == (Timers { last_heard: now, ..old(self).timers() }),
            final(self).acks() == (AckView {
                received: fold_index(old(self).acks().received, header.sender_packet_index),
                arrivals: old(self).acks().arrivals.push(header.sender_packet_index),
                sent: unacked_packets(
                    old(self).acks().sent,
                    header.sender_ack_index,
                    header.sender_ack_bitfield,
                ),
                ..old(self).acks()
            }),
            ({
                let acked = acked_packets(
                    old(self).acks().sent,
                    header.sender_ack_index,
                    header.sender_ack_bitfield,
                );
                let read = after_data(
                    old(self).channels().receivers,
                    message_kinds,
                    old(entity_waitlist)@,
                    old(reader)@,
                );
                &&& final(self).channels() == (ChannelState {
                    senders: after_deliveries(
                        old(self).channels().senders,
                        delivered_messages(old(self).channels().in_flight, acked),
                    ),
                    receivers: read.after,
                    next_channel: old(self).channels().next_channel,
                    in_flight: still_in_flight(old(self).channels().in_flight, acked),
                })
                &&& final(self).rtt() == after_acknowledgement(old(self).rtt(), acked, now)
                &&& final(reader)@ == old(reader)@.skip(read.used as int)
                &&& outcome == match read.error {
                    Some(error) => Err::<(), DataError>(error),
                    None => Ok::<(), DataError>(()),
                }
            }),
    {
        let acked = self.process_incoming_header(header, now);
        self.channels.read_data(message_kinds, entity_waitlist, reader)
    }
}

impl Connection {
    /// Whether it is time to ask the peer for a pong.
    pub fn ping_due(&self, now: u64) -> (due: bool)
        ensures
            due == spec_ping_due(self.config(), self.timers(), now),
    {
        if self.timers.disconnected {
            return false;
        }
        let waited: u64 = if now >= self.timers.last_ping {
            now - self.timers.last_ping
        } else {
            0
        };
        waited >= self.config.ping_interval_millis
    }

    /// The kind of datagram with which a datagram of the given kind is
    /// answered at once.
    pub fn answer_to(packet_type: PacketType) -> (answer: Option<PacketType>)
        ensures
            answer == spec_answer_to(packet_type),
    {
        match packet_type {
            PacketType::Ping => Some(PacketType::Pong),
            _ => None,
        }
    }

    /// Writes a ping or a pong: a datagram that is its header alone. It
    /// counts as sent at `now`, and a ping as the last ping.
    pub fn write_ping_pong(&mut self, pong: bool, now: u64) -> (writer: BitWriter)
        requires
            old(self).wf(),
        ensures
            final(self).wf(),
            writer.wf(),
            final(self).address() == old(self).address(),
            final(self).config() == old(self).config(),
            final(self).rtt() == old(self).rtt(),
            final(self).channels() == old(self).channels(),
            final(self).timers() == if pong {
                old(self).timers()
            } else {
                Timers { last_ping: now, ..old(self).timers() }
            },
            final(self).acks() == (AckView {
                next_packet_index: if old(self).acks().next_packet_index == 65535 {
                    0u16
                } else {
                    (old(self).acks().next_packet_index + 1) as u16
                },
                sent: old(self).acks().sent.push(
                    SentPacket { index: old(self).acks().next_packet_index, sent_at: now },
                ),
                ..old(self).acks()
            }),
            writer@ == header_bits(
                StandardHeader {
                    packet_type: if pong {
                        PacketType::Pong
                    } else {
                        PacketType::Ping
                    },
                    sender_packet_index: old(self).acks().next_packet_index,
                    sender_ack_index: old(self).acks().received.last_index,
                    sender_ack_bitfield: old(self).acks().received.bitfield,
                },
            ),
    {
        let packet_type = if pong {
            PacketType::Pong
        } else {
            PacketType::Ping
        };
        if !pong {
            self.timers.last_ping = now;
        }
        let header = self.ack_manager.next_outgoing_header(packet_type, now);
        let mut writer = BitWriter::new();
        header.ser(&mut writer);
        assert(writer@ =~= header_bits(header));
        writer
    }
}

} // verus!
