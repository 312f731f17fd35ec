//! The server: the handshakes of all clients and the connections of those
//! that were let in.
//!
//! A connection comes into being when the application accepts a client
//! whose address has a timestamp bound to it, and at no other time. It
//! ends when the client asks to leave with the timestamp and digest of
//! its handshake, or when the client has been silent for too long; the
//! timestamp bound to its address is forgotten then.

use crate::address::{SocketAddress, Timestamp};
use crate::bit_reader::{BitReader, DecodeError};
use crate::bit_writer::BitWriter;
use crate::bits::bits_value;
use crate::channel::{after_send, fresh_sender, is_fresh_receiver, ChannelMode};
use crate::channel_set::{ChannelId, DataError};
use crate::connection::ChannelState;
use crate::message::MessageContainer;
use crate::reliable_receiver::ChannelReadError;
use crate::connection::{tick_step, Connection, ConnectionConfig, TickAction, Timers};
use crate::handshake_manager::{
    after_timestamp_digest, challenge_response_bits, disconnect_honoured, handshake_header,
    validated_timestamp, HandshakeManager, HandshakeResult,
};
use crate::hmac::{MAX_SECRET_LEN, SECRET_LEN};
use crate::packet_type::{PacketType, Route};
use crate::standard_header::header_bits;
use vstd::prelude::*;

verus! {

/// The server.
pub struct Server {
    handshake_manager: HandshakeManager,
    connections: Vec<Connection>,
    config: ConnectionConfig,
    channel_modes: Vec<ChannelMode>,
}

/// Whether a connection is as it is when it comes into being at `now`:
/// nothing was sent or heard, and it has a channel of each of the given
/// disciplines, in their order.
pub open spec fn is_new_connection(
    connection: Connection,
    address: SocketAddress,
    config: ConnectionConfig,
    modes: Seq<ChannelMode>,
    now: u64,
) -> bool {
    &&& connection.address() == address
    &&& connection.config() == config
    &&& connection.timers() == (Timers {
        last_heard: now,
        last_sent: now,
        last_ping: now,
        disconnected: false,
    })
    &&& connection.acks().sent.len() == 0
    &&& connection.acks().arrivals.len() == 0
    &&& connection.acks().next_packet_index == 0
    &&& connection.channels().in_flight.len() == 0
    &&& connection.channels().next_channel == 0
    &&& connection.channels().senders == modes.map_values(|mode: ChannelMode| fresh_sender(mode))
    &&& connection.channels().receivers.len() == modes.len()
    &&& forall|k: int|
        0 <= k < modes.len() ==> is_fresh_receiver(
            #[trigger] connection.channels().receivers[k],
            modes[k],
        )
}

/// Whether a connection to `address` is among the given ones.
pub open spec fn has_connection(connections: Seq<Connection>, address: SocketAddress) -> bool {
    exists|i: int| 0 <= i < connections.len() && (#[trigger] connections[i]).address() == address
}

/// The place of the connection to `address` among the given ones.
pub open spec fn connection_place(connections: Seq<Connection>, address: SocketAddress) -> int {
    choose|i: int| 0 <= i < connections.len() && (#[trigger] connections[i]).address() == address
}

/// No two connections go to the same address.
pub open spec fn distinct_peers(connections: Seq<Connection>) -> bool {
    forall|i: int, j: int|
        0 <= i < connections.len() && 0 <= j < connections.len() && i != j ==> connections[i].address()
            != connections[j].address()
}

impl Server {
    /// The server's secret.
    pub closed spec fn secret(&self) -> Seq<u8> {
        self.handshake_manager.secret()
    }

    /// The timestamp bound to each address that has validated.
    pub closed spec fn addresses(&self) -> Map<SocketAddress, Timestamp> {
        self.handshake_manager.addresses()
    }

    /// The connections of the clients that were let in, in the order in
    /// which they were let in.
    pub closed spec fn connections(&self) -> Seq<Connection> {
        self.connections@
    }

    /// The times that rule every connection.
    pub closed spec fn config(&self) -> ConnectionConfig {
        self.config
    }

    /// The disciplines of the channels that every connection has.
    pub closed spec fn channel_modes(&self) -> Seq<ChannelMode> {
        self.channel_modes@
    }

    /// The handshakes are in order, every connection is, and no two
    /// connections go to the same address.
    pub closed spec fn wf(&self) -> bool {
        &&& self.handshake_manager.wf()
        &&& distinct_peers(self.connections@)
        &&& forall|i: int| 0 <= i < self.connections@.len() ==> (#[trigger] self.connections@[i]).wf()
    }

    /// A server with the given secret and no client, whose connections
    /// get channels of the given disciplines; `None` for a secret of more
    /// than 64 bytes.
    pub fn with_secret(secret: Vec<u8>, config: ConnectionConfig, channel_modes: Vec<ChannelMode>) -> (server:
        Option<Self>)
        ensures
            server is Some <==> secret@.len() <= MAX_SECRET_LEN,
            server matches Some(s) ==> s.wf() && s.secret() == secret@ && s.config() == config
                && s.channel_modes() == channel_modes@ && s.addresses() == Map::<
                SocketAddress,
                Timestamp,
            >::empty() && s.connections() == Seq::<Connection>::empty(),
    {
        match HandshakeManager::with_secret(secret) {
            Some(handshake_manager) => Some(
                Server { handshake_manager, connections: Vec::new(), config, channel_modes },
            ),
            None => None,
        }
    }

    /// A server with a fresh secret of 32 bytes from the system's random
    /// source and no client, whose connections get channels of the given
    /// disciplines. Whether there is a secret is the random source's to
    /// say: `None` if it failed.
    pub fn new(config: ConnectionConfig, channel_modes: Vec<ChannelMode>) -> (server: Option<Self>)
        ensures
            server matches Some(s) ==> s.wf() && s.secret().len() == SECRET_LEN && s.config()
                == config && s.channel_modes() == channel_modes@ && s.addresses() == Map::<
                SocketAddress,
                Timestamp,
            >::empty() && s.connections() == Seq::<Connection>::empty(),
    {
        match HandshakeManager::new() {
            Some(handshake_manager) => Some(
                Server { handshake_manager, connections: Vec::new(), config, channel_modes },
            ),
            None => None,
        }
    }

    /// A connection to `address` that comes into being at `now`.
    fn open_connection(&self, address: SocketAddress, now: u64) -> (connection: Connection)
        ensures
            connection.wf(),
            is_new_connection(connection, address, self.config, self.channel_modes@, now),
    {
        let mut connection = Connection::new(address, self.config, now);
        let ghost modes = self.channel_modes@;
        let mut k: usize = 0;
        proof {
            assert(connection.channels().senders =~= modes.take(0).map_values(
                |mode: ChannelMode| fresh_sender(mode),
            ));
        }
        while k < self.channel_modes.len()
            invariant
                k <= self.channel_modes.len(),
                modes == self.channel_modes@,
                connection.wf(),
                is_new_connection(connection, address, self.config, modes.take(k as int), now),
            decreases self.channel_modes.len() - k,
        {
            let ghost before = connection.channels();
            connection.add_channel(self.channel_modes[k]);
            proof {
                let after = connection.channels();
                assert(after.senders =~= modes.take(k + 1).map_values(
                    |mode: ChannelMode| fresh_sender(mode),
                ));
                assert forall|j: int| 0 <= j < k + 1 implies is_fresh_receiver(
                    #[trigger] after.receivers[j],
                    modes.take(k + 1)[j],
                ) by {
                    if j < k {
                        assert(after.receivers.drop_last()[j] == before.receivers[j]);
                        assert(is_fresh_receiver(before.receivers[j], modes.take(k as int)[j]));
                    }
                }
            }
            k += 1;
        }
        assert(modes.take(k as int) =~= modes);
        connection
    }

    /// The place of the connection to `address`.
    fn position(&self, address: &SocketAddress) -> (found: Option<usize>)
        requires
            self.wf(),
        ensures
            match found {
                Some(i) => i < self.connections@.len() && self.connections@[i as int].address()
                    == *address && connection_place(self.connections@, *address) == i
                    && has_connection(self.connections@, *address),
                None => !has_connection(self.connections@, *address),
            },
    {
        let mut i: usize = 0;
        while i < self.connections.len()
            invariant
                i <= self.connections.len(),
                self.wf(),
                forall|j: int| 0 <= j < i ==> (#[trigger] self.connections@[j]).address() != *address,
            decreases self.connections.len() - i,
        {
            if self.connections[i].peer_address() == *address {
                proof {
                    let j = connection_place(self.connections@, *address);
                    assert(self.connections@[i as int].address() == *address);
                    assert(self.connections@[j].address() == *address);
                    assert(j == i);
                }
                return Some(i);
            }
            i += 1;
        }
        None
    }

    /// Whether a client at `address` has a connection.
    pub fn is_connected(&self, address: &SocketAddress) -> (connected: bool)
        requires
            self.wf(),
        ensures
            connected == has_connection(self.connections(), *address),
    {
        self.position(address).is_some()
    }

    /// The number of connections.
    pub fn connection_count(&self) -> (count: usize)
        ensures
            count == self.connections().len(),
    {
        self.connections.len()
    }

    /// The timestamp bound to `address`, if it has validated.
    pub fn timestamp_of(&self, address: &SocketAddress) -> (timestamp: Option<Timestamp>)
        requires
            self.wf(),
        ensures
            timestamp == if self.addresses().contains_key(*address) {
                Some(self.addresses()[*address])
            } else {
                None
            },
    {
        self.handshake_manager.timestamp_of(address)
    }

    /// Where a datagram of the given kind from `address` goes: a
    /// handshake datagram to the handshake, any other to the connection
    /// of the address, and nowhere if the address has none.
    pub fn route(&self, address: &SocketAddress, packet_type: PacketType) -> (route: Route)
        requires
            self.wf(),
        ensures
            route == packet_type.spec_route(has_connection(self.connections(), *address)),
    {
        packet_type.route(self.is_connected(address))
    }

    /// Takes a challenge and writes the answer. No connection and no
    /// binding changes.
    pub fn recv_challenge_request(&mut self, reader: &mut BitReader) -> (response: Result<
        BitWriter,
        DecodeError,
    >)
        requires
            old(self).wf(),
            old(reader).wf(),
        ensures
            final(self).wf(),
            final(reader).wf(),
            final(self).secret() == old(self).secret(),
            final(self).config() == old(self).config(),
            final(self).channel_modes() == old(self).channel_modes(),
            final(self).addresses() == old(self).addresses(),
            final(self).connections() == old(self).connections(),
            match response {
                Ok(writer) => old(reader)@.len() >= 64 && final(reader)@ == old(reader)@.skip(64)
                    && writer.wf() && writer@ == challenge_response_bits(
                    old(self).secret(),
                    bits_value(old(reader)@.take(64)) as Timestamp,
                ),
                Err(error) => error == DecodeError::Truncated && old(reader)@.len() < 64 && final(
                    reader)@ == old(reader)@,
            },
    {
        self.handshake_manager.recv_challenge_request(reader)
    }

    /// Takes a request to validate from `address`. A request with a valid
    /// digest binds its timestamp to the address and is answered; any
    /// other request changes nothing and is not answered. No connection
    /// comes into being or ends.
    pub fn recv_validate_request(&mut self, address: &SocketAddress, reader: &mut BitReader) -> (response:
        Option<BitWriter>)
        requires
            old(self).wf(),
            old(reader).wf(),
        ensures
            final(self).wf(),
            final(reader).wf(),
            final(self).secret() == old(self).secret(),
            final(self).config() == old(self).config(),
            final(self).channel_modes() == old(self).channel_modes(),
            final(self).connections() == old(self).connections(),
            final(reader)@ == after_timestamp_digest(old(reader)@),
            match validated_timestamp(old(self).secret(), old(reader)@) {
                Some(timestamp) => {
                    &&& final(self).addresses() == old(self).addresses().insert(
                        *address,
                        timestamp,
                    )
                    &&& response matches Some(writer)
                    &&& writer.wf()
                    &&& writer@ == header_bits(
                        handshake_header(PacketType::ServerValidateResponse),
                    )
                },
                None => final(self).addresses() == old(self).addresses() && response is None,
            },
    {
        match self.handshake_manager.recv_validate_request(address, reader) {
            HandshakeResult::Success => Some(self.handshake_manager.write_validate_response()),
            HandshakeResult::Invalid => None,
        }
    }

    /// The application has accepted the client at `address`. If the
    /// address has a timestamp bound to it, the client is answered, and
    /// a connection to it comes into being at `now` unless it has one.
    /// An address without a timestamp gets no connection and no answer.
    pub fn accept_connection(&mut self, address: &SocketAddress, now: u64) -> (response: Option<
        BitWriter,
    >)
        requires
            old(self).wf(),
        ensures
            final(self).wf(),
            final(self).secret() == old(self).secret(),
            final(self).config() == old(self).config(),
            final(self).channel_modes() == old(self).channel_modes(),
            final(self).addresses() == old(self).addresses(),
            !old(self).addresses().contains_key(*address) ==> response is None && final(
                self).connections() == old(self).connections(),
            old(self).addresses().contains_key(*address) ==> {
                &&& response matches Some(writer) && writer.wf() && writer@ == header_bits(
                    handshake_header(PacketType::ServerConnectResponse),
                )
                &&& has_connection(final(self).connections(), *address)
                &&& if has_connection(old(self).connections(), *address) {
                    final(self).connections() == old(self).connections()
                } else {
                    &&& final(self).connections().len() == old(self).connections().len() + 1
                    &&& final(self).connections().drop_last() == old(self).connections()
                    &&& is_new_connection(
                        final(self).connections().last(),
                        *address,
                        old(self).config(),
                        old(self).channel_modes(),
                        now,
                    )
                }
            },
    {
        if self.handshake_manager.timestamp_of(address).is_none() {
            return None;
        }
        match self.position(address) {
            Some(_) => {},
            None => {
                let connection = self.open_connection(*address, now);
                self.connections.push(connection);
                proof {
                    let before = old(self).connections@;
                    let after = self.connections@;
                    assert(after.drop_last() =~= before);
                    assert(after[before.len() as int].address() == *address);
                    assert forall|i: int, j: int|
                        0 <= i < after.len() && 0 <= j < after.len() && i != j implies after[i].address()
                        != after[j].address() by {
                        if i < before.len() && j < before.len() {
                            assert(before[i].address() != before[j].address());
                        } else if i < before.len() {
                            assert(before[i].address() != *address);
                        } else {
                            assert(before[j].address() != *address);
                        }
                    }
                }
            },
        }
        Some(self.handshake_manager.write_connect_response())
    }

    /// The application has refused the client at `address`: the client
    /// is told, and the timestamp bound to its address is forgotten. A
    /// connection that the address has stays.
    pub fn reject_connection(&mut self, address: &SocketAddress) -> (response: BitWriter)
        requires
            old(self).wf(),
        ensures
            final(self).wf(),
            final(self).secret() == old(self).secret(),
            final(self).config() == old(self).config(),
            final(self).channel_modes() == old(self).channel_modes(),
            final(self).connections() == old(self).connections(),
            final(self).addresses() == old(self).addresses().remove(*address),
            response.wf(),
            response@ == header_bits(handshake_header(PacketType::ServerRejectResponse)),
    {
        self.handshake_manager.delete_user(address);
        self.handshake_manager.write_reject_response()
    }

    /// Removes the connection at place `i` and forgets the timestamp
    /// bound to its address.
    fn drop_connection(&mut self, i: usize)
        requires
            old(self).wf(),
            i < old(self).connections@.len(),
        ensures
            final(self).wf(),
            final(self).secret() == old(self).secret(),
            final(self).config() == old(self).config(),
            final(self).channel_modes() == old(self).channel_modes(),
            final(self).connections() == old(self).connections().remove(i as int),
            final(self).addresses() == old(self).addresses().remove(
                old(self).connections()[i as int].address(),
            ),
            !has_connection(final(self).connections(), old(self).connections()[i as int].address()),
    {
        let connection = self.connections.remove(i);
        let address = connection.peer_address();
        self.handshake_manager.delete_user(&address);
        proof {
            let before = old(self).connections@;
            let after = self.connections@;
            assert(after =~= before.remove(i as int));
            assert forall|x: int| 0 <= x < after.len() implies (#[trigger] after[x]).address()
                != address && after[x].wf() by {
                let bx = if x < i {
                    x
                } else {
                    x + 1
                };
                assert(after[x] == before[bx]);
                assert(before[bx].address() != before[i as int].address());
            }
            assert forall|x: int, y: int|
                0 <= x < after.len() && 0 <= y < after.len() && x != y implies after[x].address()
                != after[y].address() by {
                let bx = if x < i {
                    x
                } else {
                    x + 1
                };
                let by = if y < i {
                    y
                } else {
                    y + 1
                };
                assert(after[x] == before[bx]);
                assert(after[y] == before[by]);
            }
        }
    }

    /// Takes a request to disconnect from `address`. It is honoured only
    /// if the address has a connection and the request carries a valid
    /// digest with the timestamp that is bound to the address: the
    /// connection ends then, and the timestamp is forgotten. Any other
    /// request changes nothing.
    pub fn recv_disconnect_request(&mut self, address: &SocketAddress, reader: &mut BitReader) -> (honoured:
        bool)
        requires
            old(self).wf(),
            old(reader).wf(),
        ensures
            final(self).wf(),
            final(reader).wf(),
            final(self).secret() == old(self).secret(),
            final(self).config() == old(self).config(),
            final(self).channel_modes() == old(self).channel_modes(),
            honoured == (has_connection(old(self).connections(), *address) && disconnect_honoured(
                old(self).secret(),
                old(self).addresses(),
                *address,
                old(reader)@,
            )),
            honoured ==> final(self).connections() == old(self).connections().remove(
                connection_place(old(self).connections(), *address),
            ) && final(self).addresses() == old(self).addresses().remove(*address)
                && !has_connection(final(self).connections(), *address),
            !honoured ==> final(self).connections() == old(self).connections() && final(
                self).addresses() == old(self).addresses(),
            has_connection(old(self).connections(), *address) ==> final(reader)@
                == after_timestamp_digest(old(reader)@),
            !has_connection(old(self).connections(), *address) ==> final(reader)@ == old(reader)@,
    {
        let i = match self.position(address) {
            Some(i) => i,
            None => {
                return false;
            },
        };
        let honoured = self.handshake_manager.verify_disconnect_request(
            &self.connections[i],
            reader,
        );
        if honoured {
            self.drop_connection(i);
        }
        honoured
    }

    /// Says what is to be done for the connection of `address` at `now`,
    /// given whether it has messages to send; nothing for an address
    /// without a connection. A connection whose client has been silent
    /// for the disconnect timeout ends: it is removed, and the timestamp
    /// bound to its address is forgotten.
    pub fn tick(&mut self, address: &SocketAddress, now: u64, has_messages: bool) -> (action: Option<
        TickAction,
    >)
        requires
            old(self).wf(),
        ensures
            final(self).wf(),
            final(self).secret() == old(self).secret(),
            final(self).config() == old(self).config(),
            final(self).channel_modes() == old(self).channel_modes(),
            !has_connection(old(self).connections(), *address) ==> action is None && final(
                self).connections() == old(self).connections() && final(self).addresses() == old(
                self).addresses(),
            has_connection(old(self).connections(), *address) ==> {
                let i = connection_place(old(self).connections(), *address);
                let before = old(self).connections()[i];
                let step = tick_step(before.config(), before.timers(), now, has_messages);
                &&& action == Some(step.1)
                &&& if step.1 is Disconnect {
                    &&& final(self).connections() == old(self).connections().remove(i)
                    &&& final(self).addresses() == old(self).addresses().remove(*address)
                    &&& !has_connection(final(self).connections(), *address)
                } else {
                    &&& final(self).addresses() == old(self).addresses()
                    &&& final(self).connections().len() == old(self).connections().len()
                    &&& forall|j: int|
                        0 <= j < old(self).connections().len() && j != i ==> #[trigger] final(
                            self).connections()[j] == old(self).connections()[j]
                    &&& final(self).connections()[i].address() == *address
                    &&& final(self).connections()[i].config() == before.config()
                    &&& final(self).connections()[i].acks() == before.acks()
                    &&& final(self).connections()[i].channels() == before.channels()
                    &&& final(self).connections()[i].rtt() == before.rtt()
                    &&& final(self).connections()[i].timers() == step.0
                }
            },
    {
        let i = match self.position(address) {
            Some(i) => i,
            None => {
                return None;
            },
        };
        let mut connection = self.connections.remove(i);
        let action = connection.tick(now, has_messages);
        self.connections.insert(i, connection);
        proof {
            let before = old(self).connections@;
            let after = self.connections@;
            assert(after.len() == before.len());
            assert forall|j: int| 0 <= j < before.len() && j != i implies #[trigger] after[j]
                == before[j] by {}
            assert forall|x: int, y: int|
                0 <= x < after.len() && 0 <= y < after.len() && x != y implies after[x].address()
                != after[y].address() by {
                assert(after[x].address() == before[x].address());
                assert(after[y].address() == before[y].address());
            }
        }
        match action {
            TickAction::Disconnect(_) => {
                proof {
                    assert(self.connections@.remove(i as int) =~= old(self).connections@.remove(
                        i as int,
                    ));
                }
                self.drop_connection(i);
            },
            _ => {},
        }
        Some(action)
    }
}

/// Whether connections can stand together in a server: each is in order,
/// and no two go to the same address.
pub open spec fn connections_wf(connections: Seq<Connection>) -> bool {
    &&& distinct_peers(connections)
    &&& forall|i: int| 0 <= i < connections.len() ==> (#[trigger] connections[i]).wf()
}

impl Server {
    /// The handshakes are in order.
    pub closed spec fn handshake_wf(&self) -> bool {
        self.handshake_manager.wf()
    }

    /// A server is in order if its handshakes are and its connections can
    /// stand together.
    pub proof fn lemma_wf(&self)
        ensures
            self.wf() <==> self.handshake_wf() && connections_wf(self.connections()),
    {
    }

    /// The connection to `address`, to work with it: to queue and hand
    /// over messages, and to read and write datagrams. The server is in
    /// order afterwards if the connection is and still goes to the same
    /// address.
    pub fn connection_mut(&mut self, address: &SocketAddress) -> (connection: Option<
        &mut Connection,
    >)
        requires
            old(self).wf(),
        ensures
            final(self).secret() == old(self).secret(),
            final(self).config() == old(self).config(),
            final(self).channel_modes() == old(self).channel_modes(),
            final(self).addresses() == old(self).addresses(),
            final(self).handshake_wf(),
            !has_connection(old(self).connections(), *address) ==> connection is None && final(
                self).connections() == old(self).connections(),
            has_connection(old(self).connections(), *address) ==> (connection matches Some(c)
                && *c == old(self).connections()[connection_place(
                old(self).connections(),
                *address,
            )] && c.wf() && c.address() == *address && final(self).connections() == old(
                self).connections().update(
                connection_place(old(self).connections(), *address),
                *final(c),
            )),
            forall|changed: Connection|
                has_connection(old(self).connections(), *address) && changed.wf()
                    && changed.address() == *address ==> connections_wf(
                    #[trigger] old(self).connections().update(
                        connection_place(old(self).connections(), *address),
                        changed,
                    ),
                ),
    {
        match self.position(address) {
            Some(i) => {
                proof {
                    let before = self.connections@;
                    assert forall|changed: Connection|
                        changed.wf() && changed.address() == *address implies connections_wf(
                        #[trigger] before.update(i as int, changed),
                    ) by {
                        let after = before.update(i as int, changed);
                        assert forall|x: int, y: int|
                            0 <= x < after.len() && 0 <= y < after.len() && x != y implies after[x].address()
                            != after[y].address() by {
                            assert(after[x].address() == before[x].address());
                            assert(after[y].address() == before[y].address());
                        }
                        assert forall|x: int| 0 <= x < after.len() implies (#[trigger] after[x]).wf() by {
                            if x != i {
                                assert(after[x] == before[x]);
                            }
                        }
                    }
                }
                Some(&mut self.connections[i])
            },
            None => None,
        }
    }
}

impl Server {
    /// Queues a message for the client at `address` on a channel. Gives
    /// nothing, and changes nothing, where the address has no connection;
    /// otherwise what the connection makes of the message.
    pub fn send_message(&mut self, address: &SocketAddress, channel: ChannelId, message: MessageContainer) -> (outcome:
        Option<Result<(), DataError>>)
        requires
            old(self).wf(),
        ensures
            final(self).wf(),
            final(self).secret() == old(self).secret(),
            final(self).config() == old(self).config(),
            final(self).channel_modes() == old(self).channel_modes(),
            final(self).addresses() == old(self).addresses(),
            final(self).connections().len() == old(self).connections().len(),
            !has_connection(old(self).connections(), *address) ==> outcome is None && final(
                self).connections() == old(self).connections(),
            has_connection(old(self).connections(), *address) ==> {
                let i = connection_place(old(self).connections(), *address);
                let before = old(self).connections()[i];
                let after = final(self).connections()[i];
                &&& forall|j: int|
                    0 <= j < old(self).connections().len() && j != i ==> #[trigger] final(
                        self).connections()[j] == old(self).connections()[j]
                &&& after.address() == *address
                &&& after.config() == before.config()
                &&& after.timers() == before.timers()
                &&& after.acks() == before.acks()
                &&& after.rtt() == before.rtt()
                &&& if channel >= before.channels().senders.len() {
                    &&& outcome == Some(Err::<(), DataError>(DataError::UnknownChannel(channel)))
                    &&& after.channels() == before.channels()
                } else {
                    let sent = after_send(before.channels().senders[channel as int], message@);
                    &&& after.channels() == (ChannelState {
                        senders: before.channels().senders.update(channel as int, sent.0),
                        ..before.channels()
                    })
                    &&& outcome == Some(
                        match sent.1 {
                            Some(error) => Err::<(), DataError>(
                                DataError::Channel(channel, ChannelReadError::Protocol(error)),
                            ),
                            None => Ok::<(), DataError>(()),
                        },
                    )
                }
            },
    {
        let outcome = match self.connection_mut(address) {
            Some(connection) => Some(connection.send_message(channel, message)),
            None => None,
        };
        proof {
            self.lemma_wf();
            old(self).lemma_wf();
        }
        outcome
    }
}

} // verus!
