use naia_core::address::SocketAddress;
use naia_core::bit_reader::BitReader;
use naia_core::bit_writer::BitWriter;
use naia_core::channel::ChannelMode;
use naia_core::channel_set::DataError;
use naia_core::client_handshake::ClientHandshakeManager;
use naia_core::connection::{ConnectionConfig, DisconnectReason, TickAction};
use naia_core::entity_waitlist::EntityWaitlist;
use naia_core::hmac::sign_timestamp;
use naia_core::message::{MessageContainer, MessageKinds};
use naia_core::packet_type::{PacketType, Route};
use naia_core::server::Server;
use naia_core::standard_header::StandardHeader;

fn secret() -> Vec<u8> {
    (0u8..32).collect()
}

fn client(last: u8) -> SocketAddress {
    SocketAddress::V4 { octets: 0x0a00_0000 | last as u32, port: 14191 }
}

fn server() -> Server {
    Server::with_secret(
        secret(),
        ConnectionConfig::default_config(),
        vec![ChannelMode::UnorderedReliable, ChannelMode::UnorderedUnreliable],
    )
    .unwrap()
}

fn credentials(timestamp: u64) -> Vec<u8> {
    let mut writer = BitWriter::new();
    writer.write_u64(timestamp);
    writer.write_bytes(&sign_timestamp(&secret(), timestamp));
    writer.to_bytes()
}

fn validate(server: &mut Server, address: &SocketAddress, timestamp: u64) -> bool {
    let payload = credentials(timestamp);
    let mut reader = BitReader::new(&payload);
    server.recv_validate_request(address, &mut reader).is_some()
}

#[test]
fn client_is_let_in_after_challenge_validation_and_acceptance() {
    let mut server = server();
    let mut handshake = ClientHandshakeManager::new(1_700_000_000, 250);
    let address = client(2);

    let request = handshake.write_request(0).unwrap().to_bytes();
    let mut reader = BitReader::new(&request);
    let header = StandardHeader::de(&mut reader).unwrap();
    assert_eq!(server.route(&address, header.packet_type), Route::Handshake);
    let answer = server.recv_challenge_request(&mut reader).unwrap().to_bytes();
    assert_eq!(server.timestamp_of(&address), None);
    let mut reader = BitReader::new(&answer);
    let header = StandardHeader::de(&mut reader).unwrap();
    handshake.recv_response(header.packet_type, &mut reader);

    let request = handshake.write_request(10).unwrap().to_bytes();
    let mut reader = BitReader::new(&request);
    StandardHeader::de(&mut reader).unwrap();
    let answer = server.recv_validate_request(&address, &mut reader).unwrap().to_bytes();
    assert_eq!(answer, vec![3, 0, 0, 0, 0, 0, 0, 0, 0]);
    assert_eq!(server.timestamp_of(&address), Some(1_700_000_000));
    assert!(!server.is_connected(&address));
    assert_eq!(server.route(&address, PacketType::Data), Route::Dropped);

    let answer = server.accept_connection(&address, 20).unwrap().to_bytes();
    assert_eq!(answer, vec![5, 0, 0, 0, 0, 0, 0, 0, 0]);
    assert!(server.is_connected(&address));
    assert_eq!(server.connection_count(), 1);
    assert_eq!(server.route(&address, PacketType::Data), Route::Connection);
    assert_eq!(server.timestamp_of(&address), Some(1_700_000_000));

    // a second acceptance answers again and makes no second connection
    assert!(server.accept_connection(&address, 30).is_some());
    assert_eq!(server.connection_count(), 1);
}

#[test]
fn nobody_is_let_in_without_validation() {
    let mut server = server();
    assert!(server.accept_connection(&client(2), 0).is_none());
    assert_eq!(server.connection_count(), 0);

    let mut tampered = credentials(1_700_000_000);
    tampered[12] ^= 1;
    let mut reader = BitReader::new(&tampered);
    assert!(server.recv_validate_request(&client(2), &mut reader).is_none());
    assert_eq!(server.timestamp_of(&client(2)), None);
    assert!(server.accept_connection(&client(2), 0).is_none());
    assert!(!server.is_connected(&client(2)));
}

#[test]
fn refused_client_is_forgotten() {
    let mut server = server();
    assert!(validate(&mut server, &client(2), 5));
    assert_eq!(server.reject_connection(&client(2)).to_bytes(), vec![6, 0, 0, 0, 0, 0, 0, 0, 0]);
    assert_eq!(server.timestamp_of(&client(2)), None);
    assert!(server.accept_connection(&client(2), 0).is_none());
}

#[test]
fn spoofer_cannot_disconnect_a_client() {
    let mut server = server();
    assert!(validate(&mut server, &client(2), 1_700_000_000));
    server.accept_connection(&client(2), 0).unwrap();

    // the spoofer has no connection
    let stolen = credentials(1_700_000_000);
    let mut reader = BitReader::new(&stolen);
    assert!(!server.recv_disconnect_request(&client(99), &mut reader));
    assert!(server.is_connected(&client(2)));

    // a spoofer with a connection of its own presents the stolen credentials
    assert!(validate(&mut server, &client(99), 7));
    server.accept_connection(&client(99), 0).unwrap();
    let mut reader = BitReader::new(&stolen);
    assert!(!server.recv_disconnect_request(&client(99), &mut reader));
    assert!(server.is_connected(&client(2)));
    assert!(server.is_connected(&client(99)));
    assert_eq!(server.timestamp_of(&client(2)), Some(1_700_000_000));

    // the client itself leaves
    let mut reader = BitReader::new(&stolen);
    assert!(server.recv_disconnect_request(&client(2), &mut reader));
    assert!(!server.is_connected(&client(2)));
    assert_eq!(server.timestamp_of(&client(2)), None);
    assert!(server.is_connected(&client(99)));
    let mut reader = BitReader::new(&stolen);
    assert!(!server.recv_disconnect_request(&client(2), &mut reader));
}

#[test]
fn silent_client_is_disconnected_once_and_forgotten() {
    let mut server = server();
    assert!(validate(&mut server, &client(2), 1_700_000_000));
    assert!(validate(&mut server, &client(3), 9));
    server.accept_connection(&client(2), 0).unwrap();
    server.accept_connection(&client(3), 0).unwrap();

    let mut events = Vec::new();
    for now in (0..=30_000u64).step_by(500) {
        if now == 9_500 {
            let heard = StandardHeader::new(PacketType::Heartbeat, 0, 65535, 0);
            server.connection_mut(&client(3)).unwrap().process_incoming_header(&heard, now);
        }
        for address in [client(2), client(3), client(4)] {
            match server.tick(&address, now, false) {
                Some(TickAction::Disconnect(reason)) => events.push((now, address, reason)),
                Some(_) => assert!(server.is_connected(&address)),
                None => assert!(!server.is_connected(&address)),
            }
        }
    }
    assert_eq!(
        events,
        vec![
            (10_000, client(2), DisconnectReason::TimeoutError),
            (19_500, client(3), DisconnectReason::TimeoutError),
        ]
    );
    assert_eq!(server.connection_count(), 0);
    assert_eq!(server.timestamp_of(&client(2)), None);
    assert_eq!(server.timestamp_of(&client(3)), None);
}

#[test]
fn server_and_client_exchange_messages() {
    let kinds = MessageKinds::plain(1);
    let mut waitlist = EntityWaitlist::new();
    let mut server = server();
    assert!(validate(&mut server, &client(2), 1));
    server.accept_connection(&client(2), 0).unwrap();

    assert_eq!(server.send_message(&client(9), 0, MessageContainer::new(0, vec![1], Vec::new())), None);
    assert_eq!(
        server.send_message(&client(2), 5, MessageContainer::new(0, vec![1], Vec::new())),
        Some(Err(DataError::UnknownChannel(5)))
    );
    assert_eq!(
        server.send_message(&client(2), 0, MessageContainer::new(0, vec![42], Vec::new())),
        Some(Ok(()))
    );
    let connection = server.connection_mut(&client(2)).unwrap();
    assert!(connection.has_messages());
    let datagram = connection.write_data_packet(9_600, 10).to_bytes();

    let mut peer = naia_core::connection::Connection::new(
        client(1),
        ConnectionConfig::default_config(),
        0,
    );
    peer.add_channel(ChannelMode::UnorderedReliable);
    peer.add_channel(ChannelMode::UnorderedUnreliable);
    let mut reader = BitReader::new(&datagram);
    let header = StandardHeader::de(&mut reader).unwrap();
    assert_eq!(peer.read_data_packet(&header, &kinds, &mut waitlist, &mut reader, 10), Ok(()));
    let inbox = peer.receive_messages(&mut waitlist);
    assert_eq!(inbox[0].len(), 1);
    assert_eq!(inbox[0][0].payload(), &vec![42]);
    assert!(server.connection_mut(&client(7)).is_none());
}

#[test]
fn server_makes_its_own_secret() {
    let server = Server::new(ConnectionConfig::default_config(), Vec::new()).unwrap();
    assert_eq!(server.connection_count(), 0);
    assert!(Server::with_secret(vec![0; 65], ConnectionConfig::default_config(), Vec::new()).is_none());
}
