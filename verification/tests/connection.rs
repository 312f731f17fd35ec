use naia_core::address::SocketAddress;
use naia_core::bit_reader::BitReader;
use naia_core::bit_writer::BitWriter;
use naia_core::connection::{Connection, ConnectionConfig, DisconnectReason, TickAction};
use naia_core::handshake_manager::{HandshakeManager, HandshakeResult};
use naia_core::hmac::sign_timestamp;
use naia_core::packet_type::PacketType;
use naia_core::standard_header::StandardHeader;

fn peer() -> SocketAddress {
    SocketAddress::V4 { octets: 0x0a00_0002, port: 14191 }
}

#[test]
fn default_times() {
    let config = ConnectionConfig::default_config();
    assert_eq!(config.disconnect_timeout_millis, 10_000);
    assert_eq!(config.heartbeat_interval_millis, 3_000);
    assert_eq!(config.handshake_resend_interval_millis, 250);
}

#[test]
fn silent_peer_is_disconnected_exactly_once() {
    let mut connection = Connection::new(peer(), ConnectionConfig::default_config(), 1_000);
    let mut events = Vec::new();
    let mut now = 1_000;
    while now <= 30_000 {
        let action = connection.tick(now, false);
        if let TickAction::Disconnect(reason) = action {
            events.push((now, reason));
        }
        now += 16;
    }
    assert_eq!(events.len(), 1);
    assert_eq!(events[0].1, DisconnectReason::TimeoutError);
    assert!(events[0].0 >= 11_000 && events[0].0 < 11_016);
    assert!(connection.is_disconnected());
}

#[test]
fn disconnect_comes_exactly_at_the_timeout() {
    let mut connection = Connection::new(peer(), ConnectionConfig::default_config(), 0);
    assert_eq!(connection.tick(9_999, true), TickAction::SendData);
    assert_eq!(
        connection.tick(10_000, true),
        TickAction::Disconnect(DisconnectReason::TimeoutError)
    );
    assert_eq!(connection.tick(10_001, true), TickAction::Idle);
    assert_eq!(connection.tick(50_000, false), TickAction::Idle);
}

#[test]
fn datagram_from_the_peer_keeps_the_connection() {
    let mut connection = Connection::new(peer(), ConnectionConfig::default_config(), 0);
    connection.process_incoming_header(&StandardHeader::new(PacketType::Heartbeat, 0, 65535, 0), 9_000);
    assert_eq!(connection.tick(18_999, true), TickAction::SendData);
    assert_eq!(
        connection.tick(19_000, false),
        TickAction::Disconnect(DisconnectReason::TimeoutError)
    );
}

#[test]
fn heartbeat_after_three_seconds_of_silence() {
    let mut connection = Connection::new(peer(), ConnectionConfig::default_config(), 0);
    assert_eq!(connection.tick(2_999, false), TickAction::Idle);
    assert_eq!(connection.tick(3_000, false), TickAction::SendHeartbeat);
    assert_eq!(connection.tick(3_001, false), TickAction::Idle);
    assert_eq!(connection.tick(5_000, true), TickAction::SendData);
    assert_eq!(connection.tick(7_999, false), TickAction::Idle);
    assert_eq!(connection.tick(8_000, false), TickAction::SendHeartbeat);
}

#[test]
fn time_that_runs_backwards_counts_as_no_time() {
    let mut connection = Connection::new(peer(), ConnectionConfig::default_config(), 5_000);
    assert_eq!(connection.tick(0, false), TickAction::Idle);
}

#[test]
fn peer_that_leaves_is_reported_once() {
    let mut connection = Connection::new(peer(), ConnectionConfig::default_config(), 0);
    assert_eq!(connection.disconnect(), TickAction::Disconnect(DisconnectReason::PeerLeft));
    assert_eq!(connection.disconnect(), TickAction::Idle);
    assert_eq!(connection.tick(20_000, false), TickAction::Idle);
}

#[test]
fn connection_stamps_and_takes_headers() {
    let mut connection = Connection::new(peer(), ConnectionConfig::default_config(), 0);
    assert_eq!(connection.peer_address(), peer());
    let header = connection.next_outgoing_header(PacketType::Data, 5);
    assert_eq!(header, StandardHeader::new(PacketType::Data, 0, 65535, 0));
    let acked = connection.process_incoming_header(&StandardHeader::new(PacketType::Data, 3, 0, 0), 20);
    assert_eq!(acked.len(), 1);
    assert_eq!(acked[0].index, 0);
    assert_eq!(acked[0].sent_at, 5);
    let header = connection.next_outgoing_header(PacketType::Data, 30);
    assert_eq!(header, StandardHeader::new(PacketType::Data, 1, 3, 0));
}

#[test]
fn timed_out_peer_is_forgotten_by_the_handshake_manager() {
    let secret: Vec<u8> = (0u8..32).collect();
    let mut manager = HandshakeManager::with_secret(secret.clone()).unwrap();
    let mut writer = BitWriter::new();
    writer.write_u64(1_700_000_000);
    writer.write_bytes(&sign_timestamp(&secret, 1_700_000_000));
    let payload = writer.to_bytes();
    let mut reader = BitReader::new(&payload);
    assert_eq!(manager.recv_validate_request(&peer(), &mut reader), HandshakeResult::Success);
    let mut connection = Connection::new(peer(), ConnectionConfig::default_config(), 0);

    let mut disconnected = 0;
    for now in (0..=20_000u64).step_by(1_000) {
        if let TickAction::Disconnect(reason) = connection.tick(now, false) {
            assert_eq!(reason, DisconnectReason::TimeoutError);
            assert_eq!(now, 10_000);
            manager.delete_user(&connection.peer_address());
            disconnected += 1;
        }
    }
    assert_eq!(disconnected, 1);
    assert_eq!(manager.timestamp_of(&peer()), None);
}

#[test]
fn ping_is_due_after_the_ping_interval_and_answered_with_a_pong() {
    let mut connection = Connection::new(peer(), ConnectionConfig::default_config(), 0);
    assert!(!connection.ping_due(999));
    assert!(connection.ping_due(1_000));
    let ping = connection.write_ping_pong(false, 1_000).to_bytes();
    assert_eq!(ping, vec![9, 0, 0, 255, 255, 0, 0, 0, 0]);
    assert!(!connection.ping_due(1_999));
    assert!(connection.ping_due(2_000));

    assert_eq!(Connection::answer_to(PacketType::Ping), Some(PacketType::Pong));
    assert_eq!(Connection::answer_to(PacketType::Pong), None);
    assert_eq!(Connection::answer_to(PacketType::Data), None);
    let pong = connection.write_ping_pong(true, 2_500).to_bytes();
    assert_eq!(pong, vec![10, 1, 0, 255, 255, 0, 0, 0, 0]);
    assert!(connection.ping_due(2_500));

    connection.disconnect();
    assert!(!connection.ping_due(100_000));
}
