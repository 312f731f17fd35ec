use naia_core::address::SocketAddress;
use naia_core::auth_payload::AuthPayload;
use naia_core::bit_reader::BitReader;
use naia_core::client_handshake::{ClientHandshakeManager, HandshakeState};
use naia_core::connection::{Connection, ConnectionConfig};
use naia_core::handshake_manager::{HandshakeManager, HandshakeResult};
use naia_core::packet_type::PacketType;
use naia_core::standard_header::StandardHeader;

fn address() -> SocketAddress {
    SocketAddress::V4 { octets: 0x0a00_0002, port: 14191 }
}

fn server() -> HandshakeManager {
    HandshakeManager::with_secret((0u8..32).collect()).unwrap()
}

#[test]
fn step_is_sent_again_after_the_resend_interval() {
    let mut client = ClientHandshakeManager::new(1_700_000_000, 250);
    let first = client.write_request(1_000).unwrap().to_bytes();
    assert_eq!(first, vec![0, 0, 0, 0, 0, 0, 0, 0, 0, 0, 241, 83, 101, 0, 0, 0, 0]);
    assert!(client.write_request(1_249).is_none());
    assert!(client.write_request(900).is_none());
    assert_eq!(client.write_request(1_250).unwrap().to_bytes(), first);
    assert!(client.write_request(1_499).is_none());
}

#[test]
fn honest_client_and_server_complete_the_handshake() {
    let mut server = server();
    let mut client = ClientHandshakeManager::new(1_700_000_000, 250);

    let challenge = client.write_request(0).unwrap().to_bytes();
    let mut reader = BitReader::new(&challenge);
    assert_eq!(
        StandardHeader::de(&mut reader).unwrap().packet_type,
        PacketType::ClientChallengeRequest
    );
    let response = server.recv_challenge_request(&mut reader).unwrap().to_bytes();

    let mut reader = BitReader::new(&response);
    let header = StandardHeader::de(&mut reader).unwrap();
    client.recv_response(header.packet_type, &mut reader);
    assert_eq!(client.state(), HandshakeState::AwaitingValidateResponse);

    let validate = client.write_request(10).unwrap().to_bytes();
    let mut reader = BitReader::new(&validate);
    assert_eq!(
        StandardHeader::de(&mut reader).unwrap().packet_type,
        PacketType::ClientValidateRequest
    );
    assert_eq!(server.recv_validate_request(&address(), &mut reader), HandshakeResult::Success);
    assert_eq!(server.timestamp_of(&address()), Some(1_700_000_000));

    let response = server.write_validate_response().to_bytes();
    let mut reader = BitReader::new(&response);
    let header = StandardHeader::de(&mut reader).unwrap();
    client.recv_response(header.packet_type, &mut reader);
    assert_eq!(client.state(), HandshakeState::AwaitingConnectResponse);

    let connect = client.write_request(20).unwrap().to_bytes();
    assert_eq!(connect, vec![4, 0, 0, 0, 0, 0, 0, 0, 0]);
    let response = server.write_connect_response().to_bytes();
    let mut reader = BitReader::new(&response);
    let header = StandardHeader::de(&mut reader).unwrap();
    client.recv_response(header.packet_type, &mut reader);
    assert!(client.is_connected());
    assert!(client.write_request(10_000).is_none());

    let disconnect = client.write_disconnect().unwrap().to_bytes();
    let mut reader = BitReader::new(&disconnect);
    assert_eq!(StandardHeader::de(&mut reader).unwrap().packet_type, PacketType::Disconnect);
    let connection = Connection::new(address(), ConnectionConfig::default_config(), 0);
    assert!(server.verify_disconnect_request(&connection, &mut reader));
}

#[test]
fn answer_for_another_timestamp_is_ignored() {
    let mut server = server();
    let mut client = ClientHandshakeManager::new(5, 250);
    client.write_request(0);
    let response = server.write_challenge_response(&6).to_bytes();
    let mut reader = BitReader::new(&response);
    let header = StandardHeader::de(&mut reader).unwrap();
    client.recv_response(header.packet_type, &mut reader);
    assert_eq!(client.state(), HandshakeState::AwaitingChallengeResponse);
    assert!(client.write_disconnect().is_none());
}

#[test]
fn answers_out_of_turn_are_ignored() {
    let mut client = ClientHandshakeManager::new(5, 250);
    let empty: Vec<u8> = Vec::new();
    let mut reader = BitReader::new(&empty);
    client.recv_response(PacketType::ServerValidateResponse, &mut reader);
    client.recv_response(PacketType::ServerConnectResponse, &mut reader);
    client.recv_response(PacketType::ServerChallengeResponse, &mut reader);
    client.recv_response(PacketType::Data, &mut reader);
    assert_eq!(client.state(), HandshakeState::AwaitingChallengeResponse);
}

#[test]
fn refusal_ends_the_handshake() {
    let mut client = ClientHandshakeManager::new(5, 250);
    let empty: Vec<u8> = Vec::new();
    let mut reader = BitReader::new(&empty);
    client.recv_response(PacketType::ServerRejectResponse, &mut reader);
    assert_eq!(client.state(), HandshakeState::Rejected);
    assert!(client.write_request(1_000_000).is_none());
    client.recv_response(PacketType::ServerConnectResponse, &mut reader);
    assert_eq!(client.state(), HandshakeState::Rejected);
}

#[test]
fn client_presents_its_auth_with_the_request_to_validate() {
    let mut server = server();
    let auth = AuthPayload { bytes: Some(b"user:pass".to_vec()), headers: None };
    let mut client = ClientHandshakeManager::with_auth(1_700_000_000, 250, auth);
    let challenge = client.write_request(0).unwrap().to_bytes();
    assert_eq!(challenge.len(), 17);
    let response = server.write_challenge_response(&1_700_000_000).to_bytes();
    let mut reader = BitReader::new(&response);
    let header = StandardHeader::de(&mut reader).unwrap();
    client.recv_response(header.packet_type, &mut reader);

    let validate = client.write_request(10).unwrap().to_bytes();
    let mut reader = BitReader::new(&validate);
    StandardHeader::de(&mut reader).unwrap();
    assert_eq!(server.recv_validate_request(&address(), &mut reader), HandshakeResult::Success);
    let presented = AuthPayload::de(&mut reader).unwrap();
    assert_eq!(presented.bytes, Some(b"user:pass".to_vec()));
    assert_eq!(presented.headers, None);
    assert_eq!(server.timestamp_of(&address()), Some(1_700_000_000));
    assert_eq!(server.write_connect_response().to_bytes(), vec![5, 0, 0, 0, 0, 0, 0, 0, 0]);
}
