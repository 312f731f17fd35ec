use naia_core::address::SocketAddress;
use naia_core::auth_payload::AuthPayload;
use naia_core::bit_reader::{BitReader, DecodeError};
use naia_core::bit_writer::BitWriter;
use naia_core::connection::{Connection, ConnectionConfig};
use naia_core::handshake_manager::{HandshakeManager, HandshakeResult};
use naia_core::hmac::{generate_secret, sign_timestamp, timestamp_bytes, verify_timestamp};
use naia_core::packet_type::PacketType;
use naia_core::standard_header::StandardHeader;

const DIGEST_1700000000: [u8; 32] = [
    10, 7, 236, 77, 104, 92, 211, 22, 249, 220, 138, 207, 132, 150, 211, 209, 119, 165, 191, 143,
    149, 41, 112, 138, 102, 116, 75, 132, 180, 50, 73, 13,
];

const DIGEST_0: [u8; 32] = [
    159, 12, 217, 185, 64, 151, 254, 73, 41, 145, 141, 43, 137, 66, 179, 68, 57, 87, 66, 97, 163,
    93, 197, 1, 99, 240, 108, 103, 212, 228, 136, 153,
];

const DIGEST_MAX: [u8; 32] = [
    81, 225, 121, 62, 174, 102, 226, 195, 49, 18, 248, 4, 249, 184, 52, 235, 180, 244, 143, 206,
    226, 10, 139, 187, 131, 26, 67, 126, 11, 220, 80, 204,
];

fn secret() -> Vec<u8> {
    (0u8..32).collect()
}

fn client(last: u8) -> SocketAddress {
    SocketAddress::V4 { octets: 0x0a00_0000 | last as u32, port: 14191 }
}

fn validate_payload(timestamp: u64, digest: &[u8]) -> Vec<u8> {
    let mut writer = BitWriter::new();
    writer.write_u64(timestamp);
    writer.write_bytes(digest);
    writer.to_bytes()
}

fn challenge_payload(timestamp: u64) -> Vec<u8> {
    let mut writer = BitWriter::new();
    writer.write_u64(timestamp);
    writer.to_bytes()
}

#[test]
fn timestamp_is_signed_over_its_little_endian_bytes() {
    assert_eq!(timestamp_bytes(1_700_000_000), vec![0, 241, 83, 101, 0, 0, 0, 0]);
    assert_eq!(timestamp_bytes(u64::MAX), vec![255; 8]);
}

#[test]
fn digest_is_hmac_sha256() {
    assert_eq!(sign_timestamp(&secret(), 1_700_000_000), DIGEST_1700000000.to_vec());
    assert_eq!(sign_timestamp(&secret(), 0), DIGEST_0.to_vec());
    assert_eq!(sign_timestamp(&secret(), u64::MAX), DIGEST_MAX.to_vec());
}

#[test]
fn signed_timestamp_verifies() {
    for timestamp in [0u64, 1, 1_700_000_000, u64::MAX] {
        let digest = sign_timestamp(&secret(), timestamp);
        assert!(verify_timestamp(&secret(), timestamp, &digest));
    }
}

#[test]
fn tampering_with_any_byte_of_the_digest_fails() {
    let digest = sign_timestamp(&secret(), 1_700_000_000);
    for i in 0..digest.len() {
        let mut tampered = digest.clone();
        tampered[i] ^= 1;
        assert!(!verify_timestamp(&secret(), 1_700_000_000, &tampered));
    }
    assert!(!verify_timestamp(&secret(), 1_700_000_000, &digest[..31]));
    assert!(!verify_timestamp(&secret(), 1_700_000_000, &[]));
}

#[test]
fn tampering_with_the_timestamp_fails() {
    let digest = sign_timestamp(&secret(), 1_700_000_000);
    assert!(!verify_timestamp(&secret(), 1_700_000_001, &digest));
    assert!(!verify_timestamp(&secret(), 1_700_000_000 ^ (1 << 63), &digest));
}

#[test]
fn another_secret_gives_another_digest() {
    let other: Vec<u8> = (1u8..33).collect();
    let digest = sign_timestamp(&other, 1_700_000_000);
    assert_ne!(digest, DIGEST_1700000000.to_vec());
    assert!(!verify_timestamp(&secret(), 1_700_000_000, &digest));
}

#[test]
fn generated_secrets_have_32_bytes_and_differ() {
    let a = generate_secret().unwrap();
    let b = generate_secret().unwrap();
    assert_eq!(a.len(), 32);
    assert_eq!(b.len(), 32);
    assert_ne!(a, b);
}

#[test]
fn secret_of_more_than_64_bytes_is_refused() {
    assert!(HandshakeManager::with_secret(vec![0; 65]).is_none());
    assert!(HandshakeManager::with_secret(vec![0; 64]).is_some());
    assert!(HandshakeManager::new().is_some());
}

#[test]
fn challenge_is_answered_with_timestamp_and_digest() {
    let mut manager = HandshakeManager::with_secret(secret()).unwrap();
    let request = challenge_payload(1_700_000_000);
    let mut reader = BitReader::new(&request);
    let response = manager.recv_challenge_request(&mut reader).unwrap().to_bytes();

    let mut expected = vec![1u8, 0, 0, 0, 0, 0, 0, 0, 0];
    expected.extend_from_slice(&[0, 241, 83, 101, 0, 0, 0, 0]);
    expected.push(32);
    expected.extend_from_slice(&DIGEST_1700000000);
    assert_eq!(response, expected);
}

#[test]
fn second_identical_challenge_uses_the_cached_digest() {
    let mut manager = HandshakeManager::with_secret(secret()).unwrap();
    let first = manager.write_challenge_response(&1_700_000_000).to_bytes();
    assert_eq!(manager.cached_digests(), 1);
    let second = manager.write_challenge_response(&1_700_000_000).to_bytes();
    assert_eq!(manager.cached_digests(), 1);
    assert_eq!(first, second);
}

#[test]
fn digest_cache_holds_64_timestamps() {
    let mut manager = HandshakeManager::with_secret(secret()).unwrap();
    for timestamp in 0..100u64 {
        manager.write_challenge_response(&timestamp);
    }
    assert_eq!(manager.cached_digests(), 64);
    let again = manager.write_challenge_response(&0).to_bytes();
    assert_eq!(&again[18..], &DIGEST_0[..]);
}

#[test]
fn truncated_challenge_is_a_decode_error() {
    let mut manager = HandshakeManager::with_secret(secret()).unwrap();
    let request = vec![0u8; 7];
    let mut reader = BitReader::new(&request);
    assert_eq!(
        manager.recv_challenge_request(&mut reader).err(),
        Some(DecodeError::Truncated)
    );
    assert_eq!(manager.cached_digests(), 0);
}

#[test]
fn valid_validate_request_binds_the_address() {
    let mut manager = HandshakeManager::with_secret(secret()).unwrap();
    let mut payload = validate_payload(1_700_000_000, &DIGEST_1700000000);
    payload.extend_from_slice(b"user:pass");
    let mut reader = BitReader::new(&payload);
    let result = manager.recv_validate_request(&client(2), &mut reader);
    assert_eq!(result, HandshakeResult::Success);
    assert_eq!(manager.timestamp_of(&client(2)), Some(1_700_000_000));
    assert_eq!(reader.read_u8(), Ok(b'u'));

    assert_eq!(manager.write_validate_response().to_bytes(), vec![3, 0, 0, 0, 0, 0, 0, 0, 0]);
    assert_eq!(manager.write_connect_response().to_bytes(), vec![5, 0, 0, 0, 0, 0, 0, 0, 0]);
}

#[test]
fn tampered_digest_changes_nothing() {
    let mut manager = HandshakeManager::with_secret(secret()).unwrap();
    let mut digest = DIGEST_1700000000.to_vec();
    digest[5] ^= 0x10;
    let payload = validate_payload(1_700_000_000, &digest);
    let mut reader = BitReader::new(&payload);
    let result = manager.recv_validate_request(&client(2), &mut reader);
    assert_eq!(result, HandshakeResult::Invalid);
    assert_eq!(manager.timestamp_of(&client(2)), None);
}

#[test]
fn truncated_validate_request_is_invalid() {
    let mut manager = HandshakeManager::with_secret(secret()).unwrap();
    let payload = validate_payload(1_700_000_000, &DIGEST_1700000000);
    let mut reader = BitReader::new(&payload[..20]);
    assert_eq!(manager.recv_validate_request(&client(2), &mut reader), HandshakeResult::Invalid);
    assert_eq!(manager.timestamp_of(&client(2)), None);
    assert_eq!(reader.read_u8(), Ok(0));
}

#[test]
fn rejected_client_is_purged() {
    let mut manager = HandshakeManager::with_secret(secret()).unwrap();
    let payload = validate_payload(1_700_000_000, &DIGEST_1700000000);
    let mut reader = BitReader::new(&payload);
    manager.recv_validate_request(&client(2), &mut reader);
    assert_eq!(manager.write_reject_response().to_bytes(), vec![6, 0, 0, 0, 0, 0, 0, 0, 0]);
    manager.delete_user(&client(2));
    assert_eq!(manager.timestamp_of(&client(2)), None);
}

#[test]
fn replay_from_another_address_binds_only_the_replayer() {
    let mut manager = HandshakeManager::with_secret(secret()).unwrap();
    let own = sign_timestamp(&secret(), 42);
    let payload = validate_payload(42, &own);
    let mut reader = BitReader::new(&payload);
    manager.recv_validate_request(&client(2), &mut reader);

    let stolen = validate_payload(1_700_000_000, &DIGEST_1700000000);
    let mut reader = BitReader::new(&stolen);
    assert_eq!(manager.recv_validate_request(&client(99), &mut reader), HandshakeResult::Success);
    assert_eq!(manager.timestamp_of(&client(99)), Some(1_700_000_000));
    assert_eq!(manager.timestamp_of(&client(2)), Some(42));
}

#[test]
fn disconnect_with_the_bound_timestamp_is_honoured() {
    let mut manager = HandshakeManager::with_secret(secret()).unwrap();
    let payload = validate_payload(1_700_000_000, &DIGEST_1700000000);
    let mut reader = BitReader::new(&payload);
    manager.recv_validate_request(&client(2), &mut reader);

    let connection = Connection::new(client(2), ConnectionConfig::default_config(), 0);
    let mut reader = BitReader::new(&payload);
    assert!(manager.verify_disconnect_request(&connection, &mut reader));
}

#[test]
fn spoofed_disconnect_is_ignored() {
    let mut manager = HandshakeManager::with_secret(secret()).unwrap();
    let payload = validate_payload(1_700_000_000, &DIGEST_1700000000);
    let mut reader = BitReader::new(&payload);
    manager.recv_validate_request(&client(2), &mut reader);

    let spoofer = Connection::new(client(99), ConnectionConfig::default_config(), 0);
    let mut reader = BitReader::new(&payload);
    assert!(!manager.verify_disconnect_request(&spoofer, &mut reader));
    assert_eq!(manager.timestamp_of(&client(2)), Some(1_700_000_000));
}

#[test]
fn disconnect_with_another_valid_timestamp_is_ignored() {
    let mut manager = HandshakeManager::with_secret(secret()).unwrap();
    let payload = validate_payload(1_700_000_000, &DIGEST_1700000000);
    let mut reader = BitReader::new(&payload);
    manager.recv_validate_request(&client(2), &mut reader);

    let other = validate_payload(0, &DIGEST_0);
    let connection = Connection::new(client(2), ConnectionConfig::default_config(), 0);
    let mut reader = BitReader::new(&other);
    assert!(!manager.verify_disconnect_request(&connection, &mut reader));
    let mut tampered = DIGEST_1700000000.to_vec();
    tampered[0] ^= 1;
    let forged = validate_payload(1_700_000_000, &tampered);
    let mut reader = BitReader::new(&forged);
    assert!(!manager.verify_disconnect_request(&connection, &mut reader));
}

#[test]
fn new_validate_replaces_the_binding() {
    let mut manager = HandshakeManager::with_secret(secret()).unwrap();
    let first = validate_payload(0, &DIGEST_0);
    let mut reader = BitReader::new(&first);
    manager.recv_validate_request(&client(2), &mut reader);
    let second = validate_payload(u64::MAX, &DIGEST_MAX);
    let mut reader = BitReader::new(&second);
    manager.recv_validate_request(&client(2), &mut reader);
    assert_eq!(manager.timestamp_of(&client(2)), Some(u64::MAX));
}

#[test]
fn handshake_headers_are_read_back() {
    let manager = HandshakeManager::with_secret(secret()).unwrap();
    let bytes = manager.write_reject_response().to_bytes();
    let mut reader = BitReader::new(&bytes);
    assert_eq!(
        StandardHeader::de(&mut reader),
        Ok(StandardHeader::new(PacketType::ServerRejectResponse, 0, 0, 0))
    );
}

#[test]
fn auth_payload_follows_timestamp_and_digest() {
    let mut manager = HandshakeManager::with_secret(secret()).unwrap();
    let mut writer = BitWriter::new();
    writer.write_u64(1_700_000_000);
    writer.write_bytes(&DIGEST_1700000000);
    let auth = AuthPayload {
        bytes: Some(b"user:pass".to_vec()),
        headers: Some(vec![
            (b"authorization".to_vec(), b"Bearer token".to_vec()),
            (b"x-empty".to_vec(), Vec::new()),
        ]),
    };
    auth.ser(&mut writer);
    let payload = writer.to_bytes();
    let mut reader = BitReader::new(&payload);
    assert_eq!(manager.recv_validate_request(&client(2), &mut reader), HandshakeResult::Success);
    let read = AuthPayload::de(&mut reader).unwrap();
    assert_eq!(read.bytes, Some(b"user:pass".to_vec()));
    assert_eq!(read.headers, auth.headers);
}

#[test]
fn auth_payload_may_be_empty() {
    let mut writer = BitWriter::new();
    AuthPayload { bytes: None, headers: None }.ser(&mut writer);
    AuthPayload { bytes: None, headers: Some(Vec::new()) }.ser(&mut writer);
    let payload = writer.to_bytes();
    assert_eq!(payload, vec![0b0000_1000, 0]);
    let mut reader = BitReader::new(&payload);
    let first = AuthPayload::de(&mut reader).unwrap();
    assert_eq!((first.bytes, first.headers), (None, None));
    let second = AuthPayload::de(&mut reader).unwrap();
    assert_eq!((second.bytes, second.headers), (None, Some(Vec::new())));
}

#[test]
fn truncated_auth_payload_is_a_decode_error() {
    let mut writer = BitWriter::new();
    AuthPayload {
        bytes: Some(vec![1, 2, 3]),
        headers: Some(vec![(b"a".to_vec(), b"b".to_vec())]),
    }
    .ser(&mut writer);
    let payload = writer.to_bytes();
    for cut in 0..payload.len() - 1 {
        let mut reader = BitReader::new(&payload[..cut]);
        assert_eq!(AuthPayload::de(&mut reader).err(), Some(DecodeError::Truncated));
    }
    let empty: Vec<u8> = Vec::new();
    let mut reader = BitReader::new(&empty);
    assert_eq!(AuthPayload::de(&mut reader).err(), Some(DecodeError::Truncated));
}
