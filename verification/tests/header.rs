use naia_core::bit_reader::{BitReader, DecodeError};
use naia_core::bit_writer::BitWriter;
use naia_core::packet_type::{PacketType, Route};
use naia_core::standard_header::StandardHeader;

fn all_kinds() -> Vec<PacketType> {
    vec![
        PacketType::ClientChallengeRequest,
        PacketType::ServerChallengeResponse,
        PacketType::ClientValidateRequest,
        PacketType::ServerValidateResponse,
        PacketType::ClientConnectRequest,
        PacketType::ServerConnectResponse,
        PacketType::ServerRejectResponse,
        PacketType::Data,
        PacketType::Heartbeat,
        PacketType::Ping,
        PacketType::Pong,
        PacketType::Disconnect,
    ]
}

#[test]
fn every_kind_has_its_own_tag() {
    let kinds = all_kinds();
    for (i, kind) in kinds.iter().enumerate() {
        assert_eq!(kind.to_u8() as usize, i);
        assert_eq!(PacketType::from_u8(i as u8), Some(*kind));
    }
    assert_eq!(PacketType::from_u8(12), None);
    assert_eq!(PacketType::from_u8(255), None);
}

#[test]
fn header_takes_nine_bytes_in_wire_order() {
    let header = StandardHeader::new(PacketType::Data, 0x0102, 0x0304, 0x0506_0708);
    let mut writer = BitWriter::new();
    header.ser(&mut writer);
    assert_eq!(writer.to_bytes(), vec![7, 0x02, 0x01, 0x04, 0x03, 0x08, 0x07, 0x06, 0x05]);
}

#[test]
fn header_round_trips_before_a_payload() {
    for kind in all_kinds() {
        let header = StandardHeader::new(kind, 65535, 0, 0x8000_0001);
        let mut writer = BitWriter::new();
        header.ser(&mut writer);
        writer.write_u8(0xab);
        let bytes = writer.to_bytes();
        let mut reader = BitReader::new(&bytes);
        assert_eq!(StandardHeader::de(&mut reader), Ok(header));
        assert_eq!(reader.read_u8(), Ok(0xab));
    }
}

#[test]
fn unknown_tag_is_malformed() {
    let bytes = vec![12u8, 0, 0, 0, 0, 0, 0, 0, 0];
    let mut reader = BitReader::new(&bytes);
    assert_eq!(StandardHeader::de(&mut reader), Err(DecodeError::Malformed));
    assert_eq!(reader.read_u8(), Ok(12));
}

#[test]
fn short_header_is_truncated() {
    let bytes = vec![7u8, 0, 0, 0, 0, 0, 0, 0];
    let mut reader = BitReader::new(&bytes);
    assert_eq!(StandardHeader::de(&mut reader), Err(DecodeError::Truncated));
    let empty: Vec<u8> = Vec::new();
    let mut reader = BitReader::new(&empty);
    assert_eq!(StandardHeader::de(&mut reader), Err(DecodeError::Truncated));
}

#[test]
fn handshake_kinds_go_to_the_handshake_manager() {
    assert_eq!(PacketType::ClientChallengeRequest.route(false), Route::Handshake);
    assert_eq!(PacketType::ClientValidateRequest.route(true), Route::Handshake);
    assert_eq!(PacketType::ServerRejectResponse.route(true), Route::Handshake);
}

#[test]
fn other_kinds_need_a_validated_connection() {
    for kind in [
        PacketType::Data,
        PacketType::Heartbeat,
        PacketType::Ping,
        PacketType::Pong,
        PacketType::Disconnect,
    ] {
        assert_eq!(kind.route(true), Route::Connection);
        assert_eq!(kind.route(false), Route::Dropped);
        assert!(!kind.is_handshake());
    }
}
