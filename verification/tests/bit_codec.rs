use naia_core::bit_reader::{BitReader, DecodeError};
use naia_core::bit_writer::BitWriter;

#[test]
fn bits_are_written_least_significant_first() {
    let mut writer = BitWriter::new();
    writer.write_bit(true);
    writer.write_bit(false);
    writer.write_bit(true);
    assert_eq!(writer.to_bytes(), vec![0b0000_0101u8]);
}

#[test]
fn numbers_at_a_byte_boundary_are_little_endian() {
    let mut writer = BitWriter::new();
    writer.write_u16(0x1234);
    writer.write_u32(0xdead_beef);
    writer.write_u64(1_700_000_000);
    assert_eq!(
        writer.to_bytes(),
        vec![0x34, 0x12, 0xef, 0xbe, 0xad, 0xde, 0x00, 0xf1, 0x53, 0x65, 0, 0, 0, 0]
    );
}

#[test]
fn scalars_round_trip() {
    let mut writer = BitWriter::new();
    writer.write_bool(true);
    writer.write_uint(5, 3);
    writer.write_u8(200);
    writer.write_u16(65535);
    writer.write_u32(123_456_789);
    writer.write_u64(u64::MAX);
    writer.write_int(-1, 5);
    writer.write_int(i64::MIN, 64);
    writer.write_int(15, 5);
    writer.write_varint(300);
    writer.write_bytes(&[1, 2, 3]);
    let bytes = writer.to_bytes();
    let mut reader = BitReader::new(&bytes);
    assert_eq!(reader.read_bool(), Ok(true));
    assert_eq!(reader.read_uint(3), Ok(5));
    assert_eq!(reader.read_u8(), Ok(200));
    assert_eq!(reader.read_u16(), Ok(65535));
    assert_eq!(reader.read_u32(), Ok(123_456_789));
    assert_eq!(reader.read_u64(), Ok(u64::MAX));
    assert_eq!(reader.read_int(5), Ok(-1));
    assert_eq!(reader.read_int(64), Ok(i64::MIN));
    assert_eq!(reader.read_int(5), Ok(15));
    assert_eq!(reader.read_varint(), Ok(300));
    assert_eq!(reader.read_bytes(), Ok(vec![1, 2, 3]));
}

#[test]
fn varint_at_a_byte_boundary_is_one_byte_per_group() {
    let mut writer = BitWriter::new();
    writer.write_varint(32);
    writer.write_varint(300);
    assert_eq!(writer.to_bytes(), vec![0x20, 0xac, 0x02]);
}

#[test]
fn truncated_input_is_a_decode_failure() {
    let bytes = vec![0xffu8];
    let mut reader = BitReader::new(&bytes);
    assert_eq!(reader.read_u16(), Err(DecodeError::Truncated));
    assert_eq!(reader.read_u8(), Ok(0xff));
    assert_eq!(reader.read_bit(), Err(DecodeError::Truncated));
    assert!(reader.is_empty());
}

#[test]
fn byte_string_longer_than_the_input_is_truncated() {
    let bytes = vec![0x05u8, 1, 2];
    let mut reader = BitReader::new(&bytes);
    assert_eq!(reader.read_bytes(), Err(DecodeError::Truncated));
    assert_eq!(reader.read_u8(), Ok(5));
}

#[test]
fn varint_of_more_than_64_bits_is_malformed() {
    let bytes = vec![0xffu8, 0xff, 0xff, 0xff, 0xff, 0xff, 0xff, 0xff, 0xff, 0x02];
    let mut reader = BitReader::new(&bytes);
    assert_eq!(reader.read_varint(), Err(DecodeError::Malformed));
    let largest = vec![0xffu8, 0xff, 0xff, 0xff, 0xff, 0xff, 0xff, 0xff, 0xff, 0x01];
    let mut reader = BitReader::new(&largest);
    assert_eq!(reader.read_varint(), Ok(u64::MAX));
    let endless = vec![0x80u8; 11];
    let mut reader = BitReader::new(&endless);
    assert_eq!(reader.read_varint(), Err(DecodeError::Malformed));
}
