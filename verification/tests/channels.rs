use naia_core::bit_reader::{BitReader, DecodeError};
use naia_core::bit_writer::BitWriter;
use naia_core::channel_error::ChannelProtocolError;
use naia_core::entity_waitlist::EntityWaitlist;
use naia_core::message::{MessageContainer, MessageKinds};
use naia_core::message_channel_sender::{tag_message, untag_message, MessageChannelSender};
use naia_core::reliable_receiver::{ChannelReadError, ReliableReceiver};
use naia_core::reliable_sender::ReliableSender;
use naia_core::request::{RequestSender, RequestTag};
use naia_core::sequenced::{SequencedReceiver, SequencedSender};
use naia_core::unordered_unreliable_receiver::UnorderedUnreliableReceiver;
use naia_core::unordered_unreliable_sender::UnorderedUnreliableSender;

fn with_entities() -> MessageKinds {
    let mut kinds = MessageKinds::new();
    assert_eq!(kinds.add_kind(0), 0);
    assert_eq!(kinds.add_kind(1), 1);
    assert_eq!(kinds.add_kind(2), 2);
    kinds
}

fn plain(payload: &[u8]) -> MessageContainer {
    MessageContainer::new(0, payload.to_vec(), Vec::new())
}

fn numbered(n: u8) -> MessageContainer {
    plain(&[n])
}

fn payloads(messages: &[MessageContainer]) -> Vec<Vec<u8>> {
    messages.iter().map(|m| m.payload().clone()).collect()
}

fn kinds() -> MessageKinds {
    MessageKinds::plain(4)
}

#[test]
fn message_is_kind_length_and_payload() {
    let message = MessageContainer::new(3, vec![9, 8, 7], Vec::new());
    let mut writer = BitWriter::new();
    message.write(&mut writer);
    assert_eq!(message.bit_length(), Some(40));
    assert_eq!(writer.to_bytes(), vec![3, 3, 9, 8, 7]);
}

#[test]
fn message_of_unknown_kind_is_malformed() {
    let bytes = vec![4u8, 1, 0];
    let mut reader = BitReader::new(&bytes);
    assert_eq!(MessageContainer::read(&kinds(), &mut reader), Err(DecodeError::Malformed));
    assert_eq!(reader.read_u8(), Ok(4));
    let bytes = vec![3u8, 1, 0];
    let mut reader = BitReader::new(&bytes);
    assert_eq!(
        MessageContainer::read(&kinds(), &mut reader),
        Ok(MessageContainer::new(3, vec![0], Vec::new()))
    );
}

#[test]
fn unreliable_channel_delivers_what_arrives_as_it_arrives() {
    let mut sender = UnorderedUnreliableSender::new();
    assert!(!sender.has_messages());
    for payload in [&b"a"[..], b"b", b"a", b"a", b""] {
        sender.send_message(plain(payload));
    }
    assert!(sender.has_messages());
    let mut writer = BitWriter::new();
    assert_eq!(sender.write_messages(&mut writer, 10_000), 5);
    assert!(!sender.has_messages());
    let bytes = writer.to_bytes();

    let mut receiver = UnorderedUnreliableReceiver::new();
    let mut waitlist = EntityWaitlist::new();
    let mut reader = BitReader::new(&bytes);
    assert_eq!(receiver.read_messages(&kinds(), &mut waitlist, &mut reader), Ok(()));
    let mut reader = BitReader::new(&bytes);
    assert_eq!(receiver.read_messages(&kinds(), &mut waitlist, &mut reader), Ok(()));
    let delivered = receiver.receive_messages(&mut waitlist);
    assert_eq!(
        payloads(&delivered),
        vec![
            b"a".to_vec(), b"b".to_vec(), b"a".to_vec(), b"a".to_vec(), b"".to_vec(),
            b"a".to_vec(), b"b".to_vec(), b"a".to_vec(), b"a".to_vec(), b"".to_vec(),
        ]
    );
    assert_eq!(receiver.receive_messages(&mut waitlist).len(), 0);
}

#[test]
fn run_takes_as_many_messages_as_fit_the_budget() {
    let mut sender = UnorderedUnreliableSender::new();
    for n in 0..4 {
        sender.send_message(plain(&[n; 10]));
    }
    // each message: 1 bit + 8 (kind) + 8 (length) + 80 (payload) = 97 bits
    let mut writer = BitWriter::new();
    assert_eq!(sender.write_messages(&mut writer, 97), 0);
    assert_eq!(writer.to_bytes(), vec![0]);
    let mut writer = BitWriter::new();
    assert_eq!(sender.write_messages(&mut writer, 98), 1);
    let mut writer = BitWriter::new();
    assert_eq!(sender.write_messages(&mut writer, 2 * 97), 1);
    let mut writer = BitWriter::new();
    assert_eq!(sender.write_messages(&mut writer, 0), 0);
    assert_eq!(writer.to_bytes(), Vec::<u8>::new());
    let mut writer = BitWriter::new();
    assert_eq!(sender.write_messages(&mut writer, 2 * 97 + 1), 2);
    assert!(!sender.has_messages());
}

#[test]
fn truncated_run_keeps_the_messages_before_the_failure() {
    let mut sender = UnorderedUnreliableSender::new();
    sender.send_message(plain(b"one"));
    sender.send_message(plain(b"two"));
    let mut writer = BitWriter::new();
    sender.write_messages(&mut writer, 1_000);
    let bytes = writer.to_bytes();
    let cut = &bytes[..bytes.len() - 3];

    let mut receiver = UnorderedUnreliableReceiver::new();
    let mut waitlist = EntityWaitlist::new();
    let mut reader = BitReader::new(cut);
    assert_eq!(
        receiver.read_messages(&kinds(), &mut waitlist, &mut reader),
        Err(DecodeError::Truncated)
    );
    assert_eq!(payloads(&receiver.receive_messages(&mut waitlist)), vec![b"one".to_vec()]);

    let empty: Vec<u8> = Vec::new();
    let mut reader = BitReader::new(&empty);
    assert_eq!(
        receiver.read_messages(&kinds(), &mut waitlist, &mut reader),
        Err(DecodeError::Truncated)
    );
}

#[test]
fn message_waits_until_its_entity_is_in_scope() {
    let registry = with_entities();
    let mut receiver = UnorderedUnreliableReceiver::new();
    let mut waitlist = EntityWaitlist::new();
    waitlist.add_entity(5);

    let mut writer = BitWriter::new();
    for (kind, payload) in
        [(1u64, vec![7u8, 0, 1]), (0, vec![2]), (1, vec![5, 0, 3]), (1, vec![7, 0, 4])]
    {
        writer.write_bit(true);
        MessageContainer::new(kind, payload, Vec::new()).write(&mut writer);
    }
    writer.write_bit(false);
    let bytes = writer.to_bytes();
    let mut reader = BitReader::new(&bytes);
    assert_eq!(receiver.read_messages(&registry, &mut waitlist, &mut reader), Ok(()));

    let first = receiver.receive_messages(&mut waitlist);
    assert_eq!(payloads(&first), vec![vec![2], vec![5, 0, 3]]);
    assert_eq!(first[1].entities(), &vec![5u16]);

    assert_eq!(receiver.receive_messages(&mut waitlist).len(), 0);
    waitlist.add_entity(7);
    assert!(waitlist.contains(7));
    let late = receiver.receive_messages(&mut waitlist);
    assert_eq!(payloads(&late), vec![vec![7, 0, 1], vec![7, 0, 4]]);
    waitlist.remove_entity(7);
    assert!(!waitlist.contains(7));
}

#[test]
fn message_that_is_ready_on_arrival_does_not_wait() {
    let mut receiver = UnorderedUnreliableReceiver::new();
    let mut waitlist = EntityWaitlist::new();
    receiver.recv_message(&mut waitlist, MessageContainer::new(0, vec![1], vec![3]));
    receiver.recv_message(&mut waitlist, MessageContainer::new(0, vec![2], Vec::new()));
    assert_eq!(payloads(&receiver.receive_messages(&mut waitlist)), vec![vec![2]]);
    waitlist.add_entity(3);
    assert_eq!(payloads(&receiver.receive_messages(&mut waitlist)), vec![vec![1]]);
}

fn deliver(datagram: &[u8], receiver: &mut ReliableReceiver) -> Result<(), ChannelReadError> {
    let mut reader = BitReader::new(datagram);
    receiver.read_messages(&kinds(), &mut reader)
}

#[test]
fn lost_reliable_messages_are_delivered_after_retransmission() {
    let mut sender = ReliableSender::new();
    let mut receiver = ReliableReceiver::unordered();
    for n in 1..=10u8 {
        assert_eq!(sender.send_message(numbered(n)), Ok(n as u16 - 1));
    }
    assert!(sender.has_messages());

    // every message travels in a datagram of its own; the third and the
    // seventh are lost
    let mut delivered = Vec::new();
    for n in 1..=10u8 {
        let mut writer = BitWriter::new();
        let written = sender.write_messages(&mut writer, 1 + 17 + 24, 0);
        assert_eq!(written, vec![n as u16 - 1]);
        if n != 3 && n != 7 {
            assert_eq!(deliver(&writer.to_bytes(), &mut receiver), Ok(()));
            sender.notify_message_delivered(&(n as u16 - 1));
        }
        delivered.extend(payloads(&receiver.receive_messages()));
    }
    assert_eq!(
        delivered,
        vec![vec![1], vec![2], vec![4], vec![5], vec![6], vec![8], vec![9], vec![10]]
    );
    assert!(!sender.has_messages());

    sender.collect_messages(99, 100);
    assert!(!sender.has_messages());
    sender.collect_messages(100, 100);
    assert!(sender.has_messages());
    let mut writer = BitWriter::new();
    assert_eq!(sender.write_messages(&mut writer, 1_000, 100), vec![2, 6]);
    let datagram = writer.to_bytes();
    assert_eq!(deliver(&datagram, &mut receiver), Ok(()));
    delivered.extend(payloads(&receiver.receive_messages()));
    // the retransmission arrives twice
    assert_eq!(deliver(&datagram, &mut receiver), Ok(()));
    delivered.extend(payloads(&receiver.receive_messages()));
    sender.notify_message_delivered(&2);
    sender.notify_message_delivered(&6);
    sender.collect_messages(10_000, 100);
    assert!(!sender.has_messages());

    assert_eq!(delivered.len(), 10);
    let mut sorted = delivered.clone();
    sorted.sort();
    assert_eq!(sorted, (1..=10u8).map(|n| vec![n]).collect::<Vec<_>>());
    assert_eq!(&delivered[8..], &[vec![3], vec![7]]);
    assert_eq!(receiver.next_index(), 10);
}

#[test]
fn unacknowledged_message_is_written_again_and_again() {
    let mut sender = ReliableSender::new();
    sender.send_message(numbered(1)).unwrap();
    for round in 0..5u64 {
        sender.collect_messages(round * 100, 100);
        let mut writer = BitWriter::new();
        assert_eq!(sender.write_messages(&mut writer, 1_000, round * 100), vec![0]);
        assert_eq!(writer.to_bytes(), vec![0x01, 0x00, 0x00, 0x02, 0x02, 0x00]);
        let mut writer = BitWriter::new();
        assert_eq!(
            sender.write_messages(&mut writer, 1_000, round * 100 + 50),
            Vec::<u16>::new()
        );
    }
    sender.notify_message_delivered(&7);
    sender.collect_messages(1_000, 100);
    assert!(sender.has_messages());
    sender.notify_message_delivered(&0);
    assert!(!sender.has_messages());
}

#[test]
fn due_message_that_does_not_fit_waits_for_the_next_datagram() {
    let mut sender = ReliableSender::new();
    sender.send_message(plain(&[1; 4])).unwrap();
    sender.send_message(plain(&[2; 40])).unwrap();
    sender.send_message(plain(&[3; 4])).unwrap();
    let mut writer = BitWriter::new();
    // 1 + 16 + 8 + 8 + 32 = 65 bits for a message of four bytes
    assert_eq!(sender.write_messages(&mut writer, 66 + 65, 0), vec![0]);
    let mut writer = BitWriter::new();
    assert_eq!(sender.write_messages(&mut writer, 10_000, 0), vec![1, 2]);
    let mut writer = BitWriter::new();
    assert_eq!(sender.write_messages(&mut writer, 0, 0), Vec::<u16>::new());
    assert_eq!(writer.to_bytes(), Vec::<u8>::new());
}

#[test]
fn too_many_outstanding_messages_are_a_protocol_error() {
    let mut sender = ReliableSender::new();
    for n in 0..256u16 {
        assert_eq!(sender.send_message(numbered(0)), Ok(n));
    }
    assert_eq!(
        sender.send_message(numbered(0)),
        Err(ChannelProtocolError::TooManyOutstanding)
    );
    sender.notify_message_delivered(&100);
    assert_eq!(sender.send_message(numbered(0)), Ok(256));
}

#[test]
fn message_index_wraps_at_16_bits() {
    let mut sender = ReliableSender::new();
    let mut receiver = ReliableReceiver::ordered();
    for n in 0..65_540u32 {
        let index = sender.send_message(numbered(n as u8)).unwrap();
        assert_eq!(index as u32, n % 65_536);
        assert_eq!(receiver.recv_message(index, numbered(n as u8)), Ok(()));
        sender.notify_message_delivered(&index);
        assert_eq!(payloads(&receiver.receive_messages()), vec![vec![n as u8]]);
    }
    assert_eq!(receiver.next_index(), 4);
}

#[test]
fn ordered_channel_delivers_in_the_order_of_the_indices() {
    let mut receiver = ReliableReceiver::ordered();
    let mut delivered = Vec::new();
    for index in [2u16, 0, 0, 3, 5, 1, 2, 4, 7, 6, 1] {
        assert_eq!(receiver.recv_message(index, numbered(index as u8)), Ok(()));
        delivered.extend(payloads(&receiver.receive_messages()));
    }
    assert_eq!(delivered, (0..8u8).map(|n| vec![n]).collect::<Vec<_>>());
    assert_eq!(receiver.next_index(), 8);
}

#[test]
fn unordered_channel_delivers_in_the_order_of_arrival() {
    let mut receiver = ReliableReceiver::unordered();
    let mut delivered = Vec::new();
    for index in [2u16, 0, 0, 3, 5, 1, 2, 4, 7, 6, 1] {
        assert_eq!(receiver.recv_message(index, numbered(index as u8)), Ok(()));
        delivered.extend(payloads(&receiver.receive_messages()));
    }
    assert_eq!(
        delivered,
        vec![vec![2], vec![0], vec![3], vec![5], vec![1], vec![4], vec![7], vec![6]]
    );
    assert_eq!(receiver.next_index(), 8);
}

#[test]
fn message_beyond_the_window_is_a_protocol_error() {
    let mut receiver = ReliableReceiver::ordered();
    assert_eq!(receiver.recv_message(255, numbered(1)), Ok(()));
    assert_eq!(receiver.recv_message(256, numbered(2)), Err(ChannelProtocolError::OutOfWindow));
    assert_eq!(receiver.recv_message(32_767, numbered(2)), Err(ChannelProtocolError::OutOfWindow));
    assert_eq!(receiver.recv_message(65_535, numbered(3)), Ok(()));
    assert_eq!(receiver.receive_messages().len(), 0);
    assert_eq!(receiver.recv_message(0, numbered(0)), Ok(()));
    assert_eq!(receiver.recv_message(256, numbered(2)), Ok(()));
    assert_eq!(payloads(&receiver.receive_messages()), vec![vec![0]]);
}

#[test]
fn protocol_error_in_a_run_is_reported() {
    let mut writer = BitWriter::new();
    for index in [0u16, 300, 1] {
        writer.write_bit(true);
        writer.write_u16(index);
        numbered(index as u8).write(&mut writer);
    }
    writer.write_bit(false);
    let bytes = writer.to_bytes();
    let mut receiver = ReliableReceiver::unordered();
    assert_eq!(
        deliver(&bytes, &mut receiver),
        Err(ChannelReadError::Protocol(ChannelProtocolError::OutOfWindow))
    );
    assert_eq!(payloads(&receiver.receive_messages()), vec![vec![0]]);
    assert_eq!(
        deliver(&bytes[..4], &mut receiver),
        Err(ChannelReadError::Decode(DecodeError::Truncated))
    );
}

#[test]
fn sequenced_channel_delivers_in_order_and_gives_up_what_is_missing() {
    let mut receiver = SequencedReceiver::new();
    let mut delivered = Vec::new();
    for index in [1u16, 0, 3, 3, 2, 5] {
        receiver.recv_message(index, numbered(index as u8));
        delivered.extend(payloads(&receiver.receive_messages()));
    }
    assert_eq!(delivered, vec![vec![0], vec![1], vec![2], vec![3]]);

    // index 4 never arrives; index 68 lies beyond the window that begins at 4
    receiver.recv_message(68, numbered(68));
    assert_eq!(payloads(&receiver.receive_messages()), vec![vec![5]]);
    receiver.recv_message(4, numbered(4));
    assert_eq!(receiver.receive_messages().len(), 0);
    for index in 6..68u16 {
        receiver.recv_message(index, numbered(index as u8));
    }
    let rest = payloads(&receiver.receive_messages());
    assert_eq!(rest, (6..=68u8).map(|n| vec![n]).collect::<Vec<_>>());
}

#[test]
fn sequenced_channel_jumps_far_ahead() {
    let mut receiver = SequencedReceiver::new();
    receiver.recv_message(10, numbered(10));
    receiver.recv_message(20, numbered(20));
    receiver.recv_message(1_000, numbered(1));
    assert_eq!(payloads(&receiver.receive_messages()), vec![vec![10], vec![20]]);
    receiver.recv_message(999, numbered(2));
    assert_eq!(receiver.receive_messages().len(), 0);
    for index in 937..999u16 {
        receiver.recv_message(index, numbered(3));
    }
    assert_eq!(receiver.receive_messages().len(), 64);
}

#[test]
fn sequenced_sender_numbers_its_messages() {
    let mut sender = SequencedSender::new();
    assert!(!sender.has_messages());
    sender.send_message(numbered(7));
    sender.send_message(numbered(8));
    assert!(sender.has_messages());
    let mut writer = BitWriter::new();
    assert_eq!(sender.write_messages(&mut writer, 1 + 17 + 24 + 1), 1);
    assert_eq!(writer.to_bytes(), vec![0x01, 0x00, 0x00, 0x02, 0x0e, 0x00]);
    let mut writer = BitWriter::new();
    assert_eq!(sender.write_messages(&mut writer, 1_000), 1);
    let bytes = writer.to_bytes();
    let mut receiver = SequencedReceiver::new();
    let mut reader = BitReader::new(&bytes);
    assert_eq!(receiver.read_messages(&kinds(), &mut reader), Ok(()));
    assert_eq!(receiver.receive_messages().len(), 0);
    receiver.recv_message(0, numbered(7));
    assert_eq!(payloads(&receiver.receive_messages()), vec![vec![7], vec![8]]);
    assert!(!sender.has_messages());
}

#[test]
fn response_frees_the_local_id_of_its_request() {
    let mut requests = RequestSender::new();
    let a = requests.send_request(1_000).unwrap();
    let b = requests.send_request(2_000).unwrap();
    assert_eq!((a, b), (0, 1));
    assert_eq!(requests.outstanding(), 2);
    assert_eq!(requests.process_incoming_response(&b), Some(2_000));
    assert_eq!(requests.process_incoming_response(&b), None);
    assert_eq!(requests.process_incoming_response(&9), None);
    assert_eq!(requests.outstanding(), 1);
    assert_eq!(requests.process_incoming_response(&a), Some(1_000));
    assert_eq!(requests.outstanding(), 0);
}

#[test]
fn lost_connection_fails_every_waiting_request() {
    let mut requests = RequestSender::new();
    for global in [10u64, 20, 30] {
        requests.send_request(global).unwrap();
    }
    requests.process_incoming_response(&1);
    assert_eq!(requests.connection_lost(), vec![10, 30]);
    assert_eq!(requests.outstanding(), 0);
    assert_eq!(requests.process_incoming_response(&0), None);
    assert_eq!(requests.connection_lost(), Vec::new());
    assert_eq!(requests.send_request(40), Ok(3));
}

#[test]
fn at_most_32768_requests_wait_at_once() {
    let mut requests = RequestSender::new();
    for n in 0..32_768u32 {
        assert_eq!(requests.send_request(n as u64), Ok(n as u16));
    }
    assert_eq!(requests.send_request(0), Err(ChannelProtocolError::TooManyOutstanding));
    assert_eq!(requests.process_incoming_response(&5), Some(5));
    assert_eq!(requests.send_request(77), Ok(32_768));
}

#[test]
fn local_ids_wrap_and_skip_those_in_use() {
    let mut requests = RequestSender::new();
    assert_eq!(requests.send_request(1), Ok(0));
    assert_eq!(requests.send_request(2), Ok(1));
    for n in 2..65_536u32 {
        let id = requests.send_request(n as u64).unwrap();
        assert_eq!(id as u32, n);
        assert_eq!(requests.process_incoming_response(&id), Some(n as u64));
    }
    assert_eq!(requests.send_request(3), Ok(2));
}

#[test]
fn request_tag_is_a_bit_and_the_local_id() {
    let mut writer = BitWriter::new();
    RequestTag { is_request: true, id: 0x0102 }.ser(&mut writer);
    RequestTag { is_request: false, id: 65535 }.ser(&mut writer);
    let bytes = writer.to_bytes();
    assert_eq!(bytes, vec![0x05, 0x02, 0xfc, 0xff, 0x03]);
    let mut reader = BitReader::new(&bytes);
    assert_eq!(RequestTag::de(&mut reader), Ok(RequestTag { is_request: true, id: 0x0102 }));
    assert_eq!(RequestTag::de(&mut reader), Ok(RequestTag { is_request: false, id: 65535 }));
    assert_eq!(RequestTag::de(&mut reader), Err(DecodeError::Truncated));
}

#[test]
fn registry_finds_the_entities_at_the_beginning_of_the_payload() {
    let registry = with_entities();
    assert_eq!(registry.entity_relations(0, &vec![1, 2, 3]), Some(Vec::new()));
    assert_eq!(registry.entity_relations(1, &vec![0x34, 0x12, 9]), Some(vec![0x1234]));
    assert_eq!(registry.entity_relations(2, &vec![1, 0, 0xff, 0xff]), Some(vec![1, 65535]));
    assert_eq!(registry.entity_relations(2, &vec![1, 0, 0xff]), None);
    assert_eq!(registry.entity_relations(3, &vec![]), None);
}

#[test]
fn message_too_short_for_its_entities_is_malformed() {
    let registry = with_entities();
    let bytes = vec![1u8, 1, 7];
    let mut reader = BitReader::new(&bytes);
    assert_eq!(MessageContainer::read(&registry, &mut reader), Err(DecodeError::Malformed));
}

#[test]
fn request_travels_with_its_local_id() {
    let mut sender = MessageChannelSender::new();
    let id = sender.send_outgoing_request(9_000, plain(b"ask")).unwrap();
    assert_eq!(id, 0);
    assert_eq!(sender.send_outgoing_request(9_001, plain(b"more")), Ok(1));
    sender.send_outgoing_response(0x0102, plain(b"answer")).unwrap();
    assert!(sender.has_messages());
    let mut writer = BitWriter::new();
    assert_eq!(sender.write_messages(&mut writer, 10_000, 0), vec![0, 1, 2]);
    let bytes = writer.to_bytes();

    let mut receiver = ReliableReceiver::ordered();
    assert_eq!(deliver(&bytes, &mut receiver), Ok(()));
    let messages = receiver.receive_messages();
    assert_eq!(payloads(&messages)[0], b"ask\x01\x00\x00".to_vec());
    let tags: Vec<_> = messages.iter().map(|m| untag_message(m).unwrap()).collect();
    assert_eq!(tags[0].0, RequestTag { is_request: true, id: 0 });
    assert_eq!(tags[0].1, plain(b"ask"));
    assert_eq!(tags[1].0, RequestTag { is_request: true, id: 1 });
    assert_eq!(tags[2].0, RequestTag { is_request: false, id: 0x0102 });
    assert_eq!(tags[2].1, plain(b"answer"));

    assert_eq!(sender.process_incoming_response(&1), Some(9_001));
    assert_eq!(sender.process_incoming_response(&1), None);
    assert_eq!(sender.connection_lost(), vec![9_000]);
    assert_eq!(sender.process_incoming_response(&0), None);

    assert_eq!(untag_message(&plain(b"ab")), None);
    assert_eq!(untag_message(&plain(b"\x02\x00\x00")), None);
    let tagged = tag_message(&plain(b""), RequestTag { is_request: false, id: 65535 });
    assert_eq!(tagged.payload(), &vec![0, 255, 255]);

    sender.collect_messages(1_000, 100);
    assert!(sender.has_messages());
    for index in 0..3u16 {
        sender.notify_message_delivered(&index);
    }
    assert!(!sender.has_messages());
    for n in 0..256u16 {
        assert_eq!(sender.send_message(numbered(0)), Ok(n + 3));
    }
    assert_eq!(
        sender.send_outgoing_request(1, plain(b"late")),
        Err(ChannelProtocolError::TooManyOutstanding)
    );
    assert_eq!(
        sender.send_outgoing_response(1, plain(b"late")),
        Err(ChannelProtocolError::TooManyOutstanding)
    );
}
