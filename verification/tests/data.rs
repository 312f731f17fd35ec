use naia_core::bit_reader::{BitReader, DecodeError};
use naia_core::bit_writer::BitWriter;
use naia_core::channel::{ChannelMode, ChannelReceiver, ChannelSender};
use naia_core::channel_error::ChannelProtocolError;
use naia_core::channel_set::{ChannelSet, DataError};
use naia_core::entity_waitlist::EntityWaitlist;
use naia_core::message::{MessageContainer, MessageKinds};
use naia_core::reliable_receiver::ChannelReadError;

fn message(n: u8) -> MessageContainer {
    MessageContainer::new(0, vec![n], Vec::new())
}

fn payloads(messages: &[MessageContainer]) -> Vec<u8> {
    messages.iter().map(|m| m.payload()[0]).collect()
}

fn four_channels() -> ChannelSet {
    let mut set = ChannelSet::new();
    assert_eq!(set.add_channel(ChannelMode::UnorderedUnreliable), 0);
    assert_eq!(set.add_channel(ChannelMode::SequencedUnreliable), 1);
    assert_eq!(set.add_channel(ChannelMode::UnorderedReliable), 2);
    assert_eq!(set.add_channel(ChannelMode::OrderedReliable), 3);
    assert_eq!(set.len(), 4);
    set
}

#[test]
fn datagram_holds_the_runs_of_the_channels_with_work() {
    let mut set = four_channels();
    assert!(!set.has_messages());
    assert_eq!(set.send_message(0, message(10)), Ok(()));
    assert_eq!(set.send_message(3, message(30)), Ok(()));
    assert_eq!(set.send_message(3, message(31)), Ok(()));
    assert!(set.has_messages());

    let mut writer = BitWriter::new();
    let written = set.write_data(&mut writer, 9_600, 0);
    assert_eq!(written, vec![(3, vec![0, 1])]);
    let bytes = writer.to_bytes();
    // channel 0: 8 bits for its number, 25 for the message, 1 for the end;
    // channel 3: 8 bits for its number, 41 for each message, 1 for the end
    assert_eq!(bytes.len(), (34 + 91 + 7) / 8);
    assert_eq!(bytes[0], 0);
    assert!(!set.has_messages());

    let kinds = MessageKinds::plain(1);
    let mut waitlist = EntityWaitlist::new();
    let mut peer = four_channels();
    let mut reader = BitReader::new(&bytes);
    assert_eq!(peer.read_data(&kinds, &mut waitlist, &mut reader), Ok(()));
    assert!(!reader.has_bits(8));
}

#[test]
fn channels_take_turns_to_begin_a_datagram() {
    let mut set = ChannelSet::new();
    set.add_channel(ChannelMode::UnorderedReliable);
    set.add_channel(ChannelMode::UnorderedReliable);
    set.add_channel(ChannelMode::UnorderedReliable);
    for channel in 0..3u64 {
        for n in 0..3u8 {
            set.send_message(channel, message(n)).unwrap();
        }
    }
    // room for the number of one channel and one message with the end of the run
    let budget = 8 + 1 + 16 + 8 + 8 + 8 + 1;
    let mut order = Vec::new();
    for _ in 0..9 {
        let mut writer = BitWriter::new();
        let written = set.write_data(&mut writer, budget, 0);
        assert_eq!(written.len(), 1);
        order.push(written[0].0);
    }
    assert_eq!(order, vec![0, 1, 2, 0, 1, 2, 0, 1, 2]);
    assert!(!set.has_messages());
}

#[test]
fn nothing_is_written_without_room() {
    let mut set = four_channels();
    set.send_message(2, message(1)).unwrap();
    let mut writer = BitWriter::new();
    assert_eq!(set.write_data(&mut writer, 8, 0), Vec::new());
    assert_eq!(writer.to_bytes(), Vec::<u8>::new());
    let mut writer = BitWriter::new();
    assert_eq!(set.write_data(&mut writer, 9, 0), vec![(2, Vec::new())]);
    assert_eq!(writer.to_bytes(), vec![2, 0]);
    assert!(set.has_messages());
}

#[test]
fn unknown_channel_is_an_error() {
    let mut set = four_channels();
    assert_eq!(set.send_message(4, message(1)), Err(DataError::UnknownChannel(4)));
    let kinds = MessageKinds::plain(1);
    let mut waitlist = EntityWaitlist::new();
    let bytes = vec![9u8, 0];
    let mut reader = BitReader::new(&bytes);
    assert_eq!(
        set.read_data(&kinds, &mut waitlist, &mut reader),
        Err(DataError::UnknownChannel(9))
    );
}

#[test]
fn failure_in_a_run_names_its_channel() {
    let mut set = four_channels();
    let kinds = MessageKinds::plain(1);
    let mut waitlist = EntityWaitlist::new();
    let bytes = vec![0u8, 0x01, 0x00];
    let mut reader = BitReader::new(&bytes);
    assert_eq!(
        set.read_data(&kinds, &mut waitlist, &mut reader),
        Err(DataError::Channel(0, ChannelReadError::Decode(DecodeError::Truncated)))
    );
    let mut bad_number = vec![0x80u8; 11];
    bad_number.push(0);
    let mut reader = BitReader::new(&bad_number);
    assert_eq!(
        set.read_data(&kinds, &mut waitlist, &mut reader),
        Err(DataError::Decode(DecodeError::Malformed))
    );
    let mut writer = BitWriter::new();
    writer.write_varint(3);
    writer.write_bit(true);
    writer.write_u16(300);
    message(1).write(&mut writer);
    writer.write_bit(false);
    let bytes = writer.to_bytes();
    let mut reader = BitReader::new(&bytes);
    assert_eq!(
        set.read_data(&kinds, &mut waitlist, &mut reader),
        Err(DataError::Channel(3, ChannelReadError::Protocol(ChannelProtocolError::OutOfWindow)))
    );
}

#[test]
fn full_reliable_channel_refuses_a_message() {
    let mut set = four_channels();
    for _ in 0..256 {
        assert_eq!(set.send_message(2, message(0)), Ok(()));
    }
    assert_eq!(
        set.send_message(2, message(0)),
        Err(DataError::Channel(
            2,
            ChannelReadError::Protocol(ChannelProtocolError::TooManyOutstanding)
        ))
    );
    for _ in 0..1_000 {
        assert_eq!(set.send_message(0, message(0)), Ok(()));
    }
}

#[test]
fn channel_ends_of_every_discipline_pass_messages_on() {
    let kinds = MessageKinds::plain(1);
    for mode in [
        ChannelMode::UnorderedUnreliable,
        ChannelMode::SequencedUnreliable,
        ChannelMode::UnorderedReliable,
        ChannelMode::OrderedReliable,
    ] {
        let mut sender = ChannelSender::new(mode);
        let mut receiver = ChannelReceiver::new(mode);
        let mut waitlist = EntityWaitlist::new();
        assert!(!sender.has_messages());
        for n in 0..5u8 {
            sender.send_message(message(n)).unwrap();
        }
        sender.collect_messages(0, 100);
        assert!(sender.has_messages());
        let mut writer = BitWriter::new();
        let written = sender.write_messages(&mut writer, 1_000, 0);
        let reliable = matches!(mode, ChannelMode::UnorderedReliable | ChannelMode::OrderedReliable);
        assert_eq!(written, if reliable { Some(vec![0, 1, 2, 3, 4]) } else { None });
        assert!(!sender.has_messages());
        let bytes = writer.to_bytes();
        let mut reader = BitReader::new(&bytes);
        assert_eq!(receiver.read_messages(&kinds, &mut waitlist, &mut reader), Ok(()));
        assert_eq!(payloads(&receiver.receive_messages(&mut waitlist)), vec![0, 1, 2, 3, 4]);

        sender.collect_messages(100, 100);
        assert_eq!(sender.has_messages(), reliable);
        for index in 0..5u16 {
            sender.notify_message_delivered(&index);
        }
        assert!(!sender.has_messages());
    }
}

#[test]
fn message_uses_up_its_tries() {
    let mut sender = ChannelSender::new(ChannelMode::OrderedReliable);
    sender.send_message(message(1)).unwrap();
    assert_eq!(sender.check_retries(3), Ok(()));
    for round in 0..3u64 {
        sender.collect_messages(round * 100, 100);
        assert_eq!(sender.check_retries(3), Ok(()));
        let mut writer = BitWriter::new();
        assert_eq!(sender.write_messages(&mut writer, 1_000, round * 100), Some(vec![0]));
    }
    sender.collect_messages(299, 100);
    assert_eq!(sender.check_retries(3), Ok(()));
    sender.collect_messages(300, 100);
    assert_eq!(sender.check_retries(3), Err(ChannelProtocolError::RetriesExhausted));
    assert_eq!(sender.check_retries(4), Ok(()));
    sender.notify_message_delivered(&0);
    assert_eq!(sender.check_retries(3), Ok(()));

    let mut unreliable = ChannelSender::new(ChannelMode::UnorderedUnreliable);
    unreliable.send_message(message(1)).unwrap();
    assert_eq!(unreliable.check_retries(0), Ok(()));
    let mut fresh = ChannelSender::new(ChannelMode::UnorderedReliable);
    fresh.send_message(message(1)).unwrap();
    assert_eq!(fresh.check_retries(0), Err(ChannelProtocolError::RetriesExhausted));
}

#[test]
fn set_passes_time_and_acknowledgements_on_to_its_channels() {
    let kinds = MessageKinds::plain(1);
    let mut waitlist = EntityWaitlist::new();
    let mut set = four_channels();
    let mut peer = four_channels();
    for channel in 0..4u64 {
        set.send_message(channel, message(channel as u8)).unwrap();
        set.send_message(channel, message(10 + channel as u8)).unwrap();
    }
    let mut writer = BitWriter::new();
    let written = set.write_data(&mut writer, 10_000, 0);
    assert_eq!(written, vec![(2, vec![0, 1]), (3, vec![0, 1])]);
    let bytes = writer.to_bytes();
    let mut reader = BitReader::new(&bytes);
    assert_eq!(peer.read_data(&kinds, &mut waitlist, &mut reader), Ok(()));
    let inbox = peer.receive_messages(&mut waitlist);
    assert_eq!(inbox.len(), 4);
    for (channel, messages) in inbox.iter().enumerate() {
        assert_eq!(payloads(messages), vec![channel as u8, 10 + channel as u8]);
    }
    let again = peer.receive_messages(&mut waitlist);
    assert!(again.iter().all(|messages| messages.is_empty()));

    assert!(!set.has_messages());
    set.collect_messages(99, 100);
    assert!(!set.has_messages());
    set.collect_messages(100, 100);
    assert!(set.has_messages());
    set.notify_message_delivered(2, &0);
    set.notify_message_delivered(2, &1);
    set.notify_message_delivered(9, &1);
    set.notify_message_delivered(0, &0);
    let mut writer = BitWriter::new();
    assert_eq!(set.write_data(&mut writer, 10_000, 100), vec![(3, vec![0, 1])]);

    // the retransmission is a duplicate for the peer
    let bytes = writer.to_bytes();
    let mut reader = BitReader::new(&bytes);
    assert_eq!(peer.read_data(&kinds, &mut waitlist, &mut reader), Ok(()));
    let inbox = peer.receive_messages(&mut waitlist);
    assert!(inbox.iter().all(|messages| messages.is_empty()));
}
