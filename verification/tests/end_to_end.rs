use naia_core::address::SocketAddress;
use naia_core::bit_reader::BitReader;
use naia_core::channel::ChannelMode;
use naia_core::connection::{Connection, ConnectionConfig, TickAction};
use naia_core::entity_waitlist::EntityWaitlist;
use naia_core::message::{MessageContainer, MessageKinds};
use naia_core::packet_type::{PacketType, Route};
use naia_core::standard_header::StandardHeader;

fn address(last: u8) -> SocketAddress {
    SocketAddress::V4 { octets: 0x0a00_0000 | last as u32, port: 14191 }
}

fn connection(peer: u8) -> Connection {
    let mut connection = Connection::new(address(peer), ConnectionConfig::default_config(), 0);
    assert_eq!(connection.add_channel(ChannelMode::UnorderedReliable), 0);
    assert_eq!(connection.add_channel(ChannelMode::OrderedReliable), 1);
    assert_eq!(connection.add_channel(ChannelMode::UnorderedUnreliable), 2);
    connection
}

fn message(n: u8) -> MessageContainer {
    MessageContainer::new(0, vec![n], Vec::new())
}

/// Hands a datagram to a connection and gives the messages that it
/// delivers on each channel.
fn arrive(to: &mut Connection, datagram: &[u8], now: u64) -> Vec<Vec<u8>> {
    let kinds = MessageKinds::plain(1);
    let mut waitlist = EntityWaitlist::new();
    let mut reader = BitReader::new(datagram);
    let header = StandardHeader::de(&mut reader).unwrap();
    assert_eq!(header.packet_type.route(true), Route::Connection);
    match header.packet_type {
        PacketType::Data => {
            assert_eq!(
                to.read_data_packet(&header, &kinds, &mut waitlist, &mut reader, now),
                Ok(())
            );
        }
        _ => {
            to.process_incoming_header(&header, now);
        }
    }
    to.receive_messages(&mut waitlist)
        .iter()
        .map(|messages| messages.iter().map(|m| m.payload()[0]).collect())
        .collect()
}

#[test]
fn lost_datagrams_are_made_up_for() {
    let mut client = connection(1);
    let mut server = connection(2);
    let mut delivered: Vec<u8> = Vec::new();

    for n in 1..=10u8 {
        let now = n as u64 * 10;
        client.send_message(0, message(n)).unwrap();
        assert!(client.has_messages());
        let datagram = client.write_data_packet(9_600, now).to_bytes();
        assert!(!client.has_messages());
        if n == 3 || n == 7 {
            continue;
        }
        delivered.extend(&arrive(&mut server, &datagram, now)[0]);
        let answer = server.write_heartbeat(now).to_bytes();
        assert_eq!(answer.len(), 9);
        arrive(&mut client, &answer, now);
    }
    assert_eq!(delivered, vec![1, 2, 4, 5, 6, 8, 9, 10]);

    // nothing is due before the resend timeout has passed for the lost messages
    client.collect_messages(120, 100);
    assert!(!client.has_messages());
    client.collect_messages(170, 100);
    assert!(client.has_messages());
    let datagram = client.write_data_packet(9_600, 170).to_bytes();
    delivered.extend(&arrive(&mut server, &datagram, 170)[0]);
    // the same datagram arrives once more
    delivered.extend(&arrive(&mut server, &datagram, 171)[0]);
    assert_eq!(delivered, vec![1, 2, 4, 5, 6, 8, 9, 10, 3, 7]);

    let answer = server.write_heartbeat(172).to_bytes();
    arrive(&mut client, &answer, 172);
    client.collect_messages(10_000, 100);
    assert!(!client.has_messages());
}

#[test]
fn unacknowledged_messages_are_sent_until_they_are_acknowledged() {
    let mut client = connection(1);
    let mut server = connection(2);
    client.send_message(1, message(1)).unwrap();
    client.send_message(1, message(2)).unwrap();
    let mut datagrams = Vec::new();
    for round in 0..4u64 {
        client.collect_messages(round * 100, 100);
        assert!(client.has_messages());
        datagrams.push(client.write_data_packet(9_600, round * 100).to_bytes());
    }
    // only the last datagram arrives
    assert_eq!(arrive(&mut server, &datagrams[3], 300)[1], vec![1, 2]);
    let answer = server.write_heartbeat(300).to_bytes();
    arrive(&mut client, &answer, 300);
    client.collect_messages(1_000, 100);
    assert!(!client.has_messages());
    // the earlier datagrams arrive late and out of order
    assert_eq!(arrive(&mut server, &datagrams[1], 301)[1], Vec::<u8>::new());
    assert_eq!(arrive(&mut server, &datagrams[0], 302)[1], Vec::<u8>::new());
}

#[test]
fn both_directions_carry_messages_and_acknowledgements() {
    let mut client = connection(1);
    let mut server = connection(2);
    for n in 0..5u8 {
        client.send_message(1, message(n)).unwrap();
        server.send_message(1, message(100 + n)).unwrap();
        server.send_message(2, message(200 + n)).unwrap();
    }
    let to_server = client.write_data_packet(9_600, 10).to_bytes();
    let from_client = arrive(&mut server, &to_server, 10);
    assert_eq!(from_client[1], vec![0, 1, 2, 3, 4]);
    let to_client = server.write_data_packet(9_600, 20).to_bytes();
    let from_server = arrive(&mut client, &to_client, 20);
    assert_eq!(from_server[1], vec![100, 101, 102, 103, 104]);
    assert_eq!(from_server[2], vec![200, 201, 202, 203, 204]);
    // the server's datagram acknowledged the client's
    client.collect_messages(10_000, 100);
    assert!(!client.has_messages());
    // the server's messages are not acknowledged yet
    server.collect_messages(10_000, 100);
    assert!(server.has_messages());
    let answer = client.write_heartbeat(30).to_bytes();
    arrive(&mut server, &answer, 30);
    assert!(server.has_messages());
    let resent = server.write_data_packet(9_600, 10_000).to_bytes();
    assert_eq!(arrive(&mut client, &resent, 10_000)[1], Vec::<u8>::new());
    let answer = client.write_heartbeat(10_001).to_bytes();
    arrive(&mut server, &answer, 10_001);
    server.collect_messages(30_000, 100);
    assert!(!server.has_messages());
}

#[test]
fn tick_says_when_to_send() {
    let mut client = connection(1);
    assert_eq!(client.tick(16, client.has_messages()), TickAction::Idle);
    client.send_message(2, message(1)).unwrap();
    assert_eq!(client.tick(32, client.has_messages()), TickAction::SendData);
    let datagram = client.write_data_packet(9_600, 32).to_bytes();
    // 72 bits of header, 8 for the channel, 25 for the message, 1 for the end
    assert_eq!(datagram.len(), (72 + 8 + 25 + 1 + 7) / 8);
    assert_eq!(client.tick(48, client.has_messages()), TickAction::Idle);
    assert_eq!(client.tick(3_032, client.has_messages()), TickAction::SendHeartbeat);
}

#[test]
fn small_datagram_holds_the_header_alone() {
    let mut client = connection(1);
    client.send_message(0, message(1)).unwrap();
    for budget in [0u64, 71, 72, 80] {
        assert_eq!(client.write_data_packet(budget, 0).to_bytes().len(), 9);
    }
    assert!(client.has_messages());
    assert_eq!(client.write_data_packet(81, 0).to_bytes(), vec![
        7, 4, 0, 255, 255, 0, 0, 0, 0, 0, 0
    ]);
    assert_eq!(client.write_data_packet(72 + 8 + 42, 0).to_bytes().len(), 9 + 1 + 6);
}

#[test]
fn acknowledgement_samples_the_round_trip_time() {
    let mut client = connection(1);
    let mut server = connection(2);
    assert_eq!(client.resend_timeout(), 200);
    client.send_message(0, message(1)).unwrap();
    let datagram = client.write_data_packet(9_600, 1_000).to_bytes();
    arrive(&mut server, &datagram, 1_100);
    let answer = server.write_heartbeat(1_100).to_bytes();
    arrive(&mut client, &answer, 1_280);
    // the sample is 280: the estimate moves from 200 to 210, the deviation
    // from 0 to 10
    assert_eq!(client.resend_timeout(), 210 + 4 * 10);
    // a header that acknowledges nothing new is no sample
    let answer = server.write_heartbeat(1_300).to_bytes();
    arrive(&mut client, &answer, 5_000);
    assert_eq!(client.resend_timeout(), 250);

    let timeout = client.resend_timeout();
    client.send_message(0, message(2)).unwrap();
    client.write_data_packet(9_600, 6_000);
    client.collect_messages(6_000 + timeout - 1, timeout);
    assert!(!client.has_messages());
    client.collect_messages(6_000 + timeout, timeout);
    assert!(client.has_messages());
}
