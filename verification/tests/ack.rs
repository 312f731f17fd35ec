use naia_core::ack_field::{fold, ReceiveState};
use naia_core::ack_manager::{acknowledges, AckManager, SentPacket};
use naia_core::packet_type::PacketType;
use naia_core::rtt::RttEstimator;
use naia_core::standard_header::StandardHeader;

fn start() -> ReceiveState {
    ReceiveState { received_any: false, last_index: 65535, bitfield: 0 }
}

fn fold_all(indices: &[u16]) -> ReceiveState {
    let mut state = start();
    for index in indices {
        state = fold(state, *index);
    }
    state
}

fn bit_says(state: ReceiveState, k: u32) -> bool {
    (state.bitfield >> k) & 1 == 1
}

#[test]
fn first_arrival_is_the_newest() {
    let state = fold_all(&[40000]);
    assert_eq!(state, ReceiveState { received_any: true, last_index: 40000, bitfield: 0 });
}

#[test]
fn bit_k_is_the_datagram_k_plus_one_before_the_newest() {
    let state = fold_all(&[0, 1, 2, 4, 7]);
    assert_eq!(state.last_index, 7);
    assert_eq!(state.bitfield, 0b0111_0100);
    let arrived = [0u16, 1, 2, 4, 7];
    for k in 0..32u32 {
        let index = 7i32 - (k as i32 + 1);
        let expected = index >= 0 && arrived.contains(&(index as u16));
        assert_eq!(bit_says(state, k), expected);
    }
}

#[test]
fn late_arrival_sets_its_bit() {
    let state = fold_all(&[10, 12, 11]);
    assert_eq!(state.last_index, 12);
    assert_eq!(state.bitfield, 0b11);
    let state = fold_all(&[10, 12, 11, 11, 12]);
    assert_eq!(state.bitfield, 0b11);
}

#[test]
fn bits_wrap_with_the_index() {
    let state = fold_all(&[65534, 65535, 1]);
    assert_eq!(state.last_index, 1);
    assert_eq!(state.bitfield, 0b110);
    let state = fold(state, 0);
    assert_eq!(state.last_index, 1);
    assert_eq!(state.bitfield, 0b111);
}

#[test]
fn jump_beyond_the_field_clears_it() {
    let state = fold_all(&[0, 1, 2, 40]);
    assert_eq!(state.last_index, 40);
    assert_eq!(state.bitfield, 0);
    let state = fold_all(&[0, 32]);
    assert_eq!(state.bitfield, 1 << 31);
    let state = fold_all(&[0, 33]);
    assert_eq!(state.bitfield, 0);
}

#[test]
fn arrival_older_than_the_field_changes_nothing() {
    let before = fold_all(&[100, 101]);
    assert_eq!(fold(before, 60), before);
    let oldest_bit = fold(before, 69);
    assert_eq!(oldest_bit.bitfield, before.bitfield | (1 << 31));
}

#[test]
fn header_acknowledges_the_newest_and_the_bits() {
    assert!(acknowledges(10, 0, 10));
    assert!(!acknowledges(10, 0, 9));
    assert!(acknowledges(10, 0b1, 9));
    assert!(acknowledges(10, 0b100, 7));
    assert!(!acknowledges(10, 0b100, 8));
    assert!(!acknowledges(10, u32::MAX, 11));
    assert!(acknowledges(2, 0b100, 65535));
    assert!(acknowledges(40, 1 << 31, 8));
    assert!(!acknowledges(41, u32::MAX, 8));
}

#[test]
fn manager_stamps_headers_and_counts_on() {
    let mut manager = AckManager::new();
    let first = manager.next_outgoing_header(PacketType::Data, 100);
    assert_eq!(first, StandardHeader::new(PacketType::Data, 0, 65535, 0));
    manager.process_incoming_header(&StandardHeader::new(PacketType::Data, 7, 65535, 0));
    manager.process_incoming_header(&StandardHeader::new(PacketType::Data, 9, 65535, 0));
    let second = manager.next_outgoing_header(PacketType::Heartbeat, 120);
    assert_eq!(second, StandardHeader::new(PacketType::Heartbeat, 1, 9, 0b10));
    assert_eq!(manager.next_packet_index(), 2);
    assert_eq!(manager.outstanding(), 2);
}

#[test]
fn manager_hands_back_what_a_header_acknowledges() {
    let mut manager = AckManager::new();
    for now in 0..5u64 {
        manager.next_outgoing_header(PacketType::Data, now * 10);
    }
    let acked = manager.process_incoming_header(&StandardHeader::new(PacketType::Data, 0, 3, 0b101));
    assert_eq!(
        acked,
        vec![
            SentPacket { index: 0, sent_at: 0 },
            SentPacket { index: 2, sent_at: 20 },
            SentPacket { index: 3, sent_at: 30 },
        ]
    );
    assert_eq!(manager.outstanding(), 2);
    let again = manager.process_incoming_header(&StandardHeader::new(PacketType::Data, 1, 3, 0b101));
    assert_eq!(again, Vec::new());
    let rest = manager.process_incoming_header(&StandardHeader::new(PacketType::Data, 2, 4, 0b1111));
    assert_eq!(rest, vec![SentPacket { index: 1, sent_at: 10 }, SentPacket { index: 4, sent_at: 40 }]);
    assert_eq!(manager.outstanding(), 0);
}

#[test]
fn packet_index_wraps_at_16_bits() {
    let mut manager = AckManager::new();
    for _ in 0..65536u32 {
        manager.next_outgoing_header(PacketType::Data, 0);
        manager.collect_lost(0, 0);
    }
    assert_eq!(manager.next_packet_index(), 0);
    let header = manager.next_outgoing_header(PacketType::Data, 0);
    assert_eq!(header.sender_packet_index, 0);
}

#[test]
fn packets_are_lost_after_the_timeout() {
    let mut manager = AckManager::new();
    manager.next_outgoing_header(PacketType::Data, 100);
    manager.next_outgoing_header(PacketType::Data, 200);
    manager.next_outgoing_header(PacketType::Data, 300);
    assert_eq!(manager.collect_lost(349, 250), Vec::new());
    assert_eq!(manager.collect_lost(450, 250), vec![
        SentPacket { index: 0, sent_at: 100 },
        SentPacket { index: 1, sent_at: 200 },
    ]);
    assert_eq!(manager.outstanding(), 1);
    assert_eq!(manager.collect_lost(50, 0), Vec::new());
}

#[test]
fn sample_moves_the_estimate_an_eighth_of_the_way() {
    let mut estimate = RttEstimator::new(100, 50, 1000);
    estimate.sample(180);
    assert_eq!(estimate.rtt_millis, 110);
    assert_eq!(estimate.deviation_millis, 10);
    estimate.sample(110);
    assert_eq!(estimate.rtt_millis, 110);
    assert_eq!(estimate.deviation_millis, 8);
    estimate.sample(30);
    assert_eq!(estimate.rtt_millis, 100);
    assert_eq!(estimate.deviation_millis, 17);
}

#[test]
fn resend_timeout_is_rtt_and_four_deviations_within_bounds() {
    let mut estimate = RttEstimator::new(100, 50, 1000);
    assert_eq!(estimate.resend_timeout(), 100);
    estimate.sample(180);
    assert_eq!(estimate.resend_timeout(), 150);
    let low = RttEstimator::new(10, 50, 1000);
    assert_eq!(low.resend_timeout(), 50);
    let mut high = RttEstimator::new(900, 50, 1000);
    high.sample(4000);
    assert_eq!(high.resend_timeout(), 1000);
    let mut extreme = RttEstimator::new(u32::MAX, 0, u32::MAX);
    extreme.sample(0);
    assert_eq!(extreme.resend_timeout(), u32::MAX);
}
