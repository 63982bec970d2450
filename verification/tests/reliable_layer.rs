use reliable_udp::handshake::{accept_reply, ClientHandshake};
use reliable_udp::rate::LossLevel;
use reliable_udp::reliable_layer::{
    AckedPacket, DataPacket, Gauges, ReliableLayer, SendStep, MSS, NO_RTT_NANOS,
    RECV_DATA_BUFFER_LENGTH, SEND_DATA_BUFFER_LENGTH,
};
use reliable_udp::transport::deliver;

/// Bytes that differ from their neighbours.
fn pattern(len: usize) -> Vec<u8> {
    let mut bytes = Vec::new();
    let mut i = 0usize;
    while i < len {
        bytes.push((i % 251) as u8);
        i += 1;
    }
    bytes
}

/// Sends a new packet out of a buffer of `room` bytes.
fn send_new(layer: &mut ReliableLayer<u32>, room: usize, stats: u32) -> Option<(u64, Vec<u8>)> {
    let mut packet = vec![0u8; room];
    match layer.send_data_packet(&mut packet, true, None) {
        SendStep::New { .. } => {}
        SendStep::Nothing => return None,
        SendStep::Sent(_) => panic!("nothing was due"),
    }
    let sent = layer.send_new_packet(&mut packet, stats).unwrap();
    packet.truncate(sent.data_written);
    Some((sent.seq, packet))
}

/// Sends everything that was written.
fn send_all(layer: &mut ReliableLayer<u32>, room: usize) -> Vec<(u64, Vec<u8>)> {
    let mut packets = Vec::new();
    while let Some(packet) = send_new(layer, room, 0) {
        packets.push(packet);
    }
    packets
}

/// Reads until nothing is left.
fn read_all(layer: &mut ReliableLayer<u32>, room: usize) -> Vec<u8> {
    let mut bytes = Vec::new();
    let mut buf = vec![0u8; room];
    loop {
        let n = layer.recv_data_buf(&mut buf);
        if n == 0 {
            return bytes;
        }
        bytes.extend_from_slice(&buf[..n]);
    }
}

#[test]
fn test_connect() {
    let client = ClientHandshake::start().unwrap();
    let mut response = [0; 1];
    deliver(&accept_reply(&client.challenge()), &mut response);
    assert!(client.finish(response).is_ok());

    let msg_1 = b"hello";
    let mut accepted: ReliableLayer<u32> = ReliableLayer::new(8);
    let mut connected: ReliableLayer<u32> = ReliableLayer::new(8);
    assert_eq!(accepted.send_data_buf(msg_1), 5);
    let (seq, packet) = send_new(&mut accepted, 1500, 0).unwrap();
    assert!(connected.recv_data_packet(seq, &packet));
    let mut buf = [0; 1024];
    let n = connected.recv_data_buf(&mut buf);
    assert_eq!(msg_1, &buf[..n]);
}

#[test]
fn a_new_layer_is_idle() {
    let mut layer: ReliableLayer<u32> = ReliableLayer::new(8);
    let mut packet = [7u8; 10];
    assert_eq!(layer.send_data_packet(&mut packet, true, None), SendStep::Nothing);
    assert_eq!(layer.send_new_packet(&mut packet, 1), None);
    assert_eq!(packet, [7u8; 10]);
    assert_eq!(layer.recv_data_buf(&mut packet), 0);
    assert_eq!(packet, [7u8; 10]);
    assert!(layer.packet_send_space().no_packets_in_flight());
    assert_eq!(layer.packet_send_space().num_transmitting_packets(), 0);
    assert_eq!(layer.packet_send_space().next_seq(), 0);
}

#[test]
fn writing_stops_when_the_buffer_is_full() {
    let mut layer: ReliableLayer<u32> = ReliableLayer::new(8);
    assert_eq!(SEND_DATA_BUFFER_LENGTH, 2 << 16);
    assert_eq!(layer.send_data_buf(&pattern(100_000)), 100_000);
    assert_eq!(layer.send_data_buf(&pattern(100_000)), 31_072);
    assert_eq!(layer.send_data_buf(&[1]), 0);
    assert!(send_new(&mut layer, 100, 0).is_some());
    assert_eq!(layer.send_data_buf(&pattern(1000)), 100);
}

#[test]
fn a_new_packet_is_as_long_as_buffer_limit_and_data_allow() {
    assert_eq!(MSS, 1413);
    let mut layer: ReliableLayer<u32> = ReliableLayer::new(8);
    let written = pattern(2000);
    layer.send_data_buf(&written);
    let (seq, packet) = send_new(&mut layer, 10, 0).unwrap();
    assert_eq!((seq, packet.as_slice()), (0, &written[..10]));
    let (seq, packet) = send_new(&mut layer, 3000, 0).unwrap();
    assert_eq!((seq, packet.as_slice()), (1, &written[10..1423]));
    let (seq, packet) = send_new(&mut layer, 3000, 0).unwrap();
    assert_eq!((seq, packet.as_slice()), (2, &written[1423..]));
    assert!(send_new(&mut layer, 3000, 0).is_none());
    layer.send_data_buf(&[1]);
    assert!(send_new(&mut layer, 0, 0).is_none());
}

#[test]
fn bytes_behind_the_packet_are_left_alone() {
    let mut layer: ReliableLayer<u32> = ReliableLayer::new(8);
    layer.send_data_buf(b"abc");
    let mut packet = [9u8; 5];
    let sent = layer.send_new_packet(&mut packet, 1);
    assert_eq!(sent, Some(DataPacket { seq: 0, data_written: 3 }));
    assert_eq!(&packet, b"abc\x09\x09");
    let mut again = [8u8; 4];
    let step = layer.send_data_packet(&mut again, true, Some(0));
    assert_eq!(step, SendStep::Sent(DataPacket { seq: 0, data_written: 3 }));
    assert_eq!(&again, b"abc\x08");
}

#[test]
fn nothing_is_sent_without_a_token() {
    let mut layer: ReliableLayer<u32> = ReliableLayer::new(8);
    layer.send_data_buf(b"abcdef");
    send_new(&mut layer, 3, 0);
    let mut packet = [0u8; 10];
    assert_eq!(layer.send_data_packet(&mut packet, false, Some(0)), SendStep::Nothing);
    assert_eq!(layer.send_data_packet(&mut packet, false, None), SendStep::Nothing);
    assert_eq!(packet, [0u8; 10]);
}

#[test]
fn a_due_packet_goes_before_a_new_one() {
    let mut layer: ReliableLayer<u32> = ReliableLayer::new(8);
    layer.send_data_buf(b"abcdef");
    let mut packet = [0u8; 3];
    assert_eq!(
        layer.send_data_packet(&mut packet, true, None),
        SendStep::New { no_packets_in_flight: true }
    );
    send_new(&mut layer, 3, 0);
    assert_eq!(
        layer.send_data_packet(&mut packet, true, None),
        SendStep::New { no_packets_in_flight: false }
    );
    assert_eq!(
        layer.send_data_packet(&mut packet, true, Some(0)),
        SendStep::Sent(DataPacket { seq: 0, data_written: 3 })
    );
    assert_eq!(&packet, b"abc");
    assert_eq!(
        layer.send_data_packet(&mut packet, true, Some(1)),
        SendStep::New { no_packets_in_flight: false }
    );
}

#[test]
fn acked_packets_come_back_last_named_first() {
    let mut layer: ReliableLayer<u32> = ReliableLayer::new(8);
    layer.send_data_buf(b"abcdef");
    send_new(&mut layer, 2, 10);
    send_new(&mut layer, 2, 11);
    send_new(&mut layer, 2, 12);
    let acked: Vec<AckedPacket<u32>> = layer.recv_ack_packet(&[2, 7, 0, 2]);
    assert_eq!(acked.len(), 2);
    assert_eq!((acked[0].state, acked[0].data_length), (10, 1));
    assert_eq!((acked[1].state, acked[1].data_length), (12, 1));
    assert_eq!(layer.packet_send_space().num_transmitting_packets(), 1);
    assert_eq!(layer.packet_send_space().retransmit(0), None);
    assert_eq!(layer.packet_send_space().retransmit(1), Some(&b"cd".to_vec()));
}

#[test]
fn a_second_ack_finds_nothing() {
    let mut layer: ReliableLayer<u32> = ReliableLayer::new(8);
    layer.send_data_buf(b"ab");
    send_new(&mut layer, 2, 10);
    assert_eq!(layer.recv_ack_packet(&[0]).len(), 1);
    assert_eq!(layer.recv_ack_packet(&[0]).len(), 0);
    assert_eq!(layer.recv_ack_packet(&[]).len(), 0);
    assert!(layer.packet_send_space().no_packets_in_flight());
}

#[test]
fn a_stray_ack_changes_nothing() {
    let mut layer: ReliableLayer<u32> = ReliableLayer::new(8);
    layer.send_data_buf(b"ab");
    send_new(&mut layer, 2, 10);
    assert_eq!(layer.recv_ack_packet(&[1, 99]).len(), 0);
    assert_eq!(layer.packet_send_space().num_transmitting_packets(), 1);
}

#[test]
fn an_acked_packet_is_not_sent_again() {
    let mut layer: ReliableLayer<u32> = ReliableLayer::new(8);
    layer.send_data_buf(b"ab");
    send_new(&mut layer, 2, 10);
    layer.recv_ack_packet(&[0]);
    let mut packet = [0u8; 2];
    assert_eq!(layer.send_data_packet(&mut packet, true, Some(0)), SendStep::Nothing);
}

#[test]
fn a_packet_is_kept_until_it_is_acked() {
    let mut layer: ReliableLayer<u32> = ReliableLayer::new(8);
    layer.send_data_buf(b"abcd");
    send_new(&mut layer, 2, 10);
    send_new(&mut layer, 2, 11);
    layer.recv_ack_packet(&[1]);
    layer.recv_data_packet(0, b"xy");
    layer.send_data_buf(b"ef");
    assert_eq!(layer.packet_send_space().retransmit(0), Some(&b"ab".to_vec()));
}

#[test]
fn application_limited_phases_follow_the_loss() {
    let mut layer: ReliableLayer<u32> = ReliableLayer::new(8);
    layer.send_data_buf(b"abcd");
    send_new(&mut layer, 2, 0);
    send_new(&mut layer, 2, 0);
    assert_eq!(layer.detect_application_limited_phases(LossLevel::Unknown), Some(2));
    assert_eq!(layer.detect_application_limited_phases(LossLevel::Low), Some(2));
    assert_eq!(layer.detect_application_limited_phases(LossLevel::High), None);
    assert_eq!(layer.detect_application_limited_phases(LossLevel::Total), None);
}

#[test]
fn packets_out_of_order_wait_for_their_turn() {
    let mut layer: ReliableLayer<u32> = ReliableLayer::new(4);
    let mut buf = [0u8; 10];
    assert!(layer.recv_data_packet(2, b"ef"));
    assert!(layer.recv_data_packet(1, b"cd"));
    assert_eq!(layer.recv_data_buf(&mut buf), 0);
    assert!(layer.recv_data_packet(0, b"ab"));
    assert_eq!(layer.recv_data_buf(&mut buf), 6);
    assert_eq!(&buf[..6], b"abcdef");
}

#[test]
fn a_read_is_cut_to_the_buffer() {
    let mut layer: ReliableLayer<u32> = ReliableLayer::new(4);
    layer.recv_data_packet(0, b"abcd");
    let mut buf = [9u8; 3];
    assert_eq!(layer.recv_data_buf(&mut buf), 3);
    assert_eq!(&buf, b"abc");
    assert_eq!(layer.recv_data_buf(&mut buf), 1);
    assert_eq!(&buf, b"dbc");
    assert_eq!(layer.recv_data_buf(&mut buf), 0);
}

#[test]
fn a_packet_beyond_the_window_is_rejected() {
    let mut layer: ReliableLayer<u32> = ReliableLayer::new(2);
    assert!(!layer.recv_data_packet(2, b"ef"));
    assert!(!layer.recv_data_packet(u64::MAX, b"zz"));
    assert!(layer.recv_data_packet(1, b"cd"));
    assert!(layer.recv_data_packet(0, b"ab"));
    assert!(layer.recv_data_packet(2, b"ef"));
    assert_eq!(read_all(&mut layer, 4), b"abcdef");
}

#[test]
fn a_rejected_packet_changes_nothing() {
    let mut layer: ReliableLayer<u32> = ReliableLayer::new(0);
    assert!(!layer.recv_data_packet(0, b"ab"));
    assert_eq!(read_all(&mut layer, 4), b"");
}

#[test]
fn a_late_copy_changes_nothing() {
    let mut layer: ReliableLayer<u32> = ReliableLayer::new(2);
    assert!(layer.recv_data_packet(0, b"ab"));
    assert!(layer.recv_data_packet(0, b"ab"));
    assert_eq!(read_all(&mut layer, 4), b"ab");
    assert!(layer.recv_data_packet(0, b"ab"));
    assert_eq!(read_all(&mut layer, 4), b"");
}

#[test]
fn a_packet_without_room_waits_until_bytes_are_read() {
    assert_eq!(RECV_DATA_BUFFER_LENGTH, 2 << 16);
    let mut layer: ReliableLayer<u32> = ReliableLayer::new(300);
    let packet = pattern(1000);
    let mut seq = 0u64;
    while seq < 200 {
        assert!(layer.recv_data_packet(seq, &packet));
        seq += 1;
    }
    let log = layer.log(gauges());
    assert_eq!(log.recv_seq, 131);
    assert_eq!(log.num_rx_pkts, 69);
    let mut buf = vec![0u8; 927];
    assert_eq!(layer.recv_data_buf(&mut buf), 927);
    assert_eq!(layer.log(gauges()).recv_seq, 131);
    let mut byte = [0u8; 1];
    assert_eq!(layer.recv_data_buf(&mut byte), 1);
    assert_eq!(layer.log(gauges()).recv_seq, 132);
    assert_eq!(read_all(&mut layer, 777).len(), 200 * 1000 - 928);
}

#[test]
fn a_packet_longer_than_the_buffer_is_never_moved() {
    let mut layer: ReliableLayer<u32> = ReliableLayer::new(8);
    assert!(layer.recv_data_packet(0, &pattern(RECV_DATA_BUFFER_LENGTH + 1)));
    assert_eq!(read_all(&mut layer, 100), b"");
    let mut other: ReliableLayer<u32> = ReliableLayer::new(8);
    assert!(other.recv_data_packet(0, &pattern(RECV_DATA_BUFFER_LENGTH)));
    assert_eq!(read_all(&mut other, 1000).len(), RECV_DATA_BUFFER_LENGTH);
}

fn gauges() -> Gauges<f64> {
    Gauges {
        tokens: 1.5,
        send_rate: 12.0,
        loss_rate: Some(0.25),
        num_rt_pkts: 3,
        min_rtt_nanos: 7_999_999,
        smooth_rtt_nanos: 12_000_001,
    }
}

#[test]
fn a_log_tells_how_the_connection_fares() {
    let mut layer: ReliableLayer<u32> = ReliableLayer::new(8);
    layer.send_data_buf(b"abcdef");
    send_new(&mut layer, 2, 0);
    send_new(&mut layer, 2, 0);
    layer.recv_ack_packet(&[0]);
    layer.recv_data_packet(0, b"a");
    layer.recv_data_packet(2, b"c");
    layer.recv_data_packet(3, b"d");
    let log = layer.log(gauges());
    assert_eq!(log.tokens, 1.5);
    assert_eq!(log.send_rate, 12.0);
    assert_eq!(log.loss_rate, Some(0.25));
    assert_eq!(log.num_tx_pkts, 1);
    assert_eq!(log.num_rt_pkts, 3);
    assert_eq!(log.send_seq, 2);
    assert_eq!(log.min_rtt, Some(7));
    assert_eq!(log.rtt, 12);
    assert_eq!(log.num_rx_pkts, 2);
    assert_eq!(log.recv_seq, 1);
    let none = layer.log(Gauges { min_rtt_nanos: NO_RTT_NANOS, ..gauges() });
    assert_eq!(none.min_rtt, None);
    assert_eq!(NO_RTT_NANOS, std::time::Duration::MAX.as_nanos());
}

#[test]
fn a_lossy_path_delivers_every_byte_in_order() {
    let written = pattern(60_000);
    let mut tx: ReliableLayer<u32> = ReliableLayer::new(8);
    let mut rx: ReliableLayer<u32> = ReliableLayer::new(8);
    assert_eq!(tx.send_data_buf(&written), written.len());
    let sent = send_all(&mut tx, 700);
    assert_eq!(sent.len(), 86);
    let mut read = Vec::new();
    let mut dice = 12345u32;
    let mut rounds = 0;
    while !tx.packet_send_space().no_packets_in_flight() {
        rounds += 1;
        assert!(rounds < 10_000);
        // Walk the packets backwards, repeat what is still on its way, and lose half of it.
        let mut seq = sent.len() as u64;
        while seq > 0 {
            seq -= 1;
            let mut packet = [0u8; 1500];
            let step = tx.send_data_packet(&mut packet, true, Some(seq));
            let data = match step {
                SendStep::Sent(p) => {
                    assert_eq!(p.seq, seq);
                    &packet[..p.data_written]
                }
                _ => continue,
            };
            assert_eq!(data, sent[seq as usize].1.as_slice());
            dice = dice.wrapping_mul(1_664_525).wrapping_add(1_013_904_223);
            if dice >> 31 == 0 {
                continue;
            }
            if rx.recv_data_packet(seq, data) && (dice >> 30) & 1 == 0 {
                assert_eq!(tx.recv_ack_packet(&[seq]).len(), 1);
            }
        }
        let mut buf = [0u8; 333];
        let n = rx.recv_data_buf(&mut buf);
        read.extend_from_slice(&buf[..n]);
        assert_eq!(read.as_slice(), &written[..read.len()]);
    }
    read.extend(read_all(&mut rx, 5000));
    assert_eq!(read, written);
}

#[test]
fn the_order_of_arrival_does_not_matter() {
    let payloads = [b"ab".to_vec(), Vec::new(), pattern(5000), b"d".to_vec(), b"e".to_vec()];
    let orders: [&[u64]; 4] = [&[0, 1, 2, 4], &[4, 2, 1, 0], &[2, 0, 4, 0, 1, 2], &[1, 4, 0, 2, 4]];
    let mut expected = b"ab".to_vec();
    expected.extend(pattern(5000));
    for order in orders {
        let mut layer: ReliableLayer<u32> = ReliableLayer::new(5);
        for seq in order {
            assert!(layer.recv_data_packet(*seq, &payloads[*seq as usize]));
        }
        assert_eq!(layer.log(gauges()).recv_seq, 3);
        assert_eq!(layer.log(gauges()).num_rx_pkts, 1);
        assert_eq!(read_all(&mut layer, 9000), expected);
    }
}

#[test]
fn what_is_read_is_the_packets_in_order() {
    let mut layer: ReliableLayer<u32> = ReliableLayer::new(5);
    let mut read = Vec::new();
    let mut buf = [0u8; 3];
    for seq in [1u64, 0, 3, 2, 2, 0, 4] {
        let payload = vec![seq as u8; 2 * seq as usize];
        assert!(layer.recv_data_packet(seq, &payload));
        let n = layer.recv_data_buf(&mut buf);
        read.extend_from_slice(&buf[..n]);
    }
    read.extend(read_all(&mut layer, 7));
    assert_eq!(read, b"\x01\x01\x02\x02\x02\x02\x03\x03\x03\x03\x03\x03\x04\x04\x04\x04\x04\x04\x04\x04");
}

#[test]
fn a_clone_goes_its_own_way() {
    let mut layer: ReliableLayer<u32> = ReliableLayer::new(8);
    layer.send_data_buf(b"abcd");
    let mut twin = layer.clone();
    send_new(&mut layer, 2, 0);
    assert_eq!(send_new(&mut twin, 4, 0), Some((0, b"abcd".to_vec())));
    assert_eq!(send_new(&mut layer, 4, 0), Some((1, b"cd".to_vec())));
    assert_eq!(layer.send_data_buf(&pattern(100)), 100);
}

#[test]
fn a_clone_has_no_room_but_what_comes_free() {
    let mut layer: ReliableLayer<u32> = ReliableLayer::new(8);
    layer.send_data_buf(b"abcd");
    layer.recv_data_packet(0, b"xyz");
    let mut twin = layer.clone();
    assert_eq!(twin.send_data_buf(b"e"), 0);
    send_new(&mut twin, 3, 0);
    assert_eq!(twin.send_data_buf(b"efgh"), 3);
    assert!(twin.recv_data_packet(1, b"uv"));
    assert_eq!(twin.log(gauges()).recv_seq, 1);
    let mut buf = [0u8; 2];
    assert_eq!(twin.recv_data_buf(&mut buf), 2);
    assert_eq!(&buf, b"xy");
    assert_eq!(twin.log(gauges()).recv_seq, 2);
    assert_eq!(read_all(&mut twin, 9), b"zuv");
    assert_eq!(twin.packet_send_space().retransmit(0), Some(&b"abc".to_vec()));
}

#[test]
fn a_clone_of_an_empty_layer_holds_packets_but_moves_none() {
    let layer: ReliableLayer<u32> = ReliableLayer::new(8);
    let mut twin = layer.clone();
    assert_eq!(twin.send_data_buf(b"a"), 0);
    assert!(twin.recv_data_packet(0, b"x"));
    assert!(!twin.recv_data_packet(8, b"y"));
    assert_eq!(read_all(&mut twin, 9), b"");
    assert_eq!(twin.log(gauges()).recv_seq, 0);
}

#[test]
fn a_number_carries_the_same_bytes_throughout() {
    let mut layer: ReliableLayer<u32> = ReliableLayer::new(8);
    layer.send_data_buf(b"abcd");
    assert_eq!(send_new(&mut layer, 2, 0), Some((0, b"ab".to_vec())));
    assert_eq!(send_new(&mut layer, 9, 1), Some((1, b"cd".to_vec())));
    layer.send_data_buf(b"efg");
    assert_eq!(send_new(&mut layer, 9, 2), Some((2, b"efg".to_vec())));
    layer.recv_ack_packet(&[1]);
    layer.recv_data_packet(0, b"xyz");
    assert_eq!(layer.packet_send_space().retransmit(0), Some(&b"ab".to_vec()));
    assert_eq!(layer.packet_send_space().retransmit(2), Some(&b"efg".to_vec()));
}
