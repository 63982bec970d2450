use reliable_udp::byte_queue::{copy_front, ByteQueue};
use reliable_udp::packet_recv_space::PacketRecvSpace;
use reliable_udp::packet_send_space::PacketSendSpace;

#[test]
fn a_queue_gives_bytes_back_in_order() {
    let mut queue = ByteQueue::new(6);
    assert_eq!((queue.len(), queue.free()), (0, 6));
    queue.append_from(b"abcdef", 4);
    assert_eq!((queue.len(), queue.free()), (4, 2));
    let mut slice = [9u8; 3];
    queue.pop_to_slice(&mut slice, 2);
    assert_eq!(slice, [b'a', b'b', 9]);
    queue.append_from(b"xyz", 3);
    let mut bytes = vec![b'-'];
    queue.pop_to_vec(&mut bytes, 5);
    assert_eq!(bytes, b"-cdxyz");
    assert_eq!(queue.len(), 0);
}

#[test]
fn a_cloned_queue_is_as_long_as_what_it_holds() {
    let mut queue = ByteQueue::new(6);
    let empty = queue.clone();
    assert_eq!((empty.len(), empty.free()), (0, 0));
    queue.append_from(b"abcd", 4);
    let mut twin = queue.clone();
    assert_eq!((twin.len(), twin.free()), (4, 0));
    let mut bytes = Vec::new();
    twin.pop_to_vec(&mut bytes, 3);
    assert_eq!(bytes, b"abc");
    assert_eq!((twin.len(), twin.free()), (1, 3));
    assert_eq!((queue.len(), queue.free()), (4, 2));
}

#[test]
fn copying_leaves_the_rest_alone() {
    let mut dst = [9u8; 4];
    copy_front(b"abc", &mut dst, 2);
    assert_eq!(dst, [b'a', b'b', 9, 9]);
    copy_front(b"abc", &mut dst, 0);
    assert_eq!(dst, [b'a', b'b', 9, 9]);
}

#[test]
fn a_receive_space_orders_packets() {
    let mut space = PacketRecvSpace::new(3);
    assert!(space.recv(1, b"b".to_vec()));
    assert_eq!(space.peak(), None);
    assert_eq!(space.pop(), None);
    assert_eq!((space.next_seq(), space.num_received_packets()), (0, 1));
    assert!(space.recv(0, b"a".to_vec()));
    assert_eq!(space.peak(), Some(&b"a".to_vec()));
    assert_eq!(space.pop(), Some(b"a".to_vec()));
    assert_eq!(space.pop(), Some(b"b".to_vec()));
    assert_eq!(space.pop(), None);
    assert_eq!((space.next_seq(), space.num_received_packets()), (2, 0));
}

#[test]
fn the_window_bounds_what_a_receive_space_holds() {
    let mut space = PacketRecvSpace::new(3);
    assert!(space.recv(2, Vec::new()));
    assert!(!space.recv(3, Vec::new()));
    assert!(space.recv(1, Vec::new()));
    assert!(space.recv(0, Vec::new()));
    assert_eq!(space.num_received_packets(), 3);
    space.pop();
    assert!(space.recv(3, Vec::new()));
    assert!(!space.recv(4, Vec::new()));
    assert!(space.recv(0, Vec::new()));
    assert_eq!(space.num_received_packets(), 3);
}

#[test]
fn the_greatest_number_is_never_held() {
    let mut space = PacketRecvSpace::new(u64::MAX);
    assert!(!space.recv(u64::MAX, Vec::new()));
    assert!(space.recv(u64::MAX - 1, Vec::new()));
}

#[test]
fn a_later_copy_replaces_a_held_packet() {
    let mut space = PacketRecvSpace::new(3);
    assert!(space.recv(0, b"a".to_vec()));
    assert!(space.recv(0, b"b".to_vec()));
    assert_eq!(space.num_received_packets(), 1);
    assert_eq!(space.pop(), Some(b"b".to_vec()));
}

#[test]
fn buffers_of_a_receive_space_come_back_empty() {
    let mut space = PacketRecvSpace::new(3);
    assert_eq!(space.reuse_buf(), None);
    space.return_buf(b"used".to_vec());
    assert_eq!(space.reuse_buf(), Some(Vec::new()));
    assert_eq!(space.reuse_buf(), None);
    assert!(!space.recv(9, b"rejected".to_vec()));
    assert_eq!(space.reuse_buf(), Some(Vec::new()));
}

#[test]
fn a_send_space_numbers_packets() {
    let mut space: PacketSendSpace<char> = PacketSendSpace::new();
    assert!(space.no_packets_in_flight());
    assert_eq!(space.send(b"a".to_vec(), 'x'), 0);
    assert_eq!(space.send(b"b".to_vec(), 'y'), 1);
    assert_eq!(space.next_seq(), 2);
    assert_eq!(space.num_transmitting_packets(), 2);
    assert!(!space.no_packets_in_flight());
    assert_eq!(space.retransmit(1), Some(&b"b".to_vec()));
    assert_eq!(space.retransmit(2), None);
}

#[test]
fn a_send_space_forgets_acked_packets() {
    let mut space: PacketSendSpace<char> = PacketSendSpace::new();
    space.send(b"a".to_vec(), 'x');
    space.send(b"b".to_vec(), 'y');
    space.send(b"c".to_vec(), 'z');
    let mut stats = vec!['-'];
    space.ack(&[1, 1, 8, 0], &mut stats);
    assert_eq!(stats, vec!['-', 'y', 'x']);
    assert_eq!(space.num_transmitting_packets(), 1);
    assert_eq!(space.retransmit(0), None);
    assert_eq!(space.retransmit(2), Some(&b"c".to_vec()));
    assert_eq!(space.reuse_buf(), Some(Vec::new()));
    assert_eq!(space.reuse_buf(), Some(Vec::new()));
    assert_eq!(space.reuse_buf(), None);
    assert_eq!(space.send(b"d".to_vec(), 'w'), 3);
}
