use reliable_udp::handshake::{accept_reply, ClientHandshake};
use reliable_udp::rate::{rate_change, LossLevel, RateChange, SampleFacts};
use reliable_udp::transport::{
    deliver, recv_packet, send_result, try_recv_packet, QueueState, SendFailure, System,
    TransportError,
};

#[test]
fn a_packet_is_cut_to_the_buffer() {
    let mut buf = [9u8; 3];
    assert_eq!(deliver(b"abcde", &mut buf), 3);
    assert_eq!(&buf, b"abc");
    assert_eq!(deliver(b"x", &mut buf), 1);
    assert_eq!(&buf, b"xbc");
    assert_eq!(deliver(b"", &mut buf), 0);
    assert_eq!(&buf, b"xbc");
}

#[test]
fn trying_to_receive_tells_empty_from_closed() {
    let mut buf = [9u8; 3];
    assert_eq!(try_recv_packet(Ok(b"ab".to_vec()), &mut buf), Ok(2));
    assert_eq!(&buf, b"ab\x09");
    assert_eq!(
        try_recv_packet(Err(QueueState::Empty), &mut buf),
        Err(TransportError::WouldBlock)
    );
    assert_eq!(
        try_recv_packet(Err(QueueState::Disconnected), &mut buf),
        Err(TransportError::UnexpectedEof)
    );
    assert_eq!(&buf, b"ab\x09");
}

#[test]
fn receiving_ends_when_the_queue_is_closed() {
    let mut buf = [9u8; 1];
    assert_eq!(recv_packet(Some(b"ab".to_vec()), &mut buf), Ok(1));
    assert_eq!(&buf, b"a");
    assert_eq!(recv_packet(None, &mut buf), Err(TransportError::UnexpectedEof));
}

#[test]
fn a_full_socket_counts_as_one_that_sent_nothing() {
    let failure = |code: i32| Err(SendFailure { raw_os_error: Some(code), kind: code });
    assert_eq!(send_result(failure(105), System::Linux), Ok(0));
    assert_eq!(send_result(failure(55), System::Linux), Ok(0));
    assert_eq!(send_result(failure(132), System::LinuxMips), Ok(0));
    assert_eq!(send_result(failure(55), System::LinuxMips), Ok(0));
    assert_eq!(send_result(failure(55), System::MacOs), Ok(0));
}

#[test]
fn other_failures_to_send_are_errors() {
    let failure = |code: i32| Err(SendFailure { raw_os_error: Some(code), kind: code });
    assert_eq!(send_result(failure(132), System::Linux), Err(132));
    assert_eq!(send_result(failure(104), System::Linux), Err(104));
    assert_eq!(send_result(failure(105), System::LinuxMips), Err(105));
    assert_eq!(send_result(failure(105), System::MacOs), Err(105));
    assert_eq!(send_result(failure(54), System::MacOs), Err(54));
    assert_eq!(send_result(failure(55), System::Other), Err(55));
    assert_eq!(send_result(failure(105), System::Other), Err(105));
    let unnumbered = SendFailure { raw_os_error: None, kind: "unnumbered" };
    assert_eq!(send_result(Err(unnumbered), System::Linux), Err("unnumbered"));
    assert_eq!(send_result::<&str>(Ok(7), System::Linux), Ok(7));
}

#[test]
fn only_the_challenge_ends_a_handshake() {
    let handshake = ClientHandshake::new([42]);
    assert_eq!(handshake.challenge(), [42]);
    assert_eq!(handshake.finish([42]), Ok(()));
    assert_eq!(handshake.finish([41]), Err(TransportError::ConnectionReset));
    assert_eq!(handshake.finish([0]), Err(TransportError::ConnectionReset));
}

#[test]
fn a_listener_sends_the_challenge_back() {
    assert_eq!(accept_reply(&[42]), vec![42]);
    assert_eq!(accept_reply(b"abc"), b"abc".to_vec());
    let handshake = ClientHandshake::new([42]);
    let mut response = [7u8; 1];
    deliver(&accept_reply(&handshake.challenge()), &mut response);
    assert_eq!(handshake.finish(response), Ok(()));
}

#[test]
fn a_handshake_takes_the_drawn_challenge() {
    assert_eq!(ClientHandshake::from_drawn(Some([42])).unwrap().challenge(), [42]);
    assert!(ClientHandshake::from_drawn(None).is_none());
}

#[test]
fn challenges_are_random() {
    let first = ClientHandshake::start().unwrap().challenge();
    let mut differs = false;
    let mut i = 0;
    while i < 100 {
        differs = differs || ClientHandshake::start().unwrap().challenge() != first;
        i += 1;
    }
    assert!(differs);
}

#[test]
fn the_loss_decides_on_phase_and_rate() {
    assert!(LossLevel::Unknown.is_application_limited());
    assert!(LossLevel::Low.is_application_limited());
    assert!(!LossLevel::High.is_application_limited());
    assert!(!LossLevel::Total.is_application_limited());
    assert!(!LossLevel::Unknown.restarts_send_rate());
    assert!(!LossLevel::Low.restarts_send_rate());
    assert!(!LossLevel::High.restarts_send_rate());
    assert!(LossLevel::Total.restarts_send_rate());
}

#[test]
fn a_sample_moves_the_rate() {
    let facts = |is_app_limited: bool, probe_is_slower: bool| {
        rate_change(Some(SampleFacts { is_app_limited, probe_is_slower }))
    };
    assert_eq!(rate_change(None), RateChange::Keep);
    assert_eq!(facts(true, true), RateChange::Keep);
    assert_eq!(facts(true, false), RateChange::TowardProbe);
    assert_eq!(facts(false, true), RateChange::TowardDelivery);
    assert_eq!(facts(false, false), RateChange::TowardDelivery);
}
