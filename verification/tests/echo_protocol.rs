use stm_usb::echo::{EchoSession, Reaction, ReadOutcome, State, ready_signal_bytes};

fn response(payload: &[u8]) -> Vec<u8> {
    let len = payload.len() + 5;
    let len = if len > 0xffff { 0xffff } else { len };
    let mut r = vec![(len % 256) as u8, (len / 256) as u8, b'E', b'C', b'H', b'O', b' '];
    r.extend_from_slice(payload);
    r
}

fn frame(payload: &[u8]) -> Vec<u8> {
    let mut f = vec![(payload.len() % 256) as u8, (payload.len() / 256) as u8];
    f.extend_from_slice(payload);
    f
}

fn is_waiting_at(state: State, expected_pos: usize) -> bool {
    match state {
        State::WaitingForLength { pos, .. } => pos == expected_pos,
        State::StreamingPayload { .. } => false,
    }
}

#[test]
fn new_state_waits_for_length() {
    let state = State::new();
    match state {
        State::WaitingForLength { buf, pos } => {
            assert_eq!(buf, [0, 0]);
            assert_eq!(pos, 0);
        }
        State::StreamingPayload { .. } => panic!("fresh state streams"),
    }
    assert!(is_waiting_at(EchoSession::new().state(), 0));
}

#[test]
fn short_message_is_echoed_in_one_packet() {
    let mut session = EchoSession::new();
    let writes = session.process_packet(&frame(b"hi"));
    assert_eq!(writes, vec![vec![7, 0, b'E', b'C', b'H', b'O', b' ', b'h', b'i']]);
    assert!(is_waiting_at(session.state(), 0));
}

#[test]
fn message_split_across_packets_gives_same_output() {
    let mut session = EchoSession::new();
    let mut all: Vec<Vec<u8>> = Vec::new();
    all.extend(session.process_packet(&[2]));
    assert!(is_waiting_at(session.state(), 1));
    all.extend(session.process_packet(&[0, b'h']));
    match session.state() {
        State::StreamingPayload { remaining } => assert_eq!(remaining, 1),
        _ => panic!("expected payload"),
    }
    all.extend(session.process_packet(&[b'i']));
    assert_eq!(all, vec![response(b"hi")]);
}

#[test]
fn long_payload_goes_out_in_full_packets() {
    let payload: Vec<u8> = (0..100u32).map(|i| i as u8).collect();
    let mut session = EchoSession::new();
    let writes = session.process_packet(&frame(&payload));
    assert_eq!(writes.len(), 2);
    assert_eq!(writes[0].len(), 64);
    assert_eq!(writes[1].len(), 107 - 64);
    assert_eq!(writes.concat(), response(&payload));
    assert_eq!(&writes[0][..2], &[105, 0]);
}

#[test]
fn payload_of_exactly_57_bytes_fills_one_packet() {
    let payload = vec![0x55u8; 57];
    let mut session = EchoSession::new();
    let writes = session.process_packet(&frame(&payload));
    assert_eq!(writes.len(), 1);
    assert_eq!(writes[0].len(), 64);
    assert_eq!(writes[0], response(&payload));
}

#[test]
fn every_split_of_a_stream_gives_the_same_packets() {
    let mut stream = frame(&vec![7u8; 130]);
    stream.extend(frame(b"abc"));
    stream.extend(frame(&vec![9u8; 64]));
    let mut whole = EchoSession::new();
    let expected = whole.process_packet(&stream);
    for chunk in [1usize, 2, 3, 7, 63, 64, 65] {
        let mut session = EchoSession::new();
        let mut got: Vec<Vec<u8>> = Vec::new();
        for part in stream.chunks(chunk) {
            got.extend(session.process_packet(part));
        }
        assert_eq!(got, expected, "chunk size {}", chunk);
    }
    let mut joined = response(&vec![7u8; 130]);
    joined.extend(response(b"abc"));
    joined.extend(response(&vec![9u8; 64]));
    assert_eq!(expected.concat(), joined);
    assert!(expected.iter().all(|p| !p.is_empty() && p.len() <= 64));
}

#[test]
fn empty_payload_is_sent_when_the_next_byte_arrives() {
    let mut session = EchoSession::new();
    let writes = session.process_packet(&[0, 0]);
    assert!(writes.is_empty());
    match session.state() {
        State::StreamingPayload { remaining } => assert_eq!(remaining, 0),
        _ => panic!("expected payload"),
    }
    let writes = session.process_packet(&[1, 0, b'x']);
    assert_eq!(writes, vec![response(b""), response(b"x")]);
    assert_eq!(response(b""), vec![5, 0, b'E', b'C', b'H', b'O', b' ']);
}

#[test]
fn response_length_saturates() {
    let mut session = EchoSession::new();
    // 65533 + 5 does not fit in 16 bits.
    let mut data = vec![0xfd, 0xff];
    data.extend(vec![1u8; 58]);
    let writes = session.process_packet(&data);
    assert_eq!(writes.len(), 1);
    assert_eq!(&writes[0][..7], &[0xff, 0xff, b'E', b'C', b'H', b'O', b' ']);
    assert_eq!(writes[0].len(), 64);
    match session.state() {
        State::StreamingPayload { remaining } => assert_eq!(remaining, 65533 - 58),
        _ => panic!("expected payload"),
    }
}

#[test]
fn read_outcomes_are_answered() {
    let mut session = EchoSession::new();
    match session.on_read(ReadOutcome::Received(frame(b"ok"))) {
        Reaction::Send(writes) => {
            assert_eq!(writes, vec![response(b"ok"), vec![0, 0]]);
        }
        _ => panic!("expected writes"),
    }
    match session.on_read(ReadOutcome::Received(vec![])) {
        Reaction::Send(writes) => assert_eq!(writes, vec![vec![0, 0]]),
        _ => panic!("expected the ready signal"),
    }
    assert!(matches!(session.on_read(ReadOutcome::BufferOverflow), Reaction::Ignore));
    assert!(matches!(session.on_read(ReadOutcome::Disabled), Reaction::Reconnect));
    assert_eq!(ready_signal_bytes(), vec![0, 0]);
}

#[test]
fn restart_drops_a_half_received_message() {
    let mut session = EchoSession::new();
    let _ = session.process_packet(&[10, 0, b'a', b'b']);
    session.restart();
    assert!(is_waiting_at(session.state(), 0));
    let writes = session.process_packet(&frame(b"z"));
    assert_eq!(writes, vec![response(b"z")]);
}

#[test]
fn empty_message_in_midstream_is_answered() {
    let mut stream = frame(b"ab");
    stream.extend(frame(b""));
    stream.extend(frame(b"cd"));
    let mut session = EchoSession::new();
    let writes = session.process_packet(&stream);
    assert_eq!(writes, vec![response(b"ab"), response(b""), response(b"cd")]);
    assert!(is_waiting_at(session.state(), 0));
}

#[test]
fn partial_trailing_message_writes_only_full_packets() {
    let payload = vec![3u8; 200];
    let mut stream = frame(b"x");
    stream.extend(&frame(&payload)[..2 + 120]);
    let mut session = EchoSession::new();
    let writes = session.process_packet(&stream);
    let flat = writes.concat();
    let first = response(b"x");
    assert_eq!(&flat[..first.len()], &first[..]);
    let rest = &flat[first.len()..];
    assert_eq!(rest.len() % 64, 0);
    assert_eq!(rest.len(), 64);
    assert_eq!(rest, &response(&payload)[..64]);
    match session.state() {
        State::StreamingPayload { remaining } => assert_eq!(remaining, 80),
        _ => panic!("expected payload"),
    }
}

#[test]
fn failed_write_waits_for_reconnect() {
    let mut session = EchoSession::new();
    let _ = session.process_packet(&[5, 0, b'a']);
    assert!(matches!(session.on_write_failed(), Reaction::Reconnect));
    match session.state() {
        State::StreamingPayload { remaining } => assert_eq!(remaining, 4),
        _ => panic!("the failure alone does not reset the session"),
    }
    session.restart();
    assert!(is_waiting_at(session.state(), 0));
}
