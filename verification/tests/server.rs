use openmc::error::ProtocolError;
use openmc::server::{
    disconnect, dispatch, is_registered, keep_alive, status_response, Action, Outcome, Server,
    KEEP_ALIVE_ID, OFFLINE_IDENTIFIER,
};
use openmc::state::State;

fn handshake_body(next_state: u8) -> Vec<u8> {
    let mut body = vec![0x00, 0x2F, 0x09];
    body.extend_from_slice(b"localhost");
    body.extend_from_slice(&[0xDD, 0x63, next_state]);
    body
}

#[test]
fn handshake_fork() {
    for (asked, phase) in [(1u8, State::STATUS), (2, State::LOGIN), (0, State::LOGIN), (47, State::LOGIN)] {
        let mut server = Server::new();
        let conn = server.add_connection();
        assert_eq!(server.state(conn), Some(State::HANDSHAKE));
        let outcome = server.handle_raw_packet(&handshake_body(asked), conn);
        assert_eq!(outcome, Outcome { next: Some(phase), action: Action::Nothing, replaced: false });
        assert_eq!(server.state(conn), Some(phase));
    }
}

#[test]
fn unknown_packet_is_tolerated_after_the_handshake() {
    for (state, id) in [(State::STATUS, 2u8), (State::STATUS, 0x7F), (State::LOGIN, 1), (State::LOGIN, 3), (State::PLAY, 1), (State::PLAY, 2), (State::PLAY, 0x10)] {
        let outcome = dispatch(state, 0, &[id, 1, 2, 3]);
        assert_eq!(
            outcome,
            Outcome {
                next: Some(state),
                action: Action::Dropped(ProtocolError::UnknownPacket),
                replaced: false
            }
        );
    }
    let mut server = Server::new();
    let conn = server.add_connection();
    server.handle_raw_packet(&handshake_body(1), conn);
    let outcome = server.handle_raw_packet(&[0x05, 0xAA], conn);
    assert_eq!(outcome.action, Action::Dropped(ProtocolError::UnknownPacket));
    assert_eq!(server.state(conn), Some(State::STATUS));
    // the connection goes on
    assert_eq!(server.handle_raw_packet(&[0x00], conn).action, Action::SendStatus);
}

#[test]
fn unknown_packet_during_the_handshake_closes() {
    let mut server = Server::new();
    let conn = server.add_connection();
    let outcome = server.handle_raw_packet(&[0x01, 0x00], conn);
    assert_eq!(
        outcome,
        Outcome {
            next: None,
            action: Action::Close(ProtocolError::ProtocolViolation),
            replaced: false
        }
    );
    assert_eq!(server.state(conn), None);
}

#[test]
fn handshake_that_cannot_be_read_closes() {
    assert_eq!(
        dispatch(State::HANDSHAKE, 0, &[0x00, 0x2F]).action,
        Action::Close(ProtocolError::ProtocolViolation)
    );
    assert_eq!(
        dispatch(State::HANDSHAKE, 0, &[]).action,
        Action::Close(ProtocolError::ProtocolViolation)
    );
    assert_eq!(
        dispatch(State::HANDSHAKE, 0, &[0x00, 0x80, 0x80, 0x80, 0x80, 0x80, 0x80]).action,
        Action::Close(ProtocolError::Malformed)
    );
    let mut long = handshake_body(1);
    long.push(0);
    assert_eq!(
        dispatch(State::HANDSHAKE, 0, &long).action,
        Action::Close(ProtocolError::ProtocolViolation)
    );
}

#[test]
fn handshake_with_an_address_that_is_no_text() {
    let body = [0x00, 0x2F, 0x02, 0xFF, 0xFE, 0xDD, 0x63, 0x01];
    assert_eq!(
        dispatch(State::HANDSHAKE, 0, &body),
        Outcome { next: Some(State::STATUS), action: Action::Nothing, replaced: true }
    );
}

#[test]
fn status_request_and_ping() {
    assert_eq!(
        dispatch(State::STATUS, 3, &[0x00]),
        Outcome { next: Some(State::STATUS), action: Action::SendStatus, replaced: false }
    );
    let ping = [0x01, 1, 2, 3, 4, 5, 6, 7, 8];
    assert_eq!(
        dispatch(State::STATUS, 3, &ping),
        Outcome {
            next: Some(State::STATUS),
            action: Action::Send(vec![vec![0x09, 0x01, 1, 2, 3, 4, 5, 6, 7, 8]]),
            replaced: false
        }
    );
    // a ping of the wrong size breaks the protocol
    assert_eq!(
        dispatch(State::STATUS, 3, &ping[..8]),
        Outcome {
            next: None,
            action: Action::Close(ProtocolError::ProtocolViolation),
            replaced: false
        }
    );
    assert_eq!(
        dispatch(State::STATUS, 3, &[0x00, 0x00]).action,
        Action::Close(ProtocolError::ProtocolViolation)
    );
    // an id that runs on is dropped with its frame
    assert_eq!(
        dispatch(State::STATUS, 3, &[0x80; 7]),
        Outcome {
            next: Some(State::STATUS),
            action: Action::Dropped(ProtocolError::Malformed),
            replaced: false
        }
    );
}

#[test]
fn login_start_is_answered_with_the_join_sequence() {
    let mut server = Server::new();
    server.add_connection();
    server.add_connection();
    let conn = server.add_connection();
    assert_eq!(conn, 2);
    server.handle_raw_packet(&handshake_body(2), conn);
    let outcome = server.handle_raw_packet(&[0x00, 0x03, b'b', b'o', b'b'], conn);
    assert_eq!(outcome.next, Some(State::PLAY));
    assert!(!outcome.replaced);
    assert_eq!(server.state(conn), Some(State::PLAY));
    let frames = match outcome.action {
        Action::Send(frames) => frames,
        other => panic!("expected frames, got {:?}", other),
    };
    assert_eq!(frames.len(), 4);

    let mut success = vec![42, 0x02, 36];
    success.extend_from_slice(b"643147bc-1af0-472e-9acb-19aaa150bd96");
    success.extend_from_slice(&[3, b'b', b'o', b'b']);
    assert_eq!(frames[0], success);

    let mut place = vec![18, 0x01, 2, 0, 0, 0, 1, 0, 0, 255, 7];
    place.extend_from_slice(b"default");
    place.push(0);
    assert_eq!(frames[1], place);

    let mut brand = vec![16, 0x3F, 8];
    brand.extend_from_slice(b"MC|Brand");
    brand.push(5);
    brand.extend_from_slice(b"rapid");
    assert_eq!(frames[2], brand);

    let body = 1 + 1 + 1 + 4 + 16 * 12288 + 256;
    assert_eq!(frames[3].len(), 3 + body);
    // 196871 as a variable-length integer, then the id, the flag and the count
    assert_eq!(&frames[3][..6], &[0x87, 0x82, 0x0C, 0x26, 0x01, 0x01]);
    assert_eq!(&frames[3][6..10], &[0x00, 0x00, 0xFF, 0xFF]);
    assert_eq!(&frames[3][10..14], &[0x20, 0x00, 0x20, 0x00]);
}

#[test]
fn login_with_a_name_that_is_no_text() {
    let outcome = dispatch(State::LOGIN, 0, &[0x00, 0x01, 0xFF]);
    assert_eq!(outcome.next, Some(State::PLAY));
    assert!(outcome.replaced);
    match outcome.action {
        Action::Send(frames) => {
            // the empty name
            assert_eq!(frames[0].len(), 1 + 1 + 37 + 1);
        },
        other => panic!("expected frames, got {:?}", other),
    }
}

#[test]
fn play_accepts_keep_alive_and_movement() {
    for body in [vec![0x00, 0xBB, 0x0D], vec![0x03, 0x01], vec![0x00], vec![0x03]] {
        assert_eq!(
            dispatch(State::PLAY, 1, &body),
            Outcome { next: Some(State::PLAY), action: Action::Nothing, replaced: false }
        );
    }
}

#[test]
fn no_frame_leads_back() {
    let bodies: Vec<Vec<u8>> = vec![
        vec![],
        vec![0x00],
        vec![0x01, 1, 2, 3, 4, 5, 6, 7, 8],
        handshake_body(1),
        handshake_body(2),
        vec![0x00, 0x03, b'b', b'o', b'b'],
        vec![0x03, 0x01],
        vec![0x7F],
    ];
    let stage = |s: State| match s {
        State::HANDSHAKE => 0,
        State::STATUS | State::LOGIN => 1,
        State::PLAY => 2,
    };
    for state in [State::HANDSHAKE, State::STATUS, State::LOGIN, State::PLAY] {
        for body in &bodies {
            if let Some(next) = dispatch(state, 0, body).next {
                assert!(stage(next) >= stage(state));
                assert_ne!(next, State::HANDSHAKE);
            }
        }
    }
}

#[test]
fn connections_keep_their_numbers() {
    let mut server = Server::new();
    assert_eq!(server.open_connections(), Vec::<usize>::new());
    assert_eq!(server.state(0), None);
    let a = server.add_connection();
    let b = server.add_connection();
    let c = server.add_connection();
    assert_eq!((a, b, c), (0, 1, 2));
    assert_eq!(server.open_connections(), vec![0, 1, 2]);
    server.handle_raw_packet(&handshake_body(1), c);
    server.remove_connection(b);
    assert_eq!(server.state(b), None);
    assert_eq!(server.state(a), Some(State::HANDSHAKE));
    assert_eq!(server.state(c), Some(State::STATUS));
    assert_eq!(server.open_connections(), vec![0, 2]);
    let d = server.add_connection();
    assert_eq!(d, 3);
    server.remove_connection(17);
    assert_eq!(server.open_connections(), vec![0, 2, 3]);
}

#[test]
fn frames_of_the_coordinator() {
    assert_eq!(KEEP_ALIVE_ID, 1723);
    assert_eq!(keep_alive(), vec![0x03, 0x00, 0xBB, 0x0D]);
    assert_eq!(status_response("{}"), vec![0x04, 0x00, 0x02, b'{', b'}']);
    let reason = "{\"text\":\"This is a test!\"}";
    let frame = disconnect(reason);
    assert_eq!(frame.len(), 3 + reason.len());
    assert_eq!(&frame[..3], &[(reason.len() + 2) as u8, 0x00, reason.len() as u8]);
    assert_eq!(&frame[3..], reason.as_bytes());
    let name = "anyone".to_string();
    assert_eq!(Server::generate_offline_uuid(&name).value, OFFLINE_IDENTIFIER);
    assert_eq!(
        Server::generate_offline_uuid(&name).to_text(),
        "643147bc-1af0-472e-9acb-19aaa150bd96"
    );
}

#[test]
fn table_of_registered_packets() {
    let known = [
        (State::HANDSHAKE, 0),
        (State::STATUS, 0),
        (State::STATUS, 1),
        (State::LOGIN, 0),
        (State::PLAY, 0),
        (State::PLAY, 3),
    ];
    for state in [State::HANDSHAKE, State::STATUS, State::LOGIN, State::PLAY] {
        for id in -1..8 {
            assert_eq!(is_registered(state, id), known.contains(&(state, id)));
        }
    }
}
