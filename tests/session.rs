use mayuri::enums::{EventKind, Opcode, State};
use mayuri::errors::{ConnectionError, WebSocketError};
use mayuri::frame::Frame;
use mayuri::session::{
    close_frame, close_payload, prepare_write, prepare_write_text, Session, SessionAction,
    SessionEvent,
};

fn read_error_text(r: Result<(), WebSocketError>) -> String {
    match r {
        Err(WebSocketError::Stream(ConnectionError::ReadError(m))) => m,
        other => panic!("expected a read error, got {other:?}"),
    }
}

fn write_error_text(r: Result<Vec<u8>, WebSocketError>) -> String {
    match r {
        Err(WebSocketError::Stream(ConnectionError::WriteError(m))) => m,
        other => panic!("expected a write error, got {other:?}"),
    }
}

#[test]
fn state_numbers() {
    let all = [State::CONNECTING, State::OPEN, State::CLOSING, State::CLOSED];
    for (i, s) in all.iter().enumerate() {
        assert_eq!(s.as_u8(), i as u8);
        assert_eq!(State::from_u8(i as u8), Some(*s));
    }
    assert_eq!(State::from_u8(4), None);
}

#[test]
fn handshake_opens_and_dispatches_on_connect_once() {
    let mut s = Session::new();
    assert_eq!(s.state, State::CONNECTING);
    assert!(s.read_gate().is_err());
    assert_eq!(s.handle(SessionEvent::HandshakeDone), SessionAction::Dispatch(EventKind::OnConnect));
    assert_eq!(s.state, State::OPEN);
    assert!(s.read_gate().is_ok());
    assert_eq!(s.handle(SessionEvent::HandshakeDone), SessionAction::Nothing);
    assert_eq!(s.state, State::OPEN);
}

#[test]
fn message_frames_go_to_on_message() {
    let mut s = Session::new();
    s.handle(SessionEvent::HandshakeDone);
    for op in [Opcode::Text, Opcode::Binary, Opcode::Ping, Opcode::Pong, Opcode::Continuation] {
        assert_eq!(
            s.handle(SessionEvent::FrameArrived(op)),
            SessionAction::Dispatch(EventKind::OnMessage)
        );
        assert_eq!(s.state, State::OPEN);
    }
}

#[test]
fn peer_close_is_answered_then_closed() {
    let mut s = Session::new();
    s.handle(SessionEvent::HandshakeDone);
    assert_eq!(s.handle(SessionEvent::FrameArrived(Opcode::Close)), SessionAction::ReplyClose);
    assert_eq!(s.state, State::CLOSING);
    let mut echo = close_frame();
    let bytes = prepare_write(s.state.as_u8(), &mut echo).unwrap();
    assert_eq!(bytes[0], 0x88);
    assert_eq!(bytes[1], 0x84);
    assert_eq!(bytes.len(), 10);
    let key = &bytes[2..6];
    let body: Vec<u8> = (0..4).map(|i| bytes[6 + i] ^ key[i % 4]).collect();
    assert_eq!(body, b"1000".to_vec());
    assert_eq!(s.handle(SessionEvent::CloseSent), SessionAction::Nothing);
    assert_eq!(s.state, State::CLOSED);
    assert_eq!(read_error_text(s.read_gate()), "Connection is Closed");
}

#[test]
fn close_echo_body_is_ascii_digits_not_status_code() {
    assert_eq!(close_payload(), b"1000".to_vec());
    assert_ne!(close_payload(), vec![0x03, 0xE8]);
    let f = close_frame();
    assert_eq!(f.headers.opcode, Opcode::Close);
    assert_eq!(f.payload_data, b"1000".to_vec());
}

#[test]
fn failure_closes_and_later_writes_fail() {
    let mut s = Session::new();
    s.handle(SessionEvent::HandshakeDone);
    assert_eq!(s.handle(SessionEvent::Failed), SessionAction::Nothing);
    assert_eq!(s.state, State::CLOSED);
    assert_eq!(read_error_text(s.read_gate()), "Connection is Closed");
    assert_eq!(write_error_text(prepare_write_text(s.state.as_u8(), b"hi")), "Connection is Closed");
}

#[test]
fn closed_never_opens_again() {
    let mut s = Session::new();
    s.handle(SessionEvent::Failed);
    let events = [
        SessionEvent::HandshakeDone,
        SessionEvent::FrameArrived(Opcode::Text),
        SessionEvent::CloseSent,
        SessionEvent::FrameArrived(Opcode::Close),
        SessionEvent::Failed,
    ];
    for e in events {
        s.handle(e);
        assert_eq!(s.state, State::CLOSED);
    }
}

#[test]
fn states_only_move_forward() {
    let events = [
        SessionEvent::FrameArrived(Opcode::Text),
        SessionEvent::HandshakeDone,
        SessionEvent::FrameArrived(Opcode::Text),
        SessionEvent::HandshakeDone,
        SessionEvent::FrameArrived(Opcode::Close),
        SessionEvent::FrameArrived(Opcode::Text),
        SessionEvent::CloseSent,
        SessionEvent::HandshakeDone,
    ];
    let mut s = Session::new();
    let mut last = s.state.as_u8();
    for e in events {
        s.handle(e);
        assert!(s.state.as_u8() >= last);
        last = s.state.as_u8();
    }
    assert_eq!(s.state, State::CLOSED);
}

#[test]
fn callbacks_come_in_order() {
    let events = [
        SessionEvent::FrameArrived(Opcode::Text),
        SessionEvent::HandshakeDone,
        SessionEvent::FrameArrived(Opcode::Text),
        SessionEvent::HandshakeDone,
        SessionEvent::FrameArrived(Opcode::Binary),
        SessionEvent::FrameArrived(Opcode::Close),
        SessionEvent::FrameArrived(Opcode::Text),
        SessionEvent::FrameArrived(Opcode::Close),
        SessionEvent::CloseSent,
    ];
    let mut s = Session::new();
    let mut dispatched = Vec::new();
    for e in events {
        match s.handle(e) {
            SessionAction::Dispatch(k) => dispatched.push(k),
            SessionAction::ReplyClose => dispatched.push(EventKind::OnClose),
            _ => {}
        }
    }
    assert_eq!(
        dispatched,
        vec![
            EventKind::OnConnect,
            EventKind::OnMessage,
            EventKind::OnMessage,
            EventKind::OnClose
        ]
    );
}

#[test]
fn frames_outside_open_state_are_refused() {
    let mut s = Session::new();
    match s.handle(SessionEvent::FrameArrived(Opcode::Text)) {
        SessionAction::Fail(WebSocketError::Stream(ConnectionError::ReadError(m))) => {
            assert_eq!(m, "Unknown State")
        }
        other => panic!("unexpected {other:?}"),
    }
    s.handle(SessionEvent::HandshakeDone);
    s.handle(SessionEvent::FrameArrived(Opcode::Close));
    assert_eq!(read_error_text(s.read_gate()), "Unknown State");
}

#[test]
fn write_text_in_open_state_is_masked_text_frame() {
    let bytes = prepare_write_text(State::OPEN.as_u8(), b"hi").unwrap();
    assert_eq!(bytes.len(), 8);
    assert_eq!(bytes[0], 0x81);
    assert_eq!(bytes[1], 0x82);
    assert_eq!(bytes[6] ^ bytes[2], b'h');
    assert_eq!(bytes[7] ^ bytes[3], b'i');
}

#[test]
fn write_text_depends_on_state_only() {
    assert!(prepare_write_text(1, b"x").is_ok());
    assert!(prepare_write_text(2, b"x").is_ok());
    assert_eq!(write_error_text(prepare_write_text(3, b"x")), "Connection is Closed");
    assert_eq!(write_error_text(prepare_write_text(0, b"x")), "Unknown State");
    assert_eq!(write_error_text(prepare_write_text(4, b"x")), "Unknown State");
    assert_eq!(write_error_text(prepare_write_text(200, b"x")), "Unknown State");
}

#[test]
fn refused_write_leaves_frame_unmasked() {
    let mut f = Frame::set_defaults(Opcode::Text, b"abc");
    assert!(prepare_write(3, &mut f).is_err());
    assert_eq!(f.payload_data, b"abc".to_vec());
    f.headers.payload_len = 200;
    assert!(matches!(
        prepare_write(1, &mut f),
        Err(WebSocketError::Parse(mayuri::errors::ParseError::FrameError(_)))
    ));
}
