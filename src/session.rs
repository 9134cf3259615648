//! The connection's state machine: what the read loop does with each thing
//! that happens on the connection, which user callback each event goes to,
//! and when outgoing frames may be written.
use vstd::prelude::*;

use crate::enums::{EventKind, Opcode, State};
use crate::errors::{ConnectionError, ParseError, WebSocketError};
use crate::frame::{client_frame_bytes, payload_len_class, Frame, Headers};

verus! {

/// Something that happened on the connection, as the read loop reports it.
#[derive(Debug, Copy, Clone, PartialEq, Eq, Structural)]
pub enum SessionEvent {
    /// The opening handshake succeeded.
    HandshakeDone,
    /// A whole frame of this type was read and decoded.
    FrameArrived(Opcode),
    /// A read, a decode or a write of the read loop failed, or the peer
    /// closed the stream.
    Failed,
    /// The Close frame that answers the peer's Close was written.
    CloseSent,
}

/// What the read loop does next.
#[derive(Debug, Clone, PartialEq, Eq)]
pub enum SessionAction {
    Nothing,
    /// Hand the event to its user callback.
    Dispatch(EventKind),
    /// Write a Close frame in answer, then hand the event to `on_close`.
    ReplyClose,
    /// Stop: the connection is not open for reading.
    Fail(WebSocketError),
}

pub open spec fn next_state(s: State, event: SessionEvent) -> State {
    match event {
        SessionEvent::HandshakeDone => if s == State::CONNECTING {
            State::OPEN
        } else {
            s
        },
        SessionEvent::FrameArrived(op) => if s == State::OPEN && op == Opcode::Close {
            State::CLOSING
        } else {
            s
        },
        SessionEvent::Failed => State::CLOSED,
        SessionEvent::CloseSent => if s == State::CLOSING {
            State::CLOSED
        } else {
            s
        },
    }
}

/// The user callback that `event` is dispatched to, in state `s`.
pub open spec fn dispatched(s: State, event: SessionEvent) -> Option<EventKind> {
    match event {
        SessionEvent::HandshakeDone => if s == State::CONNECTING {
            Some(EventKind::OnConnect)
        } else {
            None
        },
        SessionEvent::FrameArrived(op) => if s != State::OPEN {
            None
        } else if op == Opcode::Close {
            Some(EventKind::OnClose)
        } else {
            Some(EventKind::OnMessage)
        },
        _ => None,
    }
}

pub open spec fn as_seq(e: Option<EventKind>) -> Seq<EventKind> {
    match e {
        Some(k) => seq![k],
        None => Seq::empty(),
    }
}

/// The state after `events`, starting in `s`.
pub open spec fn run_states(s: State, events: Seq<SessionEvent>) -> State
    decreases events.len(),
{
    if events.len() == 0 {
        s
    } else {
        next_state(run_states(s, events.drop_last()), events.last())
    }
}

/// The callbacks dispatched for `events`, in order, starting in `s`.
pub open spec fn run_dispatches(s: State, events: Seq<SessionEvent>) -> Seq<EventKind>
    decreases events.len(),
{
    if events.len() == 0 {
        Seq::empty()
    } else {
        run_dispatches(s, events.drop_last()) + as_seq(
            dispatched(run_states(s, events.drop_last()), events.last()),
        )
    }
}

/// `on_connect` comes first and only once; `on_close` comes last, if at all.
pub open spec fn well_ordered(t: Seq<EventKind>) -> bool {
    &&& t.len() > 0 ==> t[0] == EventKind::OnConnect
    &&& forall|i: int| 0 < i < t.len() ==> #[trigger] t[i] != EventKind::OnConnect
    &&& forall|i: int| 0 <= i < t.len() - 1 ==> #[trigger] t[i] != EventKind::OnClose
}

/// What holds of a state and of the callbacks dispatched to reach it.
pub open spec fn session_inv(s: State, t: Seq<EventKind>) -> bool {
    &&& well_ordered(t)
    &&& s == State::CONNECTING ==> t.len() == 0
    &&& s == State::OPEN ==> t.len() > 0 && t.last() != EventKind::OnClose
    &&& t.len() > 0 && t.last() == EventKind::OnClose ==> s == State::CLOSING || s
        == State::CLOSED
}

/// The text of the read error in state `s`, which is not OPEN.
pub open spec fn read_error_text(s: State) -> Seq<char> {
    if s == State::CLOSED {
        "Connection is Closed"@
    } else {
        "Unknown State"@
    }
}

/// `e` is a read error with the text `text`.
pub open spec fn is_read_error(e: WebSocketError, text: Seq<char>) -> bool {
    e matches WebSocketError::Stream(ConnectionError::ReadError(m)) && m@ == text
}

/// `r` is a write error with the text `text`.
pub open spec fn is_write_error(r: Result<Vec<u8>, WebSocketError>, text: Seq<char>) -> bool {
    r matches Err(WebSocketError::Stream(ConnectionError::WriteError(m))) && m@ == text
}

/// The state of a connection, with the callbacks it has dispatched so far.
pub struct Session {
    pub state: State,
    pub events: Ghost<Seq<EventKind>>,
}

impl Session {
    pub open spec fn wf(self) -> bool {
        session_inv(self.state, self.events@)
    }

    /// A connection whose handshake is still to come.
    pub fn new() -> (r: Session)
        ensures
            r.state == State::CONNECTING,
            r.events@ == Seq::<EventKind>::empty(),
            r.wf(),
    {
        Session { state: State::CONNECTING, events: Ghost(Seq::empty()) }
    }

    /// Checks, before each read, that the connection is open: a read error
    /// otherwise, that says whether it is closed.
    pub fn read_gate(&self) -> (r: Result<(), WebSocketError>)
        ensures
            r is Ok <==> self.state == State::OPEN,
            r matches Err(e) ==> is_read_error(e, read_error_text(self.state)),
    {
        match self.state {
            State::OPEN => Ok(()),
            State::CLOSED => Err(
                WebSocketError::Stream(
                    ConnectionError::ReadError(String::from_str("Connection is Closed")),
                ),
            ),
            _ => Err(
                WebSocketError::Stream(ConnectionError::ReadError(String::from_str("Unknown State"))),
            ),
        }
    }

    /// Moves the connection on by `event` and says what the read loop does next.
    pub fn handle(&mut self, event: SessionEvent) -> (r: SessionAction)
        requires
            old(self).wf(),
        ensures
            final(self).wf(),
            final(self).state == next_state(old(self).state, event),
            final(self).events@ == old(self).events@ + as_seq(dispatched(old(self).state, event)),
            dispatched(old(self).state, event) matches Some(k) ==> if k == EventKind::OnClose {
                r == SessionAction::ReplyClose
            } else {
                r == SessionAction::Dispatch(k)
            },
            (event is FrameArrived && old(self).state != State::OPEN) <==> r is Fail,
            r matches SessionAction::Fail(e) ==> is_read_error(e, read_error_text(old(self).state)),
            (dispatched(old(self).state, event) is None && !(event is FrameArrived)) ==> r
                == SessionAction::Nothing,
    {
        let ghost t = self.events@;
        match event {
            SessionEvent::HandshakeDone => {
                if self.state == State::CONNECTING {
                    self.state = State::OPEN;
                    self.events = Ghost(t.push(EventKind::OnConnect));
                    assert(self.events@ =~= seq![EventKind::OnConnect]);
                    SessionAction::Dispatch(EventKind::OnConnect)
                } else {
                    proof {
                        assert(t + as_seq(None) =~= t);
                    }
                    SessionAction::Nothing
                }
            },
            SessionEvent::FrameArrived(op) => {
                if self.state != State::OPEN {
                    proof {
                        assert(t + as_seq(None) =~= t);
                    }
                    match self.read_gate() {
                        Err(e) => SessionAction::Fail(e),
                        Ok(()) => SessionAction::Nothing,
                    }
                } else if op == Opcode::Close {
                    self.state = State::CLOSING;
                    self.events = Ghost(t.push(EventKind::OnClose));
                    assert(t + as_seq(Some(EventKind::OnClose)) =~= t.push(EventKind::OnClose));
                    SessionAction::ReplyClose
                } else {
                    self.events = Ghost(t.push(EventKind::OnMessage));
                    assert(t + as_seq(Some(EventKind::OnMessage)) =~= t.push(
                        EventKind::OnMessage,
                    ));
                    SessionAction::Dispatch(EventKind::OnMessage)
                }
            },
            SessionEvent::Failed => {
                self.state = State::CLOSED;
                proof {
                    assert(t + as_seq(None) =~= t);
                }
                SessionAction::Nothing
            },
            SessionEvent::CloseSent => {
                if self.state == State::CLOSING {
                    self.state = State::CLOSED;
                }
                proof {
                    assert(t + as_seq(None) =~= t);
                }
                SessionAction::Nothing
            },
        }
    }
}

/// The bytes to write for `frame` while the connection is in the state that
/// `state` stands for: its client encoding in OPEN and CLOSING, a write error
/// in any other state. A frame whose 7-bit length does not fit seven bits is
/// refused. `frame` is masked in place when it is encoded, and left as it is
/// otherwise.
pub fn prepare_write(state: u8, frame: &mut Frame) -> (r: Result<Vec<u8>, WebSocketError>)
    ensures
        r is Ok <==> (state == 1 || state == 2) && old(frame).headers.payload_len < 128,
        r matches Ok(bytes) ==> exists|key: u32|
            bytes@ == client_frame_bytes(old(frame).headers, old(frame).payload_data@, key),
        state == 3 ==> is_write_error(r, "Connection is Closed"@),
        (state == 0 || state > 3) ==> is_write_error(r, "Unknown State"@),
        (state == 1 || state == 2) && old(frame).headers.payload_len >= 128 ==> r matches Err(
            WebSocketError::Parse(ParseError::FrameError(_)),
        ),
        r is Err ==> *final(frame) == *old(frame),
{
    match State::from_u8(state) {
        Some(State::OPEN) | Some(State::CLOSING) => {
            if frame.headers.payload_len >= 128 {
                return Err(
                    WebSocketError::Parse(
                        ParseError::FrameError(String::from_str("Bad payload length")),
                    ),
                );
            }
            Ok(frame.encode())
        },
        Some(State::CLOSED) => Err(
            WebSocketError::Stream(ConnectionError::WriteError(String::from_str("Connection is Closed"))),
        ),
        _ => Err(
            WebSocketError::Stream(ConnectionError::WriteError(String::from_str("Unknown State"))),
        ),
    }
}

/// The bytes to write for a text message `msg` while the connection is in
/// the state that `state` stands for: a final, masked Text frame in OPEN and
/// CLOSING, a write error in any other state.
pub fn prepare_write_text(state: u8, msg: &[u8]) -> (r: Result<Vec<u8>, WebSocketError>)
    ensures
        r is Ok <==> state == 1 || state == 2,
        r matches Ok(bytes) ==> exists|key: u32|
            bytes@ == client_frame_bytes(
                Headers::defaults(
                    Opcode::Text,
                    payload_len_class(msg@.len()).0,
                    payload_len_class(msg@.len()).1,
                ),
                msg@,
                key,
            ),
        state == 3 ==> is_write_error(r, "Connection is Closed"@),
        (state == 0 || state > 3) ==> is_write_error(r, "Unknown State"@),
{
    let mut frame = Frame::set_defaults(Opcode::Text, msg);
    prepare_write(state, &mut frame)
}

/// The body of the Close frame sent in answer to the peer's Close: the ASCII
/// digits "1000".
pub fn close_payload() -> (r: Vec<u8>)
    ensures
        r@ == seq![0x31u8, 0x30u8, 0x30u8, 0x30u8],
{
    let mut v: Vec<u8> = Vec::new();
    v.push(0x31);
    v.push(0x30);
    v.push(0x30);
    v.push(0x30);
    assert(v@ =~= seq![0x31u8, 0x30u8, 0x30u8, 0x30u8]);
    v
}

/// The Close frame sent in answer to the peer's Close.
pub fn close_frame() -> (r: Frame)
    ensures
        r.headers == Headers::defaults(Opcode::Close, 4, 0),
        r.payload_data@ == seq![0x31u8, 0x30u8, 0x30u8, 0x30u8],
{
    let body = close_payload();
    Frame::set_defaults(Opcode::Close, body.as_slice())
}

/// Once the connection has left a state it never comes back to it: the
/// state only moves forward, whatever happens.
pub proof fn lemma_state_monotonic(s: State, events: Seq<SessionEvent>)
    ensures
        run_states(s, events).rank() >= s.rank(),
    decreases events.len(),
{
    if events.len() > 0 {
        lemma_state_monotonic(s, events.drop_last());
    }
}

/// A closed connection stays closed: it is never OPEN again.
pub proof fn lemma_closed_is_final(events: Seq<SessionEvent>)
    ensures
        run_states(State::CLOSED, events) == State::CLOSED,
{
    lemma_state_monotonic(State::CLOSED, events);
}

/// Whatever happens on a new connection, `on_connect` is dispatched once,
/// before any other callback, and `on_close`, if dispatched, is the last.
pub proof fn lemma_dispatch_order(events: Seq<SessionEvent>)
    ensures
        well_ordered(run_dispatches(State::CONNECTING, events)),
{
    lemma_session_inv(events);
}

proof fn lemma_session_inv(events: Seq<SessionEvent>)
    ensures
        session_inv(
            run_states(State::CONNECTING, events),
            run_dispatches(State::CONNECTING, events),
        ),
    decreases events.len(),
{
    if events.len() > 0 {
        let prev = events.drop_last();
        lemma_session_inv(prev);
        let s = run_states(State::CONNECTING, prev);
        let t = run_dispatches(State::CONNECTING, prev);
        let e = events.last();
        let t2 = t + as_seq(dispatched(s, e));
        assert(run_dispatches(State::CONNECTING, events) == t2);
        match dispatched(s, e) {
            Some(k) => {
                assert(t2 =~= t.push(k));
                if k == EventKind::OnConnect {
                    assert(t.len() == 0);
                }
            },
            None => {
                assert(t2 =~= t);
            },
        }
    }
}

} // verus!
