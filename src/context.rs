//! The object handed to user callbacks with each event.
use vstd::prelude::*;

use crate::enums::{EventKind, Opcode};
use crate::errors::{ParseError, WebSocketError};
use crate::frame::Frame;
use crate::primitives::{lossy_utf8_of, utf8_lossy};
use vstd::utf8::{decode_utf8, valid_utf8};

verus! {

pub struct Context {
    /// The callback that the event goes to.
    pub belongs_to: EventKind,
    /// The frame that the event came with, if any.
    pub frame: Option<Frame>,
}

pub open spec fn event_of(frame: Frame) -> EventKind {
    if frame.headers.opcode == Opcode::Close {
        EventKind::OnClose
    } else {
        EventKind::OnMessage
    }
}

impl Context {
    /// The context of a decoded frame: it goes to `on_close` for a Close
    /// frame and to `on_message` for any other.
    pub fn new(frame: Frame) -> (r: Context)
        ensures
            r.frame == Some(frame),
            r.belongs_to == event_of(frame),
    {
        let belongs_to = if frame.headers.opcode == Opcode::Close {
            EventKind::OnClose
        } else {
            EventKind::OnMessage
        };
        Context { belongs_to, frame: Some(frame) }
    }

    /// The payload of a message as text, each invalid UTF-8 sequence replaced
    /// by U+FFFD. Fails for a context that carries no frame or does not
    /// belong to a message.
    pub fn read_text(&self) -> (r: Result<String, WebSocketError>)
        ensures
            r is Ok <==> self.belongs_to == EventKind::OnMessage && self.frame is Some,
            r matches Ok(t) ==> t@ == lossy_utf8_of(self.frame->0.payload_data@),
            r matches Ok(t) ==> (valid_utf8(self.frame->0.payload_data@) ==> t@ == decode_utf8(
                self.frame->0.payload_data@,
            )),
            r matches Err(e) ==> e matches WebSocketError::Parse(
                ParseError::InvalidEventError { .. },
            ),
    {
        match &self.frame {
            Some(f) => {
                if self.belongs_to == EventKind::OnMessage {
                    Ok(utf8_lossy(f.payload_data.as_slice()))
                } else {
                    Err(
                        WebSocketError::Parse(
                            ParseError::InvalidEventError { error_event: event_name(self.belongs_to) },
                        ),
                    )
                }
            },
            None => Err(
                WebSocketError::Parse(
                    ParseError::InvalidEventError { error_event: event_name(self.belongs_to) },
                ),
            ),
        }
    }
}

/// The name of the callback that `kind` goes to.
pub fn event_name(kind: EventKind) -> (r: String)
    ensures
        r@ == match kind {
            EventKind::OnConnect => "on_connect"@,
            EventKind::OnMessage => "on_message"@,
            EventKind::OnClose => "on_close"@,
        },
{
    match kind {
        EventKind::OnConnect => String::from_str("on_connect"),
        EventKind::OnMessage => String::from_str("on_message"),
        EventKind::OnClose => String::from_str("on_close"),
    }
}

} // verus!
