use vstd::prelude::*;

use crate::errors::ParseError;

verus! {

/// Connection state, ordered: a connection only ever moves forward.
#[allow(non_camel_case_types)]
#[derive(Debug, Copy, Clone, PartialEq, Eq, Structural)]
pub enum State {
    CONNECTING,
    OPEN,
    CLOSING,
    CLOSED,
}

impl State {
    /// The number that stands for the state in the shared atomic cell.
    pub open spec fn rank(self) -> u8 {
        match self {
            State::CONNECTING => 0,
            State::OPEN => 1,
            State::CLOSING => 2,
            State::CLOSED => 3,
        }
    }

    pub fn as_u8(&self) -> (r: u8)
        ensures
            r == self.rank(),
    {
        match self {
            State::CONNECTING => 0,
            State::OPEN => 1,
            State::CLOSING => 2,
            State::CLOSED => 3,
        }
    }

    /// The state that `value` stands for, if any.
    pub fn from_u8(value: u8) -> (r: Option<State>)
        ensures
            r is Some <==> value <= 3,
            r matches Some(s) ==> s.rank() == value,
    {
        match value {
            0 => Some(State::CONNECTING),
            1 => Some(State::OPEN),
            2 => Some(State::CLOSING),
            3 => Some(State::CLOSED),
            _ => None,
        }
    }
}

/// Frame type, the low four bits of a frame's first byte.
#[derive(Debug, Copy, Clone, PartialEq, Eq, Structural)]
pub enum Opcode {
    Continuation,
    Text,
    Binary,
    Close,
    Ping,
    Pong,
}

/// The values of the four opcode bits that name a frame type.
pub open spec fn is_opcode(value: u8) -> bool {
    value == 0x0 || value == 0x1 || value == 0x2 || value == 0x8 || value == 0x9 || value == 0xA
}

/// The frame type whose code is `value`, if any.
pub open spec fn opcode_of(value: u8) -> Option<Opcode> {
    if value == 0x0 {
        Some(Opcode::Continuation)
    } else if value == 0x1 {
        Some(Opcode::Text)
    } else if value == 0x2 {
        Some(Opcode::Binary)
    } else if value == 0x8 {
        Some(Opcode::Close)
    } else if value == 0x9 {
        Some(Opcode::Ping)
    } else if value == 0xA {
        Some(Opcode::Pong)
    } else {
        None
    }
}

impl Opcode {
    pub open spec fn code(self) -> u8 {
        match self {
            Opcode::Continuation => 0x0,
            Opcode::Text => 0x1,
            Opcode::Binary => 0x2,
            Opcode::Close => 0x8,
            Opcode::Ping => 0x9,
            Opcode::Pong => 0xA,
        }
    }

    pub fn as_u8(&self) -> (r: u8)
        ensures
            r == self.code(),
    {
        match self {
            Opcode::Continuation => 0x0,
            Opcode::Text => 0x1,
            Opcode::Binary => 0x2,
            Opcode::Close => 0x8,
            Opcode::Ping => 0x9,
            Opcode::Pong => 0xA,
        }
    }

    /// The frame type whose code is `opcode`; a frame error for a value that
    /// names none.
    pub fn from_u8(opcode: u8) -> (r: Result<Opcode, ParseError>)
        ensures
            r is Ok <==> is_opcode(opcode),
            r matches Ok(o) ==> o.code() == opcode && opcode_of(opcode) == Some(o),
            r matches Err(e) ==> e is FrameError,
    {
        match opcode {
            0x0 => Ok(Opcode::Continuation),
            0x1 => Ok(Opcode::Text),
            0x2 => Ok(Opcode::Binary),
            0x8 => Ok(Opcode::Close),
            0x9 => Ok(Opcode::Ping),
            0xA => Ok(Opcode::Pong),
            _ => Err(ParseError::FrameError(String::from_str("Bad Opcode"))),
        }
    }
}

/// The user callback that an event is dispatched to.
#[derive(Debug, Copy, Clone, PartialEq, Eq, Structural)]
pub enum EventKind {
    OnConnect,
    OnMessage,
    OnClose,
}

} // verus!
