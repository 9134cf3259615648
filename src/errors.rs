use vstd::prelude::*;

verus! {

#[derive(Debug, Clone, PartialEq, Eq)]
pub enum HandshakeFailureError {
    /// The status line or a required header of the server's answer is wrong.
    HeaderError(String),
    /// The server's `Sec-WebSocket-Accept` does not answer the key that was sent.
    ValidationError,
}

#[derive(Debug, Clone, PartialEq, Eq)]
pub enum URIError {
    IncompleteURIError(String),
    MalformedURIError(String),
    DNSError(String),
    BadPortError(String),
}

#[derive(Debug, Clone, PartialEq, Eq)]
pub enum ConnectionError {
    ReadError(String),
    WriteError(String),
    ConnectorError(String),
}

#[derive(Debug, Clone, PartialEq, Eq)]
pub enum ParseError {
    Utf8Error(String),
    FrameError(String),
    InvalidEventError { error_event: String },
}

#[derive(Debug, Clone, PartialEq, Eq)]
pub enum WebSocketError {
    Handshake(HandshakeFailureError),
    Uri(URIError),
    Stream(ConnectionError),
    Parse(ParseError),
    /// A failure of the underlying byte stream, with its description.
    Io(String),
}

} // verus!
