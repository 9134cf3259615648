//! Client side of the WebSocket protocol: the frame codec, the opening
//! handshake, the connection state machine and the event context handed to
//! user callbacks.
pub mod context;
pub mod enums;
pub mod errors;
pub mod frame;
pub mod handshake;
mod primitives;
pub mod session;
pub mod utils;

pub use context::Context;
pub use errors::WebSocketError;
