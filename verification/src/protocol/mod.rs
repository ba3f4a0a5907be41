//! The wire protocol.

pub mod message;
pub mod promises;

pub use message::{Channel, Message, MessageType, ProtocolError, CHANNEL_SIZE};
