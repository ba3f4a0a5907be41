//! Frames on a stream, and the credentials of the endpoint.

pub mod promises;
pub mod quic;
pub mod tls;
