//! The logic of a zero-knowledge message relay, verified.

pub mod auth;
pub mod bytes;
pub mod clock;
pub mod config;
pub mod deaddrop;
pub mod prekey;
pub mod protocol;
pub mod ratelimit;
pub mod router;
pub mod server;
pub mod sums;
mod table;
pub mod transport;
