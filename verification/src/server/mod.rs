//! What the relay answers to its clients, and whom it lets in.

pub mod connection;
pub mod delivery;
pub mod door;
pub mod laws;
pub mod model;
pub mod promises;
pub mod reader;
pub mod replies;
