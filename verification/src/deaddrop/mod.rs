//! Envelopes for those who are away.

pub mod laws;
pub mod model;
pub mod promises;
pub mod store;

pub use store::DeadDropStore;
