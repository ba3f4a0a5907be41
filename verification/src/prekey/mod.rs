//! Bundles of keys for those who want to write to someone who is away.

pub mod laws;
pub mod model;
pub mod promises;
pub mod store;

pub use store::PreKeyStore;
