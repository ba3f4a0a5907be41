//! Rate limiting.

pub mod bucket;
pub mod promises;

pub use bucket::TokenBucket;
