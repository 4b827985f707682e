//! A three-segment cache that keeps frequently and recently used sectors.

pub mod model;
pub mod laws;
pub mod lfu;

pub use model::{Buffer, CacheState};
pub use lfu::LfuCache;
