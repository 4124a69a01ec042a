//! Cache bookkeeping: statistics and the pure parts of the file cache.
pub mod file_cache;
pub mod metrics;

pub use file_cache::{CacheMetadata, FileCache};
pub use metrics::{AtomicCacheMetrics, CacheMetrics};
