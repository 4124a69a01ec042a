//! Cache metrics and statistics: hits, misses, size, entry count.
use vstd::prelude::*;
use std::sync::Arc;
use std::sync::atomic::{AtomicU64, Ordering};

verus! {

/// Cache performance metrics.
#[derive(Debug, Clone)]
pub struct CacheMetrics {
    /// Number of cache hits
    pub hits: u64,
    /// Number of cache misses
    pub misses: u64,
    /// Current cache size in bytes
    pub size_bytes: u64,
    /// Number of entries in cache
    pub entry_count: u64,
}

impl CacheMetrics {
    /// Create new metrics, all zero.
    pub fn new() -> (m: Self)
        ensures
            m.hits == 0 && m.misses == 0 && m.size_bytes == 0 && m.entry_count == 0,
    {
        CacheMetrics { hits: 0, misses: 0, size_bytes: 0, entry_count: 0 }
    }

    /// Record a cache hit.
    pub fn record_hit(&mut self)
        requires
            old(self).hits < u64::MAX,
        ensures
            *final(self) == (CacheMetrics { hits: (old(self).hits + 1) as u64, ..*old(self) }),
    {
        self.hits = self.hits + 1;
    }

    /// Record a cache miss.
    pub fn record_miss(&mut self)
        requires
            old(self).misses < u64::MAX,
        ensures
            *final(self) == (CacheMetrics { misses: (old(self).misses + 1) as u64, ..*old(self) }),
    {
        self.misses = self.misses + 1;
    }

    /// Update cache size.
    pub fn set_size(&mut self, size_bytes: u64)
        ensures
            *final(self) == (CacheMetrics { size_bytes, ..*old(self) }),
    {
        self.size_bytes = size_bytes;
    }

    /// Update entry count.
    pub fn set_entry_count(&mut self, count: u64)
        ensures
            *final(self) == (CacheMetrics { entry_count: count, ..*old(self) }),
    {
        self.entry_count = count;
    }

    /// Reset all metrics.
    pub fn reset(&mut self)
        ensures
            final(self).hits == 0 && final(self).misses == 0 && final(self).size_bytes == 0
                && final(self).entry_count == 0,
    {
        self.hits = 0;
        self.misses = 0;
        self.size_bytes = 0;
        self.entry_count = 0;
    }
}

impl Default for CacheMetrics {
    fn default() -> (m: Self)
        ensures
            m.hits == 0 && m.misses == 0 && m.size_bytes == 0 && m.entry_count == 0,
    {
        Self::new()
    }
}

/// Thread-safe cache metrics.  Other threads may update the counters at any
/// time, so nothing is claimed about the values a snapshot reads.
pub struct AtomicCacheMetrics {
    hits: Arc<AtomicU64>,
    misses: Arc<AtomicU64>,
    size_bytes: Arc<AtomicU64>,
    entry_count: Arc<AtomicU64>,
}

impl AtomicCacheMetrics {
    /// Create new atomic metrics, all zero.
    pub fn new() -> Self {
        AtomicCacheMetrics {
            hits: Arc::new(AtomicU64::new(0)),
            misses: Arc::new(AtomicU64::new(0)),
            size_bytes: Arc::new(AtomicU64::new(0)),
            entry_count: Arc::new(AtomicU64::new(0)),
        }
    }

    /// Record a hit.
    pub fn record_hit(&self) {
        self.hits.fetch_add(1, Ordering::Relaxed);
    }

    /// Record a miss.
    pub fn record_miss(&self) {
        self.misses.fetch_add(1, Ordering::Relaxed);
    }

    /// Update size.
    pub fn set_size(&self, size: u64) {
        self.size_bytes.store(size, Ordering::Relaxed);
    }

    /// Update entry count.
    pub fn set_entry_count(&self, count: u64) {
        self.entry_count.store(count, Ordering::Relaxed);
    }

    /// Get snapshot of metrics.
    pub fn snapshot(&self) -> CacheMetrics {
        CacheMetrics {
            hits: self.hits.load(Ordering::Relaxed),
            misses: self.misses.load(Ordering::Relaxed),
            size_bytes: self.size_bytes.load(Ordering::Relaxed),
            entry_count: self.entry_count.load(Ordering::Relaxed),
        }
    }
}

impl Default for AtomicCacheMetrics {
    fn default() -> Self {
        Self::new()
    }
}

} // verus!
