//! Server-wide metrics: active renders and completed render totals.
use vstd::prelude::*;
use std::sync::Arc;
use std::sync::atomic::{AtomicUsize, Ordering};

verus! {

/// Server metrics tracking active renders and performance.  The counters are
/// shared between threads, so nothing is claimed about the values read back.
#[derive(Debug, Clone)]
pub struct ServerMetrics {
    /// Number of currently active renders
    active_renders: Arc<AtomicUsize>,
    /// Total renders completed
    total_renders: Arc<AtomicUsize>,
    /// Total render duration in milliseconds
    total_render_ms: Arc<AtomicUsize>,
}

impl ServerMetrics {
    /// Create new server metrics.
    pub fn new() -> Self {
        ServerMetrics {
            active_renders: Arc::new(AtomicUsize::new(0)),
            total_renders: Arc::new(AtomicUsize::new(0)),
            total_render_ms: Arc::new(AtomicUsize::new(0)),
        }
    }

    /// Increment active render count.
    pub fn increment_active(&self) {
        self.active_renders.fetch_add(1, Ordering::SeqCst);
    }

    /// Decrement active render count.
    pub fn decrement_active(&self) {
        self.active_renders.fetch_sub(1, Ordering::SeqCst);
    }

    /// Get current active render count.
    pub fn active_count(&self) -> usize {
        self.active_renders.load(Ordering::SeqCst)
    }

    /// Record a completed render.
    pub fn record_render(&self, duration_ms: usize) {
        self.total_renders.fetch_add(1, Ordering::SeqCst);
        self.total_render_ms.fetch_add(duration_ms, Ordering::SeqCst);
    }

    /// Get total renders completed.
    pub fn total_renders(&self) -> usize {
        self.total_renders.load(Ordering::SeqCst)
    }

    /// Get the totals read together: renders completed and their summed
    /// duration in milliseconds.
    pub fn render_totals(&self) -> (usize, usize) {
        let total = self.total_renders.load(Ordering::SeqCst);
        let ms = self.total_render_ms.load(Ordering::SeqCst);
        (total, ms)
    }
}

impl Default for ServerMetrics {
    fn default() -> Self {
        Self::new()
    }
}

} // verus!
