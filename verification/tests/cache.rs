use openscad_mcp::cache::file_cache::{eviction_order, join, to_hex_lower, CacheMetadata, FileCache};
use openscad_mcp::cache::metrics::{AtomicCacheMetrics, CacheMetrics};
use std::time::{SystemTime, UNIX_EPOCH};

#[test]
fn test_metrics_new() {
    let metrics = CacheMetrics::new();
    assert_eq!(metrics.hits, 0);
    assert_eq!(metrics.misses, 0);
    assert_eq!(metrics.size_bytes, 0);
    assert_eq!(metrics.entry_count, 0);
}

#[test]
fn test_metrics_record_hit() {
    let mut metrics = CacheMetrics::new();
    metrics.record_hit();
    assert_eq!(metrics.hits, 1);
}

#[test]
fn test_metrics_record_miss() {
    let mut metrics = CacheMetrics::new();
    metrics.record_miss();
    assert_eq!(metrics.misses, 1);
}

#[test]
fn test_metrics_reset() {
    let mut metrics = CacheMetrics { hits: 10, misses: 5, size_bytes: 2048, entry_count: 3 };
    metrics.reset();
    assert_eq!(metrics.hits, 0);
    assert_eq!(metrics.misses, 0);
    assert_eq!(metrics.size_bytes, 0);
    assert_eq!(metrics.entry_count, 0);
}

#[test]
fn test_atomic_metrics_new() {
    let metrics = AtomicCacheMetrics::new();
    let snapshot = metrics.snapshot();
    assert_eq!(snapshot.hits, 0);
}

#[test]
fn test_atomic_metrics_record_hit() {
    let metrics = AtomicCacheMetrics::new();
    metrics.record_hit();
    let snapshot = metrics.snapshot();
    assert_eq!(snapshot.hits, 1);
}

#[test]
fn test_atomic_metrics_record_miss() {
    let metrics = AtomicCacheMetrics::new();
    metrics.record_miss();
    let snapshot = metrics.snapshot();
    assert_eq!(snapshot.misses, 1);
}

#[test]
fn test_atomic_metrics_set_size() {
    let metrics = AtomicCacheMetrics::new();
    metrics.set_size(2048);
    let snapshot = metrics.snapshot();
    assert_eq!(snapshot.size_bytes, 2048);
}

#[test]
fn test_atomic_metrics_set_entry_count() {
    let metrics = AtomicCacheMetrics::new();
    metrics.set_entry_count(5);
    let snapshot = metrics.snapshot();
    assert_eq!(snapshot.entry_count, 5);
}

#[test]
fn test_cache_metrics_default() {
    let metrics = CacheMetrics::default();
    assert_eq!(metrics.hits, 0);
}

#[test]
fn metrics_setters_leave_the_counters() {
    let mut metrics = CacheMetrics { hits: 3, misses: 4, size_bytes: 1, entry_count: 2 };
    metrics.set_size(4096);
    metrics.set_entry_count(9);
    assert_eq!((metrics.hits, metrics.misses, metrics.size_bytes, metrics.entry_count), (3, 4, 4096, 9));
}

#[test]
fn atomic_snapshot_after_several_updates() {
    let metrics = AtomicCacheMetrics::default();
    metrics.record_hit();
    metrics.record_hit();
    metrics.record_miss();
    metrics.set_size(10);
    let s = metrics.snapshot();
    assert_eq!((s.hits, s.misses, s.size_bytes, s.entry_count), (2, 1, 10, 0));
}

fn now_secs() -> u64 {
    SystemTime::now().duration_since(UNIX_EPOCH).unwrap().as_secs()
}

#[test]
fn test_cache_metadata_not_expired() {
    let metadata = CacheMetadata {
        created_at: now_secs(),
        ttl_secs: 3600,
        width: 800,
        height: 600,
        quality: "normal".to_string(),
        file_size: 1024,
    };
    assert!(!metadata.is_expired());
}

#[test]
fn test_cache_metadata_no_expiration() {
    let metadata = CacheMetadata {
        created_at: 0,
        ttl_secs: 0,
        width: 800,
        height: 600,
        quality: "normal".to_string(),
        file_size: 1024,
    };
    assert!(!metadata.is_expired());
}

#[test]
fn metadata_expires_after_its_ttl() {
    let metadata = CacheMetadata {
        created_at: 1000,
        ttl_secs: 60,
        width: 1,
        height: 1,
        quality: "draft".to_string(),
        file_size: 0,
    };
    assert!(!metadata.is_expired_at(Some(1060)));
    assert!(metadata.is_expired_at(Some(1061)));
    assert!(metadata.is_expired());
}

#[test]
fn test_compute_key_same_content() {
    let key1 = FileCache::compute_key("cube(10);", "normal", "800,600");
    let key2 = FileCache::compute_key("cube(10);", "normal", "800,600");
    assert_eq!(key1, key2);
}

#[test]
fn test_compute_key_different_content() {
    let key1 = FileCache::compute_key("cube(10);", "normal", "800,600");
    let key2 = FileCache::compute_key("sphere(5);", "normal", "800,600");
    assert_ne!(key1, key2);
}

#[test]
fn test_compute_key_different_quality() {
    let key1 = FileCache::compute_key("cube(10);", "draft", "800,600");
    let key2 = FileCache::compute_key("cube(10);", "high", "800,600");
    assert_ne!(key1, key2);
}

#[test]
fn test_compute_key_different_size() {
    let key1 = FileCache::compute_key("cube(10);", "normal", "800,600");
    let key2 = FileCache::compute_key("cube(10);", "normal", "1024,768");
    assert_ne!(key1, key2);
}

#[test]
fn test_compute_key_is_hex() {
    let key = FileCache::compute_key("test", "normal", "800,600");
    assert!(key.chars().all(|c| c.is_ascii_hexdigit()));
}

#[test]
fn compute_key_is_sha256_of_sorted_json() {
    // SHA-256 of {"content":"test","image_size":"800,600","quality":"normal"}
    let key = FileCache::compute_key("test", "normal", "800,600");
    assert_eq!(key, "81571e1b030befa9eea4247439912ed864c9bcd901a88ff996af61d0752b1c18");
}

#[test]
fn hex_is_two_lowercase_digits_per_byte() {
    assert_eq!(to_hex_lower(&[0x00, 0x0f, 0xa5, 0xff]), "000fa5ff");
    assert_eq!(to_hex_lower(&[]), "");
}

#[test]
fn join_adds_one_separator() {
    assert_eq!(join("/tmp/cache", "key"), "/tmp/cache/key");
    assert_eq!(join("/tmp/cache/", "key"), "/tmp/cache/key");
    assert_eq!(join("", "key"), "key");
    assert_eq!(join("/tmp/cache", "/abs"), "/abs");
}

#[test]
fn cache_paths_and_limits() {
    let cache = FileCache::with_limit("/var/cache/scad".to_string(), 2);
    assert_eq!(cache.cache_dir(), "/var/cache/scad");
    assert_eq!(cache.max_size_mb(), 2);
    assert_eq!(cache.max_bytes(), 2 * 1024 * 1024);
    assert!(cache.within_limit(2 * 1024 * 1024));
    assert!(!cache.within_limit(2 * 1024 * 1024 + 1));
    assert_eq!(cache.entry_path("abc"), "/var/cache/scad/abc");
    assert_eq!(cache.image_path("abc"), "/var/cache/scad/abc/image.png");
    assert_eq!(cache.metadata_path("abc"), "/var/cache/scad/abc/metadata.json");
}

#[test]
fn eviction_takes_least_recently_used_first_and_keeps_ties_in_order() {
    let entries = vec![
        ("a".to_string(), 30),
        ("b".to_string(), 10),
        ("c".to_string(), 30),
        ("d".to_string(), 5),
    ];
    assert_eq!(eviction_order(&entries), vec!["a", "c", "b", "d"]);
}
