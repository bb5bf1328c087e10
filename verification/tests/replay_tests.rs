//! Replay cache and replay engine behavior.

use ouli::replay::cache::{deserialize_response, ReplayCache};
use ouli::replay::engine::ReplayEngine;
use ouli::replay::WarmingStrategy;
use ouli::OuliError;

#[test]
fn test_cache_creation() {
    let cache = ReplayCache::new(WarmingStrategy::Lazy);

    assert_eq!(cache.size(), 0);
    assert_eq!(cache.hit_count(), 0);
    assert_eq!(cache.miss_count(), 0);
}

#[test]
fn test_cache_lookup_miss() {
    let mut cache = ReplayCache::new(WarmingStrategy::Lazy);

    let hash = [1u8; 32];
    assert!(cache.lookup(hash).is_none());
    assert_eq!(cache.miss_count(), 1);
}

#[test]
fn cache_test_cache_clear() {
    let mut cache = ReplayCache::new(WarmingStrategy::Lazy);

    let _ = cache.lookup([1u8; 32]);
    assert_eq!(cache.miss_count(), 1);

    cache.clear();

    assert_eq!(cache.size(), 0);
    assert_eq!(cache.hit_count(), 0);
    assert_eq!(cache.miss_count(), 0);
}

#[test]
fn test_deserialize_response() {
    let mut data = Vec::new();

    // Status: 200
    data.extend_from_slice(&200u16.to_le_bytes());

    // Headers: 1 header
    data.extend_from_slice(&1u16.to_le_bytes());

    // Header name: "Content-Type" (12 bytes)
    data.extend_from_slice(&12u16.to_le_bytes());
    data.extend_from_slice(b"Content-Type");

    // Header value: "text/plain" (10 bytes)
    data.extend_from_slice(&10u16.to_le_bytes());
    data.extend_from_slice(b"text/plain");

    // Body: "Hello" (5 bytes)
    data.extend_from_slice(&5u32.to_le_bytes());
    data.extend_from_slice(b"Hello");

    let response = deserialize_response(&data).unwrap();

    assert_eq!(response.status, 200);
    assert_eq!(response.headers.len(), 1);
    assert_eq!(response.headers[0].0, "Content-Type");
    assert_eq!(response.headers[0].1, "text/plain");
    assert_eq!(response.body, b"Hello");
}

#[test]
fn test_deserialize_response_truncated() {
    assert!(matches!(
        deserialize_response(&[200, 0]),
        Err(OuliError::InvalidFormat(_))
    ));
    // header count says one pair but none follows
    assert!(matches!(
        deserialize_response(&[200, 0, 1, 0]),
        Err(OuliError::InvalidFormat(_))
    ));
}

#[test]
fn test_replay_engine_creation() {
    let engine = ReplayEngine::new(WarmingStrategy::Lazy);

    let stats = engine.cache_stats();
    assert_eq!(stats.hits, 0);
    assert_eq!(stats.misses, 0);
    assert_eq!(stats.size, 0);
}

#[test]
fn test_replay_request_miss() {
    let mut engine = ReplayEngine::new(WarmingStrategy::Lazy);

    let result = engine.replay_request(
        "GET".to_string(),
        "/test".to_string(),
        vec![],
        vec![],
        vec![],
        [0u8; 32],
    );

    assert!(result.is_err());

    let stats = engine.cache_stats();
    assert_eq!(stats.misses, 1);
}

#[test]
fn engine_test_cache_clear() {
    let mut engine = ReplayEngine::new(WarmingStrategy::Lazy);

    // Try a request (will miss)
    let _ = engine.replay_request(
        "GET".to_string(),
        "/test".to_string(),
        vec![],
        vec![],
        vec![],
        [0u8; 32],
    );

    assert_eq!(engine.cache_stats().misses, 1);

    engine.clear_cache();

    assert_eq!(engine.cache_stats().misses, 0);
}

#[test]
fn test_replay_miss_reports_hash() {
    let mut engine = ReplayEngine::new(WarmingStrategy::Lazy);
    let result = engine.replay_request(
        "GET".to_string(),
        "/test".to_string(),
        vec![],
        vec![],
        vec![],
        [0u8; 32],
    );
    match result {
        Err(OuliError::RecordingNotFound(hash)) => {
            assert_ne!(hash, [0u8; 32]);
        }
        other => panic!("expected RecordingNotFound, got ok={}", other.is_ok()),
    }
}

#[test]
fn test_load_recording_rejects_garbage() {
    let mut cache = ReplayCache::new(WarmingStrategy::Lazy);
    let res = cache.load_recording("bad", &[1, 2, 3]);
    assert!(res.is_err());
    assert_eq!(cache.size(), 0);
}
