//! Fingerprinting behavior: determinism, canonicalization, chaining, and
//! the documented chain-head constant.

use ouli::fingerprint::{
    fingerprint_request, normalize_path, verify_chain_head, Request, RequestChain,
    CHAIN_HEAD_HASH,
};

fn test_request() -> Request {
    Request {
        method: "GET".to_string(),
        path: "/api/test".to_string(),
        query: vec![],
        headers: vec![],
        body: vec![],
    }
}

#[test]
fn test_fingerprint_deterministic() {
    let request = test_request();
    let hash1 = fingerprint_request(&request, CHAIN_HEAD_HASH);
    let hash2 = fingerprint_request(&request, CHAIN_HEAD_HASH);

    assert_eq!(hash1, hash2, "Fingerprint must be deterministic");
}

#[test]
fn test_fingerprint_different_methods() {
    let mut req1 = test_request();
    req1.method = "GET".to_string();

    let mut req2 = test_request();
    req2.method = "POST".to_string();

    let hash1 = fingerprint_request(&req1, CHAIN_HEAD_HASH);
    let hash2 = fingerprint_request(&req2, CHAIN_HEAD_HASH);

    assert_ne!(
        hash1, hash2,
        "Different methods should produce different hashes"
    );
}

#[test]
fn test_fingerprint_different_paths() {
    let mut req1 = test_request();
    req1.path = "/api/v1".to_string();

    let mut req2 = test_request();
    req2.path = "/api/v2".to_string();

    let hash1 = fingerprint_request(&req1, CHAIN_HEAD_HASH);
    let hash2 = fingerprint_request(&req2, CHAIN_HEAD_HASH);

    assert_ne!(
        hash1, hash2,
        "Different paths should produce different hashes"
    );
}

#[test]
fn test_header_order_independence() {
    let mut req1 = test_request();
    req1.headers = vec![
        ("Content-Type".to_string(), "application/json".to_string()),
        ("Accept".to_string(), "application/json".to_string()),
    ];

    let mut req2 = test_request();
    req2.headers = vec![
        ("Accept".to_string(), "application/json".to_string()),
        ("Content-Type".to_string(), "application/json".to_string()),
    ];

    let hash1 = fingerprint_request(&req1, CHAIN_HEAD_HASH);
    let hash2 = fingerprint_request(&req2, CHAIN_HEAD_HASH);

    assert_eq!(hash1, hash2, "Header order should not affect fingerprint");
}

#[test]
fn test_header_case_insensitivity() {
    let mut req1 = test_request();
    req1.headers = vec![("Content-Type".to_string(), "application/json".to_string())];

    let mut req2 = test_request();
    req2.headers = vec![("content-type".to_string(), "application/json".to_string())];

    let hash1 = fingerprint_request(&req1, CHAIN_HEAD_HASH);
    let hash2 = fingerprint_request(&req2, CHAIN_HEAD_HASH);

    assert_eq!(hash1, hash2, "Header names should be case-insensitive");
}

#[test]
fn test_query_order_independence() {
    let mut req1 = test_request();
    req1.query = vec![
        ("b".to_string(), "2".to_string()),
        ("a".to_string(), "1".to_string()),
    ];

    let mut req2 = test_request();
    req2.query = vec![
        ("a".to_string(), "1".to_string()),
        ("b".to_string(), "2".to_string()),
    ];

    let hash1 = fingerprint_request(&req1, CHAIN_HEAD_HASH);
    let hash2 = fingerprint_request(&req2, CHAIN_HEAD_HASH);

    assert_eq!(
        hash1, hash2,
        "Query parameter order should not affect fingerprint"
    );
}

#[test]
fn test_request_chain() {
    let mut chain = RequestChain::new();

    let req1 = test_request();
    let hash1 = chain.process_request(&req1);

    let req2 = test_request();
    let hash2 = chain.process_request(&req2);

    // Same request should have different hashes due to chain
    assert_ne!(hash1, hash2, "Chain should link requests");

    // Previous hash should be the first request's hash
    assert_eq!(chain.previous_hash(), hash2);
}

#[test]
fn test_chain_reset() {
    let mut chain = RequestChain::new();

    let req = test_request();
    let hash1 = chain.process_request(&req);

    chain.reset();

    let hash2 = chain.process_request(&req);

    // After reset, same request should produce same hash
    assert_eq!(hash1, hash2, "Reset should restart chain");
}

#[test]
fn test_path_normalization() {
    assert_eq!(normalize_path("/api/test"), "/api/test");
    assert_eq!(normalize_path("api/test"), "/api/test");
    assert_eq!(normalize_path("  /api/test  "), "/api/test");
    assert_eq!(normalize_path(""), "/");
}

#[test]
fn test_chain_head_constant() {
    // the chain head equals the documented constant, byte for byte
    let documented: [u8; 32] = [
        0xb4, 0xd6, 0xe6, 0x0a, 0x9b, 0x97, 0xe7, 0xb9, 0x8c, 0x63, 0xdf, 0x93, 0x08, 0x72,
        0x8c, 0x5c, 0x88, 0xc0, 0xb4, 0x0c, 0x39, 0x80, 0x46, 0x77, 0x2c, 0x63, 0x44, 0x7b,
        0x94, 0x60, 0x8b, 0x4d,
    ];
    assert_eq!(CHAIN_HEAD_HASH, documented);

    // the documented seed is not itself the SHA-256 of the canonical empty
    // request; the startup check reports that faithfully
    assert!(!verify_chain_head());

    // the recomputation is deterministic
    let empty = Request {
        method: String::new(),
        path: String::new(),
        query: vec![],
        headers: vec![],
        body: vec![],
    };
    let h1 = fingerprint_request(&empty, [0u8; 32]);
    let h2 = fingerprint_request(&empty, [0u8; 32]);
    assert_eq!(h1, h2);
}

#[test]
fn test_method_case_insensitivity() {
    let mut req1 = test_request();
    req1.method = "get".to_string();

    let mut req2 = test_request();
    req2.method = "GET".to_string();

    let hash1 = fingerprint_request(&req1, CHAIN_HEAD_HASH);
    let hash2 = fingerprint_request(&req2, CHAIN_HEAD_HASH);

    assert_eq!(hash1, hash2, "Method case should not affect fingerprint");
}

#[test]
fn test_header_value_trimming() {
    let mut req1 = test_request();
    req1.headers = vec![("Accept".to_string(), "  text/plain  ".to_string())];

    let mut req2 = test_request();
    req2.headers = vec![("Accept".to_string(), "text/plain".to_string())];

    let hash1 = fingerprint_request(&req1, CHAIN_HEAD_HASH);
    let hash2 = fingerprint_request(&req2, CHAIN_HEAD_HASH);

    assert_eq!(hash1, hash2, "Header values are trimmed before hashing");
}

#[test]
fn test_chain_from_hash() {
    let seed = [7u8; 32];
    let chain = RequestChain::from_hash(seed);
    assert_eq!(chain.current_hash(), seed);

    let fresh = RequestChain::default();
    assert_eq!(fresh.current_hash(), CHAIN_HEAD_HASH);
}

#[test]
fn test_predecessor_affects_hash() {
    let req = test_request();
    let hash1 = fingerprint_request(&req, CHAIN_HEAD_HASH);
    let hash2 = fingerprint_request(&req, [0u8; 32]);
    assert_ne!(hash1, hash2, "The predecessor hash is part of the fingerprint");
}
