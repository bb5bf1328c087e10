//! Session manager, serialization, and recording engine behavior.

use ouli::fingerprint::Request;
use ouli::recording::engine::{serialize_request, serialize_response, RecordingEngine, Response};
use ouli::recording::session::{generate_recording_id, validate_test_name, SessionManager};
use ouli::recording::MAX_SESSIONS;
use ouli::OuliError;

#[test]
fn test_validate_test_name() {
    assert!(validate_test_name("valid_test").is_ok());
    assert!(validate_test_name("test-123").is_ok());
    assert!(validate_test_name("Test_Name_123").is_ok());

    assert!(validate_test_name("").is_err());
    assert!(validate_test_name(".hidden").is_err());
    assert!(validate_test_name("test/path").is_err());
    assert!(validate_test_name("test\\path").is_err());
    assert!(validate_test_name("test..name").is_err());
    assert!(validate_test_name("test\0name").is_err());
}

#[test]
fn test_validate_test_name_length() {
    let max = "a".repeat(255);
    assert!(validate_test_name(&max).is_ok());
    let too_long = "a".repeat(256);
    assert!(matches!(
        validate_test_name(&too_long),
        Err(OuliError::InvalidTestName(_))
    ));
}

#[test]
fn test_generate_recording_id() {
    let id1 = generate_recording_id("test1", 1);
    let id2 = generate_recording_id("test1", 2);

    // IDs should be different due to timestamp
    assert_ne!(id1, id2);
}

#[test]
fn test_serialize_request() {
    let request = Request {
        method: "POST".to_string(),
        path: "/api/test".to_string(),
        query: vec![("key".to_string(), "value".to_string())],
        headers: vec![("Content-Type".to_string(), "text/plain".to_string())],
        body: b"test body".to_vec(),
    };

    let data = serialize_request(&request);
    assert!(!data.is_empty());
}

#[test]
fn test_serialize_response() {
    let response = Response {
        status: 200,
        headers: vec![("Content-Type".to_string(), "application/json".to_string())],
        body: b"{\"status\":\"ok\"}".to_vec(),
    };

    let data = serialize_response(&response);
    assert!(!data.is_empty());
}

#[test]
fn test_serialize_request_exact_bytes() {
    let request = Request {
        method: "GET".to_string(),
        path: "/a".to_string(),
        query: vec![],
        headers: vec![],
        body: vec![0xAA],
    };
    let data = serialize_request(&request);
    let expected: Vec<u8> = vec![
        3, 0, b'G', b'E', b'T', // method
        2, 0, b'/', b'a', // path
        0, 0, // query count
        0, 0, // header count
        1, 0, 0, 0, 0xAA, // body
    ];
    assert_eq!(data, expected);
}

#[test]
fn test_serialize_response_exact_bytes() {
    let response = Response {
        status: 404,
        headers: vec![("a".to_string(), "b".to_string())],
        body: vec![],
    };
    let data = serialize_response(&response);
    let expected: Vec<u8> = vec![
        0x94, 0x01, // status 404
        1, 0, // header count
        1, 0, b'a', 1, 0, b'b', // header pair
        0, 0, 0, 0, // empty body
    ];
    assert_eq!(data, expected);
}

#[test]
fn test_session_manager_create() {
    let mut manager = SessionManager::new();

    assert_eq!(manager.session_count(), 0);

    let idx = manager.get_or_create_session("test1", 1).unwrap();
    assert_eq!(manager.session_at(idx).test_name(), "test1");
    assert_eq!(manager.session_count(), 1);
}

#[test]
fn test_session_manager_reuse() {
    let mut manager = SessionManager::new();

    let idx1 = manager.get_or_create_session("test1", 1).unwrap();
    let idx2 = manager.get_or_create_session("test1", 2).unwrap();

    assert_eq!(manager.session_count(), 1);
    assert_eq!(idx1, idx2);
}

#[test]
fn test_session_manager_multiple() {
    let mut manager = SessionManager::new();

    manager.get_or_create_session("test1", 1).unwrap();
    manager.get_or_create_session("test2", 1).unwrap();
    manager.get_or_create_session("test3", 1).unwrap();

    assert_eq!(manager.session_count(), 3);
}

#[test]
fn test_session_finalize() {
    let mut manager = SessionManager::new();

    manager.get_or_create_session("test1", 1).unwrap();
    manager.get_or_create_session("test2", 1).unwrap();

    let images = manager.finalize_all();

    assert_eq!(manager.session_count(), 0);
    assert_eq!(images.len(), 2);
    assert_eq!(images[0].0, "test1");
    assert_eq!(images[1].0, "test2");
}

#[test]
fn test_session_limit() {
    // the 1025th distinct test name fails to create
    let mut manager = SessionManager::new();
    for i in 0..MAX_SESSIONS {
        manager
            .get_or_create_session(&format!("t{i}"), 1)
            .unwrap();
    }
    assert_eq!(manager.session_count(), MAX_SESSIONS);
    let overflow = manager.get_or_create_session("one_too_many", 1);
    assert!(matches!(overflow, Err(OuliError::Other(_))));
    // an existing name still resolves
    assert!(manager.get_or_create_session("t0", 1).is_ok());
}

#[test]
fn test_recording_engine_creation() {
    let engine = RecordingEngine::new();

    assert_eq!(engine.session_count(), 0);
}

#[test]
fn test_record_single_interaction() {
    let mut engine = RecordingEngine::new();

    let request = Request {
        method: "GET".to_string(),
        path: "/api/test".to_string(),
        query: vec![],
        headers: vec![("Content-Type".to_string(), "application/json".to_string())],
        body: vec![],
    };
    let response = Response {
        status: 200,
        headers: vec![("Content-Type".to_string(), "application/json".to_string())],
        body: b"{\"result\":\"ok\"}".to_vec(),
    };
    let result = engine.record_interaction(Some("test1"), &request, &response, 1);

    assert!(result.is_ok());
    assert_eq!(engine.session_count(), 1);
}

#[test]
fn test_record_multiple_interactions() {
    let mut engine = RecordingEngine::new();

    for i in 0..5 {
        let request = Request {
            method: "GET".to_string(),
            path: format!("/api/test/{i}"),
            query: vec![],
            headers: vec![],
            body: vec![],
        };
        let response = Response {
            status: 200,
            headers: vec![],
            body: vec![],
        };
        engine
            .record_interaction(Some("test1"), &request, &response, 1)
            .unwrap();
    }

    assert_eq!(engine.session_count(), 1);
}

#[test]
fn test_finalize_sessions() {
    let mut engine = RecordingEngine::new();

    let request = Request {
        method: "GET".to_string(),
        path: "/api/test".to_string(),
        query: vec![],
        headers: vec![],
        body: vec![],
    };
    let response = Response {
        status: 200,
        headers: vec![],
        body: vec![],
    };
    engine
        .record_interaction(Some("test1"), &request, &response, 1)
        .unwrap();

    engine.finalize_all();

    assert_eq!(engine.session_count(), 0);
}

#[test]
fn test_record_under_default_session() {
    let mut engine = RecordingEngine::new();
    let request = Request {
        method: "GET".to_string(),
        path: "/x".to_string(),
        query: vec![],
        headers: vec![],
        body: vec![],
    };
    let response = Response {
        status: 200,
        headers: vec![],
        body: vec![],
    };
    engine.record_interaction(None, &request, &response, 1).unwrap();
    let images = engine.finalize_all();
    assert_eq!(images.len(), 1);
    assert_eq!(images[0].0, "default");
}

#[test]
fn test_record_rejects_invalid_session_name() {
    let mut engine = RecordingEngine::new();
    let request = Request {
        method: "GET".to_string(),
        path: "/x".to_string(),
        query: vec![],
        headers: vec![],
        body: vec![],
    };
    let response = Response {
        status: 200,
        headers: vec![],
        body: vec![],
    };
    let res = engine.record_interaction(Some("bad/name"), &request, &response, 1);
    assert!(matches!(res, Err(OuliError::InvalidTestName(_))));
    // a failed call records nothing
    assert_eq!(engine.session_count(), 0);
    assert!(engine.finalize_all().is_empty());
}

#[test]
fn test_session_limit_error_is_other() {
    let mut engine = RecordingEngine::new();
    let request = Request {
        method: "GET".to_string(),
        path: "/x".to_string(),
        query: vec![],
        headers: vec![],
        body: vec![],
    };
    let response = Response {
        status: 200,
        headers: vec![],
        body: vec![],
    };
    for i in 0..MAX_SESSIONS {
        engine
            .record_interaction(Some(&format!("s{i}")), &request, &response, 1)
            .unwrap();
    }
    let res = engine.record_interaction(Some("one_more"), &request, &response, 1);
    assert!(matches!(res, Err(OuliError::Other(_))));
    assert_eq!(engine.session_count(), MAX_SESSIONS);
}
