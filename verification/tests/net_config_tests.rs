//! Connection admission, URI assembly, WebSocket message handling, proxy
//! dispatch, and configuration validation.

use ouli::config::{Config, EndpointConfig, LimitsConfig, Mode, RedactionConfig};
use ouli::net::{build_uri, ConnectionPool, HttpHandler, WebSocketHandler, WsMessage};
use ouli::proxy::HttpProxy;
use ouli::recording::engine::Response;
use ouli::fingerprint::Request;
use ouli::OuliError;

#[test]
fn test_build_uri_simple() {
    let uri = build_uri("http", "example.com", 80, "/api/test", &[]);
    assert_eq!(uri, "http://example.com:80/api/test");
}

#[test]
fn test_build_uri_with_query() {
    let query = vec![
        ("key1".to_string(), "value1".to_string()),
        ("key2".to_string(), "value2".to_string()),
    ];
    let uri = build_uri("http", "example.com", 80, "/api/test", &query);
    assert_eq!(uri, "http://example.com:80/api/test?key1=value1&key2=value2");
}

#[test]
fn test_build_uri_with_encoding() {
    let query = vec![("key".to_string(), "value with spaces".to_string())];
    let uri = build_uri("http", "example.com", 80, "/api/test", &query);
    assert_eq!(uri, "http://example.com:80/api/test?key=value%20with%20spaces");
}

#[test]
fn test_connection_pool_basic() {
    let pool = ConnectionPool::new(2);

    assert_eq!(pool.active_connections(), 0);
    assert_eq!(pool.max_connections(), 2);
    assert!(pool.can_accept());
}

#[test]
fn test_connection_pool_acquire() {
    let mut pool = ConnectionPool::new(2);

    assert!(pool.try_acquire());
    assert_eq!(pool.active_connections(), 1);

    assert!(pool.try_acquire());
    assert_eq!(pool.active_connections(), 2);

    // Pool is full
    assert!(!pool.can_accept());
}

#[test]
fn test_connection_pool_release() {
    let mut pool = ConnectionPool::new(2);

    assert!(pool.try_acquire());
    assert!(pool.try_acquire());
    assert_eq!(pool.active_connections(), 2);

    pool.release();
    pool.release();

    assert_eq!(pool.active_connections(), 0);
    assert!(pool.can_accept());
}

#[test]
fn test_connection_pool_try_acquire() {
    let mut pool = ConnectionPool::new(1);

    assert!(pool.try_acquire());
    assert_eq!(pool.active_connections(), 1);

    // Should fail since pool is full
    assert!(!pool.try_acquire());
}

#[test]
fn test_should_record() {
    assert!(WebSocketHandler::should_record(&WsMessage::Text(
        "test".to_string()
    )));
    assert!(WebSocketHandler::should_record(&WsMessage::Binary(vec![
        1, 2, 3
    ])));
    assert!(!WebSocketHandler::should_record(&WsMessage::Ping(vec![])));
    assert!(!WebSocketHandler::should_record(&WsMessage::Pong(vec![])));
    assert!(!WebSocketHandler::should_record(&WsMessage::Close));
}

#[test]
fn test_message_to_bytes() {
    let text_msg = WsMessage::Text("hello".to_string());
    let bytes = WebSocketHandler::message_to_bytes(&text_msg);
    assert_eq!(bytes, b"hello");

    let binary_msg = WsMessage::Binary(vec![1, 2, 3]);
    let bytes = WebSocketHandler::message_to_bytes(&binary_msg);
    assert_eq!(bytes, vec![1, 2, 3]);
}

#[test]
fn test_error_status_mapping() {
    assert_eq!(
        HttpHandler::error_status(&OuliError::RecordingNotFound([0u8; 32])),
        404
    );
    assert_eq!(
        HttpHandler::error_status(&OuliError::FileNotFound("x".to_string())),
        404
    );
    assert_eq!(
        HttpHandler::error_status(&OuliError::DataTooLarge { size: 10, limit: 5 }),
        413
    );
    assert_eq!(
        HttpHandler::error_status(&OuliError::Other("boom".to_string())),
        500
    );
}

#[test]
fn test_validate_limits() {
    assert!(HttpHandler::validate_limits(None, 3, 1024, 128).is_ok());
    assert!(HttpHandler::validate_limits(Some(1024), 3, 1024, 128).is_ok());
    assert!(matches!(
        HttpHandler::validate_limits(Some(10_000), 3, 1024, 128),
        Err(OuliError::DataTooLarge { size: 10_000, limit: 1024 })
    ));
    assert!(HttpHandler::validate_limits(None, 300, 1024, 128).is_err());
}

fn create_test_config(mode: Mode) -> Config {
    Config {
        mode,
        recording_dir: "/tmp".to_string(),
        endpoints: vec![EndpointConfig {
            target_host: "example.com".to_string(),
            target_port: 443,
            source_port: 8080,
            target_type: "https".to_string(),
            source_type: "http".to_string(),
            redact_request_headers: vec![],
        }],
        redaction: RedactionConfig::default(),
        limits: LimitsConfig::default(),
    }
}

#[test]
fn test_config_validation() {
    let config = create_test_config(Mode::Replay);
    assert!(config.validate().is_ok());
    assert_eq!(config.mode, Mode::Replay);
}

#[test]
fn test_invalid_config_no_endpoints() {
    let mut config = create_test_config(Mode::Record);
    config.endpoints = vec![];
    assert!(config.validate().is_err());
}

#[test]
fn test_invalid_config_zero_port() {
    let mut config = create_test_config(Mode::Record);
    config.endpoints[0].source_port = 0;
    assert!(matches!(
        config.validate(),
        Err(OuliError::ConfigError(_))
    ));
}

#[test]
fn test_mode_predicates() {
    assert!(Mode::Record.is_record());
    assert!(!Mode::Record.is_replay());
    assert!(Mode::Replay.is_replay());
    assert!(!Mode::Replay.is_record());
}

#[test]
fn test_proxy_creation_record_mode() {
    let proxy = HttpProxy::new(Mode::Record);
    assert!(proxy.is_record_mode());
    assert!(proxy.cache_stats().is_none());
}

#[test]
fn test_proxy_creation_replay_mode() {
    let proxy = HttpProxy::new(Mode::Replay);
    assert!(!proxy.is_record_mode());
    assert!(proxy.cache_stats().is_some());
}

#[test]
fn test_handle_request_record_mode() {
    let mut proxy = HttpProxy::new(Mode::Record);
    let request = Request {
        method: "GET".to_string(),
        path: "/test".to_string(),
        query: vec![],
        headers: vec![],
        body: vec![],
    };
    let upstream = Response {
        status: 200,
        headers: vec![],
        body: b"ok".to_vec(),
    };

    let result = proxy.handle_record(&request, upstream, 1);
    assert!(result.is_ok());
    assert_eq!(result.unwrap().status, 200);
}

#[test]
fn test_handle_request_replay_mode_miss() {
    let mut proxy = HttpProxy::new(Mode::Replay);

    let result = proxy.handle_replay(
        "GET".to_string(),
        "/test".to_string(),
        vec![],
        vec![],
        vec![],
    );

    // Should miss since cache is empty
    assert!(result.is_err());
}

#[test]
fn http_test_finalize_record_mode() {
    let mut proxy = HttpProxy::new(Mode::Record);
    let images = proxy.finalize();
    assert!(images.is_empty());
}

#[test]
fn test_cache_stats_replay_mode() {
    let proxy = HttpProxy::new(Mode::Replay);
    let stats = proxy.cache_stats();
    assert!(stats.is_some());
}

#[test]
fn test_cache_stats_record_mode() {
    let proxy = HttpProxy::new(Mode::Record);
    let stats = proxy.cache_stats();
    assert!(stats.is_none());
}

#[test]
fn test_default_schemes() {
    assert_eq!(ouli::config::default_https(), "https");
    assert_eq!(ouli::config::default_http(), "http");
}
