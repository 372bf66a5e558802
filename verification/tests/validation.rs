use stock_sim::config::{Config, ConfigError};
use stock_sim::validate::{is_valid_email, is_valid_ticker_format, sanitize_string_input};

#[test]
fn test_ticker_validation() {
    // Valid tickers
    assert!(is_valid_ticker_format("AAPL"));
    assert!(is_valid_ticker_format("MSFT"));
    assert!(is_valid_ticker_format("A"));
    assert!(is_valid_ticker_format("ABCDEFGHIJ")); // 10 chars max

    // Invalid tickers
    assert!(!is_valid_ticker_format("")); // empty
    assert!(!is_valid_ticker_format("ABCDEFGHIJK")); // too long
    assert!(!is_valid_ticker_format("AAP-L")); // special characters
    assert!(!is_valid_ticker_format("AAP L")); // spaces
    assert!(!is_valid_ticker_format("aap")); // symbols are uppercase
}

#[test]
fn test_jwt_secret_validation() {
    // Too short a JWT secret is rejected.
    let result = Config::from_vars(
        Some("short".to_string()),
        Some("postgresql://test".to_string()),
        Some("redis://test".to_string()),
        Some("http://test".to_string()),
        None,
        None,
        None,
        None,
        None,
        None,
        None,
    );
    assert!(result.is_err());

    // A long enough JWT secret passes.
    let result = Config::from_vars(
        Some("this-is-a-very-long-secure-jwt-secret-key-for-testing".to_string()),
        Some("postgresql://test".to_string()),
        Some("redis://test".to_string()),
        Some("http://test".to_string()),
        None,
        None,
        None,
        None,
        None,
        None,
        None,
    );
    assert!(result.is_ok());
}

#[test]
fn config_defaults_are_applied() {
    let c = Config::from_vars(
        Some("this-is-a-very-long-secure-jwt-secret-key-for-testing".to_string()),
        Some("postgresql://test".to_string()),
        Some("redis://test".to_string()),
        Some("http://test".to_string()),
        None,
        None,
        None,
        None,
        None,
        None,
        None,
    )
    .unwrap();
    assert_eq!(c.server_host.as_str(), "127.0.0.1");
    assert_eq!(c.server_port, 3000);
    assert_eq!(c.max_db_connections, 5);
    assert_eq!(c.log_level.as_str(), "info");
    assert_eq!(c.max_request_size, 1048576);
    assert!(!c.grpc_tls_enabled);
    assert_eq!(c.jwt_expiration_hours, 24);
}

#[test]
fn config_rejects_each_malformed_variable() {
    let secret = Some("this-is-a-very-long-secure-jwt-secret-key-for-testing".to_string());
    let db = Some("postgresql://test".to_string());
    let redis = Some("redis://test".to_string());
    let grpc = Some("http://test".to_string());

    let r = Config::from_vars(None, db.clone(), redis.clone(), grpc.clone(), None, None, None, None, None, None, None);
    assert_eq!(r.unwrap_err(), ConfigError::MissingJwtSecret);

    let r = Config::from_vars(secret.clone(), None, redis.clone(), grpc.clone(), None, None, None, None, None, None, None);
    assert_eq!(r.unwrap_err(), ConfigError::MissingDatabaseUrl);

    let r = Config::from_vars(secret.clone(), db.clone(), None, grpc.clone(), None, None, None, None, None, None, None);
    assert_eq!(r.unwrap_err(), ConfigError::MissingRedisUrl);

    let r = Config::from_vars(secret.clone(), db.clone(), redis.clone(), None, None, None, None, None, None, None, None);
    assert_eq!(r.unwrap_err(), ConfigError::MissingGrpcServerUrl);

    let r = Config::from_vars(secret.clone(), db.clone(), redis.clone(), grpc.clone(), None, Some("70000".to_string()), None, None, None, None, None);
    assert_eq!(r.unwrap_err(), ConfigError::InvalidServerPort);

    let r = Config::from_vars(secret.clone(), db.clone(), redis.clone(), grpc.clone(), None, None, Some("ten".to_string()), None, None, None, None);
    assert_eq!(r.unwrap_err(), ConfigError::InvalidMaxDbConnections);

    let r = Config::from_vars(secret.clone(), db.clone(), redis.clone(), grpc.clone(), None, None, None, None, Some("1MB".to_string()), None, None);
    assert_eq!(r.unwrap_err(), ConfigError::InvalidMaxRequestSize);

    let r = Config::from_vars(secret.clone(), db.clone(), redis.clone(), grpc.clone(), None, None, None, None, None, Some("yes".to_string()), None);
    assert_eq!(r.unwrap_err(), ConfigError::InvalidGrpcTlsEnabled);

    let r = Config::from_vars(secret.clone(), db.clone(), redis.clone(), grpc.clone(), None, None, None, None, None, None, Some("soon".to_string()));
    assert_eq!(r.unwrap_err(), ConfigError::InvalidJwtExpirationHours);

    let r = Config::from_vars(secret, db, redis, grpc, Some("0.0.0.0".to_string()), Some("8080".to_string()), Some("20".to_string()), Some("debug".to_string()), Some("2048".to_string()), Some("true".to_string()), Some("-2".to_string()));
    let c = r.unwrap();
    assert_eq!(c.server_port, 8080);
    assert_eq!(c.max_db_connections, 20);
    assert_eq!(c.max_request_size, 2048);
    assert!(c.grpc_tls_enabled);
    assert_eq!(c.jwt_expiration_hours, -2);
}

#[test]
fn sanitize_filters_and_caps() {
    assert_eq!(sanitize_string_input("hello world", 64).as_str(), "hello world");
    assert_eq!(sanitize_string_input("a<b>&c;", 64).as_str(), "abc");
    assert_eq!(sanitize_string_input("under_score-dash", 64).as_str(), "under_score-dash");
    assert_eq!(sanitize_string_input("abcdef", 3).as_str(), "abc");
    assert_eq!(sanitize_string_input("!!!x!!!y", 1).as_str(), "x");
    assert_eq!(sanitize_string_input("", 10).as_str(), "");
}

#[test]
fn email_validation() {
    assert!(is_valid_email("a@b"));
    assert!(is_valid_email("user@example.com"));
    assert!(!is_valid_email(""));
    assert!(!is_valid_email("nobody"));
    assert!(!is_valid_email("@example.com"));
    assert!(!is_valid_email("user@"));
    let long = format!("{}@{}", "a".repeat(200), "b".repeat(60));
    assert!(!is_valid_email(&long));
}
