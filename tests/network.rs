use constellation_sdk::network::{
    absent_when_not_found, base_url, currency_l1_url, data_l1_url, effective_timeout,
    NetworkConfig, NetworkError, TransactionStatus,
};

#[test]
fn creates_error_with_message_only() {
    let error = NetworkError::http("Connection failed", None, None);
    assert!(error.message().contains("Connection failed"));
    assert_eq!(error.status_code(), None);
}

#[test]
fn creates_error_with_status_code() {
    let error = NetworkError::http("Not found", Some(404), None);
    assert!(error.message().contains("Not found"));
    assert_eq!(error.status_code(), Some(404));
}

#[test]
fn creates_error_with_response_body() {
    let error = NetworkError::http(
        "Bad request",
        Some(400),
        Some(r#"{"error":"invalid"}"#.to_string()),
    );
    assert_eq!(error.status_code(), Some(400));
}

#[test]
fn error_messages() {
    assert_eq!(NetworkError::http("x", None, None).message(), "HTTP error: x");
    assert_eq!(NetworkError::Timeout.message(), "Request timeout");
    assert_eq!(NetworkError::ConfigError("c".to_string()).message(), "Configuration error: c");
    assert_eq!(NetworkError::Timeout.status_code(), None);
}

#[test]
fn endpoints_are_required() {
    let config = NetworkConfig::default();
    match currency_l1_url(&config) {
        Err(NetworkError::ConfigError(msg)) => assert!(msg.contains("l1_url is required")),
        _ => panic!("Expected ConfigError"),
    }
    match data_l1_url(&config) {
        Err(NetworkError::ConfigError(msg)) => assert!(msg.contains("data_l1_url is required")),
        _ => panic!("Expected ConfigError"),
    }
    let config = NetworkConfig {
        l1_url: Some("http://localhost:9010".to_string()),
        data_l1_url: Some("http://localhost:8080".to_string()),
        timeout: Some(30),
    };
    assert_eq!(currency_l1_url(&config).unwrap(), "http://localhost:9010");
    assert_eq!(data_l1_url(&config).unwrap(), "http://localhost:8080");
}

#[test]
fn base_url_drops_trailing_slashes() {
    assert_eq!(base_url("http://localhost:9010//"), "http://localhost:9010");
    assert_eq!(base_url("http://localhost:9010"), "http://localhost:9010");
    assert_eq!(base_url("///"), "");
}

#[test]
fn timeout_defaults_to_thirty_seconds() {
    assert_eq!(effective_timeout(None), 30);
    assert_eq!(effective_timeout(Some(5)), 5);
}

#[test]
fn not_found_lookup_means_no_pending_record() {
    let found: Result<u8, NetworkError> = Ok(7);
    assert_eq!(absent_when_not_found(found).unwrap(), Some(7));
    let missing: Result<u8, NetworkError> = Err(NetworkError::http("Not found", Some(404), None));
    assert_eq!(absent_when_not_found(missing).unwrap(), None);
    let failed: Result<u8, NetworkError> = Err(NetworkError::http("Oops", Some(500), None));
    assert_eq!(absent_when_not_found(failed).unwrap_err().status_code(), Some(500));
    assert!(matches!(absent_when_not_found::<u8>(Err(NetworkError::Timeout)), Err(NetworkError::Timeout)));
}

#[test]
fn transaction_status_names() {
    assert_eq!(TransactionStatus::Waiting.name(), "Waiting");
    assert_eq!(TransactionStatus::InProgress.name(), "InProgress");
    assert_eq!(TransactionStatus::Accepted.name(), "Accepted");
}
