use hi::validate::{classify_error_text, truncate_response, ValidationErrorKind};

#[test]
fn test_classify_auth_401() {
    let (kind, _) = classify_error_text("providerError: 401 unauthorized");
    assert_eq!(kind, ValidationErrorKind::AuthFailure);
}

#[test]
fn test_classify_auth_invalid_key() {
    let (kind, _) = classify_error_text("providerError: invalid api key provided");
    assert_eq!(kind, ValidationErrorKind::AuthFailure);
}

#[test]
fn test_classify_auth_incorrect_key() {
    let (kind, _) = classify_error_text("providerError: incorrect api key");
    assert_eq!(kind, ValidationErrorKind::AuthFailure);
}

#[test]
fn test_classify_auth_forbidden() {
    let (kind, _) = classify_error_text("providerError: 403 forbidden");
    assert_eq!(kind, ValidationErrorKind::AuthFailure);
}

#[test]
fn test_classify_auth_permission_denied() {
    let (kind, _) = classify_error_text("providerError: permission denied for this resource");
    assert_eq!(kind, ValidationErrorKind::AuthFailure);
}

#[test]
fn test_classify_model_not_found() {
    let (kind, _) = classify_error_text("providerError: model 'gpt-999' not found");
    assert_eq!(kind, ValidationErrorKind::ModelNotAvailable);
}

#[test]
fn test_classify_model_does_not_exist() {
    let (kind, _) = classify_error_text("providerError: the model `gpt-5` does not exist");
    assert_eq!(kind, ValidationErrorKind::ModelNotAvailable);
}

#[test]
fn test_classify_no_such_model() {
    let (kind, _) = classify_error_text("error: no such model: llama-99b");
    assert_eq!(kind, ValidationErrorKind::ModelNotAvailable);
}

#[test]
fn test_classify_invalid_model() {
    let (kind, _) = classify_error_text("error: invalid model identifier");
    assert_eq!(kind, ValidationErrorKind::ModelNotAvailable);
}

#[test]
fn test_classify_network_connection_refused() {
    let (kind, _) = classify_error_text("httperror: connection refused");
    assert_eq!(kind, ValidationErrorKind::NetworkFailure);
}

#[test]
fn test_classify_network_timeout() {
    let (kind, _) = classify_error_text("httperror: request timed out");
    assert_eq!(kind, ValidationErrorKind::NetworkFailure);
}

#[test]
fn test_classify_network_dns() {
    let (kind, _) = classify_error_text("httperror: dns resolution failed");
    assert_eq!(kind, ValidationErrorKind::NetworkFailure);
}

#[test]
fn test_classify_network_tls() {
    let (kind, _) = classify_error_text("httperror: tls handshake failure");
    assert_eq!(kind, ValidationErrorKind::NetworkFailure);
}

#[test]
fn test_classify_network_unreachable() {
    let (kind, _) = classify_error_text("httperror: host unreachable");
    assert_eq!(kind, ValidationErrorKind::NetworkFailure);
}

#[test]
fn test_classify_unknown_error() {
    let (kind, _) = classify_error_text("some completely unexpected error text");
    assert_eq!(kind, ValidationErrorKind::Unknown);
}

#[test]
fn test_classify_unknown_has_hint() {
    let (_, hint) = classify_error_text("some random error");
    assert!(hint.contains("config.json"));
}

#[test]
fn test_truncate_short() {
    assert_eq!(truncate_response("Hello!", 80), "Hello!");
}

#[test]
fn test_truncate_long() {
    let long = "a".repeat(100);
    let result = truncate_response(&long, 80);
    assert!(result.ends_with('…'));
    assert!(result.len() <= 84);
}

#[test]
fn test_truncate_trims_whitespace() {
    assert_eq!(truncate_response("  hello  ", 80), "hello");
}

#[test]
fn test_validation_error_kind_display() {
    assert_eq!(ValidationErrorKind::ConfigLoad.label(), "configuration error");
    assert_eq!(ValidationErrorKind::AuthFailure.label(), "authentication error");
    assert_eq!(
        ValidationErrorKind::NetworkFailure.label(),
        "network/endpoint error"
    );
    assert_eq!(
        ValidationErrorKind::ModelNotAvailable.label(),
        "model not available"
    );
    assert_eq!(ValidationErrorKind::Unknown.label(), "unknown error");
}

#[test]
fn test_classify_config_error_missing_file() {
    let lower = "config file not found at: /home/user/.config/hi/config.json";
    let (kind, _) = classify_error_text(lower);
    assert_eq!(kind, ValidationErrorKind::Unknown);
}

#[test]
fn test_classify_config_error_parse_failure() {
    let lower = "failed to parse config.json: expected `,` or `}`";
    let (kind, _) = classify_error_text(lower);
    assert_eq!(kind, ValidationErrorKind::Unknown);
}

#[test]
fn test_classify_prompt_error_lowercases_input() {
    let err = hi::validate::classify_prompt_error("Provider said: UNAUTHORIZED", "openai", "gpt-4o");
    assert_eq!(err.kind, ValidationErrorKind::AuthFailure);
    assert_eq!(err.message, "Provider said: UNAUTHORIZED");
    assert_eq!(err.provider.as_deref(), Some("openai"));
    assert_eq!(err.model.as_deref(), Some("gpt-4o"));
}

#[test]
fn test_classify_agent_build_error_url() {
    let err = hi::validate::classify_agent_build_error("bad URL in api_base", "openai", "gpt-4o");
    assert_eq!(err.kind, ValidationErrorKind::NetworkFailure);
    assert!(err.hint.contains("api_base"));
}

#[test]
fn test_truncate_multibyte_safe() {
    let text = "你好世界你好世界你好世界";
    let result = truncate_response(text, 10);
    assert!(result.ends_with('…'));
    assert!(result.starts_with("你好世"));
}
