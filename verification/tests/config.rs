use aubapr::config::{parse_unsigned, Config};

#[test]
fn test_default_config() {
    let config = Config::default();
    assert_eq!(config.soft_max_wait_time_ms, 100);
    assert_eq!(config.soft_max_batch_size, 32);
    assert_eq!(config.inference_url, "http://aubapr-inference:8080");
}

#[test]
fn test_config_validation_success() {
    let config = Config::default();
    assert!(config.validate().is_ok());
}

#[test]
fn test_config_validation_zero_wait_time() {
    let config = Config {
        soft_max_wait_time_ms: 0,
        ..Config::default()
    };
    assert!(config.validate().is_err());
    assert!(config
        .validate()
        .unwrap_err()
        .contains("soft_max_wait_time_ms"));
}

#[test]
fn test_config_validation_zero_batch_size() {
    let config = Config {
        soft_max_batch_size: 0,
        ..Config::default()
    };
    assert!(config.validate().is_err());
    assert!(config
        .validate()
        .unwrap_err()
        .contains("soft_max_batch_size"));
}

#[test]
fn test_config_validation_empty_url() {
    let config = Config {
        inference_url: String::new(),
        ..Config::default()
    };
    assert!(config.validate().is_err());
    assert!(config.validate().unwrap_err().contains("inference_url"));
}

#[test]
fn test_config_from_env_defaults() {
    // No variable set.
    let config = Config::from_env_values(None, None, None);
    assert_eq!(config.soft_max_wait_time_ms, 100);
    assert_eq!(config.soft_max_batch_size, 32);
    assert_eq!(config.inference_url, "http://aubapr-inference:8080");
}

#[test]
fn test_config_from_env_with_values() {
    let config = Config::from_env_values(
        Some("200".to_string()),
        Some("64".to_string()),
        Some("http://custom:9000".to_string()),
    );
    assert_eq!(config.soft_max_wait_time_ms, 200);
    assert_eq!(config.soft_max_batch_size, 64);
    assert_eq!(config.inference_url, "http://custom:9000");
}

#[test]
fn test_config_from_env_invalid_numbers() {
    let config = Config::from_env_values(
        Some("invalid".to_string()),
        Some("not_a_number".to_string()),
        None,
    );
    // Should fall back to defaults for invalid values
    assert_eq!(config.soft_max_wait_time_ms, 100);
    assert_eq!(config.soft_max_batch_size, 32);
}

#[test]
fn test_validation_reports_first_violation() {
    let config = Config {
        soft_max_wait_time_ms: 0,
        soft_max_batch_size: 0,
        inference_url: String::new(),
    };
    assert_eq!(
        config.validate().unwrap_err(),
        "soft_max_wait_time_ms must be greater than 0"
    );
    let config = Config {
        soft_max_wait_time_ms: 1,
        soft_max_batch_size: 0,
        inference_url: String::new(),
    };
    assert_eq!(
        config.validate().unwrap_err(),
        "soft_max_batch_size must be greater than 0"
    );
    let config = Config {
        soft_max_wait_time_ms: 1,
        soft_max_batch_size: 1,
        inference_url: String::new(),
    };
    assert_eq!(config.validate().unwrap_err(), "inference_url cannot be empty");
}

#[test]
fn test_parse_unsigned_like_str_parse() {
    for s in ["0", "7", "+42", "007", "18446744073709551615", "", "+", "-5", "++1", " 1", "1 ", "4a", "18446744073709551616", "١"] {
        assert_eq!(parse_unsigned(s, u64::MAX), s.parse::<u64>().ok(), "input {:?}", s);
    }
    assert_eq!(parse_unsigned("300", 255), None);
    assert_eq!(parse_unsigned("255", 255), Some(255));
}

#[test]
fn test_from_env_values_batch_size_bounds() {
    let config = Config::from_env_values(None, Some("+8".to_string()), Some(String::new()));
    assert_eq!(config.soft_max_batch_size, 8);
    assert_eq!(config.inference_url, "");
    assert!(config.validate().is_err());
    let too_big = format!("{}0", usize::MAX);
    let config = Config::from_env_values(Some(too_big.clone()), Some(too_big), None);
    assert_eq!(config.soft_max_wait_time_ms, 100);
    assert_eq!(config.soft_max_batch_size, 32);
}
