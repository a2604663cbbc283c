use shell_tunnel::{
    generate_api_key, looks_like_injection, sanitize_for_display, ApiKeyStore, AuthConfig,
    CommandValidator, RateLimitConfig, RateLimiter, ValidationConfig, ValidationError,
};

fn v4(a: u8, b: u8, c: u8, d: u8) -> u128 {
    0xffff_0000_0000u128 | ((a as u128) << 24) | ((b as u128) << 16) | ((c as u128) << 8) | d as u128
}

#[test]
fn test_auth_config_default() {
    let config = AuthConfig::default();
    assert!(config.enabled);
    assert_eq!(config.prefix, "Bearer ");
}

#[test]
fn test_auth_config_disabled() {
    let config = AuthConfig::disabled();
    assert!(!config.enabled);
}

#[test]
fn test_api_key_store_add_remove() {
    let mut store = ApiKeyStore::default();

    store.add_key("test-key-123");
    assert!(store.is_valid("test-key-123"));
    assert!(!store.is_valid("invalid-key"));
    assert_eq!(store.count(), 1);

    assert!(store.remove_key("test-key-123"));
    assert!(!store.is_valid("test-key-123"));
    assert_eq!(store.count(), 0);
}

#[test]
fn test_api_key_store_extract() {
    let store = ApiKeyStore::default();

    let key = store.extract_key("Bearer my-secret-key");
    assert_eq!(key, Some("my-secret-key".to_string()));

    let no_key = store.extract_key("Basic credentials");
    assert!(no_key.is_none());
}

#[test]
fn test_api_key_store_disabled() {
    let store = ApiKeyStore::disabled();
    assert!(!store.is_enabled());
}

#[test]
fn test_generate_api_key() {
    let key1 = generate_api_key();
    let key2 = generate_api_key();

    assert!(key1.starts_with("st_"));
    assert!(key2.starts_with("st_"));
    assert_ne!(key1, key2);
}

#[test]
fn test_api_key_store_multiple_keys() {
    let mut store = ApiKeyStore::default();

    store.add_key("key1");
    store.add_key("key2");
    store.add_key("key3");

    assert_eq!(store.count(), 3);
    assert!(store.is_valid("key1"));
    assert!(store.is_valid("key2"));
    assert!(store.is_valid("key3"));
}

#[test]
fn test_api_key_store_validation() {
    let mut store = ApiKeyStore::new(AuthConfig::default());
    store.add_key("valid-key");

    assert!(store.is_valid("valid-key"));
    assert!(!store.is_valid("invalid-key"));
}

#[test]
fn auth_admission_rules() {
    let mut store = ApiKeyStore::default();
    store.add_key("K");
    assert!(store.admits("/api/v1/sessions", Some("Bearer K")));
    assert!(!store.admits("/api/v1/sessions", Some("Bearer X")));
    assert!(!store.admits("/api/v1/sessions", Some("K")));
    assert!(!store.admits("/api/v1/sessions", None));
    assert!(store.admits("/health", None));
    let open = ApiKeyStore::disabled();
    assert!(open.admits("/api/v1/sessions", None));
    assert!(open.admits("/api/v1/sessions", Some("Bearer nothing")));
}

#[test]
fn auth_adding_twice_counts_once() {
    let mut store = ApiKeyStore::default();
    store.add_key("a");
    store.add_key("a");
    assert_eq!(store.count(), 1);
    assert!(!store.remove_key("b"));
}

#[test]
fn auth_custom_prefix() {
    let mut store = ApiKeyStore::new(AuthConfig::with_prefix("Token "));
    store.add_key("abc");
    assert_eq!(store.extract_key("Token abc"), Some("abc".to_string()));
    assert_eq!(store.extract_key("Bearer abc"), None);
    assert!(store.admits("/x", Some("Token abc")));
}

#[test]
fn test_rate_limit_config_default() {
    let config = RateLimitConfig::default();
    assert_eq!(config.max_requests, 100);
    assert_eq!(config.window_ms, 60_000);
    assert!(config.enabled);
}

#[test]
fn test_rate_limit_config_disabled() {
    let config = RateLimitConfig::disabled();
    assert!(!config.enabled);
}

#[test]
fn test_rate_limit_config_custom() {
    let config = RateLimitConfig::custom(50, 30);
    assert_eq!(config.max_requests, 50);
    assert_eq!(config.window_ms, 30_000);
}

#[test]
fn test_rate_limiter_allows_requests() {
    let mut limiter = RateLimiter::new(RateLimitConfig::custom(5, 60), 0);
    let ip = v4(127, 0, 0, 1);

    for i in 0..5 {
        let result = limiter.check(ip, 1000 + i);
        assert!(result.is_ok(), "Request {} should be allowed", i);
    }
}

#[test]
fn test_rate_limiter_blocks_excess() {
    let mut limiter = RateLimiter::new(RateLimitConfig::custom(3, 60), 0);
    let ip = v4(192, 168, 1, 1);

    assert!(limiter.check(ip, 10).is_ok());
    assert!(limiter.check(ip, 11).is_ok());
    assert!(limiter.check(ip, 12).is_ok());

    let result = limiter.check(ip, 13);
    assert!(result.is_err());
}

#[test]
fn test_rate_limiter_different_ips() {
    let mut limiter = RateLimiter::new(RateLimitConfig::custom(2, 60), 0);
    let ip1 = v4(10, 0, 0, 1);
    let ip2 = v4(10, 0, 0, 2);

    assert!(limiter.check(ip1, 1).is_ok());
    assert!(limiter.check(ip1, 2).is_ok());
    assert!(limiter.check(ip1, 3).is_err());

    assert!(limiter.check(ip2, 4).is_ok());
    assert!(limiter.check(ip2, 5).is_ok());
    assert!(limiter.check(ip2, 6).is_err());
}

#[test]
fn test_rate_limiter_disabled() {
    let mut limiter = RateLimiter::disabled();
    let ip = v4(1, 1, 1, 1);

    for i in 0..100 {
        assert!(limiter.check(ip, i).is_ok());
    }
}

#[test]
fn test_rate_limiter_ipv6() {
    let mut limiter = RateLimiter::new(RateLimitConfig::custom(2, 60), 0);
    let ip: u128 = 0x2001_0db8_0000_0000_0000_0000_0000_0001;

    assert!(limiter.check(ip, 1).is_ok());
    assert!(limiter.check(ip, 2).is_ok());
    assert!(limiter.check(ip, 3).is_err());
}

#[test]
fn test_rate_limiter_stats() {
    let mut limiter = RateLimiter::new(RateLimitConfig::custom(10, 30), 0);
    let ip = v4(8, 8, 8, 8);

    limiter.check(ip, 5).ok();

    let stats = limiter.stats();
    assert_eq!(stats.tracked_ips, 1);
    assert_eq!(stats.max_requests, 10);
    assert_eq!(stats.window_secs, 30);
    assert!(stats.enabled);
}

#[test]
fn test_rate_limiter_remaining_count() {
    let mut limiter = RateLimiter::new(RateLimitConfig::custom(5, 60), 0);
    let ip = v4(172, 16, 0, 1);

    assert_eq!(limiter.check(ip, 100).unwrap(), 4);
    assert_eq!(limiter.check(ip, 101).unwrap(), 3);
    assert_eq!(limiter.check(ip, 102).unwrap(), 2);
    assert_eq!(limiter.check(ip, 103).unwrap(), 1);
    assert_eq!(limiter.check(ip, 104).unwrap(), 0);
    assert!(limiter.check(ip, 105).is_err());
}

#[test]
fn rate_limiter_retry_after_and_window_slide() {
    let mut limiter = RateLimiter::new(RateLimitConfig::custom(2, 60), 0);
    let ip = v4(1, 2, 3, 4);
    assert!(limiter.check(ip, 1_000).is_ok());
    assert!(limiter.check(ip, 2_000).is_ok());
    assert_eq!(limiter.check(ip, 11_000), Err(50_000));
    // Once the first request leaves the window, one more is admitted.
    assert_eq!(limiter.check(ip, 61_001), Ok(0));
}

#[test]
fn rate_limiter_compaction_drops_stale_and_caps() {
    let mut config = RateLimitConfig::custom(5, 1);
    config.max_tracked_ips = 2;
    let mut limiter = RateLimiter::new(config, 0);
    assert!(limiter.check(1, 100).is_ok());
    assert!(limiter.check(2, 200).is_ok());
    assert!(limiter.check(3, 300).is_ok());
    assert_eq!(limiter.stats().tracked_ips, 3);
    // More than two windows later every record is stale and goes.
    assert!(limiter.check(4, 5_000).is_ok());
    assert_eq!(limiter.stats().tracked_ips, 1);
    assert!(limiter.check(5, 5_100).is_ok());
    assert!(limiter.check(6, 5_200).is_ok());
    assert!(limiter.check(8, 5_300).is_ok());
    assert_eq!(limiter.stats().tracked_ips, 4);
    // The next compaction drops the stale record, then the least recently active
    // one to meet the cap of two, before the new source is added.
    assert!(limiter.check(7, 7_050).is_ok());
    assert_eq!(limiter.stats().tracked_ips, 3);
}

#[test]
fn test_validation_config_default() {
    let config = ValidationConfig::default();
    assert_eq!(config.max_command_length, 4096);
    assert!(config.block_dangerous);
}

#[test]
fn test_validation_config_strict() {
    let config = ValidationConfig::strict();
    assert_eq!(config.max_command_length, 1024);
    assert!(config.block_dangerous);
    assert!(!config.blocked_patterns.is_empty());
}

#[test]
fn test_validate_command_ok() {
    let validator = CommandValidator::default();

    assert!(validator.validate_command("ls -la").is_ok());
    assert!(validator.validate_command("echo hello world").is_ok());
    assert!(validator.validate_command("cat /etc/passwd").is_ok());
}

#[test]
fn test_validate_command_empty() {
    let validator = CommandValidator::default();

    assert!(matches!(validator.validate_command(""), Err(ValidationError::EmptyCommand)));
    assert!(matches!(validator.validate_command("   "), Err(ValidationError::EmptyCommand)));
}

#[test]
fn test_validate_command_too_long() {
    let mut config = ValidationConfig::default();
    config.max_command_length = 10;
    let validator = CommandValidator::new(config);

    let result = validator.validate_command("this is a very long command");
    assert!(matches!(result, Err(ValidationError::CommandTooLong { .. })));
}

#[test]
fn validate_command_too_long_reports_lengths() {
    let mut config = ValidationConfig::default();
    config.max_command_length = 3;
    let validator = CommandValidator::new(config);
    assert!(matches!(
        validator.validate_command("abcd"),
        Err(ValidationError::CommandTooLong { length: 4, max: 3 })
    ));
}

#[test]
fn test_validate_dangerous_rm() {
    let validator = CommandValidator::default();

    assert!(matches!(
        validator.validate_command("rm -rf /"),
        Err(ValidationError::DangerousCommand { .. })
    ));
    assert!(matches!(
        validator.validate_command("sudo rm -rf /home"),
        Err(ValidationError::DangerousCommand { .. })
    ));
}

#[test]
fn validate_dangerous_is_case_blind() {
    let validator = CommandValidator::default();
    match validator.validate_command("SHUTDOWN now") {
        Err(ValidationError::DangerousCommand { pattern }) => assert_eq!(pattern, "system shutdown"),
        other => panic!("unexpected {:?}", other),
    }
}

#[test]
fn test_validate_dangerous_fork_bomb() {
    let validator = CommandValidator::default();

    assert!(matches!(
        validator.validate_command(":(){ :|:& };:"),
        Err(ValidationError::DangerousCommand { .. })
    ));
}

#[test]
fn test_validate_dangerous_shutdown() {
    let validator = CommandValidator::default();

    assert!(matches!(
        validator.validate_command("shutdown -h now"),
        Err(ValidationError::DangerousCommand { .. })
    ));
    assert!(matches!(
        validator.validate_command("reboot"),
        Err(ValidationError::DangerousCommand { .. })
    ));
}

#[test]
fn test_validate_null_byte() {
    let validator = CommandValidator::default();

    assert!(matches!(
        validator.validate_command("ls\0 -la"),
        Err(ValidationError::InvalidCharacter('\0'))
    ));
}

#[test]
fn test_validate_timeout() {
    let validator = CommandValidator::default();

    assert!(validator.validate_timeout(30).is_ok());
    assert!(validator.validate_timeout(1).is_ok());
    assert!(validator.validate_timeout(300).is_ok());

    assert!(matches!(validator.validate_timeout(0), Err(ValidationError::TimeoutTooShort { .. })));
    assert!(matches!(validator.validate_timeout(1000), Err(ValidationError::TimeoutTooLong { .. })));
}

#[test]
fn test_validate_working_dir() {
    let validator = CommandValidator::default();

    assert!(validator.validate_working_dir("/home/user").is_ok());
    assert!(validator.validate_working_dir("/tmp").is_ok());

    assert!(matches!(
        validator.validate_working_dir("/home/../etc"),
        Err(ValidationError::PathTraversal)
    ));
}

#[test]
fn validate_working_dir_other_errors() {
    let validator = CommandValidator::default();
    assert!(matches!(
        validator.validate_working_dir("/a\0b"),
        Err(ValidationError::InvalidCharacter('\0'))
    ));
    let long = "a".repeat(4097);
    assert!(matches!(
        validator.validate_working_dir(&long),
        Err(ValidationError::PathTooLong { length: 4097, max: 4096 })
    ));
}

#[test]
fn test_blocked_patterns() {
    let validator = CommandValidator::new(ValidationConfig::strict());

    assert!(matches!(
        validator.validate_command("dd if=/dev/zero"),
        Err(ValidationError::BlockedPattern { .. })
    ));
}

#[test]
fn test_permissive_allows_dangerous() {
    let validator = CommandValidator::new(ValidationConfig::permissive());

    assert!(validator.validate_command("rm -rf /").is_ok());
}

#[test]
fn test_sanitize_for_display() {
    assert_eq!(sanitize_for_display("hello"), "hello");
    assert_eq!(sanitize_for_display("hello\nworld"), "hello\nworld");
    assert_eq!(sanitize_for_display("hello\x00world"), "helloworld");

    let long = "a".repeat(2000);
    assert_eq!(sanitize_for_display(&long).len(), 1000);
}

#[test]
fn test_looks_like_injection() {
    assert!(looks_like_injection("echo $(whoami)"));
    assert!(looks_like_injection("echo `id`"));
    assert!(looks_like_injection("cmd1 && cmd2"));
    assert!(looks_like_injection("cmd1 | cmd2"));

    assert!(!looks_like_injection("echo hello"));
    assert!(!looks_like_injection("ls -la"));
}

#[test]
fn test_command_validator_basics() {
    let validator = CommandValidator::new(ValidationConfig::default());

    assert!(validator.validate_command("ls -la").is_ok());
    assert!(validator.validate_command("echo hello").is_ok());

    assert!(validator.validate_command("").is_err());
    assert!(validator.validate_command("   ").is_err());
}

#[test]
fn test_dangerous_command_detection() {
    let validator = CommandValidator::new(ValidationConfig::default());

    assert!(validator.validate_command("rm -rf /").is_err());
    assert!(validator.validate_command(":(){ :|:& };:").is_err());
    assert!(validator.validate_command("shutdown -h now").is_err());
}

#[test]
fn validation_error_messages() {
    assert_eq!(
        ValidationError::CommandTooLong { length: 27, max: 10 }.to_string(),
        "Command too long: 27 chars (max: 10)"
    );
    assert_eq!(ValidationError::EmptyCommand.to_string(), "Command cannot be empty");
    assert_eq!(
        ValidationError::InvalidCharacter('\0').to_string(),
        "Command contains invalid character: '\\0'"
    );
    assert_eq!(
        ValidationError::TimeoutTooLong { value: 1000, max: 300 }.to_string(),
        "Timeout too long: 1000s (max: 300s)"
    );
    assert_eq!(ValidationError::PathTraversal.to_string(), "Path traversal detected");
}

#[test]
fn api_key_for_fixed_time() {
    assert_eq!(shell_tunnel::auth::api_key_at(0), "st_0_000000000000000b");
    assert_eq!(shell_tunnel::auth::api_key_at(255), format!("st_ff_{:016x}", 255u64.wrapping_mul(0x5DEECE66D).wrapping_add(0xB)));
}
