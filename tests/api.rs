use shell_tunnel::{
    is_newer_version, AppState, Config, CreateSessionResponse, ErrorResponse, ExecuteCommandRequest,
    ExecuteCommandResponse, ExecutionResult, EnvVars, PtySize, SecurityConfig, ServerConfig,
    SessionConfig, SessionId, SessionState, ShellTunnelError, WsMessage, WsReply,
};

#[test]
fn test_app_state_new() {
    let state = AppState::new();
    assert_eq!(state.store.count(), 0);
}

#[test]
fn app_state_open_and_close_session() {
    let mut state = AppState::new();
    let id = state.open_session(SessionConfig::default()).unwrap();
    let s = state.store.get(&id).unwrap();
    assert_eq!(s.state, SessionState::Idle);
    assert!(s.state.can_execute());
    state.close_session(&id).unwrap();
    assert!(state.store.get(&id).is_none());
    assert!(matches!(state.close_session(&id), Err(ShellTunnelError::SessionNotFound(_))));
}

#[test]
fn test_server_config_default() {
    let config = ServerConfig::default();
    assert_eq!(config.host, "127.0.0.1");
    assert_eq!(config.port, 3000);
    assert_eq!(config.bind_address(), "127.0.0.1:3000");
    assert!(config.graceful_shutdown);
}

#[test]
fn test_server_config_custom() {
    let config = ServerConfig::new("0.0.0.0", 8080);
    assert_eq!(config.bind_address(), "0.0.0.0:8080");
}

#[test]
fn server_config_bind_address_edges() {
    assert_eq!(ServerConfig::new("h", 0).bind_address(), "h:0");
    assert_eq!(ServerConfig::new("h", 65535).bind_address(), "h:65535");
    assert!(!ServerConfig::new("h", 1).without_graceful_shutdown().graceful_shutdown);
}

#[test]
fn test_server_config_with_security() {
    let config =
        ServerConfig::new("0.0.0.0", 8080).with_security(SecurityConfig::secure().with_api_key("test-key"));

    assert!(config.security.auth.enabled);
    assert_eq!(config.security.api_keys.len(), 1);
}

#[test]
fn test_security_config_default() {
    let config = SecurityConfig::default();
    assert!(!config.auth.enabled);
    assert!(config.rate_limit.enabled);
}

#[test]
fn test_security_config_secure() {
    let config = SecurityConfig::secure();
    assert!(config.auth.enabled);
    assert!(config.rate_limit.enabled);
}

#[test]
fn router_test_security_config_development() {
    let config = SecurityConfig::development();
    assert!(!config.auth.enabled);
    assert!(config.rate_limit.enabled);
}

#[test]
fn test_security_config_creation() {
    let config = SecurityConfig::secure().with_api_key("test-key");
    assert!(config.auth.enabled);
    assert_eq!(config.api_keys.len(), 1);
}

#[test]
fn api_integration_test_security_config_development() {
    let config = SecurityConfig::development();
    assert!(!config.auth.enabled);
    assert!(config.rate_limit.enabled);
}

#[test]
fn test_default_config() {
    let config = Config::default();
    assert_eq!(config.server.host, "127.0.0.1");
    assert_eq!(config.server.port, 3000);
    assert!(!config.security.auth.enabled);
    assert!(config.security.rate_limit.enabled);
}

#[test]
fn config_add_api_key() {
    let mut config = Config::default();
    config.add_api_key("");
    assert!(!config.security.auth.enabled);
    config.add_api_key("k1");
    config.add_api_key("k1");
    assert!(config.security.auth.enabled);
    assert_eq!(config.security.auth.api_keys, vec!["k1".to_string()]);
    assert_eq!(config.log_filter(), "info");
}

#[test]
fn test_session_not_found_display() {
    let err = ShellTunnelError::SessionNotFound("sess-00000001".into());
    assert!(err.to_string().contains("sess-00000001"));
    assert!(err.to_string().contains("not found"));
}

#[test]
fn test_session_exists_display() {
    let err = ShellTunnelError::SessionExists("sess-00000002".into());
    assert!(err.to_string().contains("sess-00000002"));
    assert!(err.to_string().contains("already exists"));
}

#[test]
fn test_io_error_conversion() {
    let io_err = std::io::Error::new(std::io::ErrorKind::NotFound, "file not found");
    let shell_err = ShellTunnelError::Io(io_err.to_string());
    assert!(matches!(shell_err, ShellTunnelError::Io(_)));
    assert!(shell_err.to_string().contains("I/O error"));
}

#[test]
fn test_timeout_display() {
    let err = ShellTunnelError::Timeout;
    assert!(err.to_string().contains("timeout"));
}

#[test]
fn test_pty_error_display() {
    let err = ShellTunnelError::Pty("failed to spawn".into());
    assert!(err.to_string().contains("PTY error"));
    assert!(err.to_string().contains("failed to spawn"));
}

#[test]
fn error_status_and_code_mapping() {
    let nf = ShellTunnelError::SessionNotFound("x".into());
    assert_eq!(nf.status_code(), 404);
    assert_eq!(nf.code(), "SESSION_NOT_FOUND");
    let ne = ShellTunnelError::NotExecutable(SessionState::Terminated);
    assert_eq!(ne.status_code(), 409);
    assert_eq!(ne.code(), "INVALID_STATE");
    assert_eq!(ne.to_string(), "session not executable: current state is Terminated");
    assert_eq!(ShellTunnelError::LockPoisoned.status_code(), 500);
    assert_eq!(ShellTunnelError::LockPoisoned.code(), "INTERNAL_ERROR");
    let t = ShellTunnelError::InvalidStateTransition { from: SessionState::Created, to: SessionState::Idle };
    assert_eq!(t.to_string(), "invalid state transition from Created to Idle");
}

#[test]
fn test_version_comparison() {
    assert!(is_newer_version("0.1.0", "0.2.0"));
    assert!(is_newer_version("0.1.0", "1.0.0"));
    assert!(is_newer_version("0.1.0", "0.1.1"));
    assert!(!is_newer_version("0.2.0", "0.1.0"));
    assert!(!is_newer_version("0.1.0", "0.1.0"));
    assert!(is_newer_version("v0.1.0", "v0.2.0"));
}

#[test]
fn version_comparison_malformed_parts() {
    assert!(is_newer_version("1.x.0", "1.0.1"));
    assert!(!is_newer_version("1", "1.0.0"));
    assert!(is_newer_version("1.0.99999999999", "1.0.1"));
}

#[test]
fn test_pty_size_default() {
    let size = PtySize::default();
    assert_eq!(size.rows, 24);
    assert_eq!(size.cols, 80);
}

#[test]
fn test_pty_size_new() {
    let size = PtySize::new(40, 120);
    assert_eq!(size.rows, 40);
    assert_eq!(size.cols, 120);
}

#[test]
fn test_pty_size_equality() {
    let size1 = PtySize::new(24, 80);
    let size2 = PtySize::default();
    assert_eq!(size1, size2);

    let size3 = PtySize::new(30, 100);
    assert_ne!(size1, size3);
}

#[test]
fn create_session_response_text() {
    let r = CreateSessionResponse::new(SessionId::from_raw(26));
    assert_eq!(r.session_id, 26);
    assert_eq!(r.session_id_str, "sess-0000001a");
}

#[test]
fn execute_response_success_rule() {
    let ok = ExecutionResult::default().with_exit_code(0);
    assert!(ExecuteCommandResponse::from_result(&ok).success);
    let failed = ExecutionResult::default().with_exit_code(2);
    assert!(!ExecuteCommandResponse::from_result(&failed).success);
    let timed = ExecutionResult::timeout(vec![], String::new(), 1_000);
    let r = ExecuteCommandResponse::from_result(&timed);
    assert!(!r.success);
    assert!(r.timed_out);
    assert_eq!(r.exit_code, None);
    let with_raw = r.with_raw_output(true, b"\xffz");
    assert_eq!(with_raw.raw_output, Some("\u{fffd}z".to_string()));
}

#[test]
fn execute_request_timeout_in_millis() {
    let req = ExecuteCommandRequest {
        command: "ls".to_string(),
        working_dir: None,
        env: EnvVars::new(),
        timeout_secs: Some(30),
    };
    assert_eq!(req.timeout(), Some(30_000));
}

#[test]
fn error_response_bodies() {
    let e = ErrorResponse::session_not_found("999999");
    assert_eq!(e.code, "SESSION_NOT_FOUND");
    assert_eq!(e.message, "Session '999999' not found");
    let s = ErrorResponse::invalid_state(SessionState::Terminated);
    assert_eq!(s.code, "INVALID_STATE");
    assert!(s.message.contains("Terminated"));
    let d = ErrorResponse::internal_error("x").with_details("y");
    assert_eq!(d.details, Some("y".to_string()));
    assert_eq!(ErrorResponse::bad_request("b").code, "BAD_REQUEST");
}

#[test]
fn ws_reply_rules() {
    assert!(matches!(WsMessage::Ping.reply(), WsReply::Send(WsMessage::Pong)));
    match (WsMessage::Execute { command: "echo hi".to_string(), timeout_secs: Some(2) }).reply() {
        WsReply::Run { command, timeout_ms } => {
            assert_eq!(command, "echo hi");
            assert_eq!(timeout_ms, Some(2_000));
        }
        _ => panic!("expected a run"),
    }
    assert!(matches!(WsMessage::Pong.reply(), WsReply::Ignore));
    let res = WsMessage::result_of(&ExecutionResult::default().with_exit_code(0));
    assert!(matches!(res, WsMessage::Result { success: true, exit_code: Some(0), .. }));
}
