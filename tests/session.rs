use std::collections::HashSet;

use shell_tunnel::{
    EnvVars, IdCounter, SessionConfig, SessionContext, SessionId, SessionState, SessionStore,
    StateProbe,
};

#[test]
fn test_uniqueness() {
    let mut counter = IdCounter::new();
    let mut ids = HashSet::new();
    for _ in 0..10_000 {
        let id = SessionId::new(&mut counter).unwrap();
        assert!(ids.insert(id), "Duplicate ID generated: {}", id.to_string());
    }
    assert_eq!(ids.len(), 10_000);
}

#[test]
fn test_display_format() {
    let id = SessionId::from_raw(255);
    assert_eq!(id.to_string(), "sess-000000ff");

    let id2 = SessionId::from_raw(0x12345678);
    assert_eq!(id2.to_string(), "sess-12345678");
}

#[test]
fn test_parse_valid() {
    let id: SessionId = "sess-000000ff".parse().unwrap();
    assert_eq!(id.as_u64(), 255);

    let id2: SessionId = "sess-12345678".parse().unwrap();
    assert_eq!(id2.as_u64(), 0x12345678);
}

#[test]
fn test_parse_invalid() {
    assert!("000000ff".parse::<SessionId>().is_err());
    assert!("session-000000ff".parse::<SessionId>().is_err());
    assert!("sess-gggggggg".parse::<SessionId>().is_err());
    assert!("".parse::<SessionId>().is_err());
}

#[test]
fn test_roundtrip() {
    let mut counter = IdCounter::new();
    let first = SessionId::new(&mut counter).unwrap();
    let s = first.to_string();
    let parsed: SessionId = s.parse().unwrap();
    assert_eq!(first, parsed);
}

#[test]
fn test_hash_eq() {
    let id1 = SessionId::from_raw(42);
    let id2 = SessionId::from_raw(42);
    let id3 = SessionId::from_raw(43);

    assert_eq!(id1, id2);
    assert_ne!(id1, id3);

    let mut set = HashSet::new();
    set.insert(id1);
    assert!(set.contains(&id2));
    assert!(!set.contains(&id3));
}

#[test]
fn id_round_trip_fixed_values() {
    for v in [0u64, 255, 0x12345678, 0xffff_ffff, 1, 0xdead_beef] {
        let id = SessionId::from_raw(v);
        let parsed = SessionId::parse(&id.to_string()).unwrap();
        assert_eq!(parsed.as_u64(), v);
    }
}

#[test]
fn id_display_keeps_eight_lowest_digits() {
    assert_eq!(SessionId::from_raw(0x1_0000_0001).to_string(), "sess-00000001");
    assert_eq!(SessionId::from_raw(0).to_string(), "sess-00000000");
}

#[test]
fn id_parse_accepts_upper_case_and_rejects_other_lengths() {
    assert_eq!(SessionId::parse("sess-000000FF").unwrap().as_u64(), 255);
    assert!(SessionId::parse("sess-0000000ff").is_err());
    assert!(SessionId::parse("sess-00000ff").is_err());
    match SessionId::parse("bogus") {
        Err(shell_tunnel::ShellTunnelError::SessionNotFound(s)) => assert_eq!(s, "bogus"),
        _ => panic!("expected SessionNotFound"),
    }
}

#[test]
fn id_counter_starts_at_one_and_counts_up() {
    let mut counter = IdCounter::new();
    assert_eq!(SessionId::new(&mut counter).unwrap().as_u64(), 1);
    assert_eq!(SessionId::new(&mut counter).unwrap().as_u64(), 2);
}

#[test]
fn test_valid_transitions() {
    let mut state = SessionState::Created;
    assert!(state.transition_to(SessionState::Active).is_ok());
    assert_eq!(state, SessionState::Active);

    assert!(state.transition_to(SessionState::Idle).is_ok());
    assert_eq!(state, SessionState::Idle);

    assert!(state.transition_to(SessionState::Active).is_ok());
    assert_eq!(state, SessionState::Active);

    assert!(state.transition_to(SessionState::Terminated).is_ok());
    assert_eq!(state, SessionState::Terminated);
}

#[test]
fn test_invalid_created_to_idle() {
    let mut state = SessionState::Created;
    assert!(state.transition_to(SessionState::Idle).is_err());
    assert_eq!(state, SessionState::Created);
}

#[test]
fn test_invalid_from_terminated() {
    let mut state = SessionState::Terminated;
    assert!(state.transition_to(SessionState::Active).is_err());
    assert!(state.transition_to(SessionState::Idle).is_err());
    assert!(state.transition_to(SessionState::Created).is_err());
}

#[test]
fn test_is_terminal() {
    assert!(!SessionState::Created.is_terminal());
    assert!(!SessionState::Active.is_terminal());
    assert!(!SessionState::Idle.is_terminal());
    assert!(SessionState::Terminated.is_terminal());
}

#[test]
fn test_can_execute() {
    assert!(!SessionState::Created.can_execute());
    assert!(SessionState::Active.can_execute());
    assert!(SessionState::Idle.can_execute());
    assert!(!SessionState::Terminated.can_execute());
}

#[test]
fn test_default() {
    let state = SessionState::default();
    assert_eq!(state, SessionState::Created);
}

#[test]
fn state_transition_table_exhaustive() {
    let (c, a, i, t) = (SessionState::Created, SessionState::Active, SessionState::Idle, SessionState::Terminated);
    let all = [c, a, i, t];
    let legal = [(c, a), (a, i), (a, t), (i, a), (i, t)];
    for from in all {
        for to in all {
            let mut s = from;
            let r = s.transition_to(to);
            if legal.contains(&(from, to)) {
                assert!(r.is_ok());
                assert_eq!(s, to);
            } else {
                match r {
                    Err(shell_tunnel::ShellTunnelError::InvalidStateTransition { from: f, to: t }) => {
                        assert_eq!(f, from);
                        assert_eq!(t, to);
                    }
                    _ => panic!("expected InvalidStateTransition"),
                }
                assert_eq!(s, from);
            }
        }
    }
}

#[test]
fn test_context_new() {
    let ctx = SessionContext::new();
    assert!(ctx.cwd().is_none());
    assert!(ctx.env().is_empty());
    assert!(ctx.last_command().is_none());
    assert!(ctx.last_exit_code().is_none());
    assert_eq!(ctx.execution_count(), 0);
}

#[test]
fn test_context_with_cwd() {
    let ctx = SessionContext::with_cwd("/home/user");
    assert_eq!(ctx.cwd(), Some(&"/home/user".to_string()));
}

#[test]
fn test_context_set_cwd() {
    let mut ctx = SessionContext::new();
    ctx.set_cwd("/tmp");
    assert_eq!(ctx.cwd(), Some(&"/tmp".to_string()));

    ctx.clear_cwd();
    assert!(ctx.cwd().is_none());
}

#[test]
fn test_context_env() {
    let mut ctx = SessionContext::new();
    ctx.set_env("PATH", "/usr/bin");
    ctx.set_env("HOME", "/home/user");

    assert_eq!(ctx.get_env("PATH"), Some("/usr/bin"));
    assert_eq!(ctx.get_env("HOME"), Some("/home/user"));
    assert_eq!(ctx.get_env("NONEXISTENT"), None);

    assert_eq!(ctx.remove_env("PATH"), Some("/usr/bin".to_string()));
    assert_eq!(ctx.get_env("PATH"), None);
}

#[test]
fn test_context_merge_env() {
    let mut ctx = SessionContext::new();
    ctx.set_env("EXISTING", "value");

    let mut new_vars = EnvVars::new();
    new_vars.set("NEW1".to_string(), "val1".to_string());
    new_vars.set("NEW2".to_string(), "val2".to_string());

    ctx.merge_env(new_vars);

    assert_eq!(ctx.get_env("EXISTING"), Some("value"));
    assert_eq!(ctx.get_env("NEW1"), Some("val1"));
    assert_eq!(ctx.get_env("NEW2"), Some("val2"));
}

#[test]
fn context_merge_incoming_wins() {
    let mut ctx = SessionContext::new();
    ctx.set_env("K", "old");
    let mut vars = EnvVars::new();
    vars.set("K".to_string(), "new".to_string());
    ctx.merge_env(vars);
    assert_eq!(ctx.get_env("K"), Some("new"));
    assert_eq!(ctx.env().len(), 1);
}

#[test]
fn test_context_record_execution() {
    let mut ctx = SessionContext::new();

    ctx.record_execution("ls -la", Some(0));
    assert_eq!(ctx.last_command(), Some(&"ls -la".to_string()));
    assert_eq!(ctx.last_exit_code(), Some(0));
    assert_eq!(ctx.execution_count(), 1);
    assert!(ctx.last_succeeded());
    assert!(!ctx.last_failed());

    ctx.record_execution("false", Some(1));
    assert_eq!(ctx.last_command(), Some(&"false".to_string()));
    assert_eq!(ctx.last_exit_code(), Some(1));
    assert_eq!(ctx.execution_count(), 2);
    assert!(!ctx.last_succeeded());
    assert!(ctx.last_failed());
}

#[test]
fn context_record_keeps_missing_exit_code() {
    let mut ctx = SessionContext::new();
    ctx.record_execution("sleep 10", None);
    assert_eq!(ctx.last_exit_code(), None);
    assert!(!ctx.last_succeeded());
    assert!(!ctx.last_failed());
    assert_eq!(ctx.execution_count(), 1);
}

#[test]
fn test_state_probe_cwd_command() {
    let cmd = StateProbe::cwd_command();
    assert!(!cmd.is_empty());
}

#[test]
fn test_state_probe_env_command() {
    let cmd = StateProbe::env_command();
    assert!(!cmd.is_empty());
}

#[test]
fn test_state_probe_parse_cwd() {
    let output = "/home/user\n";
    let cwd = StateProbe::parse_cwd(output);
    assert_eq!(cwd, Some("/home/user".to_string()));

    let empty = "";
    assert!(StateProbe::parse_cwd(empty).is_none());
}

#[test]
fn state_probe_parse_cwd_first_line() {
    assert_eq!(StateProbe::parse_cwd("  /a/b\r\n/c\n"), Some("/a/b".to_string()));
    assert!(StateProbe::parse_cwd(" \n\t ").is_none());
}

#[test]
fn test_state_probe_parse_env() {
    let output = "PATH=/usr/bin\nHOME=/home/user\nEMPTY=\n";
    let env = StateProbe::parse_env(output);

    assert_eq!(env.get("PATH"), Some(&"/usr/bin".to_string()));
    assert_eq!(env.get("HOME"), Some(&"/home/user".to_string()));
    assert_eq!(env.get("EMPTY"), Some(&"".to_string()));
}

#[test]
fn state_probe_parse_env_skips_and_overrides() {
    let env = StateProbe::parse_env("noequals\n =x\nA=1=2\nA=3\n");
    assert_eq!(env.len(), 1);
    assert_eq!(env.get("A"), Some(&"3".to_string()));
}

#[test]
fn test_state_probe_marker() {
    let marker1 = StateProbe::marker("TEST");
    let marker2 = StateProbe::marker("TEST");

    assert!(marker1.contains("TEST"));
    assert!(marker1.contains("MARKER"));
    assert!(marker1 != marker2 || marker1.contains("TEST"));
}

#[test]
fn test_state_probe_echo_marker() {
    let marker = "__TEST_MARKER__";
    let cmd = StateProbe::echo_marker(marker);
    assert_eq!(cmd, "echo __TEST_MARKER__");
}

#[test]
fn store_test_create_session() {
    let mut store = SessionStore::new();
    let id = store.create(SessionConfig::default()).unwrap();

    assert!(store.contains(&id));
    assert_eq!(store.count(), 1);
}

#[test]
fn test_get_session() {
    let mut store = SessionStore::new();
    let id = store.create(SessionConfig::default()).unwrap();

    let session = store.get(&id).unwrap();
    assert_eq!(session.id, id);
    assert_eq!(session.state, SessionState::Created);
}

#[test]
fn test_get_nonexistent() {
    let store = SessionStore::new();
    let fake_id = SessionId::from_raw(999999);

    let result = store.get(&fake_id);
    assert!(result.is_none());
}

#[test]
fn test_update_session() {
    let mut store = SessionStore::new();
    let id = store.create(SessionConfig::default()).unwrap();

    store
        .update(&id, |mut s| {
            s.state = SessionState::Active;
            s
        })
        .unwrap();

    let session = store.get(&id).unwrap();
    assert_eq!(session.state, SessionState::Active);
}

#[test]
fn test_update_nonexistent() {
    let mut store = SessionStore::new();
    let fake_id = SessionId::from_raw(999999);

    let result = store.update(&fake_id, |s| s);
    assert!(result.is_err());
}

#[test]
fn test_remove_session() {
    let mut store = SessionStore::new();
    let id = store.create(SessionConfig::default()).unwrap();

    let removed = store.remove(&id);
    assert!(removed.is_some());
    assert_eq!(removed.unwrap().id, id);

    assert!(!store.contains(&id));
    assert_eq!(store.count(), 0);
}

#[test]
fn test_list_ids() {
    let mut store = SessionStore::new();
    let id1 = store.create(SessionConfig::default()).unwrap();
    let id2 = store.create(SessionConfig::default()).unwrap();
    let id3 = store.create(SessionConfig::default()).unwrap();

    let ids = store.list_ids();
    assert_eq!(ids.len(), 3);
    assert!(ids.contains(&id1));
    assert!(ids.contains(&id2));
    assert!(ids.contains(&id3));
}

#[test]
fn test_remove_matching() {
    let mut store = SessionStore::new();
    store.create(SessionConfig::default()).unwrap();
    store.create(SessionConfig::default()).unwrap();

    let ids = store.list_ids();
    store
        .update(&ids[0], |mut s| {
            s.state = SessionState::Terminated;
            s
        })
        .unwrap();

    let removed = store.remove_matching(|s| s.state == SessionState::Terminated);

    assert_eq!(removed, 1);
    assert_eq!(store.count(), 1);
}

#[test]
fn store_hundred_creations_distinct() {
    let mut store = SessionStore::new();
    let mut ids = HashSet::new();
    for _ in 0..100 {
        ids.insert(store.create(SessionConfig::default()).unwrap());
    }
    assert_eq!(ids.len(), 100);
    assert_eq!(store.count(), 100);
}

#[test]
fn store_remove_then_get_is_empty() {
    let mut store = SessionStore::new();
    let a = store.create(SessionConfig::default()).unwrap();
    let _b = store.create(SessionConfig::default()).unwrap();
    assert_eq!(store.count(), 2);
    assert!(store.remove(&a).is_some());
    assert!(store.get(&a).is_none());
    assert_eq!(store.count(), 1);
    assert!(store.remove(&a).is_none());
    assert_eq!(store.count(), 1);
}

#[test]
fn store_create_seeds_working_dir() {
    let mut store = SessionStore::new();
    let mut config = SessionConfig::default();
    config.working_dir = Some("/srv".to_string());
    let id = store.create(config).unwrap();
    let s = store.get(&id).unwrap();
    assert_eq!(s.context.cwd(), Some(&"/srv".to_string()));
}

#[test]
fn store_execution_lifecycle() {
    let mut store = SessionStore::new();
    let id = store.create(SessionConfig::default()).unwrap();
    match store.begin_execution(&id) {
        Err(shell_tunnel::ShellTunnelError::NotExecutable(SessionState::Created)) => {}
        _ => panic!("a created session cannot execute"),
    }
    store
        .update(&id, |mut s| {
            s.state = SessionState::Idle;
            s
        })
        .unwrap();
    store.begin_execution(&id).unwrap();
    assert_eq!(store.get(&id).unwrap().state, SessionState::Active);
    store.finish_execution(&id, "echo hi", Some(0)).unwrap();
    let s = store.get(&id).unwrap();
    assert_eq!(s.state, SessionState::Idle);
    assert_eq!(s.context.execution_count(), 1);
    assert_eq!(s.context.last_exit_code(), Some(0));
    let missing = SessionId::from_raw(424242);
    assert!(matches!(
        store.begin_execution(&missing),
        Err(shell_tunnel::ShellTunnelError::SessionNotFound(_))
    ));
}

#[test]
fn session_idle_time() {
    let mut store = SessionStore::new();
    let id = store.create(SessionConfig::default()).unwrap();
    let s = store.get(&id).unwrap();
    assert_eq!(s.idle_at(s.last_activity + 1_500), 1_500);
    assert_eq!(s.idle_at(0), 0);
}

#[test]
fn state_probe_marker_for_fixed_time() {
    assert_eq!(StateProbe::marker_at("TEST", 42), "__TEST_42_MARKER__");
}

#[test]
fn store_count_after_creates_and_removes() {
    let mut store = SessionStore::new();
    let a = store.create(SessionConfig::default()).unwrap();
    let b = store.create(SessionConfig::default()).unwrap();
    let _c = store.create(SessionConfig::default()).unwrap();
    assert_eq!(a.as_u64(), 1);
    assert_eq!(b.as_u64(), 2);
    store.remove(&a).unwrap();
    store
        .update(&b, |mut s| {
            s.state = SessionState::Terminated;
            s
        })
        .unwrap();
    assert_eq!(store.remove_matching(|s| s.state == SessionState::Terminated), 1);
    assert_eq!(store.count(), 1);
    assert!(store.get(&a).is_none() && store.get(&b).is_none());
    assert!(!store.list_ids().contains(&a));
}
