use companion_core::decode::StreamMessage;
use companion_core::process::default_model;
use companion_core::process::ProcessError;
use companion_core::process::ProcessManager;
use companion_core::process::SessionConfig;
use companion_core::process::SessionError;
use companion_core::process::SessionStatus;
use tempfile::TempDir;

fn create_test_config() -> (SessionConfig, TempDir) {
    let temp_dir = TempDir::new().unwrap();
    let config = SessionConfig {
        working_dir: temp_dir.path().to_string_lossy().to_string(),
        model: "sonnet".to_string(),
        allowed_tools: vec![],
    };
    (config, temp_dir)
}

#[test]
fn test_new_manager() {
    let manager = ProcessManager::new();
    assert_eq!(manager.active_count(), 0);
}

#[test]
fn test_create_session() {
    let mut manager = ProcessManager::new();
    let (config, _temp_dir) = create_test_config();

    let result = manager.create_session(config);
    assert!(result.is_ok());

    let session_id = result.unwrap();
    assert!(!session_id.is_empty());
    assert_eq!(manager.active_count(), 1);
}

#[test]
fn test_invalid_working_dir() {
    let mut manager = ProcessManager::new();
    let config = SessionConfig {
        working_dir: "/nonexistent/path/that/does/not/exist".to_string(),
        model: "sonnet".to_string(),
        allowed_tools: vec![],
    };

    let result = manager.create_session(config);
    assert!(matches!(result, Err(ProcessError::InvalidWorkingDir(_))));
    // a failed creation never inserts a session
    assert_eq!(manager.active_count(), 0);
    assert!(manager.get_sessions().is_empty());
}

#[test]
fn test_session_not_found_interrupt() {
    let mut manager = ProcessManager::new();

    let result = manager.interrupt("nonexistent-session");
    assert!(matches!(result, Err(ProcessError::SessionNotFound(_))));
}

#[test]
fn test_terminate_nonexistent_is_ok() {
    let mut manager = ProcessManager::new();

    // Terminating a non-existent session should not error
    let result = manager.terminate("nonexistent-session");
    assert!(result.is_ok());
}

#[test]
fn test_is_alive_nonexistent() {
    let manager = ProcessManager::new();
    assert!(!manager.is_alive("nonexistent-session"));
}

#[test]
fn test_get_sessions_empty() {
    let manager = ProcessManager::new();
    let sessions = manager.get_sessions();
    assert!(sessions.is_empty());
}

#[test]
fn test_terminate_all_empty() {
    let mut manager = ProcessManager::new();
    manager.terminate_all();
    assert_eq!(manager.active_count(), 0);
}

#[test]
fn test_session_info_after_create() {
    let mut manager = ProcessManager::new();
    let (config, _temp_dir) = create_test_config();

    let session_id = manager.create_session(config.clone()).unwrap();
    let info = manager.get_session(&session_id);

    assert!(info.is_some());
    let info = info.unwrap();
    assert_eq!(info.id, session_id);
    assert_eq!(info.model, "sonnet");
    assert_eq!(info.status, SessionStatus::Idle);
    assert!(info.claude_session_id.is_none()); // No tool session until first prompt
    assert_eq!(info.prompt_count, 0);
    assert_eq!(info.total_cost_micros, 0);
}

#[test]
fn test_terminate_removes_session() {
    let mut manager = ProcessManager::new();
    let (config, _temp_dir) = create_test_config();

    let session_id = manager.create_session(config).unwrap();
    assert_eq!(manager.active_count(), 1);

    manager.terminate(&session_id).unwrap();
    assert_eq!(manager.active_count(), 0);
}

// A second submission while the first turn is still running is rejected.
#[test]
fn test_second_prompt_is_busy() {
    let mut manager = ProcessManager::new();
    let (config, _temp_dir) = create_test_config();
    let session_id = manager.create_session(config).unwrap();

    let args = manager.send_prompt(&session_id, "hello").unwrap();
    assert_eq!(
        args,
        vec!["-p", "hello", "--output-format", "stream-json", "--model", "sonnet"]
    );
    manager.start_turn(&session_id, 4242).unwrap();

    let second = manager.send_prompt(&session_id, "again");
    assert!(matches!(second, Err(ProcessError::SessionBusy)));
    let third = manager.start_turn(&session_id, 4243);
    assert!(matches!(third, Err(ProcessError::SessionBusy)));
}

// The argument vector carries the resumption token and the allow-list.
#[test]
fn test_prompt_args_with_resume_and_tools() {
    let mut manager = ProcessManager::new();
    let temp_dir = TempDir::new().unwrap();
    let config = SessionConfig {
        working_dir: temp_dir.path().to_string_lossy().to_string(),
        model: "opus".to_string(),
        allowed_tools: vec!["Read".to_string(), "Write".to_string()],
    };
    let session_id = manager.create_session(config).unwrap();

    // the first turn's system message reveals the tool's session token
    let token_msg = StreamMessage::System { session_id: Some("tok-1".to_string()) };
    manager.absorb_message(&session_id, &token_msg);

    let args = manager.send_prompt(&session_id, "next question").unwrap();
    assert_eq!(
        args,
        vec![
            "-p",
            "next question",
            "--output-format",
            "stream-json",
            "--resume",
            "tok-1",
            "--model",
            "opus",
            "--allowedTools",
            "Read,Write",
        ]
    );
}

// The first system token wins; later ones never overwrite it.
#[test]
fn test_first_resumption_token_wins() {
    let mut manager = ProcessManager::new();
    let (config, _temp_dir) = create_test_config();
    let session_id = manager.create_session(config).unwrap();

    manager.absorb_message(
        &session_id,
        &StreamMessage::System { session_id: Some("first".to_string()) },
    );
    manager.absorb_message(
        &session_id,
        &StreamMessage::System { session_id: Some("second".to_string()) },
    );

    let info = manager.get_session(&session_id).unwrap();
    assert_eq!(info.claude_session_id.as_deref(), Some("first"));
}

// Result costs accumulate additively.
#[test]
fn test_costs_accumulate() {
    let mut manager = ProcessManager::new();
    let (config, _temp_dir) = create_test_config();
    let session_id = manager.create_session(config).unwrap();

    manager.absorb_message(
        &session_id,
        &StreamMessage::TurnResult { cost_micros: Some(50_000), duration_ms: Some(10) },
    );
    manager.absorb_message(
        &session_id,
        &StreamMessage::TurnResult { cost_micros: Some(25_000), duration_ms: None },
    );

    let info = manager.get_session(&session_id).unwrap();
    assert_eq!(info.total_cost_micros, 75_000);
}

// Interrupt with no active process succeeds and leaves the session Idle.
#[test]
fn test_interrupt_idle_session() {
    let mut manager = ProcessManager::new();
    let (config, _temp_dir) = create_test_config();
    let session_id = manager.create_session(config).unwrap();

    let r = manager.interrupt(&session_id);
    assert!(matches!(r, Ok(None)));
    let info = manager.get_session(&session_id).unwrap();
    assert_eq!(info.status, SessionStatus::Idle);
}

// Interrupt during a turn returns the handle to kill and resets to Idle;
// the reader's own later reset is then a no-op.
#[test]
fn test_interrupt_then_reader_reset_race() {
    let mut manager = ProcessManager::new();
    let (config, _temp_dir) = create_test_config();
    let session_id = manager.create_session(config).unwrap();

    manager.send_prompt(&session_id, "hi").unwrap();
    manager.start_turn(&session_id, 77).unwrap();
    assert_eq!(manager.get_session(&session_id).unwrap().status, SessionStatus::Thinking);

    let r = manager.interrupt(&session_id);
    assert!(matches!(r, Ok(Some(77))));
    assert_eq!(manager.get_session(&session_id).unwrap().status, SessionStatus::Idle);

    // the reader task notices end-of-stream afterwards
    manager.finish_turn(&session_id);
    let info = manager.get_session(&session_id).unwrap();
    assert_eq!(info.status, SessionStatus::Idle);
    assert_eq!(info.prompt_count, 1);
}

// After terminate, the id is dead and absent from every listing.
#[test]
fn test_terminated_session_absent() {
    let mut manager = ProcessManager::new();
    let (config, _temp_dir) = create_test_config();
    let session_id = manager.create_session(config).unwrap();

    manager.terminate(&session_id).unwrap();
    assert!(!manager.is_alive(&session_id));
    assert!(manager.get_session(&session_id).is_none());
    for info in manager.get_sessions() {
        assert_ne!(info.id, session_id);
    }
}

// Terminating an unknown id changes nothing.
#[test]
fn test_terminate_unknown_preserves_registry() {
    let mut manager = ProcessManager::new();
    let (config, _temp_dir) = create_test_config();
    let session_id = manager.create_session(config).unwrap();

    let r = manager.terminate("no-such-id");
    assert!(matches!(r, Ok(None)));
    assert_eq!(manager.active_count(), 1);
    assert!(manager.is_alive(&session_id));
}

// terminate_all empties the registry and returns every live handle.
#[test]
fn test_terminate_all_returns_handles() {
    let mut manager = ProcessManager::new();
    let (config_a, _dir_a) = create_test_config();
    let (config_b, _dir_b) = create_test_config();
    let a = manager.create_session(config_a).unwrap();
    let b = manager.create_session(config_b).unwrap();

    manager.send_prompt(&a, "x").unwrap();
    manager.start_turn(&a, 7).unwrap();
    let _ = b;

    let handles = manager.terminate_all();
    assert_eq!(handles, vec![7]);
    assert_eq!(manager.active_count(), 0);
}

// Messages for a terminated session are discarded, not resurrected.
#[test]
fn test_writes_after_terminate_discarded() {
    let mut manager = ProcessManager::new();
    let (config, _temp_dir) = create_test_config();
    let session_id = manager.create_session(config).unwrap();

    manager.terminate(&session_id).unwrap();
    manager.absorb_message(
        &session_id,
        &StreamMessage::TurnResult { cost_micros: Some(10), duration_ms: None },
    );
    manager.finish_turn(&session_id);
    assert_eq!(manager.active_count(), 0);
}

#[test]
fn test_default_model_name() {
    assert_eq!(default_model(), "sonnet");
}

#[test]
fn test_session_error_wording() {
    let e = ProcessError::SessionNotFound("abc".to_string());
    let wrapped = SessionError::from_process(&e);
    assert_eq!(wrapped.message, "Session not found: abc");
    let busy = SessionError::from_process(&ProcessError::SessionBusy);
    assert_eq!(busy.message, "Session is busy processing another prompt");
}

#[test]
fn test_generated_ids_are_fresh() {
    let mut manager = ProcessManager::new();
    let (config, _temp_dir) = create_test_config();
    let a = manager.create_session(config.clone()).unwrap();
    let b = manager.create_session(config).unwrap();
    assert_ne!(a, b);
    assert_eq!(a.len(), 36);
    assert_eq!(manager.active_count(), 2);
}
