//! Enforcement, the bypass and the agent's name, and the full check.

use agent_mail_guard::check::{
    guard_check, guard_check_full, guard_check_start, is_bypass_active, is_guard_gated,
    is_guard_gated_from_values, resolve_guard_agent_name, CheckStart,
};
use agent_mail_guard::guard::{FileReservationRecord, GuardError, GuardMode};

fn reservations() -> Vec<FileReservationRecord> {
    [("app/api/*.py", "OtherAgent"), ("my/stuff/*", "MyAgent")]
        .iter()
        .map(|(pattern, agent)| FileReservationRecord {
            path_pattern: pattern.to_string(),
            agent_name: agent.to_string(),
            exclusive: true,
            expires_ts: "2099-01-01T00:00:00Z".to_string(),
            released_ts: None,
            normalized_pattern: pattern.to_string(),
            has_glob: true,
        })
        .collect()
}

fn paths(names: &[&str]) -> Vec<String> {
    names.iter().map(|n| n.to_string()).collect()
}

#[test]
fn guard_gate_from_values_checks_enforcement_flag() {
    assert!(is_guard_gated_from_values(None, None, None));
    assert!(is_guard_gated_from_values(Some("1"), None, None));
    assert!(is_guard_gated_from_values(Some("true"), Some("0"), Some("0")));
    assert!(!is_guard_gated_from_values(Some("0"), Some("1"), Some("1")));
}

#[test]
fn guard_gate_not_disabled_by_worktrees_false() {
    assert!(is_guard_gated_from_values(None, Some("false"), None));
    assert!(is_guard_gated_from_values(None, Some("0"), None));
    assert!(is_guard_gated_from_values(None, Some("false"), Some("false")));
    assert!(is_guard_gated_from_values(None, None, Some("false")));
    assert!(is_guard_gated_from_values(None, None, Some("0")));
}

#[test]
fn is_guard_gated_false_only_when_enforcement_explicitly_disabled() {
    assert!(!is_guard_gated(Some("false")));
    assert!(!is_guard_gated(Some("0")));
    assert!(is_guard_gated(Some("1")));
    assert!(is_guard_gated(None));
}

#[test]
fn is_bypass_active_when_set() {
    assert!(is_bypass_active(Some("1")));
}

#[test]
fn is_bypass_active_false_when_unset() {
    assert!(!is_bypass_active(None));
}

#[test]
fn is_bypass_active_false_for_zero() {
    assert!(!is_bypass_active(Some("0")));
}

#[test]
fn guard_mode_from_env_defaults_to_block() {
    assert_eq!(GuardMode::from_value(None), GuardMode::Block);
}

#[test]
fn guard_mode_from_env_warn() {
    assert_eq!(GuardMode::from_value(Some("warn")), GuardMode::Warn);
}

#[test]
fn guard_mode_from_env_warn_case_insensitive() {
    assert_eq!(GuardMode::from_value(Some("WARN")), GuardMode::Warn);
}

#[test]
fn guard_mode_from_env_unknown_defaults_to_block() {
    assert_eq!(GuardMode::from_value(Some("unknown_value")), GuardMode::Block);
}

#[test]
fn guard_mode_from_env_whitespace_trimmed() {
    assert_eq!(GuardMode::from_value(Some("  warn  ")), GuardMode::Warn);
}

#[test]
fn guard_check_full_bypass_returns_empty_conflicts() {
    match guard_check_start(GuardMode::Block, true, true, None) {
        CheckStart::Done(result) => {
            assert!(result.bypassed);
            assert!(!result.gated);
            assert!(result.conflicts.is_empty());
        }
        _ => panic!("a bypass ends the check"),
    }
}

#[test]
fn guard_check_full_gated_when_enforcement_explicitly_disabled() {
    match guard_check_start(GuardMode::Block, false, is_guard_gated(Some("0")), None) {
        CheckStart::Done(result) => {
            assert!(result.gated, "guard should be gated when enforcement explicitly disabled");
            assert!(result.conflicts.is_empty(), "gated guard should have no conflicts");
        }
        _ => panic!("without enforcement the check ends"),
    }
}

#[test]
fn guard_check_full_missing_agent_name_returns_error() {
    assert!(matches!(
        guard_check_start(GuardMode::Block, false, true, None),
        CheckStart::Fail(GuardError::MissingAgentName)
    ));
}

#[test]
fn guard_check_full_detects_conflict_when_enabled() {
    let agent = match guard_check_start(GuardMode::Warn, false, true, Some("DifferentAgent".into())) {
        CheckStart::Check { agent } => agent,
        _ => panic!("the check goes on"),
    };
    let result = guard_check_full(
        GuardMode::Warn,
        &agent,
        &reservations(),
        &paths(&["app/api/users.py"]),
        false,
    )
    .expect("guard_check_full");
    assert!(!result.gated);
    assert!(!result.bypassed);
    assert_eq!(result.mode, GuardMode::Warn);
    assert_eq!(result.conflicts.len(), 1);
    assert_eq!(result.conflicts[0].holder, "OtherAgent");
}

#[test]
fn guard_check_full_no_conflict_for_own_reservations() {
    for name in ["MyAgent", "myagent"] {
        let result = guard_check_full(
            GuardMode::Block,
            name,
            &reservations(),
            &paths(&["my/stuff/file.txt"]),
            false,
        )
        .expect("guard_check_full");
        assert!(result.conflicts.is_empty(), "own reservations should not conflict");
    }
}

#[test]
fn guard_check_full_resolves_current_pane_identity_when_agent_name_is_unset() {
    assert_eq!(resolve_guard_agent_name(None, Some("MyAgent")), Some("MyAgent".to_string()));
    assert_eq!(resolve_guard_agent_name(Some("  "), Some("MyAgent")), Some("MyAgent".to_string()));
    assert_eq!(resolve_guard_agent_name(Some(" A "), Some("MyAgent")), Some("A".to_string()));
    assert_eq!(resolve_guard_agent_name(None, None), None);
}

#[test]
fn guard_check_missing_agent_name_returns_error() {
    let result = guard_check(None, &reservations(), &paths(&["app/api/users.py"]), false);
    assert!(result.is_err());
    assert!(matches!(result.unwrap_err(), GuardError::MissingAgentName));
}

#[test]
fn guard_check_detects_conflicts() {
    let conflicts = guard_check(
        Some("DifferentAgent"),
        &reservations(),
        &paths(&["app/api/users.py"]),
        false,
    )
    .expect("guard_check");
    assert_eq!(conflicts.len(), 1);
    assert_eq!(conflicts[0].holder, "OtherAgent");
}

#[test]
fn guard_check_no_conflicts_for_unrelated_paths() {
    let conflicts = guard_check(
        Some("SomeAgent"),
        &reservations(),
        &paths(&["totally/unrelated.txt"]),
        false,
    )
    .expect("guard_check");
    assert!(conflicts.is_empty());
}

#[test]
fn guard_check_empty_paths_no_conflicts() {
    let conflicts =
        guard_check(Some("SomeAgent"), &reservations(), &Vec::new(), false).expect("guard_check");
    assert!(conflicts.is_empty());
}

#[test]
fn errors_say_what_is_wrong() {
    let error = GuardError::InvalidRepo { path: "/x".to_string() };
    assert!(error.message().contains("/x"));
    let error = GuardError::PushScanTruncated { detail: "too much".to_string() };
    assert!(error.message().contains("too much"));
    let error = GuardError::InvalidReservationPattern {
        pattern: "[a".to_string(),
        error: "unclosed".to_string(),
    };
    assert!(error.message().contains("[a") && error.message().contains("unclosed"));
    assert!(GuardError::MissingAgentName.message().contains("AGENT_NAME"));
    let error = GuardError::GlobalHooksPath {
        hooks_path: "/etc/h".to_string(),
        origin: "global".to_string(),
    };
    assert!(error.message().contains("/etc/h"));
    for error in [
        GuardError::Git { message: "g".to_string() },
        GuardError::Io { message: "i".to_string() },
        GuardError::Json { message: "j".to_string() },
        GuardError::NotImplemented,
    ] {
        assert!(!error.message().is_empty());
    }
}
