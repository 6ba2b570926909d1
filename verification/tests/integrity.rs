//! The probe of the mailbox's integrity.

use agent_mail_guard::integrity::{
    classify_integrity_busy_root_cause, classify_integrity_open_root_cause,
    classify_recovery_failure_root_cause, compact_probe_detail, current_process_identity,
    diagnose_unopenable_namespace_sidecar, is_franken_namespace_sidecar_name,
    namespace_sidecar_access_probe, namespace_sidecar_environment_summary, quoted_path_in_message,
    OwnedPath, Ownership, SidecarTrial,
};
use agent_mail_guard::integrity_probe::{
    integrity_busy_probe_failure, probe_integrity, CheckOutcome, IntegrityAction, IntegrityFacts,
    IntegrityProbe,
};
use agent_mail_guard::report::{ProbeFailure, ProbeResult};

fn failure(result: ProbeResult) -> ProbeFailure {
    match result {
        ProbeResult::Fail(failure) => {
            assert_eq!(failure.name, "integrity");
            failure
        }
        ProbeResult::Pass { name } => panic!("{name} must fail"),
    }
}

fn concluded(action: IntegrityAction) -> ProbeResult {
    match action {
        IntegrityAction::Conclude { result } => result,
        _ => panic!("the probe must be over"),
    }
}

fn facts() -> IntegrityFacts {
    IntegrityFacts {
        enabled: true,
        in_memory: false,
        url: "sqlite:///m/storage.sqlite3".into(),
        db_path: Some("m/storage.sqlite3".into()),
        accepted: Ok(()),
        file_missing: false,
        has_archive: true,
    }
}

/// A probe that has locked the mailbox and opened its pool.
fn at_check() -> IntegrityProbe {
    let (mut probe, action) = probe_integrity(facts());
    assert!(matches!(action, IntegrityAction::AcquireLock { after_ms: 0 }));
    assert!(matches!(probe.on_lock(Ok(())), IntegrityAction::OpenPool));
    assert!(matches!(probe.on_pool(Ok(())), IntegrityAction::RunCheck));
    probe
}

#[test]
fn namespace_sidecar_diagnosis_ignores_unrelated_errors() {
    let diagnose = |detail: &str, file_name: Option<&str>| {
        diagnose_unopenable_namespace_sidecar(detail, file_name, "db", Ok(()), "context")
    };
    assert!(diagnose("database is locked", None).is_none());
    assert!(
        diagnose("unable to open database file: '/t/storage.sqlite3'", Some("storage.sqlite3"))
            .is_none(),
        "only namespace sidecars are diagnosed here; the main file keeps the open classifier"
    );
    assert!(diagnose("unable to open database file", None).is_none());
    assert_eq!(
        quoted_path_in_message("x: 'a/b-fsqlite-ns-use' y"),
        Some("a/b-fsqlite-ns-use".to_string())
    );
}

#[test]
fn unopenable_namespace_sidecar_is_reported_as_environment_not_busy() {
    let gate = "/t/mailbox/storage.sqlite3-fsqlite-ns-gate";
    let access = namespace_sidecar_access_probe(SidecarTrial::NotCreated {
        parent: "/t/mailbox".into(),
        error: "Permission denied (os error 13)".into(),
    });
    let sidecar = OwnedPath {
        path: gate.into(),
        ownership: Ownership::Unknown { error: "No such file".into() },
    };
    let parent = OwnedPath {
        path: "/t/mailbox".into(),
        ownership: Ownership::Known { mode: 0o40555, uid: 1000, gid: 50 },
    };
    let identity = current_process_identity(9, "Name:\tam\nUid:\t1000\t1000\nGid:\t50\t50\n");
    let context = namespace_sidecar_environment_summary(&sidecar, Some(&parent), &identity);
    assert_eq!(
        context,
        format!("{gate} No such file; /t/mailbox mode 555 uid 1000 gid 50; process pid 9 uid 1000 gid 50")
    );
    let result = diagnose_unopenable_namespace_sidecar(
        &format!("Connection error: unable to open database file: '{gate}'"),
        Some("storage.sqlite3-fsqlite-ns-gate"),
        "/t/mailbox/storage.sqlite3",
        access,
        &context,
    );
    let ProbeFailure { problem, fix, .. } = failure(result.expect("a diagnosis"));
    assert!(
        problem.contains("cannot open its namespace sidecar")
            && problem.contains("a new file cannot be created in")
            && problem.contains("The mailbox is not busy")
            && problem.contains("No recovery was attempted"),
        "{problem}"
    );
    assert!(problem.contains("mode 555"), "directory mode must be reported: {problem}");
    assert!(fix.contains("chown/chmod"), "{fix}");
    assert!(!fix.contains("Wait for the current mailbox owner"), "{fix}");
}

#[test]
fn openable_namespace_sidecar_is_reported_as_stale_not_busy() {
    let result = diagnose_unopenable_namespace_sidecar(
        "unable to open database file: '/t/storage.sqlite3-fsqlite-ns-gate'",
        Some("storage.sqlite3-fsqlite-ns-gate"),
        "/t/storage.sqlite3",
        namespace_sidecar_access_probe(SidecarTrial::Opened),
        "context",
    );
    let ProbeFailure { problem, fix, .. } = failure(result.expect("a diagnosis"));
    assert!(
        problem.contains("although this process can open it")
            && problem.contains("No recovery was attempted"),
        "{problem}"
    );
    assert!(fix.contains("am doctor locks") && fix.contains("stale"), "{fix}");
}

#[test]
fn access_to_a_sidecar_is_told_with_its_reason() {
    assert!(namespace_sidecar_access_probe(SidecarTrial::Created).is_ok());
    assert_eq!(
        namespace_sidecar_access_probe(SidecarTrial::NoParent),
        Err("the sidecar path has no parent directory".to_string())
    );
    assert_eq!(
        namespace_sidecar_access_probe(SidecarTrial::OpenFailed { error: "e".into() }),
        Err("open read-write failed: e".to_string())
    );
    assert!(is_franken_namespace_sidecar_name(Some("a-fsqlite-ns-use")));
    assert!(!is_franken_namespace_sidecar_name(Some("a-fsqlite-ns-use.bak")));
    assert!(!is_franken_namespace_sidecar_name(None));
    assert_eq!(quoted_path_in_message("a 'b"), None);
    assert_eq!(quoted_path_in_message("a ' ' c 'd'"), None);
    assert_eq!(current_process_identity(3, ""), "pid 3 uid ? gid ?");
}

#[test]
fn integrity_probe_missing_db_without_archive_is_ok_for_fresh_startup() {
    let fresh = IntegrityFacts { file_missing: true, has_archive: false, ..facts() };
    let result = concluded(probe_integrity(fresh).1);
    assert!(
        matches!(result, ProbeResult::Pass { name: "integrity" }),
        "fresh startup with a missing DB should not surface IntegrityCorruption: {result:?}"
    );
}

#[test]
fn integrity_probe_missing_db_with_archive_runs_one_caller_owned_recovery() {
    let missing = IntegrityFacts { file_missing: true, ..facts() };
    let (mut probe, action) = probe_integrity(missing);
    assert!(matches!(action, IntegrityAction::AcquireLock { after_ms: 0 }));
    assert!(matches!(probe.on_lock(Ok(())), IntegrityAction::ValidateTarget));
    assert!(matches!(
        probe.on_validated(Ok(()), true, true),
        IntegrityAction::Recover { with_archive: true }
    ));
    assert!(matches!(
        concluded(probe.on_recovered(Ok(()))),
        ProbeResult::Pass { name: "integrity" }
    ));
}

#[test]
fn probe_integrity_skipped_when_disabled() {
    let disabled = IntegrityFacts { enabled: false, ..facts() };
    assert!(matches!(concluded(probe_integrity(disabled).1), ProbeResult::Pass { .. }));
}

#[test]
fn probe_integrity_passes_for_memory_db() {
    let memory = IntegrityFacts {
        in_memory: true,
        url: "sqlite:///:memory:".into(),
        db_path: None,
        ..facts()
    };
    assert!(matches!(concluded(probe_integrity(memory).1), ProbeResult::Pass { .. }));
}

#[test]
fn probe_integrity_passes_healthy_db() {
    let mut probe = at_check();
    assert!(matches!(probe.on_check(CheckOutcome::Clean), IntegrityAction::CompareArchive));
    assert!(matches!(probe.on_compared(false), IntegrityAction::AdvanceFloor));
    let result = concluded(probe.on_floor_advanced());
    assert!(
        matches!(result, ProbeResult::Pass { .. }),
        "healthy DB should pass probe_integrity; got: {result:?}"
    );
}

#[test]
fn probe_integrity_reports_busy_when_mailbox_activity_lock_is_held() {
    let (mut probe, mut action) = probe_integrity(facts());
    let mut attempts = 0;
    let mut waited = 0;
    while let IntegrityAction::AcquireLock { after_ms } = action {
        attempts += 1;
        waited += after_ms;
        action = probe.on_lock(Err("mailbox activity lock is busy".into()));
    }
    assert_eq!(attempts, 8);
    assert_eq!(waited, 7 * 150);
    let result = concluded(action);
    assert!(
        matches!(result, ProbeResult::Fail(ProbeFailure { name: "integrity", ref problem, .. }) if problem.contains("busy")),
        "probe_integrity should report mailbox activity contention as busy: {result:?}"
    );
}

#[test]
fn probe_integrity_recovers_when_archive_is_ahead_of_healthy_db() {
    let mut probe = at_check();
    probe.on_check(CheckOutcome::Clean);
    assert!(matches!(probe.on_compared(true), IntegrityAction::ValidateTarget));
    assert!(matches!(
        probe.on_validated(Ok(()), true, false),
        IntegrityAction::Recover { with_archive: false }
    ));
    let bad = failure(concluded(probe.on_recovered(Err("rollback failed".into()))));
    assert_eq!(
        bad.problem,
        "Automatic recovery failed for m/storage.sqlite3: automatic recovery could not safely quarantine or roll back mailbox artifacts (rollback failed)"
    );
    assert!(bad.fix.starts_with("Try these in order:\n1. `am doctor repair --yes` — "));
    assert!(bad.fix.ends_with("quarantined at m/storage.sqlite3.corrupt-*"));
}

#[test]
fn probe_integrity_does_not_retry_database_owned_recovery_failure() {
    let mut probe = at_check();
    let action = probe.on_check(CheckOutcome::Failed {
        error: "unhealthy sqlite candidate".into(),
        diagnosis: None,
        lock_error: false,
    });
    let bad = failure(concluded(action));
    assert_eq!(
        bad.problem,
        "Startup integrity recovery failed for m/storage.sqlite3: automatic recovery built a replacement SQLite candidate that failed validation (unhealthy sqlite candidate)"
    );
}

#[test]
fn a_diagnosis_of_a_sidecar_comes_before_the_lock() {
    let diagnosis = ProbeResult::Fail(ProbeFailure {
        name: "integrity",
        problem: "sidecar".into(),
        fix: "fix".into(),
    });
    let action = at_check().on_check(CheckOutcome::Failed {
        error: "database is locked".into(),
        diagnosis: Some(diagnosis),
        lock_error: true,
    });
    assert_eq!(failure(concluded(action)).problem, "sidecar");
    let action = at_check().on_check(CheckOutcome::Failed {
        error: "database is locked".into(),
        diagnosis: None,
        lock_error: true,
    });
    assert!(failure(concluded(action)).problem.starts_with("Integrity probe blocked for "));
}

#[test]
fn probe_integrity_rejects_symlinked_database_path() {
    let linked = IntegrityFacts {
        accepted: Err("database path m/storage.sqlite3 must not be a symlink".into()),
        ..facts()
    };
    let bad = failure(concluded(probe_integrity(linked).1));
    assert_eq!(bad.problem, "database path m/storage.sqlite3 must not be a symlink");
    assert_eq!(bad.fix, "Use a real, non-symlinked database path for m/storage.sqlite3");
}

#[test]
fn a_path_that_changed_is_not_recovered() {
    let missing = IntegrityFacts { file_missing: true, ..facts() };
    let (mut probe, _) = probe_integrity(missing);
    probe.on_lock(Ok(()));
    let bad = failure(concluded(probe.on_validated(Err("a link now".into()), true, true)));
    assert_eq!(bad.problem, "a link now");
}

#[test]
fn a_url_without_a_path_cannot_be_recovered() {
    let (mut probe, _) = probe_integrity(IntegrityFacts { db_path: None, ..facts() });
    probe.on_lock(Ok(()));
    probe.on_pool(Ok(()));
    probe.on_check(CheckOutcome::Clean);
    let bad = failure(concluded(probe.on_compared(true)));
    assert!(bad.problem.starts_with("Automatic recovery cannot start"), "{}", bad.problem);
}

#[test]
fn a_pool_that_cannot_be_set_up_fails_the_probe() {
    let (mut probe, _) = probe_integrity(facts());
    probe.on_lock(Ok(()));
    let bad = failure(concluded(probe.on_pool(Err("read-only file system".into()))));
    assert_eq!(
        bad.problem,
        "Integrity probe could not initialize the mailbox pool for sqlite:///m/storage.sqlite3: the SQLite mailbox is read-only but startup needs write-capable access (read-only file system)"
    );
}

#[test]
fn integrity_busy_probe_failure_mentions_busy_database() {
    let result = integrity_busy_probe_failure("/tmp/test-busy.sqlite3", "database is busy");
    assert!(
        matches!(result, ProbeResult::Fail(ProbeFailure { name: "integrity", ref problem, ref fix }) if problem.contains("Integrity probe blocked") && problem.contains("concurrent writer, recovery owner, or file lock") && fix.contains("Wait for the current mailbox owner")),
        "busy integrity failures should point users at live lock holders; got: {result:?}"
    );
}

#[test]
fn integrity_busy_probe_failure_mentions_mailbox_activity_lock_root_cause() {
    let detail = "mailbox activity lock is busy for storage root /tmp/mail (shared lock /tmp/mail/.mailbox.activity.lock): another Agent Mail runtime or mutating `am doctor` operation is already active";
    let result = integrity_busy_probe_failure("/tmp/test-mailbox-lock.sqlite3", detail);
    assert!(
        matches!(result, ProbeResult::Fail(ProbeFailure { ref problem, .. }) if problem.contains("mailbox activity lock is already held by another Agent Mail runtime or mutating `am doctor` command")),
        "mailbox activity contention should be called out explicitly: {result:?}"
    );
}

#[test]
fn classify_integrity_open_root_cause_mentions_permissions() {
    let detail = classify_integrity_open_root_cause("Permission denied (os error 13)");
    assert!(
        detail.contains("filesystem permissions blocked opening the SQLite mailbox"),
        "unexpected open-failure classification: {detail}"
    );
}

#[test]
fn classify_recovery_failure_root_cause_mentions_competing_owner() {
    let detail = classify_recovery_failure_root_cause(
        "mailbox mutation refused for /tmp/storage.sqlite3: split-brain detected; wait for the active owner to finish instead of competing recovery",
    );
    assert!(
        detail.contains("another process still owns the mailbox"),
        "unexpected recovery-failure classification: {detail}"
    );
}

#[test]
fn causes_are_told_apart() {
    assert_eq!(compact_probe_detail(" a \n\t b "), "a b");
    assert_eq!(compact_probe_detail(" \n"), "unspecified error");
    assert_eq!(
        classify_integrity_busy_root_cause("x"),
        "mailbox is busy and could not be probed safely (x)"
    );
    assert!(classify_integrity_busy_root_cause("BUSY TIMEOUT").starts_with("SQLite reports"));
    assert!(classify_integrity_open_root_cause("No such file or directory")
        .starts_with("the SQLite path or its parent"));
    assert!(classify_integrity_open_root_cause("x").starts_with("pool initialization failed"));
    assert!(classify_recovery_failure_root_cause("Quarantined recovery artifact y")
        .starts_with("quarantined recovery artifacts already exist"));
    assert!(classify_recovery_failure_root_cause("refusing blank reinitialization")
        .starts_with("automatic recovery failed closed"));
    assert!(classify_recovery_failure_root_cause("x")
        .starts_with("automatic recovery did not produce"));
}
