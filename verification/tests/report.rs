//! The report about startup probes, and the context of a recovery.

use agent_mail_guard::expiry::TimePoint;
use agent_mail_guard::recovery_context::{
    find_latest_bundle_in, format_recovery_context, format_recovery_elapsed, Admission,
    BacklogPressure, BundleEntry, DeferredWrites, DurabilityState, MailboxOwnershipDisposition,
    RecoveryFacts, RecoveryLock,
};
use agent_mail_guard::report::{
    startup_failure_priority, ProbeFailure, ProbeResult, StartupReport,
};

fn failed(name: &'static str, problem: &str, fix: &str) -> ProbeResult {
    ProbeResult::Fail(ProbeFailure { name, problem: problem.into(), fix: fix.into() })
}

#[test]
fn format_errors_empty_when_all_pass() {
    let report = StartupReport {
        results: vec![ProbeResult::Pass { name: "ok1" }, ProbeResult::Pass { name: "ok2" }],
    };
    assert!(report.is_ok());
    assert_eq!(report.format_errors(None), "");
}

#[test]
fn format_errors_shows_failures() {
    let report = StartupReport {
        results: vec![
            ProbeResult::Pass { name: "ok" },
            failed("port", "Port 8765 is in use", "Use a different port"),
        ],
    };
    assert!(!report.is_ok());
    let errors = report.format_errors(None);
    assert!(errors.contains("Port 8765 is in use"));
    assert!(errors.contains("Use a different port"));
}

#[test]
fn format_errors_prioritizes_primary_root_cause_before_secondary_findings() {
    let report = StartupReport {
        results: vec![
            failed(
                "integrity",
                "SQLite integrity check could not run because the mailbox is busy",
                "Stop the running process and retry.",
            ),
            failed(
                "db-lock",
                "Database file is exclusively locked by PID 42",
                "Stop PID 42 or wait for it to finish.",
            ),
        ],
    };

    let errors = report.format_errors(None);
    let primary_pos = errors.find("Primary issue: [db-lock]").expect("primary issue");
    let secondary_pos = errors.find("1. [integrity]").expect("secondary integrity finding");
    assert!(primary_pos < secondary_pos, "expected db-lock to lead the output:\n{errors}");
    assert!(
        errors.contains("Secondary findings: 1 additional failing probe(s)."),
        "expected secondary summary in output:\n{errors}"
    );
}

#[test]
fn probe_failure_display() {
    let fail =
        ProbeFailure { name: "test", problem: "something broke".into(), fix: "fix it".into() };
    let display = fail.to_text();
    assert!(display.contains("something broke"));
    assert!(display.contains("fix it"));
}

#[test]
fn the_primary_failure_is_the_most_urgent_one() {
    assert!(startup_failure_priority("db-lock") < startup_failure_priority("integrity"));
    let report = StartupReport {
        results: vec![failed("other", "a", "b"), failed("db-lock", "c", "d"), failed("db-lock", "e", "f")],
    };
    let primary = report.primary_failure().expect("a failure");
    assert_eq!(primary.problem, "c");
    assert_eq!(report.failures().len(), 3);
    assert!(StartupReport { results: Vec::new() }.primary_failure().is_none());
}

#[test]
fn a_failure_of_the_database_wants_the_context_of_recovery() {
    let durable = StartupReport { results: vec![failed("integrity", "a", "b")] };
    assert!(durable.wants_recovery_context());
    assert!(durable.format_errors(Some("CONTEXT\n")).contains("CONTEXT"));
    let other = StartupReport { results: vec![failed("http-path", "a", "b")] };
    assert!(!other.wants_recovery_context());
}

#[test]
fn format_recovery_elapsed_seconds() {
    assert_eq!(format_recovery_elapsed(0), "0s");
    assert_eq!(format_recovery_elapsed(45), "45s");
    assert_eq!(format_recovery_elapsed(59), "59s");
}

#[test]
fn format_recovery_elapsed_minutes() {
    assert_eq!(format_recovery_elapsed(60), "1m");
    assert_eq!(format_recovery_elapsed(90), "1m 30s");
    assert_eq!(format_recovery_elapsed(155), "2m 35s");
}

#[test]
fn format_recovery_elapsed_hours() {
    assert_eq!(format_recovery_elapsed(3600), "1h 0m");
    assert_eq!(format_recovery_elapsed(4320), "1h 12m");
    assert_eq!(format_recovery_elapsed(7200), "2h 0m");
}

fn healthy() -> RecoveryFacts {
    RecoveryFacts {
        durability: DurabilityState::Healthy,
        mode: "healthy".into(),
        lock: RecoveryLock { active: false, exists: false, pid: None },
        disposition: MailboxOwnershipDisposition::Unowned,
        owner_pid: None,
        competing: 0,
        elapsed_secs: None,
        admission: Admission { suppressed: false, consecutive_failures: 0, attempts_in_window: 0 },
        deferred: DeferredWrites {
            active: false,
            sealed: false,
            queued: 0,
            capacity: 100,
            oldest_age_secs: 0,
            pressure: BacklogPressure::Normal,
        },
        bundle: None,
    }
}

#[test]
fn a_healthy_mailbox_has_no_context() {
    assert!(format_recovery_context(&healthy()).is_none());
    assert!(healthy().find_stall_reasons().is_empty());
}

#[test]
fn a_recovery_that_takes_too_long_is_stalled() {
    let mut facts = healthy();
    facts.durability = DurabilityState::Recovering;
    facts.mode = "recovering".into();
    facts.lock = RecoveryLock { active: true, exists: true, pid: Some(77) };
    facts.elapsed_secs = Some(4320);
    facts.bundle = Some("/bundles/b1".into());
    let text = format_recovery_context(&facts).expect("a context");
    assert!(text.contains("recovering"), "{text}");
    assert!(text.contains("77"), "{text}");
    assert!(text.contains("1h 12m"), "{text}");
    assert!(text.contains("/bundles/b1"), "{text}");
    assert_eq!(facts.find_stall_reasons().len(), 1);
}

#[test]
fn the_latest_bundle_is_a_directory() {
    let at = |secs| Some(TimePoint { secs, nanos: 0 });
    let entries = vec![
        BundleEntry { is_dir: true, modified: at(5) },
        BundleEntry { is_dir: false, modified: at(50) },
        BundleEntry { is_dir: true, modified: at(9) },
        BundleEntry { is_dir: true, modified: None },
    ];
    assert_eq!(find_latest_bundle_in(&entries), Some(2));
    assert_eq!(find_latest_bundle_in(&Vec::new()), None);
}
