//! The startup probes of the configuration and of the files.

use agent_mail_guard::probes::{
    check_db_lock_status, probe_auth, probe_consistency, probe_database, probe_db_lock,
    probe_fd_limit, probe_http_path, probe_storage_root, read_fd_soft_limit,
    run_http_startup_preflight_probes, run_startup_probes, run_stdio_startup_probes,
    shared_runtime_startup_probes, storage_probe_file_name, AuthSettings, ConsistencySample,
    DatabaseFile, DatabaseTarget, DbLockStatus, Probe, StorageTrial,
};
use agent_mail_guard::processes::identify_lock_holder;
use agent_mail_guard::report::{ProbeFailure, ProbeResult};

fn no_auth() -> AuthSettings {
    AuthSettings {
        bearer_token: None,
        jwt_enabled: false,
        jwt_jwks_url: None,
        jwt_secret: None,
        jwt_algorithms: vec!["HS256".into()],
    }
}

fn failure(result: ProbeResult) -> ProbeFailure {
    match result {
        ProbeResult::Fail(failure) => failure,
        ProbeResult::Pass { name } => panic!("{name} must fail"),
    }
}

#[test]
fn default_config_passes_http_path() {
    assert!(matches!(probe_http_path("/mcp/"), ProbeResult::Pass { .. }));
}

#[test]
fn empty_http_path_fails() {
    assert!(matches!(probe_http_path(""), ProbeResult::Fail(_)));
}

#[test]
fn no_leading_slash_fails() {
    assert!(matches!(probe_http_path("mcp/"), ProbeResult::Fail(_)));
}

#[test]
fn no_trailing_slash_fails() {
    assert!(matches!(probe_http_path("/mcp"), ProbeResult::Fail(_)));
}

#[test]
fn valid_http_path_passes() {
    assert!(matches!(probe_http_path("/mcp/"), ProbeResult::Pass { .. }));
}

#[test]
fn a_bad_http_path_is_quoted() {
    let bad = failure(probe_http_path("m\"cp/"));
    assert_eq!(bad.problem, "HTTP path \"m\\\"cp/\" must start with '/'");
    let bad = failure(probe_http_path("/mcp"));
    assert_eq!(bad.problem, "HTTP path \"/mcp\" should end with '/'");
    assert_eq!(bad.fix, "Set HTTP_PATH=\"/mcp/\" (append trailing slash)");
    assert!(matches!(probe_http_path("/"), ProbeResult::Pass { name: "http-path" }));
}

#[test]
fn default_config_passes_auth() {
    assert!(matches!(probe_auth(&no_auth()), ProbeResult::Pass { .. }));
}

#[test]
fn short_bearer_token_fails() {
    let settings = AuthSettings { bearer_token: Some("abc".into()), ..no_auth() };
    assert!(matches!(probe_auth(&settings), ProbeResult::Fail(_)));
}

#[test]
fn valid_bearer_token_passes() {
    let settings = AuthSettings { bearer_token: Some("a-secure-token-here".into()), ..no_auth() };
    assert!(matches!(probe_auth(&settings), ProbeResult::Pass { .. }));
}

#[test]
fn the_length_of_a_token_counts_bytes() {
    let settings = AuthSettings { bearer_token: Some("ääää".into()), ..no_auth() };
    assert!(matches!(probe_auth(&settings), ProbeResult::Pass { .. }));
    let settings = AuthSettings { bearer_token: Some("1234567".into()), ..no_auth() };
    assert!(matches!(probe_auth(&settings), ProbeResult::Fail(_)));
}

#[test]
fn jwt_without_jwks_or_secret_fails() {
    let settings = AuthSettings { jwt_enabled: true, ..no_auth() };
    assert!(matches!(probe_auth(&settings), ProbeResult::Fail(_)));
}

#[test]
fn jwt_with_secret_passes() {
    let settings =
        AuthSettings { jwt_enabled: true, jwt_secret: Some("e2e-secret".into()), ..no_auth() };
    assert!(matches!(probe_auth(&settings), ProbeResult::Pass { .. }));
}

#[test]
fn jwt_with_jwks_passes() {
    let settings = AuthSettings {
        jwt_enabled: true,
        jwt_jwks_url: Some("http://127.0.0.1:1/jwks".into()),
        ..no_auth()
    };
    assert!(matches!(probe_auth(&settings), ProbeResult::Pass { .. }));
}

#[test]
fn jwt_secret_with_rs256_fails() {
    let settings = AuthSettings {
        jwt_enabled: true,
        jwt_secret: Some("secret".into()),
        jwt_algorithms: vec!["RS256".into()],
        ..no_auth()
    };
    assert!(matches!(probe_auth(&settings), ProbeResult::Fail(_)));
}

#[test]
fn every_algorithm_is_put_in_its_family() {
    let with = |name: &str| {
        probe_auth(&AuthSettings {
            jwt_enabled: true,
            jwt_secret: Some("secret".into()),
            jwt_algorithms: vec![name.into()],
            ..no_auth()
        })
    };
    for name in ["HS256", "HS384", "HS512", "hs256", "none", "", "rs256", "ES512"] {
        assert!(matches!(with(name), ProbeResult::Pass { name: "auth" }), "{name}");
    }
    for name in
        ["ES256", "ES384", "RS256", "RS384", "RS512", "PS256", "PS384", "PS512", "EdDSA"]
    {
        assert!(matches!(with(name), ProbeResult::Fail(_)), "{name}");
    }
}

#[test]
fn empty_database_url_fails() {
    assert!(matches!(probe_database("", DatabaseTarget::Memory), ProbeResult::Fail(_)));
}

#[test]
fn default_database_url_passes() {
    let target = DatabaseTarget::File { path: "./storage.sqlite3".into(), accepted: Ok(()) };
    assert!(matches!(
        probe_database("sqlite:///./storage.sqlite3", target),
        ProbeResult::Pass { .. }
    ));
}

#[test]
fn sqlite_memory_url_with_query_passes() {
    assert!(matches!(
        probe_database("sqlite:///:memory:?cache=shared", DatabaseTarget::Memory),
        ProbeResult::Pass { .. }
    ));
}

#[test]
fn sqlite_url_with_missing_parent_and_query_fails() {
    let path = "am-startup-missing-1/db.sqlite3";
    let target = DatabaseTarget::File {
        path: path.into(),
        accepted: Err("database path parent am-startup-missing-1 does not exist".into()),
    };
    let bad = failure(probe_database("sqlite:///am-startup-missing-1/db.sqlite3?mode=rwc", target));
    assert_eq!(bad.problem, "database path parent am-startup-missing-1 does not exist");
    assert_eq!(bad.fix, format!("Use a real, non-symlinked database path for {path}"));
}

#[test]
fn only_sqlite_urls_are_looked_into() {
    assert!(matches!(
        probe_database("postgres://x", DatabaseTarget::Unresolved),
        ProbeResult::Pass { name: "database" }
    ));
    for url in ["sqlite://", "sqlite+aiosqlite:///x"] {
        let bad = failure(probe_database(url, DatabaseTarget::Unresolved));
        assert_eq!(bad.problem, format!("Invalid SQLite database URL: {url}"));
    }
}

#[test]
fn probe_db_lock_passes_when_missing() {
    let status = check_db_lock_status(DatabaseFile::Missing);
    assert_eq!(status, DbLockStatus::Missing);
    assert!(matches!(
        probe_db_lock(status, Some("missing.db"), None),
        ProbeResult::Pass { name: "db-lock" }
    ));
}

#[test]
fn probe_db_lock_passes_when_available() {
    let status = check_db_lock_status(DatabaseFile::Opened { lock_given: true });
    assert_eq!(status, DbLockStatus::Available);
    assert_eq!(check_db_lock_status(DatabaseFile::Memory), DbLockStatus::Available);
    assert!(matches!(
        probe_db_lock(status, Some("available.db"), None),
        ProbeResult::Pass { name: "db-lock" }
    ));
}

#[test]
fn probe_db_lock_fails_when_locked() {
    let status = check_db_lock_status(DatabaseFile::Opened { lock_given: false });
    assert_eq!(status, DbLockStatus::Locked);
    let bad = failure(probe_db_lock(status, Some("locked.db"), None));
    assert_eq!(
        bad.problem,
        "DB lock probe blocked for locked.db: SQLite file is exclusively locked by another process"
    );
    let holder = identify_lock_holder(7, Some("am serve".into()));
    let bad = failure(probe_db_lock(DbLockStatus::Locked, Some("locked.db"), Some(holder)));
    assert_eq!(
        bad.problem,
        "DB lock probe blocked for locked.db: SQLite file is exclusively locked by PID 7 (am serve)"
    );
    assert_eq!(
        bad.fix,
        "Stop the process holding the lock (PID 7: am serve) or wait for it to release the database."
    );
    let holder = identify_lock_holder(8, Some("python3 x.py".into()));
    let bad = failure(probe_db_lock(DbLockStatus::Locked, Some("locked.db"), Some(holder)));
    assert!(bad.fix.contains("Stop it with `kill 8`, then retry."), "{}", bad.fix);
    assert!(matches!(
        probe_db_lock(DbLockStatus::Locked, None, None),
        ProbeResult::Pass { name: "db-lock" }
    ));
}

#[test]
fn errors_of_opening_a_database_are_told_apart() {
    let open = |error: &str| check_db_lock_status(DatabaseFile::OpenFailed { error: error.into() });
    assert_eq!(open("Resource temporarily unavailable (os error 11)"), DbLockStatus::Locked);
    assert_eq!(open("database is locked"), DbLockStatus::Locked);
    assert_eq!(open("Permission denied"), DbLockStatus::Error("Permission denied".into()));
    assert_eq!(
        check_db_lock_status(DatabaseFile::Unresolved),
        DbLockStatus::Error("Failed to resolve sqlite path from DATABASE_URL".into())
    );
    let bad = failure(probe_db_lock(DbLockStatus::Error(" a \n b ".into()), None, None));
    assert_eq!(bad.problem, "DB lock probe failed: a b");
}

#[test]
fn the_storage_directory_must_be_writable() {
    assert!(matches!(
        probe_storage_root("/s", StorageTrial::Writable),
        ProbeResult::Pass { name: "storage" }
    ));
    let bad = failure(probe_storage_root("/s", StorageTrial::NotWritable { error: "no".into() }));
    assert_eq!(bad.problem, "Storage directory /s is not writable: no");
    assert_eq!(bad.fix, "Check permissions: chmod u+w /s");
    let bad = failure(probe_storage_root("/s", StorageTrial::NoDirectory { problem: "p".into() }));
    assert_eq!(bad.problem, "p");
    assert_eq!(
        storage_probe_file_name(5, 340_282_366_920_938_463_463_374_607_431_768_211_455),
        ".am_startup_probe-5-340282366920938463463374607431768211455"
    );
}

#[test]
fn the_limit_on_open_files_is_read() {
    let limits = "Limit                     Soft Limit           Hard Limit           Units\nMax open files            1024                 1048576              files\n";
    assert_eq!(read_fd_soft_limit(Some(limits)), Some(1024));
    assert_eq!(read_fd_soft_limit(Some("Max open files unlimited")), None);
    assert_eq!(read_fd_soft_limit(None), None);
    let (result, low) = probe_fd_limit(Some(255));
    assert!(matches!(result, ProbeResult::Pass { name: "fd_limit" }));
    assert!(low);
    assert!(!probe_fd_limit(Some(256)).1);
    assert!(!probe_fd_limit(None).1);
}

#[test]
fn consistency_never_fails_a_startup() {
    let (result, warning) = probe_consistency(Some(ConsistencySample { sampled: 100, missing: 3 }));
    assert!(matches!(result, ProbeResult::Pass { name: "consistency" }));
    assert_eq!(
        warning.expect("a warning"),
        "Archive-DB consistency: 3 of 100 sampled messages missing archive files"
    );
    assert!(probe_consistency(Some(ConsistencySample { sampled: 1, missing: 0 })).1.is_none());
    assert!(probe_consistency(None).1.is_none());
}

#[test]
fn run_startup_probes_returns_results() {
    assert_eq!(run_startup_probes(false).1.len(), 8);
    assert_eq!(run_startup_probes(true).1.len(), 6);
    assert_eq!(run_startup_probes(true).1.last(), Some(&Probe::Port));
}

#[test]
fn run_stdio_startup_probes_omits_http_only_checks() {
    let probes = run_stdio_startup_probes();
    assert_eq!(probes.len(), 5);
    assert!(!probes.iter().any(|p| matches!(p, Probe::Port | Probe::HttpPath | Probe::Auth)));
    assert!(probes.contains(&Probe::Integrity));
    assert_eq!(probes, shared_runtime_startup_probes());
}

#[test]
fn run_http_startup_preflight_probes_omits_port_check() {
    let (rotate, probes) = run_http_startup_preflight_probes(false);
    assert!(rotate);
    assert!(!probes.contains(&Probe::Port));
    assert_eq!(probes[0], Probe::HttpPath);
}

#[test]
fn run_http_startup_preflight_probes_skips_db_sensitive_checks_when_agent_mail_listener_exists() {
    let (rotate, probes) = run_http_startup_preflight_probes(true);
    assert!(!rotate);
    assert!(!probes.contains(&Probe::DbLock));
    assert!(!probes.contains(&Probe::Integrity));
    assert!(probes.contains(&Probe::StorageRoot));
}
