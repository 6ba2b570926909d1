//! Reading reservations from their artifacts, and when they expire.

use agent_mail_guard::conflicts::check_path_conflicts;
use agent_mail_guard::expiry::{is_expired, is_expired_reading, TimePoint};
use agent_mail_guard::guard::FileReservationRecord;
use agent_mail_guard::reservations::{
    is_reservation_file, numeric_release, parse_artifact, read_active_reservations_from_archive,
    released_ts_marks_record_released, reservation_artifact_stamp, Artifact, JsonMember,
};

/// The moment at which these tests take place: 2026-09-03T00:00:00Z.
const NOW: TimePoint = TimePoint { secs: 1_788_393_600, nanos: 0 };

fn at(secs: i64) -> Option<TimePoint> {
    Some(TimePoint { secs, nanos: 0 })
}

fn artifact_at(stem: &str, content: &str, modified: Option<TimePoint>) -> Option<Artifact> {
    let mut artifact = parse_artifact(Some(stem.to_string()), content, modified)?;
    if let Some(text) = numeric_release(&artifact) {
        artifact.release_is_positive = text.parse::<f64>().is_ok_and(|n| n > 0.0);
    }
    Some(artifact)
}

fn artifact(stem: &str, content: &str) -> Option<Artifact> {
    artifact_at(stem, content, at(NOW.secs - 60))
}

fn active(artifacts: Vec<Artifact>) -> Vec<FileReservationRecord> {
    let modified: Vec<Option<TimePoint>> = artifacts.iter().map(|a| a.modified).collect();
    read_active_reservations_from_archive(&artifacts, &modified, &NOW, false)
}

fn record_text(pattern: &str, agent: &str, exclusive: bool, expires: &str, released: &str) -> String {
    format!(
        "{{\"path_pattern\": \"{pattern}\", \"agent_name\": \"{agent}\", \"exclusive\": {exclusive}, \"expires_ts\": \"{expires}\", \"released_ts\": {released}}}"
    )
}

const FUTURE: &str = "2026-09-03T01:00:00+00:00";
const PAST: &str = "2026-09-02T23:00:00+00:00";

fn archive() -> Vec<FileReservationRecord> {
    let texts = [
        ("res1", record_text("app/api/*.py", "OtherAgent", true, FUTURE, "null")),
        ("res2", record_text("docs/*", "OtherAgent", true, FUTURE, "\"2025-01-01T00:00:00Z\"")),
        ("res3", record_text("old/*", "ExpiredAgent", true, PAST, "null")),
        ("res4", record_text("shared/*", "SharedAgent", false, FUTURE, "null")),
        ("res5", record_text("my/stuff/*", "MyAgent", true, FUTURE, "null")),
    ];
    active(texts.iter().filter_map(|(stem, text)| artifact(stem, text)).collect())
}

#[test]
fn foreign_generation_active_artifact_is_superseded_by_released_current_twin() {
    let old = format!(
        "{{\"path_pattern\": \"src/lib.rs\", \"agent_name\": \"OtherAgent\", \"exclusive\": true, \"expires_ts\": \"{FUTURE}\", \"released_ts\": null, \"db_generation\": \"oldgen00\"}}"
    );
    let current = format!(
        "{{\"path_pattern\": \"src/lib.rs\", \"agent_name\": \"OtherAgent\", \"exclusive\": true, \"expires_ts\": \"{FUTURE}\", \"released_ts\": \"2026-09-02T00:00:00Z\", \"db_generation\": \"curgen11\"}}"
    );
    let lone = format!(
        "{{\"path_pattern\": \"src/other.rs\", \"agent_name\": \"OtherAgent\", \"exclusive\": true, \"expires_ts\": \"{FUTURE}\", \"released_ts\": null, \"db_generation\": \"oldgen00\"}}"
    );
    let records = active(vec![
        artifact_at("id-123-goldgen00", &old, at(NOW.secs - 60)).expect("json"),
        artifact_at("id-123-gcurgen11", &current, at(NOW.secs - 50)).expect("json"),
        artifact_at("id-124-goldgen00", &lone, at(NOW.secs - 40)).expect("json"),
    ]);
    let patterns: Vec<&str> = records.iter().map(|r| r.path_pattern.as_str()).collect();
    assert_eq!(
        patterns,
        vec!["src/other.rs"],
        "the superseded foreign-generation artifact must be skipped: {patterns:?}"
    );
}

#[test]
fn a_newer_active_artifact_is_not_superseded() {
    let old = format!(
        "{{\"path_pattern\": \"src/lib.rs\", \"agent_name\": \"A\", \"exclusive\": true, \"expires_ts\": \"{FUTURE}\", \"released_ts\": null, \"db_generation\": \"oldgen00\"}}"
    );
    let current = format!(
        "{{\"path_pattern\": \"src/lib.rs\", \"agent_name\": \"A\", \"exclusive\": true, \"expires_ts\": \"{FUTURE}\", \"released_ts\": \"x\", \"db_generation\": \"curgen11\"}}"
    );
    let records = active(vec![
        artifact_at("id-123-goldgen00", &old, at(NOW.secs - 10)).expect("json"),
        artifact_at("id-123-gcurgen11", &current, at(NOW.secs - 50)).expect("json"),
    ]);
    assert_eq!(records.len(), 1);
}

#[test]
fn the_newest_release_of_a_reservation_counts() {
    let text = |generation: &str, released: &str| {
        format!(
            "{{\"path_pattern\": \"src/lib.rs\", \"agent_name\": \"A\", \"exclusive\": true, \"expires_ts\": \"{FUTURE}\", \"released_ts\": {released}, \"db_generation\": \"{generation}\"}}"
        )
    };
    let artifacts = |own: i64, other: i64| {
        vec![
            artifact_at("id-7-gown", &text("own", "null"), at(NOW.secs - 30)).expect("json"),
            artifact_at("id-7-own", &text("own", "1"), at(NOW.secs - 1)).expect("json"),
            artifact_at("id-7", &text("own", "1"), at(NOW.secs - own)).expect("json"),
            artifact_at("id-7-gother", &text("other", "1"), at(NOW.secs - other)).expect("json"),
        ]
    };
    assert!(active(artifacts(20, 10)).is_empty(), "the other generation was released last");
    assert_eq!(active(artifacts(10, 20)).len(), 1, "the own generation was released last");
    assert_eq!(active(artifacts(10, 10)).len(), 1, "of two equal times the first counts");
}

#[test]
fn read_active_reservations_filters_correctly() {
    assert!(active(Vec::new()).is_empty());
}

#[test]
fn active_reservations_are_those_that_are_neither_released_nor_expired() {
    let patterns: Vec<String> = archive().into_iter().map(|r| r.path_pattern).collect();
    assert_eq!(patterns, vec!["app/api/*.py", "shared/*", "my/stuff/*"]);
}

#[test]
fn a_record_keeps_what_its_artifact_says() {
    let records = archive();
    assert_eq!(records[0].agent_name, "OtherAgent");
    assert!(records[0].exclusive);
    assert_eq!(records[0].expires_ts, FUTURE);
    assert_eq!(records[0].normalized_pattern, "app/api/*.py");
    assert!(records[0].has_glob);
}

#[test]
fn read_reservations_keeps_legacy_zero_like_released_ts_values_active() {
    let released_values = ["0", "\"0\"", "\"\"", "\"null\"", "\"none\"", "-1"];
    let mut artifacts = Vec::new();
    for (index, released) in released_values.iter().enumerate() {
        let text = record_text(
            &format!("legacy/{index}/*"),
            &format!("Legacy{index}"),
            true,
            "2099-01-01T00:00:00Z",
            released,
        );
        artifacts.push(artifact(&format!("legacy-{index}"), &text).expect("json"));
    }
    let records = active(artifacts);
    assert_eq!(records.len(), 6);
    for index in 0..6 {
        assert!(
            records.iter().any(|record| record.path_pattern == format!("legacy/{index}/*")),
            "missing legacy reservation {index}"
        );
    }
}

#[test]
fn read_reservations_skips_positive_numeric_released_ts() {
    let text = record_text("released/*", "ReleasedAgent", true, "2099-01-01T00:00:00Z", "42");
    let records = active(vec![artifact("released", &text).expect("json")]);
    assert!(records.is_empty(), "positive numeric released_ts should skip reservation");
}

#[test]
fn a_numeric_text_releases_when_it_is_above_zero() {
    for (value, released) in [("\"17.5\"", true), ("\"0.0\"", false), ("\"2026-01-01\"", false)] {
        let text = record_text("x/*", "A", true, "2099-01-01T00:00:00Z", value);
        let records = active(vec![artifact("x", &text).expect("json")]);
        assert_eq!(records.is_empty(), released, "{value}");
    }
}

#[test]
fn release_values_by_kind() {
    assert!(!released_ts_marks_record_released(&JsonMember::Null, false));
    assert!(!released_ts_marks_record_released(&JsonMember::Bool(true), false));
    assert!(!released_ts_marks_record_released(&JsonMember::Composite, true));
    assert!(released_ts_marks_record_released(
        &JsonMember::Text("2026-01-01T00:00:00Z".to_string()),
        false
    ));
    assert!(!released_ts_marks_record_released(&JsonMember::Text("12".to_string()), false));
    assert!(released_ts_marks_record_released(&JsonMember::Text("12".to_string()), true));
}

#[test]
fn read_reservations_skips_malformed_json_files() {
    assert!(artifact("bad", "this is not json {{{").is_none());
    let valid = record_text("src/**", "ValidAgent", true, FUTURE, "null");
    let records = active(vec![artifact("valid", &valid).expect("json")]);
    assert_eq!(records.len(), 1);
    assert_eq!(records[0].agent_name, "ValidAgent");
}

#[test]
fn read_reservations_skips_non_json_files() {
    assert!(!is_reservation_file(true, false, Some("txt"), Some(16)));
    assert!(!is_reservation_file(true, false, Some("md"), Some(7)));
    assert!(!is_reservation_file(true, false, None, Some(7)));
    assert!(is_reservation_file(true, false, Some("json"), Some(7)));
}

#[test]
fn links_and_huge_files_are_no_reservations() {
    assert!(!is_reservation_file(true, true, Some("json"), Some(7)));
    assert!(!is_reservation_file(false, false, Some("json"), Some(7)));
    assert!(is_reservation_file(true, false, Some("json"), Some(1_048_576)));
    assert!(!is_reservation_file(true, false, Some("json"), Some(1_048_577)));
    assert!(is_reservation_file(true, false, Some("json"), None));
}

#[test]
fn read_reservations_skips_empty_path_pattern() {
    let text = record_text("", "Agent", true, FUTURE, "null");
    let records = active(vec![artifact("empty", &text).expect("json")]);
    assert!(records.is_empty(), "empty reservation patterns should be ignored");
}

#[test]
fn read_reservations_missing_agent_is_skipped() {
    let text = format!(
        "{{\"path_pattern\": \"src/**\", \"exclusive\": true, \"expires_ts\": \"{FUTURE}\", \"released_ts\": null}}"
    );
    let records = active(vec![artifact("missing-agent", &text).expect("json")]);
    assert!(records.is_empty(), "missing agent metadata should be ignored");
}

#[test]
fn read_reservations_missing_exclusive_flag_is_skipped() {
    let text = format!(
        "{{\"path_pattern\": \"src/**\", \"agent_name\": \"Agent\", \"expires_ts\": \"{FUTURE}\", \"released_ts\": null}}"
    );
    let records = active(vec![artifact("missing-exclusive", &text).expect("json")]);
    assert!(records.is_empty(), "missing exclusive flag should be ignored");
}

#[test]
fn a_stamp_needs_an_identifier_and_a_generation() {
    let plain = artifact("res1", &record_text("a", "A", true, FUTURE, "null")).expect("json");
    assert!(reservation_artifact_stamp(&plain.stem, &plain.value, plain.modified).is_none());
    let stamped = artifact("id-7-gabc", "{\"db_generation\": \"abc\"}").expect("json");
    let stamp = reservation_artifact_stamp(&stamped.stem, &stamped.value, stamped.modified);
    assert!(stamp.is_some());
}

#[test]
fn check_path_conflicts_detects_matching_reservations() {
    let paths = vec!["app/api/users.py".to_string()];
    let conflicts = check_path_conflicts(&paths, &archive(), "MyAgent", false).expect("conflicts");
    assert_eq!(conflicts.len(), 1);
    assert_eq!(conflicts[0].holder, "OtherAgent");
    assert_eq!(conflicts[0].pattern, "app/api/*.py");
    assert_eq!(conflicts[0].path, "app/api/users.py");
}

#[test]
fn check_path_conflicts_skips_own_reservations() {
    let paths = vec!["my/stuff/file.txt".to_string()];
    let conflicts = check_path_conflicts(&paths, &archive(), "MyAgent", false).expect("conflicts");
    assert!(conflicts.is_empty(), "own reservations should be skipped");
}

#[test]
fn check_path_conflicts_skips_own_reservations_case_insensitively() {
    let paths = vec!["src/main.rs".to_string()];
    let conflicts = check_path_conflicts(&paths, &archive(), "bluelake", false).expect("conflicts");
    assert!(
        conflicts.is_empty(),
        "own reservations should be skipped regardless of agent-name casing"
    );
    let own = vec!["my/stuff/file.txt".to_string()];
    assert!(check_path_conflicts(&own, &archive(), "myagent", false).expect("conflicts").is_empty());
}

#[test]
fn check_path_conflicts_skips_non_exclusive() {
    let paths = vec!["shared/README.md".to_string()];
    let conflicts =
        check_path_conflicts(&paths, &archive(), "SomeOtherAgent", false).expect("conflicts");
    assert!(conflicts.is_empty(), "non-exclusive reservations should not conflict");
}

#[test]
fn check_path_conflicts_no_match() {
    let paths = vec!["unrelated/file.txt".to_string()];
    let conflicts = check_path_conflicts(&paths, &archive(), "MyAgent", false).expect("conflicts");
    assert!(conflicts.is_empty());
}

#[test]
fn check_path_conflicts_multiple_paths() {
    let paths = vec![
        "app/api/users.py".to_string(),
        "app/api/models.py".to_string(),
        "unrelated.txt".to_string(),
    ];
    let conflicts = check_path_conflicts(&paths, &archive(), "SomeAgent", false).expect("conflicts");
    assert_eq!(conflicts.len(), 2, "two paths should conflict");
    assert!(conflicts.iter().all(|c| c.holder == "OtherAgent"));
}

fn point(time: &chrono::DateTime<chrono::Utc>) -> TimePoint {
    TimePoint { secs: time.timestamp(), nanos: time.timestamp_subsec_nanos() }
}

#[test]
fn is_expired_rfc3339() {
    let now = chrono::Utc::now();
    let past = (now - chrono::Duration::hours(1)).to_rfc3339();
    let future = (now + chrono::Duration::hours(1)).to_rfc3339();

    assert!(is_expired(&past, &point(&now)));
    assert!(!is_expired(&future, &point(&now)));
}

#[test]
fn is_expired_naive_datetime() {
    let now = chrono::Utc::now();
    let past = (now - chrono::Duration::hours(1)).format("%Y-%m-%dT%H:%M:%S%.6f").to_string();
    assert!(is_expired(&past, &point(&now)));
}

#[test]
fn is_expired_unparseable_is_not_expired() {
    let now = chrono::Utc::now();
    assert!(!is_expired("not-a-date", &point(&now)));
}

#[test]
fn expiry_is_exact_to_the_moment() {
    assert!(is_expired("2026-09-03T00:00:00Z", &NOW));
    assert!(!is_expired("2026-09-03T00:00:00.000000001Z", &NOW));
    assert!(is_expired("2026-09-03T02:00:00+02:00", &NOW));
    assert!(!is_expired("2026-09-03T00:00:00-00:01", &NOW));
    assert!(is_expired("2026-09-02T23:59:59", &NOW));
    assert!(!is_expired("2026-09-03T00:00:01.5", &NOW));
}

#[test]
fn the_first_reading_that_succeeds_decides() {
    let early = Some((NOW.secs - 1, 0));
    let late = Some((NOW.secs + 1, 0));
    assert!(is_expired_reading(early, late, late, "x", &NOW));
    assert!(!is_expired_reading(late, early, early, "x", &NOW));
    assert!(is_expired_reading(None, early, late, "x", &NOW));
    assert!(is_expired_reading(None, None, early, "x", &NOW));
    assert!(!is_expired_reading(None, None, None, "x", &NOW));
}
