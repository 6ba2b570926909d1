//! Conflicts between changed paths and reservations.

use agent_mail_guard::conflicts::{
    blocking_reservation, check_path_conflicts, fuzz_check_path_conflicts, invalid_pattern_warnings,
};
use agent_mail_guard::guard::{FileReservationRecord, GuardError};
use agent_mail_guard::name_status::parse_name_status_z;
use agent_mail_guard::paths::{contains_glob, normalize_path};

fn reservation(pattern: &str, holder: &str, exclusive: bool) -> FileReservationRecord {
    FileReservationRecord {
        path_pattern: pattern.to_string(),
        agent_name: holder.to_string(),
        exclusive,
        expires_ts: "2099-01-01T00:00:00Z".to_string(),
        released_ts: None,
        normalized_pattern: normalize_path(pattern, false),
        has_glob: contains_glob(pattern),
    }
}

#[test]
fn check_path_conflicts_exempts_beads_metadata_but_not_source_files() {
    let reservations = vec![
        reservation(".beads/**", "OtherAgent", true),
        reservation("src/**", "OtherAgent", true),
    ];
    let paths = vec![".beads/issues.jsonl".to_string(), "src/lib.rs".to_string()];

    let conflicts =
        check_path_conflicts(&paths, &reservations, "Committer", false).expect("conflicts");

    assert_eq!(conflicts.len(), 1);
    assert_eq!(conflicts[0].path, "src/lib.rs");
}

#[test]
fn check_path_conflicts_root_reservation_blocks_everything() {
    let reservations = vec![FileReservationRecord {
        path_pattern: String::new(),
        agent_name: "OtherAgent".to_string(),
        exclusive: true,
        expires_ts: "2099-01-01T00:00:00Z".to_string(),
        released_ts: None,
        normalized_pattern: String::new(),
        has_glob: false,
    }];

    let conflicts = check_path_conflicts(
        &vec!["src/main.rs".to_string(), "any/path".to_string()],
        &reservations,
        "SelfAgent",
        false,
    )
    .unwrap();

    assert_eq!(conflicts.len(), 2);
    assert_eq!(conflicts[0].path, "src/main.rs");
    assert_eq!(conflicts[1].path, "any/path");
}

#[test]
fn check_path_conflicts_glob_prefix_blocks_subdirectories() {
    let reservations = vec![reservation("src/*", "OtherAgent", true)];
    let conflicts = check_path_conflicts(
        &vec!["src/subdir/file.rs".to_string()],
        &reservations,
        "SelfAgent",
        false,
    )
    .unwrap();
    assert_eq!(conflicts.len(), 0);
}

#[test]
fn check_path_conflicts_empty_reservations_allows_all_paths() {
    let paths = vec![
        "app/api/users.py".to_string(),
        "bin/tool.exe".to_string(),
        "modules/submod".to_string(),
    ];
    let conflicts =
        check_path_conflicts(&paths, &Vec::new(), "AnyAgent", false).expect("conflicts");
    assert!(conflicts.is_empty(), "empty reservation set should never block");
}

#[test]
fn check_path_conflicts_submodule_pointer_path_matches_recursive_pattern() {
    let paths = vec!["modules/submod".to_string()];
    let reservations = vec![reservation("modules/submod/**", "OtherAgent", true)];
    let conflicts =
        check_path_conflicts(&paths, &reservations, "MyAgent", false).expect("conflicts");
    assert_eq!(conflicts.len(), 1);
    assert_eq!(conflicts[0].holder, "OtherAgent");
}

#[test]
fn check_path_conflicts_non_glob_directory_prefix_matches_contained_file() {
    let paths = vec!["src/utils/file.rs".to_string()];
    let reservations = vec![reservation("src/utils", "OtherAgent", true)];
    let conflicts =
        check_path_conflicts(&paths, &reservations, "MyAgent", false).expect("conflicts");
    assert_eq!(conflicts.len(), 1);
    assert_eq!(conflicts[0].holder, "OtherAgent");
}

#[test]
fn check_path_conflicts_binary_file_matches_glob() {
    let paths = vec!["bin/tool.exe".to_string()];
    let reservations = vec![reservation("bin/*.exe", "Locker", true)];
    let conflicts =
        check_path_conflicts(&paths, &reservations, "MyAgent", false).expect("conflicts");
    assert_eq!(conflicts.len(), 1);
    assert_eq!(conflicts[0].path, "bin/tool.exe");
}

#[test]
fn check_path_conflicts_overlapping_shared_and_exclusive_blocks_on_exclusive() {
    let paths = vec!["app/api/users.py".to_string()];
    let reservations = vec![
        reservation("app/api/*.py", "SharedAgent", false),
        reservation("app/**", "ExclusiveAgent", true),
    ];
    let conflicts =
        check_path_conflicts(&paths, &reservations, "MyAgent", false).expect("conflicts");
    assert_eq!(conflicts.len(), 1);
    assert_eq!(conflicts[0].holder, "ExclusiveAgent");
    assert_eq!(conflicts[0].pattern, "app/**");
}

#[test]
fn check_path_conflicts_rename_old_and_new_paths_conflict_independently() {
    let renamed_paths = parse_name_status_z(b"R100\0src/old.rs\0src/new.rs\0").expect("parse");
    let reservations = vec![
        reservation("src/old.rs", "OldOwner", true),
        reservation("src/new.rs", "NewOwner", true),
    ];

    let conflicts =
        check_path_conflicts(&renamed_paths, &reservations, "MyAgent", false).expect("conflicts");
    assert_eq!(conflicts.len(), 2);
    assert!(conflicts.iter().any(|c| c.path == "src/old.rs" && c.holder == "OldOwner"));
    assert!(conflicts.iter().any(|c| c.path == "src/new.rs" && c.holder == "NewOwner"));
}

#[test]
fn check_path_conflicts_large_reservation_set_still_finds_match() {
    let mut reservations = Vec::with_capacity(1_200);
    for i in 0..1_199usize {
        reservations.push(reservation(&format!("src/no_match_{i}.rs"), "BulkOwner", true));
    }
    reservations.push(reservation("src/target.rs", "TargetOwner", true));

    let paths = vec!["src/target.rs".to_string()];
    let conflicts =
        check_path_conflicts(&paths, &reservations, "MyAgent", false).expect("conflicts");
    assert_eq!(conflicts.len(), 1);
    assert_eq!(conflicts[0].holder, "TargetOwner");
}

#[test]
fn check_path_conflicts_skips_invalid_reservation_pattern() {
    let paths = vec!["src/main.rs".to_string()];
    let reservations = vec![reservation("src/[abc", "OtherAgent", true)];

    let conflicts = check_path_conflicts(&paths, &reservations, "MyAgent", false)
        .expect("invalid reservation pattern should be ignored");
    assert!(conflicts.is_empty());
}

#[test]
fn an_invalid_pattern_is_warned_about() {
    let reservations =
        vec![reservation("src/[abc", "OtherAgent", true), reservation("ok/*", "OtherAgent", true)];
    let warnings = invalid_pattern_warnings(&reservations, "MyAgent", false);
    assert_eq!(warnings.len(), 1);
}

#[test]
fn case_is_ignored_where_the_repository_ignores_it() {
    let mut upper = reservation("SRC/Main.RS", "OtherAgent", true);
    let paths = vec!["src/main.rs".to_string()];
    assert!(check_path_conflicts(&paths, &vec![upper.clone()], "MyAgent", false)
        .expect("conflicts")
        .is_empty());
    upper.normalized_pattern = normalize_path("SRC/Main.RS", true);
    let conflicts =
        check_path_conflicts(&paths, &vec![upper], "MyAgent", true).expect("conflicts");
    assert_eq!(conflicts.len(), 1);
    assert_eq!(conflicts[0].pattern, "SRC/Main.RS");
}

#[test]
fn a_directory_conflicts_with_a_reservation_below_it() {
    let paths = vec!["src".to_string()];
    let reservations = vec![reservation("src/utils/file.rs", "OtherAgent", true)];
    let conflicts =
        check_path_conflicts(&paths, &reservations, "MyAgent", false).expect("conflicts");
    assert_eq!(conflicts.len(), 1);
}

#[test]
fn a_matching_glob_blocks_and_the_first_reservation_wins() {
    let first = reservation("src/*.rs", "First", true);
    let second = reservation("src/main.rs", "Second", true);
    let paths = vec!["src/main.rs".to_string()];
    let conflicts =
        check_path_conflicts(&paths, &vec![first, second], "MyAgent", false).expect("conflicts");
    assert_eq!(conflicts.len(), 1);
}

#[test]
fn the_fuzz_entry_point_finds_the_same_conflicts() {
    let paths = vec!["src/main.rs".to_string(), "docs/a.md".to_string()];
    let reservations = vec![reservation("src/**", "OtherAgent", true)];
    let direct = check_path_conflicts(&paths, &reservations, "MyAgent", false).expect("direct");
    let fuzzed = fuzz_check_path_conflicts(&paths, &reservations, "MyAgent", false).expect("fuzz");
    assert_eq!(direct.len(), fuzzed.len());
    assert_eq!(direct[0].path, fuzzed[0].path);
}

#[test]
fn globs_that_match_are_given_by_their_index() {
    let a = reservation("src/*.rs", "A", true);
    let b = reservation("docs", "B", true);
    let active = vec![a, b];
    assert_eq!(blocking_reservation(&vec![0], &active, "src/x.rs", false), Some(0));
    assert_eq!(blocking_reservation(&Vec::new(), &active, "docs/x.md", false), Some(1));
    assert_eq!(blocking_reservation(&Vec::new(), &active, "other", false), None);
}

#[test]
fn a_closing_bracket_alone_is_literal() {
    let reservations = vec![reservation("src/a].rs", "OtherAgent", true)];
    for ignorecase in [false, true] {
        let paths = vec!["src/a].rs".to_string()];
        let conflicts =
            check_path_conflicts(&paths, &reservations, "MyAgent", ignorecase).expect("conflicts");
        assert_eq!(conflicts.len(), 1);
    }
}

#[test]
fn a_backslash_in_a_pattern_means_what_the_platform_says() {
    let mut record = reservation("docs/a.md", "OtherAgent", true);
    record.normalized_pattern = "docs\\/a.md".to_string();
    let paths = vec!["docs/a.md".to_string()];
    let conflicts =
        check_path_conflicts(&paths, &vec![record], "MyAgent", false).expect("conflicts");
    let escapes = !std::path::is_separator('\\');
    assert_eq!(conflicts.len(), usize::from(escapes));
}

#[test]
fn own_and_shared_reservations_change_nothing() {
    let other = reservation("src/**", "OtherAgent", true);
    let all = vec![
        reservation("src/main.rs", "myagent", true),
        reservation("src/*.rs", "Shared", false),
        other.clone(),
        reservation("**", "MyAgent", true),
    ];
    let paths = vec!["src/main.rs".to_string(), "docs/x.md".to_string()];
    let with = check_path_conflicts(&paths, &all, "MyAgent", false).expect("conflicts");
    let without = check_path_conflicts(&paths, &vec![other], "MyAgent", false).expect("conflicts");
    assert_eq!(with.len(), 1);
    assert_eq!(with.len(), without.len());
    assert_eq!((&with[0].path, &with[0].holder), (&without[0].path, &without[0].holder));
}

#[test]
fn checks_of_parts_make_the_check_of_all() {
    let reservations = vec![
        reservation("src/**", "OtherAgent", true),
        reservation("docs", "Writer", true),
    ];
    let first = vec!["docs/a.md".to_string(), "free.txt".to_string()];
    let second = vec!["src/main.rs".to_string(), "docs/a.md".to_string()];
    let found = |paths: &Vec<String>| -> Vec<(String, String)> {
        check_path_conflicts(paths, &reservations, "MyAgent", false)
            .expect("conflicts")
            .into_iter()
            .map(|c| (c.path, c.holder))
            .collect()
    };
    let all: Vec<String> = first.iter().chain(second.iter()).cloned().collect();
    let mut parts = found(&first);
    parts.extend(found(&second));
    assert_eq!(found(&all), parts);
    assert_eq!(parts.len(), 3);
}

#[test]
fn patterns_that_fit_into_no_set_fail_the_check() {
    let deep = format!("src/{}a{}", "{".repeat(400), "}".repeat(400));
    let paths = vec!["src/main.rs".to_string()];
    let record = reservation(&deep, "OtherAgent", true);
    match check_path_conflicts(&paths, &vec![record], "MyAgent", false) {
        Err(GuardError::InvalidReservationPattern { pattern, error }) => {
            assert_eq!(pattern, "<globset>");
            assert!(!error.is_empty());
        }
        other => panic!("the set must not be built: {other:?}"),
    }
}
