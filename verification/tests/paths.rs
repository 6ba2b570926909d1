//! Path normalization and glob detection, and how patterns match paths.

use agent_mail_guard::paths::{
    at_or_below, contains_glob, fuzz_contains_glob, fuzz_normalize_path, is_default_exempt_path,
    normalize_path,
};

/// Simple fnmatch-style glob matching: `*` matches within a single directory,
/// `**` matches across directories.
fn fnmatch_simple(path: &str, pattern: &str) -> bool {
    if path == pattern {
        return true;
    }
    globset::GlobBuilder::new(pattern)
        .literal_separator(true)
        .build()
        .is_ok_and(|g| g.compile_matcher().is_match(path))
}

/// Two paths or patterns conflict if they match each other, or if one is a
/// directory above the other.
fn paths_conflict(a: &str, b: &str) -> bool {
    if a == b {
        return true;
    }
    if fnmatch_simple(a, b) || fnmatch_simple(b, a) {
        return true;
    }
    !a.is_empty() && !b.is_empty() && (at_or_below(b, a) || at_or_below(a, b))
}

#[test]
fn normalize_strips_leading_slash_and_backslashes() {
    assert_eq!(normalize_path("/app/api/users.py", false), "app/api/users.py");
    assert_eq!(normalize_path("app\\api\\users.py", false), "app/api/users.py");
    assert_eq!(normalize_path("\\app\\api", false), "app/api");
    assert_eq!(normalize_path("already/clean", false), "already/clean");

    assert_eq!(normalize_path("app/../api/users.py", false), "api/users.py");
    assert_eq!(normalize_path("app/models/../../api/users.py", false), "api/users.py");
    assert_eq!(normalize_path("../evil", false), "evil");
    assert_eq!(normalize_path("../../evil", false), "evil");
    assert_eq!(normalize_path("app/./api/./file.py", false), "app/api/file.py");
    assert_eq!(normalize_path("app/other/../api/./lib.rs", false), "app/api/lib.rs");
    assert_eq!(normalize_path("App/../SRC/Lib.rs", true), "src/lib.rs");
}

#[test]
fn normal_form_of_edge_cases() {
    assert_eq!(normalize_path("", false), "");
    assert_eq!(normalize_path("/", false), "");
    assert_eq!(normalize_path("a//b/", false), "a/b");
    assert_eq!(normalize_path("..", false), "");
    assert_eq!(normalize_path("A/B", false), "A/B");
    assert_eq!(normalize_path("ÄÖ/ẞ", true), "äö/ß");
    assert_eq!(normalize_path("ΑΣ", true), "ας");
}

#[test]
fn normalizing_twice_changes_nothing() {
    for path in ["a/../b", "//x\\y/./z", "../../..", "a/b/../../../c", "İ/x"] {
        let once = normalize_path(path, false);
        assert_eq!(normalize_path(&once, false), once);
    }
}

#[test]
fn fuzz_entry_points_agree_with_the_functions() {
    for path in ["a/../b", "\\x\\", "A/B/C", "*/[a]"] {
        for ignorecase in [false, true] {
            assert_eq!(fuzz_normalize_path(path, ignorecase), normalize_path(path, ignorecase));
        }
        assert_eq!(fuzz_contains_glob(path), contains_glob(path));
    }
}

#[test]
fn contains_glob_detection() {
    assert!(contains_glob("*.py"));
    assert!(contains_glob("app/**"));
    assert!(contains_glob("file?.txt"));
    assert!(contains_glob("[abc].txt"));
    assert!(!contains_glob("app/api/users.py"));
    assert!(!contains_glob("plain_path"));
}

#[test]
fn an_opening_brace_is_a_glob() {
    assert!(contains_glob("src/{a,b}.rs"));
    assert!(!contains_glob("src/a}.rs"));
}

#[test]
fn tracker_metadata_is_exempt() {
    assert!(is_default_exempt_path(".beads", false));
    assert!(is_default_exempt_path(".beads/issues.jsonl", false));
    assert!(is_default_exempt_path("./.beads/x", false));
    assert!(!is_default_exempt_path(".beads2/x", false));
    assert!(!is_default_exempt_path("src/.beads/x", false));
    assert!(!is_default_exempt_path(".BEADS/x", false));
    assert!(is_default_exempt_path(".BEADS/x", true));
}

#[test]
fn exact_match() {
    assert!(paths_conflict("app/api/users.py", "app/api/users.py"));
}

#[test]
fn glob_star_match() {
    assert!(paths_conflict("app/api/users.py", "app/api/*.py"));
    assert!(paths_conflict("app/api/*.py", "app/api/users.py"));
}

#[test]
fn glob_double_star_match() {
    assert!(paths_conflict("app/api/v2/deep/users.py", "app/**/*.py"));
    assert!(paths_conflict("src/main.rs", "**/*.rs"));
}

#[test]
fn directory_prefix_match() {
    assert!(paths_conflict("app/api/users.py", "app/api"));
    assert!(!paths_conflict("app/other/users.py", "app/api"));
}

#[test]
fn no_false_positives() {
    assert!(!paths_conflict("app/api/users.py", "app/models/*.py"));
    assert!(!paths_conflict("src/main.rs", "tests/*.rs"));
    assert!(!paths_conflict("README.md", "app/*"));
}

#[test]
fn wildcard_directory_match() {
    assert!(paths_conflict("app/api/users.py", "app/api/*"));
    assert!(paths_conflict("app/api/v2/users.py", "app/api/**"));
}

#[test]
fn question_mark_glob() {
    assert!(paths_conflict("app/v1/users.py", "app/v?/users.py"));
    assert!(!paths_conflict("app/v12/users.py", "app/v?/users.py"));
}

#[test]
fn fnmatch_basic() {
    assert!(fnmatch_simple("foo.py", "*.py"));
    assert!(fnmatch_simple("foo.py", "foo.*"));
    assert!(fnmatch_simple("foo.py", "foo.py"));
    assert!(!fnmatch_simple("foo.py", "*.rs"));
}

#[test]
fn fnmatch_double_star() {
    assert!(fnmatch_simple("a/b/c.py", "**/*.py"));
    assert!(fnmatch_simple("a/b/c/d.py", "**/d.py"));
    assert!(!fnmatch_simple("a/b/c.rs", "**/*.py"));
}

#[test]
fn fnmatch_unicode_does_not_panic() {
    assert!(fnmatch_simple("a/ß.py", "**/*.py"));
    assert!(fnmatch_simple("ß.py", "*.py"));
    assert!(!fnmatch_simple("ß.rs", "*.py"));
}

#[test]
fn fnmatch_question() {
    assert!(fnmatch_simple("a.py", "?.py"));
    assert!(!fnmatch_simple("ab.py", "?.py"));
}

#[test]
fn fnmatch_star_does_not_cross_directory() {
    assert!(!fnmatch_simple("a/b/c.py", "a/*.py"));
    assert!(fnmatch_simple("a/c.py", "a/*.py"));
}

#[test]
fn fnmatch_empty_pattern_only_matches_empty() {
    assert!(fnmatch_simple("", ""));
    assert!(!fnmatch_simple("anything", ""));
}

#[test]
fn fnmatch_star_at_beginning() {
    assert!(fnmatch_simple("test.py", "*.py"));
    assert!(fnmatch_simple(".py", "*.py"));
}

#[test]
fn paths_conflict_slash_star_prefix_length_boundary() {
    assert!(paths_conflict("app", "app/*"));
}

#[test]
fn paths_conflict_slash_star_not_matching_sibling() {
    assert!(!paths_conflict("application/file.py", "app/*"));
}

#[test]
fn paths_conflict_double_star_suffix_matches_any_depth() {
    assert!(paths_conflict("src/a/b/c/d/e.rs", "src/**"));
    assert!(paths_conflict("src/lib.rs", "src/**"));
}

#[test]
fn paths_conflict_empty_strings() {
    assert!(paths_conflict("", ""));
    assert!(!paths_conflict("", "app/api"));
    assert!(!paths_conflict("app/api", ""));
}

#[test]
fn paths_conflict_symmetric_directory_match() {
    assert!(paths_conflict("app/api", "app/api/users.py"));
}

#[test]
fn paths_conflict_directory_match_no_false_substring() {
    assert!(!paths_conflict("app/api_v2/file.py", "app/api"));
}
