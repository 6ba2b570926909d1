//! The scan of a push: its bounds, its ranges, and what it reports.

use agent_mail_guard::git_retry::{
    guard_run_git_with_retry, is_segfault_status, run_git_until, run_git_until_start,
    segfault_backoff_ms, segfault_retry_delay, AfterAttempt, ExitInfo, UntilStep,
};
use agent_mail_guard::guard::GuardError;
use agent_mail_guard::name_status::NameStatusStream;
use agent_mail_guard::push_scan::{
    diff_tree_args, get_push_paths, get_staged_paths, out_of_time, parse_push_bound, push_range,
    scan_push_paths, short_sha, stream_push_commit_paths, CountReply, PipelineRun, PipelineStep,
    PushScan, PushScanLimits, ScanAction, ScanStop, StreamOutcome, PUSH_MAX_COMMITS_ENV,
    PUSH_MAX_PATHS_ENV, PUSH_TIMEOUT_ENV,
};

const TIP: &str = "1111111111111111111111111111111111111111";
const BASE: &str = "2222222222222222222222222222222222222222";
const ZERO: &str = "0000000000000000000000000000000000000000";

const GOOD: ExitInfo = ExitInfo { success: true, code: Some(0), signal: None };
const BAD: ExitInfo = ExitInfo { success: false, code: Some(128), signal: None };
const CRASH: ExitInfo = ExitInfo { success: false, code: None, signal: Some(11) };

fn finished(stdout: &str) -> CountReply {
    CountReply::Finished { status: GOOD, stdout: stdout.as_bytes().to_vec(), stderr: Vec::new() }
}

fn found(paths: &[&str], records: usize, stop: ScanStop) -> StreamOutcome {
    StreamOutcome { paths: paths.iter().map(|p| p.to_string()).collect(), records, stop }
}

#[test]
fn parse_push_bound_follows_the_hook_rules() {
    assert_eq!(parse_push_bound(None, 7), Some(7), "unset keeps the default");
    assert_eq!(parse_push_bound(Some("  "), 7), Some(7), "blank keeps the default");
    assert_eq!(parse_push_bound(Some(" 42 "), 7), Some(42));
    assert_eq!(parse_push_bound(Some("0"), 7), None, "0 removes the bound");
    assert_eq!(parse_push_bound(Some("-3"), 7), None, "negative removes the bound");
    assert_eq!(parse_push_bound(Some("lots"), 7), Some(7), "a typo must not unbound the scan");
    assert_eq!(parse_push_bound(Some("1.5"), 7), Some(7));
}

#[test]
fn push_scan_limits_default_is_bounded_and_unbounded_is_not() {
    let limits = PushScanLimits::default();
    assert_eq!(limits.max_commits, Some(PushScanLimits::DEFAULT_MAX_COMMITS));
    assert_eq!(limits.max_paths, Some(PushScanLimits::DEFAULT_MAX_PATHS));
    assert_eq!(limits.timeout, Some(PushScanLimits::DEFAULT_TIMEOUT));
    assert_eq!(
        PushScanLimits::unbounded(),
        PushScanLimits { max_commits: None, max_paths: None, timeout: None }
    );
}

#[test]
fn push_scan_limits_from_env_reads_every_bound() {
    assert_eq!(
        PushScanLimits::from_values(None, None, None),
        PushScanLimits::default(),
        "unset variables give the defaults"
    );
    let limits = PushScanLimits::from_values(Some("12"), Some("0"), Some("junk"));
    assert_eq!(limits.max_commits, Some(12));
    assert_eq!(limits.max_paths, None, "0 removes the bound");
    assert_eq!(
        limits.timeout,
        Some(PushScanLimits::DEFAULT_TIMEOUT),
        "an unparseable value keeps the default"
    );
}

#[test]
fn variables_are_named_for_the_operator() {
    assert_eq!(PUSH_MAX_COMMITS_ENV, "AGENT_MAIL_GUARD_PUSH_MAX_COMMITS");
    assert_eq!(PUSH_MAX_PATHS_ENV, "AGENT_MAIL_GUARD_PUSH_MAX_PATHS");
    assert_eq!(PUSH_TIMEOUT_ENV, "AGENT_MAIL_GUARD_PUSH_TIMEOUT_SECS");
}

#[test]
fn push_paths_skips_delete_pushes() {
    let stdin_lines = "refs/heads/main 0000000000000000000000000000000000000000 refs/heads/main 1234567890abcdef1234567890abcdef12345678\n";
    assert!(push_range(stdin_lines.trim_end()).is_none());
    let scanner = scan_push_paths(stdin_lines, &PushScanLimits::default());
    assert!(matches!(scanner.next_action(), ScanAction::Finish), "git is not asked");
    let paths = get_push_paths(scanner.finish()).expect("push paths");
    assert_eq!(paths, [] as [std::string::String; 0]);
}

#[test]
fn a_line_with_too_few_fields_is_passed_over() {
    assert!(push_range("").is_none());
    assert!(push_range("refs/heads/main").is_none());
}

#[test]
fn a_new_branch_is_scanned_without_a_base() {
    let with_base = push_range(&format!("refs/heads/main {TIP} refs/heads/main {BASE}"))
        .expect("an ordinary push has a range");
    let without = push_range(&format!("refs/heads/new {TIP} refs/heads/new {ZERO}"))
        .expect("a new branch has a range");
    assert_ne!(with_base.rev_args, without.rev_args);
    assert!(with_base.rev_args.iter().any(|a| a.contains(BASE)));
    assert!(!without.rev_args.iter().any(|a| a.contains(ZERO)));
}

#[test]
fn a_complete_scan_hands_its_paths_on() {
    let line = format!("refs/heads/main {TIP} refs/heads/main {BASE}\n");
    let mut scanner = scan_push_paths(&line, &PushScanLimits::default());
    assert!(matches!(scanner.next_action(), ScanAction::Count { .. }));
    let action = scanner.on_count(&finished("3\n"));
    assert!(matches!(action, ScanAction::Stream { .. }));
    let action = scanner.on_stream(&found(&["f3.txt", "f1.txt", "f2.txt", "f1.txt"], 4, ScanStop::Complete));
    assert!(matches!(action, ScanAction::Finish));
    let scan = scanner.finish();
    assert_eq!(scan.paths, vec!["f1.txt", "f2.txt", "f3.txt"]);
    assert!(scan.is_complete());
    assert_eq!(get_push_paths(scan).expect("complete scan"), vec!["f1.txt", "f2.txt", "f3.txt"]);
}

#[test]
fn get_push_paths_reports_a_truncated_scan_as_an_error() {
    let line = format!("refs/heads/main {TIP} refs/heads/main {BASE}\n");
    let limits = PushScanLimits::from_values(Some("2"), None, None);
    let mut scanner = scan_push_paths(&line, &limits);
    let action = scanner.on_count(&finished("3\n"));
    assert!(matches!(action, ScanAction::Stream { .. }));
    scanner.on_stream(&found(&["f3.txt", "f2.txt"], 2, ScanStop::Complete));
    let scan = scanner.finish();
    assert_eq!(scan.paths, vec!["f2.txt", "f3.txt"]);
    assert!(!scan.is_complete());
    let err = get_push_paths(scan)
        .expect_err("a truncated scan must not come back as a shorter path list");
    match &err {
        GuardError::PushScanTruncated { detail } => {
            assert!(
                detail.contains("more than 2 commits") && detail.contains(PUSH_MAX_COMMITS_ENV),
                "{detail}"
            );
        }
        other => panic!("expected PushScanTruncated, got {other:?}"),
    }
}

#[test]
fn a_capped_stream_is_reported_with_its_bound() {
    let line = format!("refs/heads/main {TIP} refs/heads/main {BASE}\n");
    let mut scanner = scan_push_paths(&line, &PushScanLimits::default());
    scanner.on_count(&finished("3\n"));
    scanner.on_stream(&found(&["a"], 1, ScanStop::Capped));
    let scan = scanner.finish();
    assert_eq!(scan.unchecked.len(), 1);
    assert!(scan.unchecked[0].contains(PUSH_MAX_PATHS_ENV), "{:?}", scan.unchecked);
}

#[test]
fn scan_push_paths_exhausted_budget_is_reported_not_swallowed() {
    let stdin_lines = format!("refs/heads/main {TIP} refs/heads/main {BASE}\n");
    let limits = PushScanLimits { timeout: Some(0), ..PushScanLimits::unbounded() };
    let mut scanner = scan_push_paths(&stdin_lines, &limits);
    assert!(matches!(scanner.next_action(), ScanAction::Count { .. }));
    assert!(matches!(scanner.on_count(&CountReply::OutOfTime), ScanAction::Finish));
    let scan = scanner.finish();
    assert_eq!(scan.paths, Vec::<String>::new());
    assert_eq!(scan.unchecked.len(), 1, "{:?}", scan.unchecked);
    assert!(
        scan.unchecked[0].contains("time budget") && scan.unchecked[0].contains(PUSH_TIMEOUT_ENV),
        "{:?}",
        scan.unchecked
    );
}

#[test]
fn a_time_out_while_counting_stops_the_scan() {
    let lines = format!(
        "refs/heads/a {TIP} refs/heads/a {BASE}\nrefs/heads/b {TIP} refs/heads/b {BASE}\n"
    );
    let mut scanner = scan_push_paths(&lines, &PushScanLimits::default());
    let action = scanner.on_count(&CountReply::OutOfTime);
    assert!(matches!(action, ScanAction::Finish));
    let scan = scanner.finish();
    assert!(!scan.is_complete());
    assert_eq!(scan.paths, Vec::<String>::new());
    assert_eq!(scan.unchecked.len(), 1, "{:?}", scan.unchecked);
    assert!(
        scan.unchecked[0].contains("time budget") && scan.unchecked[0].contains(PUSH_TIMEOUT_ENV),
        "{:?}",
        scan.unchecked
    );
}

#[test]
fn scan_push_paths_fails_closed_on_a_bad_range() {
    let bogus = "1111111111111111111111111111111111111111";
    let stdin_lines = format!("refs/heads/main {BASE} refs/heads/main {bogus}\n");
    let mut scanner = scan_push_paths(&stdin_lines, &PushScanLimits::default());
    let reply = CountReply::Finished {
        status: BAD,
        stdout: Vec::new(),
        stderr: b"fatal: bad object\n".to_vec(),
    };
    match scanner.on_count(&reply) {
        ScanAction::Fail(err) => {
            let text = err.message();
            assert!(text.contains("rev-list failed"), "unexpected error: {text}");
            assert!(text.contains("bad object"), "unexpected error: {text}");
        }
        _ => panic!("unknown remote sha must not scan as empty"),
    }
}

#[test]
fn a_time_out_within_a_stream_stops_the_scan() {
    let lines = format!(
        "refs/heads/a {TIP} refs/heads/a {BASE}\nrefs/heads/b {TIP} refs/heads/b {BASE}\n"
    );
    let mut scanner = scan_push_paths(&lines, &PushScanLimits::default());
    scanner.on_count(&finished("1\n"));
    let action = scanner.on_stream(&out_of_time());
    assert!(matches!(action, ScanAction::Finish));
    assert!(!scanner.finish().is_complete());
}

#[test]
fn staged_paths_come_from_the_output() {
    let paths = get_staged_paths(GOOD, b"R100\0old.txt\0new.txt\0A\0a.txt\0", b"").expect("staged");
    assert_eq!(paths, vec!["old.txt", "new.txt", "a.txt"]);
    let err = get_staged_paths(BAD, b"", b" fatal: no repository \n").expect_err("failure");
    assert!(
        matches!(&err, GuardError::Io { message } if message == "git diff --cached failed (exit 128): fatal: no repository"),
        "{err:?}"
    );
    let err = get_staged_paths(CRASH, b"", b"").expect_err("failure");
    assert!(matches!(&err, GuardError::Io { message } if message == "git diff --cached failed (exit -1): "));
}

#[test]
fn long_names_of_commits_are_cut() {
    assert_eq!(short_sha(TIP), "111111111111");
    assert_eq!(short_sha("abc"), "abc");
}

#[test]
fn commits_are_read_from_standard_input() {
    let args = diff_tree_args();
    assert!(args.iter().any(|a| a == "diff-tree"));
    assert!(args.iter().any(|a| a == "--stdin"));
    assert!(args.iter().any(|a| a == "--cc"));
}

#[test]
fn a_crash_of_git_is_tried_again_and_then_reported() {
    assert!(is_segfault_status(CRASH));
    assert!(is_segfault_status(ExitInfo { success: false, code: Some(139), signal: None }));
    assert!(!is_segfault_status(BAD));
    assert!(matches!(guard_run_git_with_retry(0, CRASH), AfterAttempt::RetryAfter { .. }));
    assert!(matches!(guard_run_git_with_retry(0, BAD), AfterAttempt::Accept));
    let mut attempt = 0;
    while segfault_backoff_ms(attempt).is_some() {
        attempt += 1;
        assert!(attempt < 10);
    }
    assert!(matches!(guard_run_git_with_retry(attempt, CRASH), AfterAttempt::Accept));
}

#[test]
fn a_delay_stays_near_its_base() {
    let base = segfault_backoff_ms(0).expect("a first retry");
    for nanos in [0, 1, 999_999_999] {
        let delay = segfault_retry_delay(base, nanos);
        assert!(delay >= base / 2 && delay <= base * 2, "{base} {delay}");
    }
}

#[test]
fn a_deadline_is_looked_at_before_the_start() {
    assert!(matches!(run_git_until_start(true), UntilStep::OutOfTime));
    assert!(matches!(run_git_until_start(false), UntilStep::Start));
    assert!(matches!(run_git_until(0, None), UntilStep::OutOfTime));
    assert!(matches!(run_git_until(0, Some(GOOD)), UntilStep::Accept));
    assert!(matches!(run_git_until(0, Some(CRASH)), UntilStep::RetryAfter { .. }));
}

fn pipeline(capped: bool, timed_out: bool) -> PipelineRun {
    let mut parser = NameStatusStream::default();
    parser.capped = capped;
    PipelineRun {
        parser,
        rev_list_stderr: " first ".to_string(),
        diff_tree_stderr: " second ".to_string(),
        timed_out,
    }
}

#[test]
fn the_end_of_a_pipeline_is_read_from_both_processes() {
    assert!(matches!(
        stream_push_commit_paths(0, pipeline(true, true), BAD, BAD),
        PipelineStep::Done(StreamOutcome { stop: ScanStop::Capped, .. })
    ));
    assert!(matches!(
        stream_push_commit_paths(0, pipeline(false, true), GOOD, GOOD),
        PipelineStep::Done(StreamOutcome { stop: ScanStop::Complete, .. })
    ));
    assert!(matches!(
        stream_push_commit_paths(0, pipeline(false, true), BAD, GOOD),
        PipelineStep::Done(StreamOutcome { stop: ScanStop::TimedOut, .. })
    ));
    assert!(matches!(
        stream_push_commit_paths(0, pipeline(false, false), GOOD, CRASH),
        PipelineStep::RetryAfter { .. }
    ));
    match stream_push_commit_paths(0, pipeline(false, false), BAD, BAD) {
        PipelineStep::Fail(GuardError::Io { message }) => {
            assert_eq!(message, "git rev-list failed (exit 128): first");
        }
        _ => panic!("a failed list must fail the scan"),
    }
    match stream_push_commit_paths(0, pipeline(false, false), GOOD, BAD) {
        PipelineStep::Fail(GuardError::Io { message }) => {
            assert_eq!(message, "git diff-tree failed (exit 128): second");
        }
        _ => panic!("a failed diff must fail the scan"),
    }
}

#[test]
fn a_scan_without_notes_is_complete() {
    assert!(PushScan { paths: Vec::new(), unchecked: Vec::new() }.is_complete());
    assert!(!PushScan { paths: Vec::new(), unchecked: vec!["x".to_string()] }.is_complete());
}
