//! The bounded scan of the paths that a push touches.
//!
//! Running git is the caller's part. What is run, what its output means, and
//! what is recorded as not inspected is decided here.

use vstd::prelude::*;

use crate::git_retry::{next_after, AfterAttempt, ExitInfo, guard_run_git_with_retry};
use crate::guard::{GuardError, GuardResult};
use crate::name_status::{
    from_utf8_lossy, lossy, parse_name_status_z, paths_of_output, NameStatusStream,
};
use crate::numbers::{
    decimal, parse_i64, parse_usize, parsed_i64, parsed_unsigned, print_i64, print_u64,
    signed_decimal,
};
use crate::order::{is_sorted_set, sorted_set};
use crate::text::{
    chars_of, join, joined, lines, lines_of, opt_view, split_whitespace, text_of, trim, trimmed,
    views, words,
};

verus! {

/// Environment variable: most commits inspected per pushed ref (`0` = unbounded).
pub const PUSH_MAX_COMMITS_ENV: &'static str = "AGENT_MAIL_GUARD_PUSH_MAX_COMMITS";

/// Environment variable: most path records read per pushed ref (`0` = unbounded).
pub const PUSH_MAX_PATHS_ENV: &'static str = "AGENT_MAIL_GUARD_PUSH_MAX_PATHS";

/// Environment variable: wall-clock budget in seconds for the whole scan (`0` = unbounded).
pub const PUSH_TIMEOUT_ENV: &'static str = "AGENT_MAIL_GUARD_PUSH_TIMEOUT_SECS";

/// How much of a push the scan may inspect. `None` removes a bound.
#[derive(Debug, Clone, Copy, PartialEq, Eq, Structural)]
pub struct PushScanLimits {
    /// Most commits listed per pushed ref; the newest ones are kept.
    pub max_commits: Option<usize>,
    /// Most path records read per pushed ref.
    pub max_paths: Option<usize>,
    /// Wall-clock budget, in seconds, shared by every ref of the push.
    pub timeout: Option<u64>,
}

impl PushScanLimits {
    pub const DEFAULT_MAX_COMMITS: usize = 2000;

    pub const DEFAULT_MAX_PATHS: usize = 100_000;

    pub const DEFAULT_TIMEOUT_SECS: usize = 120;

    /// The default wall-clock budget, in seconds.
    pub const DEFAULT_TIMEOUT: u64 = 120;

    /// No bounds at all: every commit of the push is inspected.
    pub fn unbounded() -> (r: PushScanLimits)
        ensures
            r == (PushScanLimits { max_commits: None, max_paths: None, timeout: None }),
    {
        PushScanLimits { max_commits: None, max_paths: None, timeout: None }
    }

    /// The defaults, overridden by the values of the three variables.
    pub fn from_values(commits: Option<&str>, paths: Option<&str>, timeout: Option<&str>) -> (r:
        PushScanLimits)
        ensures
            r.max_commits == push_bound(opt_view(commits), Self::DEFAULT_MAX_COMMITS),
            r.max_paths == push_bound(opt_view(paths), Self::DEFAULT_MAX_PATHS),
            r.timeout == (match push_bound(opt_view(timeout), Self::DEFAULT_TIMEOUT_SECS) {
                Some(secs) => Some(secs as u64),
                None => None,
            }),
    {
        PushScanLimits {
            max_commits: parse_push_bound(commits, Self::DEFAULT_MAX_COMMITS),
            max_paths: parse_push_bound(paths, Self::DEFAULT_MAX_PATHS),
            timeout: match parse_push_bound(timeout, Self::DEFAULT_TIMEOUT_SECS) {
                Some(secs) => Some(secs as u64),
                None => None,
            },
        }
    }
}

impl Default for PushScanLimits {
    fn default() -> (r: Self)
        ensures
            r == (PushScanLimits {
                max_commits: Some(Self::DEFAULT_MAX_COMMITS),
                max_paths: Some(Self::DEFAULT_MAX_PATHS),
                timeout: Some(Self::DEFAULT_TIMEOUT),
            }),
    {
        PushScanLimits {
            max_commits: Some(Self::DEFAULT_MAX_COMMITS),
            max_paths: Some(Self::DEFAULT_MAX_PATHS),
            timeout: Some(Self::DEFAULT_TIMEOUT),
        }
    }
}

/// The bound that a value sets: none or blank keeps the default, zero or a
/// negative number removes the bound, and what is no number keeps the default.
pub open spec fn push_bound(raw: Option<Seq<char>>, default: usize) -> Option<usize> {
    match raw {
        None => Some(default),
        Some(text) => {
            let value = trimmed(text);
            if value.len() == 0 {
                Some(default)
            } else {
                match parsed_i64(value) {
                    Some(n) if n > usize::MAX => Some(usize::MAX),
                    Some(n) if n > 0 => Some(n as usize),
                    Some(_) => None,
                    None => Some(default),
                }
            }
        },
    }
}

/// Parses one scan bound.
pub fn parse_push_bound(raw: Option<&str>, default: usize) -> (r: Option<usize>)
    ensures
        r == push_bound(opt_view(raw), default),
{
    let text = match raw {
        None => {
            return Some(default);
        },
        Some(text) => trim(text),
    };
    if text.as_str().is_empty() {
        return Some(default);
    }
    match parse_i64(text.as_str()) {
        Some(n) => if n <= 0 {
            None
        } else if n as u64 > usize::MAX as u64 {
            Some(usize::MAX)
        } else {
            Some(n as usize)
        },
        None => Some(default),
    }
}

/// A typo never removes a bound: only a number that is not positive does.
pub proof fn law_a_typo_keeps_the_default(raw: Option<Seq<char>>, default: usize)
    ensures
        push_bound(raw, default) is None <==> (raw is Some && (parsed_i64(
            trimmed(raw->0),
        ) matches Some(n) && n <= 0)),
        raw is Some && parsed_i64(trimmed(raw->0)) is None ==> push_bound(raw, default) == Some(
            default,
        ),
{
}

/// What a bounded pre-push scan inspected.
#[derive(Debug, PartialEq, Eq)]
pub struct PushScan {
    /// Sorted, deduplicated paths touched by the inspected commits.
    pub paths: Vec<String>,
    /// Every part of the push that was not inspected, written for the
    /// operator. Empty means that the scan covered the whole push.
    pub unchecked: Vec<String>,
}

impl Clone for PushScan {
    fn clone(&self) -> (r: Self)
        ensures
            views(r.paths@) == views(self.paths@),
            views(r.unchecked@) == views(self.unchecked@),
    {
        let mut paths: Vec<String> = Vec::new();
        append_all(&mut paths, &self.paths);
        let mut unchecked: Vec<String> = Vec::new();
        append_all(&mut unchecked, &self.unchecked);
        assert(views(Seq::<String>::empty()) + views(self.paths@) =~= views(self.paths@));
        assert(views(Seq::<String>::empty()) + views(self.unchecked@) =~= views(self.unchecked@));
        PushScan { paths, unchecked }
    }
}

impl Default for PushScan {
    fn default() -> (r: Self)
        ensures
            r.paths@.len() == 0,
            r.unchecked@.len() == 0,
    {
        PushScan { paths: Vec::new(), unchecked: Vec::new() }
    }
}

impl PushScan {
    /// Whether every pushed commit was inspected.
    pub fn is_complete(&self) -> (r: bool)
        ensures
            r == (self.unchecked@.len() == 0),
    {
        self.unchecked.is_empty()
    }
}

/// The paths of a scan that covered the whole push. A truncated scan is an
/// error, so that a part of the push is never taken for the push.
pub fn get_push_paths(scan: PushScan) -> (r: GuardResult<Vec<String>>)
    ensures
        match r {
            Ok(paths) => scan.unchecked@.len() == 0 && paths == scan.paths,
            Err(e) => scan.unchecked@.len() > 0 && (e matches GuardError::PushScanTruncated {
                detail,
            } && detail@ == joined(views(scan.unchecked@), "; "@)),
        },
{
    if scan.is_complete() {
        Ok(scan.paths)
    } else {
        Err(GuardError::PushScanTruncated { detail: join(&scan.unchecked, "; ") })
    }
}

/// The paths that are staged, given what `git diff --cached --name-status -M
/// -z` returned. A failed git is an error, so that nothing goes unchecked.
pub fn get_staged_paths(status: ExitInfo, stdout: &[u8], stderr: &[u8]) -> (r: GuardResult<
    Vec<String>,
>)
    ensures
        status.success ==> (r matches Ok(paths) && views(paths@) == paths_of_output(stdout@)),
        !status.success ==> (r matches Err(e) && (e matches GuardError::Io { message } && message@
            == "git diff --cached failed (exit "@ + signed_decimal(status.code_or_minus_one())
            + "): "@ + trimmed(lossy(stderr@)))),
{
    if !status.success {
        return Err(
            GuardError::Io {
                message: "git diff --cached failed (exit ".to_owned().concat(
                    print_i64(status.exit_code()).as_str(),
                ).concat("): ").concat(trim(from_utf8_lossy(stderr).as_str()).as_str()),
            },
        );
    }
    parse_name_status_z(stdout)
}

pub open spec fn all_zeros(s: Seq<char>) -> bool {
    forall|i: int| 0 <= i < s.len() ==> s[i] == '0'
}

fn is_all_zeros(s: &str) -> (r: bool)
    ensures
        r == all_zeros(s@),
{
    let cs = chars_of(s);
    let mut i: usize = 0;
    while i < cs.len()
        invariant
            i <= cs@.len(),
            cs@ == s@,
            forall|k: int| 0 <= k < i ==> s@[k] == '0',
        decreases cs@.len() - i,
    {
        if cs[i] != '0' {
            return false;
        }
        i = i + 1;
    }
    true
}

/// The number of bytes of a character in UTF-8.
pub open spec fn char_bytes(c: char) -> int {
    if c as u32 <= 0x7F {
        1
    } else if c as u32 <= 0x7FF {
        2
    } else if c as u32 <= 0xFFFF {
        3
    } else {
        4
    }
}

/// How many characters of `s` fill exactly `bytes` bytes, if some do.
pub open spec fn chars_in(s: Seq<char>, bytes: int) -> Option<int>
    decreases s.len(),
{
    if bytes == 0 {
        Some(0)
    } else if bytes < 0 || s.len() == 0 {
        None
    } else {
        match chars_in(s.skip(1), bytes - char_bytes(s[0])) {
            Some(k) => Some(k + 1),
            None => None,
        }
    }
}

/// The short form of a commit id: its first twelve bytes, or all of it where
/// it is shorter or twelve bytes end within a character.
pub open spec fn short_of(sha: Seq<char>) -> Seq<char> {
    match chars_in(sha, 12) {
        Some(k) => sha.take(k),
        None => sha,
    }
}

pub fn short_sha(sha: &str) -> (r: String)
    ensures
        r@ == short_of(sha@),
{
    let cs = chars_of(sha);
    let mut bytes: usize = 0;
    let mut i: usize = 0;
    assert(sha@.skip(0) =~= sha@);
    while i < cs.len() && bytes < 12
        invariant
            i <= cs@.len(),
            cs@ == sha@,
            bytes <= 15,
            chars_in(sha@, 12) == (match chars_in(sha@.skip(i as int), 12 - bytes) {
                Some(k) => Some(k + i),
                None => None,
            }),
        decreases cs@.len() - i,
    {
        let u: u32 = cs[i] as u32;
        let n: usize = if u <= 0x7F {
            1
        } else if u <= 0x7FF {
            2
        } else if u <= 0xFFFF {
            3
        } else {
            4
        };
        assert(sha@.skip(i as int).skip(1) =~= sha@.skip(i + 1));
        bytes = bytes + n;
        i = i + 1;
    }
    if bytes == 12 {
        let r = text_of(cs.as_slice(), 0, i);
        assert(r@ =~= sha@.take(i as int));
        r
    } else {
        sha.to_owned()
    }
}

/// The commits of one pushed ref: what git is asked for, and how messages
/// speak of it.
pub struct PushRange {
    pub rev_args: Vec<String>,
    pub what: String,
}

/// The range that a line `<local_ref> <local_sha> <remote_ref> <remote_sha>`
/// of the hook's input stands for. Short lines and deletions, whose local id
/// is all zeros, stand for none; a new branch, whose remote id is all zeros,
/// for what no remote has.
pub open spec fn range_of(line: Seq<char>) -> Option<(Seq<Seq<char>>, Seq<char>)> {
    let parts = words(line);
    if parts.len() < 4 || all_zeros(parts[1]) {
        None
    } else if all_zeros(parts[3]) {
        Some(
            (
                seq![parts[1], "--not"@, "--remotes"@],
                "new-branch push of "@ + short_of(parts[1]),
            ),
        )
    } else {
        Some(
            (
                seq![parts[3] + ".."@ + parts[1]],
                "push "@ + short_of(parts[3]) + ".."@ + short_of(parts[1]),
            ),
        )
    }
}

pub fn push_range(line: &str) -> (r: Option<PushRange>)
    ensures
        match r {
            Some(range) => range_of(line@) == Some((views(range.rev_args@), range.what@)),
            None => range_of(line@) is None,
        },
{
    let parts = split_whitespace(line);
    let ghost pv = words(line@);
    if parts.len() < 4 {
        return None;
    }
    let local = parts[1].as_str();
    let remote = parts[3].as_str();
    assert(local@ == pv[1]);
    assert(remote@ == pv[3]);
    if is_all_zeros(local) {
        return None;
    }
    let mut rev_args: Vec<String> = Vec::new();
    if is_all_zeros(remote) {
        rev_args.push(local.to_owned());
        rev_args.push("--not".to_owned());
        rev_args.push("--remotes".to_owned());
        assert(views(rev_args@) =~= seq![local@, "--not"@, "--remotes"@]);
        let what = "new-branch push of ".to_owned().concat(short_sha(local).as_str());
        Some(PushRange { rev_args, what })
    } else {
        rev_args.push(remote.to_owned().concat("..").concat(local));
        assert(views(rev_args@) =~= seq![remote@ + ".."@ + local@]);
        let what = "push ".to_owned().concat(short_sha(remote).as_str()).concat("..").concat(
            short_sha(local).as_str(),
        );
        Some(PushRange { rev_args, what })
    }
}

fn append_all(out: &mut Vec<String>, more: &Vec<String>)
    ensures
        views(final(out)@) == views(old(out)@) + views(more@),
{
    let ghost before = views(out@);
    let mut i: usize = 0;
    assert(views(out@) =~= before + views(more@).take(0));
    while i < more.len()
        invariant
            i <= more@.len(),
            views(out@) == before + views(more@).take(i as int),
        decreases more@.len() - i,
    {
        let ghost cur = views(out@);
        out.push(more[i].clone());
        assert(views(out@) =~= cur.push(more@[i as int]@));
        assert(views(more@).take(i + 1) =~= views(more@).take(i as int).push(more@[i as int]@));
        assert(views(out@) =~= before + views(more@).take(i + 1));
        i = i + 1;
    }
    assert(views(more@).take(i as int) =~= views(more@));
}

/// The arguments of the git that counts commits. With a cap it stops right
/// past it.
pub open spec fn count_args_of(cap: Option<usize>, rev_args: Seq<Seq<char>>) -> Seq<Seq<char>> {
    match cap {
        Some(n) => seq![
            "rev-list"@,
            "--count"@,
            "-n"@,
            decimal(
                (if n == usize::MAX {
                    n as int
                } else {
                    n + 1
                }) as nat,
            ),
        ] + rev_args,
        None => seq!["rev-list"@, "--count"@] + rev_args,
    }
}

pub fn count_args(cap: Option<usize>, rev_args: &Vec<String>) -> (r: Vec<String>)
    ensures
        views(r@) == count_args_of(cap, views(rev_args@)),
{
    let mut out: Vec<String> = Vec::new();
    out.push("rev-list".to_owned());
    out.push("--count".to_owned());
    if let Some(n) = cap {
        let limit: usize = n.saturating_add(1);
        out.push("-n".to_owned());
        out.push(print_u64(limit as u64));
        assert(views(out@) =~= seq!["rev-list"@, "--count"@, "-n"@, decimal(limit as nat)]);
    } else {
        assert(views(out@) =~= seq!["rev-list"@, "--count"@]);
    }
    append_all(&mut out, rev_args);
    out
}

/// The arguments of the git that lists the commits to inspect.
pub open spec fn rev_list_args_of(inspect: int, rev_args: Seq<Seq<char>>) -> Seq<Seq<char>> {
    seq!["rev-list"@, "-n"@, decimal(inspect as nat)] + rev_args
}

pub fn rev_list_args(inspect: usize, rev_args: &Vec<String>) -> (r: Vec<String>)
    ensures
        views(r@) == rev_list_args_of(inspect as int, views(rev_args@)),
{
    let mut out: Vec<String> = Vec::new();
    out.push("rev-list".to_owned());
    out.push("-n".to_owned());
    out.push(print_u64(inspect as u64));
    assert(views(out@) =~= seq!["rev-list"@, "-n"@, decimal(inspect as nat)]);
    append_all(&mut out, rev_args);
    out
}

/// The arguments of the git that lists the paths of the commits it reads. On a
/// merge, `--cc` reports only what the merge itself changed against all of its
/// parents, not what it carries in.
pub fn diff_tree_args() -> (r: Vec<String>)
    ensures
        views(r@) == seq![
            "diff-tree"@,
            "--root"@,
            "-r"@,
            "--no-commit-id"@,
            "--name-status"@,
            "-M"@,
            "--no-ext-diff"@,
            "--diff-filter=ACMRDTU"@,
            "-z"@,
            "--cc"@,
            "--stdin"@,
        ],
{
    let mut out: Vec<String> = Vec::new();
    out.push("diff-tree".to_owned());
    out.push("--root".to_owned());
    out.push("-r".to_owned());
    out.push("--no-commit-id".to_owned());
    out.push("--name-status".to_owned());
    out.push("-M".to_owned());
    out.push("--no-ext-diff".to_owned());
    out.push("--diff-filter=ACMRDTU".to_owned());
    out.push("-z".to_owned());
    out.push("--cc".to_owned());
    out.push("--stdin".to_owned());
    assert(views(out@) =~= seq![
        "diff-tree"@,
        "--root"@,
        "-r"@,
        "--no-commit-id"@,
        "--name-status"@,
        "-M"@,
        "--no-ext-diff"@,
        "--diff-filter=ACMRDTU"@,
        "-z"@,
        "--cc"@,
        "--stdin"@,
    ]);
    out
}

/// What counting the commits of a range gave.
pub enum CountReply {
    /// The time budget ran out first.
    OutOfTime,
    /// git ended.
    Finished { status: ExitInfo, stdout: Vec<u8>, stderr: Vec<u8> },
}

/// The text of the error of `str::parse::<usize>` on a text that it refuses.
pub uninterp spec fn usize_error_text(s: Seq<char>) -> Seq<char>;

/// Calls `str::parse::<usize>` on a text that is no number in range; the
/// error's text is named.
#[verifier::external_body]
fn usize_error(s: &str) -> (r: String)
    requires
        parsed_unsigned(s@, 10, usize::MAX as int) is None,
    ensures
        r@ == usize_error_text(s@),
{
    match s.parse::<usize>() {
        Ok(n) => n.to_string(),
        Err(err) => err.to_string(),
    }
}

/// The number of commits that git printed.
pub open spec fn printed_count(stdout: Seq<u8>) -> Option<int> {
    parsed_unsigned(trimmed(lossy(stdout)), 10, usize::MAX as int)
}

/// What the count leaves unchecked, for the operator.
pub open spec fn count_note(what: Seq<char>, cap: Option<usize>, reply: CountReply) -> Option<
    Seq<char>,
> {
    match reply {
        CountReply::OutOfTime => Some(
            what + ": the scan ran out of its time budget while counting commits (raise "@
                + PUSH_TIMEOUT_ENV@ + ")"@,
        ),
        CountReply::Finished { status, stdout, stderr } => match (printed_count(stdout@), cap) {
            (Some(count), Some(limit)) if status.success && count > limit => Some(
                what + " has more than "@ + decimal(limit as nat)
                    + " commits; only the newest "@ + decimal(limit as nat)
                    + " were inspected (raise "@ + PUSH_MAX_COMMITS_ENV@ + ")"@,
            ),
            _ => None,
        },
    }
}

/// What the count of a range's commits calls for.
pub enum CountVerdict {
    /// End the scan.
    Stop,
    /// Fail with this message.
    Fail(Seq<char>),
    /// Go on with the next ref: there is nothing to inspect.
    NextRef,
    /// Inspect this many of the newest commits.
    Inspect(int),
}

/// Out of time ends the scan; a range that cannot be counted fails it; an
/// empty range is passed over; of any other the newest commits are inspected,
/// up to the cap.
pub open spec fn count_verdict(
    what: Seq<char>,
    cap: Option<usize>,
    reply: CountReply,
) -> CountVerdict {
    match reply {
        CountReply::OutOfTime => CountVerdict::Stop,
        CountReply::Finished { status, stdout, stderr } => if !status.success {
            CountVerdict::Fail(
                "git rev-list failed for "@ + what + " (exit "@ + signed_decimal(
                    status.code_or_minus_one(),
                ) + "): "@ + trimmed(lossy(stderr@)),
            )
        } else {
            match printed_count(stdout@) {
                None => CountVerdict::Fail(
                    "git rev-list --count for "@ + what + " printed no count: "@
                        + usize_error_text(trimmed(lossy(stdout@))),
                ),
                Some(count) => if count == 0 {
                    CountVerdict::NextRef
                } else if cap is Some && count > cap->0 {
                    CountVerdict::Inspect(cap->0 as int)
                } else {
                    CountVerdict::Inspect(count)
                },
            }
        },
    }
}

/// Why a streamed scan stopped.
#[derive(Debug, Clone, Copy, PartialEq, Eq, Structural)]
pub enum ScanStop {
    /// Every listed commit was read.
    Complete,
    /// The record cap was reached; the rest was not read.
    Capped,
    /// The deadline passed; git was killed while it wrote.
    TimedOut,
}

/// What a streamed scan found.
pub struct StreamOutcome {
    pub paths: Vec<String>,
    pub records: usize,
    pub stop: ScanStop,
}

/// What a streamed scan leaves unchecked, for the operator.
pub open spec fn stream_note(what: Seq<char>, records: usize, stop: ScanStop) -> Option<Seq<char>> {
    match stop {
        ScanStop::Complete => None,
        ScanStop::Capped => Some(
            what + ": the path scan stopped after "@ + decimal(records as nat)
                + " path records (raise "@ + PUSH_MAX_PATHS_ENV@ + ")"@,
        ),
        ScanStop::TimedOut => Some(
            what + ": the scan ran out of its time budget after "@ + decimal(records as nat)
                + " path records (raise "@ + PUSH_TIMEOUT_ENV@ + ")"@,
        ),
    }
}

pub open spec fn with_note(notes: Seq<Seq<char>>, note: Option<Seq<char>>) -> Seq<Seq<char>> {
    match note {
        Some(text) => notes.push(text),
        None => notes,
    }
}

/// The contents of the ranges.
pub open spec fn range_views(ranges: Seq<PushRange>) -> Seq<(Seq<Seq<char>>, Seq<char>)> {
    ranges.map_values(|r: PushRange| (views(r.rev_args@), r.what@))
}

/// The ranges of the lines that stand for one, in order.
pub open spec fn ranges_of(lines: Seq<Seq<char>>) -> Seq<(Seq<Seq<char>>, Seq<char>)>
    decreases lines.len(),
{
    if lines.len() == 0 {
        Seq::empty()
    } else {
        let before = ranges_of(lines.drop_last());
        match range_of(lines.last()) {
            Some(range) => before.push(range),
            None => before,
        }
    }
}

/// What the scan wants done next.
pub enum ScanAction {
    /// Run git with these arguments, within the deadline, to count commits.
    Count { args: Vec<String> },
    /// Run git with these arguments, its output fed to the git of
    /// [`diff_tree_args`].
    Stream { args: Vec<String> },
    /// Take the result by [`PushScanner::finish`].
    Finish,
    /// The scan failed.
    Fail(GuardError),
}

/// A scan in progress: the ranges, which one it is at, the paths as they came,
/// and what was not inspected.
pub struct PushScanner {
    pub ranges: Vec<PushRange>,
    pub limits: PushScanLimits,
    pub at: usize,
    pub stopped: bool,
    pub paths: Vec<String>,
    pub unchecked: Vec<String>,
}

/// Where a scan stands: the range that it is at, whether it has ended early,
/// and what it has found and left unchecked.
pub struct ScanState {
    pub at: int,
    pub stopped: bool,
    pub paths: Seq<Seq<char>>,
    pub notes: Seq<Seq<char>>,
}

/// Where a scan stands after the count of a range, unless it failed.
pub open spec fn after_count(
    s: ScanState,
    what: Seq<char>,
    cap: Option<usize>,
    reply: CountReply,
) -> ScanState {
    ScanState {
        at: if count_verdict(what, cap, reply) is NextRef {
            s.at + 1
        } else {
            s.at
        },
        stopped: s.stopped || count_verdict(what, cap, reply) is Stop,
        paths: s.paths,
        notes: with_note(s.notes, count_note(what, cap, reply)),
    }
}

/// Where a scan stands after the streamed scan of a range.
pub open spec fn after_stream(
    s: ScanState,
    what: Seq<char>,
    paths: Seq<Seq<char>>,
    records: usize,
    stop: ScanStop,
) -> ScanState {
    ScanState {
        at: s.at + 1,
        stopped: stop == ScanStop::TimedOut,
        paths: s.paths + paths,
        notes: with_note(s.notes, stream_note(what, records, stop)),
    }
}

/// Starts the scan of the push that the hook's input describes.
pub fn scan_push_paths(stdin_lines: &str, limits: &PushScanLimits) -> (r: PushScanner)
    ensures
        range_views(r.ranges@) == ranges_of(lines_of(stdin_lines@)),
        r.limits == *limits,
        r.at == 0,
        !r.stopped,
        r.paths@ == Seq::<String>::empty(),
        r.unchecked@ == Seq::<String>::empty(),
{
    let all = lines(stdin_lines);
    let ghost lv = views(all@);
    let mut ranges: Vec<PushRange> = Vec::new();
    let mut i: usize = 0;
    assert(range_views(ranges@) =~= ranges_of(lv.take(0)));
    while i < all.len()
        invariant
            i <= all@.len(),
            lv == views(all@),
            range_views(ranges@) == ranges_of(lv.take(i as int)),
        decreases all@.len() - i,
    {
        let ghost next = lv.take(i + 1);
        assert(next.drop_last() =~= lv.take(i as int));
        assert(next.last() == all@[i as int]@);
        if let Some(range) = push_range(all[i].as_str()) {
            let ghost before = range_views(ranges@);
            ranges.push(range);
            assert(range_views(ranges@) =~= before.push((views(range.rev_args@), range.what@)));
        }
        i = i + 1;
    }
    assert(lv.take(i as int) =~= lv);
    PushScanner {
        ranges,
        limits: *limits,
        at: 0,
        stopped: false,
        paths: Vec::new(),
        unchecked: Vec::new(),
    }
}

impl PushScanner {
    pub open spec fn state(&self) -> ScanState {
        ScanState {
            at: self.at as int,
            stopped: self.stopped,
            paths: views(self.paths@),
            notes: views(self.unchecked@),
        }
    }

    /// There is a range left that is being scanned.
    pub open spec fn busy(&self) -> bool {
        !self.stopped && self.at < self.ranges@.len()
    }

    /// The range that is being scanned.
    pub open spec fn current(&self) -> (Seq<Seq<char>>, Seq<char>) {
        range_views(self.ranges@)[self.at as int]
    }

    /// `action` starts the range that the scan is at, or ends the scan.
    pub open spec fn starts(&self, action: ScanAction) -> bool {
        if self.busy() {
            action matches ScanAction::Count { args } && views(args@) == count_args_of(
                self.limits.max_commits,
                self.current().0,
            )
        } else {
            action is Finish
        }
    }

    /// What to do first, or after a range is done.
    pub fn next_action(&self) -> (r: ScanAction)
        ensures
            self.starts(r),
    {
        if self.stopped || self.at >= self.ranges.len() {
            ScanAction::Finish
        } else {
            ScanAction::Count {
                args: count_args(self.limits.max_commits, &self.ranges[self.at].rev_args),
            }
        }
    }

    fn note(&mut self, text: String)
        ensures
            final(self).ranges == old(self).ranges,
            final(self).limits == old(self).limits,
            final(self).at == old(self).at,
            final(self).stopped == old(self).stopped,
            final(self).paths == old(self).paths,
            views(final(self).unchecked@) == views(old(self).unchecked@).push(text@),
    {
        let ghost before = views(self.unchecked@);
        self.unchecked.push(text);
        assert(views(self.unchecked@) =~= before.push(text@));
    }

    /// Takes the count of the current range's commits. A range that cannot be
    /// counted fails the scan; more commits than the cap are noted.
    pub fn on_count(&mut self, reply: &CountReply) -> (r: ScanAction)
        requires
            old(self).busy(),
        ensures
            final(self).ranges == old(self).ranges,
            final(self).limits == old(self).limits,
            final(self).state() == after_count(
                old(self).state(),
                old(self).current().1,
                old(self).limits.max_commits,
                *reply,
            ),
            match count_verdict(old(self).current().1, old(self).limits.max_commits, *reply) {
                CountVerdict::Stop => r is Finish,
                CountVerdict::Fail(text) => r matches ScanAction::Fail(e) && (e matches
                    GuardError::Io { message } && message@ == text),
                CountVerdict::NextRef => final(self).starts(r),
                CountVerdict::Inspect(n) => r matches ScanAction::Stream { args } && views(args@)
                    == rev_list_args_of(n, old(self).current().0),
            },
    {
        let what = self.ranges[self.at].what.clone();
        let what = what.as_str();
        match reply {
            CountReply::OutOfTime => {
                self.note(
                    what.to_owned().concat(
                        ": the scan ran out of its time budget while counting commits (raise ",
                    ).concat(PUSH_TIMEOUT_ENV).concat(")"),
                );
                self.stopped = true;
                ScanAction::Finish
            },
            CountReply::Finished { status, stdout, stderr } => {
                if !status.success {
                    return ScanAction::Fail(
                        GuardError::Io {
                            message: "git rev-list failed for ".to_owned().concat(what).concat(
                                " (exit ",
                            ).concat(print_i64(status.exit_code()).as_str()).concat("): ").concat(
                                trim(from_utf8_lossy(stderr.as_slice()).as_str()).as_str(),
                            ),
                        },
                    );
                }
                let text = trim(from_utf8_lossy(stdout.as_slice()).as_str());
                let count: usize = match parse_usize(text.as_str()) {
                    Some(n) => n,
                    None => {
                        return ScanAction::Fail(
                            GuardError::Io {
                                message: "git rev-list --count for ".to_owned().concat(
                                    what,
                                ).concat(" printed no count: ").concat(
                                    usize_error(text.as_str()).as_str(),
                                ),
                            },
                        );
                    },
                };
                if count == 0 {
                    let total: usize = self.ranges.len();
                    assert(self.at < total);
                    self.at = self.at + 1;
                    return self.next_action();
                }
                let mut inspect: usize = count;
                if let Some(limit) = self.limits.max_commits {
                    if count > limit {
                        self.note(
                            what.to_owned().concat(" has more than ").concat(
                                print_u64(limit as u64).as_str(),
                            ).concat(" commits; only the newest ").concat(
                                print_u64(limit as u64).as_str(),
                            ).concat(" were inspected (raise ").concat(
                                PUSH_MAX_COMMITS_ENV,
                            ).concat(")"),
                        );
                        inspect = limit;
                    }
                }
                ScanAction::Stream { args: rev_list_args(inspect, &self.ranges[self.at].rev_args) }
            },
        }
    }

    /// Takes what the streamed scan of the current range found.
    pub fn on_stream(&mut self, outcome: &StreamOutcome) -> (r: ScanAction)
        requires
            old(self).busy(),
        ensures
            final(self).ranges == old(self).ranges,
            final(self).limits == old(self).limits,
            final(self).state() == after_stream(
                old(self).state(),
                old(self).current().1,
                views(outcome.paths@),
                outcome.records,
                outcome.stop,
            ),
            final(self).starts(r),
    {
        let what = self.ranges[self.at].what.clone();
        let total: usize = self.ranges.len();
        assert(self.at < total);
        append_all(&mut self.paths, &outcome.paths);
        match outcome.stop {
            ScanStop::Complete => {},
            ScanStop::Capped => {
                self.note(
                    what.concat(": the path scan stopped after ").concat(
                        print_u64(outcome.records as u64).as_str(),
                    ).concat(" path records (raise ").concat(PUSH_MAX_PATHS_ENV).concat(")"),
                );
            },
            ScanStop::TimedOut => {
                self.note(
                    what.concat(": the scan ran out of its time budget after ").concat(
                        print_u64(outcome.records as u64).as_str(),
                    ).concat(" path records (raise ").concat(PUSH_TIMEOUT_ENV).concat(")"),
                );
                self.stopped = true;
            },
        }
        self.at = self.at + 1;
        self.next_action()
    }

    /// The result of the scan: the paths sorted and without duplicates.
    pub fn finish(self) -> (r: PushScan)
        ensures
            is_sorted_set(views(r.paths@), views(self.paths@)),
            r.unchecked == self.unchecked,
    {
        PushScan { paths: sorted_set(&self.paths), unchecked: self.unchecked }
    }
}

/// Whatever a scan does not inspect is noted: a scan that ends at a count has
/// a note, a range whose count leaves no note is inspected in full, and a
/// stream without a note read everything.
pub proof fn law_what_is_skipped_is_noted(
    what: Seq<char>,
    cap: Option<usize>,
    reply: CountReply,
    records: usize,
    stop: ScanStop,
)
    ensures
        match count_verdict(what, cap, reply) {
            CountVerdict::Stop => count_note(what, cap, reply) is Some,
            CountVerdict::Fail(_) => true,
            CountVerdict::NextRef => reply matches CountReply::Finished { stdout, .. }
                && printed_count(stdout@) == Some(0int),
            CountVerdict::Inspect(n) => reply matches CountReply::Finished { stdout, .. } && (
            count_note(what, cap, reply) is None <==> printed_count(stdout@) == Some(n)),
        },
        stream_note(what, records, stop) is None <==> stop == ScanStop::Complete,
{
}

/// What the count and the streamed scan of a range gave.
pub struct RangeRecord {
    pub reply: CountReply,
    pub paths: Seq<Seq<char>>,
    pub records: usize,
    pub stop: ScanStop,
}

/// Where a scan stands after a range, whose commits are streamed where there
/// are any to inspect.
pub open spec fn after_range(
    s: ScanState,
    what: Seq<char>,
    cap: Option<usize>,
    record: RangeRecord,
) -> ScanState {
    let counted = after_count(s, what, cap, record.reply);
    if count_verdict(what, cap, record.reply) is Inspect {
        after_stream(counted, what, record.paths, record.records, record.stop)
    } else {
        counted
    }
}

/// Where a scan of these ranges stands after these records.
pub open spec fn scanned(
    ranges: Seq<(Seq<Seq<char>>, Seq<char>)>,
    cap: Option<usize>,
    records: Seq<RangeRecord>,
) -> ScanState
    decreases records.len(),
{
    if records.len() == 0 {
        ScanState { at: 0, stopped: false, paths: Seq::empty(), notes: Seq::empty() }
    } else {
        let s = scanned(ranges, cap, records.drop_last());
        if s.stopped || s.at >= ranges.len() {
            s
        } else {
            after_range(s, ranges[s.at].1, cap, records.last())
        }
    }
}

/// No count failed the scan.
pub open spec fn none_failed(records: Seq<RangeRecord>) -> bool {
    forall|i: int|
        0 <= i < records.len() ==> ((#[trigger] records[i]).reply matches CountReply::Finished {
            status,
            stdout,
            ..
        } ==> status.success && printed_count(stdout@) is Some)
}

/// Every commit of the range was read: there was none, or as many as there
/// were are listed, and the paths of all of them came through.
pub open spec fn read_in_full(cap: Option<usize>, record: RangeRecord) -> bool {
    record.reply matches CountReply::Finished { status, stdout, .. } && status.success && match (
        printed_count(stdout@)
    ) {
        None => false,
        Some(count) => count == 0 || ((cap matches Some(limit) ==> count <= limit) && record.stop
            == ScanStop::Complete),
    }
}

/// The paths of all the ranges, in order.
pub open spec fn all_paths(records: Seq<RangeRecord>) -> Seq<Seq<char>>
    decreases records.len(),
{
    if records.len() == 0 {
        Seq::empty()
    } else {
        let record = records.last();
        let before = all_paths(records.drop_last());
        if record.reply matches CountReply::Finished { stdout, .. } && printed_count(stdout@)
            == Some(0int) {
            before
        } else {
            before + record.paths
        }
    }
}

proof fn lemma_scan_without_notes(
    ranges: Seq<(Seq<Seq<char>>, Seq<char>)>,
    cap: Option<usize>,
    records: Seq<RangeRecord>,
)
    requires
        none_failed(records),
        records.len() <= ranges.len(),
        scanned(ranges, cap, records).notes.len() == 0,
    ensures
        !scanned(ranges, cap, records).stopped,
        scanned(ranges, cap, records).at == records.len(),
        scanned(ranges, cap, records).paths == all_paths(records),
        forall|i: int| 0 <= i < records.len() ==> read_in_full(cap, #[trigger] records[i]),
    decreases records.len(),
{
    if records.len() > 0 {
        let before = records.drop_last();
        assert forall|i: int| 0 <= i < before.len() implies ((
        #[trigger] before[i]).reply matches CountReply::Finished { status, stdout, .. }
            ==> status.success && printed_count(stdout@) is Some) by {
            assert(before[i] == records[i]);
        }
        lemma_scan_without_notes(ranges, cap, before);
        assert(records[records.len() - 1] == records.last());
        assert forall|i: int| 0 <= i < records.len() implies read_in_full(
            cap,
            #[trigger] records[i],
        ) by {
            if i < before.len() {
                assert(before[i] == records[i]);
            }
        }
    }
}

/// A scan that ends without a note has read every commit of every range, and
/// its paths are all of theirs: a part of a push is never taken for the push.
pub proof fn law_complete_scan_covers_the_push(
    ranges: Seq<(Seq<Seq<char>>, Seq<char>)>,
    cap: Option<usize>,
    records: Seq<RangeRecord>,
)
    requires
        none_failed(records),
        records.len() <= ranges.len(),
        scanned(ranges, cap, records).stopped || scanned(ranges, cap, records).at >= ranges.len(),
        scanned(ranges, cap, records).notes.len() == 0,
    ensures
        records.len() == ranges.len(),
        forall|i: int| 0 <= i < records.len() ==> read_in_full(cap, #[trigger] records[i]),
        scanned(ranges, cap, records).paths == all_paths(records),
{
    lemma_scan_without_notes(ranges, cap, records);
}

/// A scan that once left something unchecked stays incomplete: notes are only
/// ever added.
pub proof fn law_notes_are_kept(notes: Seq<Seq<char>>, note: Option<Seq<char>>)
    ensures
        notes.is_prefix_of(with_note(notes, note)),
        notes.len() > 0 || note is Some ==> with_note(notes, note).len() > 0,
{
}

/// What a run of the rev-list and diff-tree pair gave.
pub struct PipelineRun {
    pub parser: NameStatusStream,
    pub rev_list_stderr: String,
    pub diff_tree_stderr: String,
    pub timed_out: bool,
}

/// What to do after a run of the pair.
pub enum PipelineStep {
    Done(StreamOutcome),
    /// Wait, by the jittered delay of this base, and run it again.
    RetryAfter { base_ms: u64 },
    Fail(GuardError),
}

/// The scan of a range for which no time is left.
pub fn out_of_time() -> (r: StreamOutcome)
    ensures
        r.paths@ == Seq::<String>::empty(),
        r.records == 0,
        r.stop == ScanStop::TimedOut,
{
    StreamOutcome { paths: Vec::new(), records: 0, stop: ScanStop::TimedOut }
}

/// How a run ends the scan: at the cap, or in full where both processes
/// succeeded, or at the deadline.
pub open spec fn scan_end(run: PipelineRun, rev_list: ExitInfo, diff_tree: ExitInfo) -> Option<
    ScanStop,
> {
    if run.parser.capped {
        Some(ScanStop::Capped)
    } else if rev_list.success && diff_tree.success {
        Some(ScanStop::Complete)
    } else if run.timed_out {
        Some(ScanStop::TimedOut)
    } else {
        None
    }
}

/// Decides after a run, counted from zero, of the pair. A process that crashed
/// has the pair run again while attempts are left; any other failure of either
/// process fails the scan, that of the list first.
pub fn stream_push_commit_paths(
    attempt: usize,
    run: PipelineRun,
    rev_list: ExitInfo,
    diff_tree: ExitInfo,
) -> (r: PipelineStep)
    ensures
        match scan_end(run, rev_list, diff_tree) {
            Some(stop) => r matches PipelineStep::Done(outcome) && outcome.paths
                == run.parser.paths && outcome.records == run.parser.records && outcome.stop
                == stop,
            None => match next_after(
                attempt as int,
                rev_list.is_segfault() || diff_tree.is_segfault(),
            ) {
                AfterAttempt::RetryAfter { base_ms } => r matches PipelineStep::RetryAfter {
                    base_ms: b,
                } && b == base_ms,
                AfterAttempt::Accept => r matches PipelineStep::Fail(e) && (e matches
                    GuardError::Io { message } && message@ == (if !rev_list.success {
                    "git rev-list failed (exit "@ + signed_decimal(rev_list.code_or_minus_one())
                        + "): "@ + trimmed(run.rev_list_stderr@)
                } else {
                    "git diff-tree failed (exit "@ + signed_decimal(diff_tree.code_or_minus_one())
                        + "): "@ + trimmed(run.diff_tree_stderr@)
                })),
            },
        },
{
    if run.parser.capped {
        return PipelineStep::Done(
            StreamOutcome {
                paths: run.parser.paths,
                records: run.parser.records,
                stop: ScanStop::Capped,
            },
        );
    }
    if rev_list.success && diff_tree.success {
        return PipelineStep::Done(
            StreamOutcome {
                paths: run.parser.paths,
                records: run.parser.records,
                stop: ScanStop::Complete,
            },
        );
    }
    if run.timed_out {
        return PipelineStep::Done(
            StreamOutcome {
                paths: run.parser.paths,
                records: run.parser.records,
                stop: ScanStop::TimedOut,
            },
        );
    }
    let first = guard_run_git_with_retry(attempt, rev_list);
    let second = guard_run_git_with_retry(attempt, diff_tree);
    match first {
        AfterAttempt::RetryAfter { base_ms } => {
            return PipelineStep::RetryAfter { base_ms };
        },
        AfterAttempt::Accept => {},
    }
    match second {
        AfterAttempt::RetryAfter { base_ms } => {
            return PipelineStep::RetryAfter { base_ms };
        },
        AfterAttempt::Accept => {},
    }
    if !rev_list.success {
        return PipelineStep::Fail(
            GuardError::Io {
                message: "git rev-list failed (exit ".to_owned().concat(
                    print_i64(rev_list.exit_code()).as_str(),
                ).concat("): ").concat(trim(run.rev_list_stderr.as_str()).as_str()),
            },
        );
    }
    PipelineStep::Fail(
        GuardError::Io {
            message: "git diff-tree failed (exit ".to_owned().concat(
                print_i64(diff_tree.exit_code()).as_str(),
            ).concat("): ").concat(trim(run.diff_tree_stderr.as_str()).as_str()),
        },
    )
}

/// A word of a line: not empty, and without white space.
pub open spec fn is_word(w: Seq<char>) -> bool {
    w.len() > 0 && forall|i: int| 0 <= i < w.len() ==> !crate::text::is_space(#[trigger] w[i])
}

/// A line of four words with single spaces between them.
pub open spec fn ref_line(
    local_ref: Seq<char>,
    local: Seq<char>,
    remote_ref: Seq<char>,
    remote: Seq<char>,
) -> Seq<char> {
    local_ref.push(' ') + local.push(' ') + remote_ref.push(' ') + remote
}

proof fn lemma_words_of_ref_line(
    local_ref: Seq<char>,
    local: Seq<char>,
    remote_ref: Seq<char>,
    remote: Seq<char>,
)
    requires
        is_word(local_ref),
        is_word(local),
        is_word(remote_ref),
        is_word(remote),
    ensures
        words(ref_line(local_ref, local, remote_ref, remote)) == seq![
            local_ref,
            local,
            remote_ref,
            remote,
        ],
{
    crate::text::law_words_are_taken_one_by_one(Seq::empty(), ' ', local_ref);
    crate::text::law_words_are_taken_one_by_one(local_ref, ' ', local);
    let two = local_ref.push(' ') + local;
    crate::text::law_words_are_taken_one_by_one(two, ' ', remote_ref);
    let three = two.push(' ') + remote_ref;
    crate::text::law_words_are_taken_one_by_one(three, ' ', remote);
    assert(ref_line(local_ref, local, remote_ref, remote) =~= three.push(' ') + remote);
    assert(words(three.push(' ') + remote) =~= seq![local_ref, local, remote_ref, remote]);
}

/// A push asks git for what it adds. Of an ordinary push that is everything
/// the local id reaches and the remote id does not, of a new branch everything
/// the local id reaches and no remote has, and a deletion asks for nothing. An
/// id of zeros stands for none.
pub proof fn law_a_push_asks_for_what_it_adds(
    local_ref: Seq<char>,
    local: Seq<char>,
    remote_ref: Seq<char>,
    remote: Seq<char>,
    line: &str,
    r: Option<PushRange>,
)
    requires
        is_word(local_ref),
        is_word(local),
        is_word(remote_ref),
        is_word(remote),
        line@ == ref_line(local_ref, local, remote_ref, remote),
        call_ensures(push_range, (line,), r),
    ensures
        r is None <==> (forall|i: int| 0 <= i < local.len() ==> #[trigger] local[i] == '0'),
        r is Some && (exists|i: int|
            0 <= i < remote.len() && #[trigger] remote[i] != '0') ==> views(r->0.rev_args@)
            == seq![remote + seq!['.', '.'] + local],
        r is Some && (forall|i: int|
            0 <= i < remote.len() ==> #[trigger] remote[i] == '0') ==> views(r->0.rev_args@)
            == seq![local, "--not"@, "--remotes"@],
{
    reveal_strlit("..");
    assert(".."@ =~= seq!['.', '.']);
    lemma_words_of_ref_line(local_ref, local, remote_ref, remote);
}

/// A bound is the positive number that its variable holds; zero or less
/// removes it, and without a variable, or with a blank one, the default holds.
pub proof fn law_a_bound_is_the_number_given(
    raw: Option<&str>,
    default: usize,
    n: nat,
    r: Option<usize>,
)
    requires
        call_ensures(parse_push_bound, (raw, default), r),
        n <= usize::MAX,
        n <= i64::MAX,
    ensures
        raw is None ==> r == Some(default),
        raw is Some && (forall|i: int|
            0 <= i < raw->0@.len() ==> crate::text::is_space(#[trigger] raw->0@[i])) ==> r == Some(
            default,
        ),
        raw is Some && raw->0@ == decimal(n) && n > 0 ==> r == Some(n as usize),
        raw is Some && raw->0@ == decimal(0) ==> r is None,
        raw is Some && raw->0@ == seq!['-'] + decimal(n) ==> r is None,
{
    let empty = Seq::<char>::empty();
    if raw is Some {
        let t = raw->0@;
        if forall|i: int| 0 <= i < t.len() ==> crate::text::is_space(#[trigger] t[i]) {
            crate::text::law_trimming(t, empty, empty);
            assert(t + empty + empty =~= t);
        }
    }
    crate::numbers::law_numbers_are_read_as_they_are_printed(n, i64::MAX as int);
    crate::numbers::law_numbers_are_read_as_they_are_printed(0, i64::MAX as int);
    lemma_printed_is_trimmed(n);
    lemma_printed_is_trimmed(0);
    crate::text::law_trimming(empty, decimal(n), empty);
    crate::text::law_trimming(empty, decimal(0), empty);
    crate::text::law_trimming(empty, seq!['-'] + decimal(n), empty);
    assert(empty + decimal(n) + empty =~= decimal(n));
    assert(empty + decimal(0) + empty =~= decimal(0));
    assert(empty + (seq!['-'] + decimal(n)) + empty =~= seq!['-'] + decimal(n));
}

proof fn lemma_printed_is_trimmed(n: nat)
    ensures
        decimal(n).len() > 0,
        !crate::text::is_space(decimal(n)[0]),
        !crate::text::is_space(decimal(n)[decimal(n).len() - 1]),
        !crate::text::is_space((seq!['-'] + decimal(n))[0]),
        !crate::text::is_space((seq!['-'] + decimal(n))[decimal(n).len() as int]),
{
    crate::numbers::lemma_decimal_parses(n, n as int);
    let d = decimal(n);
    assert(crate::numbers::digit_value(d[0], 10) >= 0);
    assert(crate::numbers::digit_value(d[d.len() - 1], 10) >= 0);
    assert((seq!['-'] + d)[d.len() as int] == d[d.len() - 1]);
}

/// Each variable sets its own bound, by the rule of a bound and with the
/// default of that bound: two thousand commits, a hundred thousand paths and
/// two minutes.
pub proof fn law_each_variable_sets_its_own_bound(
    commits: Option<&str>,
    paths: Option<&str>,
    timeout: Option<&str>,
    limits: PushScanLimits,
    c: Option<usize>,
    p: Option<usize>,
    t: Option<usize>,
)
    requires
        call_ensures(PushScanLimits::from_values, (commits, paths, timeout), limits),
        call_ensures(parse_push_bound, (commits, 2000), c),
        call_ensures(parse_push_bound, (paths, 100_000), p),
        call_ensures(parse_push_bound, (timeout, 120), t),
    ensures
        limits.max_commits == c,
        limits.max_paths == p,
        limits.timeout is Some <==> t is Some,
        t is Some ==> limits.timeout->0 as int == t->0 as int,
        commits is None && paths is None && timeout is None ==> limits == (PushScanLimits {
            max_commits: Some(2000),
            max_paths: Some(100_000),
            timeout: Some(120),
        }),
{
}

/// A scan that left something unchecked gives no paths, and one that did not
/// gives all of its own.
pub proof fn law_a_part_is_never_taken_for_the_push(scan: PushScan, r: GuardResult<Vec<String>>)
    requires
        call_ensures(get_push_paths, (scan,), r),
    ensures
        scan.unchecked@.len() > 0 ==> (r matches Err(e) && e is PushScanTruncated),
        scan.unchecked@.len() == 0 ==> (r matches Ok(paths) && paths@ == scan.paths@),
{
}

/// What a failed git printed is never taken for the paths of a commit.
pub proof fn law_a_failed_git_names_no_paths(
    status: ExitInfo,
    stdout: &[u8],
    stderr: &[u8],
    r: GuardResult<Vec<String>>,
    parsed: Result<Vec<String>, GuardError>,
)
    requires
        call_ensures(get_staged_paths, (status, stdout, stderr), r),
        call_ensures(parse_name_status_z, (stdout,), parsed),
    ensures
        !status.success ==> r is Err,
        status.success ==> r is Ok && parsed is Ok && views(r->Ok_0@) == views(parsed->Ok_0@),
{
}

/// git counts the commits of the range that it is given, and stops right past
/// the bound, so that one commit too many is seen.
pub proof fn law_counting_stops_right_past_the_bound(
    cap: Option<usize>,
    rev_args: &Vec<String>,
    r: Vec<String>,
)
    requires
        call_ensures(count_args, (cap, rev_args), r),
    ensures
        views(rev_args@).is_suffix_of(views(r@)),
        views(r@)[0] == "rev-list"@ && views(r@)[1] == "--count"@,
        cap is None ==> r@.len() == rev_args@.len() + 2,
        cap is Some ==> r@.len() == rev_args@.len() + 4 && views(r@)[2] == "-n"@,
        cap is Some && cap->0 < usize::MAX ==> views(r@)[3] == decimal((cap->0 + 1) as nat),
{
    let all = views(r@);
    let tail = views(rev_args@);
    assert(all.len() == r@.len() && tail.len() == rev_args@.len());
    assert(all.skip(all.len() - tail.len()) =~= tail);
}

/// git lists exactly as many commits of the range as are to be inspected.
pub proof fn law_as_many_commits_are_listed_as_inspected(
    inspect: usize,
    rev_args: &Vec<String>,
    r: Vec<String>,
)
    requires
        call_ensures(rev_list_args, (inspect, rev_args), r),
    ensures
        views(r@) == seq!["rev-list"@, "-n"@, decimal(inspect as nat)] + views(rev_args@),
{
}

/// The short form of a plain id is its first twelve characters.
pub proof fn law_short_ids_hold_twelve_characters(sha: Seq<char>)
    requires
        forall|i: int| 0 <= i < sha.len() ==> (#[trigger] sha[i]) as u32 <= 0x7F,
    ensures
        short_of(sha) == (if sha.len() > 12 {
            sha.take(12)
        } else {
            sha
        }),
{
    lemma_plain_chars_in(sha, 12);
    assert(sha.len() == 12 ==> sha.take(12) =~= sha);
}

proof fn lemma_plain_chars_in(s: Seq<char>, n: int)
    requires
        n >= 0,
        forall|i: int| 0 <= i < s.len() ==> (#[trigger] s[i]) as u32 <= 0x7F,
    ensures
        chars_in(s, n) == (if n <= s.len() {
            Some(n)
        } else {
            None
        }),
    decreases n,
{
    if n > 0 && s.len() > 0 {
        let rest = s.skip(1);
        assert(s[0] as u32 <= 0x7F);
        assert forall|i: int| 0 <= i < rest.len() implies (#[trigger] rest[i]) as u32 <= 0x7F by {
            assert(rest[i] == s[i + 1]);
        }
        lemma_plain_chars_in(rest, n - 1);
    }
}

/// How the count of a range is taken: where the time ran out the scan ends
/// with a note, a git that failed or printed no number fails it, no commits
/// lead on, and of any others as many are inspected as there are, or the bound
/// where that is less, with a note exactly there.
pub proof fn law_counts_are_taken_at_their_word(
    what: Seq<char>,
    cap: Option<usize>,
    reply: CountReply,
    count: nat,
)
    ensures
        reply is OutOfTime ==> count_verdict(what, cap, reply) is Stop && count_note(
            what,
            cap,
            reply,
        ) is Some,
        reply matches CountReply::Finished { status, stdout, stderr } ==> {
            &&& !status.success ==> count_verdict(what, cap, reply) is Fail
            &&& status.success && parsed_unsigned(trimmed(lossy(stdout@)), 10, usize::MAX as int)
                is None ==> count_verdict(what, cap, reply) is Fail
            &&& status.success && count <= usize::MAX && trimmed(lossy(stdout@)) == decimal(count)
                ==> {
                &&& count == 0 ==> count_verdict(what, cap, reply) is NextRef && count_note(
                    what,
                    cap,
                    reply,
                ) is None
                &&& count > 0 && (cap is None || count <= cap->0) ==> count_verdict(
                    what,
                    cap,
                    reply,
                ) == CountVerdict::Inspect(count as int) && count_note(what, cap, reply) is None
                &&& cap is Some && count > cap->0 ==> count_verdict(what, cap, reply)
                    == CountVerdict::Inspect(cap->0 as int) && count_note(what, cap, reply) is Some
            }
        },
{
    crate::numbers::law_numbers_are_read_as_they_are_printed(count, usize::MAX as int);
}

/// How a scan goes on: a range is left behind only where it holds no commit or
/// was streamed, a scan ends early exactly where the time ran out, and the
/// paths of every stream are kept behind those before.
pub proof fn law_a_scan_goes_from_range_to_range(
    s: ScanState,
    what: Seq<char>,
    cap: Option<usize>,
    reply: CountReply,
    paths: Seq<Seq<char>>,
    records: usize,
    stop: ScanStop,
)
    ensures
        after_count(s, what, cap, reply).paths == s.paths,
        after_count(s, what, cap, reply).at == s.at || (after_count(s, what, cap, reply).at == s.at
            + 1 && (reply matches CountReply::Finished { status, stdout, .. } && status.success
            && parsed_unsigned(trimmed(lossy(stdout@)), 10, usize::MAX as int) == Some(0int))),
        !s.stopped ==> (after_count(s, what, cap, reply).stopped <==> reply is OutOfTime),
        s.notes.is_prefix_of(after_count(s, what, cap, reply).notes),
        after_stream(s, what, paths, records, stop).at == s.at + 1,
        after_stream(s, what, paths, records, stop).paths == s.paths + paths,
        after_stream(s, what, paths, records, stop).stopped <==> stop == ScanStop::TimedOut,
        s.notes.is_prefix_of(after_stream(s, what, paths, records, stop).notes),
        after_stream(s, what, paths, records, stop).notes.len() == s.notes.len() <==> stop
            == ScanStop::Complete,
{
}

/// The next range is counted, with the bound of the scan; where none is left,
/// or the time ran out, the scan ends.
pub proof fn law_every_range_is_counted(scanner: PushScanner, action: ScanAction)
    requires
        call_ensures(PushScanner::next_action, (&scanner,), action),
    ensures
        scanner.stopped || scanner.at >= scanner.ranges@.len() ==> action is Finish,
        !scanner.stopped && scanner.at < scanner.ranges@.len() ==> (action matches
            ScanAction::Count { args } && call_counts(
            args,
            scanner.limits.max_commits,
            scanner.ranges@[scanner.at as int],
        )),
{
}

/// These are the arguments that count a range within a bound.
pub open spec fn call_counts(args: Vec<String>, cap: Option<usize>, range: PushRange) -> bool {
    views(args@) == (match cap {
        Some(n) => seq![
            "rev-list"@,
            "--count"@,
            "-n"@,
            decimal(
                (if n < usize::MAX {
                    n + 1
                } else {
                    n as int
                }) as nat,
            ),
        ],
        None => seq!["rev-list"@, "--count"@],
    }) + views(range.rev_args@)
}

/// Every line of the hook's input that stands for a range is scanned, in
/// order, with the bounds that were given, and nothing is found before: one
/// more line adds the range that it stands for, if any, behind those of the
/// lines before.
pub proof fn law_every_line_is_scanned(
    head: &str,
    line: &str,
    all: &str,
    limits: &PushScanLimits,
    range: Option<PushRange>,
    of_head: PushScanner,
    of_all: PushScanner,
)
    requires
        head@.len() > 0 ==> head@[head@.len() - 1] == '\n',
        line@.len() > 0,
        !line@.contains('\n'),
        line@[line@.len() - 1] != '\r',
        all@ == head@ + line@,
        call_ensures(push_range, (line,), range),
        call_ensures(scan_push_paths, (head, limits), of_head),
        call_ensures(scan_push_paths, (all, limits), of_all),
    ensures
        of_all.limits == *limits && of_all.at == 0 && !of_all.stopped && of_all.paths@.len() == 0
            && of_all.unchecked@.len() == 0,
        head@.len() == 0 ==> of_head.ranges@.len() == 0,
        range is None ==> range_views(of_all.ranges@) == range_views(of_head.ranges@),
        range is Some ==> range_views(of_all.ranges@) == range_views(of_head.ranges@).push(
            (views(range->0.rev_args@), range->0.what@),
        ),
{
    let t = line@;
    crate::text::lemma_split_of_field(t, '\n');
    assert(crate::text::split_on(t, '\n') =~= seq![t]);
    if head@.len() == 0 {
        assert(all@ =~= t);
        crate::text::lemma_split_of_field(head@, '\n');
        assert(lines_of(head@) =~= Seq::<Seq<char>>::empty());
        assert(range_views(of_head.ranges@).len() == of_head.ranges@.len());
        assert(lines_of(all@) =~= seq![t]);
    } else {
        let a = head@.drop_last();
        assert(head@ =~= a.push('\n') + Seq::<char>::empty());
        assert(all@ =~= a.push('\n') + t);
        crate::text::lemma_split_on_concat(a, t, '\n');
        crate::text::lemma_split_on_concat(a, Seq::<char>::empty(), '\n');
        crate::text::lemma_split_of_field(Seq::<char>::empty(), '\n');
    }
    assert(lines_of(all@) =~= lines_of(head@).push(t));
    assert(lines_of(all@).drop_last() =~= lines_of(head@));
}

/// A stream counts as complete only where both processes succeeded and the cap
/// was not met; a failure that neither the cap, the deadline nor a crash
/// explains fails the scan; and the paths and records handed on are those that
/// were read.
pub proof fn law_a_stream_is_complete_only_in_full(
    attempt: usize,
    run: PipelineRun,
    rev_list: ExitInfo,
    diff_tree: ExitInfo,
    r: PipelineStep,
)
    requires
        call_ensures(stream_push_commit_paths, (attempt, run, rev_list, diff_tree), r),
    ensures
        r matches PipelineStep::Done(outcome) ==> {
            &&& outcome.paths@ == run.parser.paths@
            &&& outcome.records == run.parser.records
            &&& outcome.stop == ScanStop::Complete <==> rev_list.success && diff_tree.success
                && !run.parser.capped
            &&& outcome.stop == ScanStop::Capped <==> run.parser.capped
            &&& outcome.stop == ScanStop::TimedOut ==> run.timed_out
        },
        !run.parser.capped && !run.timed_out && !(rev_list.success && diff_tree.success) ==> !(
        r is Done),
        r is RetryAfter ==> attempt < 3 && (rev_list.signal == Some(11i32) || rev_list.signal
            == Some(7i32) || rev_list.code == Some(139i32) || rev_list.code == Some(135i32)
            || diff_tree.signal == Some(11i32) || diff_tree.signal == Some(7i32) || diff_tree.code
            == Some(139i32) || diff_tree.code == Some(135i32)),
        r matches PipelineStep::Fail(e) ==> (e matches GuardError::Io { message } && {
            &&& !rev_list.success ==> "git rev-list failed (exit "@.is_prefix_of(message@)
                && trimmed(run.rev_list_stderr@).is_suffix_of(message@)
            &&& rev_list.success ==> "git diff-tree failed (exit "@.is_prefix_of(message@)
                && trimmed(run.diff_tree_stderr@).is_suffix_of(message@)
        }),
{
    if r is Fail {
        let message = r->Fail_0->Io_message@;
        let (start, end) = if !rev_list.success {
            ("git rev-list failed (exit "@, trimmed(run.rev_list_stderr@))
        } else {
            ("git diff-tree failed (exit "@, trimmed(run.diff_tree_stderr@))
        };
        assert(start =~= message.take(start.len() as int));
        assert(end =~= message.subrange(message.len() - end.len(), message.len() as int));
    }
}

/// What is asked of git about each commit: against all parents of a merge, root
/// commits too, with renames, in a form that any path survives.
pub proof fn law_every_change_is_listed(r: Vec<String>)
    requires
        call_ensures(diff_tree_args, (), r),
    ensures
        views(r@).contains("--cc"@),
        views(r@).contains("--root"@),
        views(r@).contains("-r"@),
        views(r@).contains("-M"@),
        views(r@).contains("-z"@),
        views(r@).contains("--stdin"@),
        views(r@).contains("--name-status"@),
        views(r@).contains("--no-commit-id"@),
        views(r@).contains("--diff-filter=ACMRDTU"@),
        views(r@)[0] == "diff-tree"@,
        r@.len() == 11,
{
    let v = views(r@);
    assert(v[1] == "--root"@);
    assert(v[2] == "-r"@);
    assert(v[3] == "--no-commit-id"@);
    assert(v[4] == "--name-status"@);
    assert(v[5] == "-M"@);
    assert(v[7] == "--diff-filter=ACMRDTU"@);
    assert(v[8] == "-z"@);
    assert(v[9] == "--cc"@);
    assert(v[10] == "--stdin"@);
    assert(v.len() == r@.len());
}

/// What a scan found is handed on sorted, each path once, and nothing is lost;
/// so are the notes.
pub proof fn law_the_result_holds_what_was_found(scanner: PushScanner, r: PushScan)
    requires
        call_ensures(PushScanner::finish, (scanner,), r),
    ensures
        forall|p: Seq<char>| #[trigger]
            views(r.paths@).contains(p) <==> views(scanner.paths@).contains(p),
        forall|i: int, j: int|
            0 <= i < j < r.paths@.len() ==> #[trigger] views(r.paths@)[i] != #[trigger] views(
                r.paths@,
            )[j],
        r.unchecked == scanner.unchecked,
{
    let v = views(r.paths@);
    assert forall|i: int, j: int| 0 <= i < j < v.len() implies #[trigger] v[i] != #[trigger] v[j] by {
        assert(crate::order::precedes(v[i], v[j]));
        crate::order::lemma_precedes_irreflexive(v[i]);
    }
}

/// What a scan does with a count: where the time ran out it ends with a note,
/// where git failed it fails, an empty range is passed over, and of any other
/// as many commits are listed as there are, or the bound with a note where
/// there are more. No path is found or lost by it.
pub proof fn law_what_a_count_leads_to(
    scanner: &mut PushScanner,
    reply: CountReply,
    count: nat,
    r: ScanAction,
)
    requires
        !old(scanner).stopped,
        old(scanner).at < old(scanner).ranges@.len(),
        call_ensures(PushScanner::on_count, (scanner, &reply), r),
    ensures
        views(final(scanner).paths@) == views(old(scanner).paths@),
        final(scanner).ranges == old(scanner).ranges && final(scanner).limits == old(scanner).limits,
        reply is OutOfTime ==> r is Finish && final(scanner).stopped && final(scanner).unchecked@.len() == old(scanner).unchecked@.len() + 1,
        reply matches CountReply::Finished { status, stdout, stderr } ==> {
            let cap = old(scanner).limits.max_commits;
            let range = views(old(scanner).ranges@[old(scanner).at as int].rev_args@);
            &&& !status.success ==> r is Fail
            &&& status.success && count <= usize::MAX && trimmed(lossy(stdout@)) == decimal(count)
                ==> {
                &&& !final(scanner).stopped
                &&& count == 0 ==> final(scanner).at == old(scanner).at + 1 && final(scanner).unchecked@.len() == old(scanner).unchecked@.len()
                &&& count > 0 ==> final(scanner).at == old(scanner).at
                &&& count > 0 && (cap is None || count <= cap->0) ==> final(scanner).unchecked@.len() == old(scanner).unchecked@.len() && (r matches
                    ScanAction::Stream { args } && views(args@) == seq![
                    "rev-list"@,
                    "-n"@,
                    decimal(count),
                ] + range)
                &&& cap is Some && count > cap->0 ==> final(scanner).unchecked@.len() == old(scanner).unchecked@.len() + 1 && (r matches ScanAction::Stream { args } && views(args@)
                    == seq!["rev-list"@, "-n"@, decimal(cap->0 as nat)] + range)
            }
        },
{
    crate::numbers::law_numbers_are_read_as_they_are_printed(count, usize::MAX as int);
    let a = old(scanner).unchecked@;
    let b = final(scanner).unchecked@;
    assert(views(a).len() == a.len() && views(b).len() == b.len());
    assert(old(scanner).current().0 == views(old(scanner).ranges@[old(scanner).at as int].rev_args@));
    assert(final(scanner).state().notes == views(b));
    assert(old(scanner).state().notes == views(a));
    assert(final(scanner).state().paths == views(final(scanner).paths@));
    assert(final(scanner).state().at == final(scanner).at);
}

/// What a scan does with the stream of a range: the paths are added behind
/// those before, the next range is up, a stream that was cut off leaves a note,
/// and one that ran out of time ends the scan.
pub proof fn law_what_a_stream_leads_to(
    scanner: &mut PushScanner,
    outcome: StreamOutcome,
    r: ScanAction,
)
    requires
        !old(scanner).stopped,
        old(scanner).at < old(scanner).ranges@.len(),
        call_ensures(PushScanner::on_stream, (scanner, &outcome), r),
    ensures
        views(final(scanner).paths@) == views(old(scanner).paths@) + views(outcome.paths@),
        final(scanner).at == old(scanner).at + 1,
        final(scanner).stopped <==> outcome.stop == ScanStop::TimedOut,
        outcome.stop == ScanStop::Complete ==> final(scanner).unchecked@.len() == old(scanner).unchecked@.len(),
        outcome.stop != ScanStop::Complete ==> final(scanner).unchecked@.len() == old(scanner).unchecked@.len() + 1,
        r is Finish <==> final(scanner).stopped || final(scanner).at >= final(scanner).ranges@.len(),
        r is Finish || r is Count,
{
    let a = old(scanner).unchecked@;
    let b = final(scanner).unchecked@;
    assert(views(a).len() == a.len() && views(b).len() == b.len());
    assert(final(scanner).state().notes == views(b));
    assert(old(scanner).state().notes == views(a));
    assert(final(scanner).state().paths == views(final(scanner).paths@));
    assert(old(scanner).state().paths == views(old(scanner).paths@));
    assert(final(scanner).state().at == final(scanner).at);
    assert(final(scanner).state().stopped == final(scanner).stopped);
}

/// A range for which no time is left is one that ran out of time, without any
/// path.
pub proof fn law_without_time_nothing_is_read(r: StreamOutcome)
    requires
        call_ensures(out_of_time, (), r),
    ensures
        r.paths@.len() == 0 && r.records == 0 && r.stop == ScanStop::TimedOut,
{
}

/// What is said of a push names the short forms of its ids, from the old to
/// the new.
pub proof fn law_a_push_is_told_by_its_ids(
    local_ref: Seq<char>,
    local: &str,
    remote_ref: Seq<char>,
    remote: &str,
    line: &str,
    new: String,
    before: String,
    r: Option<PushRange>,
)
    requires
        is_word(local_ref),
        is_word(local@),
        is_word(remote_ref),
        is_word(remote@),
        line@ == ref_line(local_ref, local@, remote_ref, remote@),
        call_ensures(short_sha, (local,), new),
        call_ensures(short_sha, (remote,), before),
        call_ensures(push_range, (line,), r),
    ensures
        r is Some && (exists|i: int|
            0 <= i < remote@.len() && #[trigger] remote@[i] != '0') ==> r->0.what@ == "push "@
            + before@ + seq!['.', '.'] + new@,
        r is Some && (forall|i: int|
            0 <= i < remote@.len() ==> #[trigger] remote@[i] == '0') ==> r->0.what@
            == "new-branch push of "@ + new@,
{
    reveal_strlit("..");
    assert(".."@ =~= seq!['.', '.']);
    lemma_words_of_ref_line(local_ref, local@, remote_ref, remote@);
}

/// A scan is complete where nothing is left unchecked, and without bounds
/// nothing is left out.
pub proof fn law_a_scan_is_complete_without_notes(scan: PushScan, r: bool, limits: PushScanLimits)
    requires
        call_ensures(PushScan::is_complete, (&scan,), r),
        call_ensures(PushScanLimits::unbounded, (), limits),
    ensures
        r <==> scan.unchecked@.len() == 0,
        limits.max_commits is None && limits.max_paths is None && limits.timeout is None,
{
}

} // verus!
