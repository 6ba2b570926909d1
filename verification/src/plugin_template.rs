//! The text of the guard plugin, with places for the hook and the project.
//!
//! The plugin is a Python script. It reads the active reservations of the
//! archive and refuses a commit or a push that touches what another agent has
//! reserved.

use vstd::prelude::*;

verus! {

/// What the plugin is, before the name of its hook.
pub const PLUGIN_TITLE: &'static str = r##"#!/usr/bin/env python3
# mcp-agent-mail guard plugin"##;

/// The place of the hook's name, as it is.
pub const HOOK_NAME_PLACE: &'static str = "__HOOK_NAME_TEXT__";

/// The place of the project, as it is.
pub const PROJECT_PLACE: &'static str = "__PROJECT_TEXT__";

/// The place of the project as a JSON string.
pub const PROJECT_JSON_PLACE: &'static str = "__PROJECT_JSON__";

/// The place of the hook's name as a JSON string.
pub const HOOK_NAME_JSON_PLACE: &'static str = "__HOOK_NAME_JSON__";

/// What the plugin needs.
pub const PLUGIN_HEADER: &'static str = r##"# Auto-generated by mcp-agent-mail install_guard

import datetime
import hashlib
import json
import os
import re
import subprocess
import sys
"##;

/// How the agent and the mode are given, and how to fail closed.
pub const PLUGIN_FAILURE: &'static str = r##"AGENT_NAME = os.environ.get("AGENT_NAME", "").strip()
GUARD_MODE = os.environ.get("AGENT_MAIL_GUARD_MODE", "block")

def fail_closed(message):
    """Fail-closed exit for guard infrastructure failures (GH#224).

    Every fail-closed path must (a) honor AGENT_MAIL_GUARD_MODE=warn, which
    the guard's own block message advertises, and (b) name the
    AGENT_MAIL_BYPASS escape hatch, so an operator is never stuck behind an
    exit 2 with no advertised way out.
    """
    if GUARD_MODE == "warn":
        print(
            "WARNING: " + message + " (AGENT_MAIL_GUARD_MODE=warn: allowing)",
            file=sys.stderr,
        )
        sys.exit(0)
    print("ERROR: " + message, file=sys.stderr)
    print(
        "Set AGENT_MAIL_GUARD_MODE=warn to continue with a warning, or "
        "AGENT_MAIL_BYPASS=1 to skip this guard entirely.",
        file=sys.stderr,
    )
    sys.exit(2)

"##;

/// Running git, with retries after a crash of git.
pub const PLUGIN_GIT: &'static str = r##"# br-8ujfs.5.5 (E5) — Python-side SIGSEGV retry for git 2.51.0 index race.
# Matches the Rust retry policy (3 retries, 100/400/1600ms jittered).
# Only retries on segfault-shaped exits (139 = 128+11, 135 = 128+7,
# negative -11/-7 on POSIX); all other nonzero returncodes propagate.
import random as _random
import time as _time

def _git_argv(args):
    """Apply the AM_GIT_BINARY override to a git argv list."""
    env_bin = os.environ.get("AM_GIT_BINARY")
    if env_bin and args and args[0] == "git":
        return [env_bin] + list(args[1:])
    return list(args)

def _is_segfault_rc(rc):
    """Segfault-shaped exit: -11 / -7 on POSIX (signal), 139 / 135 via a
    shell wrapper, 0xC0000005 on Windows."""
    return rc in (-11, -7, 139, 135, 0xC0000005)

def _run_git_with_retry(args, **kwargs):
    """subprocess.run wrapper that retries on SIGSEGV (git 2.51.0).

    `args` is the full argv list (typically ["git", ...]).
    Honors `AM_GIT_BINARY` if set, replacing argv[0]=="git".
    kwargs are forwarded to subprocess.run, but note that `check=True`
    is handled by this wrapper — we capture check_requested, force
    check=False internally so the retry loop can inspect returncode
    on segfault-shaped exits, and re-raise CalledProcessError ourselves
    ONLY on the final non-retryable failure. Without this, callers
    that pass check=True would see the first segfault as an exception
    and bypass the retry entirely.
    """
    args = _git_argv(args)

    check_requested = kwargs.pop("check", False)

    delays = (0.1, 0.4, 1.6)
    max_retries = 3
    last_result = None
    for attempt in range(max_retries + 1):
        last_result = subprocess.run(args, check=False, **kwargs)
        rc = last_result.returncode
        if not _is_segfault_rc(rc):
            # Non-segfault outcome (success OR other error).
            # If caller requested check=True and we saw a nonzero
            # non-segfault exit, emulate subprocess.run's behavior
            # by raising CalledProcessError.
            if check_requested and rc != 0:
                raise subprocess.CalledProcessError(
                    rc,
                    args,
                    output=getattr(last_result, "stdout", None),
                    stderr=getattr(last_result, "stderr", None),
                )
            return last_result
        if attempt == max_retries:
            sys.stderr.write(
                "guard: git exited with signal %d %d times (known-bad 2.51.0). "
                "Set AM_GIT_BINARY or upgrade git.\n" % (rc, attempt + 1)
            )
            if check_requested:
                raise subprocess.CalledProcessError(
                    rc,
                    args,
                    output=getattr(last_result, "stdout", None),
                    stderr=getattr(last_result, "stderr", None),
                )
            return last_result
        jitter = _random.uniform(0.75, 1.25)
        sleep_s = delays[attempt] * jitter
        sys.stderr.write(
            "guard: git segfault (rc=%d, attempt %d/%d); retrying in %.2fs\n"
            % (rc, attempt + 1, max_retries + 1, sleep_s)
        )
        _time.sleep(sleep_s)
    return last_result


"##;

/// The staged paths.
pub const PLUGIN_STAGED: &'static str = r##"def get_staged_files():
    """Get list of staged files from git (for pre-commit)."""
    try:
        result = _run_git_with_retry(
            ["git", "diff", "--cached", "--name-status", "-M", "-z", "--diff-filter=ACMRDTU"],
            capture_output=True, check=True,
        )
        data = result.stdout or b""
        if not data:
            return []
        parts = data.split(b"\0")
        files = []
        i = 0
        while i < len(parts):
            if not parts[i]:
                break
            status = parts[i].decode("utf-8", "ignore")
            i += 1
            if status.startswith(("R", "C")):
                # Rename/Copy: next two entries are old and new path.
                if i + 1 >= len(parts):
                    break
                oldp = parts[i].decode("utf-8", "ignore")
                newp = parts[i + 1].decode("utf-8", "ignore")
                i += 2
                if oldp:
                    files.append(oldp)
                if newp:
                    files.append(newp)
            else:
                # Normal entry: next is the path.
                if i >= len(parts):
                    break
                p = parts[i].decode("utf-8", "ignore")
                i += 1
                if p:
                    files.append(p)
        # De-duplicate while preserving order.
        seen = set()
        out = []
        for f in files:
            if f not in seen:
                seen.add(f)
                out.append(f)
        return out
    except subprocess.CalledProcessError as exc:
        fail_closed("mcp-agent-mail: guard failed to inspect staged files: " + str(exc))
    except Exception as exc:
        fail_closed("mcp-agent-mail: guard failed to inspect staged files: " + str(exc))

"##;

/// The bounds of the push scan, and the parser of its stream.
pub const PLUGIN_PUSH_BOUNDS: &'static str = r##"# ---------------------------------------------------------------------------
# Bounded pre-push path scan.
#
# The paths a push touches used to be listed with one `git diff-tree` process
# per pushed commit, and every path was then matched against every reservation
# with a regex rebuilt on each pairing. Both costs grow with the push, so a
# large one (thousands of commits, tens of thousands of paths) sat in the guard
# for minutes and, on a machine short of memory, failed the push outright.
#
# The scan is now ONE `git rev-list | git diff-tree --stdin` pipeline per
# pushed ref, parsed as it streams, and it is bounded three ways:
#
#   AGENT_MAIL_GUARD_PUSH_MAX_COMMITS   commits listed per ref     (default 2000)
#   AGENT_MAIL_GUARD_PUSH_MAX_PATHS     path records read per ref  (default 100000)
#   AGENT_MAIL_GUARD_PUSH_TIMEOUT_SECS  wall clock for the scan    (default 120)
#
# Setting a variable to 0 removes that bound. Reaching a bound TRUNCATES the
# scan: the paths already read are still checked, and if none of them
# conflicts while another agent holds an active lease, the guard exits through
# fail_closed() (GH#224 policy -- an inspection the guard could not finish is
# never reported as "no conflict").
# AGENT_MAIL_GUARD_MODE=warn turns that into a warning, and the message names
# the variable to raise, so nobody has to reach for `git push --no-verify`.
# ---------------------------------------------------------------------------
import threading as _threading

PUSH_MAX_COMMITS_ENV = "AGENT_MAIL_GUARD_PUSH_MAX_COMMITS"
PUSH_MAX_PATHS_ENV = "AGENT_MAIL_GUARD_PUSH_MAX_PATHS"
PUSH_TIMEOUT_ENV = "AGENT_MAIL_GUARD_PUSH_TIMEOUT_SECS"
PUSH_MAX_COMMITS_DEFAULT = 2000
PUSH_MAX_PATHS_DEFAULT = 100000
PUSH_TIMEOUT_SECS_DEFAULT = 120

def push_scan_bound(name, default):
    """Read one integer bound from the environment.

    Unset or blank keeps the default; 0 or a negative value removes the bound
    (None); anything unparseable keeps the default and says so, so a typo can
    never silently unbound the scan.
    """
    raw = os.environ.get(name, "").strip()
    if not raw:
        return default
    try:
        value = int(raw)
    except ValueError:
        print(
            "mcp-agent-mail: %s=%r is not an integer; using %d" % (name, raw, default),
            file=sys.stderr,
        )
        return default
    return value if value > 0 else None

def _seconds_left(deadline):
    if deadline is None:
        return None
    return max(0.0, deadline - _time.monotonic())

class _NameStatusStream:
    """Incremental parser for NUL-delimited `--name-status -z` output.

    Same record grammar as get_staged_files(): STATUS NUL path NUL, or
    Rnnn NUL old NUL new NUL (likewise Cnnn) for renames and copies. Records
    are counted as they start, so the record cap bounds memory as well as
    time no matter how many commits feed the stream.
    """

    def __init__(self, files, max_records):
        self.files = files
        self.max_records = max_records
        self.records = 0
        self.capped = False
        self._tail = b""
        self._paths_left = 0

    def feed(self, chunk):
        """Parse `chunk`; returns False once the record cap has been hit."""
        if self.capped:
            return False
        parts = (self._tail + chunk).split(b"\0")
        self._tail = parts.pop()
        for token in parts:
            if self._paths_left == 0:
                status = token.decode("utf-8", "ignore").strip()
                if not status:
                    continue
                if self.max_records is not None and self.records >= self.max_records:
                    self.capped = True
                    return False
                self.records += 1
                self._paths_left = 2 if status.startswith(("R", "C")) else 1
                continue
            path = token.decode("utf-8", "ignore")
            if path:
                self.files.add(path)
            self._paths_left -= 1
        return True

def _kill_quietly(proc):
    try:
        proc.kill()
    except OSError:
        pass

"##;

/// The streamed scan of pushed commits.
pub const PLUGIN_PUSH_STREAM: &'static str = r##"def _scan_push_commits(rev_list_args, files, max_paths, deadline):
    """Stream `git rev-list ... | git diff-tree --stdin` into `files`.

    Returns (records, capped, timed_out). Both git processes are killed the
    moment the record cap or the deadline is reached. A segfault-shaped exit
    is retried the way _run_git_with_retry() retries; any other failure of
    either process is a fail_closed() exit.
    """
    # `--cc` (not `-m`): on a merge commit `-m` explodes the diff into one
    # section PER PARENT, flagging every file merely carried in from origin
    # as a "pushed change" (false positive, issue #238). `--cc` reports only
    # the files the merge itself changed relative to ALL parents. On a
    # regular (single-parent) commit `--cc` and `-m` produce identical
    # --name-status output (no FN). `--stdin` takes the commit list from
    # rev-list and, with `--no-commit-id -z`, emits one NUL-delimited stream
    # identical to the concatenation of the per-commit outputs.
    diff_tree_args = _git_argv(
        ["git", "diff-tree", "--root", "-r", "--no-commit-id", "--name-status",
         "-M", "--no-ext-diff", "--diff-filter=ACMRDTU", "-z", "--cc", "--stdin"]
    )
    rev_list_args = _git_argv(rev_list_args)
    delays = (0.1, 0.4, 1.6)
    for attempt in range(len(delays) + 1):
        left = _seconds_left(deadline)
        if left is not None and left <= 0:
            return 0, False, True
        scratch = set()
        parser = _NameStatusStream(scratch, max_paths)
        rev_list = subprocess.Popen(
            rev_list_args, stdout=subprocess.PIPE, stderr=subprocess.PIPE
        )
        try:
            diff_tree = subprocess.Popen(
                diff_tree_args, stdin=rev_list.stdout,
                stdout=subprocess.PIPE, stderr=subprocess.PIPE,
            )
        except Exception:
            _kill_quietly(rev_list)
            rev_list.wait()
            raise
        rev_list.stdout.close()  # diff-tree owns the read end now
        expired = _threading.Event()

        def _expire():
            expired.set()
            _kill_quietly(diff_tree)
            _kill_quietly(rev_list)

        timer = None
        if left is not None:
            timer = _threading.Timer(left, _expire)
            timer.daemon = True
            timer.start()
        try:
            while True:
                chunk = diff_tree.stdout.read(65536)
                if not chunk:
                    break
                if not parser.feed(chunk):
                    _kill_quietly(diff_tree)
                    _kill_quietly(rev_list)
                    break
        finally:
            if timer is not None:
                timer.cancel()
        diff_tree.stdout.close()
        diff_tree_err = diff_tree.stderr.read().decode("utf-8", "ignore").strip()
        rev_list_err = rev_list.stderr.read().decode("utf-8", "ignore").strip()
        diff_tree_rc = diff_tree.wait()
        rev_list_rc = rev_list.wait()

        if parser.capped:
            files.update(scratch)
            return parser.records, True, False
        if diff_tree_rc == 0 and rev_list_rc == 0:
            files.update(scratch)
            return parser.records, False, False
        if expired.is_set():
            files.update(scratch)
            return parser.records, False, True
        if (_is_segfault_rc(diff_tree_rc) or _is_segfault_rc(rev_list_rc)) and attempt < len(delays):
            sleep_s = delays[attempt] * _random.uniform(0.75, 1.25)
            sys.stderr.write(
                "guard: git segfault (rc=%d/%d, attempt %d/%d); retrying in %.2fs\n"
                % (rev_list_rc, diff_tree_rc, attempt + 1, len(delays) + 1, sleep_s)
            )
            _time.sleep(sleep_s)
            continue
        if rev_list_rc != 0:
            fail_closed(
                "mcp-agent-mail: guard failed to enumerate pushed commits: "
                + (rev_list_err or "git rev-list exited with status %d" % rev_list_rc)
            )
        fail_closed(
            "mcp-agent-mail: guard failed to inspect pushed commit paths: "
            + (diff_tree_err or "git diff-tree exited with status %d" % diff_tree_rc)
        )
    return 0, False, False  # unreachable: the loop returns or exits

"##;

/// The pushed paths.
pub const PLUGIN_PUSH_FILES: &'static str = r##"def get_push_files():
    """Get (paths, unchecked) for the push (for pre-push).

    `unchecked` describes, for the operator, every part of the push the
    bounded scan did not inspect; empty means the scan was complete.
    """
    files = set()
    unchecked = []
    max_commits = push_scan_bound(PUSH_MAX_COMMITS_ENV, PUSH_MAX_COMMITS_DEFAULT)
    max_paths = push_scan_bound(PUSH_MAX_PATHS_ENV, PUSH_MAX_PATHS_DEFAULT)
    timeout = push_scan_bound(PUSH_TIMEOUT_ENV, PUSH_TIMEOUT_SECS_DEFAULT)
    deadline = None if timeout is None else _time.monotonic() + timeout
    try:
        # Read stdin for ref updates (local_ref local_sha remote_ref remote_sha)
        # sys.stdin.read() works because chain-runner pipes input as text/bytes depending on OS,
        # but in Python 3 sys.stdin is a text wrapper. The chain-runner sends raw bytes,
        # but standard python environment usually handles this.
        # Safe fallback is sys.stdin.read().
        stdin_data = sys.stdin.read()
        if not stdin_data:
            return [], []

        for line in stdin_data.splitlines():
            parts = line.split()
            if len(parts) < 4:
                continue
            local_sha = parts[1]
            remote_sha = parts[3]

            # Skip deletes
            if set(local_sha) == {'0'}:
                continue

            if set(remote_sha) == {'0'}:
                rev_args = [local_sha, "--not", "--remotes"]
                what = "new-branch push of %s" % local_sha[:12]
            else:
                rev_args = ["%s..%s" % (remote_sha, local_sha)]
                what = "push %s..%s" % (remote_sha[:12], local_sha[:12])

            # Bound 1: how many commits, without walking past the cap. `-n`
            # stops the walk itself, so this is cheap on any history size.
            count_args = ["git", "rev-list", "--count"]
            if max_commits is not None:
                count_args += ["-n", str(max_commits + 1)]  # stops the walk right past the cap
            res = _run_git_with_retry(
                count_args + rev_args,
                capture_output=True, text=True, timeout=_seconds_left(deadline),
            )
            if res.returncode != 0:
                detail = (res.stderr or "").strip()
                if not detail:
                    detail = "git rev-list exited with status %d" % res.returncode
                fail_closed(
                    "mcp-agent-mail: guard failed to enumerate pushed commits: " + detail
                )
            count = int((res.stdout or "").strip() or "0")
            if count == 0:
                continue
            inspect = count
            if max_commits is not None and count > max_commits:
                inspect = max_commits
                unchecked.append(
                    "%s has more than %d commits; only the newest %d were inspected "
                    "(raise %s)" % (what, max_commits, max_commits, PUSH_MAX_COMMITS_ENV)
                )

            # Bounds 2 and 3: one streamed pipeline, capped on records read and
            # on the shared deadline.
            records, capped, timed_out = _scan_push_commits(
                ["git", "rev-list", "-n", str(inspect)] + rev_args, files, max_paths, deadline
            )
            if capped:
                unchecked.append(
                    "%s: the path scan stopped after %d path records (raise %s)"
                    % (what, records, PUSH_MAX_PATHS_ENV)
                )
            if timed_out:
                unchecked.append(
                    "%s: the scan ran out of its %ds budget after %d path records (raise %s)"
                    % (what, timeout, records, PUSH_TIMEOUT_ENV)
                )
                break
    except SystemExit:
        raise
    except subprocess.TimeoutExpired:
        unchecked.append(
            "the scan ran out of its %ds budget while counting pushed commits (raise %s)"
            % (timeout, PUSH_TIMEOUT_ENV)
        )
    except Exception as exc:
        fail_closed("mcp-agent-mail: guard failed to inspect push files: " + str(exc))
    return sorted(files), unchecked

"##;

/// Files and directories that are what they seem.
pub const PLUGIN_FILES: &'static str = r##"def is_real_directory(path):
    try:
        return os.path.isdir(path) and not os.path.islink(path)
    except OSError:
        return False

def is_real_file(path):
    try:
        return os.path.isfile(path) and not os.path.islink(path)
    except OSError:
        return False

def slugify(value):
    out = []
    prev_dash = False
    for ch in value.strip().lower():
        # Match Rust's is_ascii_alphanumeric() behavior
        if (ord(ch) >= 97 and ord(ch) <= 122) or (ord(ch) >= 48 and ord(ch) <= 57):
            out.append(ch)
            prev_dash = False
        elif not prev_dash:
            out.append("-")
            prev_dash = True
    slug = "".join(out).strip("-")
    return slug or "project"

def default_storage_root():
    for key in ("STORAGE_ROOT", "AGENT_MAIL_STORAGE_ROOT"):
        value = os.environ.get(key, "").strip()
        if value:
            return os.path.expanduser(value)
    
    # Match Rust core's default_storage_root_path logic.
    # Only honor the legacy path if it actually *contains* an archive —
    # an empty-directory stub at ~/.mcp_agent_mail_git_mailbox_repo (left
    # over from a prior install, or created accidentally) used to win
    # over the real XDG archive and make every commit fail with
    # "guard could not locate archive for project '...'" (#95).
    legacy = os.path.expanduser("~/.mcp_agent_mail_git_mailbox_repo")
    if is_real_directory(os.path.join(legacy, "projects")):
        return legacy
        
    # XDG Data path fallback
    xdg_data = os.environ.get("XDG_DATA_HOME")
    if xdg_data:
        root = os.path.join(xdg_data, "mcp-agent-mail", "git_mailbox_repo")
    else:
        root = os.path.expanduser("~/.local/share/mcp-agent-mail/git_mailbox_repo")
    return root

def get_repo_root():
    try:
        result = _run_git_with_retry(
            ["git", "rev-parse", "--show-toplevel"],
            capture_output=True,
            text=True,
            check=True,
        )
        value = (result.stdout or "").strip()
        return value or None
    except Exception:
        return None

def canonical_text(value):
    if not value:
        return ""
    try:
        return os.path.realpath(value)
    except OSError:
        return os.path.abspath(value)

"##;

/// Whose shell this is.
pub const PLUGIN_IDENTITY: &'static str = r##"def sanitize_pane_id(pane_id):
    """Match core's pane-identity filename normalization."""
    stripped = (pane_id or "").strip()
    if stripped.startswith("%"):
        stripped = stripped[1:]
    out = []
    for ch in stripped:
        if ch.isascii() and (ch.isalnum() or ch in ("-", "_")):
            out.append(ch)
        elif ch == ":":
            out.append("-")
        else:
            out.append("_")
    return "".join(out) or "unknown"

def read_identity_file(path):
    """Read a regular, non-symlink identity file if it carries a name."""
    try:
        parent = os.path.dirname(os.path.abspath(path))
        while parent and parent != os.path.dirname(parent):
            if os.path.islink(parent):
                return None
            parent = os.path.dirname(parent)
        if not os.path.isfile(path) or os.path.islink(path):
            return None
        with open(path, "r", encoding="utf-8") as handle:
            name = handle.read().strip()
        return name or None
    except OSError:
        return None

def current_pane_ids():
    """Return the caller's composite tmux pane id, then its bare fallback."""
    pane = os.environ.get("TMUX_PANE", "").strip()
    if not pane:
        return []
    pane_ids = []
    try:
        result = subprocess.run(
            ["tmux", "display-message", "-t", pane, "-p", "#{session_name}:#{window_index}:#{pane_index}"],
            capture_output=True,
            text=True,
            check=False,
        )
        composite = (result.stdout or "").strip()
        if result.returncode == 0 and composite and ":" in composite:
            pane_ids.append(composite)
    except OSError:
        pass
    if pane not in pane_ids:
        pane_ids.append(pane)
    return pane_ids

def resolve_identity_agent_name():
    """Resolve this hook's identity from the canonical pane-identity files."""
    pane_ids = current_pane_ids()
    if not pane_ids:
        return ""

    project_key = canonical_text(get_repo_root() or PROJECT)
    project_hash = hashlib.sha1(project_key.encode("utf-8")).hexdigest()[:12]
    config_base = os.environ.get("XDG_CONFIG_HOME", "").strip()
    if not config_base:
        config_base = os.path.join(os.path.expanduser("~"), ".config")

    for pane_id in pane_ids:
        sanitized = sanitize_pane_id(pane_id)
        candidates = [
            os.path.join(config_base, "agent-mail", "identity", project_hash, sanitized),
            os.path.join(os.path.expanduser("~"), ".cla"##;

/// The rest of the places where an identity is looked for, and how it is read.
pub const PLUGIN_IDENTITY_PLACES: &'static str = r##"ude", "agent-mail", f"identity.{sanitized}"),
            os.path.join("/tmp", f"agent-mail-name.{project_hash}.{sanitized}"),
        ]
        for candidate in candidates:
            if name := read_identity_file(candidate):
                return name
    return ""

"##;

/// Which project a directory belongs to.
pub const PLUGIN_PROJECTS: &'static str = r##"def looks_like_project_slug(value):
    value = (value or "").strip()
    return bool(value) and not os.path.isabs(value) and "/" not in value and "\\" not in value

def project_metadata_matches(
    metadata,
    project_value,
    project_slug,
    repo_root,
    repo_slug,
    canonical_project,
    canonical_repo,
):
    if not isinstance(metadata, dict):
        return False

    slug = str(metadata.get("slug", "")).strip()
    project_value_is_slug = looks_like_project_slug(project_value)
    repo_root_is_slug = looks_like_project_slug(repo_root)
    if slug:
        if project_value_is_slug and slug in {project_value, project_slug}:
            return True
        if repo_root_is_slug and slug in {repo_root, repo_slug}:
            return True

    human_key = str(metadata.get("human_key", "")).strip()
    if human_key and human_key in {project_value, repo_root}:
        return True

    canonical_human_key = canonical_text(human_key)
    return bool(canonical_human_key and canonical_human_key in {canonical_project, canonical_repo})

def probe_real_directory(path):
    """(is_dir, error) -- inspection errors are distinct from a missing path.

    `os.path.isdir` coerces permission errors into False, which upstream made
    indistinguishable from "no matching project" and therefore fail-OPEN
    (GH#228). Absent paths return (False, None); paths that cannot even be
    inspected return (False, "<detail>") so the caller can route the errored
    outcome through fail_closed.
    """
    try:
        if os.path.islink(path):
            return False, None
        os.stat(path)
    except (FileNotFoundError, NotADirectoryError):
        return False, None
    except OSError as exc:
        return False, "%s: %s" % (path, exc)
    try:
        return os.path.isdir(path), None
    except OSError as exc:
        return False, "%s: %s" % (path, exc)

"##;

/// Where the archive is.
pub const PLUGIN_ARCHIVE: &'static str = r##"def resolve_archive_root():
    """Locate this project's archive root.

    Returns (archive_root, suspicious_entry, errors):
    - (path, None, [...]) when a matching archive is found;
    - (None, name, [...]) when an archive whose directory name collides with
      this project's slug exists but provably belongs to a different project
      (slug collision -- the guard must stay fail-closed, GH#224 note);
    - (None, None, []) when nothing in the storage root relates to this repo
      at all (nothing to guard -- callers may fail open);
    - (None, *, [error, ...]) when resolution hit inspection errors
      (permissions, IO) that make "no match" unprovable -- callers must route
      this through fail_closed rather than allowing (GH#228).
    """
    errors = []
    repo_root = get_repo_root()
    if repo_root:
        local_reservations, err = probe_real_directory(
            os.path.join(repo_root, "file_reservations")
        )
        if local_reservations:
            return repo_root, None, errors
        if err:
            errors.append(err)

    storage_root = default_storage_root()
    projects_dir = os.path.join(storage_root, "projects")
    projects_dir_ok, err = probe_real_directory(projects_dir)
    if err:
        errors.append(err)
        return None, None, errors
    if not projects_dir_ok:
        return None, None, errors

    project_value = PROJECT.strip()
    project_slug = slugify(project_value) if project_value else ""
    repo_slug = slugify(repo_root) if repo_root else ""
    project_value_is_slug = looks_like_project_slug(project_value)
    repo_root_is_slug = looks_like_project_slug(repo_root)
    explicit_names = []
    for name in (
        project_value if project_value_is_slug else "",
        project_slug if project_value_is_slug else "",
        repo_root if repo_root_is_slug else "",
        repo_slug if repo_root_is_slug else "",
    ):
        if (
            name
            and not os.path.isabs(name)
            and "/" not in name
            and "\\" not in name
            and name not in explicit_names
        ):
            explicit_names.append(name)

    for name in explicit_names:
        candidate = os.path.join(projects_dir, name)
        reservations_ok, err = probe_real_directory(
            os.path.join(candidate, "file_reservations")
        )
        if reservations_ok:
            return candidate, None, errors
        if err:
            errors.append(err)

    canonical_project = canonical_text(project_value)
    canonical_repo = canonical_text(repo_root)
    try:
        entries = sorted(os.scandir(projects_dir), key=lambda entry: entry.name)
    except OSError as exc:
        errors.append("%s: %s" % (projects_dir, exc))
        return None, None, errors

    slug_candidates = set(explicit_names)
    if project_slug:
        slug_candidates.add(project_slug)
    if repo_slug:
        slug_candidates.add(repo_slug)

    suspicious = None
    for entry in entries:
        try:
            if not entry.is_dir(follow_symlinks=False):
                continue
        except OSError as exc:
            errors.append("%s: %s" % (entry.path, exc))
            continue

        candidate = entry.path
        reservations_ok, err = probe_real_directory(
            os.path.join(candidate, "file_reservations")
        )
        if err:
            errors.append(err)
            continue
        if not reservations_ok:
            continue
        if entry.name in explicit_names:
            return candidate, None, errors

        metadata_path = os.path.join(candidate, "project.json")
        if not is_real_file(metadata_path):
            if suspicious is None and entry.name in slug_candidates:
                suspicious = entry.name
            continue
        try:
            with open(metadata_path, "r", encoding="utf-8") as handle:
                metadata = json.load(handle)
        except OSError as exc:
            # Cannot rule this candidate out as ours: unreadable metadata is
            # an errored outcome, not proof of no-match (GH#228).
            errors.append("%s: %s" % (metadata_path, exc))
            continue
        except Exception:
            if suspicious is None and entry.name in slug_candidates:
                suspicious = entry.name
            continue
        if project_metadata_matches(
            metadata,
            project_value,
            project_slug,
            repo_root or "",
            repo_slug,
            canonical_project,
            canonical_repo,
        ):
            return candidate, None, errors
        if suspicious is None and entry.name in slug_candidates:
            suspicious = entry.name

    return None, suspicious, errors

"##;

/// The active reservations.
pub const PLUGIN_RESERVATIONS: &'static str = r##"def released_ts_marks_released(value):
    if value is None:
        return False
    if isinstance(value, (int, float)):
        return value > 0
    if isinstance(value, str):
        trimmed = value.strip()
        lowered = trimmed.lower()
        if lowered in ("", "0", "null", "none"):
            return False
        if all(ch.isdigit() or ch in ".+-" for ch in trimmed):
            try:
                return float(trimmed) > 0
            except ValueError:
                return False
        return True
    return False

def is_expired(value, now):
    if value is None:
        return True
    if isinstance(value, (int, float)):
        return value <= now.timestamp() * 1_000_000
    if isinstance(value, str):
        trimmed = value.strip()
        if not trimmed:
            return True
        if all(ch.isdigit() or ch in ".+-" for ch in trimmed):
            try:
                return float(trimmed) <= now.timestamp() * 1_000_000
            except ValueError:
                return False
        try:
            dt = datetime.datetime.fromisoformat(trimmed.replace("Z", "+00:00"))
            if dt.tzinfo is None:
                dt = dt.replace(tzinfo=datetime.timezone.utc)
            return dt <= now
        except Exception:
            return False
    return False

def get_active_reservations():
    """Read active file reservations directly from the archive."""
    archive_root, suspicious, errors = resolve_archive_root()
    if not archive_root:
        if errors:
            # Resolution ERRORED -- "no matching project" is unprovable
            # (permissions, IO). Coercing this into the no-match allow path
            # turned a chmod-000 storage root into a silent bypass of an
            # active exclusive reservation (GH#228). fail_closed honors
            # AGENT_MAIL_GUARD_MODE=warn and advertises AGENT_MAIL_BYPASS=1.
            fail_closed(
                "mcp-agent-mail: guard could not resolve the archive for project "
                "%r; resolution errors: %s" % (PROJECT, "; ".join(errors[:5]))
            )
        if suspicious:
            # An archive directory named like this project's slug exists but
            # provably belongs to a different project (slug collision).
            # A conflicting slug proves the archive is unavailable for this
            # repository, but it does not prove that a reservation applies.
            # Do not strand ordinary commits behind stale/missing mailbox
            # state; make the degraded protection explicit instead.
            print(
                f"WARNING: mcp-agent-mail: guard could not locate archive for project "
                f"{PROJECT!r} (archive {suspicious!r} exists but belongs to a "
                "different project -- slug collision); allowing",
                file=sys.stderr,
            )
            return []
        # This repo matches no agent-mail project archive, so there are no
        # reservations that can be evaluated. A guard must not turn missing
        # mailbox state into a universal commit gate.
        print(
            f"WARNING: mcp-agent-mail: no agent-mail archive matches project {PROJECT!r}; "
            "nothing to guard, allowing",
            file=sys.stderr,
        )
        return []

    reservations_dir = os.path.join(archive_root, "file_reservations")
    if not is_real_directory(reservations_dir):
        return []

    now = datetime.datetime.now(datetime.timezone.utc)
    active = []
    try:
        entries = sorted(os.scandir(reservations_dir), key=lambda entry: entry.name)
    except OSError as exc:
        # Real reservation data exists but cannot be read: stay fail-closed,
        # but through the GH#224 path that honors warn mode + names bypass.
        fail_closed("mcp-agent-mail: guard failed to read reservations: " + str(exc))

    for entry in entries:
        try:
            if not entry.is_file(follow_symlinks=False):
                continue
        except OSError:
            continue
        if not entry.name.endswith(".json"):
            continue
        if entry.is_symlink():
            continue
        try:
            with open(entry.path, "r", encoding="utf-8") as handle:
                record = json.load(handle)
        except Exception:
            continue

        if released_ts_marks_released(record.get("released_ts")):
            continue
        if is_expired(record.get("expires_ts"), now):
            continue

        pattern = str(record.get("path_pattern") or record.get("path") or "").strip()
        holder = str(record.get("agent_name") or record.get("agent") or "").strip()
        if not pattern or not holder or record.get("exclusive") is not True:
            continue

        active.append(
            {
                "path_pattern": pattern,
                "agent_name": holder,
                "expires_ts": record.get("expires_ts"),
            }
        )

    return active

"##;

/// Paths as they are matched.
pub const PLUGIN_PATHS: &'static str = r##"def core_ignorecase_enabled():
    """Detect git core.ignorecase for path comparison parity with Rust guard."""
    try:
        res = _run_git_with_retry(
            ["git", "config", "--bool", "core.ignorecase"],
            capture_output=True,
            text=True,
        )
        if res.returncode == 0:
            value = (res.stdout or "").strip().lower()
            return value in ("1", "true", "yes", "on")
    except Exception:
        pass
    # Windows repositories are usually case-insensitive by default.
    return os.name == "nt"

CASE_INSENSITIVE_REPO = core_ignorecase_enabled()

def normalize_match_input(value):
    # Normalize slashes and trim leading/trailing slashes
    val = value.replace('\\', '/').strip('/')
    # Collapse redundant segments (like Rust core normalization)
    parts = []
    for component in val.split('/'):
        if component == '' or component == '.':
            continue
        if component == '..':
            if parts:
                parts.pop()
        else:
            parts.append(component)
    val = '/'.join(parts)
    return val.lower() if CASE_INSENSITIVE_REPO else val

def is_default_exempt_path(path):
    normalized = normalize_match_input(path)
    return normalized == ".beads" or normalized.startswith(".beads/")

"##;

/// Globs as regular expressions.
pub const PLUGIN_GLOBS: &'static str = r##"def _glob_translate_body(pattern):
    """Translate a shell glob into a partial regex body (no anchors).

    This deliberately does NOT call ``fnmatch.translate``. That function's
    output is a CPython implementation detail that is not stable across
    releases, and this guard MUST NOT depend on it:

      * <=3.11 terminate the wrapped body with the ``\\Z`` anchor;
      * 3.12/3.13 additionally emit atomic groups like ``(?>.*?/)`` for
        ``*`` runs, and 3.9/3.10 emit named-group backreferences;
      * 3.14 changed the terminating anchor from ``\\Z`` to ``\\z``
        (CPython gh-140922, undocumented).

    The previous implementation string-sliced ``fnmatch.translate`` output
    assuming a trailing ``\\Z``. On Python 3.14 the new ``\\z`` suffix was
    left in place, producing an unbalanced-parenthesis regex that raised
    ``re.error`` at match time -- which ``glob_match`` swallowed and reported
    as "no match". That silently DISABLED every glob (and even literal-path)
    reservation: a fail-OPEN of a security guard. Compiling the glob
    ourselves keeps match decisions identical across Python 3.9-3.14+.

    Metacharacter handling mirrors the Rust reservation matcher:

      ``*``     -> ``.*``  (rewritten to ``[^/]*`` below: one path segment)
      ``**``    -> ``\\0`` sentinel (expanded below to cross directories)
      ``?``     -> ``.``   (any single character)
      ``[..]``  -> character class (``[!`` -> ``[^``; unterminated -> literal)
      ``{a,b}`` -> emitted escaped for the brace-expansion pass below

    Every other character is escaped as a literal via ``re.escape``.
    """
    out = []
    i = 0
    n = len(pattern)
    while i < n:
        c = pattern[i]
        if c == "*":
            j = i
            while j < n and pattern[j] == "*":
                j += 1
            # A run of two or more '*' is a globstar (crosses directories).
            out.append("\0" if (j - i) >= 2 else ".*")
            i = j
            continue
        if c == "?":
            out.append(".")
            i += 1
            continue
        if c == "[":
            k = i + 1
            if k < n and pattern[k] in ("!", "^"):
                k += 1
            if k < n and pattern[k] == "]":
                k += 1
            while k < n and pattern[k] != "]":
                k += 1
            if k >= n:
                # Unterminated class: treat '[' as a literal character.
                out.append("\\[")
                i += 1
                continue
            inner = pattern[i + 1:k]
            if inner.startswith("!"):
                inner = "^" + inner[1:]
            inner = inner.replace("\\", "\\\\")
            out.append("[" + inner + "]")
            i = k + 1
            continue
        if c in "{}":
            out.append("\\" + c)
            i += 1
            continue
        if c == ",":
            out.append(",")
            i += 1
            continue
        out.append(re.escape(c))
        i += 1
    return "".join(out)

"##;

/// The conflicts.
pub const PLUGIN_CONFLICTS: &'static str = r##"def glob_to_regex(pattern):
    """Convert shell-style glob to regex supporting **, [], and {} syntax.

    Version-agnostic: see ``_glob_translate_body`` for why this must not rely
    on ``fnmatch.translate``'s (unstable) output format.
    """
    regex = _glob_translate_body(pattern)
    # Replace single-star .* with [^/]* to respect directory boundaries.
    regex = regex.replace(".*", "[^/]*")
    # Restore ** logic, handling optional slashes.
    regex = regex.replace("/\0/", "(?:/|/.+/)")
    if regex.startswith("\0/"):
        regex = "(?:.+/|)" + regex[2:]
    regex = regex.replace("\0", ".*")
    # Handle {a,b} bash-style brace expansion.
    regex = re.sub(r"\\?\{(.+?)\\?\}", lambda m: "(" + m.group(1).replace("\\", "").replace(",", "|") + ")", regex)
    return regex

def compile_reservations(reservations, self_agent):
    """Build every foreign reservation's matcher ONCE.

    check_conflicts() used to rebuild the regex for each (path, reservation)
    pair, which made a large push pay the glob translation tens of thousands
    of times per reservation. Returns a list of
    (pattern, holder, normalized_pattern, matcher, has_glob) tuples.

    `matcher` is None when the pattern cannot be compiled. That stays FAIL
    CLOSED: a reservation pattern we cannot compile into a matcher must never
    be silently treated as "no conflict" -- that is exactly the fail-OPEN the
    CPython 3.14 fnmatch change caused. Be conservative: report a potential
    conflict so the commit/push is blocked and the operator can investigate,
    and make it loud.
    """
    compiled = []
    for res in reservations:
        pattern = res["path_pattern"]
        holder = res.get("agent_name", "unknown")
        if holder.lower() == self_agent:
            continue  # Skip our own reservations

        normalized_pattern = normalize_match_input(pattern)
        if not normalized_pattern:
            continue
        try:
            matcher = re.compile(glob_to_regex(normalized_pattern))
        except re.error as exc:
            sys.stderr.write(
                "mcp-agent-mail: guard could not evaluate reservation pattern "
                "%r (%s); treating as a conflict (fail-closed).\n" % (pattern, exc)
            )
            matcher = None
        has_glob = any(c in pattern for c in "*?[{")
        compiled.append((pattern, holder, normalized_pattern, matcher, has_glob))
    return compiled

def check_conflicts(paths, reservations, self_agent):
    """Check if any paths conflict with active reservations."""
    self_agent = self_agent.lower()
    compiled = compile_reservations(reservations, self_agent)
    conflicts = []
    if not compiled:
        return conflicts
    for f in paths:
        if is_default_exempt_path(f):
            continue
        normalized_f = normalize_match_input(f)
        if not normalized_f:
            continue

        for pattern, holder, normalized_pattern, matcher, has_glob in compiled:
            # 1. Glob matching: check if concrete path matches reserved glob
            #    (an uncompilable pattern matches everything, see above).
            if matcher is None or matcher.fullmatch(normalized_f) is not None:
                conflicts.append((f, pattern, holder))
                break

            # 2. Reverse check: pattern is inside touched path (e.g. dir replaced by file)
            # This handles cases where a concrete parent directory is touched.
            if normalized_pattern.startswith(normalized_f + "/"):
                conflicts.append((f, pattern, holder))
                break

            # 3. Normal prefix check: file is inside reserved dir
            # This handles literal directory reservations.
            if not has_glob and normalized_f.startswith(normalized_pattern + "/"):
                conflicts.append((f, pattern, holder))
                break
    return conflicts

"##;

/// The check itself.
pub const PLUGIN_MAIN: &'static str = r##"def has_foreign_reservations(reservations, self_agent):
    """Whether any active reservation is held by someone other than `self_agent`.

    A truncated push scan only matters if there is a reservation the skipped
    part of the push could have collided with; an agent's own leases never
    conflict with its push.
    """
    self_agent = self_agent.lower()
    return any(res.get("agent_name", "unknown").lower() != self_agent for res in reservations)

def is_truthy(val):
    if not val:
        return False
    return str(val).strip().lower() in ("1", "true", "t", "yes", "y")

def main():
    # GH#224: the bypass/enforcement toggles must be honored before any
    # fail-closed requirement (previously a missing AGENT_NAME exited 2 even
    # with AGENT_MAIL_BYPASS=1 set).
    if is_truthy(os.environ.get("AGENT_MAIL_BYPASS")):
        sys.exit(0)

    enforcement_enabled = os.environ.get("FILE_RESERVATIONS_ENFORCEMENT_ENABLED")
    if enforcement_enabled is not None and not is_truthy(enforcement_enabled):
        sys.exit(0)

    unchecked = []
    if HOOK_NAME == "pre-push":
        files_to_check, unchecked = get_push_files()
    else:
        files_to_check = get_staged_files()

    if not files_to_check and not unchecked:
        sys.exit(0)

    reservations = get_active_reservations()
    if not reservations:
        sys.exit(0)

    # Prefer the explicit environment override, then recover the caller's
    # already-registered pane identity. Requiring AGENT_NAME alone made
    # regular commits fail even though the mailbox already knew the holder.
    agent_name = AGENT_NAME or resolve_identity_agent_name()
    if not agent_name:
        fail_closed(
            "mcp-agent-mail: AGENT_NAME is unset and no current-pane identity "
            "could be resolved to evaluate active file reservations"
        )

    conflicts = check_conflicts(files_to_check, reservations, agent_name)
    if not conflicts:
        if unchecked and has_foreign_reservations(reservations, agent_name):
            # Nothing inspected conflicts, but the scan did not cover the
            # whole push and someone else holds a lease it could have hit:
            # that is an unfinished inspection, not a clean one.
            fail_closed(
                "mcp-agent-mail: the pre-push scan was truncated, so part of this push "
                "was NOT checked against active file reservations: " + "; ".join(unchecked)
            )
        sys.exit(0)

    msg = "mcp-agent-mail: file reservation conflict detected!\n"
    for path, pattern, holder in conflicts:
        msg += f"  {path} conflicts with reservation '{pattern}' held by {holder}\n"
    if unchecked:
        msg += "  (the scan was also truncated: " + "; ".join(unchecked) + ")\n"

    if GUARD_MODE == "warn":
        print(f"WARNING: {msg}", file=sys.stderr)
        sys.exit(0)
    else:
        print(f"ERROR: {msg}", file=sys.stderr)
        print(
            "Set AGENT_MAIL_GUARD_MODE=warn to allow commit anyway, or "
            "AGENT_MAIL_BYPASS=1 to skip this guard.",
            file=sys.stderr,
        )
        sys.exit(1)

if __name__ == "__main__":
    main()
"##;

/// The first lines of the template, which hold its places.
pub open spec fn plugin_head_text() -> Seq<char> {
    PLUGIN_TITLE@ + " ("@ + HOOK_NAME_PLACE@ + ")\n"@ + "# project: "@ + PROJECT_PLACE@ + "\n"@
        + PLUGIN_HEADER@ + "\n"@ + "PROJECT = "@ + PROJECT_JSON_PLACE@ + "\n"@ + "HOOK_NAME = "@
        + HOOK_NAME_JSON_PLACE@ + "\n"@
}

/// The lines behind them, which are the same in every hook.
pub open spec fn plugin_tail_text() -> Seq<char> {
    PLUGIN_FAILURE@ + PLUGIN_GIT@ + PLUGIN_STAGED@ + PLUGIN_PUSH_BOUNDS@ + PLUGIN_PUSH_STREAM@
        + PLUGIN_PUSH_FILES@ + PLUGIN_FILES@ + PLUGIN_IDENTITY@ + PLUGIN_IDENTITY_PLACES@
        + PLUGIN_PROJECTS@ + PLUGIN_ARCHIVE@ + PLUGIN_RESERVATIONS@ + PLUGIN_PATHS@ + PLUGIN_GLOBS@
        + PLUGIN_CONFLICTS@ + PLUGIN_MAIN@
}

/// The whole template.
pub open spec fn plugin_template_text() -> Seq<char> {
    plugin_head_text() + plugin_tail_text()
}

pub fn plugin_template() -> (r: String)
    ensures
        r@ == plugin_template_text(),
{
    let head = PLUGIN_TITLE.to_owned().concat(" (").concat(HOOK_NAME_PLACE).concat(")\n").concat(
        "# project: ",
    ).concat(PROJECT_PLACE).concat("\n").concat(PLUGIN_HEADER).concat("\n").concat(
        "PROJECT = ",
    ).concat(PROJECT_JSON_PLACE).concat("\n").concat("HOOK_NAME = ").concat(
        HOOK_NAME_JSON_PLACE,
    ).concat("\n");
    let tail = PLUGIN_FAILURE.to_owned().concat(PLUGIN_GIT).concat(PLUGIN_STAGED).concat(
        PLUGIN_PUSH_BOUNDS,
    ).concat(PLUGIN_PUSH_STREAM).concat(PLUGIN_PUSH_FILES).concat(PLUGIN_FILES).concat(
        PLUGIN_IDENTITY,
    ).concat(PLUGIN_IDENTITY_PLACES).concat(PLUGIN_PROJECTS).concat(PLUGIN_ARCHIVE).concat(
        PLUGIN_RESERVATIONS,
    ).concat(PLUGIN_PATHS).concat(PLUGIN_GLOBS).concat(PLUGIN_CONFLICTS).concat(PLUGIN_MAIN);
    head.concat(tail.as_str())
}

} // verus!
