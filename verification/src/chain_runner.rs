//! The script that runs every hook of a repository in turn.

use vstd::prelude::*;

use crate::text::same;

verus! {

/// The interpreter, and the start of the comment that names the script.
pub const CHAIN_SHEBANG: &'static str = "#!/usr/bin/env python3\n# ";

pub const CHAIN_IMPORTS: &'static str = r#"
import os
import sys
import stat
import subprocess
from pathlib import Path

HOOK_DIR = Path(__file__).parent
RUN_DIR = HOOK_DIR / 'hooks.d' / '"#;

/// The helpers: which hooks are executable, running one, and keeping the
/// first failure.
pub const CHAIN_HELPERS: &'static str = r#".orig'

def _is_exec(p: Path) -> bool:
    try:
        st = p.stat()
        return bool(st.st_mode & (stat.S_IXUSR | stat.S_IXGRP | stat.S_IXOTH))
    except Exception:
        return False

def _list_execs() -> list[Path]:
    if not RUN_DIR.exists() or not RUN_DIR.is_dir():
        return []
    items = sorted([p for p in RUN_DIR.iterdir() if p.is_file()], key=lambda p: p.name)
    # On POSIX, honor exec bit; on Windows, include all files (we'll dispatch .py via python).
    if os.name == 'posix':
        try:
            items = [p for p in items if _is_exec(p)]
        except Exception:
            pass
    return items

def _run_child(path: Path, * , stdin_bytes=None):
    # On Windows, prefer 'python' for .py plugins to avoid PATHEXT reliance.
    try:
        if os.name != 'posix' and path.suffix.lower() == '.py':
            return subprocess.run([sys.executable, str(path)], input=stdin_bytes, check=False).returncode
        return subprocess.run([str(path)], input=stdin_bytes, check=False).returncode
    except OSError as exc:
        print(f'mcp-agent-mail chain-runner: could not execute {path.name}: {exc}', file=sys.stderr)
        return 126

def _remember_failure(path: Path, rc: int, first_failure: int) -> int:
    if rc == 0:
        return first_failure
    print(f'mcp-agent-mail chain-runner: {path.name} exited with status {rc}', file=sys.stderr)
    return first_failure or rc

"#;

/// Runs every hook with the same input, which git passes once.
pub const CHAIN_PUSH_BODY: &'static str = r#"# Read STDIN once (Git passes ref tuples); forward to children
stdin_bytes = sys.stdin.buffer.read()
first_failure = 0
for exe in _list_execs():
    rc = _run_child(exe, stdin_bytes=stdin_bytes)
    first_failure = _remember_failure(exe, rc, first_failure)

if ORIG.exists():
    rc = _run_child(ORIG, stdin_bytes=stdin_bytes)
    first_failure = _remember_failure(ORIG, rc, first_failure)
"#;

/// Runs every hook.
pub const CHAIN_BODY: &'static str = r#"first_failure = 0
for exe in _list_execs():
    rc = _run_child(exe)
    first_failure = _remember_failure(exe, rc, first_failure)

if ORIG.exists():
    rc = _run_child(ORIG)
    first_failure = _remember_failure(ORIG, rc, first_failure)
"#;

/// The text by which a chain runner for this hook is known.
pub open spec fn chain_sentinel(hook_name: Seq<char>) -> Seq<char> {
    "mcp-agent-mail chain-runner"@ + " ("@ + hook_name + ")"@
}

/// The script: every executable in `hooks.d/<hook>` runs in the order of the
/// names, then the hook that was there before; the first failure is the exit
/// code, and no failure keeps later hooks from running. The hooks of a push
/// all get the same input.
pub open spec fn chain_script(hook_name: Seq<char>) -> Seq<char> {
    CHAIN_SHEBANG@ + chain_sentinel(hook_name) + CHAIN_IMPORTS@ + hook_name
        + "'\nORIG = HOOK_DIR / '"@ + hook_name + CHAIN_HELPERS@ + (if hook_name == "pre-push"@ {
        CHAIN_PUSH_BODY@
    } else {
        CHAIN_BODY@
    }) + "sys.exit(first_failure)"@ + "\n"@
}

pub fn sentinel(hook_name: &str) -> (r: String)
    ensures
        r@ == chain_sentinel(hook_name@),
{
    "mcp-agent-mail chain-runner".to_owned().concat(" (").concat(hook_name).concat(")")
}

/// Renders the script that runs the hooks of `hooks.d/<hook>`.
pub fn render_chain_runner_script(hook_name: &str) -> (r: String)
    ensures
        r@ == chain_script(hook_name@),
{
    let body = if same(hook_name, "pre-push") {
        CHAIN_PUSH_BODY
    } else {
        CHAIN_BODY
    };
    CHAIN_SHEBANG.to_owned().concat(sentinel(hook_name).as_str()).concat(CHAIN_IMPORTS).concat(
        hook_name,
    ).concat("'\nORIG = HOOK_DIR / '").concat(hook_name).concat(CHAIN_HELPERS).concat(body).concat(
        "sys.exit(first_failure)",
    ).concat("\n")
}

/// The script names its hook: in the comment by which it is known, as the
/// directory of the hooks that it runs, and as the hook that was kept aside.
/// Only that of a push reads what git passes, to hand it to each hook. Its
/// exit code is the first failure.
pub proof fn law_the_chain_runs_its_own_hooks(hook_name: &str, mark: String, r: String)
    requires
        call_ensures(sentinel, (hook_name,), mark),
        call_ensures(render_chain_runner_script, (hook_name,), r),
    ensures
        mark@ == "mcp-agent-mail chain-runner ("@ + hook_name@ + ")"@,
        (CHAIN_SHEBANG@ + mark@ + CHAIN_IMPORTS@ + hook_name@ + "'\nORIG = HOOK_DIR / '"@
            + hook_name@ + CHAIN_HELPERS@).is_prefix_of(r@),
        hook_name@ == "pre-push"@ ==> (CHAIN_HELPERS@ + CHAIN_PUSH_BODY@
            + "sys.exit(first_failure)\n"@).is_suffix_of(r@),
        hook_name@ != "pre-push"@ ==> (CHAIN_HELPERS@ + CHAIN_BODY@
            + "sys.exit(first_failure)\n"@).is_suffix_of(r@),
{
    reveal_strlit("mcp-agent-mail chain-runner (");
    reveal_strlit("mcp-agent-mail chain-runner");
    reveal_strlit(" (");
    reveal_strlit("sys.exit(first_failure)");
    reveal_strlit("sys.exit(first_failure)\n");
    reveal_strlit("\n");
    assert("mcp-agent-mail chain-runner ("@ =~= "mcp-agent-mail chain-runner"@ + " ("@);
    let end = "sys.exit(first_failure)\n"@;
    assert(end =~= "sys.exit(first_failure)"@ + "\n"@);
    let body = if hook_name@ == "pre-push"@ {
        CHAIN_PUSH_BODY@
    } else {
        CHAIN_BODY@
    };
    let front = CHAIN_SHEBANG@ + mark@ + CHAIN_IMPORTS@ + hook_name@ + "'\nORIG = HOOK_DIR / '"@
        + hook_name@;
    let back = CHAIN_HELPERS@ + body + end;
    assert(r@ =~= front + back);
    assert(r@ =~= (front + CHAIN_HELPERS@) + (body + end));
    assert(r@.skip(front.len() as int) =~= back);
}

} // verus!
