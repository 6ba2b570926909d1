//! Installing, removing and recognising the guard's hooks.
//!
//! Reading and writing files is the caller's part; which file is ours, where
//! hooks belong and what is written is decided here.

use vstd::prelude::*;

use crate::chain_runner::{
    chain_script, chain_sentinel, render_chain_runner_script, sentinel, CHAIN_SHEBANG,
};
use crate::guard::{GuardError, GuardMode, GuardResult, GuardStatus};
use crate::plugin::{plugin_script, render_guard_plugin_script};
use crate::text::{
    ascii_lower, chars_of, contains, has_text, is_space, occurs_at, opt_view, same,
    same_ignoring_ascii_case, starts_with, text_of, to_ascii_lower, trim, trimmed, trimmed_end,
    trimmed_start, views,
};

verus! {

/// The file name of the guard's plugin.
pub const PLUGIN_FILE_NAME: &'static str = "50-agent-mail.py";

/// Which variables give the home directory.
#[derive(Debug, Clone, Copy, PartialEq, Eq, Structural)]
pub enum HomeSource {
    Home,
    UserProfile,
    /// `HOMEDRIVE` with `HOMEPATH` below it.
    DriveAndPath,
    Unknown,
}

/// Picks the home directory; each argument says whether that variable is set
/// and not empty.
pub fn home_dir(home: bool, user_profile: bool, home_drive: bool, home_path: bool) -> (r:
    HomeSource)
    ensures
        r == (if home {
            HomeSource::Home
        } else if user_profile {
            HomeSource::UserProfile
        } else if home_drive && home_path {
            HomeSource::DriveAndPath
        } else {
            HomeSource::Unknown
        }),
{
    if home {
        HomeSource::Home
    } else if user_profile {
        HomeSource::UserProfile
    } else if home_drive && home_path {
        HomeSource::DriveAndPath
    } else {
        HomeSource::Unknown
    }
}

/// A path in which `~` may stand for the home directory.
pub enum ExpandedPath {
    /// The home directory itself.
    Home,
    /// This path, joined to the home directory.
    BelowHome(String),
    /// This path as it is.
    Plain(String),
}

/// Expands a leading `~`. Without a home directory the path stays as it is.
pub fn expand_user(path: &str, home_known: bool) -> (r: ExpandedPath)
    ensures
        match r {
            ExpandedPath::Home => path@ == "~"@ && home_known,
            ExpandedPath::BelowHome(rest) => path@ == "~/"@ + rest@ && home_known,
            ExpandedPath::Plain(p) => p@ == path@ && (!home_known || (path@ != "~"@
                && !"~/"@.is_prefix_of(path@))),
        },
{
    if !home_known {
        return ExpandedPath::Plain(path.to_owned());
    }
    if same(path, "~") {
        return ExpandedPath::Home;
    }
    if starts_with(path, "~/") {
        proof {
            reveal_strlit("~/");
        }
        let cs = chars_of(path);
        let n: usize = cs.len();
        let rest = text_of(cs.as_slice(), 2, n);
        assert(path@ =~= "~/"@ + rest@);
        return ExpandedPath::BelowHome(rest);
    }
    ExpandedPath::Plain(path.to_owned())
}

/// Where a worktree's git directory finds the common one: the text of its
/// `commondir` file, where it has one, is a path relative to it. None means
/// that the directory is the common one itself.
pub fn resolve_common_git_dir(commondir: Option<&str>) -> (r: Option<String>)
    ensures
        match r {
            Some(rel) => commondir is Some && rel@ == trimmed(commondir->0@) && rel@.len() > 0,
            None => commondir is None || trimmed(commondir->0@).len() == 0,
        },
{
    match commondir {
        None => None,
        Some(text) => {
            let rel = trim(text);
            if rel.as_str().is_empty() {
                None
            } else {
                Some(rel)
            }
        },
    }
}

/// Refuses a repository path that does not exist.
pub fn require_existing(exists: bool, path: &str) -> (r: GuardResult<()>)
    ensures
        r is Ok <==> exists,
        r matches Err(e) ==> (e matches GuardError::InvalidRepo { path: p } && p@ == path@),
{
    if exists {
        Ok(())
    } else {
        Err(GuardError::InvalidRepo { path: path.to_owned() })
    }
}

/// Refuses a repository without a working tree.
pub fn require_worktree(is_bare: bool, has_workdir: bool, path: &str) -> (r: GuardResult<()>)
    ensures
        r is Ok <==> !is_bare && has_workdir,
        r matches Err(e) ==> (e matches GuardError::InvalidRepo { path: p } && p@ == path@),
{
    if is_bare || !has_workdir {
        Err(GuardError::InvalidRepo { path: path.to_owned() })
    } else {
        Ok(())
    }
}

/// Where hooks live.
pub enum HooksDir {
    /// The configured path, which `~` may start; a relative one is taken from
    /// the root of the working tree.
    Configured(String),
    /// The directory `hooks` of the common git directory.
    Common,
}

/// A configured path that is not blank, trimmed.
pub open spec fn configured_path(raw: Option<Seq<char>>) -> Option<Seq<char>> {
    match raw {
        Some(t) if trimmed(t).len() > 0 => Some(trimmed(t)),
        _ => None,
    }
}

/// Finds the hooks as git does: by `core.hooksPath` where it is set, or else
/// in the common git directory.
pub fn resolve_hooks_dir(hooks_path: Option<&str>) -> (r: HooksDir)
    ensures
        match r {
            HooksDir::Configured(p) => configured_path(opt_view(hooks_path)) == Some(p@),
            HooksDir::Common => configured_path(opt_view(hooks_path)) is None,
        },
{
    match hooks_path {
        Some(raw) => {
            let p = trim(raw);
            if p.as_str().is_empty() {
                HooksDir::Common
            } else {
                HooksDir::Configured(p)
            }
        },
        None => HooksDir::Common,
    }
}

/// The file of git's configuration that a value comes from.
#[derive(Debug, Clone, Copy, PartialEq, Eq, Structural)]
pub enum ConfigLevel {
    ProgramData,
    System,
    XDG,
    Global,
    Local,
    Worktree,
    App,
    Highest,
}

impl ConfigLevel {
    /// The level speaks of one repository, not of the whole machine.
    pub open spec fn is_repo_scoped(self) -> bool {
        self == ConfigLevel::Local || self == ConfigLevel::Worktree || self == ConfigLevel::App
    }

    pub open spec fn label(self) -> Seq<char> {
        match self {
            ConfigLevel::System => "system"@,
            ConfigLevel::XDG => "XDG"@,
            ConfigLevel::Global => "global"@,
            ConfigLevel::Local => "local"@,
            ConfigLevel::Worktree => "worktree"@,
            ConfigLevel::App => "app"@,
            ConfigLevel::ProgramData => "inherited"@,
            ConfigLevel::Highest => "inherited"@,
        }
    }
}

/// Whether an installation into a `core.hooksPath` of this level is refused:
/// every repository of the machine would run it, unless that is allowed.
pub fn hookspath_level_refuses_install(level: ConfigLevel, allow_global: bool) -> (r: bool)
    ensures
        r == (!level.is_repo_scoped() && !allow_global),
{
    let repo_scoped = match level {
        ConfigLevel::Local => true,
        ConfigLevel::Worktree => true,
        ConfigLevel::App => true,
        _ => false,
    };
    !repo_scoped && !allow_global
}

pub fn config_level_label(level: ConfigLevel) -> (r: &'static str)
    ensures
        r@ == level.label(),
{
    match level {
        ConfigLevel::System => "system",
        ConfigLevel::XDG => "XDG",
        ConfigLevel::Global => "global",
        ConfigLevel::Local => "local",
        ConfigLevel::Worktree => "worktree",
        ConfigLevel::App => "app",
        ConfigLevel::ProgramData => "inherited",
        ConfigLevel::Highest => "inherited",
    }
}

/// The hooks directory to install into. A path that the whole machine shares
/// is refused unless `allow_global`.
pub fn resolve_install_hooks_dir(
    hooks_path: Option<&str>,
    level: ConfigLevel,
    allow_global: bool,
) -> (r: GuardResult<HooksDir>)
    ensures
        match configured_path(opt_view(hooks_path)) {
            None => r matches Ok(dir) && dir is Common,
            Some(p) => if !level.is_repo_scoped() && !allow_global {
                r matches Err(e) && (e matches GuardError::GlobalHooksPath { hooks_path: h, origin }
                    && h@ == p && origin@ == level.label())
            } else {
                r matches Ok(dir) && (dir matches HooksDir::Configured(c) && c@ == p)
            },
        },
{
    match resolve_hooks_dir(hooks_path) {
        HooksDir::Common => Ok(HooksDir::Common),
        HooksDir::Configured(p) => if hookspath_level_refuses_install(level, allow_global) {
            Err(
                GuardError::GlobalHooksPath {
                    hooks_path: p,
                    origin: config_level_label(level).to_owned(),
                },
            )
        } else {
            Ok(HooksDir::Configured(p))
        },
    }
}

/// A value that means yes.
pub open spec fn is_truthy(value: Option<Seq<char>>) -> bool {
    match value {
        Some(v) => {
            let t = ascii_lower(trimmed(v));
            t == "1"@ || t == "true"@ || t == "t"@ || t == "yes"@ || t == "y"@
        },
        None => false,
    }
}

/// Whether a value means yes, in any case and with white space around it.
pub fn is_truthy_value(value: Option<&str>) -> (r: bool)
    ensures
        r == is_truthy(opt_view(value)),
{
    match value {
        Some(v) => {
            let t = to_ascii_lower(trim(v).as_str());
            let t = t.as_str();
            same(t, "1") || same(t, "true") || same(t, "t") || same(t, "yes") || same(t, "y")
        },
        None => false,
    }
}

/// Whether a value allows hooks directories that the machine shares.
pub fn env_allows_global_hookspath(value: Option<&str>) -> (r: bool)
    ensures
        r == is_truthy(opt_view(value)),
{
    is_truthy_value(value)
}

pub open spec fn is_legacy_guard(contents: Seq<char>) -> bool {
    has_text(contents, "mcp-agent-mail guard hook"@) || has_text(
        contents,
        "AGENT_NAME environment variable is required."@,
    )
}

/// Whether a hook is a guard from before there was a chain runner.
pub fn is_legacy_single_file_guard(contents: &str) -> (r: bool)
    ensures
        r == is_legacy_guard(contents@),
{
    contains(contents, "mcp-agent-mail guard hook") || contains(
        contents,
        "AGENT_NAME environment variable is required.",
    )
}

/// The name of the temporary file beside a hook that is being written.
pub fn guard_temp_name(file_name: &str, pid: u32) -> (r: String)
    ensures
        r@ == "."@ + file_name@ + "."@ + crate::numbers::decimal(pid as nat) + ".tmp"@,
{
    ".".to_owned().concat(file_name).concat(".").concat(
        crate::numbers::print_u64(pid as u64).as_str(),
    ).concat(".tmp")
}

/// The hooks that an installation writes.
pub fn hooks_to_install(install_prepush: bool) -> (r: Vec<String>)
    ensures
        views(r@) == (if install_prepush {
            seq!["pre-commit"@, "pre-push"@]
        } else {
            seq!["pre-commit"@]
        }),
{
    let mut out: Vec<String> = Vec::new();
    out.push("pre-commit".to_owned());
    if install_prepush {
        out.push("pre-push".to_owned());
        assert(views(out@) =~= seq!["pre-commit"@, "pre-push"@]);
    } else {
        assert(views(out@) =~= seq!["pre-commit"@]);
    }
    out
}

/// What is in the hooks directory before an installation.
pub struct HookFiles {
    /// The text of the hook, empty where it cannot be read; none where there
    /// is no hook.
    pub hook: Option<String>,
    /// Whether `<hook>.orig` exists.
    pub has_orig: bool,
    /// Whether `<hook>.cmd` exists.
    pub has_cmd: bool,
    /// Whether `<hook>.ps1` exists.
    pub has_ps1: bool,
}

/// What an installation does to a hook.
pub struct HookInstall {
    /// Rename the hook to `<hook>.orig` first.
    pub back_up: bool,
    /// The new hook, executable.
    pub chain_script: String,
    /// The text of `<hook>.cmd`, where it is missing.
    pub cmd: Option<String>,
    /// The text of `<hook>.ps1`, where it is missing.
    pub ps1: Option<String>,
    /// The plugin in `hooks.d/<hook>`, executable.
    pub plugin: String,
}

/// A hook is kept aside unless it is already the chain runner of this name, or
/// one was kept before.
pub open spec fn needs_backup(hook: Option<Seq<char>>, has_orig: bool, name: Seq<char>) -> bool {
    hook is Some && !has_text(trimmed(hook->0), chain_sentinel(name)) && !has_orig
}

pub open spec fn cmd_shim(name: Seq<char>) -> Seq<char> {
    "@echo off\r\nsetlocal\r\nset \"DIR=%~dp0\"\r\npython \"%DIR%"@ + name
        + "\" %*\r\nexit /b %ERRORLEVEL%\r\n"@
}

pub open spec fn ps1_shim(name: Seq<char>) -> Seq<char> {
    "$ErrorActionPreference = 'Stop'\n$hook = Join-Path $PSScriptRoot '"@ + name
        + "'\npython $hook @args\nexit $LASTEXITCODE\n"@
}

/// The files of one hook: the hook, what was kept aside, the shims, and the
/// guard's plugin.
#[verifier::ext_equal]
pub struct HookDirectory {
    pub hook: Option<Seq<char>>,
    pub orig: Option<Seq<char>>,
    pub cmd: Option<Seq<char>>,
    pub ps1: Option<Seq<char>>,
    pub plugin: Option<Seq<char>>,
}

impl HookFiles {
    /// This is what an installation sees of the files.
    pub open spec fn describes(self, dir: HookDirectory) -> bool {
        &&& dir.hook == (match self.hook {
            Some(text) => Some(text@),
            None => None,
        })
        &&& self.has_orig == dir.orig is Some
        &&& self.has_cmd == dir.cmd is Some
        &&& self.has_ps1 == dir.ps1 is Some
    }
}

impl HookInstall {
    /// The files after the plan has been carried out.
    pub open spec fn applied(self, dir: HookDirectory) -> HookDirectory {
        HookDirectory {
            hook: Some(self.chain_script@),
            orig: if self.back_up {
                dir.hook
            } else {
                dir.orig
            },
            cmd: match self.cmd {
                Some(body) => Some(body@),
                None => dir.cmd,
            },
            ps1: match self.ps1 {
                Some(body) => Some(body@),
                None => dir.ps1,
            },
            plugin: Some(self.plugin@),
        }
    }
}

/// The files after an installation: the chain runner is the hook, a foreign
/// hook is kept aside unless one was before, shims that were there stay, and
/// the plugin is the present one.
pub open spec fn installed(dir: HookDirectory, project: Seq<char>, name: Seq<char>) -> HookDirectory {
    HookDirectory {
        hook: Some(chain_script(name)),
        orig: if needs_backup(dir.hook, dir.orig is Some, name) {
            dir.hook
        } else {
            dir.orig
        },
        cmd: if dir.cmd is Some {
            dir.cmd
        } else {
            Some(cmd_shim(name))
        },
        ps1: if dir.ps1 is Some {
            dir.ps1
        } else {
            Some(ps1_shim(name))
        },
        plugin: Some(plugin_script(project, name)),
    }
}

/// Plans the installation of one hook.
pub fn install_guard(project: &str, name: &str, files: &HookFiles) -> (r: HookInstall)
    ensures
        forall|dir: HookDirectory|
            files.describes(dir) ==> #[trigger] r.applied(dir) == installed(dir, project@, name@),
        r.back_up == needs_backup(
            match files.hook {
                Some(text) => Some(text@),
                None => None,
            },
            files.has_orig,
            name@,
        ),
        r.chain_script@ == chain_script(name@),
        match r.cmd {
            Some(body) => !files.has_cmd && body@ == cmd_shim(name@),
            None => files.has_cmd,
        },
        match r.ps1 {
            Some(body) => !files.has_ps1 && body@ == ps1_shim(name@),
            None => files.has_ps1,
        },
        r.plugin@ == plugin_script(project@, name@),
{
    let back_up = match &files.hook {
        Some(text) => !contains(trim(text.as_str()).as_str(), sentinel(name).as_str())
            && !files.has_orig,
        None => false,
    };
    let cmd = if files.has_cmd {
        None
    } else {
        Some(
            "@echo off\r\nsetlocal\r\nset \"DIR=%~dp0\"\r\npython \"%DIR%".to_owned().concat(
                name,
            ).concat("\" %*\r\nexit /b %ERRORLEVEL%\r\n"),
        )
    };
    let ps1 = if files.has_ps1 {
        None
    } else {
        Some(
            "$ErrorActionPreference = 'Stop'\n$hook = Join-Path $PSScriptRoot '".to_owned().concat(
                name,
            ).concat("'\npython $hook @args\nexit $LASTEXITCODE\n"),
        )
    };
    HookInstall {
        back_up,
        chain_script: render_chain_runner_script(name),
        cmd,
        ps1,
        plugin: render_guard_plugin_script(project, name),
    }
}

/// An entry of a plugin directory.
pub struct PluginEntry {
    pub is_file: bool,
    /// The name, where it is text.
    pub name: Option<String>,
}

/// The entry is a file that is not the guard's plugin.
pub open spec fn is_other_plugin(entry: PluginEntry) -> bool {
    entry.is_file && entry.name is Some && entry.name->0@ != PLUGIN_FILE_NAME@
}

/// Some entry is a file that is not the guard's plugin.
pub open spec fn holds_other_plugin(entries: Seq<PluginEntry>) -> bool {
    exists|i: int| 0 <= i < entries.len() && is_other_plugin(#[trigger] entries[i])
}

pub fn has_other_plugins(entries: &Vec<PluginEntry>) -> (r: bool)
    ensures
        r == holds_other_plugin(entries@),
{
    let mut i: usize = 0;
    while i < entries.len()
        invariant
            i <= entries@.len(),
            forall|k: int| 0 <= k < i ==> !is_other_plugin(#[trigger] entries@[k]),
        decreases entries@.len() - i,
    {
        let entry = &entries[i];
        if entry.is_file {
            if let Some(name) = &entry.name {
                if !same(name.as_str(), PLUGIN_FILE_NAME) {
                    assert(is_other_plugin(entries@[i as int]));
                    return true;
                }
            }
        }
        i = i + 1;
    }
    false
}

/// What becomes of a hook when the guard is removed.
#[derive(Debug, Clone, Copy, PartialEq, Eq, Structural)]
pub enum HookRemoval {
    /// It stays: it is not ours, or other plugins need it.
    Keep,
    /// Remove it with its shims, and put `<hook>.orig` back where it exists.
    RemoveChain,
    /// Remove it with its shims.
    RemoveLegacy,
}

impl HookRemoval {
    /// The files after the removal; the plugin is removed in any case.
    pub open spec fn applied(self, dir: HookDirectory) -> HookDirectory {
        match self {
            HookRemoval::Keep => HookDirectory { plugin: None, ..dir },
            HookRemoval::RemoveChain => HookDirectory {
                hook: dir.orig,
                orig: None,
                cmd: None,
                ps1: None,
                plugin: None,
            },
            HookRemoval::RemoveLegacy => HookDirectory {
                hook: None,
                orig: dir.orig,
                cmd: None,
                ps1: None,
                plugin: None,
            },
        }
    }
}

/// The files after the guard has been removed; `others` says whether other
/// plugins are there.
pub open spec fn uninstalled(dir: HookDirectory, others: bool) -> HookDirectory {
    match dir.hook {
        Some(hook) => removal_of(hook, others).applied(dir),
        None => HookRemoval::Keep.applied(dir),
    }
}

pub open spec fn removal_of(hook: Seq<char>, others: bool) -> HookRemoval {
    let text = trimmed(hook);
    if has_text(text, "mcp-agent-mail chain-runner"@) {
        if others {
            HookRemoval::Keep
        } else {
            HookRemoval::RemoveChain
        }
    } else if is_legacy_guard(text) {
        HookRemoval::RemoveLegacy
    } else {
        HookRemoval::Keep
    }
}

/// Decides what becomes of a hook with this text. A chain runner is kept while
/// other plugins depend on it.
pub fn uninstall_guard(hook: &str, entries: &Vec<PluginEntry>) -> (r: HookRemoval)
    ensures
        r == removal_of(hook@, holds_other_plugin(entries@)),
{
    let text = trim(hook);
    if contains(text.as_str(), "mcp-agent-mail chain-runner") {
        if has_other_plugins(entries) {
            HookRemoval::Keep
        } else {
            HookRemoval::RemoveChain
        }
    } else if is_legacy_single_file_guard(text.as_str()) {
        HookRemoval::RemoveLegacy
    } else {
        HookRemoval::Keep
    }
}

/// A hook is ours: it can be read and names the guard.
pub open spec fn is_present(hook: Option<Seq<char>>) -> bool {
    hook is Some && has_text(hook->0, "mcp-agent-mail"@)
}

fn present(hook: Option<&str>) -> (r: bool)
    ensures
        r == is_present(opt_view(hook)),
{
    match hook {
        Some(text) => contains(text, "mcp-agent-mail"),
        None => false,
    }
}

/// The status of an installation. The hooks are given as text, where they can
/// be read; worktrees count as enabled where `core.hooksPath` is set at all.
pub fn guard_status(
    mode: GuardMode,
    hooks_dir: String,
    pre_commit: Option<&str>,
    pre_push: Option<&str>,
    hooks_path_set: bool,
) -> (r: GuardStatus)
    ensures
        r.worktrees_enabled == hooks_path_set,
        r.guard_mode == mode,
        r.hooks_dir == hooks_dir,
        r.pre_commit_present == is_present(opt_view(pre_commit)),
        r.pre_push_present == is_present(opt_view(pre_push)),
{
    GuardStatus {
        worktrees_enabled: hooks_path_set,
        guard_mode: mode,
        hooks_dir,
        pre_commit_present: present(pre_commit),
        pre_push_present: present(pre_push),
    }
}

proof fn lemma_has_middle(a: Seq<char>, m: Seq<char>, b: Seq<char>)
    ensures
        has_text(a + m + b, m),
{
    let s = a + m + b;
    let at = a.len() as int;
    assert(s.subrange(at, at + m.len()) =~= m);
    assert(occurs_at(s, m, at));
}

proof fn lemma_trim_of_script(body: Seq<char>, last: Seq<char>)
    requires
        body.len() > 0,
        body[0] == '#',
        last.len() > 0,
        !is_space(last.last()),
    ensures
        trimmed(body + last + "\n"@) == body + last,
{
    reveal_strlit("\n");
    let s = body + last + "\n"@;
    assert(!is_space(s[0]));
    assert(trimmed_start(s) == s);
    assert(s.last() == '\n');
    assert(s.drop_last() =~= body + last);
    assert((body + last).last() == last.last());
    assert(trimmed_end(s) == trimmed_end(body + last));
}

/// The guard knows its own hook: what it writes is recognised when it is
/// installed again, so that it is not kept aside as a foreign hook; when the
/// guard is removed; and when its status is asked for.
pub proof fn law_written_hook_is_recognised(name: Seq<char>, others: bool)
    ensures
        has_text(trimmed(chain_script(name)), chain_sentinel(name)),
        removal_of(chain_script(name), others) == (if others {
            HookRemoval::Keep
        } else {
            HookRemoval::RemoveChain
        }),
        is_present(Some(chain_script(name))),
{
    let script = chain_script(name);
    let tail = "sys.exit(first_failure)"@;
    let mid = crate::chain_runner::CHAIN_IMPORTS@ + name + "'\nORIG = HOOK_DIR / '"@ + name
        + crate::chain_runner::CHAIN_HELPERS@ + (if name == "pre-push"@ {
        crate::chain_runner::CHAIN_PUSH_BODY@
    } else {
        crate::chain_runner::CHAIN_BODY@
    });
    let head = CHAIN_SHEBANG@;
    let mark = chain_sentinel(name);
    let body = head + mark + mid;
    assert(script =~= body + tail + "\n"@);
    assert(body.len() > 0 && body[0] == '#') by {
        reveal_strlit("#!/usr/bin/env python3\n# ");
    }
    assert(!is_space(tail.last()) && tail.len() > 0) by {
        reveal_strlit("sys.exit(first_failure)");
    }
    lemma_trim_of_script(body, tail);
    let text = body + tail;
    assert(trimmed(script) == text);
    assert(text =~= head + mark + (mid + tail));
    lemma_has_middle(head, mark, mid + tail);
    let word = "mcp-agent-mail chain-runner"@;
    let rest = " ("@ + name + ")"@;
    assert(mark =~= word + rest);
    assert(text =~= head + word + (rest + mid + tail));
    lemma_has_middle(head, word, rest + mid + tail);
    let short = "mcp-agent-mail"@;
    let more = word.skip(short.len() as int);
    assert(word =~= short + more) by {
        reveal_strlit("mcp-agent-mail chain-runner");
        reveal_strlit("mcp-agent-mail");
    }
    assert(script =~= head + short + (more + rest + mid + tail + "\n"@));
    lemma_has_middle(head, short, more + rest + mid + tail + "\n"@);
}

/// Installing twice is installing once.
pub proof fn law_install_is_idempotent(dir: HookDirectory, project: Seq<char>, name: Seq<char>)
    ensures
        installed(installed(dir, project, name), project, name) == installed(dir, project, name),
{
    law_written_hook_is_recognised(name, false);
}

/// Removing the guard undoes its installation: the hook that was there before
/// is back, or there is none where there was none, and nothing of the guard is
/// left. Shims that were there before go too.
pub proof fn law_removal_undoes_installation(
    dir: HookDirectory,
    project: Seq<char>,
    name: Seq<char>,
)
    requires
        dir.orig is None,
        dir.hook matches Some(text) ==> !has_text(trimmed(text), chain_sentinel(name)),
    ensures
        uninstalled(installed(dir, project, name), false) == (HookDirectory {
            hook: dir.hook,
            orig: None,
            cmd: None,
            ps1: None,
            plugin: None,
        }),
{
    law_written_hook_is_recognised(name, false);
}

/// While other plugins need it, the removal of the guard takes its plugin away
/// and nothing else.
pub proof fn law_other_plugins_keep_the_chain(
    dir: HookDirectory,
    project: Seq<char>,
    name: Seq<char>,
)
    ensures
        uninstalled(installed(dir, project, name), true) == (HookDirectory {
            plugin: None,
            ..installed(dir, project, name)
        }),
{
    law_written_hook_is_recognised(name, true);
}

/// Where home is: by `HOME`, or else by `USERPROFILE`, or else by a drive and a
/// path together.
pub proof fn law_home_comes_first(
    home: bool,
    user_profile: bool,
    home_drive: bool,
    home_path: bool,
    r: HomeSource,
)
    requires
        call_ensures(home_dir, (home, user_profile, home_drive, home_path), r),
    ensures
        r == HomeSource::Home <==> home,
        r == HomeSource::UserProfile <==> !home && user_profile,
        r == HomeSource::DriveAndPath <==> !home && !user_profile && home_drive && home_path,
{
}

/// A tilde, alone or before a slash, stands for a home that is known; nothing
/// else is changed.
pub proof fn law_a_tilde_is_home(path: &str, rest: Seq<char>, r: ExpandedPath, unknown: ExpandedPath)
    requires
        call_ensures(expand_user, (path, true), r),
        call_ensures(expand_user, (path, false), unknown),
    ensures
        path@ == seq!['~'] ==> r is Home,
        path@ == seq!['~', '/'] + rest ==> (r matches ExpandedPath::BelowHome(below) && below@
            == rest),
        path@.len() == 0 || path@[0] != '~' || (path@.len() > 1 && path@[1] != '/') ==> (r matches
            ExpandedPath::Plain(p) && p@ == path@),
        unknown matches ExpandedPath::Plain(p) && p@ == path@,
{
    reveal_strlit("~");
    reveal_strlit("~/");
    assert(seq!['~'] =~= "~"@);
    assert(seq!['~', '/'] =~= "~/"@);
    if path@ == seq!['~', '/'] + rest {
        assert("~/"@.is_prefix_of(path@));
        assert(path@ != "~"@);
        if r is BelowHome {
            assert(r->BelowHome_0@ =~= rest) by {
                assert(("~/"@ + r->BelowHome_0@).skip(2) =~= r->BelowHome_0@);
                assert(("~/"@ + rest).skip(2) =~= rest);
            }
        }
    }
    if path@ == seq!['~'] {
        if r is BelowHome {
            assert(path@.len() >= 2);
        }
    }
    if r is BelowHome {
        assert(path@[0] == '~' && path@[1] == '/');
    }
}

/// The common directory is where the trimmed text says, unless that is blank.
pub proof fn law_a_blank_commondir_says_nothing(commondir: Option<&str>, r: Option<String>)
    requires
        call_ensures(resolve_common_git_dir, (commondir,), r),
    ensures
        r is Some <==> commondir is Some && trimmed(commondir->0@).len() > 0,
        r is Some ==> r->0@ == trimmed(commondir->0@),
{
}

/// Only a repository that exists, and has a working tree, is guarded; the
/// error names the path.
pub proof fn law_only_working_trees_are_guarded(
    exists_: bool,
    is_bare: bool,
    has_workdir: bool,
    path: &str,
    found: GuardResult<()>,
    tree: GuardResult<()>,
)
    requires
        call_ensures(require_existing, (exists_, path), found),
        call_ensures(require_worktree, (is_bare, has_workdir, path), tree),
    ensures
        found is Ok <==> exists_,
        tree is Ok <==> has_workdir && !is_bare,
        found matches Err(e) ==> (e matches GuardError::InvalidRepo { path: p } && p@ == path@),
        tree matches Err(e) ==> (e matches GuardError::InvalidRepo { path: p } && p@ == path@),
{
}

/// Hooks live where they are configured to, unless that is blank. A guard is
/// installed there only if the setting is the repository's own, its
/// worktree's or the program's, or sharing is allowed.
pub proof fn law_a_shared_directory_is_refused(
    hooks_path: Option<&str>,
    level: ConfigLevel,
    allow_global: bool,
    place: HooksDir,
    r: GuardResult<HooksDir>,
)
    requires
        call_ensures(resolve_hooks_dir, (hooks_path,), place),
        call_ensures(resolve_install_hooks_dir, (hooks_path, level, allow_global), r),
    ensures
        place is Configured <==> hooks_path is Some && trimmed(hooks_path->0@).len() > 0,
        place matches HooksDir::Configured(p) ==> p@ == trimmed(hooks_path->0@),
        r is Err <==> place is Configured && !allow_global && level != ConfigLevel::Local && level
            != ConfigLevel::Worktree && level != ConfigLevel::App,
        r matches Ok(dir) ==> (dir is Configured <==> place is Configured) && (dir matches
            HooksDir::Configured(p) ==> p@ == trimmed(hooks_path->0@)),
        r matches Err(e) ==> (e matches GuardError::GlobalHooksPath { hooks_path: h, origin } && h@
            == trimmed(hooks_path->0@) && (level == ConfigLevel::System ==> origin@ == "system"@)
            && (level == ConfigLevel::Global ==> origin@ == "global"@) && (level
            == ConfigLevel::XDG ==> origin@ == "XDG"@) && (level == ConfigLevel::ProgramData || level
            == ConfigLevel::Highest ==> origin@ == "inherited"@)),
{
}

/// A yes is one, `true`, `t`, `yes` or `y`, in any case of its letters and with
/// white space around it, and nothing else.
pub proof fn law_what_means_yes(value: Option<&str>, r: bool, shared: bool)
    requires
        call_ensures(is_truthy_value, (value,), r),
        call_ensures(env_allows_global_hookspath, (value,), shared),
    ensures
        shared == r,
        r <==> value is Some && ({
            let t = trimmed(value->0@);
            ||| same_ignoring_ascii_case(t, "1"@)
            ||| same_ignoring_ascii_case(t, "true"@)
            ||| same_ignoring_ascii_case(t, "t"@)
            ||| same_ignoring_ascii_case(t, "yes"@)
            ||| same_ignoring_ascii_case(t, "y"@)
        }),
{
    reveal_strlit("1");
    reveal_strlit("true");
    reveal_strlit("t");
    reveal_strlit("yes");
    reveal_strlit("y");
    assert(ascii_lower("1"@) =~= "1"@);
    assert(ascii_lower("true"@) =~= "true"@);
    assert(ascii_lower("t"@) =~= "t"@);
    assert(ascii_lower("yes"@) =~= "yes"@);
    assert(ascii_lower("y"@) =~= "y"@);
}

/// An installation loses nothing: a foreign hook is kept aside, what was kept
/// aside before stays, and so do shims. The new hook is the chain runner of
/// its name, the plugin that of its name and project, and missing shims run
/// the hook.
pub proof fn law_an_installation_loses_nothing(
    project: &str,
    name: &str,
    files: &HookFiles,
    dir: HookDirectory,
    chain: String,
    plugin: String,
    r: HookInstall,
)
    requires
        dir.hook == (match files.hook {
            Some(text) => Some(text@),
            None => None,
        }),
        files.has_orig <==> dir.orig is Some,
        files.has_cmd <==> dir.cmd is Some,
        files.has_ps1 <==> dir.ps1 is Some,
        call_ensures(render_chain_runner_script, (name,), chain),
        call_ensures(render_guard_plugin_script, (project, name), plugin),
        call_ensures(install_guard, (project, name, files), r),
    ensures
        ({
            let after = r.applied(dir);
            &&& dir.orig is Some ==> after.orig == dir.orig
            &&& dir.orig is None && dir.hook is None ==> after.orig is None
            &&& dir.orig is None && dir.hook is Some && !has_text(
                dir.hook->0,
                "mcp-agent-mail chain-runner ("@ + name@ + ")"@,
            ) ==> after.orig == dir.hook
            &&& dir.hook == Some(chain@) ==> after.orig == dir.orig
            &&& after.hook == Some(chain@)
            &&& after.plugin == Some(plugin@)
            &&& dir.cmd is Some ==> after.cmd == dir.cmd
            &&& dir.ps1 is Some ==> after.ps1 == dir.ps1
            &&& dir.cmd is None ==> after.cmd is Some && has_text(
                after.cmd->0,
                "python \"%DIR%"@ + name@ + "\" %*"@,
            )
            &&& dir.ps1 is None ==> after.ps1 is Some && has_text(
                after.ps1->0,
                "$hook = Join-Path $PSScriptRoot '"@ + name@ + "'\npython $hook @args"@,
            )
        }),
{
    assert(files.describes(dir));
    law_written_hook_is_recognised(name@, false);
    lemma_sentinel_is_one_text(name@);
    let mark = chain_sentinel(name@);
    if dir.hook is Some {
        let text = dir.hook->0;
        if has_text(trimmed(text), mark) {
            lemma_trimmed_is_inside(text, mark);
        }
    }
    lemma_shims_run_the_hook(name@);
}

proof fn lemma_sentinel_is_one_text(name: Seq<char>)
    ensures
        chain_sentinel(name) == "mcp-agent-mail chain-runner ("@ + name + ")"@,
{
    reveal_strlit("mcp-agent-mail chain-runner (");
    reveal_strlit("mcp-agent-mail chain-runner");
    reveal_strlit(" (");
    assert("mcp-agent-mail chain-runner ("@ =~= "mcp-agent-mail chain-runner"@ + " ("@);
}

proof fn lemma_trimmed_end_is_inside(s: Seq<char>)
    ensures
        trimmed_end(s).is_prefix_of(s),
    decreases s.len(),
{
    if s.len() > 0 && is_space(s.last()) {
        lemma_trimmed_end_is_inside(s.drop_last());
    }
}

proof fn lemma_trimmed_start_is_inside(s: Seq<char>)
    ensures
        trimmed_start(s).is_suffix_of(s),
    decreases s.len(),
{
    if s.len() > 0 && is_space(s[0]) {
        lemma_trimmed_start_is_inside(s.skip(1));
        let t = trimmed_start(s.skip(1));
        assert(s.skip(s.len() - t.len()) =~= s.skip(1).skip(s.skip(1).len() - t.len()));
    } else {
        assert(s.skip(0) =~= s);
    }
}

/// What the trimmed text holds, the text holds.
proof fn lemma_trimmed_is_inside(s: Seq<char>, t: Seq<char>)
    requires
        has_text(trimmed(s), t),
    ensures
        has_text(s, t),
{
    let a = trimmed_start(s);
    let b = trimmed_end(s);
    lemma_trimmed_start_is_inside(s);
    lemma_trimmed_end_is_inside(s);
    lemma_trimmed_end_is_inside(a);
    lemma_trimmed_start_is_inside(b);
    let c = trimmed(s);
    let i = choose|i: int| occurs_at(c, t, i);
    let off = s.len() - a.len();
    assert(s.subrange(off + i, off + i + t.len()) =~= c.subrange(i, i + t.len()));
    assert(occurs_at(s, t, off + i));
}

proof fn lemma_shims_run_the_hook(name: Seq<char>)
    ensures
        has_text(cmd_shim(name), "python \"%DIR%"@ + name + "\" %*"@),
        has_text(
            ps1_shim(name),
            "$hook = Join-Path $PSScriptRoot '"@ + name + "'\npython $hook @args"@,
        ),
{
    reveal_strlit("@echo off\r\nsetlocal\r\nset \"DIR=%~dp0\"\r\npython \"%DIR%");
    reveal_strlit("\" %*\r\nexit /b %ERRORLEVEL%\r\n");
    reveal_strlit("python \"%DIR%");
    reveal_strlit("\" %*");
    let a = "@echo off\r\nsetlocal\r\nset \"DIR=%~dp0\"\r\npython \"%DIR%"@;
    let b = "\" %*\r\nexit /b %ERRORLEVEL%\r\n"@;
    let a2 = "python \"%DIR%"@;
    let b2 = "\" %*"@;
    assert(a =~= a.take(a.len() - a2.len()) + a2);
    assert(b =~= b2 + b.skip(b2.len() as int));
    assert(cmd_shim(name) =~= a.take(a.len() - a2.len()) + (a2 + name + b2) + b.skip(
        b2.len() as int,
    ));
    lemma_has_middle(a.take(a.len() - a2.len()), a2 + name + b2, b.skip(b2.len() as int));
    lemma_ps1_runs_the_hook(name);
}

proof fn lemma_ps1_runs_the_hook(name: Seq<char>)
    ensures
        has_text(
            ps1_shim(name),
            "$hook = Join-Path $PSScriptRoot '"@ + name + "'\npython $hook @args"@,
        ),
{
    reveal_strlit("$ErrorActionPreference = 'Stop'\n$hook = Join-Path $PSScriptRoot '");
    reveal_strlit("'\npython $hook @args\nexit $LASTEXITCODE\n");
    reveal_strlit("$hook = Join-Path $PSScriptRoot '");
    reveal_strlit("'\npython $hook @args");
    let a = "$ErrorActionPreference = 'Stop'\n$hook = Join-Path $PSScriptRoot '"@;
    let b = "'\npython $hook @args\nexit $LASTEXITCODE\n"@;
    let a2 = "$hook = Join-Path $PSScriptRoot '"@;
    let b2 = "'\npython $hook @args"@;
    assert(a =~= a.take(a.len() - a2.len()) + a2);
    assert(b =~= b2 + b.skip(b2.len() as int));
    assert(ps1_shim(name) =~= a.take(a.len() - a2.len()) + (a2 + name + b2) + b.skip(
        b2.len() as int,
    ));
    lemma_has_middle(a.take(a.len() - a2.len()), a2 + name + b2, b.skip(b2.len() as int));
}

/// A removal touches only what is the guard's: any other hook stays, the chain
/// runner stays while there is another plugin, and a guard of the old kind
/// goes.
pub proof fn law_a_removal_touches_only_the_guard(
    hook: &str,
    entries: &Vec<PluginEntry>,
    others: bool,
    legacy: bool,
    r: HookRemoval,
)
    requires
        call_ensures(has_other_plugins, (entries,), others),
        call_ensures(is_legacy_single_file_guard, (hook,), legacy),
        call_ensures(uninstall_guard, (hook, entries), r),
    ensures
        others <==> exists|i: int|
            0 <= i < entries@.len() && (#[trigger] entries@[i]).is_file && entries@[i].name is Some
                && entries@[i].name->0@ != "50-agent-mail.py"@,
        legacy <==> has_text(hook@, "mcp-agent-mail guard hook"@) || has_text(
            hook@,
            "AGENT_NAME environment variable is required."@,
        ),
        !has_text(hook@, "mcp-agent-mail chain-runner"@) && !legacy ==> r == HookRemoval::Keep,
        has_text(trimmed(hook@), "mcp-agent-mail chain-runner"@) && others ==> r
            == HookRemoval::Keep,
        has_text(trimmed(hook@), "mcp-agent-mail chain-runner"@) && !others ==> r
            == HookRemoval::RemoveChain,
        !has_text(hook@, "mcp-agent-mail chain-runner"@) && has_text(
            trimmed(hook@),
            "mcp-agent-mail guard hook"@,
        ) ==> r == HookRemoval::RemoveLegacy,
        r == HookRemoval::RemoveLegacy ==> legacy,
{
    assert(others == holds_other_plugin(entries@));
    assert forall|i: int| 0 <= i < entries@.len() implies (is_other_plugin(#[trigger] entries@[i])
        <==> entries@[i].is_file && entries@[i].name is Some && entries@[i].name->0@
        != "50-agent-mail.py"@) by {
    }
    let text = trimmed(hook@);
    if has_text(text, "mcp-agent-mail chain-runner"@) {
        lemma_trimmed_is_inside(hook@, "mcp-agent-mail chain-runner"@);
    }
    if has_text(text, "mcp-agent-mail guard hook"@) {
        lemma_trimmed_is_inside(hook@, "mcp-agent-mail guard hook"@);
    }
    if has_text(text, "AGENT_NAME environment variable is required."@) {
        lemma_trimmed_is_inside(hook@, "AGENT_NAME environment variable is required."@);
    }
}

/// The status tells of each hook whether it names the guard, and hands on the
/// rest.
pub proof fn law_the_status_tells_each_hook(
    mode: GuardMode,
    hooks_dir: String,
    pre_commit: Option<&str>,
    pre_push: Option<&str>,
    hooks_path_set: bool,
    r: GuardStatus,
)
    requires
        call_ensures(guard_status, (mode, hooks_dir, pre_commit, pre_push, hooks_path_set), r),
    ensures
        r.pre_commit_present <==> pre_commit is Some && has_text(pre_commit->0@, "mcp-agent-mail"@),
        r.pre_push_present <==> pre_push is Some && has_text(pre_push->0@, "mcp-agent-mail"@),
        r.worktrees_enabled == hooks_path_set && r.guard_mode == mode && r.hooks_dir == hooks_dir,
{
}

/// The hook of commits is always installed, that of pushes where it is asked
/// for, behind it.
pub proof fn law_which_hooks_are_installed(with: Vec<String>, without: Vec<String>)
    requires
        call_ensures(hooks_to_install, (true,), with),
        call_ensures(hooks_to_install, (false,), without),
    ensures
        views(with@) == seq!["pre-commit"@, "pre-push"@],
        views(without@) == seq!["pre-commit"@],
{
}

/// A hook is written under a hidden name that holds the process, so that two
/// processes use two files.
pub proof fn law_temporary_files_differ(file_name: &str, pid: u32, other: u32, a: String, b: String)
    requires
        call_ensures(guard_temp_name, (file_name, pid), a),
        call_ensures(guard_temp_name, (file_name, other), b),
    ensures
        a@ == b@ ==> pid == other,
        (seq!['.'] + file_name@ + seq!['.']).is_prefix_of(a@),
        seq!['.', 't', 'm', 'p'].is_suffix_of(a@),
{
    reveal_strlit(".");
    reveal_strlit(".tmp");
    assert("."@ =~= seq!['.']);
    assert(".tmp"@ =~= seq!['.', 't', 'm', 'p']);
    let front = "."@ + file_name@ + "."@;
    let d = crate::numbers::decimal(pid as nat);
    let e = crate::numbers::decimal(other as nat);
    assert(a@ == front + d + ".tmp"@);
    assert(b@ == front + e + ".tmp"@);
    assert(a@ =~= front + (d + ".tmp"@));
    assert(a@.skip(a@.len() - 4) =~= ".tmp"@);
    if a@ == b@ {
        assert(d.len() == e.len());
        assert(a@.subrange(front.len() as int, front.len() as int + d.len()) =~= d);
        assert(b@.subrange(front.len() as int, front.len() as int + e.len()) =~= e);
        crate::numbers::lemma_decimal_parses(pid as nat, u32::MAX as int);
        crate::numbers::lemma_decimal_parses(other as nat, u32::MAX as int);
    }
}

/// A directory of hooks that other repositories share is refused unless that
/// is allowed; one of this repository never is.
pub proof fn law_which_levels_are_refused(level: ConfigLevel, refused: bool, allowed: bool)
    requires
        call_ensures(hookspath_level_refuses_install, (level, false), refused),
        call_ensures(hookspath_level_refuses_install, (level, true), allowed),
    ensures
        !allowed,
        !refused <==> level == ConfigLevel::Local || level == ConfigLevel::Worktree || level
            == ConfigLevel::App,
{
}

/// A level is told by its name, and the two that have none as inherited.
pub proof fn law_levels_are_told_by_name(level: ConfigLevel, r: &'static str)
    requires
        call_ensures(config_level_label, (level,), r),
    ensures
        level == ConfigLevel::System ==> r@ == "system"@,
        level == ConfigLevel::XDG ==> r@ == "XDG"@,
        level == ConfigLevel::Global ==> r@ == "global"@,
        level == ConfigLevel::Local ==> r@ == "local"@,
        level == ConfigLevel::Worktree ==> r@ == "worktree"@,
        level == ConfigLevel::App ==> r@ == "app"@,
        level == ConfigLevel::ProgramData || level == ConfigLevel::Highest ==> r@ == "inherited"@,
{
}

/// What an installation plans: the chain runner and the plugin are written in
/// any case, a shim only where there is none, and the hook is kept aside only
/// where nothing is yet and it is not the guard's own.
pub proof fn law_what_an_installation_plans(
    project: &str,
    name: &str,
    files: &HookFiles,
    chain: String,
    plugin: String,
    r: HookInstall,
)
    requires
        call_ensures(render_chain_runner_script, (name,), chain),
        call_ensures(render_guard_plugin_script, (project, name), plugin),
        call_ensures(install_guard, (project, name, files), r),
    ensures
        r.chain_script@ == chain@,
        r.plugin@ == plugin@,
        r.cmd is Some <==> !files.has_cmd,
        r.ps1 is Some <==> !files.has_ps1,
        r.back_up ==> !files.has_orig && files.hook is Some && files.hook->0@ != chain@,
        files.hook is Some && !files.has_orig && !has_text(
            files.hook->0@,
            "mcp-agent-mail chain-runner ("@ + name@ + ")"@,
        ) ==> r.back_up,
{
    law_written_hook_is_recognised(name@, false);
    lemma_sentinel_is_one_text(name@);
    let mark = chain_sentinel(name@);
    if files.hook is Some {
        let text = files.hook->0@;
        if has_text(trimmed(text), mark) {
            lemma_trimmed_is_inside(text, mark);
        }
    }
    let dir = HookDirectory {
        hook: match files.hook {
            Some(text) => Some(text@),
            None => None,
        },
        orig: if files.has_orig {
            Some(chain@)
        } else {
            None
        },
        cmd: if files.has_cmd {
            Some(chain@)
        } else {
            None
        },
        ps1: if files.has_ps1 {
            Some(chain@)
        } else {
            None
        },
        plugin: None,
    };
    assert(files.describes(dir));
    assert(r.applied(dir) == installed(dir, project@, name@));
}

} // verus!
