//! The guard's vocabulary: errors, modes, reservations and conflicts.

use vstd::prelude::*;

use crate::text::{ascii_lower, same, to_ascii_lower, trim, trimmed};

verus! {

/// Why a guard operation failed.
#[derive(Debug)]
pub enum GuardError {
    NotImplemented,
    InvalidRepo { path: String },
    InvalidReservationPattern { pattern: String, error: String },
    MissingAgentName,
    GlobalHooksPath { hooks_path: String, origin: String },
    PushScanTruncated { detail: String },
    Git { message: String },
    Io { message: String },
    Json { message: String },
}

impl GuardError {
    /// The message that is shown for the error.
    pub open spec fn text(&self) -> Seq<char> {
        match self {
            GuardError::NotImplemented => "not implemented"@,
            GuardError::InvalidRepo { path } => "invalid repository path: "@ + path@,
            GuardError::InvalidReservationPattern { pattern, error } =>
                "invalid reservation pattern '"@ + pattern@ + "': "@ + error@,
            GuardError::MissingAgentName => "missing AGENT_NAME env var"@,
            GuardError::GlobalHooksPath { hooks_path, origin } =>
                "refusing to install a per-project guard into the machine-wide hooks directory '"@
                    + hooks_path@ + "' configured by "@ + origin@
                    + " core.hooksPath: every repository on this machine would run this project's reservation guard. Either set a repo-local hooks path first (`git config --local core.hooksPath <dir>`), or explicitly allow the shared directory with AGENT_MAIL_GUARD_ALLOW_GLOBAL_HOOKSPATH=1."@,
            GuardError::PushScanTruncated { detail } =>
                "pre-push scan was truncated, so part of the push was not checked against file reservations: "@
                    + detail@,
            GuardError::Git { message } => "git error: "@ + message@,
            GuardError::Io { message } => "io error: "@ + message@,
            GuardError::Json { message } => "json error: "@ + message@,
        }
    }

    pub fn message(&self) -> (r: String)
        ensures
            r@ == self.text(),
    {
        match self {
            GuardError::NotImplemented => "not implemented".to_owned(),
            GuardError::InvalidRepo { path } => "invalid repository path: ".to_owned().concat(
                path.as_str(),
            ),
            GuardError::InvalidReservationPattern { pattern, error } =>
                "invalid reservation pattern '".to_owned().concat(pattern.as_str()).concat(
                "': ",
            ).concat(error.as_str()),
            GuardError::MissingAgentName => "missing AGENT_NAME env var".to_owned(),
            GuardError::GlobalHooksPath { hooks_path, origin } =>
                "refusing to install a per-project guard into the machine-wide hooks directory '".to_owned().concat(
                hooks_path.as_str(),
            ).concat("' configured by ").concat(origin.as_str()).concat(
                " core.hooksPath: every repository on this machine would run this project's reservation guard. Either set a repo-local hooks path first (`git config --local core.hooksPath <dir>`), or explicitly allow the shared directory with AGENT_MAIL_GUARD_ALLOW_GLOBAL_HOOKSPATH=1.",
            ),
            GuardError::PushScanTruncated { detail } =>
                "pre-push scan was truncated, so part of the push was not checked against file reservations: ".to_owned().concat(
                detail.as_str(),
            ),
            GuardError::Git { message } => "git error: ".to_owned().concat(message.as_str()),
            GuardError::Io { message } => "io error: ".to_owned().concat(message.as_str()),
            GuardError::Json { message } => "json error: ".to_owned().concat(message.as_str()),
        }
    }
}

pub type GuardResult<T> = Result<T, GuardError>;

/// Whether a conflict blocks the operation or only warns.
#[derive(Debug, Clone, Copy, PartialEq, Eq, Structural)]
pub enum GuardMode {
    Block,
    Warn,
}

impl GuardMode {
    pub open spec fn of_value(value: Option<Seq<char>>) -> GuardMode {
        if value is Some && ascii_lower(trimmed(value->0)) == "warn"@ {
            GuardMode::Warn
        } else {
            GuardMode::Block
        }
    }

    /// The mode that a configured value selects: `warn`, in any case and with
    /// white space around it, warns; everything else, and no value, blocks.
    pub fn from_value(value: Option<&str>) -> (r: Self)
        ensures
            r == GuardMode::of_value(
                match value {
                    Some(v) => Some(v@),
                    None => None,
                },
            ),
    {
        match value {
            Some(v) => {
                if same(to_ascii_lower(trim(v).as_str()).as_str(), "warn") {
                    GuardMode::Warn
                } else {
                    GuardMode::Block
                }
            },
            None => GuardMode::Block,
        }
    }
}

/// What is installed in a repository.
#[derive(Debug)]
pub struct GuardStatus {
    pub worktrees_enabled: bool,
    pub guard_mode: GuardMode,
    pub hooks_dir: String,
    pub pre_commit_present: bool,
    pub pre_push_present: bool,
}

impl Clone for GuardStatus {
    fn clone(&self) -> (r: Self)
        ensures
            r == *self,
    {
        GuardStatus {
            worktrees_enabled: self.worktrees_enabled,
            guard_mode: self.guard_mode,
            hooks_dir: self.hooks_dir.clone(),
            pre_commit_present: self.pre_commit_present,
            pre_push_present: self.pre_push_present,
        }
    }
}

/// A path that somebody else has reserved.
#[derive(Debug)]
pub struct GuardConflict {
    pub path: String,
    pub pattern: String,
    pub holder: String,
    pub expires_ts: String,
}

impl Clone for GuardConflict {
    fn clone(&self) -> (r: Self)
        ensures
            r == *self,
    {
        GuardConflict {
            path: self.path.clone(),
            pattern: self.pattern.clone(),
            holder: self.holder.clone(),
            expires_ts: self.expires_ts.clone(),
        }
    }
}

/// The contents of a conflict.
#[verifier::ext_equal]
pub struct Conflict {
    pub path: Seq<char>,
    pub pattern: Seq<char>,
    pub holder: Seq<char>,
    pub expires_ts: Seq<char>,
}

impl View for GuardConflict {
    type V = Conflict;

    open spec fn view(&self) -> Conflict {
        Conflict {
            path: self.path@,
            pattern: self.pattern@,
            holder: self.holder@,
            expires_ts: self.expires_ts@,
        }
    }
}

/// A file reservation of the archive.
#[derive(Debug)]
pub struct FileReservationRecord {
    pub path_pattern: String,
    pub agent_name: String,
    pub exclusive: bool,
    pub expires_ts: String,
    pub released_ts: Option<String>,
    /// The normal form of `path_pattern`, computed once.
    pub normalized_pattern: String,
    /// Whether `path_pattern` holds a glob metacharacter, computed once.
    pub has_glob: bool,
}

impl Clone for FileReservationRecord {
    fn clone(&self) -> (r: Self)
        ensures
            r == *self,
    {
        FileReservationRecord {
            path_pattern: self.path_pattern.clone(),
            agent_name: self.agent_name.clone(),
            exclusive: self.exclusive,
            expires_ts: self.expires_ts.clone(),
            released_ts: match &self.released_ts {
                Some(t) => Some(t.clone()),
                None => None,
            },
            normalized_pattern: self.normalized_pattern.clone(),
            has_glob: self.has_glob,
        }
    }
}

/// The result of a full guard check.
#[derive(Debug)]
pub struct GuardCheckResult {
    pub conflicts: Vec<GuardConflict>,
    pub mode: GuardMode,
    pub bypassed: bool,
    pub gated: bool,
}

/// Only `warn`, in any case of its letters and with white space around it,
/// makes the guard warn; everything else makes it block.
pub proof fn law_only_warn_warns(value: Option<&str>, r: GuardMode)
    requires
        call_ensures(GuardMode::from_value, (value,), r),
    ensures
        r == GuardMode::Warn <==> value is Some && crate::text::same_ignoring_ascii_case(
            trimmed(value->0@),
            "warn"@,
        ),
{
    reveal_strlit("warn");
    assert(ascii_lower("warn"@) =~= "warn"@);
}

/// Every message says what went wrong, with what.
pub proof fn law_messages_say_what_failed(e: GuardError, r: String)
    requires
        call_ensures(GuardError::message, (&e,), r),
    ensures
        e is NotImplemented ==> r@ == "not implemented"@,
        e is MissingAgentName ==> r@ == "missing AGENT_NAME env var"@,
        e matches GuardError::InvalidRepo { path } ==> r@ == "invalid repository path: "@ + path@,
        e matches GuardError::InvalidReservationPattern { pattern, error } ==> r@
            == "invalid reservation pattern '"@ + pattern@ + "': "@ + error@,
        e matches GuardError::GlobalHooksPath { hooks_path, origin } ==> (
        "refusing to install a per-project guard into the machine-wide hooks directory '"@
            + hooks_path@ + "' configured by "@ + origin@).is_prefix_of(r@),
        e matches GuardError::PushScanTruncated { detail } ==> detail@.is_suffix_of(r@),
        e matches GuardError::Git { message } ==> r@ == "git error: "@ + message@,
        e matches GuardError::Io { message } ==> r@ == "io error: "@ + message@,
        e matches GuardError::Json { message } ==> r@ == "json error: "@ + message@,
{
}

} // verus!
