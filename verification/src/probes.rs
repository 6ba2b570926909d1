//! The startup probes: what each makes of what was found, and which of them
//! run.

use vstd::prelude::*;
use vstd::utf8::encode_utf8;

use crate::integrity::{compact_detail, compact_probe_detail};
use crate::numbers::{decimal, parse_u64, parsed_unsigned, print_u128, print_u64};
use crate::processes::LockHolder;
use crate::report::{ProbeFailure, ProbeResult};
use crate::text::{
    contains, debug_text, ends_with, has_text, lines, lines_of, same, show_debug, split_whitespace,
    starts_with, views, words,
};

verus! {

/// A result of a probe that passed.
pub(crate) fn pass(name: &'static str) -> (r: ProbeResult)
    ensures
        r.passed(name@),
{
    ProbeResult::Pass { name }
}

/// A result of a probe that failed.
pub(crate) fn fail(name: &'static str, problem: String, fix: String) -> (r: ProbeResult)
    ensures
        r.failed(name@, problem@, fix@),
{
    ProbeResult::Fail(ProbeFailure { name, problem, fix })
}

/// Checks that the HTTP path starts and ends with a slash.
pub fn probe_http_path(path: &str) -> (r: ProbeResult)
    ensures
        if path@.len() == 0 || path@[0] != '/' {
            r.failed(
                "http-path"@,
                "HTTP path "@ + debug_text(path@) + " must start with '/'"@,
                "Set HTTP_PATH to a value like '/mcp/' or '/api/'"@,
            )
        } else if path@.last() != '/' {
            r.failed(
                "http-path"@,
                "HTTP path "@ + debug_text(path@) + " should end with '/'"@,
                "Set HTTP_PATH=\""@ + path@ + "/\" (append trailing slash)"@,
            )
        } else {
            r.passed("http-path"@)
        },
{
    proof {
        reveal_strlit("/");
        assert("/"@.len() == 1 && "/"@[0] == '/');
        if path@.len() > 0 {
            assert("/"@.is_prefix_of(path@) == (path@[0] == '/')) by {
                if path@[0] == '/' {
                    assert(path@.subrange(0, 1) =~= "/"@);
                }
            }
            assert("/"@.is_suffix_of(path@) == (path@.last() == '/')) by {
                if path@.last() == '/' {
                    assert(path@.subrange(path@.len() - 1, path@.len() as int) =~= "/"@);
                }
            }
        }
    }
    if !starts_with(path, "/") {
        fail(
            "http-path",
            "HTTP path ".to_owned().concat(show_debug(path).as_str()).concat(
                " must start with '/'",
            ),
            "Set HTTP_PATH to a value like '/mcp/' or '/api/'".to_owned(),
        )
    } else if !ends_with(path, "/") {
        fail(
            "http-path",
            "HTTP path ".to_owned().concat(show_debug(path).as_str()).concat(
                " should end with '/'",
            ),
            "Set HTTP_PATH=\"".to_owned().concat(path).concat("/\" (append trailing slash)"),
        )
    } else {
        pass("http-path")
    }
}

/// How the trial of the storage directory went.
pub enum StorageTrial {
    /// The directory is not there and could not be made.
    NoDirectory { problem: String },
    /// A file in it could not be created or written.
    NotWritable { error: String },
    Writable,
}

/// The name of the file that the storage directory is tried with.
pub fn storage_probe_file_name(pid: u32, nonce: u128) -> (r: String)
    ensures
        r@ == ".am_startup_probe-"@ + decimal(pid as nat) + "-"@ + decimal(nonce as nat),
{
    ".am_startup_probe-".to_owned().concat(print_u64(pid as u64).as_str()).concat("-").concat(
        print_u128(nonce).as_str(),
    )
}

/// Checks that the storage directory is there and can be written.
pub fn probe_storage_root(root: &str, trial: StorageTrial) -> (r: ProbeResult)
    ensures
        match trial {
            StorageTrial::NoDirectory { problem } => r.failed(
                "storage"@,
                problem@,
                "Use a real, non-symlinked directory for STORAGE_ROOT: "@ + root@,
            ),
            StorageTrial::NotWritable { error } => r.failed(
                "storage"@,
                "Storage directory "@ + root@ + " is not writable: "@ + error@,
                "Check permissions: chmod u+w "@ + root@,
            ),
            StorageTrial::Writable => r.passed("storage"@),
        },
{
    match trial {
        StorageTrial::NoDirectory { problem } => fail(
            "storage",
            problem,
            "Use a real, non-symlinked directory for STORAGE_ROOT: ".to_owned().concat(root),
        ),
        StorageTrial::NotWritable { error } => fail(
            "storage",
            "Storage directory ".to_owned().concat(root).concat(" is not writable: ").concat(
                error.as_str(),
            ),
            "Check permissions: chmod u+w ".to_owned().concat(root),
        ),
        StorageTrial::Writable => pass("storage"),
    }
}

/// What the URL of a database leads to.
pub enum DatabaseTarget {
    /// A database in memory.
    Memory,
    /// It gives no path.
    Unresolved,
    /// A file; its path was accepted or not.
    File { path: String, accepted: Result<(), String> },
}

/// A URL of an SQLite database.
pub open spec fn is_sqlite_url(url: Seq<char>) -> bool {
    "sqlite://"@.is_prefix_of(url) || "sqlite+aiosqlite://"@.is_prefix_of(url)
}

/// What a path that was turned down is answered.
pub open spec fn real_path_advice(path: Seq<char>) -> Seq<char> {
    "Use a real, non-symlinked database path for "@ + path
}

/// Checks that the URL of the database is plausible.
pub fn probe_database(url: &str, target: DatabaseTarget) -> (r: ProbeResult)
    ensures
        if url@.len() == 0 {
            r.failed(
                "database"@,
                "DATABASE_URL is empty"@,
                "Set DATABASE_URL to a SQLite path like 'sqlite:///./storage.sqlite3'"@,
            )
        } else if !is_sqlite_url(url@) {
            r.passed("database"@)
        } else {
            match target {
                DatabaseTarget::Memory => r.passed("database"@),
                DatabaseTarget::Unresolved => r.failed(
                    "database"@,
                    "Invalid SQLite database URL: "@ + url@,
                    "Use a valid SQLite URL like 'sqlite:///./storage.sqlite3'"@,
                ),
                DatabaseTarget::File { path, accepted } => match accepted {
                    Ok(_) => r.passed("database"@),
                    Err(problem) => r.failed("database"@, problem@, real_path_advice(path@)),
                },
            }
        },
{
    if url.is_empty() {
        return fail(
            "database",
            "DATABASE_URL is empty".to_owned(),
            "Set DATABASE_URL to a SQLite path like 'sqlite:///./storage.sqlite3'".to_owned(),
        );
    }
    if starts_with(url, "sqlite://") || starts_with(url, "sqlite+aiosqlite://") {
        match target {
            DatabaseTarget::Memory => pass("database"),
            DatabaseTarget::Unresolved => fail(
                "database",
                "Invalid SQLite database URL: ".to_owned().concat(url),
                "Use a valid SQLite URL like 'sqlite:///./storage.sqlite3'".to_owned(),
            ),
            DatabaseTarget::File { path, accepted } => match accepted {
                Ok(_) => pass("database"),
                Err(problem) => fail(
                    "database",
                    problem,
                    "Use a real, non-symlinked database path for ".to_owned().concat(
                        path.as_str(),
                    ),
                ),
            },
        }
    } else {
        pass("database")
    }
}

/// Whether the database is locked.
#[derive(Debug, PartialEq, Eq)]
pub enum DbLockStatus {
    /// It is not exclusively locked.
    Available,
    /// Another process has it locked; a later try may find it free.
    Locked,
    /// There is no file yet.
    Missing,
    /// It could not be found out.
    Error(String),
}

impl Clone for DbLockStatus {
    fn clone(&self) -> (r: Self)
        ensures
            r == *self,
    {
        match self {
            DbLockStatus::Available => DbLockStatus::Available,
            DbLockStatus::Locked => DbLockStatus::Locked,
            DbLockStatus::Missing => DbLockStatus::Missing,
            DbLockStatus::Error(message) => DbLockStatus::Error(message.clone()),
        }
    }
}

/// What is found of the file of a database.
pub enum DatabaseFile {
    /// The database is in memory.
    Memory,
    /// The URL gives no path.
    Unresolved,
    Missing,
    /// It was opened, and an exclusive lock was given or refused.
    Opened { lock_given: bool },
    OpenFailed { error: String },
}

/// The status that the file of a database shows.
pub fn check_db_lock_status(file: DatabaseFile) -> (r: DbLockStatus)
    ensures
        match file {
            DatabaseFile::Memory => r is Available,
            DatabaseFile::Unresolved => r matches DbLockStatus::Error(m) && m@
                == "Failed to resolve sqlite path from DATABASE_URL"@,
            DatabaseFile::Missing => r is Missing,
            DatabaseFile::Opened { lock_given } => if lock_given {
                r is Available
            } else {
                r is Locked
            },
            DatabaseFile::OpenFailed { error } => if has_text(
                error@,
                "Resource temporarily unavailable"@,
            ) || has_text(error@, "database is locked"@) {
                r is Locked
            } else {
                r == DbLockStatus::Error(error)
            },
        },
{
    match file {
        DatabaseFile::Memory => DbLockStatus::Available,
        DatabaseFile::Unresolved => DbLockStatus::Error(
            "Failed to resolve sqlite path from DATABASE_URL".to_owned(),
        ),
        DatabaseFile::Missing => DbLockStatus::Missing,
        DatabaseFile::Opened { lock_given } => if lock_given {
            DbLockStatus::Available
        } else {
            DbLockStatus::Locked
        },
        DatabaseFile::OpenFailed { error } => if contains(
            error.as_str(),
            "Resource temporarily unavailable",
        ) || contains(error.as_str(), "database is locked") {
            DbLockStatus::Locked
        } else {
            DbLockStatus::Error(error)
        },
    }
}

/// The problem that a lock on the file of a database is.
pub open spec fn lock_problem(path: Seq<char>, holder: Option<LockHolder>) -> Seq<char> {
    match holder {
        None => "DB lock probe blocked for "@ + path
            + ": SQLite file is exclusively locked by another process"@,
        Some(h) => "DB lock probe blocked for "@ + path
            + ": SQLite file is exclusively locked by PID "@ + decimal(h.pid as nat) + " ("@
            + h.cmdline@ + ")"@,
    }
}

/// What to do about a lock on the file of a database.
pub open spec fn lock_advice(holder: Option<LockHolder>) -> Seq<char> {
    match holder {
        None =>
            "Ensure no other 'am' or 'mcp-agent-mail' instances are running with the same database, or wait for background tasks to complete."@,
        Some(h) => if h.is_python {
            "A Python process (PID "@ + decimal(h.pid as nat)
                + ") appears to hold the lock — this is likely a legacy Python HTTP worker. Stop it with `kill "@
                + decimal(h.pid as nat) + "`, then retry."@
        } else {
            "Stop the process holding the lock (PID "@ + decimal(h.pid as nat) + ": "@ + h.cmdline@
                + ") or wait for it to release the database."@
        },
    }
}

/// Checks that the file of the database is not locked. `path` is the path that
/// the URL gives; `holder` is who has the lock, where that is known.
pub fn probe_db_lock(status: DbLockStatus, path: Option<&str>, holder: Option<LockHolder>) -> (r:
    ProbeResult)
    ensures
        match status {
            DbLockStatus::Available => r.passed("db-lock"@),
            DbLockStatus::Missing => r.passed("db-lock"@),
            DbLockStatus::Locked => match path {
                None => r.passed("db-lock"@),
                Some(p) => r.failed("db-lock"@, lock_problem(p@, holder), lock_advice(holder)),
            },
            DbLockStatus::Error(message) => r.failed(
                "db-lock"@,
                "DB lock probe failed: "@ + compact_detail(message@),
                "Check database file permissions and path validity."@,
            ),
        },
{
    match status {
        DbLockStatus::Available => pass("db-lock"),
        DbLockStatus::Missing => pass("db-lock"),
        DbLockStatus::Locked => match path {
            None => pass("db-lock"),
            Some(p) => match holder {
                None => fail(
                    "db-lock",
                    "DB lock probe blocked for ".to_owned().concat(p).concat(
                        ": SQLite file is exclusively locked by another process",
                    ),
                    "Ensure no other 'am' or 'mcp-agent-mail' instances are running with the same database, or wait for background tasks to complete.".to_owned(),
                ),
                Some(h) => {
                    let pid = print_u64(h.pid as u64);
                    let problem = "DB lock probe blocked for ".to_owned().concat(p).concat(
                        ": SQLite file is exclusively locked by PID ",
                    ).concat(pid.as_str()).concat(" (").concat(h.cmdline.as_str()).concat(")");
                    let fix = if h.is_python {
                        "A Python process (PID ".to_owned().concat(pid.as_str()).concat(
                            ") appears to hold the lock — this is likely a legacy Python HTTP worker. Stop it with `kill ",
                        ).concat(pid.as_str()).concat("`, then retry.")
                    } else {
                        "Stop the process holding the lock (PID ".to_owned().concat(
                            pid.as_str(),
                        ).concat(": ").concat(h.cmdline.as_str()).concat(
                            ") or wait for it to release the database.",
                        )
                    };
                    fail("db-lock", problem, fix)
                },
            },
        },
        DbLockStatus::Error(message) => fail(
            "db-lock",
            "DB lock probe failed: ".to_owned().concat(
                compact_probe_detail(message.as_str()).as_str(),
            ),
            "Check database file permissions and path validity.".to_owned(),
        ),
    }
}

/// What the configuration says about authentication.
pub struct AuthSettings {
    pub bearer_token: Option<String>,
    pub jwt_enabled: bool,
    pub jwt_jwks_url: Option<String>,
    pub jwt_secret: Option<String>,
    pub jwt_algorithms: Vec<String>,
}

/// An algorithm of the HMAC family.
pub open spec fn is_hmac_name(name: Seq<char>) -> bool {
    name == "HS256"@ || name == "HS384"@ || name == "HS512"@
}

/// An algorithm by its name, of any other family.
pub open spec fn is_other_algorithm_name(name: Seq<char>) -> bool {
    name == "ES256"@ || name == "ES384"@ || name == "RS256"@ || name == "RS384"@ || name
        == "RS512"@ || name == "PS256"@ || name == "PS384"@ || name == "PS512"@ || name == "EdDSA"@
}

/// Calls `jsonwebtoken::Algorithm::from_str` and shows the algorithm by the
/// name of its variant. It knows twelve names, upper and lower case apart, and
/// each is the name of the variant that it stands for.
#[verifier::external_body]
fn known_algorithm(name: &str) -> (r: Option<String>)
    ensures
        r is Some <==> is_hmac_name(name@) || is_other_algorithm_name(name@),
        r is Some ==> r->0@ == name@,
{
    match name.parse::<jsonwebtoken::Algorithm>() {
        Ok(algorithm) => Some(format!("{algorithm:?}")),
        Err(_) => None,
    }
}

/// One of the names is that of an algorithm outside the HMAC family. Names
/// that mean nothing are passed over.
pub open spec fn names_other_family(names: Seq<Seq<char>>) -> bool {
    exists|i: int| 0 <= i < names.len() && is_other_algorithm_name(#[trigger] names[i])
}

proof fn lemma_hmac_names_are_not_others(name: Seq<char>)
    ensures
        !(is_hmac_name(name) && is_other_algorithm_name(name)),
{
    reveal_strlit("HS256");
    reveal_strlit("HS384");
    reveal_strlit("HS512");
    reveal_strlit("ES256");
    reveal_strlit("ES384");
    reveal_strlit("RS256");
    reveal_strlit("RS384");
    reveal_strlit("RS512");
    reveal_strlit("PS256");
    reveal_strlit("PS384");
    reveal_strlit("PS512");
    reveal_strlit("EdDSA");
    if is_hmac_name(name) {
        assert(name[0] == 'H');
        if is_other_algorithm_name(name) {
            assert(name[0] != 'H');
        }
    }
}

/// Whether a name is that of an algorithm outside the HMAC family.
fn other_family(names: &Vec<String>) -> (r: bool)
    ensures
        r == names_other_family(views(names@)),
{
    let mut i: usize = 0;
    while i < names.len()
        invariant
            i <= names@.len(),
            forall|k: int|
                0 <= k < i ==> !is_other_algorithm_name(#[trigger] views(names@)[k]),
        decreases names@.len() - i,
    {
        assert(views(names@)[i as int] == names@[i as int]@);
        proof {
            lemma_hmac_names_are_not_others(names@[i as int]@);
        }
        if let Some(name) = known_algorithm(names[i].as_str()) {
            if !same(name.as_str(), "HS256") && !same(name.as_str(), "HS384") && !same(
                name.as_str(),
                "HS512",
            ) {
                return true;
            }
        }
        i = i + 1;
    }
    false
}

/// A text that is there and not empty.
pub open spec fn is_given(value: Option<String>) -> bool {
    value matches Some(v) && v@.len() > 0
}

fn given(value: &Option<String>) -> (r: bool)
    ensures
        r == is_given(*value),
{
    match value {
        Some(v) => !v.as_str().is_empty(),
        None => false,
    }
}

/// Checks that the settings for authentication go together.
pub fn probe_auth(settings: &AuthSettings) -> (r: ProbeResult)
    ensures
        if (settings.bearer_token matches Some(token) && encode_utf8(token@).len() < 8) {
            r.failed(
                "auth"@,
                "HTTP_BEARER_TOKEN is set but very short (< 8 chars)"@,
                "Use a longer token for security, or unset HTTP_BEARER_TOKEN to disable auth"@,
            )
        } else if settings.jwt_enabled && !is_given(settings.jwt_jwks_url) && !is_given(
            settings.jwt_secret,
        ) {
            r.failed(
                "auth"@,
                "JWT authentication is enabled but neither HTTP_JWT_JWKS_URL nor HTTP_JWT_SECRET is set"@,
                "Set HTTP_JWT_SECRET for HS256/HS384/HS512, or set HTTP_JWT_JWKS_URL for asymmetric algorithms (RS*/ES*)"@,
            )
        } else if settings.jwt_enabled && !is_given(settings.jwt_jwks_url) && names_other_family(
            views(settings.jwt_algorithms@),
        ) {
            r.failed(
                "auth"@,
                "HTTP_JWT_SECRET is set but HTTP_JWT_ALGORITHMS includes non-HS* algorithms"@,
                "Either restrict HTTP_JWT_ALGORITHMS to HS256/HS384/HS512 when using HTTP_JWT_SECRET, or set HTTP_JWT_JWKS_URL for asymmetric algorithms (RS*/ES*)"@,
            )
        } else {
            r.passed("auth"@)
        },
{
    if let Some(token) = &settings.bearer_token {
        if token.as_str().as_bytes().len() < 8 {
            return fail(
                "auth",
                "HTTP_BEARER_TOKEN is set but very short (< 8 chars)".to_owned(),
                "Use a longer token for security, or unset HTTP_BEARER_TOKEN to disable auth".to_owned(),
            );
        }
    }
    if settings.jwt_enabled && !given(&settings.jwt_jwks_url) {
        if !given(&settings.jwt_secret) {
            return fail(
                "auth",
                "JWT authentication is enabled but neither HTTP_JWT_JWKS_URL nor HTTP_JWT_SECRET is set".to_owned(),
                "Set HTTP_JWT_SECRET for HS256/HS384/HS512, or set HTTP_JWT_JWKS_URL for asymmetric algorithms (RS*/ES*)".to_owned(),
            );
        }
        if other_family(&settings.jwt_algorithms) {
            return fail(
                "auth",
                "HTTP_JWT_SECRET is set but HTTP_JWT_ALGORITHMS includes non-HS* algorithms".to_owned(),
                "Either restrict HTTP_JWT_ALGORITHMS to HS256/HS384/HS512 when using HTTP_JWT_SECRET, or set HTTP_JWT_JWKS_URL for asymmetric algorithms (RS*/ES*)".to_owned(),
            );
        }
    }
    pass("auth")
}

/// How many of the latest messages are looked at for consistency.
pub const CONSISTENCY_SAMPLE_LIMIT: i64 = 100;

/// How many messages were looked at, and of how many the archive has no file.
pub struct ConsistencySample {
    pub sampled: u64,
    pub missing: u64,
}

/// Judges a sample of messages. The probe passes whatever was found; missing
/// files are worth a warning.
pub fn probe_consistency(sample: Option<ConsistencySample>) -> (r: (ProbeResult, Option<String>))
    ensures
        r.0.passed("consistency"@),
        match sample {
            Some(s) if s.missing > 0 => r.1 matches Some(text) && text@
                == "Archive-DB consistency: "@ + decimal(s.missing as nat) + " of "@ + decimal(
                s.sampled as nat,
            ) + " sampled messages missing archive files"@,
            _ => r.1 is None,
        },
{
    let warning = match sample {
        Some(s) => if s.missing > 0 {
            Some(
                "Archive-DB consistency: ".to_owned().concat(print_u64(s.missing).as_str()).concat(
                    " of ",
                ).concat(print_u64(s.sampled).as_str()).concat(
                    " sampled messages missing archive files",
                ),
            )
        } else {
            None
        },
        None => None,
    };
    (pass("consistency"), warning)
}

/// Below this many file descriptors a burst of work may run out of them.
pub const MIN_RECOMMENDED_NOFILE: u64 = 256;

/// The soft limit on a line about open files.
pub open spec fn line_soft_limit(line: Seq<char>) -> Option<int> {
    if "Max open files"@.is_prefix_of(line) && words(line).len() >= 5 {
        parsed_unsigned(words(line)[3], 10, u64::MAX as int)
    } else {
        None
    }
}

/// The limit on the first line that gives one.
pub open spec fn first_soft_limit(ls: Seq<Seq<char>>) -> Option<int>
    decreases ls.len(),
{
    if ls.len() == 0 {
        None
    } else if line_soft_limit(ls[0]) is Some {
        line_soft_limit(ls[0])
    } else {
        first_soft_limit(ls.skip(1))
    }
}

/// Reads the soft limit on open files from the text of the process's limits.
pub fn read_fd_soft_limit(limits: Option<&str>) -> (r: Option<u64>)
    ensures
        match limits {
            None => r is None,
            Some(content) => match first_soft_limit(lines_of(content@)) {
                Some(n) => r matches Some(v) && v == n,
                None => r is None,
            },
        },
{
    let content = match limits {
        Some(content) => content,
        None => {
            return None;
        },
    };
    let ls = lines(content);
    let ghost lv = views(ls@);
    let mut i: usize = 0;
    assert(lv.skip(0) =~= lv);
    while i < ls.len()
        invariant
            i <= ls@.len(),
            lv == views(ls@),
            lv == lines_of(content@),
            limits == Some(content),
            first_soft_limit(lv) == first_soft_limit(lv.skip(i as int)),
        decreases ls@.len() - i,
    {
        assert(lv[i as int] == ls@[i as int]@);
        assert(lv.skip(i as int)[0] == lv[i as int]);
        assert(lv.skip(i as int).skip(1) =~= lv.skip(i + 1));
        if starts_with(ls[i].as_str(), "Max open files") {
            let parts = split_whitespace(ls[i].as_str());
            if parts.len() >= 5 {
                assert(views(parts@)[3] == parts@[3]@);
                if let Some(soft) = parse_u64(parts[3].as_str()) {
                    return Some(soft);
                }
            }
        }
        i = i + 1;
    }
    None
}

/// Judges the limit on open files. The probe passes whatever it is; the second
/// value tells whether it is worth a warning.
pub fn probe_fd_limit(soft_limit: Option<u64>) -> (r: (ProbeResult, bool))
    ensures
        r.0.passed("fd_limit"@),
        r.1 <==> (soft_limit matches Some(n) && n < MIN_RECOMMENDED_NOFILE),
{
    let low = match soft_limit {
        Some(n) => n < MIN_RECOMMENDED_NOFILE,
        None => false,
    };
    (pass("fd_limit"), low)
}

/// A startup probe.
#[derive(Debug, Clone, Copy, PartialEq, Eq, Structural)]
pub enum Probe {
    HttpPath,
    Auth,
    Database,
    DbLock,
    StorageRoot,
    Integrity,
    FdLimit,
    Port,
}

/// The probes that do not depend on a listener of our own.
pub open spec fn runtime_probes() -> Seq<Probe> {
    seq![Probe::Database, Probe::DbLock, Probe::StorageRoot, Probe::Integrity, Probe::FdLimit]
}

/// The probes before the listener is taken over. What a running server owns is
/// left alone.
pub open spec fn preflight_probes(server_running: bool) -> Seq<Probe> {
    if server_running {
        seq![Probe::HttpPath, Probe::Auth, Probe::Database, Probe::StorageRoot, Probe::FdLimit]
    } else {
        seq![
            Probe::HttpPath,
            Probe::Auth,
            Probe::Database,
            Probe::DbLock,
            Probe::StorageRoot,
            Probe::Integrity,
            Probe::FdLimit,
        ]
    }
}

/// The probes that every transport needs, in the order in which they run.
pub fn shared_runtime_startup_probes() -> (r: Vec<Probe>)
    ensures
        r@ == runtime_probes(),
{
    vec![Probe::Database, Probe::DbLock, Probe::StorageRoot, Probe::Integrity, Probe::FdLimit]
}

/// The probes for HTTP before it is decided whether a running server is torn
/// down, in the order in which they run, and whether old backups are rotated
/// first: only where no server runs.
pub fn run_http_startup_preflight_probes(server_running: bool) -> (r: (bool, Vec<Probe>))
    ensures
        r.0 == !server_running,
        r.1@ == preflight_probes(server_running),
{
    let mut probes: Vec<Probe> = Vec::new();
    probes.push(Probe::HttpPath);
    probes.push(Probe::Auth);
    probes.push(Probe::Database);
    if !server_running {
        probes.push(Probe::DbLock);
    }
    probes.push(Probe::StorageRoot);
    if !server_running {
        probes.push(Probe::Integrity);
    }
    probes.push(Probe::FdLimit);
    (!server_running, probes)
}

/// All the probes for HTTP, in the order in which they run, and whether old
/// backups are rotated first.
pub fn run_startup_probes(server_running: bool) -> (r: (bool, Vec<Probe>))
    ensures
        r.0 == !server_running,
        r.1@ == preflight_probes(server_running).push(Probe::Port),
{
    let (rotate, mut probes) = run_http_startup_preflight_probes(server_running);
    probes.push(Probe::Port);
    (rotate, probes)
}

/// The probes for the transport over standard input and output, which binds no
/// listener.
pub fn run_stdio_startup_probes() -> (r: Vec<Probe>)
    ensures
        r@ == runtime_probes(),
{
    shared_runtime_startup_probes()
}

/// A running server keeps its database: neither the lock nor the integrity of
/// it is probed, and nothing else is left out on its account.
pub proof fn law_running_server_is_left_alone(probe: Probe)
    ensures
        preflight_probes(true).contains(probe) <==> preflight_probes(false).contains(probe) && probe
            != Probe::DbLock && probe != Probe::Integrity,
{
    let t = preflight_probes(true);
    let f = preflight_probes(false);
    assert(t[0] == Probe::HttpPath && t[1] == Probe::Auth && t[2] == Probe::Database && t[3]
        == Probe::StorageRoot && t[4] == Probe::FdLimit);
    assert(f[0] == Probe::HttpPath && f[1] == Probe::Auth && f[2] == Probe::Database && f[3]
        == Probe::DbLock && f[4] == Probe::StorageRoot && f[5] == Probe::Integrity && f[6]
        == Probe::FdLimit);
    assert(t.contains(probe) || !t.contains(probe));
    if f.contains(probe) && probe != Probe::DbLock && probe != Probe::Integrity {
        assert(t.contains(probe));
    }
    if t.contains(probe) {
        assert(f.contains(probe));
    }
}

/// Standard input and output need no probe of the HTTP path, of its
/// authentication or of the port, and all the others.
pub proof fn law_stdio_needs_no_listener(probe: Probe)
    ensures
        runtime_probes().contains(probe) <==> probe != Probe::HttpPath && probe != Probe::Auth
            && probe != Probe::Port,
{
    let s = runtime_probes();
    assert(s[0] == Probe::Database && s[1] == Probe::DbLock && s[2] == Probe::StorageRoot && s[3]
        == Probe::Integrity && s[4] == Probe::FdLimit);
    if probe != Probe::HttpPath && probe != Probe::Auth && probe != Probe::Port {
        assert(s.contains(probe));
    }
}

/// The name that a result carries.
pub open spec fn name_of(r: ProbeResult) -> Seq<char> {
    match r {
        ProbeResult::Pass { name } => name@,
        ProbeResult::Fail(f) => f.name@,
    }
}

/// The probe of the HTTP path passes exactly where there is a slash at both
/// ends, and names the path where it does not.
pub proof fn law_the_path_needs_a_slash_at_both_ends(path: &str, r: ProbeResult)
    requires
        call_ensures(probe_http_path, (path,), r),
    ensures
        name_of(r) == "http-path"@,
        r is Pass <==> path@.len() > 0 && path@[0] == '/' && path@[path@.len() - 1] == '/',
        r matches ProbeResult::Fail(f) ==> ("HTTP path "@ + debug_text(path@)).is_prefix_of(
            f.problem@,
        ),
        path@.len() > 0 && path@[0] == '/' && path@[path@.len() - 1] != '/' ==> (r matches
            ProbeResult::Fail(f) && ("Set HTTP_PATH=\""@ + path@ + "/\""@).is_prefix_of(f.fix@)),
{
    reveal_strlit("/\" (append trailing slash)");
    reveal_strlit("/\"");
    if let ProbeResult::Fail(f) = r {
        let a = "HTTP path "@ + debug_text(path@);
        let b = " must start with '/'"@;
        let c = " should end with '/'"@;
        assert(a.is_prefix_of(a + b));
        assert(a.is_prefix_of(a + c));
        let d = "/\" (append trailing slash)"@;
        let e = "/\""@;
        let x = "Set HTTP_PATH=\""@ + path@;
        assert(d =~= e + d.skip(2));
        assert(x + d =~= (x + e) + d.skip(2));
        assert((x + e).is_prefix_of(x + d));
    }
}

/// The probe of the storage directory passes exactly where it can be written,
/// and says of which directory it fails.
pub proof fn law_the_storage_must_be_writable(root: &str, trial: StorageTrial, r: ProbeResult)
    requires
        call_ensures(probe_storage_root, (root, trial), r),
    ensures
        name_of(r) == "storage"@,
        r is Pass <==> trial is Writable,
        r matches ProbeResult::Fail(f) ==> root@.is_suffix_of(f.fix@),
{
    if let ProbeResult::Fail(f) = r {
        let a = "Use a real, non-symlinked directory for STORAGE_ROOT: "@;
        let b = "Check permissions: chmod u+w "@;
        assert((a + root@).skip(a.len() as int) =~= root@);
        assert((b + root@).skip(b.len() as int) =~= root@);
    }
}

/// The probe of the database fails on an empty URL, and of those of SQLite on
/// one that gives no path or a path that was turned down; other URLs pass.
pub proof fn law_which_databases_pass(url: &str, target: DatabaseTarget, r: ProbeResult)
    requires
        call_ensures(probe_database, (url, target), r),
    ensures
        name_of(r) == "database"@,
        url@.len() == 0 ==> r is Fail,
        url@.len() > 0 && !"sqlite://"@.is_prefix_of(url@) && !"sqlite+aiosqlite://"@.is_prefix_of(
            url@,
        ) ==> r is Pass,
        "sqlite://"@.is_prefix_of(url@) || "sqlite+aiosqlite://"@.is_prefix_of(url@) ==> (r is Pass
            <==> target is Memory || (target matches DatabaseTarget::File { accepted, .. }
            && accepted is Ok)),
        target matches DatabaseTarget::File { path, accepted } ==> (accepted matches Err(problem)
            ==> (("sqlite://"@.is_prefix_of(url@) || "sqlite+aiosqlite://"@.is_prefix_of(url@)) ==> (
        r matches ProbeResult::Fail(f) && f.problem@ == problem@ && path@.is_suffix_of(f.fix@)))),
{
    reveal_strlit("sqlite://");
    reveal_strlit("sqlite+aiosqlite://");
    if let ProbeResult::Fail(f) = r {
        if let DatabaseTarget::File { path, accepted } = target {
            let a = "Use a real, non-symlinked database path for "@;
            assert((a + path@).skip(a.len() as int) =~= path@);
        }
    }
}

/// A database is locked exactly where the lock was refused, or where opening
/// it failed for that reason; one in memory never is.
pub proof fn law_when_a_database_is_locked(file: DatabaseFile, r: DbLockStatus)
    requires
        call_ensures(check_db_lock_status, (file,), r),
    ensures
        r is Locked <==> file == (DatabaseFile::Opened { lock_given: false }) || (file matches
            DatabaseFile::OpenFailed { error } && (has_text(error@, "database is locked"@)
            || has_text(error@, "Resource temporarily unavailable"@))),
        r is Available <==> file is Memory || file == (DatabaseFile::Opened { lock_given: true }),
        r is Missing <==> file is Missing,
        file matches DatabaseFile::OpenFailed { error } ==> (r matches DbLockStatus::Error(m) ==> m
            == error),
{
}

/// The probe of the lock passes where the database is free or not there yet,
/// and where no path is known; it names who has the lock.
pub proof fn law_a_lock_blocks(
    status: DbLockStatus,
    path: Option<&str>,
    holder: Option<LockHolder>,
    r: ProbeResult,
)
    requires
        call_ensures(probe_db_lock, (status, path, holder), r),
    ensures
        name_of(r) == "db-lock"@,
        r is Fail <==> status is Error || (status is Locked && path is Some),
        status is Locked && path is Some && holder is Some ==> (r matches ProbeResult::Fail(f)
            && has_text(f.problem@, path->0@) && has_text(
            f.problem@,
            "PID "@ + decimal(holder->0.pid as nat) + " ("@ + holder->0.cmdline@ + ")"@,
        ) && has_text(f.fix@, "PID "@ + decimal(holder->0.pid as nat)) && (has_text(
            f.fix@,
            "`kill "@ + decimal(holder->0.pid as nat) + "`"@,
        ) || !holder->0.is_python)),
{
    if status is Locked && path is Some && holder is Some {
        lemma_lock_names_its_holder(path->0@, holder->0);
    }
}

proof fn lemma_text_inside(a: Seq<char>, t: Seq<char>, b: Seq<char>, s: Seq<char>)
    requires
        s == a + t + b,
    ensures
        has_text(s, t),
{
    assert(s.subrange(a.len() as int, a.len() as int + t.len()) =~= t);
    assert(crate::text::occurs_at(s, t, a.len() as int));
}

proof fn lemma_lock_names_its_holder(path: Seq<char>, h: LockHolder)
    ensures
        has_text(lock_problem(path, Some(h)), path),
        has_text(
            lock_problem(path, Some(h)),
            "PID "@ + decimal(h.pid as nat) + " ("@ + h.cmdline@ + ")"@,
        ),
        has_text(lock_advice(Some(h)), "PID "@ + decimal(h.pid as nat)),
        h.is_python ==> has_text(lock_advice(Some(h)), "`kill "@ + decimal(h.pid as nat) + "`"@),
{
    let d = decimal(h.pid as nat);
    let empty = Seq::<char>::empty();
    let a = "DB lock probe blocked for "@;
    let b = ": SQLite file is exclusively locked by PID "@;
    let c = " ("@ + h.cmdline@ + ")"@;
    let s = lock_problem(path, Some(h));
    assert(s =~= a + path + (b + d + c));
    lemma_text_inside(a, path, b + d + c, s);
    let b0 = ": SQLite file is exclusively locked by "@;
    let p = "PID "@;
    assert(b =~= b0 + p) by {
        reveal_strlit(": SQLite file is exclusively locked by PID ");
        reveal_strlit(": SQLite file is exclusively locked by ");
        reveal_strlit("PID ");
    }
    let t = p + d + " ("@ + h.cmdline@ + ")"@;
    assert(t =~= p + d + c);
    assert(s =~= (a + path + b0) + t + empty);
    lemma_text_inside(a + path + b0, t, empty, s);
    lemma_advice_names_its_holder(h);
}

proof fn lemma_advice_names_its_holder(h: LockHolder)
    ensures
        has_text(lock_advice(Some(h)), "PID "@ + decimal(h.pid as nat)),
        h.is_python ==> has_text(lock_advice(Some(h)), "`kill "@ + decimal(h.pid as nat) + "`"@),
{
    let d = decimal(h.pid as nat);
    let p = "PID "@;
    let s = lock_advice(Some(h));
    if h.is_python {
        let a = "A Python process (PID "@;
        let a0 = "A Python process ("@;
        assert(a =~= a0 + p) by {
            reveal_strlit("A Python process (PID ");
            reveal_strlit("A Python process (");
            reveal_strlit("PID ");
        }
        let b =
            ") appears to hold the lock — this is likely a legacy Python HTTP worker. Stop it with `kill "@;
        let c = "`, then retry."@;
        assert(s =~= a0 + (p + d) + (b + d + c));
        lemma_text_inside(a0, p + d, b + d + c, s);
        let k = "`kill "@;
        let b0 = b.take(b.len() - k.len());
        assert(b =~= b0 + k) by {
            reveal_strlit(
                ") appears to hold the lock — this is likely a legacy Python HTTP worker. Stop it with `kill ",
            );
            reveal_strlit("`kill ");
        }
        let q = "`"@;
        let c0 = c.skip(1);
        assert(c =~= q + c0) by {
            reveal_strlit("`, then retry.");
            reveal_strlit("`");
        }
        assert(s =~= (a + d + b0) + (k + d + q) + c0);
        lemma_text_inside(a + d + b0, k + d + q, c0, s);
    } else {
        let a = "Stop the process holding the lock (PID "@;
        let a0 = "Stop the process holding the lock ("@;
        assert(a =~= a0 + p) by {
            reveal_strlit("Stop the process holding the lock (PID ");
            reveal_strlit("Stop the process holding the lock (");
            reveal_strlit("PID ");
        }
        let b = ": "@ + h.cmdline@ + ") or wait for it to release the database."@;
        assert(s =~= a0 + (p + d) + b);
        lemma_text_inside(a0, p + d, b, s);
    }
}

/// A token of eight bytes or more is long enough. Signed tokens need a set of
/// keys or a secret, and with a secret alone every algorithm that means
/// something must be one of the HMAC family.
pub proof fn law_when_authentication_is_in_order(settings: &AuthSettings, r: ProbeResult)
    requires
        call_ensures(probe_auth, (settings,), r),
    ensures
        name_of(r) == "auth"@,
        settings.bearer_token is Some && encode_utf8(settings.bearer_token->0@).len() < 8 ==> r
            is Fail,
        (settings.bearer_token is None || encode_utf8(settings.bearer_token->0@).len() >= 8)
            && !settings.jwt_enabled ==> r is Pass,
        (settings.bearer_token is None || encode_utf8(settings.bearer_token->0@).len() >= 8)
            && settings.jwt_enabled ==> {
            let keys = settings.jwt_jwks_url is Some && settings.jwt_jwks_url->0@.len() > 0;
            let secret = settings.jwt_secret is Some && settings.jwt_secret->0@.len() > 0;
            &&& keys ==> r is Pass
            &&& !keys && !secret ==> r is Fail
            &&& !keys && secret ==> (r is Fail <==> exists|i: int|
                0 <= i < settings.jwt_algorithms@.len() && is_other_algorithm_name(
                    (#[trigger] settings.jwt_algorithms@[i])@,
                ))
        },
{
    let names = views(settings.jwt_algorithms@);
    if names_other_family(names) {
        let i = choose|i: int| 0 <= i < names.len() && is_other_algorithm_name(#[trigger] names[i]);
        assert(names[i] == settings.jwt_algorithms@[i]@);
    }
    if exists|i: int|
        0 <= i < settings.jwt_algorithms@.len() && is_other_algorithm_name(
            (#[trigger] settings.jwt_algorithms@[i])@,
        ) {
        let i = choose|i: int|
            0 <= i < settings.jwt_algorithms@.len() && is_other_algorithm_name(
                (#[trigger] settings.jwt_algorithms@[i])@,
            );
        assert(names[i] == settings.jwt_algorithms@[i]@);
    }
}

/// An algorithm of another family starts with another letter than those of the
/// HMAC family.
pub proof fn law_hmac_names_start_alike(name: Seq<char>)
    ensures
        is_other_algorithm_name(name) ==> name.len() == 5 && name[0] != 'H',
        is_hmac_name(name) ==> name.len() == 5 && name[0] == 'H' && name[1] == 'S',
{
    reveal_strlit("HS256");
    reveal_strlit("HS384");
    reveal_strlit("HS512");
    reveal_strlit("ES256");
    reveal_strlit("ES384");
    reveal_strlit("RS256");
    reveal_strlit("RS384");
    reveal_strlit("RS512");
    reveal_strlit("PS256");
    reveal_strlit("PS384");
    reveal_strlit("PS512");
    reveal_strlit("EdDSA");
}

/// A sample with files missing is worth a warning that counts them; the probe
/// passes all the same. So does that of open files, with a warning below two
/// hundred and fifty-six.
pub proof fn law_warnings_do_not_block(
    sample: Option<ConsistencySample>,
    soft: Option<u64>,
    r: (ProbeResult, Option<String>),
    files: (ProbeResult, bool),
)
    requires
        call_ensures(probe_consistency, (sample,), r),
        call_ensures(probe_fd_limit, (soft,), files),
    ensures
        r.0 is Pass && files.0 is Pass,
        r.1 is Some <==> sample is Some && sample->0.missing > 0,
        r.1 is Some ==> ("Archive-DB consistency: "@ + decimal(sample->0.missing as nat) + " of "@
            + decimal(sample->0.sampled as nat)).is_prefix_of(r.1->0@),
        files.1 <==> soft is Some && soft->0 < 0x100,
{
}

/// The soft limit on open files is the fourth word of the first line about
/// them that gives a number there.
pub proof fn law_the_soft_limit_is_the_fourth_word(
    line: Seq<char>,
    rest: &str,
    all: &str,
    of_rest: Option<u64>,
    of_all: Option<u64>,
    none: Option<u64>,
)
    requires
        !line.contains('\n'),
        line.len() > 0 ==> line[line.len() - 1] != '\r',
        all@ == line.push('\n') + rest@,
        call_ensures(read_fd_soft_limit, (Some(rest),), of_rest),
        call_ensures(read_fd_soft_limit, (Some(all),), of_all),
        call_ensures(read_fd_soft_limit, (None,), none),
    ensures
        none is None,
        ({
            let given = "Max open files"@.is_prefix_of(line) && words(line).len() >= 5
                && parsed_unsigned(words(line)[3], 10, u64::MAX as int) is Some;
            &&& given ==> of_all is Some && of_all->0 == parsed_unsigned(
                words(line)[3],
                10,
                u64::MAX as int,
            )->0
            &&& !given ==> of_all == of_rest
        }),
        rest@.len() == 0 ==> of_rest is None,
{
    crate::text::law_lines_end_at_line_feeds(line, rest@);
    let lr = lines_of(rest@);
    let la = lines_of(all@);
    assert(la == seq![line] + lr);
    assert(la.skip(1) =~= lr);
    assert(la[0] == line);
    if rest@.len() == 0 {
        assert(rest@ =~= Seq::<char>::empty());
        crate::text::law_lines_end_at_line_feeds(rest@, rest@);
    }
}

/// The probes run in this order: the path and the authentication of HTTP, the
/// database and its lock, the storage, the integrity, the open files and, at
/// the very end, the port. Backups are rotated where no server runs.
pub proof fn law_the_order_of_the_probes(
    running: bool,
    all: (bool, Vec<Probe>),
    before: (bool, Vec<Probe>),
    stdio: Vec<Probe>,
    shared: Vec<Probe>,
)
    requires
        call_ensures(run_startup_probes, (running,), all),
        call_ensures(run_http_startup_preflight_probes, (running,), before),
        call_ensures(run_stdio_startup_probes, (), stdio),
        call_ensures(shared_runtime_startup_probes, (), shared),
    ensures
        all.0 == !running && before.0 == !running,
        all.1@ == before.1@.push(Probe::Port),
        stdio@ == shared@,
        !running ==> before.1@ == seq![Probe::HttpPath, Probe::Auth] + shared@,
        running ==> before.1@ == seq![Probe::HttpPath, Probe::Auth] + seq![
            shared@[0],
            shared@[2],
            shared@[4],
        ],
        shared@ == seq![
            Probe::Database,
            Probe::DbLock,
            Probe::StorageRoot,
            Probe::Integrity,
            Probe::FdLimit,
        ],
{
    assert(preflight_probes(false) =~= seq![Probe::HttpPath, Probe::Auth] + runtime_probes());
    assert(preflight_probes(true) =~= seq![Probe::HttpPath, Probe::Auth] + seq![
        runtime_probes()[0],
        runtime_probes()[2],
        runtime_probes()[4],
    ]);
}

/// The file that the storage is tried with is hidden, and named by the process
/// and a number.
pub proof fn law_the_trial_file_is_named_by_the_process(pid: u32, nonce: u128, r: String)
    requires
        call_ensures(storage_probe_file_name, (pid, nonce), r),
    ensures
        r@ == ".am_startup_probe-"@ + decimal(pid as nat) + "-"@ + decimal(nonce as nat),
{
}

} // verus!
