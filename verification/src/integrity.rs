//! What the startup probe of the mailbox's integrity says: the causes that it
//! names, and the diagnosis of a file that cannot be opened.

use vstd::prelude::*;

use crate::mcp_probe::lemma_words_go_on;
use crate::numbers::{decimal, digit_char, digits_value, print_u64};
use crate::probes::fail;
use crate::report::ProbeResult;
use crate::text::{
    ascii_lower, contains, ends_with, has_text, is_space, join, joined, law_joining, law_trimming,
    law_words_are_taken_one_by_one, lemma_split_of_field, lemma_split_on_concat,
    lemma_split_on_nonempty, lines, lines_of, occurs_at, same_ignoring_ascii_case, split, split_on,
    split_whitespace, starts_with, to_ascii_lower, trim, trimmed, views, words,
};

verus! {

/// A detail on one line, with single spaces.
pub open spec fn compact_detail(detail: Seq<char>) -> Seq<char> {
    let compact = joined(words(detail), " "@);
    if compact.len() == 0 {
        "unspecified error"@
    } else {
        compact
    }
}

/// Puts a detail on one line.
pub fn compact_probe_detail(detail: &str) -> (r: String)
    ensures
        r@ == compact_detail(detail@),
{
    let parts = split_whitespace(detail);
    let compact = join(&parts, " ");
    if compact.as_str().is_empty() {
        "unspecified error".to_owned()
    } else {
        compact
    }
}

/// The detail mentions a text, whatever the case of its ASCII letters.
pub open spec fn mentions(detail: Seq<char>, text: Seq<char>) -> bool {
    has_text(ascii_lower(compact_detail(detail)), text)
}

/// A cause, followed by the detail that it was read from.
pub open spec fn with_detail(cause: Seq<char>, detail: Seq<char>) -> Seq<char> {
    cause + " ("@ + compact_detail(detail) + ")"@
}

fn show_cause(cause: &str, compact: &str) -> (r: String)
    ensures
        r@ == cause@ + " ("@ + compact@ + ")"@,
{
    cause.to_owned().concat(" (").concat(compact).concat(")")
}

/// Why a mailbox is busy.
pub open spec fn busy_cause(detail: Seq<char>) -> Seq<char> {
    if mentions(detail, "mailbox activity lock is busy"@) {
        "mailbox activity lock is already held by another Agent Mail runtime or mutating `am doctor` command"@
    } else if mentions(detail, "database is locked"@) || mentions(detail, "database is busy"@)
        || mentions(detail, "resource temporarily unavailable"@) || mentions(
        detail,
        "busy timeout"@,
    ) {
        "SQLite reports a concurrent writer, recovery owner, or file lock on the mailbox"@
    } else {
        "mailbox is busy and could not be probed safely"@
    }
}

/// Names the cause of a busy mailbox.
pub fn classify_integrity_busy_root_cause(detail: &str) -> (r: String)
    ensures
        r@ == with_detail(busy_cause(detail@), detail@),
{
    let compact = compact_probe_detail(detail);
    let lower = to_ascii_lower(compact.as_str());
    let l = lower.as_str();
    let cause = if contains(l, "mailbox activity lock is busy") {
        "mailbox activity lock is already held by another Agent Mail runtime or mutating `am doctor` command"
    } else if contains(l, "database is locked") || contains(l, "database is busy") || contains(
        l,
        "resource temporarily unavailable",
    ) || contains(l, "busy timeout") {
        "SQLite reports a concurrent writer, recovery owner, or file lock on the mailbox"
    } else {
        "mailbox is busy and could not be probed safely"
    };
    show_cause(cause, compact.as_str())
}

/// Why a mailbox cannot be opened.
pub open spec fn open_cause(detail: Seq<char>) -> Seq<char> {
    if mentions(detail, "permission denied"@) {
        "filesystem permissions blocked opening the SQLite mailbox"@
    } else if mentions(detail, "no such file or directory"@) {
        "the SQLite path or its parent directory does not exist"@
    } else if mentions(detail, "read-only"@) || mentions(detail, "readonly"@) {
        "the SQLite mailbox is read-only but startup needs write-capable access"@
    } else {
        "pool initialization failed before the integrity probe could inspect the mailbox"@
    }
}

/// Names the cause why a mailbox cannot be opened.
pub fn classify_integrity_open_root_cause(detail: &str) -> (r: String)
    ensures
        r@ == with_detail(open_cause(detail@), detail@),
{
    let compact = compact_probe_detail(detail);
    let lower = to_ascii_lower(compact.as_str());
    let l = lower.as_str();
    let cause = if contains(l, "permission denied") {
        "filesystem permissions blocked opening the SQLite mailbox"
    } else if contains(l, "no such file or directory") {
        "the SQLite path or its parent directory does not exist"
    } else if contains(l, "read-only") || contains(l, "readonly") {
        "the SQLite mailbox is read-only but startup needs write-capable access"
    } else {
        "pool initialization failed before the integrity probe could inspect the mailbox"
    };
    show_cause(cause, compact.as_str())
}

/// Why a recovery failed.
pub open spec fn recovery_cause(detail: Seq<char>) -> Seq<char> {
    if mentions(detail, "mailbox mutation refused"@) || mentions(
        detail,
        "wait for the active owner to finish"@,
    ) || mentions(detail, "supervised restart or operator intervention"@) {
        "another process still owns the mailbox, so automatic recovery refused to compete"@
    } else if mentions(detail, "quarantined recovery artifact"@) {
        "quarantined recovery artifacts already exist and automatic recovery stopped to preserve evidence"@
    } else if mentions(detail, "unhealthy sqlite candidate"@) || mentions(
        detail,
        "candidate activation failed"@,
    ) {
        "automatic recovery built a replacement SQLite candidate that failed validation"@
    } else if mentions(detail, "failed to quarantine"@) || mentions(detail, "rollback"@) {
        "automatic recovery could not safely quarantine or roll back mailbox artifacts"@
    } else if mentions(detail, "refusing blank reinitialization"@) || mentions(
        detail,
        "refusing archive salvage reconstruction"@,
    ) {
        "automatic recovery failed closed to avoid data loss while durable artifacts still exist"@
    } else {
        "automatic recovery did not produce a safe validated mailbox candidate"@
    }
}

/// Names the cause of a failed recovery.
pub fn classify_recovery_failure_root_cause(detail: &str) -> (r: String)
    ensures
        r@ == with_detail(recovery_cause(detail@), detail@),
{
    let compact = compact_probe_detail(detail);
    let lower = to_ascii_lower(compact.as_str());
    let l = lower.as_str();
    let cause = if contains(l, "mailbox mutation refused") || contains(
        l,
        "wait for the active owner to finish",
    ) || contains(l, "supervised restart or operator intervention") {
        "another process still owns the mailbox, so automatic recovery refused to compete"
    } else if contains(l, "quarantined recovery artifact") {
        "quarantined recovery artifacts already exist and automatic recovery stopped to preserve evidence"
    } else if contains(l, "unhealthy sqlite candidate") || contains(
        l,
        "candidate activation failed",
    ) {
        "automatic recovery built a replacement SQLite candidate that failed validation"
    } else if contains(l, "failed to quarantine") || contains(l, "rollback") {
        "automatic recovery could not safely quarantine or roll back mailbox artifacts"
    } else if contains(l, "refusing blank reinitialization") || contains(
        l,
        "refusing archive salvage reconstruction",
    ) {
        "automatic recovery failed closed to avoid data loss while durable artifacts still exist"
    } else {
        "automatic recovery did not produce a safe validated mailbox candidate"
    };
    show_cause(cause, compact.as_str())
}

/// The text between the first two single quotes of a message, without the
/// blanks around it, unless nothing is left.
pub open spec fn quoted_text(message: Seq<char>) -> Option<Seq<char>> {
    let parts = split_on(message, '\'');
    if parts.len() >= 3 && trimmed(parts[1]).len() > 0 {
        Some(trimmed(parts[1]))
    } else {
        None
    }
}

/// The path that a message quotes.
pub fn quoted_path_in_message(message: &str) -> (r: Option<String>)
    ensures
        match quoted_text(message@) {
            Some(text) => r matches Some(t) && t@ == text,
            None => r is None,
        },
{
    let parts = split(message, '\'');
    if parts.len() < 3 {
        return None;
    }
    assert(views(parts@)[1] == parts@[1]@);
    let quoted = trim(parts[1].as_str());
    if quoted.as_str().is_empty() {
        None
    } else {
        Some(quoted)
    }
}

/// The file name of a namespace sidecar of the database engine.
pub open spec fn is_sidecar_name(name: Seq<char>) -> bool {
    "-fsqlite-ns-gate"@.is_suffix_of(name) || "-fsqlite-ns-use"@.is_suffix_of(name)
}

/// Whether a file name is that of a namespace sidecar.
pub fn is_franken_namespace_sidecar_name(file_name: Option<&str>) -> (r: bool)
    ensures
        r <==> (file_name matches Some(name) && is_sidecar_name(name@)),
{
    match file_name {
        Some(name) => ends_with(name, "-fsqlite-ns-gate") || ends_with(name, "-fsqlite-ns-use"),
        None => false,
    }
}

/// What came of trying to open a sidecar as the engine does.
pub enum SidecarTrial {
    Opened,
    /// It is not there, and its path has no parent directory.
    NoParent,
    /// It is not there, and a file was created beside it.
    Created,
    /// It is not there, and no file could be created beside it.
    NotCreated { parent: String, error: String },
    OpenFailed { error: String },
}

/// Whether this process can use a sidecar, with the reason where it cannot.
pub fn namespace_sidecar_access_probe(trial: SidecarTrial) -> (r: Result<(), String>)
    ensures
        match trial {
            SidecarTrial::Opened => r is Ok,
            SidecarTrial::Created => r is Ok,
            SidecarTrial::NoParent => r matches Err(e) && e@
                == "the sidecar path has no parent directory"@,
            SidecarTrial::NotCreated { parent, error } => r matches Err(e) && e@
                == "the sidecar does not exist and a new file cannot be created in "@ + parent@
                + ": "@ + error@,
            SidecarTrial::OpenFailed { error } => r matches Err(e) && e@
                == "open read-write failed: "@ + error@,
        },
{
    match trial {
        SidecarTrial::Opened => Ok(()),
        SidecarTrial::Created => Ok(()),
        SidecarTrial::NoParent => Err("the sidecar path has no parent directory".to_owned()),
        SidecarTrial::NotCreated { parent, error } => Err(
            "the sidecar does not exist and a new file cannot be created in ".to_owned().concat(
                parent.as_str(),
            ).concat(": ").concat(error.as_str()),
        ),
        SidecarTrial::OpenFailed { error } => Err(
            "open read-write failed: ".to_owned().concat(error.as_str()),
        ),
    }
}

/// What is known of who owns a file.
pub enum Ownership {
    Known { mode: u32, uid: u32, gid: u32 },
    Unknown { error: String },
}

/// A file and its owner.
pub struct OwnedPath {
    pub path: String,
    pub ownership: Ownership,
}

/// A number in octal.
pub open spec fn octal(n: nat) -> Seq<char>
    decreases n,
{
    if n < 8 {
        seq![digit_char(n as int)]
    } else {
        octal(n / 8).push(digit_char((n % 8) as int))
    }
}

fn print_octal(n: u32) -> (r: String)
    ensures
        r@ == octal(n as nat),
    decreases n,
{
    let digit = (48 + (n % 8) as u8) as char;
    if n < 8 {
        let mut s = String::new();
        s.push(digit);
        assert(s@ =~= seq![digit_char(n as int)]);
        s
    } else {
        let mut s = print_octal(n / 8);
        s.push(digit);
        s
    }
}

/// A file with the permission bits of its mode and its owner.
pub open spec fn described(file: OwnedPath) -> Seq<char> {
    match file.ownership {
        Ownership::Known { mode, uid, gid } => file.path@ + " mode "@ + octal(
            (mode % 4096) as nat,
        ) + " uid "@ + decimal(uid as nat) + " gid "@ + decimal(gid as nat),
        Ownership::Unknown { error } => file.path@ + " "@ + error@,
    }
}

fn describe(file: &OwnedPath) -> (r: String)
    ensures
        r@ == described(*file),
{
    match &file.ownership {
        Ownership::Known { mode, uid, gid } => file.path.clone().concat(" mode ").concat(
            print_octal(*mode % 4096).as_str(),
        ).concat(" uid ").concat(print_u64(*uid as u64).as_str()).concat(" gid ").concat(
            print_u64(*gid as u64).as_str(),
        ),
        Ownership::Unknown { error } => file.path.clone().concat(" ").concat(error.as_str()),
    }
}

/// The parts of the summary of a sidecar's surroundings.
pub open spec fn summary_parts(
    sidecar: OwnedPath,
    parent: Option<OwnedPath>,
    identity: Seq<char>,
) -> Seq<Seq<char>> {
    match parent {
        Some(p) => seq![described(sidecar), described(p), "process "@ + identity],
        None => seq![described(sidecar), "process "@ + identity],
    }
}

/// Who owns a sidecar and its directory, and who this process is, on one line.
pub fn namespace_sidecar_environment_summary(
    sidecar: &OwnedPath,
    parent: Option<&OwnedPath>,
    identity: &str,
) -> (r: String)
    ensures
        r@ == joined(
            summary_parts(
                *sidecar,
                match parent {
                    Some(p) => Some(*p),
                    None => None,
                },
                identity@,
            ),
            "; "@,
        ),
{
    let mut parts: Vec<String> = Vec::new();
    parts.push(describe(sidecar));
    if let Some(p) = parent {
        parts.push(describe(p));
    }
    parts.push("process ".to_owned().concat(identity));
    proof {
        let shown = match parent {
            Some(p) => Some(*p),
            None => None,
        };
        assert(views(parts@) =~= summary_parts(*sidecar, shown, identity@));
    }
    join(&parts, "; ")
}

/// The first word behind a key, on the first line that starts with the key.
pub open spec fn status_field(ls: Seq<Seq<char>>, key: Seq<char>) -> Seq<char>
    decreases ls.len(),
{
    if ls.len() == 0 {
        "?"@
    } else if key.is_prefix_of(ls[0]) {
        let ws = words(ls[0].skip(key.len() as int));
        if ws.len() > 0 {
            ws[0]
        } else {
            "?"@
        }
    } else {
        status_field(ls.skip(1), key)
    }
}

fn field(ls: &Vec<String>, key: &str) -> (r: String)
    ensures
        r@ == status_field(views(ls@), key@),
{
    let ghost lv = views(ls@);
    let mut i: usize = 0;
    assert(lv.skip(0) =~= lv);
    while i < ls.len()
        invariant
            i <= ls@.len(),
            lv == views(ls@),
            status_field(lv, key@) == status_field(lv.skip(i as int), key@),
        decreases ls@.len() - i,
    {
        assert(lv[i as int] == ls@[i as int]@);
        assert(lv.skip(i as int)[0] == lv[i as int]);
        assert(lv.skip(i as int).skip(1) =~= lv.skip(i + 1));
        if starts_with(ls[i].as_str(), key) {
            let cs = crate::text::chars_of(ls[i].as_str());
            let from: usize = crate::text::chars_of(key).len();
            let rest = crate::text::text_of(cs.as_slice(), from, cs.len());
            assert(rest@ =~= ls@[i as int]@.skip(key@.len() as int));
            let ws = split_whitespace(rest.as_str());
            if ws.len() > 0 {
                assert(views(ws@)[0] == ws@[0]@);
                return ws[0].clone();
            }
            return "?".to_owned();
        }
        i = i + 1;
    }
    "?".to_owned()
}

/// Who this process is, by its identifier and the text of its status.
pub fn current_process_identity(pid: u32, status: &str) -> (r: String)
    ensures
        r@ == "pid "@ + decimal(pid as nat) + " uid "@ + status_field(lines_of(status@), "Uid:"@)
            + " gid "@ + status_field(lines_of(status@), "Gid:"@),
{
    let ls = lines(status);
    "pid ".to_owned().concat(print_u64(pid as u64).as_str()).concat(" uid ").concat(
        field(&ls, "Uid:").as_str(),
    ).concat(" gid ").concat(field(&ls, "Gid:").as_str())
}

/// The path that a message names which says that a database cannot be opened.
pub open spec fn unopenable_path(detail: Seq<char>) -> Option<Seq<char>> {
    if has_text(ascii_lower(detail), "unable to open database"@) {
        quoted_text(detail)
    } else {
        None
    }
}

/// The path of a file that the engine could not open.
pub fn unopenable_path_in_message(detail: &str) -> (r: Option<String>)
    ensures
        match unopenable_path(detail@) {
            Some(path) => r matches Some(p) && p@ == path,
            None => r is None,
        },
{
    let lower = to_ascii_lower(detail);
    if contains(lower.as_str(), "unable to open database") {
        quoted_path_in_message(detail)
    } else {
        None
    }
}

/// A message by which the engine reports that it cannot open a sidecar of this
/// file name.
pub open spec fn reports_sidecar(detail: Seq<char>, file_name: Option<Seq<char>>) -> bool {
    unopenable_path(detail) is Some && (file_name matches Some(name) && is_sidecar_name(name))
}

/// The problem where this process cannot use a sidecar.
pub open spec fn unusable_sidecar_problem(
    sidecar: Seq<char>,
    database: Seq<char>,
    reason: Seq<char>,
    context: Seq<char>,
) -> Seq<char> {
    "FrankenSQLite cannot open its namespace sidecar "@ + sidecar + " for "@ + database + ": "@
        + reason
        + ". The mailbox is not busy; this is a filesystem access problem ("@ + context
        + "). No recovery was attempted."@
}

/// The problem where the engine refuses a sidecar that this process can use.
pub open spec fn refused_sidecar_problem(
    sidecar: Seq<char>,
    database: Seq<char>,
    context: Seq<char>,
) -> Seq<char> {
    "FrankenSQLite could not open its namespace sidecar "@ + sidecar + " for "@ + database
        + " although this process can open it ("@ + context
        + "). The engine refused a sidecar it did not create, most likely one left by a different user or an aborted run. No recovery was attempted."@
}

/// Explains a message that the engine cannot open one of its sidecars.
/// `file_name` is the file name of the path that the message quotes, `access`
/// whether this process can use it, and `context` who owns it.
pub fn diagnose_unopenable_namespace_sidecar(
    detail: &str,
    file_name: Option<&str>,
    database: &str,
    access: Result<(), String>,
    context: &str,
) -> (r: Option<ProbeResult>)
    ensures
        if reports_sidecar(detail@, crate::text::opt_view(file_name)) {
            r matches Some(result) && match access {
                Err(reason) => result.failed(
                    "integrity"@,
                    unusable_sidecar_problem(
                        unopenable_path(detail@)->0,
                        database@,
                        reason@,
                        context@,
                    ),
                    "Make the mailbox directory and its storage.sqlite3-fsqlite-ns-* sidecars readable and writable by the user running the server (chown/chmod, or the pod's runAsUser/fsGroup), keep the volume mounted read-write, then restart. Nothing needs repair."@,
                ),
                Ok(_) => result.failed(
                    "integrity"@,
                    refused_sidecar_problem(unopenable_path(detail@)->0, database@, context@),
                    "Confirm no Agent Mail process owns the mailbox (`am doctor locks`), then remove the stale storage.sqlite3-fsqlite-ns-gate and storage.sqlite3-fsqlite-ns-use pair (or chown them to the server user) and restart."@,
                ),
            }
        } else {
            r is None
        },
{
    let sidecar = match unopenable_path_in_message(detail) {
        Some(sidecar) => sidecar,
        None => {
            return None;
        },
    };
    if !is_franken_namespace_sidecar_name(file_name) {
        return None;
    }
    match access {
        Err(reason) => Some(
            fail(
                "integrity",
                "FrankenSQLite cannot open its namespace sidecar ".to_owned().concat(
                    sidecar.as_str(),
                ).concat(" for ").concat(database).concat(": ").concat(reason.as_str()).concat(
                    ". The mailbox is not busy; this is a filesystem access problem (",
                ).concat(context).concat("). No recovery was attempted."),
                "Make the mailbox directory and its storage.sqlite3-fsqlite-ns-* sidecars readable and writable by the user running the server (chown/chmod, or the pod's runAsUser/fsGroup), keep the volume mounted read-write, then restart. Nothing needs repair.".to_owned(),
            ),
        ),
        Ok(_) => Some(
            fail(
                "integrity",
                "FrankenSQLite could not open its namespace sidecar ".to_owned().concat(
                    sidecar.as_str(),
                ).concat(" for ").concat(database).concat(
                    " although this process can open it (",
                ).concat(context).concat(
                    "). The engine refused a sidecar it did not create, most likely one left by a different user or an aborted run. No recovery was attempted.",
                ),
                "Confirm no Agent Mail process owns the mailbox (`am doctor locks`), then remove the stale storage.sqlite3-fsqlite-ns-gate and storage.sqlite3-fsqlite-ns-use pair (or chown them to the server user) and restart.".to_owned(),
            ),
        ),
    }
}

/// A phrase stands at a place of a text, whatever the case of its letters.
pub open spec fn said_at(text: Seq<char>, phrase: Seq<char>, i: int) -> bool {
    0 <= i && i + phrase.len() <= text.len() && same_ignoring_ascii_case(
        text.subrange(i, i + phrase.len()),
        phrase,
    )
}

/// A phrase stands somewhere in a text, whatever the case of its letters.
pub open spec fn says(text: Seq<char>, phrase: Seq<char>) -> bool {
    exists|i: int| said_at(text, phrase, i)
}

proof fn lemma_says(text: Seq<char>, phrase: Seq<char>)
    requires
        ascii_lower(phrase) == phrase,
    ensures
        says(text, phrase) <==> has_text(ascii_lower(text), phrase),
{
    let lower = ascii_lower(text);
    assert forall|i: int| said_at(text, phrase, i) <==> occurs_at(lower, phrase, i) by {
        if 0 <= i && i + phrase.len() <= text.len() {
            assert(ascii_lower(text.subrange(i, i + phrase.len())) =~= lower.subrange(
                i,
                i + phrase.len(),
            ));
        }
    }
    if says(text, phrase) {
        let i = choose|i: int| said_at(text, phrase, i);
        assert(occurs_at(lower, phrase, i));
    }
    if has_text(lower, phrase) {
        let i = choose|i: int| occurs_at(lower, phrase, i);
        assert(said_at(text, phrase, i));
    }
}

proof fn lemma_words_hold_something(s: Seq<char>)
    ensures
        words(s).len() == 0 <==> (forall|i: int| 0 <= i < s.len() ==> is_space(#[trigger] s[i])),
        forall|k: int| 0 <= k < words(s).len() ==> (#[trigger] words(s)[k]).len() > 0,
    decreases s.len(),
{
    if s.len() > 0 {
        let rest = s.drop_last();
        lemma_words_hold_something(rest);
        let before = words(rest);
        if is_space(s.last()) {
            if words(s).len() == 0 {
                assert forall|i: int| 0 <= i < s.len() implies is_space(#[trigger] s[i]) by {
                    if i < rest.len() {
                        assert(is_space(rest[i]));
                    }
                }
            }
            if forall|i: int| 0 <= i < s.len() ==> is_space(#[trigger] s[i]) {
                assert forall|i: int| 0 <= i < rest.len() implies is_space(#[trigger] rest[i]) by {
                    assert(rest[i] == s[i]);
                }
            }
        } else {
            assert(!is_space(s[s.len() - 1]));
            if rest.len() > 0 && !is_space(rest.last()) {
                assert(!is_space(rest[rest.len() - 1]));
                assert forall|k: int| 0 <= k < words(s).len() implies (#[trigger] words(s)[k]).len()
                    > 0 by {
                    if k < before.len() - 1 {
                        assert(words(s)[k] == before[k]);
                    }
                }
            } else {
                assert forall|k: int| 0 <= k < words(s).len() implies (#[trigger] words(s)[k]).len()
                    > 0 by {
                    if k < before.len() {
                        assert(words(s)[k] == before[k]);
                    }
                }
            }
        }
    }
}

/// On one line the words of a detail stand one blank apart: a word more behind
/// it comes behind a blank, white space at the end goes, and where there is no
/// word at all the error is unspecified.
pub proof fn law_a_detail_is_put_on_one_line(
    detail: &str,
    c: char,
    word: Seq<char>,
    longer: &str,
    r: String,
    s: String,
)
    requires
        is_space(c),
        forall|i: int| 0 <= i < word.len() ==> !is_space(#[trigger] word[i]),
        longer@ == detail@.push(c) + word,
        call_ensures(compact_probe_detail, (detail,), r),
        call_ensures(compact_probe_detail, (longer,), s),
    ensures
        (forall|i: int| 0 <= i < detail@.len() ==> is_space(#[trigger] detail@[i])) ==> r@
            == "unspecified error"@,
        (forall|i: int| 0 <= i < detail@.len() ==> is_space(#[trigger] detail@[i])) && word.len()
            > 0 ==> s@ == word,
        (exists|i: int| 0 <= i < detail@.len() && !is_space(#[trigger] detail@[i])) && word.len()
            > 0 ==> s@ == r@ + seq![' '] + word,
        word.len() == 0 ==> s@ == r@,
{
    reveal_strlit(" ");
    assert(" "@ =~= seq![' ']);
    let ws = words(detail@);
    law_words_are_taken_one_by_one(detail@, c, word);
    lemma_words_hold_something(detail@);
    if word.len() == 0 {
        assert(longer@ =~= detail@.push(c));
    } else {
        law_joining(ws, word, " "@);
        if ws.len() == 0 {
            assert(ws.push(word) =~= seq![word]);
        } else {
            assert(ws[ws.len() - 1].len() > 0);
            assert(joined(ws, " "@).len() > 0);
        }
    }
}

/// Why a mailbox is busy is told by what the detail says, most telling first,
/// and the detail follows in brackets.
pub proof fn law_what_tells_why_a_mailbox_is_busy(detail: &str, compact: String, r: String)
    requires
        call_ensures(compact_probe_detail, (detail,), compact),
        call_ensures(classify_integrity_busy_root_cause, (detail,), r),
    ensures
        ({
            let c = compact@;
            let held = says(c, "mailbox activity lock is busy"@);
            let locked = says(c, "database is locked"@) || says(c, "database is busy"@) || says(
                c,
                "resource temporarily unavailable"@,
            ) || says(c, "busy timeout"@);
            &&& held ==> r@
                == "mailbox activity lock is already held by another Agent Mail runtime or mutating `am doctor` command"@
                + " ("@ + c + ")"@
            &&& locked && !held ==> r@
                == "SQLite reports a concurrent writer, recovery owner, or file lock on the mailbox"@
                + " ("@ + c + ")"@
            &&& !locked && !held ==> r@ == "mailbox is busy and could not be probed safely"@ + " ("@
                + c + ")"@
        }),
{
    let c = compact@;
    reveal_strlit("mailbox activity lock is busy");
    assert(ascii_lower("mailbox activity lock is busy"@) =~= "mailbox activity lock is busy"@);
    lemma_says(c, "mailbox activity lock is busy"@);
    reveal_strlit("database is locked");
    assert(ascii_lower("database is locked"@) =~= "database is locked"@);
    lemma_says(c, "database is locked"@);
    reveal_strlit("database is busy");
    assert(ascii_lower("database is busy"@) =~= "database is busy"@);
    lemma_says(c, "database is busy"@);
    reveal_strlit("resource temporarily unavailable");
    assert(ascii_lower("resource temporarily unavailable"@) =~= "resource temporarily unavailable"@);
    lemma_says(c, "resource temporarily unavailable"@);
    reveal_strlit("busy timeout");
    assert(ascii_lower("busy timeout"@) =~= "busy timeout"@);
    lemma_says(c, "busy timeout"@);
}

/// Why a mailbox cannot be opened is told by what the detail says, and the
/// detail follows in brackets.
pub proof fn law_what_tells_why_a_mailbox_cannot_be_opened(
    detail: &str,
    compact: String,
    r: String,
)
    requires
        call_ensures(compact_probe_detail, (detail,), compact),
        call_ensures(classify_integrity_open_root_cause, (detail,), r),
    ensures
        ({
            let c = compact@;
            let denied = says(c, "permission denied"@);
            let missing = says(c, "no such file or directory"@);
            let read_only = says(c, "read-only"@) || says(c, "readonly"@);
            &&& denied ==> r@ == "filesystem permissions blocked opening the SQLite mailbox"@ + " ("@
                + c + ")"@
            &&& missing && !denied ==> r@
                == "the SQLite path or its parent directory does not exist"@ + " ("@ + c + ")"@
            &&& read_only && !missing && !denied ==> r@
                == "the SQLite mailbox is read-only but startup needs write-capable access"@
                + " ("@ + c + ")"@
            &&& !read_only && !missing && !denied ==> r@
                == "pool initialization failed before the integrity probe could inspect the mailbox"@
                + " ("@ + c + ")"@
        }),
{
    let c = compact@;
    reveal_strlit("permission denied");
    assert(ascii_lower("permission denied"@) =~= "permission denied"@);
    lemma_says(c, "permission denied"@);
    reveal_strlit("no such file or directory");
    assert(ascii_lower("no such file or directory"@) =~= "no such file or directory"@);
    lemma_says(c, "no such file or directory"@);
    reveal_strlit("read-only");
    assert(ascii_lower("read-only"@) =~= "read-only"@);
    lemma_says(c, "read-only"@);
    reveal_strlit("readonly");
    assert(ascii_lower("readonly"@) =~= "readonly"@);
    lemma_says(c, "readonly"@);
}

/// Why a recovery failed is told by what the detail says: that somebody owns
/// the mailbox comes before all else, then what was left of an earlier attempt,
/// then what this one could not do. The detail follows in brackets.
pub proof fn law_what_tells_why_a_recovery_failed(detail: &str, compact: String, r: String)
    requires
        call_ensures(compact_probe_detail, (detail,), compact),
        call_ensures(classify_recovery_failure_root_cause, (detail,), r),
    ensures
        ({
            let c = compact@;
            let owned = says(c, "mailbox mutation refused"@) || says(
                c,
                "wait for the active owner to finish"@,
            ) || says(c, "supervised restart or operator intervention"@);
            let left = says(c, "quarantined recovery artifact"@);
            let unhealthy = says(c, "unhealthy sqlite candidate"@) || says(
                c,
                "candidate activation failed"@,
            );
            let stuck = says(c, "failed to quarantine"@) || says(c, "rollback"@);
            let closed = says(c, "refusing blank reinitialization"@) || says(
                c,
                "refusing archive salvage reconstruction"@,
            );
            let end = " ("@ + c + ")"@;
            &&& owned ==> r@
                == "another process still owns the mailbox, so automatic recovery refused to compete"@
                + end
            &&& left && !owned ==> r@
                == "quarantined recovery artifacts already exist and automatic recovery stopped to preserve evidence"@
                + end
            &&& unhealthy && !left && !owned ==> r@
                == "automatic recovery built a replacement SQLite candidate that failed validation"@
                + end
            &&& stuck && !unhealthy && !left && !owned ==> r@
                == "automatic recovery could not safely quarantine or roll back mailbox artifacts"@
                + end
            &&& closed && !stuck && !unhealthy && !left && !owned ==> r@
                == "automatic recovery failed closed to avoid data loss while durable artifacts still exist"@
                + end
            &&& !closed && !stuck && !unhealthy && !left && !owned ==> r@
                == "automatic recovery did not produce a safe validated mailbox candidate"@ + end
        }),
{
    let c = compact@;
    reveal_strlit("mailbox mutation refused");
    assert(ascii_lower("mailbox mutation refused"@) =~= "mailbox mutation refused"@);
    lemma_says(c, "mailbox mutation refused"@);
    reveal_strlit("wait for the active owner to finish");
    assert(ascii_lower("wait for the active owner to finish"@) =~= "wait for the active owner to finish"@);
    lemma_says(c, "wait for the active owner to finish"@);
    reveal_strlit("supervised restart or operator intervention");
    assert(ascii_lower("supervised restart or operator intervention"@) =~= "supervised restart or operator intervention"@);
    lemma_says(c, "supervised restart or operator intervention"@);
    reveal_strlit("quarantined recovery artifact");
    assert(ascii_lower("quarantined recovery artifact"@) =~= "quarantined recovery artifact"@);
    lemma_says(c, "quarantined recovery artifact"@);
    reveal_strlit("unhealthy sqlite candidate");
    assert(ascii_lower("unhealthy sqlite candidate"@) =~= "unhealthy sqlite candidate"@);
    lemma_says(c, "unhealthy sqlite candidate"@);
    reveal_strlit("candidate activation failed");
    assert(ascii_lower("candidate activation failed"@) =~= "candidate activation failed"@);
    lemma_says(c, "candidate activation failed"@);
    reveal_strlit("failed to quarantine");
    assert(ascii_lower("failed to quarantine"@) =~= "failed to quarantine"@);
    lemma_says(c, "failed to quarantine"@);
    reveal_strlit("rollback");
    assert(ascii_lower("rollback"@) =~= "rollback"@);
    lemma_says(c, "rollback"@);
    reveal_strlit("refusing blank reinitialization");
    assert(ascii_lower("refusing blank reinitialization"@) =~= "refusing blank reinitialization"@);
    lemma_says(c, "refusing blank reinitialization"@);
    reveal_strlit("refusing archive salvage reconstruction");
    assert(ascii_lower("refusing archive salvage reconstruction"@) =~= "refusing archive salvage reconstruction"@);
    lemma_says(c, "refusing archive salvage reconstruction"@);
    let cause = recovery_cause(detail@);
    assert(cause + " ("@ + c + ")"@ =~= cause + (" ("@ + c + ")"@));
}

/// The path that a message quotes is what stands between its first two single
/// quotes, without the blanks around it; with fewer quotes, or nothing between
/// them, there is none.
pub proof fn law_a_quoted_path_stands_between_quotes(
    before: Seq<char>,
    lead: Seq<char>,
    path: Seq<char>,
    trail: Seq<char>,
    behind: Seq<char>,
    closed: &str,
    open: &str,
    bare: &str,
    r: Option<String>,
    s: Option<String>,
    t: Option<String>,
)
    requires
        !before.contains('\''),
        !lead.contains('\'') && !path.contains('\'') && !trail.contains('\''),
        forall|i: int| 0 <= i < lead.len() ==> is_space(#[trigger] lead[i]),
        forall|i: int| 0 <= i < trail.len() ==> is_space(#[trigger] trail[i]),
        path.len() > 0 ==> !is_space(path[0]) && !is_space(path[path.len() - 1]),
        bare@ == before,
        open@ == before + seq!['\''] + (lead + path + trail),
        closed@ == before + seq!['\''] + (lead + path + trail) + seq!['\''] + behind,
        call_ensures(quoted_path_in_message, (closed,), r),
        call_ensures(quoted_path_in_message, (open,), s),
        call_ensures(quoted_path_in_message, (bare,), t),
    ensures
        path.len() > 0 ==> (r matches Some(found) && found@ == path),
        path.len() == 0 ==> r is None,
        s is None,
        t is None,
{
    let q = '\'';
    let middle = lead + path + trail;
    law_trimming(lead, path, trail);
    if middle.contains(q) {
        let k = choose|k: int| 0 <= k < middle.len() && middle[k] == q;
        if k < lead.len() {
            assert(lead[k] == q);
        } else if k < lead.len() + path.len() {
            assert(path[k - lead.len()] == q);
        } else {
            assert(trail[k - lead.len() - path.len()] == q);
        }
    }
    lemma_split_of_field(before, q);
    lemma_split_of_field(middle, q);
    lemma_split_on_concat(before, middle, q);
    assert(open@ =~= before.push(q) + middle);
    lemma_split_on_concat(open@, behind, q);
    assert(closed@ =~= open@.push(q) + behind);
    lemma_split_on_nonempty(behind, q);
    assert(split_on(closed@, q)[1] == middle);
}

/// A sidecar of the namespace is known by how its name ends.
pub proof fn law_sidecars_are_known_by_their_ends(base: Seq<char>, name: &str, r: bool, n: bool)
    requires
        call_ensures(is_franken_namespace_sidecar_name, (Some(name),), r),
        call_ensures(is_franken_namespace_sidecar_name, (None,), n),
    ensures
        name@ == base + "-fsqlite-ns-gate"@ ==> r,
        name@ == base + "-fsqlite-ns-use"@ ==> r,
        r ==> name@ == name@.take(name@.len() - 16) + "-fsqlite-ns-gate"@ || name@ == name@.take(
            name@.len() - 15,
        ) + "-fsqlite-ns-use"@,
        !n,
{
    reveal_strlit("-fsqlite-ns-gate");
    reveal_strlit("-fsqlite-ns-use");
    let g = "-fsqlite-ns-gate"@;
    let u = "-fsqlite-ns-use"@;
    if name@ == base + g {
        assert(g =~= name@.subrange(name@.len() - g.len(), name@.len() as int));
    }
    if name@ == base + u {
        assert(u =~= name@.subrange(name@.len() - u.len(), name@.len() as int));
    }
    if g.is_suffix_of(name@) {
        assert(name@ =~= name@.take(name@.len() - 16) + g);
    }
    if u.is_suffix_of(name@) {
        assert(name@ =~= name@.take(name@.len() - 15) + u);
    }
}

/// A sidecar can be used where it was opened or one could be created; else the
/// reason ends with the error.
pub proof fn law_which_sidecars_can_be_used(trial: SidecarTrial, r: Result<(), String>)
    requires
        call_ensures(namespace_sidecar_access_probe, (trial,), r),
    ensures
        r is Ok <==> trial is Opened || trial is Created,
        trial is OpenFailed ==> trial->OpenFailed_error@.is_suffix_of(r->Err_0@),
        trial is NotCreated ==> (trial->parent@ + ": "@ + trial->NotCreated_error@).is_suffix_of(
            r->Err_0@,
        ),
{
    if trial is OpenFailed {
        let e = trial->OpenFailed_error@;
        assert(e =~= r->Err_0@.subrange(r->Err_0@.len() - e.len(), r->Err_0@.len() as int));
    }
    if trial is NotCreated {
        let e = trial->parent@ + ": "@ + trial->NotCreated_error@;
        assert(e =~= r->Err_0@.subrange(r->Err_0@.len() - e.len(), r->Err_0@.len() as int));
    }
}

/// The octal digits of a number stand for it.
pub proof fn law_octal_digits_stand_for_the_number(n: nat)
    ensures
        digits_value(octal(n), 8) == n,
        octal(n).len() > 0,
        forall|i: int| 0 <= i < octal(n).len() ==> '0' <= #[trigger] octal(n)[i] <= '7',
        n >= 8 ==> octal(n)[0] != '0',
    decreases n,
{
    if n < 8 {
        assert(octal(n).drop_last() =~= Seq::<char>::empty());
        assert(digits_value(octal(n).drop_last(), 8) == 0);
    } else {
        let m = n / 8;
        law_octal_digits_stand_for_the_number(m);
        assert(octal(n).drop_last() =~= octal(m));
        assert(octal(n)[0] == octal(m)[0]);
        if m < 8 {
            assert(octal(m)[0] == digit_char(m as int));
        }
        assert forall|i: int| 0 <= i < octal(n).len() implies '0' <= #[trigger] octal(n)[i]
            <= '7' by {
            if i < octal(m).len() {
                assert(octal(n)[i] == octal(m)[i]);
            }
        }
    }
}

/// The surroundings of a sidecar: its own mode in octal without the kind of
/// file, and its owner; the same of its directory; and the process.
pub proof fn law_the_surroundings_of_a_sidecar(
    sidecar: OwnedPath,
    parent: OwnedPath,
    identity: &str,
    r: String,
    s: String,
)
    requires
        sidecar.ownership is Known,
        parent.ownership is Unknown,
        call_ensures(namespace_sidecar_environment_summary, (&sidecar, None, identity), r),
        call_ensures(namespace_sidecar_environment_summary, (&sidecar, Some(&parent), identity), s),
    ensures
        ({
            let bits = sidecar.ownership->mode as int % 4096;
            let first = sidecar.path@ + " mode "@ + octal(bits as nat) + " uid "@ + decimal(
                sidecar.ownership->uid as nat,
            ) + " gid "@ + decimal(sidecar.ownership->gid as nat);
            &&& r@ == first + "; "@ + ("process "@ + identity@)
            &&& s@ == first + "; "@ + (parent.path@ + " "@ + parent.ownership->error@) + "; "@ + (
            "process "@ + identity@)
        }),
{
    let a = described(sidecar);
    let b = described(parent);
    let p = "process "@ + identity@;
    law_joining(seq![a], p, "; "@);
    assert(seq![a].push(p) =~= seq![a, p]);
    law_joining(seq![a], b, "; "@);
    assert(seq![a].push(b) =~= seq![a, b]);
    law_joining(seq![a, b], p, "; "@);
    assert(seq![a, b].push(p) =~= seq![a, b, p]);
}

proof fn lemma_status_field(ls: Seq<Seq<char>>, key: Seq<char>, at: int)
    requires
        0 <= at <= ls.len(),
        forall|k: int| 0 <= k < at ==> !key.is_prefix_of(#[trigger] ls[k]),
    ensures
        status_field(ls, key) == status_field(ls.skip(at), key),
    decreases at,
{
    if at == 0 {
        assert(ls.skip(0) =~= ls);
    } else {
        assert(!key.is_prefix_of(ls[0]));
        let rest = ls.skip(1);
        assert forall|k: int| 0 <= k < at - 1 implies !key.is_prefix_of(#[trigger] rest[k]) by {
            assert(rest[k] == ls[k + 1]);
        }
        lemma_status_field(rest, key, at - 1);
        assert(rest.skip(at - 1) =~= ls.skip(at));
    }
}

/// A line of the status that gives a word for a key, before others.
pub open spec fn gives(
    ls: Seq<Seq<char>>,
    at: int,
    key: Seq<char>,
    c: char,
    word: Seq<char>,
    d: char,
    behind: Seq<char>,
) -> bool {
    &&& 0 <= at < ls.len()
    &&& forall|k: int| 0 <= k < at ==> !key.is_prefix_of(#[trigger] ls[k])
    &&& is_space(c) && is_space(d) && word.len() > 0
    &&& forall|i: int| 0 <= i < word.len() ==> !is_space(#[trigger] word[i])
    &&& ls[at] == key + (seq![c] + word + seq![d] + behind)
}

proof fn lemma_given(
    ls: Seq<Seq<char>>,
    at: int,
    key: Seq<char>,
    c: char,
    word: Seq<char>,
    d: char,
    behind: Seq<char>,
)
    requires
        gives(ls, at, key, c, word, d, behind),
    ensures
        status_field(ls, key) == word,
{
    lemma_status_field(ls, key, at);
    let rest = ls.skip(at);
    assert(rest[0] == ls[at]);
    assert(key =~= rest[0].take(key.len() as int));
    assert(key.is_prefix_of(rest[0]));
    let value = seq![c] + word + seq![d] + behind;
    assert(rest[0].skip(key.len() as int) =~= value);
    let none = Seq::<char>::empty();
    law_words_are_taken_one_by_one(none, c, word);
    assert(none.push(c) + word =~= seq![c] + word);
    assert(words(none).push(word) =~= seq![word]);
    lemma_words_go_on(seq![c] + word, d, behind);
    let ws = words(value);
    assert(seq![word].is_prefix_of(ws));
    assert(ws.len() >= 1 && ws[0] == seq![word][0]) by {
        assert(ws.subrange(0, 1) == seq![word]);
        assert(ws.subrange(0, 1)[0] == ws[0]);
    }
}

/// A process is known by its number and by the first words on the lines of its
/// users and groups; where there is no such line a question mark stands.
pub proof fn law_who_a_process_is(
    pid: u32,
    status: &str,
    i: int,
    uid: Seq<char>,
    behind_uid: Seq<char>,
    j: int,
    gid: Seq<char>,
    behind_gid: Seq<char>,
    c: char,
    r: String,
)
    requires
        call_ensures(current_process_identity, (pid, status), r),
    ensures
        ({
            let ls = lines_of(status@);
            let no_uid = forall|k: int| 0 <= k < ls.len() ==> !"Uid:"@.is_prefix_of(#[trigger] ls[k]);
            let no_gid = forall|k: int| 0 <= k < ls.len() ==> !"Gid:"@.is_prefix_of(#[trigger] ls[k]);
            let start = "pid "@ + decimal(pid as nat) + " uid "@;
            &&& gives(ls, i, "Uid:"@, c, uid, c, behind_uid) && gives(
                ls,
                j,
                "Gid:"@,
                c,
                gid,
                c,
                behind_gid,
            ) ==> r@ == start + uid + " gid "@ + gid
            &&& no_uid && no_gid ==> r@ == start + "?"@ + " gid "@ + "?"@
        }),
{
    let ls = lines_of(status@);
    if gives(ls, i, "Uid:"@, c, uid, c, behind_uid) && gives(
        ls,
        j,
        "Gid:"@,
        c,
        gid,
        c,
        behind_gid,
    ) {
        lemma_given(ls, i, "Uid:"@, c, uid, c, behind_uid);
        lemma_given(ls, j, "Gid:"@, c, gid, c, behind_gid);
    }
    if (forall|k: int| 0 <= k < ls.len() ==> !"Uid:"@.is_prefix_of(#[trigger] ls[k])) && (forall|
        k: int,
    |
        0 <= k < ls.len() ==> !"Gid:"@.is_prefix_of(#[trigger] ls[k])) {
        lemma_status_field(ls, "Uid:"@, ls.len() as int);
        lemma_status_field(ls, "Gid:"@, ls.len() as int);
    }
}

/// The path that a message quotes counts where it says that a database could
/// not be opened, and only there.
pub proof fn law_only_a_failed_open_names_a_path(
    detail: &str,
    quoted: Option<String>,
    r: Option<String>,
)
    requires
        call_ensures(quoted_path_in_message, (detail,), quoted),
        call_ensures(unopenable_path_in_message, (detail,), r),
    ensures
        r is Some <==> says(detail@, "unable to open database"@) && quoted is Some,
        r is Some ==> r->0@ == quoted->0@,
{
    let c = detail@;
    reveal_strlit("unable to open database");
    assert(ascii_lower("unable to open database"@) =~= "unable to open database"@);
    lemma_says(c, "unable to open database"@);
}

/// A message is explained where it names a sidecar that could not be opened,
/// and only there. The failure tells the path, the database and the context,
/// and, where this process cannot use the sidecar, why.
pub proof fn law_which_messages_are_explained(
    detail: &str,
    path: Option<String>,
    file_name: Option<&str>,
    is_sidecar: bool,
    database: &str,
    access: Result<(), String>,
    context: &str,
    r: Option<ProbeResult>,
)
    requires
        call_ensures(unopenable_path_in_message, (detail,), path),
        call_ensures(is_franken_namespace_sidecar_name, (file_name,), is_sidecar),
        call_ensures(
            diagnose_unopenable_namespace_sidecar,
            (detail, file_name, database, access, context),
            r,
        ),
    ensures
        r is Some <==> path is Some && is_sidecar,
        r is Some ==> (r->0 matches ProbeResult::Fail(f) && f.name@ == "integrity"@ && match access {
            Err(reason) => f.problem@ == "FrankenSQLite cannot open its namespace sidecar "@
                + path->0@ + " for "@ + database@ + ": "@ + reason@
                + ". The mailbox is not busy; this is a filesystem access problem ("@ + context@
                + "). No recovery was attempted."@,
            Ok(_) => f.problem@ == "FrankenSQLite could not open its namespace sidecar "@
                + path->0@ + " for "@ + database@ + " although this process can open it ("@
                + context@
                + "). The engine refused a sidecar it did not create, most likely one left by a different user or an aborted run. No recovery was attempted."@,
        }),
{
}

} // verus!
