//! What is known of other processes: their command lines, the files and locks
//! they hold, and whether they are servers of ours.

use vstd::prelude::*;

use crate::hosts::{find_last, last_position};
use crate::name_status::{from_utf8_lossy, lossy};
use crate::numbers::{decimal, parse_hex_u32, parse_u32, parse_u64, parsed_unsigned, print_u64};
use crate::text::{
    ascii_lower, char_is_space, chars_of, is_space, join, joined, lines, lines_of, occurs, same,
    same_ignoring_ascii_case, split, split_on, split_whitespace, starts_with, text_of,
    to_ascii_lower, trim, trimmed, trimmed_start, views, words,
};

verus! {

/// What stands behind the last slash or backslash.
pub open spec fn base_name(s: Seq<char>) -> Seq<char>
    decreases s.len(),
{
    if s.len() == 0 || s.last() == '/' || s.last() == '\\' {
        Seq::empty()
    } else {
        base_name(s.drop_last()).push(s.last())
    }
}

proof fn lemma_base_name(s: Seq<char>, from: int)
    requires
        0 <= from <= s.len(),
        forall|k: int| from <= k < s.len() ==> s[k] != '/' && s[k] != '\\',
        from > 0 ==> s[from - 1] == '/' || s[from - 1] == '\\',
    ensures
        base_name(s) == s.skip(from),
    decreases s.len() - from,
{
    if from == s.len() {
        assert(s.skip(from) =~= Seq::<char>::empty());
    } else {
        lemma_base_name(s.drop_last(), from);
        assert(s.skip(from) =~= s.drop_last().skip(from).push(s.last()));
    }
}

fn basename(s: &str) -> (r: String)
    ensures
        r@ == base_name(s@),
{
    let cs = chars_of(s);
    let n: usize = cs.len();
    let mut from: usize = n;
    while from > 0 && cs[from - 1] != '/' && cs[from - 1] != '\\'
        invariant
            from <= n,
            n == cs@.len(),
            forall|k: int| from <= k < n ==> cs@[k] != '/' && cs@[k] != '\\',
        decreases from,
    {
        from = from - 1;
    }
    proof {
        lemma_base_name(s@, from as int);
        assert(cs@.subrange(from as int, n as int) =~= s@.skip(from as int));
    }
    text_of(cs.as_slice(), from, n)
}

/// The name of an executable of ours, in lower case.
pub open spec fn is_server_name(name: Seq<char>) -> bool {
    let n = ascii_lower(name);
    ||| n == "am"@
    ||| n == "am.exe"@
    ||| n == "agent-mail"@
    ||| n == "agent-mail.exe"@
    ||| n == "agent_mail"@
    ||| n == "agent_mail.exe"@
    ||| n == "mcp-agent-mail"@
    ||| n == "mcp_agent_mail"@
    ||| n == "mcp-agent-mail.exe"@
    ||| n == "mcp_agent_mail.exe"@
    ||| n == "mcp-agent-mail-cli"@
    ||| n == "mcp_agent_mail_cli"@
    ||| n == "mcp-agent-mail-cli.exe"@
    ||| n == "mcp_agent_mail_cli.exe"@
}

/// Whether an executable is one of ours, by its whole name in any case.
pub fn executable_name_has_agent_mail_signature(name: &str) -> (r: bool)
    ensures
        r == is_server_name(name@),
{
    let n = to_ascii_lower(name);
    let n = n.as_str();
    same(n, "am") || same(n, "am.exe") || same(n, "agent-mail") || same(n, "agent-mail.exe")
        || same(n, "agent_mail") || same(n, "agent_mail.exe") || same(n, "mcp-agent-mail") || same(
        n,
        "mcp_agent_mail",
    ) || same(n, "mcp-agent-mail.exe") || same(n, "mcp_agent_mail.exe") || same(
        n,
        "mcp-agent-mail-cli",
    ) || same(n, "mcp_agent_mail_cli") || same(n, "mcp-agent-mail-cli.exe") || same(
        n,
        "mcp_agent_mail_cli.exe",
    )
}

/// A command line runs an executable of ours.
pub open spec fn is_server_command(command: Seq<char>) -> bool {
    words(command).len() > 0 && is_server_name(base_name(words(command)[0]))
}

/// Whether a command line runs an executable of ours: only its first word
/// counts, not its arguments.
pub fn command_line_has_agent_mail_signature(command: &str) -> (r: bool)
    ensures
        r == is_server_command(command@),
{
    let parts = split_whitespace(command);
    if parts.len() == 0 {
        return false;
    }
    assert(parts@[0]@ == words(command@)[0]);
    executable_name_has_agent_mail_signature(basename(parts[0].as_str()).as_str())
}

/// Whether a process is a server of ours, by its command line or the name of
/// its executable, as far as they are known.
pub fn pid_is_agent_mail(command: Option<&str>, executable: Option<&str>) -> (r: bool)
    ensures
        r == ((command matches Some(c) && is_server_command(c@)) || (executable matches Some(e)
            && is_server_name(e@))),
{
    let by_command = match command {
        Some(c) => command_line_has_agent_mail_signature(c),
        None => false,
    };
    let by_name = match executable {
        Some(e) => executable_name_has_agent_mail_signature(e),
        None => false,
    };
    by_command || by_name
}

/// The arguments that are not empty, as text.
pub open spec fn shown_arguments(fields: Seq<Seq<u8>>) -> Seq<Seq<char>>
    decreases fields.len(),
{
    if fields.len() == 0 {
        Seq::empty()
    } else {
        let before = shown_arguments(fields.drop_last());
        if fields.last().len() == 0 {
            before
        } else {
            before.push(lossy(fields.last()))
        }
    }
}

/// A command line with a NUL byte behind each argument, as one text.
pub open spec fn command_text(raw: Seq<u8>) -> Option<Seq<char>> {
    let shown = shown_arguments(split_on(raw, 0u8));
    if shown.len() == 0 {
        None
    } else {
        Some(joined(shown, " "@))
    }
}

/// The command line of a process, from what `/proc/<pid>/cmdline` holds.
pub fn pid_command_line(raw: &[u8]) -> (r: Option<String>)
    ensures
        match r {
            Some(text) => command_text(raw@) == Some(text@),
            None => command_text(raw@) is None,
        },
{
    let mut parts: Vec<String> = Vec::new();
    let mut cur: Vec<u8> = Vec::new();
    let mut i: usize = 0;
    let ghost mut done: Seq<Seq<u8>> = Seq::empty();
    assert(done.push(cur@) =~= split_on(raw@.take(0), 0u8));
    assert(views(parts@) =~= shown_arguments(done));
    while i < raw.len()
        invariant
            i <= raw@.len(),
            done.push(cur@) == split_on(raw@.take(i as int), 0u8),
            views(parts@) == shown_arguments(done),
        decreases raw@.len() - i,
    {
        let b = raw[i];
        let ghost next = raw@.take(i + 1);
        assert(next.drop_last() =~= raw@.take(i as int));
        assert(done.push(cur@).drop_last() =~= done);
        if b == 0 {
            let ghost before = views(parts@);
            if cur.len() > 0 {
                let text = from_utf8_lossy(cur.as_slice());
                parts.push(text);
                assert(views(parts@) =~= before.push(text@));
            }
            proof {
                assert(done.push(cur@).drop_last() =~= done);
                done = done.push(cur@);
            }
            cur = Vec::new();
            assert(cur@ =~= Seq::<u8>::empty());
            assert(done.push(cur@) =~= split_on(next, 0u8));
        } else {
            cur.push(b);
            assert(done.push(cur@) =~= split_on(next, 0u8));
        }
        i = i + 1;
    }
    assert(raw@.take(i as int) =~= raw@);
    let ghost before = views(parts@);
    let ghost all = done.push(cur@);
    assert(all.drop_last() =~= done);
    if cur.len() > 0 {
        let text = from_utf8_lossy(cur.as_slice());
        parts.push(text);
        assert(views(parts@) =~= before.push(text@));
    }
    if parts.len() == 0 {
        None
    } else {
        Some(join(&parts, " "))
    }
}

/// The first line with something on it, trimmed.
pub open spec fn first_shown_line(lines: Seq<Seq<char>>) -> Option<Seq<char>>
    decreases lines.len(),
{
    if lines.len() == 0 {
        None
    } else if trimmed(lines[0]).len() > 0 {
        Some(trimmed(lines[0]))
    } else {
        first_shown_line(lines.skip(1))
    }
}

/// The value that `ps` printed.
pub fn parse_ps_output_value(stdout: &[u8]) -> (r: Option<String>)
    ensures
        match r {
            Some(text) => first_shown_line(lines_of(lossy(stdout@))) == Some(text@),
            None => first_shown_line(lines_of(lossy(stdout@))) is None,
        },
{
    let text = from_utf8_lossy(stdout);
    let all = lines(text.as_str());
    let ghost lv = views(all@);
    let mut i: usize = 0;
    assert(lv.skip(0) =~= lv);
    while i < all.len()
        invariant
            i <= all@.len(),
            lv == views(all@),
            lv == lines_of(lossy(stdout@)),
            first_shown_line(lv) == first_shown_line(lv.skip(i as int)),
        decreases all@.len() - i,
    {
        assert(lv.skip(i as int)[0] == all@[i as int]@);
        assert(lv.skip(i as int).skip(1) =~= lv.skip(i + 1));
        let t = trim(all[i].as_str());
        if !t.as_str().is_empty() {
            return Some(t);
        }
        i = i + 1;
    }
    None
}

/// A command line starts with a path and ends there or goes on with white
/// space.
pub open spec fn runs_path(command: Seq<char>, path: Seq<char>) -> bool {
    let t = trimmed_start(command);
    path.is_prefix_of(t) && (t.len() == path.len() || is_space(t[path.len() as int]))
}

proof fn lemma_trimmed_start(s: Seq<char>, i: int)
    requires
        0 <= i <= s.len(),
        forall|k: int| 0 <= k < i ==> is_space(s[k]),
        i < s.len() ==> !is_space(s[i]),
    ensures
        trimmed_start(s) == s.skip(i),
    decreases i,
{
    if i == 0 {
        assert(s.skip(0) =~= s);
    } else {
        lemma_trimmed_start(s.skip(1), i - 1);
        assert(s.skip(1).skip(i - 1) =~= s.skip(i));
    }
}

/// Whether a command line runs the executable at a path, which may hold
/// spaces.
pub fn process_path_prefix_matches(command: &str, candidate_path: &str) -> (r: bool)
    ensures
        r == runs_path(command@, candidate_path@),
{
    let cs = chars_of(command);
    let n: usize = cs.len();
    let mut i: usize = 0;
    while i < n && char_is_space(cs[i])
        invariant
            i <= n,
            n == cs@.len(),
            forall|k: int| 0 <= k < i ==> is_space(cs@[k]),
        decreases n - i,
    {
        i = i + 1;
    }
    let ps = chars_of(candidate_path);
    let ghost t = trimmed_start(command@);
    proof {
        lemma_trimmed_start(command@, i as int);
        assert(t == command@.skip(i as int));
        if i + ps@.len() <= n {
            assert(t.subrange(0, ps@.len() as int) =~= cs@.subrange(i as int, i + ps@.len()));
        }
    }
    if !occurs(cs.as_slice(), ps.as_slice(), i) {
        return false;
    }
    let at: usize = i + ps.len();
    at == n || char_is_space(cs[at])
}

/// Whether a command line runs the executable at a path, as it is written or
/// in its canonical form, where that is text.
pub fn command_line_starts_with_process_path(
    command: &str,
    expected_path: &str,
    canonical_path: Option<&str>,
) -> (r: bool)
    ensures
        r == (trimmed(expected_path@).len() > 0 && (runs_path(command@, expected_path@) || (
        canonical_path matches Some(p) && p@ != expected_path@ && runs_path(command@, p@)))),
{
    if trim(expected_path).as_str().is_empty() {
        return false;
    }
    if process_path_prefix_matches(command, expected_path) {
        return true;
    }
    match canonical_path {
        Some(p) => !same(p, expected_path) && process_path_prefix_matches(command, p),
        None => false,
    }
}

/// The state of a process in `/proc/<pid>/stat`: the character behind the
/// closing bracket of its name and the separator.
pub open spec fn stat_state(stat: Seq<char>) -> Option<char> {
    match last_position(stat, ')') {
        Some(i) if i + 2 < stat.len() && (stat[i + 1] as u32) < 0x80 => Some(stat[i + 2]),
        _ => None,
    }
}

pub fn parse_proc_stat_state(stat: &str) -> (r: Option<char>)
    ensures
        r == stat_state(stat@),
{
    let cs = chars_of(stat);
    match find_last(cs.as_slice(), ')') {
        Some(i) => {
            let n: usize = cs.len();
            if n - i > 2 && (cs[i + 1] as u32) < 0x80 {
                Some(cs[i + 2])
            } else {
                None
            }
        },
        None => None,
    }
}

/// A process is stopped, by a signal or by a tracer.
pub open spec fn is_stopped(state: Option<char>) -> bool {
    state == Some('T') || state == Some('t')
}

pub fn pid_is_stopped(state: Option<char>) -> (r: bool)
    ensures
        r == is_stopped(state),
{
    match state {
        Some(c) => c == 'T' || c == 't',
        None => false,
    }
}

/// Whether there are processes and all of them are stopped, given the state of
/// each, where it is known.
pub fn agent_mail_pids_all_stopped(states: &Vec<Option<char>>) -> (r: bool)
    ensures
        r == (states@.len() > 0 && forall|i: int|
            0 <= i < states@.len() ==> is_stopped(#[trigger] states@[i])),
{
    let mut i: usize = 0;
    while i < states.len()
        invariant
            i <= states@.len(),
            forall|k: int| 0 <= k < i ==> is_stopped(#[trigger] states@[k]),
        decreases states@.len() - i,
    {
        if !pid_is_stopped(states[i]) {
            assert(!is_stopped(states@[i as int]));
            return false;
        }
        i = i + 1;
    }
    states.len() > 0
}

/// The file system and the number of a file.
#[derive(Debug, Clone, Copy, PartialEq, Eq, Structural)]
pub struct FileId {
    pub dev: u64,
    pub ino: u64,
}

/// A file that a process has open.
#[derive(Debug, Clone, Copy, PartialEq, Eq, Structural)]
pub struct OpenFile {
    /// Whether its path is that of the file in question.
    pub same_path: bool,
    /// Which file is there now, where that can be read.
    pub file: Option<FileId>,
}

/// A process of `/proc`.
pub struct ProcessFiles {
    /// The name of its directory.
    pub name: String,
    /// Whether it is a server of ours.
    pub is_agent_mail: bool,
    pub files: Vec<OpenFile>,
}

/// The process number that a directory of `/proc` stands for, unless it is the
/// process itself.
pub open spec fn other_pid(name: Seq<char>, my_pid: u32) -> Option<u32> {
    match parsed_unsigned(name, 10, u32::MAX as int) {
        Some(pid) if pid != my_pid => Some(pid as u32),
        _ => None,
    }
}

pub fn other_process(name: &str, my_pid: u32) -> (r: Option<u32>)
    ensures
        r == other_pid(name@, my_pid),
{
    match parse_u32(name) {
        Some(pid) => if pid != my_pid {
            Some(pid)
        } else {
            None
        },
        None => None,
    }
}

pub open spec fn holds(files: Seq<OpenFile>, target: FileId) -> bool {
    exists|i: int|
        0 <= i < files.len() && (#[trigger] files[i]).same_path && files[i].file == Some(target)
}

fn holds_file(files: &Vec<OpenFile>, target: FileId) -> (r: bool)
    ensures
        r == holds(files@, target),
{
    let mut i: usize = 0;
    while i < files.len()
        invariant
            i <= files@.len(),
            forall|k: int|
                0 <= k < i ==> !((#[trigger] files@[k]).same_path && files@[k].file == Some(target)),
        decreases files@.len() - i,
    {
        let f = files[i];
        if f.same_path {
            if let Some(id) = f.file {
                if id == target {
                    assert(files@[i as int].same_path && files@[i as int].file == Some(target));
                    return true;
                }
            }
        }
        i = i + 1;
    }
    false
}

/// The other processes that have the file open, in the order in which they
/// were listed; where `ours`, only the servers of ours.
pub open spec fn holders_of(
    processes: Seq<ProcessFiles>,
    target: FileId,
    my_pid: u32,
    ours: bool,
) -> Seq<u32>
    decreases processes.len(),
{
    if processes.len() == 0 {
        Seq::empty()
    } else {
        let before = holders_of(processes.drop_last(), target, my_pid, ours);
        let p = processes.last();
        match other_pid(p.name@, my_pid) {
            Some(pid) if (ours ==> p.is_agent_mail) && holds(p.files@, target) => before.push(pid),
            _ => before,
        }
    }
}

fn pids_holding_file_filtered(
    processes: &Vec<ProcessFiles>,
    target: FileId,
    my_pid: u32,
    ours: bool,
) -> (r: Vec<u32>)
    ensures
        r@ == holders_of(processes@, target, my_pid, ours),
{
    let mut out: Vec<u32> = Vec::new();
    let mut i: usize = 0;
    assert(out@ =~= holders_of(processes@.take(0), target, my_pid, ours));
    while i < processes.len()
        invariant
            i <= processes@.len(),
            out@ == holders_of(processes@.take(i as int), target, my_pid, ours),
        decreases processes@.len() - i,
    {
        let p = &processes[i];
        assert(processes@.take(i + 1).drop_last() =~= processes@.take(i as int));
        assert(processes@.take(i + 1).last() == *p);
        if let Some(pid) = other_process(p.name.as_str(), my_pid) {
            if (!ours || p.is_agent_mail) && holds_file(&p.files, target) {
                out.push(pid);
            }
        }
        i = i + 1;
    }
    assert(processes@.take(i as int) =~= processes@);
    out
}

/// The other processes that have a file open.
pub fn pids_holding_file(processes: &Vec<ProcessFiles>, target: FileId, my_pid: u32) -> (r: Vec<
    u32,
>)
    ensures
        r@ == holders_of(processes@, target, my_pid, false),
{
    pids_holding_file_filtered(processes, target, my_pid, false)
}

/// The servers of ours that have a file open.
pub fn agent_mail_pids_holding_file(
    processes: &Vec<ProcessFiles>,
    target: FileId,
    my_pid: u32,
) -> (r: Vec<u32>)
    ensures
        r@ == holders_of(processes@, target, my_pid, true),
{
    pids_holding_file_filtered(processes, target, my_pid, true)
}

/// The numbers among the words, without the process itself.
pub open spec fn listed_pids(parts: Seq<Seq<char>>, my_pid: u32) -> Seq<u32>
    decreases parts.len(),
{
    if parts.len() == 0 {
        Seq::empty()
    } else {
        let before = listed_pids(parts.drop_last(), my_pid);
        match other_pid(parts.last(), my_pid) {
            Some(pid) => before.push(pid),
            None => before,
        }
    }
}

/// The processes that `lsof -t` listed, without the process itself.
pub fn parse_lsof_file_holders(output: &str, my_pid: u32) -> (r: Vec<u32>)
    ensures
        r@ == listed_pids(words(output@), my_pid),
{
    let parts = split_whitespace(output);
    let ghost pv = words(output@);
    let mut out: Vec<u32> = Vec::new();
    let mut i: usize = 0;
    assert(out@ =~= listed_pids(pv.take(0), my_pid));
    while i < parts.len()
        invariant
            i <= parts@.len(),
            pv == views(parts@),
            out@ == listed_pids(pv.take(i as int), my_pid),
        decreases parts@.len() - i,
    {
        assert(pv.take(i + 1).drop_last() =~= pv.take(i as int));
        assert(pv.take(i + 1).last() == parts@[i as int]@);
        if let Some(pid) = other_process(parts[i].as_str(), my_pid) {
            out.push(pid);
        }
        i = i + 1;
    }
    assert(pv.take(i as int) =~= pv);
    out
}

/// The major number of a Linux device.
pub open spec fn dev_major(dev: u64) -> u32 {
    ((dev >> 8u64) & 0xfffu64) as u32
}

/// The minor number of a Linux device.
pub open spec fn dev_minor(dev: u64) -> u32 {
    ((dev & 0xffu64) | ((dev >> 12u64) & 0xfff00u64)) as u32
}

/// The process that a line of `/proc/locks` names as the holder of a lock on
/// the file, where the line speaks of a `flock` on it. Device numbers are
/// hexadecimal, the file's number is decimal.
pub open spec fn lock_line_pid(line: Seq<char>, target: FileId) -> Option<u32> {
    let f = words(line);
    if f.len() < 8 || f[1] != "FLOCK"@ {
        None
    } else {
        let id = split_on(f[5], ':');
        if id.len() == 3 && parsed_unsigned(id[0], 16, u32::MAX as int) == Some(
            dev_major(target.dev) as int,
        ) && parsed_unsigned(id[1], 16, u32::MAX as int) == Some(dev_minor(target.dev) as int)
            && parsed_unsigned(id[2], 10, u64::MAX as int) == Some(target.ino as int) {
            match parsed_unsigned(f[4], 10, u32::MAX as int) {
                Some(pid) => Some(pid as u32),
                None => None,
            }
        } else {
            None
        }
    }
}

/// The process of the first line that names one.
pub open spec fn first_lock_pid(lines: Seq<Seq<char>>, target: FileId) -> Option<u32>
    decreases lines.len(),
{
    if lines.len() == 0 {
        None
    } else if lock_line_pid(lines[0], target) is Some {
        lock_line_pid(lines[0], target)
    } else {
        first_lock_pid(lines.skip(1), target)
    }
}

fn lock_pid_of_line(line: &str, target: FileId) -> (r: Option<u32>)
    ensures
        r == lock_line_pid(line@, target),
{
    let f = split_whitespace(line);
    let ghost fv = words(line@);
    if f.len() < 8 {
        return None;
    }
    assert(f@[1]@ == fv[1] && f@[4]@ == fv[4] && f@[5]@ == fv[5]);
    if !same(f[1].as_str(), "FLOCK") {
        return None;
    }
    let id = split(f[5].as_str(), ':');
    let ghost iv = split_on(fv[5], ':');
    if id.len() != 3 {
        return None;
    }
    assert(id@[0]@ == iv[0] && id@[1]@ == iv[1] && id@[2]@ == iv[2]);
    let major: u32 = ((target.dev >> 8u64) & 0xfffu64) as u32;
    let minor: u32 = ((target.dev & 0xffu64) | ((target.dev >> 12u64) & 0xfff00u64)) as u32;
    match (
        parse_hex_u32(id[0].as_str()),
        parse_hex_u32(id[1].as_str()),
        parse_u64(id[2].as_str()),
    ) {
        (Some(a), Some(b), Some(ino)) => if a == major && b == minor && ino == target.ino {
            parse_u32(f[4].as_str())
        } else {
            None
        },
        _ => None,
    }
}

/// The process that holds a `flock` on a file, from what `/proc/locks` holds.
pub fn identify_lock_holder_via_proc(locks: &str, target: FileId) -> (r: Option<u32>)
    ensures
        r == first_lock_pid(lines_of(locks@), target),
{
    let all = lines(locks);
    let ghost lv = views(all@);
    let mut i: usize = 0;
    assert(lv.skip(0) =~= lv);
    while i < all.len()
        invariant
            i <= all@.len(),
            lv == views(all@),
            lv == lines_of(locks@),
            first_lock_pid(lv, target) == first_lock_pid(lv.skip(i as int), target),
        decreases all@.len() - i,
    {
        assert(lv.skip(i as int)[0] == all@[i as int]@);
        assert(lv.skip(i as int).skip(1) =~= lv.skip(i + 1));
        let found = lock_pid_of_line(all[i].as_str(), target);
        if found.is_some() {
            return found;
        }
        i = i + 1;
    }
    None
}

/// A process that holds a lock on the database.
#[derive(Debug)]
pub struct LockHolder {
    pub pid: u32,
    pub cmdline: String,
    pub is_python: bool,
}

/// A command line runs an interpreter of Python.
pub open spec fn is_python_command(command: Seq<char>) -> bool {
    words(command).len() > 0 && "python"@.is_prefix_of(base_name(words(command)[0]))
}

/// Describes the holder of a lock; without a command line it shows the number
/// of the process.
pub fn identify_lock_holder(pid: u32, command: Option<String>) -> (r: LockHolder)
    ensures
        r.pid == pid,
        r.cmdline@ == (match command {
            Some(c) => c@,
            None => "<PID "@ + decimal(pid as nat) + ">"@,
        }),
        r.is_python == is_python_command(r.cmdline@),
{
    let cmdline = match command {
        Some(c) => c,
        None => "<PID ".to_owned().concat(print_u64(pid as u64).as_str()).concat(">"),
    };
    let parts = split_whitespace(cmdline.as_str());
    let is_python = if parts.len() == 0 {
        false
    } else {
        assert(parts@[0]@ == words(cmdline@)[0]);
        starts_with(basename(parts[0].as_str()).as_str(), "python")
    };
    LockHolder { pid, cmdline, is_python }
}

/// A process never counts itself among the holders of a file.
pub proof fn law_own_process_is_left_out(
    processes: Seq<ProcessFiles>,
    target: FileId,
    my_pid: u32,
    ours: bool,
)
    ensures
        !holders_of(processes, target, my_pid, ours).contains(my_pid),
    decreases processes.len(),
{
    if processes.len() > 0 {
        law_own_process_is_left_out(processes.drop_last(), target, my_pid, ours);
        crate::numbers::lemma_parsed_in_range(processes.last().name@, 10, u32::MAX as int);
        let before = holders_of(processes.drop_last(), target, my_pid, ours);
        let all = holders_of(processes, target, my_pid, ours);
        if all.contains(my_pid) {
            let k = choose|k: int| 0 <= k < all.len() && all[k] == my_pid;
            if k < before.len() {
                assert(before[k] == my_pid);
            }
        }
    }
}

/// The base name is what stands behind the last separator of either kind, or
/// all of it where there is none.
pub proof fn law_the_base_name_is_behind_the_last_separator(dir: Seq<char>, name: Seq<char>)
    requires
        !name.contains('/'),
        !name.contains('\\'),
    ensures
        base_name(dir.push('/') + name) == name,
        base_name(dir.push('\\') + name) == name,
        base_name(name) == name,
{
    let a = dir.push('/') + name;
    let b = dir.push('\\') + name;
    let n = dir.len() as int + 1;
    assert forall|k: int| 0 <= k < name.len() implies name[k] != '/' && name[k] != '\\' by {
        assert(name.contains(name[k]));
    }
    assert forall|k: int| n <= k < a.len() implies a[k] != '/' && a[k] != '\\' by {
        assert(a[k] == name[k - n]);
    }
    assert forall|k: int| n <= k < b.len() implies b[k] != '/' && b[k] != '\\' by {
        assert(b[k] == name[k - n]);
    }
    lemma_base_name(a, n);
    lemma_base_name(b, n);
    lemma_base_name(name, 0);
    assert(a.skip(n) =~= name);
    assert(b.skip(n) =~= name);
    assert(name.skip(0) =~= name);
}

/// The name is this stem, with or without the ending of executables, whatever
/// its case.
pub open spec fn is_executable(name: Seq<char>, stem: Seq<char>) -> bool {
    same_ignoring_ascii_case(name, stem) || same_ignoring_ascii_case(name, stem + ".exe"@)
}

proof fn lemma_executable(name: Seq<char>, stem: Seq<char>, full: Seq<char>)
    requires
        ascii_lower(stem) == stem,
        full == stem + ".exe"@,
    ensures
        is_executable(name, stem) <==> ascii_lower(name) == stem || ascii_lower(name) == full,
{
    reveal_strlit(".exe");
    assert(ascii_lower(".exe"@) =~= ".exe"@);
    assert(ascii_lower(full) =~= ascii_lower(stem) + ascii_lower(".exe"@));
}

/// An executable is ours by its whole name alone: `am`, or the name of the
/// mailbox, with or without what names the protocol before it and, then, the
/// client behind it, written with hyphens or with underscores.
pub proof fn law_which_executables_are_ours(name: &str, r: bool)
    requires
        call_ensures(executable_name_has_agent_mail_signature, (name,), r),
    ensures
        r <==> is_executable(name@, "am"@) || is_executable(name@, "agent-mail"@) || is_executable(
            name@,
            "agent_mail"@,
        ) || is_executable(name@, "mcp-agent-mail"@) || is_executable(name@, "mcp_agent_mail"@)
            || is_executable(name@, "mcp-agent-mail-cli"@) || is_executable(
            name@,
            "mcp_agent_mail_cli"@,
        ),
{
    lemma_short_names(name@);
    lemma_long_names(name@);
    lemma_client_names(name@);
}

proof fn lemma_short_names(name: Seq<char>)
    ensures
        is_executable(name, "am"@) <==> ascii_lower(name) == "am"@ || ascii_lower(name)
            == "am.exe"@,
        is_executable(name, "agent-mail"@) <==> ascii_lower(name) == "agent-mail"@ || ascii_lower(
            name,
        ) == "agent-mail.exe"@,
        is_executable(name, "agent_mail"@) <==> ascii_lower(name) == "agent_mail"@ || ascii_lower(
            name,
        ) == "agent_mail.exe"@,
{
    reveal_strlit(".exe");
    reveal_strlit("am");
    reveal_strlit("am.exe");
    reveal_strlit("agent-mail");
    reveal_strlit("agent-mail.exe");
    reveal_strlit("agent_mail");
    reveal_strlit("agent_mail.exe");
    assert(ascii_lower("am"@) =~= "am"@);
    assert(ascii_lower("agent-mail"@) =~= "agent-mail"@);
    assert(ascii_lower("agent_mail"@) =~= "agent_mail"@);
    assert("am.exe"@ =~= "am"@ + ".exe"@);
    assert("agent-mail.exe"@ =~= "agent-mail"@ + ".exe"@);
    assert("agent_mail.exe"@ =~= "agent_mail"@ + ".exe"@);
    lemma_executable(name, "am"@, "am.exe"@);
    lemma_executable(name, "agent-mail"@, "agent-mail.exe"@);
    lemma_executable(name, "agent_mail"@, "agent_mail.exe"@);
}

proof fn lemma_long_names(name: Seq<char>)
    ensures
        is_executable(name, "mcp-agent-mail"@) <==> ascii_lower(name) == "mcp-agent-mail"@
            || ascii_lower(name) == "mcp-agent-mail.exe"@,
        is_executable(name, "mcp_agent_mail"@) <==> ascii_lower(name) == "mcp_agent_mail"@
            || ascii_lower(name) == "mcp_agent_mail.exe"@,
{
    reveal_strlit(".exe");
    reveal_strlit("mcp-agent-mail");
    reveal_strlit("mcp-agent-mail.exe");
    reveal_strlit("mcp_agent_mail");
    reveal_strlit("mcp_agent_mail.exe");
    assert(ascii_lower("mcp-agent-mail"@) =~= "mcp-agent-mail"@);
    assert(ascii_lower("mcp_agent_mail"@) =~= "mcp_agent_mail"@);
    assert("mcp-agent-mail.exe"@ =~= "mcp-agent-mail"@ + ".exe"@);
    assert("mcp_agent_mail.exe"@ =~= "mcp_agent_mail"@ + ".exe"@);
    lemma_executable(name, "mcp-agent-mail"@, "mcp-agent-mail.exe"@);
    lemma_executable(name, "mcp_agent_mail"@, "mcp_agent_mail.exe"@);
}

proof fn lemma_client_names(name: Seq<char>)
    ensures
        is_executable(name, "mcp-agent-mail-cli"@) <==> ascii_lower(name) == "mcp-agent-mail-cli"@
            || ascii_lower(name) == "mcp-agent-mail-cli.exe"@,
        is_executable(name, "mcp_agent_mail_cli"@) <==> ascii_lower(name) == "mcp_agent_mail_cli"@
            || ascii_lower(name) == "mcp_agent_mail_cli.exe"@,
{
    reveal_strlit(".exe");
    reveal_strlit("mcp-agent-mail-cli");
    reveal_strlit("mcp-agent-mail-cli.exe");
    reveal_strlit("mcp_agent_mail_cli");
    reveal_strlit("mcp_agent_mail_cli.exe");
    assert(ascii_lower("mcp-agent-mail-cli"@) =~= "mcp-agent-mail-cli"@);
    assert(ascii_lower("mcp_agent_mail_cli"@) =~= "mcp_agent_mail_cli"@);
    assert("mcp-agent-mail-cli.exe"@ =~= "mcp-agent-mail-cli"@ + ".exe"@);
    assert("mcp_agent_mail_cli.exe"@ =~= "mcp_agent_mail_cli"@ + ".exe"@);
    lemma_executable(name, "mcp-agent-mail-cli"@, "mcp-agent-mail-cli.exe"@);
    lemma_executable(name, "mcp_agent_mail_cli"@, "mcp_agent_mail_cli.exe"@);
}

/// Of a command line the program counts, by the base name of its path, and not
/// its arguments. A process is ours by its command line or by its executable,
/// and an interpreter of Python by how the base name starts.
pub proof fn law_the_program_counts_not_its_arguments(
    dir: Seq<char>,
    name: &str,
    arguments: Seq<char>,
    command: &str,
    shown: String,
    executable: Option<&str>,
    by_name: bool,
    by_command: bool,
    other: bool,
    alone: bool,
    both: bool,
    pid: u32,
    holder: LockHolder,
)
    requires
        forall|i: int| 0 <= i < dir.len() ==> !is_space(#[trigger] dir[i]),
        forall|i: int| 0 <= i < name@.len() ==> !is_space(#[trigger] name@[i]),
        !name@.contains('/') && !name@.contains('\\'),
        command@ == dir.push('/') + name@ + seq![' '] + arguments,
        shown@ == command@,
        call_ensures(executable_name_has_agent_mail_signature, (name,), by_name),
        call_ensures(command_line_has_agent_mail_signature, (command,), by_command),
        executable is Some ==> call_ensures(
            executable_name_has_agent_mail_signature,
            (executable->0,),
            other,
        ),
        executable is None ==> !other,
        call_ensures(pid_is_agent_mail, (Some(command), executable), both),
        call_ensures(pid_is_agent_mail, (None, executable), alone),
        call_ensures(identify_lock_holder, (pid, Some(shown)), holder),
    ensures
        by_command == by_name,
        both == (by_name || other),
        alone == other,
        holder.pid == pid,
        holder.cmdline@ == command@,
        holder.is_python <==> "python"@.is_prefix_of(name@),
{
    let w = dir.push('/') + name@;
    assert forall|i: int| 0 <= i < w.len() implies !is_space(#[trigger] w[i]) by {
        if i < dir.len() {
            assert(w[i] == dir[i]);
        } else if i > dir.len() {
            assert(w[i] == name@[i - dir.len() - 1]);
        }
    }
    crate::text::law_words_are_taken_one_by_one(Seq::<char>::empty(), ' ', w);
    crate::mcp_probe::lemma_words_go_on(w, ' ', arguments);
    let ws = words(w);
    assert(ws == seq![w]);
    let front = words(command@).subrange(0, 1);
    assert(ws == front);
    assert(front[0] == words(command@)[0]);
    law_the_base_name_is_behind_the_last_separator(dir, name@);
}

/// A command line shows its arguments with blanks between them; one more
/// argument is added behind the others, and an empty one adds nothing.
pub proof fn law_arguments_are_shown_one_by_one(
    before: &[u8],
    argument: Seq<u8>,
    all: &[u8],
    of_before: Option<String>,
    of_all: Option<String>,
)
    requires
        !argument.contains(0u8),
        all@ == before@.push(0u8) + argument,
        call_ensures(pid_command_line, (before,), of_before),
        call_ensures(pid_command_line, (all,), of_all),
    ensures
        argument.len() == 0 ==> (of_all is Some <==> of_before is Some) && (of_all is Some
            ==> of_all->0@ == of_before->0@),
        argument.len() > 0 ==> of_all is Some && of_all->0@ == (if of_before is Some {
            of_before->0@ + seq![' '] + lossy(argument)
        } else {
            lossy(argument)
        }),
        before@.len() == 0 ==> of_before is None,
{
    reveal_strlit(" ");
    assert(" "@ =~= seq![' ']);
    crate::text::lemma_split_on_concat(before@, argument, 0u8);
    crate::text::lemma_split_of_field(argument, 0u8);
    let fb = split_on(before@, 0u8);
    let fa = split_on(all@, 0u8);
    assert(fa =~= fb.push(argument));
    assert(fa.drop_last() =~= fb);
    let sb = shown_arguments(fb);
    crate::text::law_joining(sb, lossy(argument), " "@);
    if sb.len() == 0 {
        assert(sb.push(lossy(argument)) =~= seq![lossy(argument)]);
    }
    if before@.len() == 0 {
        assert(before@ =~= Seq::<u8>::empty());
        assert(fb =~= seq![Seq::<u8>::empty()]);
        assert(fb.drop_last() =~= Seq::<Seq<u8>>::empty());
        assert(shown_arguments(fb.drop_last()) =~= Seq::<Seq<char>>::empty());
    }
}

/// The value that `ps` printed is its first line that is not blank, trimmed.
pub proof fn law_the_first_shown_line_counts(
    line: Seq<char>,
    rest: &[u8],
    all: &[u8],
    of_rest: Option<String>,
    of_all: Option<String>,
)
    requires
        !line.contains('\n'),
        lossy(all@) == line.push('\n') + lossy(rest@),
        call_ensures(parse_ps_output_value, (rest,), of_rest),
        call_ensures(parse_ps_output_value, (all,), of_all),
    ensures
        trimmed(line).len() > 0 ==> of_all is Some && of_all->0@ == trimmed(line),
        trimmed(line).len() == 0 ==> (of_all is Some <==> of_rest is Some) && (of_all is Some
            ==> of_all->0@ == of_rest->0@),
{
    crate::text::law_lines_end_at_line_feeds(line, lossy(rest@));
    let l = if line.len() > 0 && line[line.len() - 1] == '\r' {
        line.take(line.len() - 1)
    } else {
        line
    };
    if line.len() > 0 && line[line.len() - 1] == '\r' {
        crate::listeners::lemma_trim_without_last_space(line);
        assert(line.take(line.len() - 1) =~= line.drop_last());
    }
    let lr = lines_of(lossy(rest@));
    let la = lines_of(lossy(all@));
    assert(la == seq![l] + lr);
    assert(la.skip(1) =~= lr);
    assert(la[0] == l);
}

/// A command line runs a path where it starts with it and the path ends there:
/// a longer name is another program. The canonical form of the path counts as
/// the path itself, and a blank path as none.
pub proof fn law_a_path_is_run_as_a_whole(
    command: &str,
    path: &str,
    rest: Seq<char>,
    canonical: Option<&str>,
    plain: bool,
    by_canonical: bool,
    r: bool,
)
    requires
        path@.len() > 0,
        command@.len() > 0 && !is_space(command@[0]),
        call_ensures(process_path_prefix_matches, (command, path), plain),
        canonical is Some ==> call_ensures(
            process_path_prefix_matches,
            (command, canonical->0),
            by_canonical,
        ),
        canonical is None ==> !by_canonical,
        call_ensures(command_line_starts_with_process_path, (command, path, canonical), r),
    ensures
        command@ == path@ + rest ==> (plain <==> rest.len() == 0 || is_space(rest[0])),
        !path@.is_prefix_of(command@) ==> !plain,
        trimmed(path@).len() == 0 ==> !r,
        trimmed(path@).len() > 0 ==> r == (plain || by_canonical),
{
    assert(trimmed_start(command@) == command@);
    if command@ == path@ + rest {
        assert(path@.is_prefix_of(command@));
        if rest.len() > 0 {
            assert(command@[path@.len() as int] == rest[0]);
        }
    }
}

/// The state of a process is the character behind the name in brackets,
/// whatever the name holds.
pub proof fn law_the_state_stands_behind_the_name(
    stat: &str,
    before: Seq<char>,
    state: char,
    rest: Seq<char>,
    r: Option<char>,
    stopped: bool,
)
    requires
        stat@ == before + seq![')', ' ', state] + rest,
        state != ')',
        !rest.contains(')'),
        call_ensures(parse_proc_stat_state, (stat,), r),
        call_ensures(pid_is_stopped, (r,), stopped),
    ensures
        r == Some(state),
        stopped <==> state == 'T' || state == 't',
{
    crate::hosts::lemma_last_position(stat@, ')');
    let n = before.len() as int;
    assert(stat@[n] == ')');
    let i = last_position(stat@, ')')->0;
    if i > n + 2 {
        assert(rest.contains(rest[i - n - 3]));
    }
    assert(stat@[n + 1] == ' ' && stat@[n + 2] == state);
}

/// All are stopped only where there are some, and none runs or is unknown.
pub proof fn law_one_that_runs_is_enough(states: &Vec<Option<char>>, r: bool)
    requires
        call_ensures(agent_mail_pids_all_stopped, (states,), r),
    ensures
        r ==> states@.len() > 0,
        forall|i: int|
            r && 0 <= i < states@.len() ==> (#[trigger] states@[i] == Some('T') || states@[i]
                == Some('t')),
        states@.len() > 0 && (forall|i: int|
            0 <= i < states@.len() ==> (#[trigger] states@[i] == Some('T') || states@[i] == Some(
                't',
            ))) ==> r,
{
}

/// A directory of `/proc` stands for the process whose number it is named by,
/// and for none where that is the own one.
pub proof fn law_the_own_process_is_no_other(name: &str, pid: u32, my_pid: u32, r: Option<u32>)
    requires
        name@ == decimal(pid as nat),
        call_ensures(other_process, (name, my_pid), r),
    ensures
        pid != my_pid ==> r == Some(pid),
        pid == my_pid ==> r is None,
{
    crate::numbers::lemma_decimal_parses(pid as nat, u32::MAX as int);
}

/// The holders of a file are found process by process: one more is added
/// behind the others where it is another process and has that very file open
/// under that path; for servers of ours it must be one.
pub proof fn law_holders_are_found_one_by_one(
    before: &Vec<ProcessFiles>,
    all: &Vec<ProcessFiles>,
    last: ProcessFiles,
    target: FileId,
    my_pid: u32,
    name: &str,
    other: Option<u32>,
    of_before: Vec<u32>,
    of_all: Vec<u32>,
    ours_before: Vec<u32>,
    ours_all: Vec<u32>,
)
    requires
        all@ == before@.push(last),
        name@ == last.name@,
        call_ensures(other_process, (name, my_pid), other),
        call_ensures(pids_holding_file, (before, target, my_pid), of_before),
        call_ensures(pids_holding_file, (all, target, my_pid), of_all),
        call_ensures(agent_mail_pids_holding_file, (before, target, my_pid), ours_before),
        call_ensures(agent_mail_pids_holding_file, (all, target, my_pid), ours_all),
    ensures
        ({
            let open = exists|i: int|
                0 <= i < last.files@.len() && (#[trigger] last.files@[i]).same_path
                    && last.files@[i].file == Some(target);
            &&& other is Some && open ==> of_all@ == of_before@.push(other->0)
            &&& other is None || !open ==> of_all@ == of_before@
            &&& other is Some && open && last.is_agent_mail ==> ours_all@ == ours_before@.push(
                other->0,
            )
            &&& other is None || !open || !last.is_agent_mail ==> ours_all@ == ours_before@
        }),
        before@.len() == 0 ==> of_before@.len() == 0 && ours_before@.len() == 0,
{
    assert(all@.drop_last() =~= before@);
    assert(all@.last() == last);
}

/// What `lsof -t` lists for a file is read word by word, without the own
/// process.
pub proof fn law_listed_holders_are_read_one_by_one(
    before: &str,
    word: &str,
    all: &str,
    my_pid: u32,
    other: Option<u32>,
    of_before: Vec<u32>,
    of_all: Vec<u32>,
)
    requires
        word@.len() > 0,
        forall|i: int| 0 <= i < word@.len() ==> !is_space(#[trigger] word@[i]),
        all@ == before@.push(' ') + word@,
        call_ensures(other_process, (word, my_pid), other),
        call_ensures(parse_lsof_file_holders, (before, my_pid), of_before),
        call_ensures(parse_lsof_file_holders, (all, my_pid), of_all),
    ensures
        other is Some ==> of_all@ == of_before@.push(other->0),
        other is None ==> of_all@ == of_before@,
{
    crate::text::law_words_are_taken_one_by_one(before@, ' ', word@);
    assert(words(all@).drop_last() =~= words(before@));
    assert(words(all@).last() == word@);
}

/// The numbers of a device are packed with eight bits of the minor one at the
/// end, and then the major one.
pub proof fn law_device_numbers_are_packed(major: u64, minor: u64)
    requires
        major < 0x1000,
        minor < 0x100,
    ensures
        dev_major((major * 0x100 + minor) as u64) == major,
        dev_minor((major * 0x100 + minor) as u64) == minor,
{
    let dev: u64 = (major * 0x100 + minor) as u64;
    assert(((dev >> 8u64) & 0xfffu64) as u32 == major as u32 && ((dev & 0xffu64) | ((dev >> 12u64)
        & 0xfff00u64)) as u32 == minor as u32) by (bit_vector)
        requires
            major < 0x1000,
            minor < 0x100,
            dev == major * 0x100 + minor,
    ;
}

/// A line of `/proc/locks` names a holder where it speaks of a `flock` on the
/// very file: device in hexadecimal, number in decimal. The first such line
/// counts.
pub proof fn law_a_lock_is_known_by_its_file(
    line: Seq<char>,
    rest: &str,
    all: &str,
    target: FileId,
    pid: u32,
    of_rest: Option<u32>,
    of_all: Option<u32>,
)
    requires
        !line.contains('\n'),
        line.len() > 0 ==> line[line.len() - 1] != '\r',
        all@ == line.push('\n') + rest@,
        words(line).len() >= 8,
        words(line)[4] == decimal(pid as nat),
        call_ensures(identify_lock_holder_via_proc, (rest, target), of_rest),
        call_ensures(identify_lock_holder_via_proc, (all, target), of_all),
    ensures
        ({
            let id = split_on(words(line)[5], ':');
            let this = words(line)[1] == "FLOCK"@ && id.len() == 3 && parsed_unsigned(
                id[0],
                16,
                u32::MAX as int,
            ) == Some(dev_major(target.dev) as int) && parsed_unsigned(id[1], 16, u32::MAX as int)
                == Some(dev_minor(target.dev) as int) && parsed_unsigned(id[2], 10, u64::MAX as int)
                == Some(target.ino as int);
            &&& this ==> of_all == Some(pid)
            &&& !this ==> of_all == of_rest
        }),
        rest@.len() == 0 ==> of_rest is None,
{
    crate::text::law_lines_end_at_line_feeds(line, rest@);
    let lr = lines_of(rest@);
    let la = lines_of(all@);
    assert(la == seq![line] + lr);
    assert(la.skip(1) =~= lr);
    assert(la[0] == line);
    crate::numbers::lemma_decimal_parses(pid as nat, u32::MAX as int);
    if rest@.len() == 0 {
        assert(rest@ =~= Seq::<char>::empty());
        crate::text::law_lines_end_at_line_feeds(rest@, rest@);
    }
}

} // verus!
