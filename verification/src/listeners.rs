//! Who listens on a port: the output of `ss` and `lsof`, and the hint that a
//! server leaves behind.

use vstd::prelude::*;
use vstd::utf8::encode_utf8;

use crate::hosts::{endpoint_host, extract_socket_host, host_matches, listener_host_matches_request};
use crate::numbers::{
    decimal, hex_of, lemma_decimal_parses, lemma_hex_injective, parse_u32, parse_u64,
    parsed_unsigned, print_hex, print_u64,
};
use crate::order::{increasing, insert_number, is_number_set};
use crate::text::{
    chars_of, is_digit, is_space, lines, lines_of, occurs, occurs_at, opt_view, split_on,
    split_whitespace, starts_with, text_of, trim, trimmed, trimmed_end, trimmed_start, views,
    without_trailing_cr, words,
};
use crate::text::{
    law_lines_end_at_line_feeds, law_words_are_taken_one_by_one, lemma_split_of_field,
    lemma_split_on_concat,
};

verus! {

/// The digits that a text starts with.
pub open spec fn leading_digits(s: Seq<char>) -> Seq<char>
    decreases s.len(),
{
    if s.len() > 0 && is_digit(s[0]) {
        seq![s[0]] + leading_digits(s.skip(1))
    } else {
        Seq::empty()
    }
}

/// The text names the process: `pid=` and its number.
pub open spec fn names_pid(s: Seq<char>, pid: u32) -> bool {
    exists|i: int| #[trigger]
        occurs_at(s, "pid="@, i) && parsed_unsigned(
            leading_digits(s.skip(i + 4)),
            10,
            u32::MAX as int,
        ) == Some(pid as int)
}

/// The processes that a text names.
pub open spec fn named_pids(s: Seq<char>) -> Set<u32> {
    Set::new(|pid: u32| names_pid(s, pid))
}

proof fn lemma_leading_digits(s: Seq<char>, n: int)
    requires
        0 <= n <= s.len(),
        forall|k: int| 0 <= k < n ==> is_digit(s[k]),
        n < s.len() ==> !is_digit(s[n]),
    ensures
        leading_digits(s) == s.take(n),
    decreases n,
{
    if n == 0 {
        assert(s.take(0) =~= Seq::<char>::empty());
    } else {
        lemma_leading_digits(s.skip(1), n - 1);
        assert(s.take(n) =~= seq![s[0]] + s.skip(1).take(n - 1));
    }
}

/// The number behind position `at`, if there is one.
fn number_at(cs: &[char], at: usize) -> (r: Option<u32>)
    requires
        at <= cs@.len(),
    ensures
        match r {
            Some(pid) => parsed_unsigned(
                leading_digits(cs@.skip(at as int)),
                10,
                u32::MAX as int,
            ) == Some(pid as int),
            None => parsed_unsigned(
                leading_digits(cs@.skip(at as int)),
                10,
                u32::MAX as int,
            ) is None,
        },
{
    let n: usize = cs.len();
    let mut end: usize = at;
    while end < n && '0' <= cs[end] && cs[end] <= '9'
        invariant
            at <= end <= n,
            n == cs@.len(),
            forall|k: int| at <= k < end ==> is_digit(cs@[k]),
        decreases n - end,
    {
        end = end + 1;
    }
    proof {
        let s = cs@.skip(at as int);
        assert forall|k: int| 0 <= k < end - at implies is_digit(s[k]) by {
            assert(s[k] == cs@[at + k]);
        }
        if end < n {
            assert(s[end - at] == cs@[end as int]);
        }
        lemma_leading_digits(s, end - at);
        assert(s.take(end - at) =~= cs@.subrange(at as int, end as int));
    }
    parse_u32(text_of(cs, at, end).as_str())
}

/// Adds the processes that a text names to a sorted list.
fn add_named_pids(pids: &mut Vec<u32>, s: &str)
    requires
        increasing(old(pids)@),
    ensures
        increasing(final(pids)@),
        forall|p: u32| #[trigger]
            final(pids)@.contains(p) <==> old(pids)@.contains(p) || names_pid(s@, p),
{
    let cs = chars_of(s);
    let mark = chars_of("pid=");
    proof {
        reveal_strlit("pid=");
    }
    let ghost before = pids@;
    let mut i: usize = 0;
    while i < cs.len()
        invariant
            i <= cs@.len(),
            cs@ == s@,
            mark@ == "pid="@,
            mark@.len() == 4,
            increasing(pids@),
            forall|p: u32| #[trigger]
                pids@.contains(p) <==> before.contains(p) || exists|k: int|
                    k < i && #[trigger] occurs_at(s@, "pid="@, k) && parsed_unsigned(
                        leading_digits(s@.skip(k + 4)),
                        10,
                        u32::MAX as int,
                    ) == Some(p as int),
        decreases cs@.len() - i,
    {
        let ghost cur = pids@;
        if occurs(cs.as_slice(), mark.as_slice(), i) {
            if let Some(pid) = number_at(cs.as_slice(), i + 4) {
                insert_number(pids, pid);
            }
        }
        i = i + 1;
    }
    assert forall|p: u32| #[trigger]
        pids@.contains(p) <==> before.contains(p) || names_pid(s@, p) by {
        if names_pid(s@, p) {
            let k = choose|k: int| #[trigger]
                occurs_at(s@, "pid="@, k) && parsed_unsigned(
                    leading_digits(s@.skip(k + 4)),
                    10,
                    u32::MAX as int,
                ) == Some(p as int);
            assert(k < i);
        }
    }
}

/// The processes that the output of `ss` names, sorted, each once.
pub fn parse_ss_port_holder_pids(output: &str) -> (r: Vec<u32>)
    ensures
        is_number_set(r@, named_pids(output@)),
{
    let mut pids: Vec<u32> = Vec::new();
    add_named_pids(&mut pids, output);
    pids
}

/// A line of `ss` speaks of a listener that is in the way of the host: its
/// fourth field is the local endpoint.
pub open spec fn line_concerns(line: Seq<char>, host: Seq<char>) -> bool {
    words(line).len() > 3 && endpoint_host(words(line)[3]) is Some && host_matches(
        endpoint_host(words(line)[3])->0,
        host,
    )
}

/// The processes of the lines that concern the host.
pub open spec fn pids_for_host(lines: Seq<Seq<char>>, host: Seq<char>) -> Set<u32> {
    Set::new(
        |pid: u32|
            exists|k: int|
                0 <= k < lines.len() && line_concerns(#[trigger] lines[k], host) && names_pid(
                    lines[k],
                    pid,
                ),
    )
}

fn concerns(line: &str, host: &str) -> (r: bool)
    ensures
        r == line_concerns(line@, host@),
{
    let f = split_whitespace(line);
    if f.len() <= 3 {
        return false;
    }
    assert(f@[3]@ == words(line@)[3]);
    match extract_socket_host(f[3].as_str()) {
        Some(h) => listener_host_matches_request(h.as_str(), host),
        None => false,
    }
}

/// The processes of the listeners that are in the way of a host, from the
/// output of `ss`.
pub fn parse_ss_port_holder_pids_for_host(output: &str, host: &str) -> (r: Vec<u32>)
    ensures
        is_number_set(r@, pids_for_host(lines_of(output@), host@)),
{
    let all = lines(output);
    let ghost lv = lines_of(output@);
    let mut pids: Vec<u32> = Vec::new();
    let mut i: usize = 0;
    while i < all.len()
        invariant
            i <= all@.len(),
            lv == views(all@),
            increasing(pids@),
            forall|p: u32| #[trigger]
                pids@.contains(p) <==> exists|k: int|
                    0 <= k < i && line_concerns(#[trigger] lv[k], host@) && names_pid(lv[k], p),
        decreases all@.len() - i,
    {
        let line = all[i].as_str();
        assert(lv[i as int] == line@);
        if concerns(line, host) {
            add_named_pids(&mut pids, line);
        }
        i = i + 1;
    }
    pids
}

/// The numbers among the words.
pub open spec fn word_pids(parts: Seq<Seq<char>>) -> Set<u32> {
    Set::new(
        |pid: u32|
            exists|k: int|
                0 <= k < parts.len() && parsed_unsigned(
                    trimmed(#[trigger] parts[k]),
                    10,
                    u32::MAX as int,
                ) == Some(pid as int),
    )
}

/// The processes that `lsof -t` listed, sorted, each once.
pub fn parse_lsof_port_holder_pids(output: &str) -> (r: Vec<u32>)
    ensures
        is_number_set(r@, word_pids(words(output@))),
{
    let parts = split_whitespace(output);
    let ghost pv = words(output@);
    let mut pids: Vec<u32> = Vec::new();
    let mut i: usize = 0;
    while i < parts.len()
        invariant
            i <= parts@.len(),
            pv == views(parts@),
            increasing(pids@),
            forall|p: u32| #[trigger]
                pids@.contains(p) <==> exists|k: int|
                    0 <= k < i && parsed_unsigned(trimmed(#[trigger] pv[k]), 10, u32::MAX as int)
                        == Some(p as int),
        decreases parts@.len() - i,
    {
        assert(pv[i as int] == parts@[i as int]@);
        if let Some(pid) = parse_u32(trim(parts[i].as_str()).as_str()) {
            insert_number(&mut pids, pid);
        }
        i = i + 1;
    }
    pids
}

/// The endpoint of a name line of `lsof`: its first word, behind `TCP `.
pub open spec fn lsof_endpoint(value: Seq<char>) -> Seq<char> {
    let t = trimmed(value);
    let rest = if "TCP "@.is_prefix_of(t) {
        t.skip("TCP "@.len() as int)
    } else {
        t
    };
    if words(rest).len() > 0 {
        words(rest)[0]
    } else {
        Seq::empty()
    }
}

/// Where the reading of `lsof -F` output stands: the process that the lines
/// speak of, and the processes found.
pub struct LsofState {
    pub current: Option<u32>,
    pub pids: Set<u32>,
}

/// One line: `p` and a number names the process that follows, and `n` and an
/// endpoint is a socket of it.
pub open spec fn lsof_step(st: LsofState, line: Seq<char>, host: Seq<char>) -> LsofState {
    if line.len() == 0 {
        st
    } else if line[0] == 'p' {
        LsofState {
            current: match parsed_unsigned(trimmed(line.skip(1)), 10, u32::MAX as int) {
                Some(pid) => Some(pid as u32),
                None => None,
            },
            pids: st.pids,
        }
    } else if line[0] == 'n' && st.current is Some {
        match endpoint_host(lsof_endpoint(line.skip(1))) {
            Some(listener) if host_matches(listener, host) => LsofState {
                current: st.current,
                pids: st.pids.insert(st.current->0),
            },
            _ => st,
        }
    } else {
        st
    }
}

pub open spec fn lsof_run(lines: Seq<Seq<char>>, host: Seq<char>) -> LsofState
    decreases lines.len(),
{
    if lines.len() == 0 {
        LsofState { current: None, pids: Set::empty() }
    } else {
        lsof_step(lsof_run(lines.drop_last(), host), lines.last(), host)
    }
}

fn endpoint_of(value: &str) -> (r: String)
    ensures
        r@ == lsof_endpoint(value@),
{
    let t = trim(value);
    let rest = if starts_with(t.as_str(), "TCP ") {
        proof {
            reveal_strlit("TCP ");
        }
        let cs = chars_of(t.as_str());
        let n: usize = cs.len();
        let rest = text_of(cs.as_slice(), 4, n);
        assert(rest@ =~= t@.skip(4));
        rest
    } else {
        t
    };
    let parts = split_whitespace(rest.as_str());
    if parts.len() > 0 {
        assert(parts@[0]@ == words(rest@)[0]);
        parts[0].clone()
    } else {
        String::new()
    }
}

/// The processes of the listeners that are in the way of a host, from the
/// output of `lsof -Fpn`.
pub fn parse_lsof_port_holder_pids_for_host(output: &str, host: &str) -> (r: Vec<u32>)
    ensures
        is_number_set(r@, lsof_run(lines_of(output@), host@).pids),
{
    let all = lines(output);
    let ghost lv = lines_of(output@);
    let mut pids: Vec<u32> = Vec::new();
    let mut current: Option<u32> = None;
    let mut i: usize = 0;
    let ghost mut st = lsof_run(lv.take(0), host@);
    while i < all.len()
        invariant
            i <= all@.len(),
            lv == views(all@),
            st == lsof_run(lv.take(i as int), host@),
            current == st.current,
            is_number_set(pids@, st.pids),
        decreases all@.len() - i,
    {
        let line = all[i].as_str();
        assert(lv.take(i + 1).drop_last() =~= lv.take(i as int));
        assert(lv.take(i + 1).last() == line@);
        let cs = chars_of(line);
        let n: usize = cs.len();
        if n > 0 {
            let value = text_of(cs.as_slice(), 1, n);
            assert(value@ =~= line@.skip(1));
            if cs[0] == 'p' {
                current = parse_u32(trim(value.as_str()).as_str());
            } else if cs[0] == 'n' {
                if let Some(pid) = current {
                    if let Some(listener) = extract_socket_host(endpoint_of(value.as_str()).as_str()) {
                        if listener_host_matches_request(listener.as_str(), host) {
                            insert_number(&mut pids, pid);
                        }
                    }
                }
            }
        }
        proof {
            st = lsof_step(st, line@, host@);
        }
        i = i + 1;
    }
    assert(lv.take(i as int) =~= lv);
    pids
}

/// The holders of a port: what `ss` found, or, where it found nothing, what
/// `lsof` found.
pub fn port_holder_pids(via_ss: Vec<u32>, via_lsof: Vec<u32>) -> (r: Vec<u32>)
    ensures
        r == (if via_ss@.len() > 0 {
            via_ss
        } else {
            via_lsof
        }),
{
    if via_ss.len() > 0 {
        via_ss
    } else {
        via_lsof
    }
}

/// A process that holds a port, and whether it is a server of ours.
#[derive(Debug, Clone, Copy, PartialEq, Eq, Structural)]
pub struct PortHolder {
    pub pid: u32,
    pub is_agent_mail: bool,
}

/// The servers of ours among the holders, in order.
pub open spec fn servers_of(holders: Seq<PortHolder>) -> Seq<u32>
    decreases holders.len(),
{
    if holders.len() == 0 {
        Seq::empty()
    } else if holders.last().is_agent_mail {
        servers_of(holders.drop_last()).push(holders.last().pid)
    } else {
        servers_of(holders.drop_last())
    }
}

/// The servers of ours that hold a port.
pub fn agent_mail_port_holder_pids(holders: &Vec<PortHolder>) -> (r: Vec<u32>)
    ensures
        r@ == servers_of(holders@),
{
    let mut out: Vec<u32> = Vec::new();
    let mut i: usize = 0;
    assert(out@ =~= servers_of(holders@.take(0)));
    while i < holders.len()
        invariant
            i <= holders@.len(),
            out@ == servers_of(holders@.take(i as int)),
        decreases holders@.len() - i,
    {
        assert(holders@.take(i + 1).drop_last() =~= holders@.take(i as int));
        if holders[i].is_agent_mail {
            out.push(holders[i].pid);
        }
        i = i + 1;
    }
    assert(holders@.take(i as int) =~= holders@);
    out
}

/// The servers of ours that hold a port: the one that the hint names, where
/// the hint holds good, or else those among the holders.
pub fn agent_mail_port_holder_pids_with_hint(hinted: Option<u32>, holders: &Vec<PortHolder>) -> (r:
    Vec<u32>)
    ensures
        match hinted {
            Some(pid) => r@ == seq![pid],
            None => r@ == servers_of(holders@),
        },
{
    match hinted {
        Some(pid) => {
            let mut out: Vec<u32> = Vec::new();
            out.push(pid);
            assert(out@ =~= seq![pid]);
            out
        },
        None => agent_mail_port_holder_pids(holders),
    }
}

/// The processes that hold a port: the one that the hint names, where the hint
/// holds good, or else the holders.
pub fn listener_port_holder_pids_with_hint(hinted: Option<u32>, holders: Vec<u32>) -> (r: Vec<u32>)
    ensures
        match hinted {
            Some(pid) => r@ == seq![pid],
            None => r == holders,
        },
{
    match hinted {
        Some(pid) => {
            let mut out: Vec<u32> = Vec::new();
            out.push(pid);
            assert(out@ =~= seq![pid]);
            out
        },
        None => holders,
    }
}

/// The directory of the hints.
pub const LISTENER_PID_HINT_DIR: &'static str = "mcp-agent-mail-port-pids";

/// The host that a hint is filed under: a blank one counts as `host`.
pub open spec fn hint_host(host: Seq<char>) -> Seq<char> {
    if trimmed(host).len() == 0 {
        "host"@
    } else {
        trimmed(host)
    }
}

/// The host in a file name: the hexadecimal form of its bytes.
pub open spec fn hint_component(host: Seq<char>) -> Seq<char> {
    hex_of(encode_utf8(hint_host(host)))
}

pub fn encode_pid_hint_component(value: &str) -> (r: String)
    ensures
        r@ == hint_component(value@),
{
    let t = trim(value);
    if t.as_str().is_empty() {
        print_hex("host".as_bytes())
    } else {
        print_hex(t.as_str().as_bytes())
    }
}

pub open spec fn hint_file_name(host: Seq<char>, port: u16) -> Seq<char> {
    hint_component(host) + "-"@ + decimal(port as nat) + ".pid"@
}

/// The file name of the hint about a listener.
pub fn listener_pid_hint_file_name(host: &str, port: u16) -> (r: String)
    ensures
        r@ == hint_file_name(host@, port),
{
    encode_pid_hint_component(host).concat("-").concat(print_u64(port as u64).as_str()).concat(
        ".pid",
    )
}

/// Whether `TMPDIR` is used for the hints: where it is set and not blank.
pub fn uses_tmpdir(tmpdir: Option<&str>) -> (r: bool)
    ensures
        r == (tmpdir matches Some(t) && trimmed(t@).len() > 0),
{
    match tmpdir {
        Some(t) => !trim(t).as_str().is_empty(),
        None => false,
    }
}

/// What a server leaves behind about itself.
#[derive(Debug, PartialEq, Eq)]
pub struct ListenerPidHint {
    pub pid: u32,
    pub exe_path: Option<String>,
    /// When the hint was written, in seconds since the epoch.
    pub created_epoch_secs: Option<u64>,
}

/// The contents of a hint.
#[verifier::ext_equal]
pub struct Hint {
    pub pid: u32,
    pub exe_path: Option<Seq<char>>,
    pub created: Option<u64>,
}

impl View for ListenerPidHint {
    type V = Hint;

    open spec fn view(&self) -> Hint {
        Hint {
            pid: self.pid,
            exe_path: match self.exe_path {
                Some(p) => Some(p@),
                None => None,
            },
            created: self.created_epoch_secs,
        }
    }
}

/// The path that is written, nothing where it is blank.
pub open spec fn shown_path(path: Option<Seq<char>>) -> Seq<char> {
    match path {
        Some(p) if trimmed(p).len() > 0 => p,
        _ => Seq::empty(),
    }
}

/// A hint as text: the process, the path and the time, one on each line.
pub open spec fn hint_text(hint: Hint, now_secs: u64) -> Seq<char> {
    decimal(hint.pid as nat) + "\n"@ + shown_path(hint.exe_path) + "\n"@ + decimal(
        (match hint.created {
            Some(t) => t,
            None => now_secs,
        }) as nat,
    ) + "\n"@
}

/// Renders a hint; one without a time gets the present one.
pub fn format_listener_pid_hint(hint: &ListenerPidHint, now_secs: u64) -> (r: String)
    ensures
        r@ == hint_text(hint@, now_secs),
{
    let created: u64 = match hint.created_epoch_secs {
        Some(t) => t,
        None => now_secs,
    };
    let path = match &hint.exe_path {
        Some(p) => if trim(p.as_str()).as_str().is_empty() {
            String::new()
        } else {
            p.clone()
        },
        None => String::new(),
    };
    assert(path@ =~= shown_path(hint@.exe_path));
    print_u64(hint.pid as u64).concat("\n").concat(path.as_str()).concat("\n").concat(
        print_u64(created).as_str(),
    ).concat("\n")
}

pub open spec fn line_or_empty(lines: Seq<Seq<char>>, i: int) -> Seq<char> {
    if 0 <= i < lines.len() {
        lines[i]
    } else {
        Seq::empty()
    }
}

/// The hint that a text holds. The process must be there; the path and the
/// time may be missing.
pub open spec fn parsed_hint(content: Seq<char>) -> Option<Hint> {
    let l = lines_of(content);
    if l.len() == 0 {
        None
    } else {
        match parsed_unsigned(trimmed(l[0]), 10, u32::MAX as int) {
            None => None,
            Some(pid) => {
                let path = trimmed(line_or_empty(l, 1));
                Some(
                    Hint {
                        pid: pid as u32,
                        exe_path: if path.len() == 0 {
                            None
                        } else {
                            Some(path)
                        },
                        created: if l.len() <= 2 {
                            None
                        } else {
                            match parsed_unsigned(trimmed(l[2]), 10, u64::MAX as int) {
                                Some(t) => Some(t as u64),
                                None => None,
                            }
                        },
                    },
                )
            },
        }
    }
}

pub fn parse_listener_pid_hint(content: &str) -> (r: Option<ListenerPidHint>)
    ensures
        match r {
            Some(hint) => parsed_hint(content@) == Some(hint@),
            None => parsed_hint(content@) is None,
        },
{
    let l = lines(content);
    let ghost lv = lines_of(content@);
    if l.len() == 0 {
        return None;
    }
    assert(l@[0]@ == lv[0]);
    let pid: u32 = match parse_u32(trim(l[0].as_str()).as_str()) {
        Some(pid) => pid,
        None => {
            return None;
        },
    };
    let exe_path = if l.len() > 1 {
        assert(l@[1]@ == lv[1]);
        let path = trim(l[1].as_str());
        if path.as_str().is_empty() {
            None
        } else {
            Some(path)
        }
    } else {
        proof {
            assert(trimmed_start(Seq::<char>::empty()) =~= Seq::<char>::empty());
            assert(trimmed(line_or_empty(lv, 1)).len() == 0);
        }
        None
    };
    let created_epoch_secs = if l.len() > 2 {
        assert(l@[2]@ == lv[2]);
        parse_u64(trim(l[2].as_str()).as_str())
    } else {
        None
    };
    let hint = ListenerPidHint { pid, exe_path, created_epoch_secs };
    assert(parsed_hint(content@)->0 =~= hint@);
    Some(hint)
}

/// The greatest age of a hint, in seconds: the configured one, or a day, and
/// never less than a minute.
pub open spec fn max_hint_age(raw: Option<Seq<char>>) -> int {
    let configured = match raw {
        Some(t) => parsed_unsigned(trimmed(t), 10, u64::MAX as int),
        None => None,
    };
    let age = match configured {
        Some(n) => n,
        None => 86400,
    };
    if age < 60 {
        60
    } else {
        age
    }
}

pub fn pid_hint_max_age_secs(raw: Option<&str>) -> (r: u64)
    ensures
        r == max_hint_age(opt_view(raw)),
{
    let configured = match raw {
        Some(t) => parse_u64(trim(t).as_str()),
        None => None,
    };
    let age: u64 = match configured {
        Some(n) => n,
        None => 86400,
    };
    if age < 60 {
        60
    } else {
        age
    }
}

/// A hint is too old to be believed. One without a time is believed, and one
/// from the future too.
pub open spec fn is_stale(created: Option<u64>, now_secs: u64, max_age: u64) -> bool {
    created is Some && now_secs - created->0 > max_age
}

/// Reads a hint and passes over one that is too old, so that a process number
/// that was given out anew is not taken for the server.
pub fn read_listener_pid_hint(content: &str, now_secs: u64, max_age: u64) -> (r: Option<
    ListenerPidHint,
>)
    ensures
        match r {
            Some(hint) => parsed_hint(content@) == Some(hint@) && !is_stale(
                hint@.created,
                now_secs,
                max_age,
            ),
            None => match parsed_hint(content@) {
                Some(hint) => is_stale(hint.created, now_secs, max_age),
                None => true,
            },
        },
{
    match parse_listener_pid_hint(content) {
        None => None,
        Some(hint) => {
            if let Some(created) = hint.created_epoch_secs {
                if now_secs > created && now_secs - created > max_age {
                    return None;
                }
            }
            Some(hint)
        },
    }
}

/// A hint holds good: its process listens, and it is the executable that the
/// hint names or a server of ours.
pub open spec fn hint_holds(
    hint: Hint,
    listeners: Seq<u32>,
    runs_named_path: bool,
    is_agent_mail: bool,
) -> bool {
    listeners.contains(hint.pid) && ((hint.exe_path is Some && runs_named_path) || is_agent_mail)
}

/// Whether a hint holds good. `runs_named_path` says whether its process runs
/// the executable of the hint, and `is_agent_mail` whether it is a server of
/// ours.
pub fn hinted_pid_matches_listener(
    hint: &ListenerPidHint,
    listeners: &Vec<u32>,
    runs_named_path: bool,
    is_agent_mail: bool,
) -> (r: bool)
    ensures
        r == hint_holds(hint@, listeners@, runs_named_path, is_agent_mail),
{
    let mut i: usize = 0;
    let mut listed = false;
    while i < listeners.len()
        invariant
            i <= listeners@.len(),
            listed == exists|k: int| 0 <= k < i && listeners@[k] == hint.pid,
        decreases listeners@.len() - i,
    {
        if listeners[i] == hint.pid {
            assert(listeners@[i as int] == hint.pid);
            listed = true;
        }
        i = i + 1;
    }
    listed && ((hint.exe_path.is_some() && runs_named_path) || is_agent_mail)
}

/// The server that a hint names, where the hint holds good.
pub fn hinted_agent_mail_pid(
    hint: Option<&ListenerPidHint>,
    listeners: &Vec<u32>,
    runs_named_path: bool,
    is_agent_mail: bool,
) -> (r: Option<u32>)
    ensures
        match hint {
            Some(h) => r == (if hint_holds(h@, listeners@, runs_named_path, is_agent_mail) {
                Some(h.pid)
            } else {
                None
            }),
            None => r is None,
        },
{
    match hint {
        Some(h) => if hinted_pid_matches_listener(h, listeners, runs_named_path, is_agent_mail) {
            Some(h.pid)
        } else {
            None
        },
        None => None,
    }
}

proof fn lemma_decimal_chars(n: nat)
    ensures
        decimal(n).len() > 0,
        forall|i: int| 0 <= i < decimal(n).len() ==> is_digit(#[trigger] decimal(n)[i]),
    decreases n,
{
    if n >= 10 {
        lemma_decimal_chars(n / 10);
        let shorter = decimal(n / 10);
        let all = decimal(n);
        assert forall|i: int| 0 <= i < all.len() implies is_digit(#[trigger] all[i]) by {
            if i < shorter.len() {
                assert(all[i] == shorter[i]);
            }
        }
    }
}

/// A text that neither starts nor ends with white space.
pub open spec fn is_trimmed(s: Seq<char>) -> bool {
    s.len() > 0 ==> !is_space(s[0]) && !is_space(s.last())
}

proof fn lemma_trim_of_trimmed(s: Seq<char>)
    requires
        is_trimmed(s),
    ensures
        trimmed(s) == s,
        without_trailing_cr(s) == s,
{
    if s.len() > 0 {
        assert(trimmed_start(s) == s);
        assert(trimmed_end(s) == s);
    }
}

proof fn lemma_decimal_line(n: nat)
    ensures
        !decimal(n).contains('\n'),
        is_trimmed(decimal(n)),
{
    lemma_decimal_chars(n);
    let d = decimal(n);
    if d.contains('\n') {
        let k = choose|k: int| 0 <= k < d.len() && d[k] == '\n';
        assert(is_digit(d[k]));
    }
    assert(is_digit(d[0]));
    assert(is_digit(d[d.len() - 1]));
}

proof fn lemma_three_lines(a: Seq<char>, b: Seq<char>, c: Seq<char>)
    requires
        !a.contains('\n'),
        !b.contains('\n'),
        !c.contains('\n'),
        is_trimmed(a),
        is_trimmed(c),
    ensures
        lines_of(a + "\n"@ + b + "\n"@ + c + "\n"@) == seq![a, without_trailing_cr(b), c],
{
    reveal_strlit("\n");
    let empty = Seq::<char>::empty();
    let s = a + "\n"@ + b + "\n"@ + c + "\n"@;
    let s2 = b.push('\n') + (c.push('\n') + empty);
    assert(s =~= a.push('\n') + s2);
    lemma_split_on_concat(a, s2, '\n');
    lemma_split_on_concat(b, c.push('\n') + empty, '\n');
    lemma_split_on_concat(c, empty, '\n');
    lemma_split_of_field(a, '\n');
    lemma_split_of_field(b, '\n');
    lemma_split_of_field(c, '\n');
    lemma_split_of_field(empty, '\n');
    let parts = split_on(s, '\n');
    assert(parts =~= seq![a, b, c, empty]);
    lemma_trim_of_trimmed(a);
    lemma_trim_of_trimmed(c);
    assert(lines_of(s) =~= seq![a, without_trailing_cr(b), c]);
}

pub proof fn lemma_trim_without_last_space(s: Seq<char>)
    requires
        s.len() > 0,
        is_space(s.last()),
    ensures
        trimmed(s.drop_last()) == trimmed(s),
    decreases s.len(),
{
    if is_space(s[0]) && s.len() > 1 {
        assert(s.drop_last().skip(1) =~= s.skip(1).drop_last());
        lemma_trim_without_last_space(s.skip(1));
    } else if s.len() == 1 {
        assert(s.drop_last() =~= s.skip(1));
    }
}

/// What a server writes about itself is read back: the process as it was, the
/// path without the white space around it, and the time, which is the present
/// one where the hint had none. A path that is blank is read as none.
pub proof fn law_hint_round_trip(hint: Hint, now_secs: u64)
    requires
        hint.exe_path matches Some(p) ==> !p.contains('\n'),
    ensures
        parsed_hint(hint_text(hint, now_secs)) == Some(
            Hint {
                pid: hint.pid,
                exe_path: match hint.exe_path {
                    Some(p) if trimmed(p).len() > 0 => Some(trimmed(p)),
                    _ => None,
                },
                created: Some(
                    match hint.created {
                        Some(t) => t,
                        None => now_secs,
                    },
                ),
            },
        ),
{
    let a = decimal(hint.pid as nat);
    let b = shown_path(hint.exe_path);
    let t: u64 = match hint.created {
        Some(t) => t,
        None => now_secs,
    };
    let c = decimal(t as nat);
    lemma_decimal_line(hint.pid as nat);
    lemma_decimal_line(t as nat);
    lemma_three_lines(a, b, c);
    lemma_trim_of_trimmed(a);
    lemma_trim_of_trimmed(c);
    lemma_trim_of_trimmed(Seq::<char>::empty());
    if b.len() > 0 && b.last() == '\r' {
        lemma_trim_without_last_space(b);
    }
    lemma_decimal_parses(hint.pid as nat, u32::MAX as int);
    lemma_decimal_parses(t as nat, u64::MAX as int);
    let l = lines_of(hint_text(hint, now_secs));
    assert(l[0] == a && trimmed(l[1]) == trimmed(b) && l[2] == c && l.len() == 3);
    assert(parsed_hint(hint_text(hint, now_secs))->0.exe_path == (match hint.exe_path {
        Some(p) if trimmed(p).len() > 0 => Some(trimmed(p)),
        _ => None,
    }));
}

proof fn lemma_hex_has_no_dash(bytes: Seq<u8>)
    ensures
        forall|i: int| 0 <= i < hex_of(bytes).len() ==> #[trigger] hex_of(bytes)[i] != '-',
    decreases bytes.len(),
{
    if bytes.len() > 0 {
        lemma_hex_has_no_dash(bytes.drop_last());
        let before = hex_of(bytes.drop_last());
        let last = crate::numbers::byte_hex(bytes.last());
        let all = hex_of(bytes);
        assert forall|i: int| 0 <= i < all.len() implies #[trigger] all[i] != '-' by {
            if i < before.len() {
                assert(all[i] == before[i]);
            } else {
                assert(all[i] == last[i - before.len()]);
            }
        }
    }
}

/// Hints of different listeners do not get into each other's way: the file
/// name tells the port and the host.
pub proof fn law_hint_file_names_are_distinct(a: Seq<char>, p: u16, b: Seq<char>, q: u16)
    requires
        hint_file_name(a, p) == hint_file_name(b, q),
    ensures
        hint_host(a) == hint_host(b),
        p == q,
{
    reveal_strlit("-");
    let x = encode_utf8(hint_host(a));
    let y = encode_utf8(hint_host(b));
    let hx = hex_of(x);
    let hy = hex_of(y);
    let dp = decimal(p as nat);
    let dq = decimal(q as nat);
    let n = hint_file_name(a, p);
    let m = hint_file_name(b, q);
    lemma_hex_has_no_dash(x);
    lemma_hex_has_no_dash(y);
    assert(n[hx.len() as int] == '-');
    assert(m[hy.len() as int] == '-');
    if hx.len() < hy.len() {
        assert(m[hx.len() as int] == hy[hx.len() as int]);
    }
    if hy.len() < hx.len() {
        assert(n[hy.len() as int] == hx[hy.len() as int]);
    }
    assert(hx =~= n.take(hx.len() as int));
    assert(hy =~= m.take(hy.len() as int));
    lemma_hex_injective(x, y);
    vstd::utf8::encode_utf8_decode_utf8(hint_host(a));
    vstd::utf8::encode_utf8_decode_utf8(hint_host(b));
    let tail = ".pid"@;
    assert(n.len() == hx.len() + 1 + dp.len() + tail.len());
    assert(m.len() == hy.len() + 1 + dq.len() + tail.len());
    assert(dp.len() == dq.len());
    let at = hx.len() as int + 1;
    assert(dp =~= n.subrange(at, at + dp.len()));
    assert(dq =~= m.subrange(at, at + dq.len()));
    lemma_decimal_parses(p as nat, u16::MAX as int);
    lemma_decimal_parses(q as nat, u16::MAX as int);
}

/// A process is named by `pid=` and its number; what follows the digits counts
/// for nothing. All the text before and behind is searched.
pub proof fn law_a_process_is_named_by_its_number(
    before: Seq<char>,
    pid: u32,
    behind: Seq<char>,
    output: &str,
    r: Vec<u32>,
)
    requires
        output@ == before + "pid="@ + decimal(pid as nat) + behind,
        behind.len() > 0 ==> !('0' <= behind[0] <= '9'),
        call_ensures(parse_ss_port_holder_pids, (output,), r),
    ensures
        r@.contains(pid),
{
    lemma_named(before, pid, behind, output@);
    assert(named_pids(output@).contains(pid));
}

proof fn lemma_named(before: Seq<char>, pid: u32, behind: Seq<char>, s: Seq<char>)
    requires
        s == before + "pid="@ + decimal(pid as nat) + behind,
        behind.len() > 0 ==> !('0' <= behind[0] <= '9'),
    ensures
        names_pid(s, pid),
{
    reveal_strlit("pid=");
    let d = decimal(pid as nat);
    let i = before.len() as int;
    assert(s.subrange(i, i + 4) =~= "pid="@);
    assert(occurs_at(s, "pid="@, i));
    lemma_decimal_chars(pid as nat);
    let t = s.skip(i + 4);
    assert(t =~= d + behind);
    assert forall|k: int| 0 <= k < d.len() implies is_digit(t[k]) by {
        assert(t[k] == d[k]);
        assert(is_digit(d[k]));
    }
    lemma_leading_digits(t, d.len() as int);
    assert(t.take(d.len() as int) =~= d);
    lemma_decimal_parses(pid as nat, u32::MAX as int);
}

/// Nothing else is found: what is listed is named in the output, and the list
/// is sorted, with each process once.
pub proof fn law_only_named_processes_are_found(output: &str, at: int, r: Vec<u32>)
    requires
        call_ensures(parse_ss_port_holder_pids, (output,), r),
        0 <= at < r@.len(),
    ensures
        exists|i: int| #[trigger] occurs_at(output@, "pid="@, i) && i + 4 < output@.len() && '0'
            <= output@[i + 4] <= '9',
        at + 1 < r@.len() ==> r@[at] < r@[at + 1],
{
    let p = r@[at];
    assert(r@.contains(p));
    assert(names_pid(output@, p));
    let i = choose|i: int| #[trigger]
        occurs_at(output@, "pid="@, i) && parsed_unsigned(
            leading_digits(output@.skip(i + 4)),
            10,
            u32::MAX as int,
        ) == Some(p as int);
    reveal_strlit("pid=");
    let t = output@.skip(i + 4);
    assert(leading_digits(t).len() > 0);
    assert(t[0] == output@[i + 4]);
}

/// For a host, a line of `ss` counts where its fourth word is an endpoint whose
/// host is in the way, and then all processes that it names: one more line adds
/// its own to those of the lines before.
pub proof fn law_lines_count_by_their_endpoint(
    line: Seq<char>,
    rest: &str,
    all: &str,
    host: &str,
    endpoint: &str,
    listener: Option<String>,
    name: &str,
    concerned: bool,
    line_text: &str,
    named: Vec<u32>,
    of_rest: Vec<u32>,
    of_all: Vec<u32>,
    pid: u32,
)
    requires
        !line.contains('\n'),
        line.len() > 0 ==> line[line.len() - 1] != '\r',
        all@ == line.push('\n') + rest@,
        line_text@ == line,
        words(line).len() > 3 ==> endpoint@ == words(line)[3],
        call_ensures(extract_socket_host, (endpoint,), listener),
        listener is Some ==> name@ == listener->0@,
        call_ensures(listener_host_matches_request, (name, host), concerned),
        call_ensures(parse_ss_port_holder_pids, (line_text,), named),
        call_ensures(parse_ss_port_holder_pids_for_host, (rest, host), of_rest),
        call_ensures(parse_ss_port_holder_pids_for_host, (all, host), of_all),
    ensures
        of_all@.contains(pid) <==> of_rest@.contains(pid) || (words(line).len() > 3 && listener
            is Some && concerned && named@.contains(pid)),
        rest@.len() == 0 ==> of_rest@.len() == 0,
{
    law_lines_end_at_line_feeds(line, rest@);
    let lr = lines_of(rest@);
    let la = lines_of(all@);
    assert(la == seq![line] + lr);
    assert(named@.contains(pid) <==> named_pids(line).contains(pid));
    assert(of_rest@.contains(pid) <==> pids_for_host(lr, host@).contains(pid));
    assert(of_all@.contains(pid) <==> pids_for_host(la, host@).contains(pid));
    let c = line_concerns(line, host@);
    assert(c <==> words(line).len() > 3 && listener is Some && concerned);
    if exists|k: int|
        0 <= k < lr.len() && line_concerns(#[trigger] lr[k], host@) && names_pid(lr[k], pid) {
        let k = choose|k: int|
            0 <= k < lr.len() && line_concerns(#[trigger] lr[k], host@) && names_pid(lr[k], pid);
        assert(la[k + 1] == lr[k]);
    }
    if c && names_pid(line, pid) {
        assert(la[0] == line);
    }
    if exists|k: int|
        0 <= k < la.len() && line_concerns(#[trigger] la[k], host@) && names_pid(la[k], pid) {
        let k = choose|k: int|
            0 <= k < la.len() && line_concerns(#[trigger] la[k], host@) && names_pid(la[k], pid);
        if k > 0 {
            assert(lr[k - 1] == la[k]);
        }
    }
    if rest@.len() == 0 {
        assert(rest@ =~= Seq::<char>::empty());
        law_lines_end_at_line_feeds(rest@, rest@);
        if of_rest@.len() > 0 {
            let p = of_rest@[0];
            assert(of_rest@.contains(p));
            assert(pids_for_host(lr, host@).contains(p));
        }
    }
}

/// What `lsof -t` lists is read word by word: a number is a process, anything
/// else is passed over.
pub proof fn law_listed_numbers_are_processes(
    before: &str,
    word: Seq<char>,
    all: &str,
    of_before: Vec<u32>,
    of_all: Vec<u32>,
    pid: u32,
)
    requires
        word.len() > 0,
        forall|i: int| 0 <= i < word.len() ==> !is_space(#[trigger] word[i]),
        all@ == before@.push(' ') + word,
        call_ensures(parse_lsof_port_holder_pids, (before,), of_before),
        call_ensures(parse_lsof_port_holder_pids, (all,), of_all),
    ensures
        of_all@.contains(pid) <==> of_before@.contains(pid) || parsed_unsigned(
            word,
            10,
            u32::MAX as int,
        ) == Some(pid as int),
{
    law_words_are_taken_one_by_one(before@, ' ', word);
    let wb = words(before@);
    let wa = words(all@);
    assert(wa == wb.push(word));
    assert(is_trimmed(word)) by {
        assert(!is_space(word[0]) && !is_space(word[word.len() - 1]));
    }
    lemma_trim_of_trimmed(word);
    assert(of_before@.contains(pid) <==> word_pids(wb).contains(pid));
    assert(of_all@.contains(pid) <==> word_pids(wa).contains(pid));
    if word_pids(wb).contains(pid) {
        let k = choose|k: int|
            0 <= k < wb.len() && parsed_unsigned(trimmed(#[trigger] wb[k]), 10, u32::MAX as int)
                == Some(pid as int);
        assert(wa[k] == wb[k]);
    }
    if parsed_unsigned(word, 10, u32::MAX as int) == Some(pid as int) {
        assert(wa[wb.len() as int] == word);
    }
    if word_pids(wa).contains(pid) {
        let k = choose|k: int|
            0 <= k < wa.len() && parsed_unsigned(trimmed(#[trigger] wa[k]), 10, u32::MAX as int)
                == Some(pid as int);
        if k < wb.len() {
            assert(wb[k] == wa[k]);
        }
    }
}

proof fn lemma_lsof_of_pairs(st: LsofState, pid: u32, endpoint: Seq<char>, host: Seq<char>)
    requires
        endpoint.len() > 0,
        forall|i: int| 0 <= i < endpoint.len() ==> !is_space(#[trigger] endpoint[i]),
    ensures
        lsof_step(st, seq!['p'] + decimal(pid as nat), host) == (LsofState {
            current: Some(pid),
            pids: st.pids,
        }),
        st.current is Some ==> lsof_step(st, seq!['n'] + endpoint, host) == (if endpoint_host(
            endpoint,
        ) is Some && host_matches(endpoint_host(endpoint)->0, host) {
            LsofState { current: st.current, pids: st.pids.insert(st.current->0) }
        } else {
            st
        }),
        st.current is None ==> lsof_step(st, seq!['n'] + endpoint, host) == st,
{
    let d = decimal(pid as nat);
    let p = seq!['p'] + d;
    let n = seq!['n'] + endpoint;
    assert(p.skip(1) =~= d);
    assert(n.skip(1) =~= endpoint);
    lemma_decimal_line(pid as nat);
    lemma_trim_of_trimmed(d);
    lemma_decimal_parses(pid as nat, u32::MAX as int);
    assert(is_trimmed(endpoint)) by {
        assert(!is_space(endpoint[0]) && !is_space(endpoint[endpoint.len() - 1]));
    }
    lemma_trim_of_trimmed(endpoint);
    reveal_strlit("TCP ");
    if "TCP "@.is_prefix_of(endpoint) {
        assert(endpoint[3] == "TCP "@[3]);
        assert(is_space(endpoint[3]));
    }
    law_words_are_taken_one_by_one(Seq::<char>::empty(), ' ', endpoint);
}

/// In the output of `lsof -F` a socket belongs to the process named last, and
/// that process is found where the host of its endpoint is in the way: a line
/// for a process and one for a socket add at most that process.
pub proof fn law_a_socket_belongs_to_the_process_before_it(
    before: &str,
    all: &str,
    pid: u32,
    other: u32,
    endpoint: &str,
    host: &str,
    listener: Option<String>,
    name: &str,
    concerned: bool,
    of_before: Vec<u32>,
    of_all: Vec<u32>,
)
    requires
        before@.len() > 0 ==> before@[before@.len() - 1] == '\n',
        endpoint@.len() > 0,
        forall|i: int| 0 <= i < endpoint@.len() ==> !is_space(#[trigger] endpoint@[i]),
        all@ == before@ + ((seq!['p'] + decimal(pid as nat)).push('\n') + ((seq!['n']
            + endpoint@).push('\n') + Seq::empty())),
        call_ensures(extract_socket_host, (endpoint,), listener),
        listener is Some ==> name@ == listener->0@,
        call_ensures(listener_host_matches_request, (name, host), concerned),
        call_ensures(parse_lsof_port_holder_pids_for_host, (before, host), of_before),
        call_ensures(parse_lsof_port_holder_pids_for_host, (all, host), of_all),
    ensures
        of_all@.contains(other) <==> of_before@.contains(other) || (other == pid && listener is Some
            && concerned),
        before@.len() == 0 ==> of_before@.len() == 0,
{
    lemma_pair_adds(before@, pid, endpoint@, host@);
    let st = lsof_run(lines_of(before@), host@);
    assert(of_before@.contains(other) <==> st.pids.contains(other));
    assert(of_all@.contains(other) <==> lsof_run(lines_of(all@), host@).pids.contains(other));
    if before@.len() == 0 && of_before@.len() > 0 {
        lemma_nothing_is_no_process(before@, host@);
        assert(of_before@.contains(of_before@[0]));
        assert(st.pids.contains(of_before@[0]));
    }
}

proof fn lemma_nothing_is_no_process(s: Seq<char>, host: Seq<char>)
    requires
        s.len() == 0,
    ensures
        lsof_run(lines_of(s), host).pids == Set::<u32>::empty(),
{
    assert(s =~= Seq::<char>::empty());
    law_lines_end_at_line_feeds(s, s);
}

proof fn lemma_pair_adds(before: Seq<char>, pid: u32, e: Seq<char>, host: Seq<char>)
    requires
        before.len() > 0 ==> before[before.len() - 1] == '\n',
        e.len() > 0,
        forall|i: int| 0 <= i < e.len() ==> !is_space(#[trigger] e[i]),
    ensures
        lsof_run(
            lines_of(
                before + ((seq!['p'] + decimal(pid as nat)).push('\n') + ((seq!['n'] + e).push('\n')
                    + Seq::empty())),
            ),
            host,
        ).pids == (if endpoint_host(e) is Some && host_matches(endpoint_host(e)->0, host) {
            lsof_run(lines_of(before), host).pids.insert(pid)
        } else {
            lsof_run(lines_of(before), host).pids
        }),
{
    lemma_process_and_socket_lines(pid, e);
    lemma_lines_of_both(
        before,
        (seq!['p'] + decimal(pid as nat)).push('\n') + ((seq!['n'] + e).push('\n') + Seq::empty()),
    );
    lemma_lsof_of_both(lines_of(before), pid, e, host);
}

proof fn lemma_lsof_of_both(lines: Seq<Seq<char>>, pid: u32, e: Seq<char>, host: Seq<char>)
    requires
        e.len() > 0,
        forall|i: int| 0 <= i < e.len() ==> !is_space(#[trigger] e[i]),
    ensures
        lsof_run(lines + seq![seq!['p'] + decimal(pid as nat), seq!['n'] + e], host).pids == (
        if endpoint_host(e) is Some && host_matches(endpoint_host(e)->0, host) {
            lsof_run(lines, host).pids.insert(pid)
        } else {
            lsof_run(lines, host).pids
        }),
{
    let p = seq!['p'] + decimal(pid as nat);
    let n = seq!['n'] + e;
    let all = lines + seq![p, n];
    assert(all.drop_last() =~= lines.push(p));
    assert(lines.push(p).drop_last() =~= lines);
    assert(all.last() == n);
    let st = lsof_run(lines, host);
    let mid = LsofState { current: Some(pid), pids: st.pids };
    lemma_lsof_of_pairs(st, pid, e, host);
    lemma_lsof_of_pairs(mid, pid, e, host);
    assert(lines.push(p).last() == p);
    assert(lsof_run(lines.push(p), host) == lsof_step(lsof_run(lines, host), p, host));
    assert(lsof_run(all, host) == lsof_step(lsof_run(lines.push(p), host), n, host));
}

proof fn lemma_process_and_socket_lines(pid: u32, e: Seq<char>)
    requires
        e.len() > 0,
        forall|i: int| 0 <= i < e.len() ==> !is_space(#[trigger] e[i]),
    ensures
        lines_of(
            (seq!['p'] + decimal(pid as nat)).push('\n') + ((seq!['n'] + e).push('\n')
                + Seq::empty()),
        ) == seq![seq!['p'] + decimal(pid as nat), seq!['n'] + e],
{
    let p = seq!['p'] + decimal(pid as nat);
    let n = seq!['n'] + e;
    lemma_decimal_line(pid as nat);
    lemma_decimal_chars(pid as nat);
    let d = decimal(pid as nat);
    assert(!p.contains('\n')) by {
        if p.contains('\n') {
            let k = choose|k: int| 0 <= k < p.len() && p[k] == '\n';
            assert(d[k - 1] == '\n');
        }
    }
    assert(!n.contains('\n')) by {
        if n.contains('\n') {
            let k = choose|k: int| 0 <= k < n.len() && n[k] == '\n';
            assert(e[k - 1] == '\n');
            assert(is_space(e[k - 1]));
        }
    }
    let empty = Seq::<char>::empty();
    let tail2 = n.push('\n') + empty;
    law_lines_end_at_line_feeds(p, tail2);
    law_lines_end_at_line_feeds(n, empty);
    law_lines_end_at_line_feeds(empty, empty);
    assert(p[p.len() - 1] == d[d.len() - 1]);
    assert(is_digit(d[d.len() - 1]));
    assert(n[n.len() - 1] == e[e.len() - 1]);
    assert(!is_space(e[e.len() - 1]));
    assert(lines_of(p.push('\n') + tail2) =~= seq![p, n]);
}

proof fn lemma_lines_of_both(a: Seq<char>, b: Seq<char>)
    requires
        a.len() > 0 ==> a[a.len() - 1] == '\n',
    ensures
        lines_of(a + b) == lines_of(a) + lines_of(b),
{
    let empty = Seq::<char>::empty();
    law_lines_end_at_line_feeds(empty, empty);
    if a.len() == 0 {
        assert(a + b =~= b);
        assert(a =~= empty);
        assert(lines_of(a) + lines_of(b) =~= lines_of(b));
    } else {
        let c = a.drop_last();
        assert(a =~= c.push('\n') + empty);
        assert(a + b =~= c.push('\n') + b);
        lemma_split_on_concat(c, b, '\n');
        lemma_split_on_concat(c, empty, '\n');
        lemma_split_of_field(empty, '\n');
        crate::text::lemma_split_on_nonempty(b, '\n');
        let f = |l: Seq<char>| without_trailing_cr(l);
        let pc = split_on(c, '\n');
        let pb = split_on(b, '\n');
        assert(split_on(a + b, '\n').drop_last() =~= pc + pb.drop_last());
        assert((pc + pb.drop_last()).map_values(f) =~= pc.map_values(f) + pb.drop_last().map_values(
            f,
        ));
        assert(split_on(a, '\n').drop_last() =~= pc);
        assert(lines_of(a) =~= pc.map_values(f));
        assert(lines_of(a + b) =~= lines_of(a) + lines_of(b));
    }
}

/// What `ss` found counts, and what `lsof` found only where `ss` found nothing.
/// A hint that holds good wins over both.
pub proof fn law_ss_before_lsof_and_the_hint_before_both(
    via_ss: Vec<u32>,
    via_lsof: Vec<u32>,
    hinted: Option<u32>,
    holders: &Vec<PortHolder>,
    found: Vec<u32>,
    servers: Vec<u32>,
    ours: Vec<u32>,
    listening: Vec<u32>,
)
    requires
        call_ensures(port_holder_pids, (via_ss, via_lsof), found),
        call_ensures(agent_mail_port_holder_pids, (holders,), servers),
        call_ensures(agent_mail_port_holder_pids_with_hint, (hinted, holders), ours),
        call_ensures(listener_port_holder_pids_with_hint, (hinted, via_ss), listening),
    ensures
        via_ss@.len() > 0 ==> found@ == via_ss@,
        via_ss@.len() == 0 ==> found@ == via_lsof@,
        hinted is Some ==> ours@ == seq![hinted->0] && listening@ == seq![hinted->0],
        hinted is None ==> ours@ == servers@ && listening@ == via_ss@,
{
}

/// The servers of ours are those among the holders, in their order.
pub proof fn law_servers_are_picked_in_order(
    before: &Vec<PortHolder>,
    all: &Vec<PortHolder>,
    last: PortHolder,
    of_before: Vec<u32>,
    of_all: Vec<u32>,
)
    requires
        all@ == before@.push(last),
        call_ensures(agent_mail_port_holder_pids, (before,), of_before),
        call_ensures(agent_mail_port_holder_pids, (all,), of_all),
    ensures
        last.is_agent_mail ==> of_all@ == of_before@.push(last.pid),
        !last.is_agent_mail ==> of_all@ == of_before@,
        before@.len() == 0 ==> of_before@.len() == 0,
{
    assert(all@.drop_last() =~= before@);
}

/// A hint is too old once more than the greatest age has gone by; one without
/// a time, or from the future, never is. What is believed is what was written.
pub proof fn law_old_hints_are_not_believed(
    content: &str,
    now_secs: u64,
    max_age: u64,
    written: Option<ListenerPidHint>,
    r: Option<ListenerPidHint>,
)
    requires
        call_ensures(parse_listener_pid_hint, (content,), written),
        call_ensures(read_listener_pid_hint, (content, now_secs, max_age), r),
    ensures
        written is None ==> r is None,
        written is Some && written->0.created_epoch_secs is None ==> r is Some,
        written is Some && written->0.created_epoch_secs is Some ==> (r is Some <==> now_secs
            <= written->0.created_epoch_secs->0 + max_age),
        r is Some ==> written is Some && r->0@ == written->0@,
{
}

/// The greatest age is a day, or as many seconds as are set, but never under a
/// minute.
pub proof fn law_hints_live_a_day(raw: Option<&str>, n: nat, r: u64)
    requires
        n <= u64::MAX,
        call_ensures(pid_hint_max_age_secs, (raw,), r),
    ensures
        raw is None ==> r == 24 * 60 * 60,
        raw is Some && trimmed(raw->0@) == decimal(n) && n >= 60 ==> r == n,
        r >= 60,
        raw is Some && trimmed(raw->0@) == decimal(n) && n < 60 ==> r == 60,
        raw is Some && parsed_unsigned(trimmed(raw->0@), 10, u64::MAX as int) is None ==> r == 24
            * 60 * 60,
{
    lemma_decimal_parses(n, u64::MAX as int);
}

/// A hint holds good only for a process that listens, and that either runs the
/// executable that the hint names or is known as a server of ours.
pub proof fn law_when_a_hint_holds_good(
    hint: &ListenerPidHint,
    listeners: &Vec<u32>,
    runs_named_path: bool,
    is_agent_mail: bool,
    good: bool,
    r: Option<u32>,
    none: Option<u32>,
)
    requires
        call_ensures(
            hinted_pid_matches_listener,
            (hint, listeners, runs_named_path, is_agent_mail),
            good,
        ),
        call_ensures(
            hinted_agent_mail_pid,
            (Some(hint), listeners, runs_named_path, is_agent_mail),
            r,
        ),
        call_ensures(hinted_agent_mail_pid, (None, listeners, runs_named_path, is_agent_mail), none),
    ensures
        good ==> listeners@.contains(hint.pid) && (is_agent_mail || (hint.exe_path is Some
            && runs_named_path)),
        listeners@.contains(hint.pid) && is_agent_mail ==> good,
        listeners@.contains(hint.pid) && hint.exe_path is Some && runs_named_path ==> good,
        r == (if good {
            Some(hint.pid)
        } else {
            None
        }),
        none is None,
{
}

/// What a server writes about itself is what it reads.
pub proof fn law_hints_are_read_as_they_are_written(
    hint: &ListenerPidHint,
    now_secs: u64,
    written: String,
    content: &str,
    r: Option<ListenerPidHint>,
)
    requires
        hint.exe_path is Some ==> !hint.exe_path->0@.contains('\n') && trimmed(hint.exe_path->0@)
            == hint.exe_path->0@ && hint.exe_path->0@.len() > 0,
        call_ensures(format_listener_pid_hint, (hint, now_secs), written),
        content@ == written@,
        call_ensures(parse_listener_pid_hint, (content,), r),
    ensures
        r is Some,
        r->0.pid == hint.pid,
        hint.exe_path is Some ==> r->0.exe_path is Some && r->0.exe_path->0@ == hint.exe_path->0@,
        hint.exe_path is None ==> r->0.exe_path is None,
        hint.created_epoch_secs is Some ==> r->0.created_epoch_secs == hint.created_epoch_secs,
        hint.created_epoch_secs is None ==> r->0.created_epoch_secs == Some(now_secs),
{
    law_hint_round_trip(hint@, now_secs);
    assert(parsed_hint(content@) == Some(r->0@));
}

/// A hint lies in `TMPDIR` where that is set and not blank, under a name that
/// tells the port.
pub proof fn law_where_a_hint_lies(tmpdir: Option<&str>, host: &str, port: u16, uses: bool, r: String)
    requires
        call_ensures(uses_tmpdir, (tmpdir,), uses),
        call_ensures(listener_pid_hint_file_name, (host, port), r),
    ensures
        uses <==> tmpdir is Some && trimmed(tmpdir->0@).len() > 0,
        ("-"@ + decimal(port as nat) + ".pid"@).is_suffix_of(r@),
        trimmed(host@).len() > 0 ==> hex_of(encode_utf8(trimmed(host@))).is_prefix_of(r@),
        trimmed(host@).len() == 0 ==> hex_of(encode_utf8("host"@)).is_prefix_of(r@),
{
    let c = hint_component(host@);
    let t = "-"@ + decimal(port as nat) + ".pid"@;
    assert(r@ =~= c + t);
    assert(r@.skip(c.len() as int) =~= t);
}

/// A host is filed under the hexadecimal form of its text without the blanks
/// around it, so that those do not count; a blank one is filed as `host`.
pub proof fn law_blanks_around_a_host_do_not_count(
    host: &str,
    lead: Seq<char>,
    core: &str,
    trail: Seq<char>,
    r: String,
    s: String,
)
    requires
        forall|i: int| 0 <= i < lead.len() ==> is_space(#[trigger] lead[i]),
        forall|i: int| 0 <= i < trail.len() ==> is_space(#[trigger] trail[i]),
        core@.len() > 0 ==> !is_space(core@[0]) && !is_space(core@[core@.len() - 1]),
        host@ == lead + core@ + trail,
        call_ensures(encode_pid_hint_component, (host,), r),
        call_ensures(encode_pid_hint_component, (core,), s),
    ensures
        r@ == s@,
        core@.len() > 0 ==> r@ == hex_of(encode_utf8(core@)),
        core@.len() == 0 ==> r@ == hex_of(encode_utf8("host"@)),
{
    crate::text::law_trimming(lead, core@, trail);
    let none = Seq::<char>::empty();
    crate::text::law_trimming(none, core@, none);
    assert(none + core@ + none =~= core@);
}

} // verus!
