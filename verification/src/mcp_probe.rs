//! The request that proves that a listener is a server of ours, and the
//! reading of its answer.

use vstd::prelude::*;
use vstd::utf8::encode_utf8;

use crate::numbers::{decimal, parse_u16, parse_usize, parsed_unsigned, print_u64};
use crate::text::{
    chars_of, eq_ignore_ascii_case, find_from, first_at, lemma_first_at, lines, lines_of, same,
    same_ignoring_ascii_case, split_whitespace, starts_with, text_of, trim, trimmed, views, words,
};
use crate::text::{
    law_lines_end_at_line_feeds, law_same_but_for_case, law_words_are_taken_one_by_one,
    without_trailing_cr,
};

verus! {

/// The header by which a server of ours signs its answers.
pub const HEALTH_SIGNATURE_HEADER_NAME: &'static str = "x-agent-mail-health";

/// The value of that header.
pub const HEALTH_SIGNATURE_HEADER_VALUE: &'static str = "1";

/// The most bytes of headers that are read.
pub const MAX_HEALTH_BODY_BYTES: usize = 4096;

/// What a probe of a listener found.
#[derive(Debug, Clone, Copy, PartialEq, Eq, Structural)]
pub enum HealthProbeStatus {
    /// A server of ours answered.
    AgentMailServer,
    /// Something else answered.
    OtherListener,
    /// Nothing answered.
    NoResponse,
}

/// The path of the request: with a slash in front and at the end.
pub open spec fn probe_path(path: Seq<char>) -> Seq<char> {
    let t = trimmed(path);
    if t.len() == 0 || t == "/"@ {
        "/"@
    } else {
        let fronted = if t[0] == '/' {
            t
        } else {
            "/"@ + t
        };
        if fronted.last() == '/' {
            fronted
        } else {
            fronted + "/"@
        }
    }
}

pub fn normalize_mcp_probe_path(path: &str) -> (r: String)
    ensures
        r@ == probe_path(path@),
{
    let t = trim(path);
    if t.as_str().is_empty() || same(t.as_str(), "/") {
        return "/".to_owned();
    }
    proof {
        reveal_strlit("/");
    }
    let cs = chars_of(t.as_str());
    let fronted = if cs[0] == '/' {
        t
    } else {
        "/".to_owned().concat(t.as_str())
    };
    let fs = chars_of(fronted.as_str());
    let n: usize = fs.len();
    if fs[n - 1] == '/' {
        fronted
    } else {
        fronted.concat("/")
    }
}

/// The path of a request starts and ends with a slash, and making it so again
/// changes nothing.
pub proof fn law_probe_path_is_framed(path: Seq<char>)
    ensures
        probe_path(path).len() > 0,
        probe_path(path)[0] == '/',
        probe_path(path).last() == '/',
        probe_path(probe_path(path)) == probe_path(path),
{
    reveal_strlit("/");
    let p = probe_path(path);
    assert(!crate::text::is_space('/'));
    assert(crate::text::trimmed_start(p) == p);
    assert(crate::text::trimmed_end(p) == p);
    assert(trimmed(p) == p);
}

/// The body of the request.
pub const PROBE_BODY: &'static str =
    r#"{"jsonrpc":"2.0","id":"startup-port-probe","method":"tools/list","params":{}}"#;

/// The request: a call of the route that clients use, without a token.
pub open spec fn probe_request(
    connect_host: Seq<char>,
    port: u16,
    mcp_path: Seq<char>,
) -> Seq<char> {
    "POST "@ + probe_path(mcp_path) + " HTTP/1.1\r\nHost: "@ + connect_host + ":"@ + decimal(
        port as nat,
    )
        + "\r\nConnection: close\r\nUser-Agent: mcp-agent-mail-startup-check\r\nContent-Type: application/json\r\nContent-Length: "@
        + decimal(encode_utf8(PROBE_BODY@).len()) + "\r\n\r\n"@ + PROBE_BODY@
}

pub fn mcp_probe_request(connect_host: &str, port: u16, mcp_path: &str) -> (r: String)
    ensures
        r@ == probe_request(connect_host@, port, mcp_path@),
{
    let length: usize = PROBE_BODY.as_bytes().len();
    "POST ".to_owned().concat(normalize_mcp_probe_path(mcp_path).as_str()).concat(
        " HTTP/1.1\r\nHost: ",
    ).concat(connect_host).concat(":").concat(print_u64(port as u64).as_str()).concat(
        "\r\nConnection: close\r\nUser-Agent: mcp-agent-mail-startup-check\r\nContent-Type: application/json\r\nContent-Length: ",
    ).concat(print_u64(length as u64).as_str()).concat("\r\n\r\n").concat(PROBE_BODY)
}

/// A status that proves that the call was dispatched, or that it was stopped
/// only for want of a token.
pub open spec fn is_good_status(line: Seq<char>) -> bool {
    &&& "HTTP/1."@.is_prefix_of(line)
    &&& words(line).len() >= 2
    &&& match parsed_unsigned(words(line)[1], 10, u16::MAX as int) {
        Some(code) => 200 <= code <= 299 || code == 401,
        None => false,
    }
}

fn good_status(line: &str) -> (r: bool)
    ensures
        r == is_good_status(line@),
{
    if !starts_with(line, "HTTP/1.") {
        return false;
    }
    let parts = split_whitespace(line);
    if parts.len() < 2 {
        return false;
    }
    assert(parts@[1]@ == words(line@)[1]);
    match parse_u16(parts[1].as_str()) {
        Some(code) => (200 <= code && code <= 299) || code == 401,
        None => false,
    }
}

/// The name and the value of a header line.
pub open spec fn header_parts(line: Seq<char>) -> Option<(Seq<char>, Seq<char>)> {
    match first_at(line, ":"@, 0) {
        Some(i) => Some((trimmed(line.take(i)), trimmed(line.skip(i + 1)))),
        None => None,
    }
}

fn split_header(line: &str) -> (r: Option<(String, String)>)
    ensures
        match r {
            Some((name, value)) => header_parts(line@) == Some((name@, value@)),
            None => header_parts(line@) is None,
        },
{
    let cs = chars_of(line);
    let colon = chars_of(":");
    proof {
        reveal_strlit(":");
        lemma_first_at(line@, ":"@, 0);
    }
    match find_from(cs.as_slice(), colon.as_slice(), 0) {
        Some(i) => {
            let n: usize = cs.len();
            let name = text_of(cs.as_slice(), 0, i);
            let value = text_of(cs.as_slice(), i + 1, n);
            assert(name@ =~= line@.take(i as int));
            assert(value@ =~= line@.skip(i + 1));
            Some((trim(name.as_str()), trim(value.as_str())))
        },
        None => None,
    }
}

/// A header line that signs the answer.
pub open spec fn is_signature(line: Seq<char>) -> bool {
    match header_parts(line) {
        Some((name, value)) => same_ignoring_ascii_case(name, HEALTH_SIGNATURE_HEADER_NAME@)
            && same_ignoring_ascii_case(value, HEALTH_SIGNATURE_HEADER_VALUE@),
        None => false,
    }
}

pub open spec fn is_signed(headers: Seq<char>) -> bool {
    exists|i: int|
        0 <= i < lines_of(headers).len() && is_signature(#[trigger] lines_of(headers)[i])
}

/// Whether headers sign an answer of a server of ours.
pub fn has_agent_mail_signature(headers: &str) -> (r: bool)
    ensures
        r == is_signed(headers@),
{
    let all = lines(headers);
    let ghost lv = lines_of(headers@);
    let mut i: usize = 0;
    while i < all.len()
        invariant
            i <= all@.len(),
            lv == views(all@),
            lv == lines_of(headers@),
            forall|k: int| 0 <= k < i ==> !is_signature(#[trigger] lv[k]),
        decreases all@.len() - i,
    {
        assert(lv[i as int] == all@[i as int]@);
        if let Some((name, value)) = split_header(all[i].as_str()) {
            if eq_ignore_ascii_case(name.as_str(), HEALTH_SIGNATURE_HEADER_NAME)
                && eq_ignore_ascii_case(value.as_str(), HEALTH_SIGNATURE_HEADER_VALUE) {
                assert(is_signature(lv[i as int]));
                return true;
            }
        }
        i = i + 1;
    }
    false
}

/// The length that a header line states.
pub open spec fn stated_length(line: Seq<char>) -> Option<int> {
    match header_parts(line) {
        Some((name, value)) => if same_ignoring_ascii_case(name, "content-length"@) {
            parsed_unsigned(value, 10, usize::MAX as int)
        } else {
            None
        },
        None => None,
    }
}

/// The length of the first header line that states one.
pub open spec fn content_length(lines: Seq<Seq<char>>) -> Option<int>
    decreases lines.len(),
{
    if lines.len() == 0 {
        None
    } else if stated_length(lines[0]) is Some {
        stated_length(lines[0])
    } else {
        content_length(lines.skip(1))
    }
}

pub fn parse_content_length(headers: &str) -> (r: Option<usize>)
    ensures
        match r {
            Some(n) => content_length(lines_of(headers@)) == Some(n as int),
            None => content_length(lines_of(headers@)) is None,
        },
{
    let all = lines(headers);
    let ghost lv = lines_of(headers@);
    let mut i: usize = 0;
    assert(lv.skip(0) =~= lv);
    while i < all.len()
        invariant
            i <= all@.len(),
            lv == views(all@),
            lv == lines_of(headers@),
            content_length(lv) == content_length(lv.skip(i as int)),
        decreases all@.len() - i,
    {
        assert(lv.skip(i as int)[0] == all@[i as int]@);
        assert(lv.skip(i as int).skip(1) =~= lv.skip(i + 1));
        if let Some((name, value)) = split_header(all[i].as_str()) {
            if eq_ignore_ascii_case(name.as_str(), "content-length") {
                if let Some(n) = parse_usize(value.as_str()) {
                    return Some(n);
                }
            }
        }
        i = i + 1;
    }
    None
}

/// What a line of the answer settles.
#[derive(Debug, Clone, Copy, PartialEq, Eq, Structural)]
pub enum AnswerVerdict {
    /// Read the next line.
    More,
    /// The answer is that of a server of ours.
    Ours,
    /// It is not.
    NotOurs,
}

/// The reading of an answer: the headers so far, with the line breaks that
/// end them, and their size.
pub struct AnswerReader {
    pub in_headers: bool,
    pub headers: String,
    pub header_bytes: usize,
}

/// Where the reading of an answer stands.
#[verifier::ext_equal]
pub struct AnswerState {
    pub in_headers: bool,
    pub headers: Seq<char>,
    pub header_bytes: int,
}

/// The size of the headers with one more line, as far as it can be counted.
pub open spec fn grown_bytes(header_bytes: int, line: Seq<char>) -> int {
    if header_bytes + encode_utf8(line).len() > usize::MAX {
        usize::MAX as int
    } else {
        header_bytes + encode_utf8(line).len()
    }
}

impl AnswerState {
    /// What a line settles; `None` is a line that could not be read, and the
    /// empty text the end of the answer.
    pub open spec fn verdict(self, line: Option<Seq<char>>) -> AnswerVerdict {
        match line {
            None => AnswerVerdict::NotOurs,
            Some(text) => if !self.in_headers {
                if is_good_status(text) {
                    AnswerVerdict::More
                } else {
                    AnswerVerdict::NotOurs
                }
            } else if text.len() == 0 {
                AnswerVerdict::NotOurs
            } else if text == "\r\n"@ {
                if is_signed(self.headers) {
                    AnswerVerdict::Ours
                } else {
                    AnswerVerdict::NotOurs
                }
            } else if grown_bytes(self.header_bytes, text) > MAX_HEALTH_BODY_BYTES {
                AnswerVerdict::NotOurs
            } else {
                AnswerVerdict::More
            },
        }
    }

    /// The state behind a line that settles nothing: the status opens the
    /// headers, and a header is kept.
    pub open spec fn after(self, text: Seq<char>) -> AnswerState {
        if self.in_headers {
            AnswerState {
                in_headers: true,
                headers: self.headers + text,
                header_bytes: grown_bytes(self.header_bytes, text),
            }
        } else {
            AnswerState { in_headers: true, ..self }
        }
    }

    /// What the lines of an answer settle, read up to the first that does.
    pub open spec fn read(self, lines: Seq<Option<Seq<char>>>) -> AnswerVerdict
        decreases lines.len(),
    {
        if lines.len() == 0 {
            AnswerVerdict::More
        } else if self.verdict(lines[0]) != AnswerVerdict::More {
            self.verdict(lines[0])
        } else {
            self.after(lines[0]->0).read(lines.skip(1))
        }
    }
}

/// Nothing has been read yet.
pub open spec fn no_answer() -> AnswerState {
    AnswerState { in_headers: false, headers: Seq::empty(), header_bytes: 0 }
}

impl View for AnswerReader {
    type V = AnswerState;

    open spec fn view(&self) -> AnswerState {
        AnswerState {
            in_headers: self.in_headers,
            headers: self.headers@,
            header_bytes: self.header_bytes as int,
        }
    }
}

impl AnswerReader {
    pub fn new() -> (r: AnswerReader)
        ensures
            r@ == no_answer(),
    {
        AnswerReader { in_headers: false, headers: String::new(), header_bytes: 0 }
    }

    /// Takes the next line of the answer, with the line break that ends it.
    /// First comes the status; then headers, up to a limit; the empty line
    /// behind them settles the matter.
    pub fn take_line(&mut self, line: Option<&str>) -> (r: AnswerVerdict)
        ensures
            r == old(self)@.verdict(crate::text::opt_view(line)),
            final(self)@ == (if r == AnswerVerdict::More {
                old(self)@.after(line->0@)
            } else {
                old(self)@
            }),
    {
        let text = match line {
            None => {
                return AnswerVerdict::NotOurs;
            },
            Some(text) => text,
        };
        if !self.in_headers {
            if !good_status(text) {
                return AnswerVerdict::NotOurs;
            }
            self.in_headers = true;
            return AnswerVerdict::More;
        }
        if text.is_empty() {
            return AnswerVerdict::NotOurs;
        }
        if same(text, "\r\n") {
            return if has_agent_mail_signature(self.headers.as_str()) {
                AnswerVerdict::Ours
            } else {
                AnswerVerdict::NotOurs
            };
        }
        let size: usize = text.as_bytes().len();
        let grown: usize = self.header_bytes.saturating_add(size);
        if grown > MAX_HEALTH_BODY_BYTES {
            return AnswerVerdict::NotOurs;
        }
        self.header_bytes = grown;
        self.headers.append(text);
        AnswerVerdict::More
    }
}

/// The text of the headers.
pub open spec fn header_text(lines: Seq<Option<Seq<char>>>) -> Seq<char>
    decreases lines.len(),
{
    if lines.len() == 0 {
        Seq::empty()
    } else {
        lines[0]->0 + header_text(lines.skip(1))
    }
}

/// The size of the headers.
pub open spec fn header_size(lines: Seq<Option<Seq<char>>>) -> int
    decreases lines.len(),
{
    if lines.len() == 0 {
        0
    } else {
        encode_utf8(lines[0]->0).len() + header_size(lines.skip(1))
    }
}

/// A line that was read, and that ends neither the headers nor the answer.
pub open spec fn is_header_line(line: Option<Seq<char>>) -> bool {
    line is Some && line->0.len() > 0 && line->0 != "\r\n"@
}

/// The headers are these many lines, with an empty line behind them, and not
/// too large.
pub open spec fn headers_end_at(lines: Seq<Option<Seq<char>>>, n: int) -> bool {
    &&& 0 <= n < lines.len()
    &&& lines[n] == Some("\r\n"@)
    &&& forall|i: int| 0 <= i < n ==> is_header_line(#[trigger] lines[i])
    &&& header_size(lines.take(n)) <= MAX_HEALTH_BODY_BYTES
}

proof fn lemma_sizes(lines: Seq<Option<Seq<char>>>)
    ensures
        header_size(lines) >= 0,
    decreases lines.len(),
{
    if lines.len() > 0 {
        lemma_sizes(lines.skip(1));
    }
}

proof fn lemma_headers_read(state: AnswerState, lines: Seq<Option<Seq<char>>>)
    requires
        state.in_headers,
        0 <= state.header_bytes <= MAX_HEALTH_BODY_BYTES,
    ensures
        state.read(lines) == AnswerVerdict::Ours <==> exists|n: int|
            #![trigger lines[n]]
            0 <= n < lines.len() && lines[n] == Some("\r\n"@) && (forall|i: int|
                0 <= i < n ==> is_header_line(#[trigger] lines[i])) && state.header_bytes
                + header_size(lines.take(n)) <= MAX_HEALTH_BODY_BYTES && is_signed(
                state.headers + header_text(lines.take(n)),
            ),
    decreases lines.len(),
{
    let ends = |n: int|
        0 <= n < lines.len() && lines[n] == Some("\r\n"@) && (forall|i: int|
            0 <= i < n ==> is_header_line(#[trigger] lines[i])) && state.header_bytes + header_size(
            lines.take(n),
        ) <= MAX_HEALTH_BODY_BYTES && is_signed(state.headers + header_text(lines.take(n)));
    reveal_strlit("\r\n");
    if lines.len() > 0 {
        let rest = lines.skip(1);
        assert(lines.take(0) =~= Seq::<Option<Seq<char>>>::empty());
        assert(state.headers + Seq::<char>::empty() =~= state.headers);
        if is_header_line(lines[0]) {
            let text = lines[0]->0;
            assert forall|n: int| 1 <= n < lines.len() implies header_size(
                #[trigger] lines.take(n),
            ) == encode_utf8(text).len() + header_size(rest.take(n - 1)) && header_text(
                lines.take(n),
            ) == text + header_text(rest.take(n - 1)) by {
                assert(lines.take(n).skip(1) =~= rest.take(n - 1));
                lemma_sizes(rest.take(n - 1));
            }
            if state.verdict(lines[0]) == AnswerVerdict::More {
                let next = state.after(text);
                lemma_headers_read(next, rest);
                if state.read(lines) == AnswerVerdict::Ours {
                    let n = choose|n: int|
                        #![trigger rest[n]]
                        0 <= n < rest.len() && rest[n] == Some("\r\n"@) && (forall|i: int|
                            0 <= i < n ==> is_header_line(#[trigger] rest[i])) && next.header_bytes
                            + header_size(rest.take(n)) <= MAX_HEALTH_BODY_BYTES && is_signed(
                            next.headers + header_text(rest.take(n)),
                        );
                    assert(lines[n + 1] == rest[n]);
                    assert(header_size(lines.take(n + 1)) == encode_utf8(text).len() + header_size(
                        rest.take(n),
                    ));
                    assert(state.headers + header_text(lines.take(n + 1)) =~= next.headers
                        + header_text(rest.take(n)));
                    assert forall|i: int| 0 <= i < n + 1 implies is_header_line(
                        #[trigger] lines[i],
                    ) by {
                        if i > 0 {
                            assert(lines[i] == rest[i - 1]);
                        }
                    }
                    assert(ends(n + 1));
                }
                if exists|n: int| #![trigger lines[n]] ends(n) {
                    let n = choose|n: int| #![trigger lines[n]] ends(n);
                    assert(n > 0);
                    assert(rest[n - 1] == lines[n]);
                    assert(header_size(lines.take(n)) == encode_utf8(text).len() + header_size(
                        rest.take(n - 1),
                    ));
                    assert(state.headers + header_text(lines.take(n)) =~= next.headers
                        + header_text(rest.take(n - 1)));
                    assert forall|i: int| 0 <= i < n - 1 implies is_header_line(
                        #[trigger] rest[i],
                    ) by {
                        assert(rest[i] == lines[i + 1]);
                    }
                }
            } else {
                assert forall|n: int| #![trigger lines[n]] !ends(n) by {
                    if ends(n) {
                        assert(n > 0);
                        assert(header_size(lines.take(n)) == encode_utf8(text).len() + header_size(
                            rest.take(n - 1),
                        ));
                        lemma_sizes(rest.take(n - 1));
                    }
                }
            }
        } else if lines[0] == Some("\r\n"@) {
            assert forall|n: int| #![trigger lines[n]] ends(n) implies n == 0 by {
                if n > 0 {
                    assert(is_header_line(lines[0]));
                }
            }
            if is_signed(state.headers) {
                assert(ends(0));
            }
        } else {
            assert forall|n: int| #![trigger lines[n]] !ends(n) by {
                if ends(n) && n > 0 {
                    assert(is_header_line(lines[0]));
                }
            }
        }
    }
}

/// An answer is that of a server of ours exactly where its status is good, its
/// headers end and are not too large, and they sign it.
pub proof fn law_answer_is_ours_exactly(lines: Seq<Option<Seq<char>>>)
    ensures
        no_answer().read(lines) == AnswerVerdict::Ours <==> lines.len() > 0 && lines[0] is Some
            && is_good_status(lines[0]->0) && exists|n: int| #[trigger]
            headers_end_at(lines.skip(1), n) && is_signed(header_text(lines.skip(1).take(n))),
{
    if lines.len() > 0 && lines[0] is Some && is_good_status(lines[0]->0) {
        let rest = lines.skip(1);
        let state = no_answer().after(lines[0]->0);
        lemma_headers_read(state, rest);
        let empty = Seq::<char>::empty();
        if no_answer().read(lines) == AnswerVerdict::Ours {
            let n = choose|n: int|
                #![trigger rest[n]]
                0 <= n < rest.len() && rest[n] == Some("\r\n"@) && (forall|i: int|
                    0 <= i < n ==> is_header_line(#[trigger] rest[i])) && state.header_bytes
                    + header_size(rest.take(n)) <= MAX_HEALTH_BODY_BYTES && is_signed(
                    state.headers + header_text(rest.take(n)),
                );
            assert(empty + header_text(rest.take(n)) =~= header_text(rest.take(n)));
            assert(headers_end_at(rest, n));
        }
        if exists|n: int| #[trigger]
            headers_end_at(rest, n) && is_signed(header_text(rest.take(n))) {
            let n = choose|n: int| #[trigger]
                headers_end_at(rest, n) && is_signed(header_text(rest.take(n)));
            assert(empty + header_text(rest.take(n)) =~= header_text(rest.take(n)));
            assert(rest[n] == Some("\r\n"@));
        }
    }
}

/// What the probe of one address found: nothing where it could not be reached,
/// and otherwise what its answer settled.
pub fn probe_agent_mail_mcp_addr(connected: bool, answer_is_ours: bool) -> (r: HealthProbeStatus)
    ensures
        r == (if !connected {
            HealthProbeStatus::NoResponse
        } else if answer_is_ours {
            HealthProbeStatus::AgentMailServer
        } else {
            HealthProbeStatus::OtherListener
        }),
{
    if !connected {
        HealthProbeStatus::NoResponse
    } else if answer_is_ours {
        HealthProbeStatus::AgentMailServer
    } else {
        HealthProbeStatus::OtherListener
    }
}

/// A signature alone does not make a server: an answer with another status,
/// such as that of a method that is not allowed, is turned down.
pub proof fn law_bad_status_is_never_ours(line: Seq<char>, rest: Seq<Option<Seq<char>>>)
    requires
        !is_good_status(line),
    ensures
        no_answer().read(seq![Some(line)] + rest) == AnswerVerdict::NotOurs,
{
    assert((seq![Some(line)] + rest)[0] == Some(line));
}

/// What the probes of all addresses of a host found.
pub open spec fn combined(results: Seq<HealthProbeStatus>) -> HealthProbeStatus {
    if results.contains(HealthProbeStatus::AgentMailServer) {
        HealthProbeStatus::AgentMailServer
    } else if results.contains(HealthProbeStatus::OtherListener) {
        HealthProbeStatus::OtherListener
    } else {
        HealthProbeStatus::NoResponse
    }
}

/// Combines the probes of all addresses: one server of ours is enough, and
/// otherwise any listener counts.
pub fn agent_mail_mcp_probe_addrs(results: &Vec<HealthProbeStatus>) -> (r: HealthProbeStatus)
    ensures
        r == combined(results@),
{
    let mut saw_listener = false;
    let mut i: usize = 0;
    while i < results.len()
        invariant
            i <= results@.len(),
            forall|k: int| 0 <= k < i ==> results@[k] != HealthProbeStatus::AgentMailServer,
            saw_listener == exists|k: int|
                0 <= k < i && results@[k] == HealthProbeStatus::OtherListener,
        decreases results@.len() - i,
    {
        match results[i] {
            HealthProbeStatus::AgentMailServer => {
                assert(results@[i as int] == HealthProbeStatus::AgentMailServer);
                return HealthProbeStatus::AgentMailServer;
            },
            HealthProbeStatus::OtherListener => {
                assert(results@[i as int] == HealthProbeStatus::OtherListener);
                saw_listener = true;
            },
            HealthProbeStatus::NoResponse => {},
        }
        i = i + 1;
    }
    if saw_listener {
        HealthProbeStatus::OtherListener
    } else {
        HealthProbeStatus::NoResponse
    }
}

/// Whether a probe found a server of ours.
pub fn probe_agent_mail_mcp_blocking(status: HealthProbeStatus) -> (r: bool)
    ensures
        r == (status == HealthProbeStatus::AgentMailServer),
{
    match status {
        HealthProbeStatus::AgentMailServer => true,
        _ => false,
    }
}

/// The path that is asked for is the given one, with a slash added at either
/// end where there is none; without one it is the root.
pub proof fn law_a_path_is_only_framed(path: &str, t: Seq<char>, r: String)
    requires
        t == trimmed(path@),
        call_ensures(normalize_mcp_probe_path, (path,), r),
    ensures
        t.len() == 0 ==> r@ == seq!['/'],
        t.len() > 0 && t[0] == '/' && t[t.len() - 1] == '/' ==> r@ == t,
        t.len() > 0 && t[0] == '/' && t[t.len() - 1] != '/' ==> r@ == t.push('/'),
        t.len() > 0 && t[0] != '/' && t[t.len() - 1] == '/' ==> r@ == seq!['/'] + t,
        t.len() > 0 && t[0] != '/' && t[t.len() - 1] != '/' ==> r@ == (seq!['/'] + t).push('/'),
{
    reveal_strlit("/");
    assert("/"@ =~= seq!['/']);
    assert(t + "/"@ =~= t.push('/'));
    assert("/"@ + t + "/"@ =~= (seq!['/'] + t).push('/'));
}

/// The request asks the route of the given path at the given host and port,
/// states the size of its body in bytes, and ends with the body.
pub proof fn law_the_request_asks_the_route(
    connect_host: &str,
    port: u16,
    mcp_path: &str,
    path: String,
    r: String,
)
    requires
        call_ensures(normalize_mcp_probe_path, (mcp_path,), path),
        call_ensures(mcp_probe_request, (connect_host, port, mcp_path), r),
    ensures
        ("POST "@ + path@ + " HTTP/1.1\r\nHost: "@ + connect_host@ + ":"@ + decimal(
            port as nat,
        )).is_prefix_of(r@),
        (decimal(encode_utf8(PROBE_BODY@).len()) + "\r\n\r\n"@ + PROBE_BODY@).is_suffix_of(r@),
{
    let head = "POST "@ + path@ + " HTTP/1.1\r\nHost: "@ + connect_host@ + ":"@ + decimal(
        port as nat,
    );
    let mid =
        "\r\nConnection: close\r\nUser-Agent: mcp-agent-mail-startup-check\r\nContent-Type: application/json\r\nContent-Length: "@;
    let tail = decimal(encode_utf8(PROBE_BODY@).len()) + "\r\n\r\n"@ + PROBE_BODY@;
    assert(r@ =~= head + (mid + tail));
    assert(r@ =~= (head + mid) + tail);
    assert(r@.skip((head + mid).len() as int) =~= tail);
}

/// A status line is good exactly where its code is one of success, or says
/// that a token is wanting; what follows the code counts for nothing.
pub proof fn law_which_codes_are_good(version: Seq<char>, code: nat, c: char, rest: Seq<char>)
    requires
        forall|i: int| 0 <= i < version.len() ==> !crate::text::is_space(#[trigger] version[i]),
        crate::text::is_space(c),
        code <= u16::MAX,
    ensures
        is_good_status(("HTTP/1."@ + version).push(' ') + decimal(code) + seq![c] + rest) <==> 200
            <= code < 300 || code == 401,
{
    reveal_strlit("HTTP/1.");
    let v = "HTTP/1."@ + version;
    let d = decimal(code);
    assert forall|i: int| 0 <= i < v.len() implies !crate::text::is_space(#[trigger] v[i]) by {
        if i >= 7 {
            assert(v[i] == version[i - 7]);
        }
    }
    crate::numbers::lemma_decimal_digits(code);
    assert forall|i: int| 0 <= i < d.len() implies !crate::text::is_space(#[trigger] d[i]) by {
        assert('0' <= d[i] <= '9');
    }
    let s = v.push(' ') + d;
    law_words_are_taken_one_by_one(v, ' ', d);
    law_words_are_taken_one_by_one(Seq::<char>::empty(), ' ', v);
    assert(words(s) == seq![v].push(d));
    lemma_words_go_on(s, c, rest);
    let line = s + seq![c] + rest;
    let w = words(s);
    assert(w.len() == 2 && w[0] == v && w[1] == d);
    let front = words(line).subrange(0, w.len() as int);
    assert(w == front);
    assert(front[1] == words(line)[1]);
    crate::numbers::law_numbers_are_read_as_they_are_printed(code, u16::MAX as int);
    assert("HTTP/1."@.is_prefix_of(line));
}

/// White space ends a word for good.
pub proof fn lemma_words_go_on(s: Seq<char>, c: char, rest: Seq<char>)
    requires
        crate::text::is_space(c),
    ensures
        words(s).is_prefix_of(words(s + seq![c] + rest)),
        rest.len() == 0 || crate::text::is_space(rest.last()) || words(s).len() < words(
            s + seq![c] + rest,
        ).len(),
    decreases rest.len(),
{
    let all = s + seq![c] + rest;
    if rest.len() == 0 {
        assert(all =~= s.push(c));
        assert(all.drop_last() =~= s);
        assert(words(all) == words(s));
    } else {
        let shorter = rest.drop_last();
        lemma_words_go_on(s, c, shorter);
        let before = s + seq![c] + shorter;
        assert(all.drop_last() =~= before);
        assert(all.last() == rest.last());
        if !crate::text::is_space(rest.last()) {
            if shorter.len() == 0 {
                assert(before.last() == c);
            } else {
                assert(before.last() == shorter.last());
            }
        }
    }
}

/// An answer is not ours for a line that does not start as HTTP does.
pub proof fn law_other_protocols_are_not_good(line: Seq<char>)
    requires
        !"HTTP/1."@.is_prefix_of(line),
    ensures
        !is_good_status(line),
{
}

/// A header line is a name and, behind the first colon, a value, both without
/// the white space around them.
pub proof fn law_a_header_is_name_and_value(name: Seq<char>, value: Seq<char>)
    requires
        !name.contains(':'),
    ensures
        header_parts(name.push(':') + value) == Some((trimmed(name), trimmed(value))),
        header_parts(name) is None,
{
    reveal_strlit(":");
    assert(":"@ =~= seq![':']);
    let line = name.push(':') + value;
    let n = name.len() as int;
    lemma_first_at(line, ":"@, 0);
    assert(line.subrange(n, n + 1) =~= ":"@);
    assert(crate::text::occurs_at(line, ":"@, n));
    let i = first_at(line, ":"@, 0)->0;
    if i < n {
        assert(line.subrange(i, i + 1)[0] == line[i]);
        assert(name.contains(name[i]));
    }
    assert(line.take(n) =~= name);
    assert(line.skip(n + 1) =~= value);
    lemma_first_at(name, ":"@, 0);
    if first_at(name, ":"@, 0) is Some {
        let j = first_at(name, ":"@, 0)->0;
        assert(name.subrange(j, j + 1)[0] == name[j]);
        assert(name.contains(name[j]));
    }
}

/// An answer is signed by one header: its name is that of the signature and
/// its value is one, whatever their case. Every header line has its say, and
/// so has, for the length, the first that states one.
pub proof fn law_headers_are_read_line_by_line(
    name: Seq<char>,
    value: Seq<char>,
    rest: &str,
    all: &str,
    plain: &str,
    signed_rest: bool,
    signed_all: bool,
    signed_plain: bool,
    length_rest: Option<usize>,
    length_all: Option<usize>,
    length_plain: Option<usize>,
)
    requires
        !name.contains(':') && !name.contains('\n'),
        !value.contains('\n'),
        all@ == (name.push(':') + value).push('\n') + rest@,
        plain@ == name.push('\n') + rest@,
        call_ensures(has_agent_mail_signature, (rest,), signed_rest),
        call_ensures(has_agent_mail_signature, (all,), signed_all),
        call_ensures(has_agent_mail_signature, (plain,), signed_plain),
        call_ensures(parse_content_length, (rest,), length_rest),
        call_ensures(parse_content_length, (all,), length_all),
        call_ensures(parse_content_length, (plain,), length_plain),
    ensures
        signed_all <==> signed_rest || (same_ignoring_ascii_case(
            trimmed(name),
            "x-agent-mail-health"@,
        ) && trimmed(value) == seq!['1']),
        signed_plain == signed_rest,
        ({
            let stated = parsed_unsigned(trimmed(value), 10, usize::MAX as int);
            if same_ignoring_ascii_case(trimmed(name), "content-length"@) && stated is Some {
                length_all is Some && length_all->0 == stated->0
            } else {
                length_all == length_rest
            }
        }),
        length_plain == length_rest,
        rest@.len() == 0 ==> !signed_rest && length_rest is None,
{
    let line = name.push(':') + value;
    assert(!line.contains('\n')) by {
        if line.contains('\n') {
            let k = choose|k: int| 0 <= k < line.len() && line[k] == '\n';
            if k < name.len() {
                assert(name[k] == '\n');
            } else if k > name.len() {
                assert(value[k - name.len() - 1] == '\n');
            }
        }
    }
    law_lines_end_at_line_feeds(line, rest@);
    law_lines_end_at_line_feeds(name, rest@);
    law_lines_end_at_line_feeds(Seq::<char>::empty(), rest@);
    let l = without_trailing_cr(line);
    let m = without_trailing_cr(name);
    let lr = lines_of(rest@);
    assert(lines_of(all@) == seq![l] + lr) by {
        assert(line.len() > 0 && line[line.len() - 1] == '\r' ==> line.take(line.len() - 1)
            =~= line.drop_last());
    }
    assert(lines_of(plain@) == seq![m] + lr) by {
        assert(name.len() > 0 && name[name.len() - 1] == '\r' ==> name.take(name.len() - 1)
            =~= name.drop_last());
    }
    let v = without_trailing_cr(value);
    assert(l =~= name.push(':') + v);
    assert(!m.contains(':')) by {
        if m.contains(':') {
            let k = choose|k: int| 0 <= k < m.len() && m[k] == ':';
            assert(name[k] == ':');
        }
    }
    law_a_header_is_name_and_value(name, v);
    law_a_header_is_name_and_value(m, v);
    lemma_trim_ignores_cr(value);
    lemma_only_one(trimmed(value));
    lemma_more_lines(l, lr);
    lemma_more_lines(m, lr);
    if rest@.len() == 0 {
        assert(rest@ =~= Seq::<char>::empty());
        law_lines_end_at_line_feeds(rest@, rest@);
    }
}

proof fn lemma_only_one(t: Seq<char>)
    ensures
        same_ignoring_ascii_case(t, "1"@) <==> t == seq!['1'],
{
    reveal_strlit("1");
    law_same_but_for_case(t, "1"@);
    assert("1"@ =~= seq!['1']);
    if same_ignoring_ascii_case(t, "1"@) {
        assert(t[0] == "1"@[0]);
        assert(t =~= seq!['1']);
    }
}

proof fn lemma_trim_ignores_cr(s: Seq<char>)
    ensures
        trimmed(without_trailing_cr(s)) == trimmed(s),
{
    if s.len() > 0 && s.last() == '\r' {
        crate::listeners::lemma_trim_without_last_space(s);
    }
}

proof fn lemma_more_lines(l: Seq<char>, lr: Seq<Seq<char>>)
    ensures
        (exists|i: int| 0 <= i < (seq![l] + lr).len() && is_signature(#[trigger] (seq![l] + lr)[i]))
            <==> is_signature(l) || (exists|i: int| 0 <= i < lr.len() && is_signature(
            #[trigger] lr[i],
        )),
        content_length(seq![l] + lr) == (if stated_length(l) is Some {
            stated_length(l)
        } else {
            content_length(lr)
        }),
{
    let all = seq![l] + lr;
    assert(all.skip(1) =~= lr);
    assert(all[0] == l);
    if exists|i: int| 0 <= i < lr.len() && is_signature(#[trigger] lr[i]) {
        let i = choose|i: int| 0 <= i < lr.len() && is_signature(#[trigger] lr[i]);
        assert(all[i + 1] == lr[i]);
    }
    if exists|i: int| 0 <= i < all.len() && is_signature(#[trigger] all[i]) {
        let i = choose|i: int| 0 <= i < all.len() && is_signature(#[trigger] all[i]);
        if i > 0 {
            assert(lr[i - 1] == all[i]);
        }
    }
}

/// The headers end at the first empty line, and no more than four kibibytes of
/// them are read.
pub proof fn law_headers_end_at_an_empty_line(lines: Seq<Option<Seq<char>>>, n: int)
    ensures
        headers_end_at(lines, n) ==> 0 <= n < lines.len() && lines[n] == Some(seq!['\r', '\n'])
            && header_size(lines.take(n)) <= 4 * 1024,
        0 <= n < lines.len() && lines[n] == Some(seq!['\r', '\n']) && (forall|i: int|
            0 <= i < n ==> (#[trigger] lines[i]) is Some && lines[i]->0.len() > 0 && lines[i]->0
                != seq!['\r', '\n']) && header_size(lines.take(n)) <= 4 * 1024 ==> headers_end_at(
            lines,
            n,
        ),
{
    reveal_strlit("\r\n");
    assert("\r\n"@ =~= seq!['\r', '\n']);
}

/// What is found at an address, and at all addresses of a host: nothing where
/// none can be reached, a server of ours where one answers as such, and
/// otherwise another listener.
pub proof fn law_what_a_probe_finds(
    connected: bool,
    ours: bool,
    one: HealthProbeStatus,
    results: &Vec<HealthProbeStatus>,
    all: HealthProbeStatus,
    found: bool,
)
    requires
        call_ensures(probe_agent_mail_mcp_addr, (connected, ours), one),
        call_ensures(agent_mail_mcp_probe_addrs, (results,), all),
        call_ensures(probe_agent_mail_mcp_blocking, (all,), found),
    ensures
        one == HealthProbeStatus::NoResponse <==> !connected,
        one == HealthProbeStatus::AgentMailServer <==> connected && ours,
        all == HealthProbeStatus::AgentMailServer <==> exists|i: int|
            0 <= i < results@.len() && #[trigger] results@[i] == HealthProbeStatus::AgentMailServer,
        all == HealthProbeStatus::NoResponse <==> forall|i: int|
            0 <= i < results@.len() ==> #[trigger] results@[i] == HealthProbeStatus::NoResponse,
        found <==> all == HealthProbeStatus::AgentMailServer,
{
    if exists|i: int|
        0 <= i < results@.len() && #[trigger] results@[i] == HealthProbeStatus::AgentMailServer {
        let i = choose|i: int|
            0 <= i < results@.len() && #[trigger] results@[i] == HealthProbeStatus::AgentMailServer;
        assert(results@.contains(results@[i]));
    }
    assert forall|i: int| 0 <= i < results@.len() && results@[i] != HealthProbeStatus::NoResponse
        implies all != HealthProbeStatus::NoResponse by {
        assert(results@.contains(results@[i]));
    }
}

/// An answer is read line by line: a good status opens it, headers are kept as
/// they are, and the empty line asks whether they sign it. A line that cannot
/// be read, the end before that, and too many headers mean no.
pub proof fn law_an_answer_is_read_line_by_line(
    reader: &mut AnswerReader,
    line: Option<&str>,
    kept: &str,
    is_signed_by_them: bool,
    r: AnswerVerdict,
)
    requires
        kept@ == old(reader).headers@,
        call_ensures(has_agent_mail_signature, (kept,), is_signed_by_them),
        call_ensures(AnswerReader::take_line, (reader, line), r),
    ensures
        line is None ==> r == AnswerVerdict::NotOurs,
        line is Some && !old(reader).in_headers ==> {
            &&& is_good_status(line->0@) ==> r == AnswerVerdict::More && final(reader).in_headers
                && final(reader).headers@ == old(reader).headers@
            &&& !is_good_status(line->0@) ==> r == AnswerVerdict::NotOurs
        },
        line is Some && old(reader).in_headers ==> {
            let text = line->0@;
            let size = old(reader).header_bytes + encode_utf8(text).len();
            &&& text.len() == 0 ==> r == AnswerVerdict::NotOurs
            &&& text == seq!['\r', '\n'] ==> r == (if is_signed_by_them {
                AnswerVerdict::Ours
            } else {
                AnswerVerdict::NotOurs
            })
            &&& text.len() > 0 && text != seq!['\r', '\n'] && size > 4096 ==> r
                == AnswerVerdict::NotOurs
            &&& text.len() > 0 && text != seq!['\r', '\n'] && size <= 4096 ==> r
                == AnswerVerdict::More && final(reader).headers@ == old(reader).headers@ + text
                && final(reader).header_bytes == size && final(reader).in_headers
        },
{
    reveal_strlit("\r\n");
    assert("\r\n"@ =~= seq!['\r', '\n']);
    let a = old(reader)@;
    let b = final(reader)@;
    assert(a.in_headers == old(reader).in_headers && a.headers == old(reader).headers@
        && a.header_bytes == old(reader).header_bytes);
    assert(b.in_headers == final(reader).in_headers && b.headers == final(reader).headers@
        && b.header_bytes == final(reader).header_bytes);
}

/// At first nothing has been read.
pub proof fn law_an_answer_starts_with_its_status(r: AnswerReader)
    requires
        call_ensures(AnswerReader::new, (), r),
    ensures
        !r.in_headers && r.headers@.len() == 0 && r.header_bytes == 0,
{
    assert(r@.in_headers == r.in_headers && r@.headers == r.headers@ && r@.header_bytes
        == r.header_bytes);
}

} // verus!
