//! Host names of sockets: normal forms, and which listeners are in the way of
//! a request.

use vstd::prelude::*;

use crate::ip::{ip_of, parse_canonical_ip, Ip};
use crate::text::{
    chars_of, eq_ignore_ascii_case, find_from, first_at, is_space, lemma_first_at, same,
    same_ignoring_ascii_case, text_of, trim, trimmed,
};

verus! {

pub open spec fn is_bracket(c: char) -> bool {
    c == '[' || c == ']'
}

pub open spec fn brackets_off_start(s: Seq<char>) -> Seq<char>
    decreases s.len(),
{
    if s.len() > 0 && is_bracket(s[0]) {
        brackets_off_start(s.skip(1))
    } else {
        s
    }
}

pub open spec fn brackets_off_end(s: Seq<char>) -> Seq<char>
    decreases s.len(),
{
    if s.len() > 0 && is_bracket(s.last()) {
        brackets_off_end(s.drop_last())
    } else {
        s
    }
}

/// The host without white space and square brackets around it.
pub open spec fn socket_host(host: Seq<char>) -> Seq<char> {
    brackets_off_end(brackets_off_start(trimmed(host)))
}

proof fn lemma_off_start(s: Seq<char>, i: int)
    requires
        0 <= i <= s.len(),
        forall|k: int| 0 <= k < i ==> is_bracket(s[k]),
        i < s.len() ==> !is_bracket(s[i]),
    ensures
        brackets_off_start(s) == s.skip(i),
    decreases i,
{
    if i == 0 {
        assert(s.skip(0) =~= s);
    } else {
        lemma_off_start(s.skip(1), i - 1);
        assert(s.skip(1).skip(i - 1) =~= s.skip(i));
    }
}

proof fn lemma_off_end(s: Seq<char>, j: int)
    requires
        0 <= j <= s.len(),
        forall|k: int| j <= k < s.len() ==> is_bracket(s[k]),
        0 < j ==> !is_bracket(s[j - 1]),
    ensures
        brackets_off_end(s) == s.take(j),
    decreases s.len() - j,
{
    if j == s.len() {
        assert(s.take(j) =~= s);
    } else {
        lemma_off_end(s.drop_last(), j);
        assert(s.drop_last().take(j) =~= s.take(j));
    }
}

/// The host without white space and square brackets around it.
pub fn normalize_socket_host(host: &str) -> (r: String)
    ensures
        r@ == socket_host(host@),
{
    let t = trim(host);
    let cs = chars_of(t.as_str());
    let n: usize = cs.len();
    let mut i: usize = 0;
    while i < n && (cs[i] == '[' || cs[i] == ']')
        invariant
            i <= n,
            n == cs@.len(),
            forall|k: int| 0 <= k < i ==> is_bracket(cs@[k]),
        decreases n - i,
    {
        i = i + 1;
    }
    let mut j: usize = n;
    while i < j && (cs[j - 1] == '[' || cs[j - 1] == ']')
        invariant
            i <= j <= n,
            n == cs@.len(),
            forall|k: int| j <= k < n ==> is_bracket(cs@[k]),
        decreases j,
    {
        j = j - 1;
    }
    proof {
        lemma_off_start(t@, i as int);
        let rest = t@.skip(i as int);
        assert forall|k: int| j - i <= k < rest.len() implies is_bracket(rest[k]) by {
            assert(rest[k] == cs@[k + i]);
        }
        if j > i {
            assert(rest[j - i - 1] == cs@[j - 1]);
        }
        lemma_off_end(rest, j - i);
        assert(rest.take(j - i) =~= cs@.subrange(i as int, j as int));
    }
    text_of(cs.as_slice(), i, j)
}

/// The inside of one pair of square brackets around the whole text.
pub open spec fn unbracketed(s: Seq<char>) -> Seq<char> {
    if s.len() >= 2 && s[0] == '[' && s.last() == ']' {
        s.subrange(1, s.len() - 1)
    } else {
        s
    }
}

/// Takes one pair of square brackets off.
pub fn strip_brackets(s: &str) -> (r: String)
    ensures
        r@ == unbracketed(s@),
{
    let cs = chars_of(s);
    let n: usize = cs.len();
    if n >= 2 && cs[0] == '[' && cs[n - 1] == ']' {
        text_of(cs.as_slice(), 1, n - 1)
    } else {
        s.to_owned()
    }
}

/// The host as a socket is bound to it.
pub fn normalize_bind_host_for_socket(host: &str) -> (r: String)
    ensures
        r@ == unbracketed(trimmed(host@)),
{
    strip_brackets(trim(host).as_str())
}

/// The host as a health check connects to it: every address becomes the
/// loopback address of its family, and an IPv6 address stands in brackets.
pub open spec fn connect_host(host: Seq<char>) -> Seq<char> {
    let t = trimmed(host);
    let u = unbracketed(t);
    if t.len() == 0 || u == "0.0.0.0"@ {
        "127.0.0.1"@
    } else if u == "::"@ {
        "[::1]"@
    } else if u.contains(':') && t[0] != '[' {
        "["@ + u + "]"@
    } else {
        t
    }
}

pub fn normalize_connect_host_for_health_check(host: &str) -> (r: String)
    ensures
        r@ == connect_host(host@),
{
    let t = trim(host);
    if t.as_str().is_empty() {
        return "127.0.0.1".to_owned();
    }
    let u = strip_brackets(t.as_str());
    if same(u.as_str(), "0.0.0.0") {
        return "127.0.0.1".to_owned();
    }
    if same(u.as_str(), "::") {
        return "[::1]".to_owned();
    }
    let cs = chars_of(t.as_str());
    if cs[0] != '[' && has_char(u.as_str(), ':') {
        "[".to_owned().concat(u.as_str()).concat("]")
    } else {
        t
    }
}

/// Whether a character occurs in a text.
pub fn has_char(s: &str, c: char) -> (r: bool)
    ensures
        r == s@.contains(c),
{
    let cs = chars_of(s);
    let mut i: usize = 0;
    while i < cs.len()
        invariant
            i <= cs@.len(),
            cs@ == s@,
            forall|k: int| 0 <= k < i ==> s@[k] != c,
        decreases cs@.len() - i,
    {
        if cs[i] == c {
            assert(s@[i as int] == c);
            return true;
        }
        i = i + 1;
    }
    false
}

/// The position of the last occurrence of a character.
pub open spec fn last_position(s: Seq<char>, c: char) -> Option<int>
    decreases s.len(),
{
    if s.len() == 0 {
        None
    } else if s.last() == c {
        Some(s.len() - 1)
    } else {
        last_position(s.drop_last(), c)
    }
}

pub fn find_last(cs: &[char], c: char) -> (r: Option<usize>)
    ensures
        match r {
            Some(i) => last_position(cs@, c) == Some(i as int) && i < cs@.len(),
            None => last_position(cs@, c) is None,
        },
{
    let mut n: usize = cs.len();
    assert(cs@.take(n as int) =~= cs@);
    while n > 0
        invariant
            n <= cs@.len(),
            last_position(cs@, c) == last_position(cs@.take(n as int), c),
        decreases n,
    {
        assert(cs@.take(n as int).drop_last() =~= cs@.take(n - 1));
        if cs[n - 1] == c {
            return Some(n - 1);
        }
        n = n - 1;
    }
    None
}

/// The host of an endpoint `host:port` or `[host]:port`.
pub open spec fn endpoint_host(endpoint: Seq<char>) -> Option<Seq<char>> {
    let t = trimmed(endpoint);
    if t.len() == 0 {
        None
    } else if t[0] == '[' {
        match first_at(t.skip(1), "]:"@, 0) {
            Some(i) => Some(t.skip(1).take(i)),
            None => None,
        }
    } else {
        match last_position(t, ':') {
            Some(i) => Some(t.take(i)),
            None => None,
        }
    }
}

pub fn extract_socket_host(endpoint: &str) -> (r: Option<String>)
    ensures
        match r {
            Some(host) => endpoint_host(endpoint@) == Some(host@),
            None => endpoint_host(endpoint@) is None,
        },
{
    let t = trim(endpoint);
    let cs = chars_of(t.as_str());
    let n: usize = cs.len();
    if n == 0 {
        return None;
    }
    if cs[0] == '[' {
        let rest = text_of(cs.as_slice(), 1, n);
        assert(rest@ =~= t@.skip(1));
        let rs = chars_of(rest.as_str());
        let mark = chars_of("]:");
        proof {
            lemma_first_at(rest@, "]:"@, 0);
        }
        match find_from(rs.as_slice(), mark.as_slice(), 0) {
            Some(i) => {
                let host = text_of(rs.as_slice(), 0, i);
                assert(host@ =~= rest@.take(i as int));
                Some(host)
            },
            None => None,
        }
    } else {
        match find_last(cs.as_slice(), ':') {
            Some(i) => {
                let host = text_of(cs.as_slice(), 0, i);
                assert(host@ =~= t@.take(i as int));
                Some(host)
            },
            None => None,
        }
    }
}

/// The host stands for every address.
pub open spec fn is_wildcard(host: Seq<char>) -> bool {
    let h = socket_host(host);
    h == "*"@ || (ip_of(h) is Some && ip_of(h)->0.is_any())
}

pub fn is_wildcard_host(host: &str) -> (r: bool)
    ensures
        r == is_wildcard(host@),
{
    let h = normalize_socket_host(host);
    if same(h.as_str(), "*") {
        return true;
    }
    match parse_canonical_ip(h.as_str()) {
        Some(ip) => ip.is_unspecified(),
        None => false,
    }
}

/// The host is an address of the machine itself.
pub open spec fn is_loopback_text(host: Seq<char>) -> bool {
    ip_of(host) is Some && ip_of(host)->0.is_loopback_ip()
}

pub fn is_loopback_host(host: &str) -> (r: bool)
    ensures
        r == is_loopback_text(host@),
{
    match parse_canonical_ip(host) {
        Some(ip) => ip.is_loopback(),
        None => false,
    }
}

/// A listener is in the way of a request for every address: where it listens
/// on every address or on a name, and where it listens on an address of the
/// same family.
pub open spec fn conflicts_with_wildcard(listener: Seq<char>, requested: Seq<char>) -> bool {
    if is_wildcard(listener) || same_ignoring_ascii_case(listener, "localhost"@) {
        true
    } else {
        match (ip_of(listener), ip_of(requested)) {
            (Some(l), Some(r)) => l.is_v4() == r.is_v4(),
            _ => true,
        }
    }
}

pub fn wildcard_request_conflicts_with_listener(listener_host: &str, requested_host: &str) -> (r:
    bool)
    ensures
        r == conflicts_with_wildcard(listener_host@, requested_host@),
{
    if is_wildcard_host(listener_host) || eq_ignore_ascii_case(listener_host, "localhost") {
        return true;
    }
    match (parse_canonical_ip(listener_host), parse_canonical_ip(requested_host)) {
        (Some(l), Some(r)) => l.is_ipv4() == r.is_ipv4(),
        _ => true,
    }
}

/// Two addresses are in each other's way: equal ones, and loopback addresses
/// of different families. Different addresses of one family are not.
pub open spec fn same_endpoint(l: Ip, r: Ip) -> bool {
    l == r || (l.is_loopback_ip() && r.is_loopback_ip() && l.is_v4() != r.is_v4())
}

/// A listener on one host is in the way of a request for another.
pub open spec fn host_matches(listener: Seq<char>, requested: Seq<char>) -> bool {
    let l = socket_host(listener);
    let r = socket_host(requested);
    if is_wildcard(r) {
        conflicts_with_wildcard(l, r)
    } else if is_wildcard(l) {
        true
    } else if same_ignoring_ascii_case(r, "localhost"@) {
        is_loopback_text(l)
    } else if same_ignoring_ascii_case(l, "localhost"@) {
        is_loopback_text(r)
    } else {
        match (ip_of(l), ip_of(r)) {
            (Some(a), Some(b)) => same_endpoint(a, b),
            _ => same_ignoring_ascii_case(l, r),
        }
    }
}

/// Whether a listener on one host is in the way of a request for another.
pub fn listener_host_matches_request(listener_host: &str, requested_host: &str) -> (r: bool)
    ensures
        r == host_matches(listener_host@, requested_host@),
{
    let l = normalize_socket_host(listener_host);
    let r = normalize_socket_host(requested_host);
    let (l, r) = (l.as_str(), r.as_str());
    if is_wildcard_host(r) {
        return wildcard_request_conflicts_with_listener(l, r);
    }
    if is_wildcard_host(l) {
        return true;
    }
    if eq_ignore_ascii_case(r, "localhost") {
        return is_loopback_host(l);
    }
    if eq_ignore_ascii_case(l, "localhost") {
        return is_loopback_host(r);
    }
    match (parse_canonical_ip(l), parse_canonical_ip(r)) {
        (Some(a), Some(b)) => a == b || (a.is_loopback() && b.is_loopback() && a.is_ipv4()
            != b.is_ipv4()),
        _ => eq_ignore_ascii_case(l, r),
    }
}

/// A host is in the way of itself. The name `localhost` is the exception: for
/// it only addresses count.
pub proof fn law_a_host_conflicts_with_itself(host: Seq<char>)
    requires
        !same_ignoring_ascii_case(socket_host(host), "localhost"@),
    ensures
        host_matches(host, host),
{
}

proof fn lemma_address_is_its_socket_host(s: Seq<char>)
    requires
        ip_of(s) is Some,
    ensures
        socket_host(s) == s,
{
    crate::ip::law_addresses_hold_nothing_else(s);
    if s.len() > 0 {
        assert(crate::ip::is_address_char(s[0]));
        assert(crate::ip::is_address_char(s[s.len() - 1]));
        assert(crate::text::trimmed_start(s) == s);
        assert(crate::text::trimmed_end(s) == s);
        assert(trimmed(s) == s);
        assert(brackets_off_start(s) == s);
        assert(brackets_off_end(s) == s);
    }
}

proof fn lemma_star_is_its_socket_host()
    ensures
        socket_host("*"@) == "*"@,
{
    reveal_strlit("*");
    let s = "*"@;
    assert(crate::text::trimmed_start(s) == s);
    assert(crate::text::trimmed_end(s) == s);
    assert(brackets_off_start(s) == s);
    assert(brackets_off_end(s) == s);
}

/// A listener on every address is in the way of every request.
pub proof fn law_wildcard_listener_blocks_all(listener: Seq<char>, requested: Seq<char>)
    requires
        is_wildcard(listener) || is_wildcard(socket_host(listener)),
    ensures
        host_matches(listener, requested),
{
    lemma_star_is_its_socket_host();
    if ip_of(socket_host(listener)) is Some {
        lemma_address_is_its_socket_host(socket_host(listener));
    }
}

proof fn lemma_localhost_is_no_address(s: Seq<char>)
    requires
        same_ignoring_ascii_case(s, "localhost"@),
    ensures
        ip_of(s) is None,
{
    reveal_strlit("localhost");
    reveal_strlit("::");
    let low = crate::text::ascii_lower(s);
    assert(low.len() == s.len());
    assert(low == crate::text::ascii_lower("localhost"@));
    assert(low.len() == 9);
    assert forall|i: int| 0 <= i < s.len() implies s[i] != '.' && s[i] != ':' by {
        assert(low[i] == crate::text::lower_char(s[i]));
        assert(low[i] == crate::text::lower_char("localhost"@[i]));
    }
    assert(!s.contains('.'));
    assert(!s.contains(':'));
    crate::text::lemma_split_of_field(s, '.');
    crate::text::lemma_split_of_field(s, ':');
    lemma_first_at(s, "::"@, 0);
    if let Some(i) = first_at(s, "::"@, 0) {
        assert(s.subrange(i, i + 2)[0] == s[i]);
    }
    assert(crate::ip::hextet(s) is None);
    assert(crate::ip::hextets(seq![s]) is None);
}

/// Of two hosts neither of which is a wildcard it makes no difference which
/// one listens.
pub proof fn law_conflicts_are_mutual(a: Seq<char>, b: Seq<char>)
    requires
        !is_wildcard(a),
        !is_wildcard(b),
    ensures
        host_matches(a, b) == host_matches(b, a),
{
    let l = socket_host(a);
    let r = socket_host(b);
    if ip_of(l) is Some {
        lemma_address_is_its_socket_host(l);
    }
    if ip_of(r) is Some {
        lemma_address_is_its_socket_host(r);
    }
    if same_ignoring_ascii_case(l, "localhost"@) && same_ignoring_ascii_case(r, "localhost"@) {
        lemma_localhost_is_no_address(l);
        lemma_localhost_is_no_address(r);
    }
}

/// A host that neither white space nor a bracket begins or ends.
pub open spec fn is_bare(h: Seq<char>) -> bool {
    h.len() > 0 ==> !is_space(h[0]) && !is_space(h[h.len() - 1]) && !is_bracket(h[0])
        && !is_bracket(h[h.len() - 1])
}

/// A host is taken without the brackets around it, and a bare one as it is.
pub proof fn law_brackets_around_a_host_count_for_nothing(
    host: &str,
    framed: &str,
    h: Seq<char>,
    r: String,
    s: String,
)
    requires
        is_bare(h),
        host@ == h,
        framed@ == seq!['['] + h + seq![']'],
        call_ensures(normalize_socket_host, (host,), r),
        call_ensures(normalize_socket_host, (framed,), s),
    ensures
        r@ == h,
        s@ == h,
{
    let empty = Seq::<char>::empty();
    let f = seq!['['] + h + seq![']'];
    crate::text::law_trimming(empty, h, empty);
    crate::text::law_trimming(empty, f, empty);
    assert(empty + h + empty =~= h);
    assert(empty + f + empty =~= f);
    if h.len() > 0 {
        lemma_off_start(h, 0);
        lemma_off_end(h, h.len() as int);
        lemma_off_start(f, 1);
        let t = f.skip(1);
        assert(t =~= h + seq![']']);
        lemma_off_end(t, h.len() as int);
        assert(h.skip(0) =~= h && h.take(h.len() as int) =~= h);
        assert(t.take(h.len() as int) =~= h);
    } else {
        assert(h =~= empty);
        lemma_off_start(h, 0);
        assert(h.skip(0) =~= h);
        lemma_off_end(h, 0);
        assert(h.take(0) =~= h);
        lemma_off_start(f, 2);
        assert(f.skip(2) =~= h);
    }
}

/// One pair of brackets is taken off, where there is one, and nothing else.
pub proof fn law_a_pair_of_brackets_is_taken_off(s: &str, inside: Seq<char>, r: String)
    requires
        call_ensures(strip_brackets, (s,), r),
    ensures
        s@ == seq!['['] + inside + seq![']'] ==> r@ == inside,
        s@.len() < 2 || s@[0] != '[' || s@[s@.len() - 1] != ']' ==> r@ == s@,
{
    if s@ == seq!['['] + inside + seq![']'] {
        assert(s@.subrange(1, s@.len() - 1) =~= inside);
    }
}

/// A socket is bound to the host without white space and without a pair of
/// brackets around it.
pub proof fn law_a_socket_is_bound_without_brackets(host: &str, t: &str, bound: String, inner: String)
    requires
        t@ == trimmed(host@),
        call_ensures(strip_brackets, (t,), inner),
        call_ensures(normalize_bind_host_for_socket, (host,), bound),
    ensures
        bound@ == inner@,
{
}

/// A health check goes to the loopback address where the server listens on
/// every address, of the same family; to an IPv6 address in brackets; and
/// anywhere else to the host as it is written.
pub proof fn law_a_health_check_stays_at_home(host: &str, t: Seq<char>, r: String)
    requires
        t == trimmed(host@),
        call_ensures(normalize_connect_host_for_health_check, (host,), r),
    ensures
        t.len() == 0 || t == "0.0.0.0"@ || t == "[0.0.0.0]"@ ==> r@ == "127.0.0.1"@,
        t == "::"@ || t == "[::]"@ ==> r@ == "[::1]"@,
        t.len() > 0 && t != "::"@ && t[0] != '[' && t.contains(':') ==> r@ == seq!['['] + t + seq![
            ']',
        ],
        t.len() > 0 && t != "0.0.0.0"@ && !t.contains(':') && t[0] != '[' ==> r@ == t,
        t.len() > 0 && t[0] == '[' && t != "[::]"@ && t != "[0.0.0.0]"@ ==> r@ == t,
{
    reveal_strlit("0.0.0.0");
    reveal_strlit("[0.0.0.0]");
    reveal_strlit("::");
    reveal_strlit("[::]");
    reveal_strlit("[");
    reveal_strlit("]");
    assert("["@ =~= seq!['['] && "]"@ =~= seq![']']);
    let a = "0.0.0.0"@;
    let b = "::"@;
    assert("[0.0.0.0]"@ =~= seq!['['] + a + seq![']']);
    assert("[::]"@ =~= seq!['['] + b + seq![']']);
    assert((seq!['['] + a + seq![']']).subrange(1, 8) =~= a);
    assert((seq!['['] + b + seq![']']).subrange(1, 3) =~= b);
    let u = unbracketed(t);
    if t.len() >= 2 && t[0] == '[' && t.last() == ']' {
        assert(t =~= seq!['['] + u + seq![']']);
    }
    assert(a[0] == '0' && b[0] == ':' && b[1] == ':');
    assert(!a.contains(':')) by {
        if a.contains(':') {
            let k = choose|k: int| 0 <= k < a.len() && a[k] == ':';
            assert(a[k] == ':');
        }
    }
    assert(b.contains(b[0]));
}

pub proof fn lemma_last_position(s: Seq<char>, c: char)
    ensures
        match last_position(s, c) {
            Some(i) => 0 <= i < s.len() && s[i] == c && forall|k: int| i < k < s.len() ==> s[k] != c,
            None => forall|k: int| 0 <= k < s.len() ==> s[k] != c,
        },
    decreases s.len(),
{
    if s.len() > 0 && s.last() != c {
        let shorter = s.drop_last();
        lemma_last_position(shorter, c);
        assert forall|k: int| 0 <= k < shorter.len() implies s[k] == shorter[k] by {
        }
        match last_position(shorter, c) {
            Some(i) => {
                assert forall|k: int| i < k < s.len() implies s[k] != c by {
                    if k < shorter.len() {
                        assert(shorter[k] != c);
                    }
                }
            },
            None => {
                assert forall|k: int| 0 <= k < s.len() implies s[k] != c by {
                    if k < shorter.len() {
                        assert(shorter[k] != c);
                    }
                }
            },
        }
    }
}

/// An endpoint is a host and, behind the last colon, a port; a host in
/// brackets goes up to the bracket before the colon.
pub proof fn law_an_endpoint_is_host_and_port(
    plain: &str,
    framed: &str,
    bare: &str,
    h: Seq<char>,
    p: Seq<char>,
    r: Option<String>,
    s: Option<String>,
    t: Option<String>,
)
    requires
        h.len() > 0 ==> !is_space(h[0]) && h[0] != '[',
        p.len() > 0 && !is_space(p[p.len() - 1]),
        !p.contains(':'),
        plain@ == h.push(':') + p,
        !h.contains(']'),
        framed@ == seq!['['] + h + seq![']', ':'] + p,
        !bare@.contains(':'),
        trimmed(bare@) == bare@,
        call_ensures(extract_socket_host, (plain,), r),
        call_ensures(extract_socket_host, (framed,), s),
        call_ensures(extract_socket_host, (bare,), t),
    ensures
        r is Some && r->0@ == h,
        s is Some && s->0@ == h,
        bare@.len() == 0 || bare@[0] != '[' ==> t is None,
{
    let empty = Seq::<char>::empty();
    let a = h.push(':') + p;
    let b = seq!['['] + h + seq![']', ':'] + p;
    assert(a[a.len() - 1] == p[p.len() - 1]);
    assert(b[b.len() - 1] == p[p.len() - 1]);
    crate::text::law_trimming(empty, a, empty);
    crate::text::law_trimming(empty, b, empty);
    assert(empty + a + empty =~= a);
    assert(empty + b + empty =~= b);
    lemma_last_position(a, ':');
    let i = last_position(a, ':')->0;
    assert(a[h.len() as int] == ':');
    if i > h.len() {
        assert(p.contains(p[i - h.len() - 1]));
    }
    assert(a.take(h.len() as int) =~= h);
    reveal_strlit("]:");
    assert("]:"@ =~= seq![']', ':']);
    let rest = b.skip(1);
    assert(rest =~= h + seq![']', ':'] + p);
    lemma_first_at(rest, "]:"@, 0);
    assert(rest.subrange(h.len() as int, h.len() as int + 2) =~= "]:"@);
    assert(crate::text::occurs_at(rest, "]:"@, h.len() as int));
    let j = first_at(rest, "]:"@, 0)->0;
    if j < h.len() {
        assert(rest.subrange(j, j + 2)[0] == rest[j]);
        assert(h.contains(h[j]));
    }
    assert(rest.take(h.len() as int) =~= h);
    lemma_last_position(bare@, ':');
    if last_position(bare@, ':') is Some {
        assert(bare@.contains(bare@[last_position(bare@, ':')->0]));
    }
}

/// A host stands for every address exactly where it is a star or the zero
/// address of a family.
pub proof fn law_which_hosts_stand_for_all(
    host: &str,
    bare: String,
    text: &str,
    address: Option<Ip>,
    r: bool,
)
    requires
        call_ensures(normalize_socket_host, (host,), bare),
        text@ == bare@,
        call_ensures(parse_canonical_ip, (text,), address),
        call_ensures(is_wildcard_host, (host,), r),
    ensures
        r <==> bare@ == seq!['*'] || address == Some(Ip::V4(0)) || address == Some(Ip::V6(0)),
{
    reveal_strlit("*");
    assert("*"@ =~= seq!['*']);
}

/// A listener is in the way of a request, both for bare hosts. Of two
/// addresses that are not wildcards: where they are the same, or loopback
/// addresses of different families. `localhost` is every loopback address.
/// Names are the same but for case. A wildcard listener is always in the way,
/// and a request for every address of a family meets every address of it.
pub proof fn law_who_is_in_the_way(
    listener: &str,
    requested: &str,
    l: Option<Ip>,
    q: Option<Ip>,
    l_any: bool,
    q_any: bool,
    r: bool,
)
    requires
        is_bare(listener@),
        is_bare(requested@),
        call_ensures(parse_canonical_ip, (listener,), l),
        call_ensures(parse_canonical_ip, (requested,), q),
        call_ensures(is_wildcard_host, (listener,), l_any),
        call_ensures(is_wildcard_host, (requested,), q_any),
        call_ensures(listener_host_matches_request, (listener, requested), r),
    ensures
        l_any ==> r,
        q_any && !l_any && l is Some && q is Some ==> (r <==> (l->0 is V4 <==> q->0 is V4)),
        q_any && (l is None || q is None) ==> r,
        !l_any && !q_any && l is Some && q is Some ==> (r <==> l == q || (is_home(l->0) && is_home(
            q->0,
        ) && (l->0 is V4 <==> q->0 is V6))),
        !l_any && !q_any && same_ignoring_ascii_case(requested@, "localhost"@) ==> (r <==> l is Some
            && is_home(l->0)),
        !l_any && !q_any && same_ignoring_ascii_case(listener@, "localhost"@)
            && !same_ignoring_ascii_case(requested@, "localhost"@) ==> (r <==> q is Some && is_home(
            q->0,
        )),
        !l_any && !q_any && !same_ignoring_ascii_case(listener@, "localhost"@)
            && !same_ignoring_ascii_case(requested@, "localhost"@) && (l is None || q is None) ==> (r
            <==> same_ignoring_ascii_case(listener@, requested@)),
{
    lemma_bare_is_its_socket_host(listener@);
    lemma_bare_is_its_socket_host(requested@);
    if same_ignoring_ascii_case(listener@, "localhost"@) {
        lemma_localhost_is_no_address(listener@);
    }
    if same_ignoring_ascii_case(requested@, "localhost"@) {
        lemma_localhost_is_no_address(requested@);
    }
}

/// An address of the machine itself.
pub open spec fn is_home(ip: Ip) -> bool {
    match ip {
        Ip::V4(v) => 127 * 0x100_0000 <= v < 128 * 0x100_0000,
        Ip::V6(v) => v == 1,
    }
}

proof fn lemma_bare_is_its_socket_host(h: Seq<char>)
    requires
        is_bare(h),
    ensures
        socket_host(h) == h,
{
    let empty = Seq::<char>::empty();
    crate::text::law_trimming(empty, h, empty);
    assert(empty + h + empty =~= h);
    lemma_off_start(h, 0);
    assert(h.skip(0) =~= h);
    lemma_off_end(h, h.len() as int);
    assert(h.take(h.len() as int) =~= h);
}

/// A listener is in the way of a request for every address where it listens
/// on every address or on a name, and where it listens on an address of the
/// same family.
pub proof fn law_who_is_in_the_way_of_all(
    listener: &str,
    requested: &str,
    l: Option<Ip>,
    q: Option<Ip>,
    l_any: bool,
    r: bool,
)
    requires
        call_ensures(parse_canonical_ip, (listener,), l),
        call_ensures(parse_canonical_ip, (requested,), q),
        call_ensures(is_wildcard_host, (listener,), l_any),
        call_ensures(wildcard_request_conflicts_with_listener, (listener, requested), r),
    ensures
        l_any ==> r,
        l is None || q is None ==> r,
        !l_any && !same_ignoring_ascii_case(listener@, "localhost"@) && l is Some && q is Some ==> (
        r <==> (l->0 is V4 <==> q->0 is V4)),
        same_ignoring_ascii_case(listener@, "localhost"@) ==> r,
{
}

/// A host is at home where its text is an address that is.
pub proof fn law_which_hosts_are_at_home(host: &str, address: Option<Ip>, r: bool)
    requires
        call_ensures(parse_canonical_ip, (host,), address),
        call_ensures(is_loopback_host, (host,), r),
    ensures
        r <==> address is Some && is_home(address->0),
{
}

} // verus!
