//! Textual IP addresses.

use vstd::prelude::*;

use crate::numbers::{
    all_digits, decimal, digit_value, digits_value, is_all_digits, lemma_decimal_digits,
    lemma_decimal_parses, parse_hex_u64, parse_u32,
};
use crate::text::{chars_of, find_from, first_at, lemma_first_at, split, split_on, text_of, views};

verus! {

/// An IP address, with IPv4-mapped IPv6 addresses taken as IPv4.
#[derive(Debug, Clone, Copy, PartialEq, Eq, Structural)]
pub enum Ip {
    V4(u32),
    V6(u128),
}

/// A part of a dotted address: one to three digits without a leading zero, up
/// to 255.
pub open spec fn octet(s: Seq<char>) -> Option<int> {
    if 1 <= s.len() <= 3 && all_digits(s, 10) && (s.len() > 1 ==> s[0] != '0') && digits_value(
        s,
        10,
    ) <= 255 {
        Some(digits_value(s, 10))
    } else {
        None
    }
}

/// An IPv4 address: four parts between dots.
pub open spec fn ipv4(s: Seq<char>) -> Option<int> {
    let f = split_on(s, '.');
    if f.len() == 4 && octet(f[0]) is Some && octet(f[1]) is Some && octet(f[2]) is Some && octet(
        f[3],
    ) is Some {
        Some(
            octet(f[0])->0 * 0x100_0000 + octet(f[1])->0 * 0x1_0000 + octet(f[2])->0 * 0x100
                + octet(f[3])->0,
        )
    } else {
        None
    }
}

/// A group of an IPv6 address: one to four hexadecimal digits.
pub open spec fn hextet(s: Seq<char>) -> Option<int> {
    if 1 <= s.len() <= 4 && all_digits(s, 16) {
        Some(digits_value(s, 16))
    } else {
        None
    }
}

/// The groups, where every field is one.
pub open spec fn hextets(fields: Seq<Seq<char>>) -> Option<Seq<int>>
    decreases fields.len(),
{
    if fields.len() == 0 {
        Some(Seq::empty())
    } else {
        match (hextets(fields.drop_last()), hextet(fields.last())) {
            (Some(groups), Some(g)) => Some(groups.push(g)),
            _ => None,
        }
    }
}

/// The groups, of which the last two may be written as an IPv4 address.
pub open spec fn hextets_or_v4(fields: Seq<Seq<char>>) -> Option<Seq<int>> {
    if fields.len() > 0 && ipv4(fields.last()) is Some {
        let v = ipv4(fields.last())->0;
        match hextets(fields.drop_last()) {
            Some(groups) => Some(groups.push(v / 0x1_0000).push(v % 0x1_0000)),
            None => None,
        }
    } else {
        hextets(fields)
    }
}

/// The groups of one side of a `::`, or of an address without one. A side may
/// be empty; an IPv4 address may only end the last side.
pub open spec fn side(s: Seq<char>, last: bool) -> Option<Seq<int>> {
    if s.len() == 0 {
        Some(Seq::empty())
    } else if last {
        hextets_or_v4(split_on(s, ':'))
    } else {
        hextets(split_on(s, ':'))
    }
}

/// The eight groups of an IPv6 address. A `::` stands for at least one group
/// of zeros.
pub open spec fn ipv6(s: Seq<char>) -> Option<Seq<int>> {
    match first_at(s, "::"@, 0) {
        Some(i) => match (side(s.take(i), false), side(s.skip(i + 2), true)) {
            (Some(head), Some(tail)) => if head.len() + tail.len() <= 7 {
                Some(head + Seq::new((8 - head.len() - tail.len()) as nat, |k: int| 0int) + tail)
            } else {
                None
            },
            _ => None,
        },
        None => match side(s, true) {
            Some(groups) => if groups.len() == 8 {
                Some(groups)
            } else {
                None
            },
            None => None,
        },
    }
}

/// The number that eight groups make.
pub open spec fn groups_value(g: Seq<int>) -> int {
    let high = g[0] * 0x1_0000_0000_0000 + g[1] * 0x1_0000_0000 + g[2] * 0x1_0000 + g[3];
    let low = g[4] * 0x1_0000_0000_0000 + g[5] * 0x1_0000_0000 + g[6] * 0x1_0000 + g[7];
    high * 0x1_0000_0000_0000_0000 + low
}

/// An address of which the upper 80 bits are zero and the next 16 are one is
/// an IPv4 address in IPv6 form.
pub open spec fn canonical(v: int) -> Ip {
    if v / 0x1_0000_0000 == 0xFFFF {
        Ip::V4((v % 0x1_0000_0000) as u32)
    } else {
        Ip::V6(v as u128)
    }
}

/// The address that a text stands for.
pub open spec fn ip_of(s: Seq<char>) -> Option<Ip> {
    match ipv4(s) {
        Some(v) => Some(Ip::V4(v as u32)),
        None => match ipv6(s) {
            Some(groups) => Some(canonical(groups_value(groups))),
            None => None,
        },
    }
}

impl Ip {
    pub open spec fn is_v4(self) -> bool {
        self is V4
    }

    /// An address of the host itself: 127.0.0.0/8 or `::1`.
    pub open spec fn is_loopback_ip(self) -> bool {
        match self {
            Ip::V4(v) => v / 0x100_0000 == 127,
            Ip::V6(v) => v == 1,
        }
    }

    /// The address that stands for every address of its family.
    pub open spec fn is_any(self) -> bool {
        match self {
            Ip::V4(v) => v == 0,
            Ip::V6(v) => v == 0,
        }
    }

    pub fn is_ipv4(&self) -> (r: bool)
        ensures
            r == self.is_v4(),
    {
        match self {
            Ip::V4(_) => true,
            Ip::V6(_) => false,
        }
    }

    pub fn is_loopback(&self) -> (r: bool)
        ensures
            r == self.is_loopback_ip(),
    {
        match self {
            Ip::V4(v) => *v / 0x100_0000 == 127,
            Ip::V6(v) => *v == 1,
        }
    }

    pub fn is_unspecified(&self) -> (r: bool)
        ensures
            r == self.is_any(),
    {
        match self {
            Ip::V4(v) => *v == 0,
            Ip::V6(v) => *v == 0,
        }
    }
}

proof fn lemma_digits_bound(s: Seq<char>, base: int)
    requires
        base == 10 || base == 16,
        all_digits(s, base),
        s.len() <= 4,
    ensures
        0 <= digits_value(s, base) < 0x1_0000,
        s.len() <= 3 ==> digits_value(s, base) < 0x1000,
        s.len() <= 2 ==> digits_value(s, base) < 0x100,
        s.len() <= 1 ==> digits_value(s, base) < 0x10,
        s.len() == 0 ==> digits_value(s, base) == 0,
    decreases s.len(),
{
    if s.len() > 0 {
        let shorter = s.drop_last();
        assert forall|i: int| 0 <= i < shorter.len() implies crate::numbers::digit_value(
            #[trigger] shorter[i],
            base,
        ) >= 0 by {
            assert(shorter[i] == s[i]);
        }
        lemma_digits_bound(shorter, base);
        assert(crate::numbers::digit_value(s[s.len() - 1], base) >= 0);
    }
}

fn parse_octet(s: &str) -> (r: Option<u32>)
    ensures
        match r {
            Some(v) => octet(s@) == Some(v as int) && v <= 255,
            None => octet(s@) is None,
        },
{
    let cs = chars_of(s);
    let n: usize = cs.len();
    if n == 0 || n > 3 || !is_all_digits(s, 10) || (n > 1 && cs[0] == '0') {
        return None;
    }
    assert(s@[0] != '+') by {
        assert(crate::numbers::digit_value(s@[0], 10) >= 0);
    }
    proof {
        lemma_digits_bound(s@, 10);
    }
    match parse_u32(s) {
        Some(v) => if v <= 255 {
            Some(v)
        } else {
            None
        },
        None => None,
    }
}

/// Parses a dotted IPv4 address.
pub fn parse_ipv4(s: &str) -> (r: Option<u32>)
    ensures
        match r {
            Some(v) => ipv4(s@) == Some(v as int),
            None => ipv4(s@) is None,
        },
{
    let f = split(s, '.');
    let ghost fv = split_on(s@, '.');
    if f.len() != 4 {
        return None;
    }
    assert(f@[0]@ == fv[0] && f@[1]@ == fv[1] && f@[2]@ == fv[2] && f@[3]@ == fv[3]);
    match (
        parse_octet(f[0].as_str()),
        parse_octet(f[1].as_str()),
        parse_octet(f[2].as_str()),
        parse_octet(f[3].as_str()),
    ) {
        (Some(a), Some(b), Some(c), Some(d)) => Some(
            a * 0x100_0000 + b * 0x1_0000 + c * 0x100 + d,
        ),
        _ => None,
    }
}

fn parse_hextet(s: &str) -> (r: Option<u64>)
    ensures
        match r {
            Some(v) => hextet(s@) == Some(v as int) && v < 0x1_0000,
            None => hextet(s@) is None,
        },
{
    let n: usize = chars_of(s).len();
    if n == 0 || n > 4 || !is_all_digits(s, 16) {
        return None;
    }
    assert(s@[0] != '+') by {
        assert(crate::numbers::digit_value(s@[0], 16) >= 0);
    }
    proof {
        lemma_digits_bound(s@, 16);
    }
    parse_hex_u64(s)
}

/// The groups as numbers.
pub open spec fn group_views(g: Seq<u64>) -> Seq<int> {
    g.map_values(|v: u64| v as int)
}

/// The groups are in range.
pub open spec fn groups_in_range(g: Seq<u64>) -> bool {
    forall|i: int| 0 <= i < g.len() ==> (#[trigger] g[i]) < 0x1_0000
}

proof fn lemma_hextets_none(fields: Seq<Seq<char>>, at: int)
    requires
        0 <= at < fields.len(),
        hextet(fields[at]) is None,
    ensures
        hextets(fields) is None,
    decreases fields.len(),
{
    if at < fields.len() - 1 {
        lemma_hextets_none(fields.drop_last(), at);
    }
}

fn parse_hextets(fields: &Vec<String>, count: usize) -> (r: Option<Vec<u64>>)
    requires
        count <= fields@.len(),
    ensures
        match r {
            Some(g) => hextets(views(fields@).take(count as int)) == Some(group_views(g@))
                && groups_in_range(g@) && g@.len() == count,
            None => hextets(views(fields@).take(count as int)) is None,
        },
{
    let ghost fv = views(fields@).take(count as int);
    let mut g: Vec<u64> = Vec::new();
    let mut i: usize = 0;
    assert(group_views(g@) =~= Seq::<int>::empty());
    while i < count
        invariant
            i <= count <= fields@.len(),
            fv == views(fields@).take(count as int),
            hextets(fv.take(i as int)) == Some(group_views(g@)),
            groups_in_range(g@),
            g@.len() == i,
        decreases count - i,
    {
        assert(fv[i as int] == fields@[i as int]@);
        assert(fv.take(i + 1).drop_last() =~= fv.take(i as int));
        match parse_hextet(fields[i].as_str()) {
            None => {
                proof {
                    lemma_hextets_none(fv, i as int);
                }
                return None;
            },
            Some(v) => {
                let ghost before = group_views(g@);
                g.push(v);
                assert(group_views(g@) =~= before.push(v as int));
            },
        }
        i = i + 1;
    }
    assert(fv.take(i as int) =~= fv);
    Some(g)
}

fn parse_side(s: &str, last: bool) -> (r: Option<Vec<u64>>)
    ensures
        match r {
            Some(g) => side(s@, last) == Some(group_views(g@)) && groups_in_range(g@),
            None => side(s@, last) is None,
        },
{
    if s.is_empty() {
        let g: Vec<u64> = Vec::new();
        assert(group_views(g@) =~= Seq::<int>::empty());
        return Some(g);
    }
    let fields = split(s, ':');
    let ghost fv = split_on(s@, ':');
    let n: usize = fields.len();
    assert(fv.take(n as int) =~= fv);
    assert(fv.drop_last() =~= fv.take(n - 1));
    assert(fields@[n - 1]@ == fv.last());
    if last {
        if let Some(v) = parse_ipv4(fields[n - 1].as_str()) {
            return match parse_hextets(&fields, n - 1) {
                None => None,
                Some(g) => {
                    let mut g = g;
                    let ghost before = group_views(g@);
                    let hi: u64 = (v / 0x1_0000) as u64;
                    let lo: u64 = (v % 0x1_0000) as u64;
                    g.push(hi);
                    g.push(lo);
                    assert(group_views(g@) =~= before.push(hi as int).push(lo as int));
                    Some(g)
                },
            };
        }
    }
    parse_hextets(&fields, n)
}

/// Parses the groups of an IPv6 address.
fn parse_ipv6(s: &str) -> (r: Option<Vec<u64>>)
    ensures
        match r {
            Some(g) => ipv6(s@) == Some(group_views(g@)) && groups_in_range(g@) && g@.len() == 8,
            None => ipv6(s@) is None,
        },
{
    let cs = chars_of(s);
    let mark = chars_of("::");
    proof {
        reveal_strlit("::");
        lemma_first_at(s@, "::"@, 0);
    }
    match find_from(cs.as_slice(), mark.as_slice(), 0) {
        Some(i) => {
            let n: usize = cs.len();
            let head = text_of(cs.as_slice(), 0, i);
            let tail = text_of(cs.as_slice(), i + 2, n);
            assert(head@ =~= s@.take(i as int));
            assert(tail@ =~= s@.skip(i + 2));
            let h = match parse_side(head.as_str(), false) {
                Some(g) => g,
                None => {
                    return None;
                },
            };
            let t = match parse_side(tail.as_str(), true) {
                Some(g) => g,
                None => {
                    return None;
                },
            };
            if h.len() > 7 || t.len() > 7 - h.len() {
                return None;
            }
            let zeros: usize = 8 - h.len() - t.len();
            let mut g = h;
            let ghost hv = group_views(h@);
            let ghost tv = group_views(t@);
            let mut k: usize = 0;
            while k < zeros
                invariant
                    k <= zeros,
                    groups_in_range(g@),
                    g@.len() == hv.len() + k,
                    group_views(g@) == hv + Seq::new(k as nat, |k: int| 0int),
                decreases zeros - k,
            {
                let ghost before = group_views(g@);
                g.push(0);
                assert(group_views(g@) =~= before.push(0));
                assert(before.push(0) =~= hv + Seq::new((k + 1) as nat, |k: int| 0int));
                k = k + 1;
            }
            let ghost hz = group_views(g@);
            let mut m: usize = 0;
            while m < t.len()
                invariant
                    m <= t@.len(),
                    tv == group_views(t@),
                    groups_in_range(t@),
                    groups_in_range(g@),
                    g@.len() == hz.len() + m,
                    group_views(g@) == hz + tv.take(m as int),
                decreases t@.len() - m,
            {
                let ghost before = group_views(g@);
                let v: u64 = t[m];
                g.push(v);
                assert(group_views(g@) =~= before.push(v as int));
                assert(before.push(v as int) =~= hz + tv.take(m + 1));
                m = m + 1;
            }
            assert(tv.take(m as int) =~= tv);
            assert(group_views(g@) == hv + Seq::new(
                (8 - hv.len() - tv.len()) as nat,
                |k: int| 0int,
            ) + tv);
            Some(g)
        },
        None => match parse_side(s, true) {
            Some(g) => if g.len() == 8 {
                Some(g)
            } else {
                None
            },
            None => None,
        },
    }
}

/// Parses an IP address and takes IPv4-mapped IPv6 addresses as IPv4.
pub fn parse_canonical_ip(s: &str) -> (r: Option<Ip>)
    ensures
        r == ip_of(s@),
{
    if let Some(v) = parse_ipv4(s) {
        return Some(Ip::V4(v));
    }
    match parse_ipv6(s) {
        None => None,
        Some(g) => {
            let ghost gv = group_views(g@);
            assert(g@[0] < 0x1_0000 && g@[1] < 0x1_0000 && g@[2] < 0x1_0000 && g@[3] < 0x1_0000
                && g@[4] < 0x1_0000 && g@[5] < 0x1_0000 && g@[6] < 0x1_0000 && g@[7] < 0x1_0000);
            let high: u64 = g[0] * 0x1_0000_0000_0000 + g[1] * 0x1_0000_0000 + g[2] * 0x1_0000
                + g[3];
            let low: u64 = g[4] * 0x1_0000_0000_0000 + g[5] * 0x1_0000_0000 + g[6] * 0x1_0000
                + g[7];
            assert(gv[0] == g@[0] && gv[1] == g@[1] && gv[2] == g@[2] && gv[3] == g@[3] && gv[4]
                == g@[4] && gv[5] == g@[5] && gv[6] == g@[6] && gv[7] == g@[7]);
            let v: u128 = (high as u128) * 0x1_0000_0000_0000_0000 + (low as u128);
            assert(v == groups_value(gv));
            Some(canonicalize_ip(Ip::V6(v)))
        },
    }
}

/// Takes an IPv4-mapped IPv6 address as IPv4.
pub fn canonicalize_ip(ip: Ip) -> (r: Ip)
    ensures
        r == (match ip {
            Ip::V4(v) => ip,
            Ip::V6(v) => canonical(v as int),
        }),
{
    match ip {
        Ip::V4(v) => Ip::V4(v),
        Ip::V6(v) => if v / 0x1_0000_0000 == 0xFFFF {
            Ip::V4((v % 0x1_0000_0000) as u32)
        } else {
            Ip::V6(v)
        },
    }
}

/// A character that addresses are written with.
pub open spec fn is_address_char(c: char) -> bool {
    c == '.' || c == ':' || digit_value(c, 16) >= 0
}

/// Every character is one that addresses are written with.
pub open spec fn is_address_text(s: Seq<char>) -> bool {
    forall|i: int| 0 <= i < s.len() ==> is_address_char(#[trigger] s[i])
}

proof fn lemma_text_of_fields(s: Seq<char>, sep: char)
    requires
        is_address_char(sep),
        forall|k: int|
            0 <= k < split_on(s, sep).len() ==> is_address_text(#[trigger] split_on(s, sep)[k]),
    ensures
        is_address_text(s),
    decreases s.len(),
{
    if s.len() > 0 {
        let shorter = s.drop_last();
        let before = split_on(shorter, sep);
        let all = split_on(s, sep);
        crate::text::lemma_split_on_nonempty(shorter, sep);
        if s.last() != sep {
            let field = all[all.len() - 1];
            assert(is_address_text(field));
            assert(field[field.len() - 1] == s.last());
            assert(field =~= before.last().push(s.last()));
        }
        assert forall|k: int| 0 <= k < before.len() implies is_address_text(#[trigger] before[k]) by {
            assert(is_address_text(all[k]));
            if k == before.len() - 1 && s.last() != sep {
                assert forall|i: int| 0 <= i < before[k].len() implies is_address_char(
                    #[trigger] before[k][i],
                ) by {
                    assert(all[k][i] == before[k][i]);
                }
            }
        }
        lemma_text_of_fields(shorter, sep);
        assert forall|i: int| 0 <= i < s.len() implies is_address_char(#[trigger] s[i]) by {
            if i < shorter.len() {
                assert(shorter[i] == s[i]);
            }
        }
    }
}

proof fn lemma_ipv4_text(s: Seq<char>)
    requires
        ipv4(s) is Some,
    ensures
        is_address_text(s),
        s.len() > 0,
{
    let f = split_on(s, '.');
    assert forall|k: int| 0 <= k < f.len() implies is_address_text(#[trigger] f[k]) by {
        assert(octet(f[k]) is Some);
        assert forall|i: int| 0 <= i < f[k].len() implies is_address_char(#[trigger] f[k][i]) by {
            assert(digit_value(f[k][i], 10) >= 0);
        }
    }
    lemma_text_of_fields(s, '.');
}

proof fn lemma_hextets_text(fields: Seq<Seq<char>>)
    requires
        hextets(fields) is Some,
    ensures
        forall|k: int| 0 <= k < fields.len() ==> is_address_text(#[trigger] fields[k]),
    decreases fields.len(),
{
    if fields.len() > 0 {
        let shorter = fields.drop_last();
        lemma_hextets_text(shorter);
        let last = fields.last();
        assert(hextet(last) is Some);
        assert forall|k: int| 0 <= k < fields.len() implies is_address_text(#[trigger] fields[k]) by {
            if k < shorter.len() {
                assert(is_address_text(shorter[k]));
            } else {
                assert forall|i: int| 0 <= i < last.len() implies is_address_char(
                    #[trigger] last[i],
                ) by {
                    assert(digit_value(last[i], 16) >= 0);
                }
            }
        }
    }
}

proof fn lemma_side_text(s: Seq<char>, last: bool)
    requires
        side(s, last) is Some,
    ensures
        is_address_text(s),
{
    if s.len() > 0 {
        let fields = split_on(s, ':');
        crate::text::lemma_split_on_nonempty(s, ':');
        if last && ipv4(fields.last()) is Some {
            let shorter = fields.drop_last();
            lemma_hextets_text(shorter);
            lemma_ipv4_text(fields.last());
            assert forall|k: int| 0 <= k < fields.len() implies is_address_text(
                #[trigger] fields[k],
            ) by {
                if k < shorter.len() {
                    assert(is_address_text(shorter[k]));
                }
            }
        } else {
            lemma_hextets_text(fields);
        }
        lemma_text_of_fields(s, ':');
    }
}

/// An address is written with hexadecimal digits, dots and colons alone.
pub proof fn law_addresses_hold_nothing_else(s: Seq<char>)
    requires
        ip_of(s) is Some,
    ensures
        is_address_text(s),
{
    if ipv4(s) is Some {
        lemma_ipv4_text(s);
    } else {
        reveal_strlit("::");
        lemma_first_at(s, "::"@, 0);
        match first_at(s, "::"@, 0) {
            Some(i) => {
                let head = s.take(i);
                let tail = s.skip(i + 2);
                lemma_side_text(head, false);
                lemma_side_text(tail, true);
                let mark = s.subrange(i, i + 2);
                assert forall|k: int| 0 <= k < s.len() implies is_address_char(#[trigger] s[k]) by {
                    if k < i {
                        assert(head[k] == s[k]);
                    } else if k < i + 2 {
                        assert(mark[k - i] == s[k]);
                    } else {
                        assert(tail[k - i - 2] == s[k]);
                    }
                }
            },
            None => {
                lemma_side_text(s, true);
            },
        }
    }
}

/// Four numbers with dots between them.
pub open spec fn dotted(a: nat, b: nat, c: nat, d: nat) -> Seq<char> {
    decimal(a).push('.') + (decimal(b).push('.') + (decimal(c).push('.') + decimal(d)))
}

proof fn lemma_octet_of_decimal(n: nat)
    ensures
        octet(decimal(n)) == (if n <= 255 {
            Some(n as int)
        } else {
            None
        }),
        !decimal(n).contains('.') && !decimal(n).contains(':'),
{
    lemma_decimal_parses(n, n as int);
    lemma_decimal_digits(n);
    let d = decimal(n);
    if n <= 255 {
        reveal_with_fuel(decimal, 4);
        assert(d.len() <= 3);
    }
    if d.contains('.') {
        let k = choose|k: int| 0 <= k < d.len() && d[k] == '.';
        assert('0' <= d[k] <= '9');
    }
    if d.contains(':') {
        let k = choose|k: int| 0 <= k < d.len() && d[k] == ':';
        assert('0' <= d[k] <= '9');
    }
}

proof fn lemma_dotted(a: nat, b: nat, c: nat, d: nat)
    ensures
        split_on(dotted(a, b, c, d), '.') == seq![decimal(a), decimal(b), decimal(c), decimal(d)],
        ipv4(dotted(a, b, c, d)) == (if a <= 255 && b <= 255 && c <= 255 && d <= 255 {
            Some((a * 0x100_0000 + b * 0x1_0000 + c * 0x100 + d) as int)
        } else {
            None
        }),
        !dotted(a, b, c, d).contains(':'),
        dotted(a, b, c, d).contains('.'),
{
    lemma_octet_of_decimal(a);
    lemma_octet_of_decimal(b);
    lemma_octet_of_decimal(c);
    lemma_octet_of_decimal(d);
    let (w, x, y, z) = (decimal(a), decimal(b), decimal(c), decimal(d));
    let t3 = y.push('.') + z;
    let t2 = x.push('.') + t3;
    let s = w.push('.') + t2;
    crate::text::lemma_split_on_concat(w, t2, '.');
    crate::text::lemma_split_on_concat(x, t3, '.');
    crate::text::lemma_split_on_concat(y, z, '.');
    crate::text::lemma_split_of_field(w, '.');
    crate::text::lemma_split_of_field(x, '.');
    crate::text::lemma_split_of_field(y, '.');
    crate::text::lemma_split_of_field(z, '.');
    assert(split_on(s, '.') =~= seq![w, x, y, z]);
    assert(s[w.len() as int] == '.');
    assert forall|k: int| 0 <= k < s.len() implies s[k] != ':' by {
        if k < w.len() {
            assert(w.contains(s[k]));
        } else if k > w.len() && k < w.len() + 1 + x.len() {
            assert(s[k] == x[k - w.len() - 1]);
            assert(x.contains(s[k]));
        } else if k > w.len() + 1 + x.len() && k < w.len() + x.len() + y.len() + 2 {
            assert(s[k] == y[k - w.len() - x.len() - 2]);
            assert(y.contains(s[k]));
        } else if k > w.len() + x.len() + y.len() + 2 {
            assert(s[k] == z[k - w.len() - x.len() - y.len() - 3]);
            assert(z.contains(s[k]));
        }
    }
}

/// Four numbers with dots between them are an address exactly where none is
/// above 255, and each is worth 256 times the next.
pub proof fn law_dotted_numbers_are_an_address(
    s: &str,
    a: nat,
    b: nat,
    c: nat,
    d: nat,
    r: Option<Ip>,
)
    requires
        s@ == dotted(a, b, c, d),
        call_ensures(parse_canonical_ip, (s,), r),
    ensures
        a <= 255 && b <= 255 && c <= 255 && d <= 255 ==> r == Some(
            Ip::V4((((a * 256 + b) * 256 + c) * 256 + d) as u32),
        ),
        a > 255 || b > 255 || c > 255 || d > 255 ==> r is None,
{
    lemma_dotted(a, b, c, d);
    let t = s@;
    if ipv4(t) is None {
        reveal_strlit("::");
        lemma_first_at(t, "::"@, 0);
        if first_at(t, "::"@, 0) is Some {
            let i = first_at(t, "::"@, 0)->0;
            assert(t.subrange(i, i + 2)[0] == t[i]);
            assert(t.contains(t[i]));
        }
        crate::text::lemma_split_of_field(t, ':');
        let k = choose|k: int| 0 <= k < t.len() && t[k] == '.';
        assert(digit_value(t[k], 16) < 0);
        assert(hextet(t) is None);
        assert(seq![t].last() == t);
        assert(hextets(seq![t]) is None);
        assert(t.len() > 0);
    }
}

/// Two colons and a group of hexadecimal digits are the address of that value.
pub proof fn law_two_colons_stand_for_zeros(s: &str, h: Seq<char>, r: Option<Ip>)
    requires
        1 <= h.len() <= 4,
        all_digits(h, 16),
        s@ == seq![':', ':'] + h,
        call_ensures(parse_canonical_ip, (s,), r),
    ensures
        r == Some(Ip::V6(digits_value(h, 16) as u128)),
        0 <= digits_value(h, 16) < 0x1_0000,
{
    let t = s@;
    lemma_digits_bound(h, 16);
    reveal_strlit("::");
    assert("::"@ =~= seq![':', ':']);
    assert(t.subrange(0, 2) =~= "::"@);
    assert(crate::text::occurs_at(t, "::"@, 0));
    assert(first_at(t, "::"@, 0) == Some(0int));
    assert(t.take(0).len() == 0);
    assert(t.skip(2) =~= h);
    assert(!h.contains(':')) by {
        if h.contains(':') {
            let k = choose|k: int| 0 <= k < h.len() && h[k] == ':';
            assert(digit_value(h[k], 16) >= 0);
        }
    }
    assert(!h.contains('.')) by {
        if h.contains('.') {
            let k = choose|k: int| 0 <= k < h.len() && h[k] == '.';
            assert(digit_value(h[k], 16) >= 0);
        }
    }
    assert(!t.contains('.')) by {
        if t.contains('.') {
            let k = choose|k: int| 0 <= k < t.len() && t[k] == '.';
            assert(h[k - 2] == '.');
        }
    }
    crate::text::lemma_split_of_field(t, '.');
    crate::text::lemma_split_of_field(h, '.');
    crate::text::lemma_split_of_field(h, ':');
    assert(ipv4(t) is None);
    assert(ipv4(h) is None);
    let one = seq![h];
    assert(one.drop_last() =~= Seq::<Seq<char>>::empty());
    assert(one.last() == h);
    assert(hextets(one.drop_last()) == Some(Seq::<int>::empty()));
    let v = digits_value(h, 16);
    assert(hextets(one) == Some(Seq::<int>::empty().push(v)));
    let g = Seq::<int>::empty() + Seq::new(7, |k: int| 0int) + Seq::<int>::empty().push(v);
    assert(ipv6(t) == Some(g));
    assert(g.len() == 8 && g[7] == v);
}

/// An IPv4 address in IPv6 form is that IPv4 address; all other IPv6 addresses
/// stay.
pub proof fn law_mapped_addresses_are_ipv4(v: u32, w: u128, mapped: Ip, other: Ip, plain: Ip)
    requires
        w / 0x1_0000_0000 != 0xFFFF,
        call_ensures(
            canonicalize_ip,
            (Ip::V6((0xFFFF * 0x1_0000_0000 + v as int) as u128),),
            mapped,
        ),
        call_ensures(canonicalize_ip, (Ip::V6(w),), other),
        call_ensures(canonicalize_ip, (Ip::V4(v),), plain),
    ensures
        mapped == Ip::V4(v),
        other == Ip::V6(w),
        plain == Ip::V4(v),
{
}

/// The machine itself is what starts with 127, and `::1`; every address is
/// zero.
pub proof fn law_which_addresses_are_special(
    ip: Ip,
    loopback: bool,
    unspecified: bool,
    v4: bool,
)
    requires
        call_ensures(Ip::is_loopback, (&ip,), loopback),
        call_ensures(Ip::is_unspecified, (&ip,), unspecified),
        call_ensures(Ip::is_ipv4, (&ip,), v4),
    ensures
        ip matches Ip::V4(v) ==> v4 && (loopback <==> 127 * 0x100_0000 <= v < 128 * 0x100_0000) && (
        unspecified <==> v == 0),
        ip matches Ip::V6(v) ==> !v4 && (loopback <==> v == 1) && (unspecified <==> v == 0),
{
}

} // verus!
