//! Text primitives over `str`, specified on sequences of characters.

use vstd::prelude::*;

verus! {

/// `String::push` appends one character.
pub assume_specification[ String::push ](s: &mut String, c: char)
    ensures
        final(s)@ == old(s)@.push(c),
;

/// How a text is shown with the debug format of `str`: in quotes, with escapes.
pub uninterp spec fn debug_text(s: Seq<char>) -> Seq<char>;

/// Formats a text by the `Debug` of `str`. Which characters are escaped is a
/// matter of the Unicode tables; the result is named.
#[verifier::external_body]
pub(crate) fn show_debug(s: &str) -> (r: String)
    ensures
        r@ == debug_text(s@),
{
    format!("{s:?}")
}

/// The contents of a list of strings.
pub open spec fn views(v: Seq<String>) -> Seq<Seq<char>> {
    v.map_values(|s: String| s@)
}

/// The contents of an optional text.
pub open spec fn opt_view(v: Option<&str>) -> Option<Seq<char>> {
    match v {
        Some(s) => Some(s@),
        None => None,
    }
}

/// The `White_Space` property of Unicode.
pub open spec fn is_space(c: char) -> bool {
    let u = c as u32;
    ||| 0x9 <= u <= 0xD
    ||| u == 0x20
    ||| u == 0x85
    ||| u == 0xA0
    ||| u == 0x1680
    ||| 0x2000 <= u <= 0x200A
    ||| u == 0x2028
    ||| u == 0x2029
    ||| u == 0x202F
    ||| u == 0x205F
    ||| u == 0x3000
}

pub open spec fn is_digit(c: char) -> bool {
    '0' <= c <= '9'
}

/// The ASCII lower-case form of a character; other characters stay.
pub open spec fn lower_char(c: char) -> char {
    if 'A' <= c <= 'Z' {
        ((c as u32) + 32) as char
    } else {
        c
    }
}

pub open spec fn ascii_lower(s: Seq<char>) -> Seq<char> {
    s.map_values(|c: char| lower_char(c))
}

/// Equality up to the case of ASCII letters.
pub open spec fn same_ignoring_ascii_case(a: Seq<char>, b: Seq<char>) -> bool {
    ascii_lower(a) == ascii_lower(b)
}

pub open spec fn trimmed_start(s: Seq<char>) -> Seq<char>
    decreases s.len(),
{
    if s.len() > 0 && is_space(s[0]) {
        trimmed_start(s.skip(1))
    } else {
        s
    }
}

pub open spec fn trimmed_end(s: Seq<char>) -> Seq<char>
    decreases s.len(),
{
    if s.len() > 0 && is_space(s.last()) {
        trimmed_end(s.drop_last())
    } else {
        s
    }
}

/// The text without leading and trailing white space.
pub open spec fn trimmed(s: Seq<char>) -> Seq<char> {
    trimmed_end(trimmed_start(s))
}

/// The fields between separators: a separator opens a new, empty field, and
/// every other item extends the last field. There is always one field more
/// than there are separators.
pub open spec fn split_on<T>(s: Seq<T>, sep: T) -> Seq<Seq<T>>
    decreases s.len(),
{
    if s.len() == 0 {
        seq![Seq::empty()]
    } else {
        let before = split_on(s.drop_last(), sep);
        if s.last() == sep {
            before.push(Seq::empty())
        } else {
            before.drop_last().push(before.last().push(s.last()))
        }
    }
}

/// The maximal runs of characters that are not white space.
pub open spec fn words(s: Seq<char>) -> Seq<Seq<char>>
    decreases s.len(),
{
    if s.len() == 0 {
        Seq::empty()
    } else {
        let rest = s.drop_last();
        let before = words(rest);
        if is_space(s.last()) {
            before
        } else if rest.len() > 0 && !is_space(rest.last()) {
            before.drop_last().push(before.last().push(s.last()))
        } else {
            before.push(seq![s.last()])
        }
    }
}

pub open spec fn without_trailing_cr(s: Seq<char>) -> Seq<char> {
    if s.len() > 0 && s.last() == '\r' {
        s.drop_last()
    } else {
        s
    }
}

/// The lines of a text: what ends in a line feed, without it and without a
/// carriage return before it, and a non-empty rest after the last line feed.
pub open spec fn lines_of(s: Seq<char>) -> Seq<Seq<char>> {
    let parts = split_on(s, '\n');
    let ended = parts.drop_last().map_values(|l: Seq<char>| without_trailing_cr(l));
    if parts.last().len() == 0 {
        ended
    } else {
        ended.push(parts.last())
    }
}

/// The parts with the separator between each two.
pub open spec fn joined(parts: Seq<Seq<char>>, sep: Seq<char>) -> Seq<char>
    decreases parts.len(),
{
    if parts.len() == 0 {
        Seq::empty()
    } else if parts.len() == 1 {
        parts[0]
    } else {
        joined(parts.drop_last(), sep) + sep + parts.last()
    }
}

/// `needle` stands in `s` at position `i`.
pub open spec fn occurs_at(s: Seq<char>, needle: Seq<char>, i: int) -> bool {
    0 <= i && i + needle.len() <= s.len() && s.subrange(i, i + needle.len()) == needle
}

pub open spec fn has_text(s: Seq<char>, needle: Seq<char>) -> bool {
    exists|i: int| occurs_at(s, needle, i)
}

/// The first position at or after `from` where `needle` stands in `s`.
pub open spec fn first_at(s: Seq<char>, needle: Seq<char>, from: int) -> Option<int>
    decreases s.len() + 1 - from,
{
    if from < 0 || from > s.len() {
        None
    } else if occurs_at(s, needle, from) {
        Some(from)
    } else {
        first_at(s, needle, from + 1)
    }
}

/// Every occurrence of `pat`, taken from the left without overlap, replaced.
pub open spec fn replaced(s: Seq<char>, pat: Seq<char>, to: Seq<char>) -> Seq<char>
    decreases s.len(),
{
    if s.len() == 0 {
        Seq::empty()
    } else if pat.len() > 0 && pat.is_prefix_of(s) {
        to + replaced(s.skip(pat.len() as int), pat, to)
    } else {
        seq![s[0]] + replaced(s.skip(1), pat, to)
    }
}

/// The text with each `from` replaced by `to`.
pub open spec fn char_replaced(s: Seq<char>, from: char, to: char) -> Seq<char> {
    s.map_values(|c: char| if c == from { to } else { c })
}

pub proof fn lemma_split_on_nonempty<T>(s: Seq<T>, sep: T)
    ensures
        split_on(s, sep).len() >= 1,
    decreases s.len(),
{
    if s.len() > 0 {
        lemma_split_on_nonempty(s.drop_last(), sep);
    }
}

/// A separator between two texts ends the fields of the first.
pub proof fn lemma_split_on_concat<T>(a: Seq<T>, b: Seq<T>, sep: T)
    ensures
        split_on(a.push(sep) + b, sep) == split_on(a, sep) + split_on(b, sep),
    decreases b.len(),
{
    lemma_split_on_nonempty(a, sep);
    lemma_split_on_nonempty(b, sep);
    if b.len() == 0 {
        assert(a.push(sep) + b =~= a.push(sep));
        assert(a.push(sep).drop_last() =~= a);
        assert(split_on(a, sep).push(Seq::empty()) =~= split_on(a, sep) + split_on(b, sep));
    } else {
        let whole = a.push(sep) + b;
        assert(whole.drop_last() =~= a.push(sep) + b.drop_last());
        lemma_split_on_concat(a, b.drop_last(), sep);
        lemma_split_on_nonempty(b.drop_last(), sep);
        assert(whole.last() == b.last());
        let before = split_on(whole.drop_last(), sep);
        let before_b = split_on(b.drop_last(), sep);
        assert(before.last() == before_b.last());
        assert(split_on(whole, sep) =~= split_on(a, sep) + split_on(b, sep));
    }
}

/// A text without the separator is one field.
pub proof fn lemma_split_of_field<T>(c: Seq<T>, sep: T)
    requires
        !c.contains(sep),
    ensures
        split_on(c, sep) == seq![c],
    decreases c.len(),
{
    if c.len() == 0 {
        assert(c =~= Seq::empty());
    } else {
        let shorter = c.drop_last();
        if shorter.contains(sep) {
            let k = choose|k: int| 0 <= k < shorter.len() && shorter[k] == sep;
            assert(c[k] == sep);
        }
        lemma_split_of_field(shorter, sep);
        assert(c[c.len() - 1] != sep) by {
            if c[c.len() - 1] == sep {
                assert(c.contains(sep));
            }
        }
        assert(shorter.push(c.last()) =~= c);
        assert(split_on(c, sep) =~= seq![c]);
    }
}

/// No field holds the separator.
pub proof fn lemma_fields_without_separator<T>(s: Seq<T>, sep: T)
    ensures
        forall|i: int| 0 <= i < split_on(s, sep).len() ==> !(#[trigger] split_on(s, sep)[i]).contains(sep),
    decreases s.len(),
{
    lemma_split_on_nonempty(s, sep);
    if s.len() > 0 {
        lemma_fields_without_separator(s.drop_last(), sep);
        lemma_split_on_nonempty(s.drop_last(), sep);
        let before = split_on(s.drop_last(), sep);
        let fields = split_on(s, sep);
        assert forall|i: int| 0 <= i < fields.len() implies !(#[trigger] fields[i]).contains(sep) by {
            if s.last() == sep {
                if i < before.len() {
                    assert(fields[i] == before[i]);
                }
            } else if i < before.len() - 1 {
                assert(fields[i] == before[i]);
            } else {
                let grown = before.last().push(s.last());
                assert(fields[i] == grown);
                assert(!before[before.len() - 1].contains(sep));
                if grown.contains(sep) {
                    let k = choose|k: int| 0 <= k < grown.len() && grown[k] == sep;
                    assert(before.last()[k] == sep);
                }
            }
        }
    }
}

/// The characters of a text.
pub fn chars_of(s: &str) -> (r: Vec<char>)
    ensures
        r@ == s@,
{
    let mut out: Vec<char> = Vec::new();
    for c in it: s.chars()
        invariant
            it.seq() == s@,
            out@ == s@.take(it.index() as int),
    {
        out.push(c);
    }
    out
}

/// The text with the characters of `cs` from `from` to `to`.
pub fn text_of(cs: &[char], from: usize, to: usize) -> (r: String)
    requires
        from <= to <= cs@.len(),
    ensures
        r@ == cs@.subrange(from as int, to as int),
{
    let mut out = String::new();
    let mut i: usize = from;
    while i < to
        invariant
            from <= i <= to <= cs@.len(),
            out@ == cs@.subrange(from as int, i as int),
        decreases to - i,
    {
        out.push(cs[i]);
        assert(cs@.subrange(from as int, i + 1) =~= cs@.subrange(from as int, i as int).push(
            cs@[i as int],
        ));
        i = i + 1;
    }
    out
}

pub fn char_is_space(c: char) -> (r: bool)
    ensures
        r == is_space(c),
{
    let u: u32 = c as u32;
    (0x9 <= u && u <= 0xD) || u == 0x20 || u == 0x85 || u == 0xA0 || u == 0x1680 || (0x2000 <= u
        && u <= 0x200A) || u == 0x2028 || u == 0x2029 || u == 0x202F || u == 0x205F || u == 0x3000
}

pub fn lower(c: char) -> (r: char)
    ensures
        r == lower_char(c),
{
    if 'A' <= c && c <= 'Z' {
        let u: u8 = c as u8;
        (u + 32) as char
    } else {
        c
    }
}

pub fn to_ascii_lower(s: &str) -> (r: String)
    ensures
        r@ == ascii_lower(s@),
{
    let cs = chars_of(s);
    let mut out = String::new();
    let mut i: usize = 0;
    while i < cs.len()
        invariant
            i <= cs@.len(),
            cs@ == s@,
            out@ == ascii_lower(s@).take(i as int),
        decreases cs@.len() - i,
    {
        out.push(lower(cs[i]));
        assert(ascii_lower(s@).take(i + 1) =~= ascii_lower(s@).take(i as int).push(
            lower_char(s@[i as int]),
        ));
        i = i + 1;
    }
    assert(ascii_lower(s@).take(i as int) =~= ascii_lower(s@));
    out
}

/// Whether two texts are equal.
pub fn same(a: &str, b: &str) -> (r: bool)
    ensures
        r == (a@ == b@),
{
    a.to_owned() == b.to_owned()
}

pub fn eq_ignore_ascii_case(a: &str, b: &str) -> (r: bool)
    ensures
        r == same_ignoring_ascii_case(a@, b@),
{
    to_ascii_lower(a) == to_ascii_lower(b)
}

proof fn lemma_trimmed_start_at(s: Seq<char>, i: int)
    requires
        0 <= i <= s.len(),
        forall|k: int| 0 <= k < i ==> is_space(s[k]),
        i < s.len() ==> !is_space(s[i]),
    ensures
        trimmed_start(s) == s.skip(i),
    decreases i,
{
    if i == 0 {
        assert(s.skip(0) =~= s);
    } else {
        lemma_trimmed_start_at(s.skip(1), i - 1);
        assert(s.skip(1).skip(i - 1) =~= s.skip(i));
    }
}

proof fn lemma_trimmed_end_at(s: Seq<char>, j: int)
    requires
        0 <= j <= s.len(),
        forall|k: int| j <= k < s.len() ==> is_space(s[k]),
        0 < j ==> !is_space(s[j - 1]),
    ensures
        trimmed_end(s) == s.take(j),
    decreases s.len() - j,
{
    if j == s.len() {
        assert(s.take(j) =~= s);
    } else {
        lemma_trimmed_end_at(s.drop_last(), j);
        assert(s.drop_last().take(j) =~= s.take(j));
    }
}

/// The text without leading and trailing white space.
pub fn trim(s: &str) -> (r: String)
    ensures
        r@ == trimmed(s@),
{
    let cs = chars_of(s);
    let n: usize = cs.len();
    let mut i: usize = 0;
    while i < n && char_is_space(cs[i])
        invariant
            i <= n,
            n == cs@.len(),
            forall|k: int| 0 <= k < i ==> is_space(cs@[k]),
        decreases n - i,
    {
        i = i + 1;
    }
    let mut j: usize = n;
    while i < j && char_is_space(cs[j - 1])
        invariant
            i <= j <= n,
            n == cs@.len(),
            forall|k: int| j <= k < n ==> is_space(cs@[k]),
        decreases j,
    {
        j = j - 1;
    }
    proof {
        lemma_trimmed_start_at(s@, i as int);
        let rest = s@.skip(i as int);
        assert forall|k: int| j - i <= k < rest.len() implies is_space(rest[k]) by {
            assert(rest[k] == cs@[k + i]);
        }
        if j > i {
            assert(rest[j - i - 1] == cs@[j - 1]);
        }
        lemma_trimmed_end_at(rest, j - i);
        assert(rest.take(j - i) =~= cs@.subrange(i as int, j as int));
    }
    text_of(cs.as_slice(), i, j)
}

/// The fields of a text between separators.
pub fn split(s: &str, sep: char) -> (r: Vec<String>)
    ensures
        views(r@) == split_on(s@, sep),
        r@.len() >= 1,
{
    let cs = chars_of(s);
    let mut out: Vec<String> = Vec::new();
    let mut cur = String::new();
    let mut i: usize = 0;
    assert(views(out@).push(cur@) =~= split_on(s@.take(0), sep));
    while i < cs.len()
        invariant
            i <= cs@.len(),
            cs@ == s@,
            views(out@).push(cur@) == split_on(s@.take(i as int), sep),
        decreases cs@.len() - i,
    {
        let ghost before = views(out@).push(cur@);
        let ghost next = s@.take(i + 1);
        assert(next.drop_last() =~= s@.take(i as int));
        assert(before.drop_last() =~= views(out@));
        let c = cs[i];
        if c == sep {
            let ghost outv = views(out@);
            out.push(cur);
            cur = String::new();
            assert(views(out@) =~= before);
            assert(views(out@).push(cur@) =~= split_on(next, sep));
        } else {
            cur.push(c);
            assert(views(out@).push(cur@) =~= split_on(next, sep));
        }
        i = i + 1;
    }
    assert(s@.take(i as int) =~= s@);
    let ghost before = views(out@).push(cur@);
    out.push(cur);
    assert(views(out@) =~= before);
    out
}

/// The maximal runs of characters that are not white space.
pub fn split_whitespace(s: &str) -> (r: Vec<String>)
    ensures
        views(r@) == words(s@),
{
    let cs = chars_of(s);
    let mut out: Vec<String> = Vec::new();
    let mut cur = String::new();
    let mut i: usize = 0;
    assert(views(out@) =~= words(s@.take(0)));
    while i < cs.len()
        invariant
            i <= cs@.len(),
            cs@ == s@,
            cur@.len() > 0 <==> (i > 0 && !is_space(s@[i - 1])),
            cur@.len() > 0 ==> views(out@).push(cur@) == words(s@.take(i as int)),
            cur@.len() == 0 ==> views(out@) == words(s@.take(i as int)),
        decreases cs@.len() - i,
    {
        let ghost next = s@.take(i + 1);
        let ghost rest = s@.take(i as int);
        assert(next.drop_last() =~= rest);
        if i > 0 {
            assert(rest.last() == s@[i - 1]);
        }
        let c = cs[i];
        if char_is_space(c) {
            if !cur.as_str().is_empty() {
                let ghost before = views(out@).push(cur@);
                out.push(cur);
                assert(views(out@) =~= before);
                cur = String::new();
            }
        } else {
            let ghost before = views(out@).push(cur@);
            assert(before.drop_last() =~= views(out@));
            let ghost word = cur@;
            cur.push(c);
            proof {
                if word.len() == 0 {
                    assert(word =~= Seq::<char>::empty());
                    assert(cur@ =~= seq![c]);
                    assert(views(out@).push(cur@) =~= words(next));
                } else {
                    assert(before.last() =~= word);
                    assert(views(out@).push(cur@) =~= words(next));
                }
            }
        }
        i = i + 1;
    }
    assert(s@.take(i as int) =~= s@);
    if !cur.as_str().is_empty() {
        let ghost before = views(out@).push(cur@);
        out.push(cur);
        assert(views(out@) =~= before);
    }
    out
}

/// The lines of a text.
pub fn lines(s: &str) -> (r: Vec<String>)
    ensures
        views(r@) == lines_of(s@),
{
    let parts = split(s, '\n');
    let ghost pv = split_on(s@, '\n');
    let ghost ended = pv.drop_last().map_values(|l: Seq<char>| without_trailing_cr(l));
    let n: usize = parts.len();
    let mut out: Vec<String> = Vec::new();
    let mut i: usize = 0;
    assert(views(out@) =~= ended.take(0));
    while i < n - 1
        invariant
            1 <= n == parts@.len(),
            i <= n - 1,
            views(parts@) == pv,
            ended == pv.drop_last().map_values(|l: Seq<char>| without_trailing_cr(l)),
            views(out@) == ended.take(i as int),
        decreases n - i,
    {
        let l = strip_trailing_cr(parts[i].as_str());
        assert(parts@[i as int]@ == pv[i as int]);
        assert(pv.drop_last()[i as int] == pv[i as int]);
        let ghost before = views(out@);
        out.push(l);
        assert(views(out@) =~= before.push(l@));
        assert(ended.take(i + 1) =~= ended.take(i as int).push(ended[i as int]));
        i = i + 1;
    }
    assert(ended.take(i as int) =~= ended);
    assert(parts@[n - 1]@ == pv[n - 1]);
    if !parts[n - 1].as_str().is_empty() {
        let ghost before = views(out@);
        out.push(parts[n - 1].clone());
        assert(views(out@) =~= before.push(pv.last()));
    }
    out
}

fn strip_trailing_cr(s: &str) -> (r: String)
    ensures
        r@ == without_trailing_cr(s@),
{
    let cs = chars_of(s);
    let n: usize = cs.len();
    if n > 0 && cs[n - 1] == '\r' {
        let r = text_of(cs.as_slice(), 0, n - 1);
        assert(r@ =~= s@.drop_last());
        r
    } else {
        s.to_owned()
    }
}

/// The parts with the separator between each two.
pub fn join(parts: &Vec<String>, sep: &str) -> (r: String)
    ensures
        r@ == joined(views(parts@), sep@),
{
    let mut out = String::new();
    let ghost pv = views(parts@);
    let mut i: usize = 0;
    while i < parts.len()
        invariant
            i <= parts@.len(),
            pv == views(parts@),
            out@ == joined(pv.take(i as int), sep@),
        decreases parts@.len() - i,
    {
        if i > 0 {
            out.append(sep);
        }
        out.append(parts[i].as_str());
        let ghost next = pv.take(i + 1);
        assert(next.drop_last() =~= pv.take(i as int));
        assert(next.last() == parts@[i as int]@);
        i = i + 1;
    }
    assert(pv.take(i as int) =~= pv);
    out
}

pub fn starts_with(s: &str, p: &str) -> (r: bool)
    ensures
        r == p@.is_prefix_of(s@),
{
    let cs = chars_of(s);
    let ps = chars_of(p);
    occurs(cs.as_slice(), ps.as_slice(), 0)
}

pub fn ends_with(s: &str, p: &str) -> (r: bool)
    ensures
        r == p@.is_suffix_of(s@),
{
    let cs = chars_of(s);
    let ps = chars_of(p);
    if ps.len() > cs.len() {
        return false;
    }
    let at: usize = cs.len() - ps.len();
    occurs(cs.as_slice(), ps.as_slice(), at)
}

/// Whether `p` stands in `cs` at position `at`.
pub fn occurs(cs: &[char], p: &[char], at: usize) -> (r: bool)
    ensures
        r == occurs_at(cs@, p@, at as int),
{
    if at > cs.len() || cs.len() - at < p.len() {
        return false;
    }
    let mut i: usize = 0;
    while i < p.len()
        invariant
            i <= p@.len(),
            at + p@.len() <= cs@.len() <= usize::MAX,
            forall|k: int| 0 <= k < i ==> cs@[at + k] == p@[k],
        decreases p@.len() - i,
    {
        if cs[at + i] != p[i] {
            assert(cs@.subrange(at as int, at + p@.len())[i as int] == cs@[at + i]);
            return false;
        }
        i = i + 1;
    }
    assert(cs@.subrange(at as int, at + p@.len()) =~= p@);
    true
}

pub proof fn lemma_first_at(s: Seq<char>, needle: Seq<char>, from: int)
    requires
        0 <= from,
    ensures
        match first_at(s, needle, from) {
            Some(i) => from <= i && occurs_at(s, needle, i) && forall|k: int|
                from <= k < i ==> !occurs_at(s, needle, k),
            None => forall|k: int| from <= k ==> !occurs_at(s, needle, k),
        },
    decreases s.len() + 1 - from,
{
    if from <= s.len() && !occurs_at(s, needle, from) {
        lemma_first_at(s, needle, from + 1);
    }
}

/// The first position at or after `from` where `p` stands in `cs`.
pub fn find_from(cs: &[char], p: &[char], from: usize) -> (r: Option<usize>)
    ensures
        match r {
            Some(i) => first_at(cs@, p@, from as int) == Some(i as int),
            None => first_at(cs@, p@, from as int) is None,
        },
{
    let mut i: usize = from;
    while i <= cs.len()
        invariant
            from <= i,
            first_at(cs@, p@, from as int) == first_at(cs@, p@, i as int),
        decreases cs@.len() + 1 - i,
    {
        if occurs(cs, p, i) {
            return Some(i);
        }
        if i == cs.len() {
            assert(first_at(cs@, p@, i + 1) is None);
            return None;
        }
        i = i + 1;
    }
    None
}

pub fn contains(s: &str, needle: &str) -> (r: bool)
    ensures
        r == has_text(s@, needle@),
{
    let cs = chars_of(s);
    let ps = chars_of(needle);
    proof {
        lemma_first_at(s@, needle@, 0);
    }
    find_from(cs.as_slice(), ps.as_slice(), 0).is_some()
}

/// Every occurrence of `pat` replaced by `to`.
pub fn replace_all(s: &str, pat: &str, to: &str) -> (r: String)
    requires
        pat@.len() > 0,
    ensures
        r@ == replaced(s@, pat@, to@),
{
    let cs = chars_of(s);
    let ps = chars_of(pat);
    let mut out = String::new();
    let mut i: usize = 0;
    assert(s@.skip(0) =~= s@);
    while i < cs.len()
        invariant
            i <= cs@.len(),
            cs@ == s@,
            ps@ == pat@,
            pat@.len() > 0,
            out@ + replaced(s@.skip(i as int), pat@, to@) == replaced(s@, pat@, to@),
        decreases cs@.len() - i,
    {
        let ghost rest = s@.skip(i as int);
        if occurs(cs.as_slice(), ps.as_slice(), i) {
            assert(rest.subrange(0, pat@.len() as int) =~= s@.subrange(
                i as int,
                i + pat@.len(),
            ));
            assert(rest.skip(pat@.len() as int) =~= s@.skip(i + pat@.len()));
            let ghost before = out@;
            out.append(to);
            i = i + ps.len();
            assert(out@ + replaced(s@.skip(i as int), pat@, to@) =~= before + replaced(
                rest,
                pat@,
                to@,
            ));
        } else {
            assert(rest.skip(1) =~= s@.skip(i + 1));
            assert(pat@.is_prefix_of(rest) ==> s@.subrange(i as int, i + pat@.len())
                =~= rest.subrange(0, pat@.len() as int));
            let ghost before = out@;
            out.push(cs[i]);
            i = i + 1;
            assert(out@ + replaced(s@.skip(i as int), pat@, to@) =~= before + replaced(
                rest,
                pat@,
                to@,
            ));
        }
    }
    assert(s@.skip(i as int) =~= Seq::<char>::empty());
    assert(out@ + Seq::<char>::empty() =~= out@);
    out
}

/// Each `from` replaced by `to`.
pub fn replace_char(s: &str, from: char, to: char) -> (r: String)
    ensures
        r@ == char_replaced(s@, from, to),
{
    let cs = chars_of(s);
    let mut out = String::new();
    let mut i: usize = 0;
    while i < cs.len()
        invariant
            i <= cs@.len(),
            cs@ == s@,
            out@ == char_replaced(s@, from, to).take(i as int),
        decreases cs@.len() - i,
    {
        let c = if cs[i] == from {
            to
        } else {
            cs[i]
        };
        out.push(c);
        assert(char_replaced(s@, from, to).take(i + 1) =~= char_replaced(s@, from, to).take(
            i as int,
        ).push(c));
        i = i + 1;
    }
    assert(char_replaced(s@, from, to).take(i as int) =~= char_replaced(s@, from, to));
    out
}

/// White space is what Unicode takes for it.
pub proof fn law_white_space(c: char)
    ensures
        is_space(c) <==> ('\t' <= c <= '\r' || c == ' ' || c == '\u{85}' || c == '\u{a0}' || c
            == '\u{1680}' || '\u{2000}' <= c <= '\u{200a}' || c == '\u{2028}' || c == '\u{2029}'
            || c == '\u{202f}' || c == '\u{205f}' || c == '\u{3000}'),
{
}

/// Trimming takes off the white space at both ends, all of it and nothing else.
pub proof fn law_trimming(lead: Seq<char>, core: Seq<char>, trail: Seq<char>)
    requires
        forall|i: int| 0 <= i < lead.len() ==> is_space(#[trigger] lead[i]),
        forall|i: int| 0 <= i < trail.len() ==> is_space(#[trigger] trail[i]),
        core.len() > 0 ==> !is_space(core[0]) && !is_space(core[core.len() - 1]),
    ensures
        trimmed(lead + core + trail) == core,
{
    let s = lead + core + trail;
    if core.len() == 0 {
        assert forall|k: int| 0 <= k < s.len() implies is_space(s[k]) by {
            if k < lead.len() {
                assert(s[k] == lead[k]);
            } else {
                assert(s[k] == trail[k - lead.len()]);
            }
        }
        lemma_trimmed_start_at(s, s.len() as int);
        assert(s.skip(s.len() as int) =~= Seq::<char>::empty());
        assert(core =~= Seq::<char>::empty());
    } else {
        let n = lead.len() as int;
        assert forall|k: int| 0 <= k < n implies is_space(s[k]) by {
            assert(s[k] == lead[k]);
        }
        assert(s[n] == core[0]);
        lemma_trimmed_start_at(s, n);
        let rest = s.skip(n);
        let m = core.len() as int;
        assert forall|k: int| m <= k < rest.len() implies is_space(rest[k]) by {
            assert(rest[k] == trail[k - m]);
        }
        assert(rest[m - 1] == core[m - 1]);
        lemma_trimmed_end_at(rest, m);
        assert(rest.take(m) =~= core);
    }
}

/// The words of a text: white space between them counts for nothing, and a run
/// without white space behind some is one more word.
pub proof fn law_words_are_taken_one_by_one(s: Seq<char>, c: char, w: Seq<char>)
    requires
        is_space(c),
        forall|i: int| 0 <= i < w.len() ==> !is_space(#[trigger] w[i]),
    ensures
        words(s.push(c)) == words(s),
        w.len() > 0 ==> words(w) == seq![w],
        w.len() > 0 ==> words(s.push(c) + w) == words(s).push(w),
    decreases w.len(),
{
    assert(s.push(c).drop_last() =~= s);
    if w.len() > 0 {
        let shorter = w.drop_last();
        assert forall|i: int| 0 <= i < shorter.len() implies !is_space(#[trigger] shorter[i]) by {
            assert(shorter[i] == w[i]);
        }
        law_words_are_taken_one_by_one(s, c, shorter);
        let last = w.len() - 1;
        assert(!is_space(w[last]));
        let whole = s.push(c) + w;
        assert(whole.drop_last() =~= s.push(c) + shorter);
        assert(whole.last() == w[last]);
        if shorter.len() == 0 {
            assert(s.push(c) + shorter =~= s.push(c));
            assert(seq![w[last]] =~= w);
            assert(words(shorter) =~= Seq::<Seq<char>>::empty());
            assert(words(w) == words(shorter).push(seq![w.last()]));
            assert(words(w) =~= seq![w]);
        } else {
            assert(!is_space(shorter[shorter.len() - 1]));
            assert((s.push(c) + shorter).last() == shorter.last());
            assert(shorter.push(w[last]) =~= w);
            let before = words(s.push(c) + shorter);
            assert(before.drop_last() =~= words(s));
            assert(words(whole) =~= words(s).push(w));
            assert(seq![shorter].drop_last() =~= Seq::<Seq<char>>::empty());
            assert(words(w) =~= seq![w]);
        }
    }
}

/// A line is what a line feed ends, without it and without a carriage return
/// before it; what follows the last line feed is a line where it is not empty.
pub proof fn law_lines_end_at_line_feeds(line: Seq<char>, rest: Seq<char>)
    requires
        !line.contains('\n'),
    ensures
        lines_of(line.push('\n') + rest) == seq![
            if line.len() > 0 && line[line.len() - 1] == '\r' {
                line.take(line.len() - 1)
            } else {
                line
            },
        ] + lines_of(rest),
        lines_of(line) == (if line.len() == 0 {
            Seq::empty()
        } else {
            seq![line]
        }),
{
    lemma_split_on_concat(line, rest, '\n');
    lemma_split_of_field(line, '\n');
    lemma_split_on_nonempty(rest, '\n');
    let parts = split_on(rest, '\n');
    let all = split_on(line.push('\n') + rest, '\n');
    assert(all =~= seq![line] + parts);
    assert(all.drop_last() =~= seq![line] + parts.drop_last());
    assert(all.last() == parts.last());
    let f = |l: Seq<char>| without_trailing_cr(l);
    assert(all.drop_last().map_values(f) =~= seq![without_trailing_cr(line)]
        + parts.drop_last().map_values(f));
    assert(line.len() > 0 ==> line.drop_last() =~= line.take(line.len() - 1));
    assert(lines_of(line.push('\n') + rest) =~= seq![without_trailing_cr(line)] + lines_of(rest));
    assert(seq![line].drop_last().map_values(f) =~= Seq::<Seq<char>>::empty());
    assert(lines_of(line) =~= (if line.len() == 0 {
        Seq::empty()
    } else {
        seq![line]
    }));
}

/// Texts that differ only in the case of ASCII letters, character by
/// character, and no others, are the same but for it.
pub proof fn law_same_but_for_case(a: Seq<char>, b: Seq<char>)
    ensures
        same_ignoring_ascii_case(a, b) <==> a.len() == b.len() && forall|i: int|
            0 <= i < a.len() ==> (#[trigger] a[i] == b[i] || ('A' <= a[i] <= 'Z' && b[i] as int
                == a[i] as int + 32) || ('A' <= b[i] <= 'Z' && a[i] as int == b[i] as int + 32)),
{
    let x = ascii_lower(a);
    let y = ascii_lower(b);
    if same_ignoring_ascii_case(a, b) {
        assert(x.len() == a.len() && y.len() == b.len());
        assert forall|i: int| 0 <= i < a.len() implies (#[trigger] a[i] == b[i] || ('A' <= a[i]
            <= 'Z' && b[i] as int == a[i] as int + 32) || ('A' <= b[i] <= 'Z' && a[i] as int
            == b[i] as int + 32)) by {
            assert(x[i] == lower_char(a[i]));
            assert(y[i] == lower_char(b[i]));
        }
    }
    if a.len() == b.len() && forall|i: int|
        0 <= i < a.len() ==> (#[trigger] a[i] == b[i] || ('A' <= a[i] <= 'Z' && b[i] as int
            == a[i] as int + 32) || ('A' <= b[i] <= 'Z' && a[i] as int == b[i] as int + 32)) {
        assert forall|i: int| 0 <= i < x.len() implies x[i] == y[i] by {
            assert(x[i] == lower_char(a[i]));
            assert(y[i] == lower_char(b[i]));
        }
        assert(x =~= y);
    }
}

/// Parts are joined with the separator between each two.
pub proof fn law_joining(parts: Seq<Seq<char>>, last: Seq<char>, sep: Seq<char>)
    ensures
        joined(Seq::empty(), sep) == Seq::<char>::empty(),
        joined(seq![last], sep) == last,
        parts.len() > 0 ==> joined(parts.push(last), sep) == joined(parts, sep) + sep + last,
{
    assert(parts.push(last).drop_last() =~= parts);
}

/// A character that the pattern does not hold parts the text: what stands
/// before it and what stands behind it are replaced on their own.
pub proof fn lemma_replaced_parts(a: Seq<char>, c: char, b: Seq<char>, pat: Seq<char>, to: Seq<char>)
    requires
        pat.len() > 0,
        !pat.contains(c),
    ensures
        replaced(a + seq![c] + b, pat, to) == replaced(a, pat, to) + seq![c] + replaced(b, pat, to),
    decreases a.len(),
{
    let s = a + seq![c] + b;
    if a.len() == 0 {
        assert(s =~= seq![c] + b);
        assert(s.skip(1) =~= b);
        assert(pat.is_prefix_of(s) ==> pat[0] == s[0]);
        assert(replaced(s, pat, to) =~= replaced(a, pat, to) + seq![c] + replaced(b, pat, to));
    } else {
        if pat.is_prefix_of(s) {
            if pat.len() > a.len() {
                assert(pat[a.len() as int] == s[a.len() as int]);
                assert(false);
            }
            assert(pat =~= s.take(pat.len() as int));
            assert(a.take(pat.len() as int) =~= pat);
            assert(pat.is_prefix_of(a));
            let rest = a.skip(pat.len() as int);
            assert(s.skip(pat.len() as int) =~= rest + seq![c] + b);
            lemma_replaced_parts(rest, c, b, pat, to);
        } else {
            assert(!pat.is_prefix_of(a)) by {
                if pat.is_prefix_of(a) {
                    assert(pat =~= s.take(pat.len() as int));
                    assert(pat.is_prefix_of(s));
                }
            }
            let rest = a.skip(1);
            assert(s.skip(1) =~= rest + seq![c] + b);
            lemma_replaced_parts(rest, c, b, pat, to);
        }
        assert(replaced(s, pat, to) =~= replaced(a, pat, to) + seq![c] + replaced(b, pat, to));
    }
}

/// What does not hold the pattern stays, and the pattern itself is replaced.
pub proof fn lemma_replaced_whole(s: Seq<char>, pat: Seq<char>, to: Seq<char>)
    requires
        pat.len() > 0,
    ensures
        !has_text(s, pat) ==> replaced(s, pat, to) == s,
        s == pat ==> replaced(s, pat, to) == to,
    decreases s.len(),
{
    if s == pat {
        assert(s.skip(pat.len() as int) =~= Seq::<char>::empty());
        assert(pat.is_prefix_of(s));
        assert(replaced(Seq::<char>::empty(), pat, to) =~= Seq::<char>::empty());
        assert(replaced(s, pat, to) == to + replaced(s.skip(pat.len() as int), pat, to));
        assert(replaced(s, pat, to) =~= to);
    }
    if !has_text(s, pat) {
        if s.len() == 0 {
            assert(replaced(s, pat, to) =~= s);
        } else {
            assert(!pat.is_prefix_of(s)) by {
                if pat.is_prefix_of(s) {
                    assert(s.subrange(0, pat.len() as int) =~= pat);
                    assert(occurs_at(s, pat, 0));
                }
            }
            let rest = s.skip(1);
            assert(!has_text(rest, pat)) by {
                if has_text(rest, pat) {
                    let i = choose|i: int| occurs_at(rest, pat, i);
                    assert(s.subrange(i + 1, i + 1 + pat.len()) =~= rest.subrange(
                        i,
                        i + pat.len(),
                    ));
                    assert(occurs_at(s, pat, i + 1));
                }
            }
            lemma_replaced_whole(rest, pat, to);
            assert(seq![s[0]] + rest =~= s);
        }
    }
}

/// `to` cannot be part of an occurrence of `p`, whatever it is put between: it
/// does not hold `p`, nor `p` it, and neither ends as the other begins.
pub open spec fn stands_clear(to: Seq<char>, p: Seq<char>) -> bool {
    &&& to.len() > 0
    &&& !has_text(p, to)
    &&& !has_text(to, p)
    &&& forall|i: int| 0 <= i < to.len() ==> !(#[trigger] to.skip(i)).is_prefix_of(p)
    &&& forall|j: int| 0 <= j < p.len() ==> !(#[trigger] p.skip(j)).is_prefix_of(to)
}

proof fn lemma_replaced_starts(
    s: Seq<char>,
    q: Seq<char>,
    to: Seq<char>,
    p: Seq<char>,
    j: int,
)
    requires
        q.len() > 0,
        stands_clear(to, p),
        0 <= j <= p.len(),
        p.skip(j).is_prefix_of(replaced(s, q, to)),
    ensures
        p.skip(j).is_prefix_of(s),
    decreases s.len(),
{
    let u = p.skip(j);
    let f = replaced(s, q, to);
    if j < p.len() {
        assert(u.len() <= f.len());
        assert(s.len() > 0);
        if q.is_prefix_of(s) {
            let rest = replaced(s.skip(q.len() as int), q, to);
            assert(f == to + rest);
            if to.len() <= u.len() {
                assert(p.subrange(j, j + to.len()) =~= to) by {
                    assert forall|k: int| 0 <= k < to.len() implies p.subrange(j, j + to.len())[k]
                        == to[k] by {
                        assert(u[k] == f[k]);
                    }
                }
                assert(occurs_at(p, to, j));
            } else {
                assert(u.is_prefix_of(to)) by {
                    assert forall|k: int| 0 <= k < u.len() implies u[k] == to[k] by {
                        assert(u[k] == f[k]);
                    }
                    assert(u =~= to.take(u.len() as int));
                }
            }
            assert(false);
        } else {
            let rest = s.skip(1);
            let g = replaced(rest, q, to);
            assert(f == seq![s[0]] + g);
            assert(u[0] == f[0]);
            let v = p.skip(j + 1);
            assert(v =~= u.skip(1));
            assert(v.is_prefix_of(g)) by {
                assert forall|k: int| 0 <= k < v.len() implies v[k] == g[k] by {
                    assert(u[k + 1] == f[k + 1]);
                }
                assert(v =~= g.take(v.len() as int));
            }
            lemma_replaced_starts(rest, q, to, p, j + 1);
            assert(u =~= s.take(u.len() as int)) by {
                assert forall|k: int| 0 <= k < u.len() implies u[k] == s[k] by {
                    if k > 0 {
                        assert(v[k - 1] == rest[k - 1]);
                    }
                }
            }
        }
    }
}

/// Replacing by a text that stands clear of `p` leaves no `p` where there was
/// none, or where it is `p` that is replaced.
pub proof fn lemma_nothing_left(s: Seq<char>, q: Seq<char>, to: Seq<char>, p: Seq<char>)
    requires
        p.len() > 0,
        q.len() > 0,
        stands_clear(to, p),
        p == q || !has_text(s, p),
    ensures
        !has_text(replaced(s, q, to), p),
    decreases s.len(),
{
    let f = replaced(s, q, to);
    if has_text(f, p) {
        let i = choose|i: int| occurs_at(f, p, i);
        assert(f.subrange(i, i + p.len()) == p);
        assert forall|k: int| 0 <= k < p.len() implies f[i + k] == p[k] by {
            assert(f.subrange(i, i + p.len())[k] == p[k]);
        }
        if s.len() > 0 {
            if q.is_prefix_of(s) {
                let n: int = q.len() as int;
                let rest = s.skip(n);
                lemma_text_behind(s, p, n);
                lemma_nothing_left(rest, q, to, p);
                let g = replaced(rest, q, to);
                assert(f == to + g);
                if i >= to.len() {
                    assert(g.subrange(i - to.len(), i - to.len() + p.len()) =~= p);
                    assert(occurs_at(g, p, i - to.len()));
                } else if i + p.len() <= to.len() {
                    assert(to.subrange(i, i + p.len()) =~= p);
                    assert(occurs_at(to, p, i));
                } else {
                    let t = to.skip(i);
                    assert forall|k: int| 0 <= k < t.len() implies t[k] == p[k] by {
                        assert(f[i + k] == to[i + k]);
                    }
                    assert(t =~= p.take(t.len() as int));
                    assert(t.is_prefix_of(p));
                }
            } else {
                let rest = s.skip(1);
                lemma_text_behind(s, p, 1);
                lemma_nothing_left(rest, q, to, p);
                let g = replaced(rest, q, to);
                assert(f == seq![s[0]] + g);
                if i >= 1 {
                    assert(g.subrange(i - 1, i - 1 + p.len()) =~= p);
                    assert(occurs_at(g, p, i - 1));
                } else {
                    assert(p =~= f.take(p.len() as int));
                    assert(p.skip(0) =~= p);
                    lemma_replaced_starts(s, q, to, p, 0);
                    assert(s.subrange(0, p.len() as int) =~= p);
                    assert(occurs_at(s, p, 0));
                }
            }
        }
        assert(false);
    }
}

proof fn lemma_text_behind(s: Seq<char>, p: Seq<char>, n: int)
    requires
        0 <= n <= s.len(),
    ensures
        has_text(s.skip(n), p) ==> has_text(s, p),
{
    let rest = s.skip(n);
    if has_text(rest, p) {
        let i = choose|i: int| occurs_at(rest, p, i);
        assert(s.subrange(i + n, i + n + p.len()) =~= rest.subrange(i, i + p.len()));
        assert(occurs_at(s, p, i + n));
    }
}

} // verus!
