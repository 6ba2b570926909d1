//! Repository paths: normal form, glob detection and the built-in exemption.

use vstd::prelude::*;

use crate::text::{
    chars_of, char_replaced, join, joined, replace_char, same, split, split_on, starts_with, views,
};
use crate::text::{
    lemma_fields_without_separator, lemma_split_of_field, lemma_split_on_concat,
    lemma_split_on_nonempty,
};

verus! {

/// The directory of shared task state, which is never guarded.
pub const EXEMPT_DIRECTORY: &'static str = ".beads";

/// What `str::to_lowercase` makes of a text.
pub uninterp spec fn unicode_lower(s: Seq<char>) -> Seq<char>;

/// Calls `str::to_lowercase`, which maps the text by the Unicode lower-case
/// tables, whatever the locale. The result is named, not spelled out.
#[verifier::external_body]
pub(crate) fn to_lowercase(s: &str) -> (r: String)
    ensures
        r@ == unicode_lower(s@),
{
    s.to_lowercase()
}

/// The components that are left when empty ones and `.` are dropped and each
/// `..` takes the component before it away. At the root `..` has no effect.
pub open spec fn resolved(components: Seq<Seq<char>>) -> Seq<Seq<char>>
    decreases components.len(),
{
    if components.len() == 0 {
        Seq::empty()
    } else {
        let before = resolved(components.drop_last());
        let c = components.last();
        if c == ""@ || c == "."@ {
            before
        } else if c == ".."@ {
            if before.len() == 0 {
                before
            } else {
                before.drop_last()
            }
        } else {
            before.push(c)
        }
    }
}

/// The components of a path, with backslashes taken as slashes.
pub open spec fn path_components(path: Seq<char>) -> Seq<Seq<char>> {
    resolved(split_on(char_replaced(path, '\\', '/'), '/'))
}

/// The path with forward slashes, without a leading slash and with its
/// components resolved.
pub open spec fn normal_path(path: Seq<char>) -> Seq<char> {
    joined(path_components(path), "/"@)
}

/// The form in which paths and patterns are matched.
pub open spec fn normalized(path: Seq<char>, ignorecase: bool) -> Seq<char> {
    if ignorecase {
        unicode_lower(normal_path(path))
    } else {
        normal_path(path)
    }
}

pub open spec fn has_glob_char(s: Seq<char>) -> bool {
    s.contains('*') || s.contains('?') || s.contains('[') || s.contains('{')
}

/// `inner` is `outer` or lies below it.
pub open spec fn is_at_or_below(inner: Seq<char>, outer: Seq<char>) -> bool {
    inner == outer || (outer.is_prefix_of(inner) && inner.len() > outer.len()
        && inner[outer.len() as int] == '/')
}

pub open spec fn is_exempt(path: Seq<char>, ignorecase: bool) -> bool {
    is_at_or_below(normalized(path, ignorecase), EXEMPT_DIRECTORY@)
}

/// Normalizes a path for matching: forward slashes, no leading `./` or `/`,
/// and `..` resolved, clamped at the root.
pub fn normalize_path(path: &str, ignorecase: bool) -> (r: String)
    ensures
        r@ == normalized(path@, ignorecase),
{
    let slashed = replace_char(path, '\\', '/');
    let components = split(slashed.as_str(), '/');
    let ghost cv = views(components@);
    let mut parts: Vec<String> = Vec::new();
    let mut i: usize = 0;
    assert(views(parts@) =~= resolved(cv.take(0)));
    while i < components.len()
        invariant
            i <= components@.len(),
            cv == views(components@),
            views(parts@) == resolved(cv.take(i as int)),
        decreases components@.len() - i,
    {
        let ghost next = cv.take(i + 1);
        let ghost before = views(parts@);
        assert(next.drop_last() =~= cv.take(i as int));
        let c = components[i].as_str();
        assert(next.last() == c@);
        if same(c, "") || same(c, ".") {
        } else if same(c, "..") {
            if parts.len() > 0 {
                let _ = parts.pop();
                assert(views(parts@) =~= before.drop_last());
            }
        } else {
            parts.push(c.to_owned());
            assert(views(parts@) =~= before.push(c@));
        }
        i = i + 1;
    }
    assert(cv.take(i as int) =~= cv);
    let normal = join(&parts, "/");
    if ignorecase {
        to_lowercase(normal.as_str())
    } else {
        normal
    }
}

/// Whether a pattern holds a glob metacharacter.
pub fn contains_glob(s: &str) -> (r: bool)
    ensures
        r == has_glob_char(s@),
{
    let cs = chars_of(s);
    let mut i: usize = 0;
    while i < cs.len()
        invariant
            i <= cs@.len(),
            cs@ == s@,
            forall|k: int| 0 <= k < i ==> !(s@[k] == '*' || s@[k] == '?' || s@[k] == '[' || s@[k] == '{'),
        decreases cs@.len() - i,
    {
        let c = cs[i];
        if c == '*' || c == '?' || c == '[' || c == '{' {
            assert(s@.contains(s@[i as int]));
            return true;
        }
        i = i + 1;
    }
    false
}

/// Whether a path is one that reservations never block.
pub fn is_default_exempt_path(path: &str, ignorecase: bool) -> (r: bool)
    ensures
        r == is_exempt(path@, ignorecase),
{
    let normal = normalize_path(path, ignorecase);
    at_or_below(normal.as_str(), EXEMPT_DIRECTORY)
}

/// Whether `inner` is `outer` or lies below it.
pub fn at_or_below(inner: &str, outer: &str) -> (r: bool)
    ensures
        r == is_at_or_below(inner@, outer@),
{
    if same(inner, outer) {
        return true;
    }
    if !starts_with(inner, outer) {
        return false;
    }
    let cs = chars_of(inner);
    let n: usize = chars_of(outer).len();
    n < cs.len() && cs[n] == '/'
}

/// Normalizes a path; the entry point for input generators.
pub fn fuzz_normalize_path(path: &str, ignorecase: bool) -> (r: String)
    ensures
        r@ == normalized(path@, ignorecase),
{
    normalize_path(path, ignorecase)
}

/// Looks for glob metacharacters; the entry point for input generators.
pub fn fuzz_contains_glob(pattern: &str) -> (r: bool)
    ensures
        r == has_glob_char(pattern@),
{
    contains_glob(pattern)
}

/// A component that stands for itself: not empty, not `.`, not `..`, and
/// without a separator in it.
pub open spec fn is_plain_component(c: Seq<char>) -> bool {
    c != ""@ && c != "."@ && c != ".."@ && !c.contains('/')
}

proof fn lemma_resolved_plain(components: Seq<Seq<char>>)
    requires
        forall|i: int| 0 <= i < components.len() ==> !(#[trigger] components[i]).contains('/'),
    ensures
        forall|i: int| 0 <= i < resolved(components).len() ==> is_plain_component(
            #[trigger] resolved(components)[i],
        ),
    decreases components.len(),
{
    if components.len() > 0 {
        let shorter = components.drop_last();
        assert forall|i: int| 0 <= i < shorter.len() implies !(#[trigger] shorter[i]).contains('/') by {
            assert(shorter[i] == components[i]);
        }
        lemma_resolved_plain(shorter);
        let before = resolved(shorter);
        let after = resolved(components);
        assert forall|i: int| 0 <= i < after.len() implies is_plain_component(#[trigger] after[i]) by {
            if i < before.len() {
                assert(after[i] == before[i]);
            } else {
                assert(after[i] == components[components.len() - 1]);
            }
        }
    }
}

proof fn lemma_resolved_of_plain(parts: Seq<Seq<char>>)
    requires
        forall|i: int| 0 <= i < parts.len() ==> is_plain_component(#[trigger] parts[i]),
    ensures
        resolved(parts) == parts,
    decreases parts.len(),
{
    if parts.len() > 0 {
        let shorter = parts.drop_last();
        assert forall|i: int| 0 <= i < shorter.len() implies is_plain_component(#[trigger] shorter[i]) by {
            assert(shorter[i] == parts[i]);
        }
        lemma_resolved_of_plain(shorter);
        assert(is_plain_component(parts[parts.len() - 1]));
        assert(shorter.push(parts.last()) =~= parts);
    } else {
        assert(resolved(parts) =~= parts);
    }
}

pub proof fn lemma_split_of_joined(parts: Seq<Seq<char>>)
    requires
        parts.len() > 0,
        forall|i: int| 0 <= i < parts.len() ==> !(#[trigger] parts[i]).contains('/'),
    ensures
        split_on(joined(parts, "/"@), '/') == parts,
    decreases parts.len(),
{
    reveal_strlit("/");
    if parts.len() == 1 {
        assert(!parts[0].contains('/'));
        lemma_split_of_field(parts[0], '/');
        assert(seq![parts[0]] =~= parts);
    } else {
        let shorter = parts.drop_last();
        assert forall|i: int| 0 <= i < shorter.len() implies !(#[trigger] shorter[i]).contains('/') by {
            assert(shorter[i] == parts[i]);
        }
        lemma_split_of_joined(shorter);
        let a = joined(shorter, "/"@);
        let b = parts.last();
        assert(!parts[parts.len() - 1].contains('/'));
        lemma_split_of_field(b, '/');
        assert(joined(parts, "/"@) =~= a.push('/') + b);
        lemma_split_on_concat(a, b, '/');
        assert(shorter + seq![b] =~= parts);
    }
}

proof fn lemma_joined_has_no_backslash(parts: Seq<Seq<char>>)
    requires
        forall|i: int| 0 <= i < parts.len() ==> !(#[trigger] parts[i]).contains('\\'),
    ensures
        !joined(parts, "/"@).contains('\\'),
    decreases parts.len(),
{
    reveal_strlit("/");
    let j = joined(parts, "/"@);
    if parts.len() == 1 {
        assert(!parts[0].contains('\\'));
    } else if parts.len() > 1 {
        let shorter = parts.drop_last();
        assert forall|i: int| 0 <= i < shorter.len() implies !(#[trigger] shorter[i]).contains('\\') by {
            assert(shorter[i] == parts[i]);
        }
        lemma_joined_has_no_backslash(shorter);
        let a = joined(shorter, "/"@);
        let b = parts[parts.len() - 1];
        assert(!b.contains('\\'));
        if j.contains('\\') {
            let k = choose|k: int| 0 <= k < j.len() && j[k] == '\\';
            if k < a.len() {
                assert(a[k] == '\\');
            } else if k > a.len() {
                assert(b[k - a.len() - 1] == '\\');
            }
        }
    }
}

proof fn lemma_fields_keep_absence(s: Seq<char>, sep: char, c: char)
    requires
        !s.contains(c),
    ensures
        forall|i: int| 0 <= i < split_on(s, sep).len() ==> !(#[trigger] split_on(s, sep)[i]).contains(c),
    decreases s.len(),
{
    lemma_split_on_nonempty(s, sep);
    if s.len() > 0 {
        let shorter = s.drop_last();
        if shorter.contains(c) {
            let k = choose|k: int| 0 <= k < shorter.len() && shorter[k] == c;
            assert(s[k] == c);
        }
        assert(s.contains(s[s.len() - 1]));
        lemma_fields_keep_absence(shorter, sep, c);
        lemma_split_on_nonempty(shorter, sep);
        let before = split_on(shorter, sep);
        let fields = split_on(s, sep);
        assert forall|i: int| 0 <= i < fields.len() implies !(#[trigger] fields[i]).contains(c) by {
            if i < before.len() - 1 || (s.last() == sep && i < before.len()) {
                assert(fields[i] == before[i]);
            } else if s.last() != sep {
                let grown = before.last().push(s.last());
                assert(!before[before.len() - 1].contains(c));
                if grown.contains(c) {
                    let k = choose|k: int| 0 <= k < grown.len() && grown[k] == c;
                    assert(before.last()[k] == c);
                }
            }
        }
    }
}

proof fn lemma_resolved_keeps_absence(components: Seq<Seq<char>>, c: char)
    requires
        forall|i: int| 0 <= i < components.len() ==> !(#[trigger] components[i]).contains(c),
    ensures
        forall|i: int| 0 <= i < resolved(components).len() ==> !(#[trigger] resolved(components)[i]).contains(c),
    decreases components.len(),
{
    if components.len() > 0 {
        let shorter = components.drop_last();
        assert forall|i: int| 0 <= i < shorter.len() implies !(#[trigger] shorter[i]).contains(c) by {
            assert(shorter[i] == components[i]);
        }
        lemma_resolved_keeps_absence(shorter, c);
        let before = resolved(shorter);
        let after = resolved(components);
        assert forall|i: int| 0 <= i < after.len() implies !(#[trigger] after[i]).contains(c) by {
            if i < before.len() {
                assert(after[i] == before[i]);
            } else {
                assert(after[i] == components[components.len() - 1]);
            }
        }
    }
}

/// The components of a normal path are plain: none is empty, `.` or `..`, and
/// none holds a slash or a backslash.
pub proof fn law_normal_components_are_plain(path: Seq<char>)
    ensures
        forall|i: int| 0 <= i < path_components(path).len() ==> is_plain_component(
            #[trigger] path_components(path)[i],
        ) && !path_components(path)[i].contains('\\'),
{
    let slashed = char_replaced(path, '\\', '/');
    let fields = split_on(slashed, '/');
    lemma_fields_without_separator(slashed, '/');
    lemma_resolved_plain(fields);
    assert(!slashed.contains('\\'));
    lemma_fields_keep_absence(slashed, '/', '\\');
    lemma_resolved_keeps_absence(fields, '\\');
}

/// A normal path holds no backslash.
pub proof fn law_normal_path_holds_no_backslash(path: Seq<char>)
    ensures
        !normal_path(path).contains('\\'),
{
    law_normal_components_are_plain(path);
    lemma_joined_has_no_backslash(path_components(path));
}

/// Normalizing a normal path changes nothing.
pub proof fn law_normal_path_is_idempotent(path: Seq<char>)
    ensures
        normal_path(normal_path(path)) == normal_path(path),
{
    law_normal_components_are_plain(path);
    let parts = path_components(path);
    let n = normal_path(path);
    assert forall|i: int| 0 <= i < parts.len() implies !(#[trigger] parts[i]).contains('\\') by {
    }
    lemma_joined_has_no_backslash(parts);
    assert(char_replaced(n, '\\', '/') =~= n) by {
        assert forall|k: int| 0 <= k < n.len() implies char_replaced(n, '\\', '/')[k] == n[k] by {
            assert(n.contains(n[k]));
        }
    }
    if parts.len() == 0 {
        reveal_strlit("");
        reveal_strlit(".");
        reveal_strlit("..");
        assert(n =~= Seq::<char>::empty());
        let fields = split_on(n, '/');
        assert(fields =~= seq![Seq::<char>::empty()]);
        assert(fields.last() =~= ""@);
        assert(fields.drop_last() =~= Seq::<Seq<char>>::empty());
        assert(resolved(fields.drop_last()).len() == 0);
        assert(resolved(fields) =~= parts);
    } else {
        assert forall|i: int| 0 <= i < parts.len() implies !(#[trigger] parts[i]).contains('/') by {
        }
        lemma_split_of_joined(parts);
        lemma_resolved_of_plain(parts);
    }
}

proof fn lemma_resolved_skips_clamped(first: Seq<char>, rest: Seq<Seq<char>>)
    requires
        first == ""@ || first == "."@ || first == ".."@,
    ensures
        resolved(seq![first] + rest) == resolved(rest),
    decreases rest.len(),
{
    let all = seq![first] + rest;
    if rest.len() == 0 {
        assert(all.drop_last() =~= rest);
        assert(all.last() == first);
        assert(resolved(all) =~= resolved(rest));
    } else {
        lemma_resolved_skips_clamped(first, rest.drop_last());
        assert(all.drop_last() =~= seq![first] + rest.drop_last());
        assert(all.last() == rest.last());
    }
}

/// A leading slash, `./` or `../` makes no difference: traversal is clamped
/// at the root, so no path escapes it.
pub proof fn law_leading_traversal_is_clamped(prefix: Seq<char>, path: Seq<char>)
    requires
        prefix == ""@ || prefix == "."@ || prefix == ".."@,
    ensures
        normal_path(prefix.push('/') + path) == normal_path(path),
{
    reveal_strlit("");
    reveal_strlit(".");
    reveal_strlit("..");
    let whole = char_replaced(prefix.push('/') + path, '\\', '/');
    let rest = char_replaced(path, '\\', '/');
    assert(whole =~= prefix.push('/') + rest);
    lemma_split_on_concat(prefix, rest, '/');
    assert(!prefix.contains('/'));
    lemma_split_of_field(prefix, '/');
    lemma_resolved_skips_clamped(prefix, split_on(rest, '/'));
}

/// Backslashes and slashes are the same separator.
pub proof fn law_backslash_is_a_slash(path: Seq<char>)
    ensures
        normal_path(path) == normal_path(char_replaced(path, '\\', '/')),
{
    let slashed = char_replaced(path, '\\', '/');
    assert(char_replaced(slashed, '\\', '/') =~= slashed);
}

/// A path that is made of plain components is its own normal form.
pub proof fn law_plain_paths_stay(parts: Seq<Seq<char>>)
    requires
        parts.len() > 0,
        forall|i: int|
            0 <= i < parts.len() ==> is_plain_component(#[trigger] parts[i]) && !parts[i].contains(
                '\\',
            ),
    ensures
        path_components(joined(parts, "/"@)) == parts,
        normal_path(joined(parts, "/"@)) == joined(parts, "/"@),
{
    let n = joined(parts, "/"@);
    lemma_joined_has_no_backslash(parts);
    assert(char_replaced(n, '\\', '/') =~= n) by {
        assert forall|k: int| 0 <= k < n.len() implies char_replaced(n, '\\', '/')[k] == n[k] by {
            assert(n.contains(n[k]));
        }
    }
    lemma_split_of_joined(parts);
    lemma_resolved_of_plain(parts);
}

/// A component behind a slash: a plain one is added, an empty one or `.`
/// changes nothing, and `..` takes the component before it away, at the root
/// none.
pub proof fn law_components_are_taken_one_by_one(path: Seq<char>, c: Seq<char>)
    requires
        !c.contains('/'),
        !c.contains('\\'),
    ensures
        is_plain_component(c) ==> path_components(path.push('/') + c) == path_components(path).push(
            c,
        ),
        c.len() == 0 || c == seq!['.'] ==> path_components(path.push('/') + c) == path_components(
            path,
        ),
        c == seq!['.', '.'] ==> path_components(path.push('/') + c) == (if path_components(
            path,
        ).len() == 0 {
            Seq::empty()
        } else {
            path_components(path).drop_last()
        }),
{
    reveal_strlit("");
    reveal_strlit(".");
    reveal_strlit("..");
    let whole = char_replaced(path.push('/') + c, '\\', '/');
    let head = char_replaced(path, '\\', '/');
    assert(whole =~= head.push('/') + c) by {
        assert forall|k: int| 0 <= k < c.len() implies #[trigger] c[k] != '\\' by {
            assert(c.contains(c[k]));
        }
    }
    lemma_split_on_concat(head, c, '/');
    lemma_split_of_field(c, '/');
    let fields = split_on(head, '/');
    let all = fields + seq![c];
    assert(all.drop_last() =~= fields);
    assert(all.last() == c);
    assert(c.len() == 0 ==> c =~= ""@);
    assert(c == seq!['.'] ==> c =~= "."@);
    assert(c == seq!['.', '.'] ==> c =~= ".."@);
    assert(resolved(fields).len() == 0 ==> resolved(fields) =~= Seq::<Seq<char>>::empty());
}

/// A path without a slash has at most one component.
pub proof fn law_a_lone_component(c: Seq<char>)
    requires
        !c.contains('/'),
        !c.contains('\\'),
    ensures
        is_plain_component(c) ==> path_components(c) == seq![c],
        c.len() == 0 || c == seq!['.'] || c == seq!['.', '.'] ==> path_components(c).len() == 0,
{
    reveal_strlit("");
    reveal_strlit(".");
    reveal_strlit("..");
    assert(char_replaced(c, '\\', '/') =~= c) by {
        assert forall|k: int| 0 <= k < c.len() implies #[trigger] c[k] != '\\' by {
            assert(c.contains(c[k]));
        }
    }
    lemma_split_of_field(c, '/');
    assert(seq![c].drop_last() =~= Seq::<Seq<char>>::empty());
    assert(seq![c].last() == c);
    assert(c.len() == 0 ==> c =~= ""@);
    assert(c == seq!['.'] ==> c =~= "."@);
    assert(c == seq!['.', '.'] ==> c =~= ".."@);
    assert(resolved(Seq::<Seq<char>>::empty()) =~= Seq::<Seq<char>>::empty());
    assert(Seq::<Seq<char>>::empty().push(c) =~= seq![c]);
}

/// Paths are matched by their components with slashes between them, and in
/// lower case where case is ignored.
pub proof fn law_paths_are_matched_by_their_components(path: Seq<char>)
    ensures
        normalized(path, false) == joined(path_components(path), "/"@),
        normalized(path, true) == unicode_lower(joined(path_components(path), "/"@)),
{
}

/// A glob is told by one of four characters.
pub proof fn law_globs_are_told_by_four_characters(s: Seq<char>)
    ensures
        has_glob_char(s) <==> exists|i: int|
            0 <= i < s.len() && (#[trigger] s[i] == '*' || s[i] == '?' || s[i] == '[' || s[i]
                == '{'),
{
    if exists|i: int|
        0 <= i < s.len() && (#[trigger] s[i] == '*' || s[i] == '?' || s[i] == '[' || s[i] == '{') {
        let i = choose|i: int|
            0 <= i < s.len() && (#[trigger] s[i] == '*' || s[i] == '?' || s[i] == '[' || s[i]
                == '{');
        assert(s.contains(s[i]));
    }
    if has_glob_char(s) {
        let c = if s.contains('*') {
            '*'
        } else if s.contains('?') {
            '?'
        } else if s.contains('[') {
            '['
        } else {
            '{'
        };
        let i = choose|i: int| 0 <= i < s.len() && s[i] == c;
        assert(s[i] == c);
    }
}

/// The components of two lists behind each other.
pub proof fn lemma_joined_concat(a: Seq<Seq<char>>, b: Seq<Seq<char>>)
    requires
        a.len() > 0,
        b.len() > 0,
    ensures
        joined(a + b, "/"@) == joined(a, "/"@).push('/') + joined(b, "/"@),
    decreases b.len(),
{
    reveal_strlit("/");
    let all = a + b;
    if b.len() == 1 {
        assert(all.drop_last() =~= a);
        assert(joined(all, "/"@) =~= joined(a, "/"@).push('/') + b[0]);
    } else {
        let shorter = b.drop_last();
        lemma_joined_concat(a, shorter);
        assert(all.drop_last() =~= a + shorter);
        assert(joined(all, "/"@) =~= joined(a, "/"@).push('/') + joined(b, "/"@));
    }
}

/// One path lies below another, told by the text, exactly where the components
/// of the other are the first of its own and it has more.
pub proof fn lemma_below_by_components(inner: Seq<Seq<char>>, outer: Seq<Seq<char>>)
    requires
        inner.len() > 0,
        outer.len() > 0,
        forall|i: int| 0 <= i < inner.len() ==> !(#[trigger] inner[i]).contains('/'),
        forall|i: int| 0 <= i < outer.len() ==> !(#[trigger] outer[i]).contains('/'),
    ensures
        (joined(outer, "/"@).is_prefix_of(joined(inner, "/"@)) && joined(inner, "/"@).len()
            > joined(outer, "/"@).len() && joined(inner, "/"@)[joined(outer, "/"@).len() as int]
            == '/') <==> (outer.is_prefix_of(inner) && outer.len() < inner.len()),
        joined(inner, "/"@) == joined(outer, "/"@) <==> inner == outer,
{
    let i = joined(inner, "/"@);
    let o = joined(outer, "/"@);
    lemma_split_of_joined(inner);
    lemma_split_of_joined(outer);
    if o.is_prefix_of(i) && i.len() > o.len() && i[o.len() as int] == '/' {
        let t = i.skip(o.len() as int + 1);
        assert(i =~= o.push('/') + t);
        lemma_split_on_concat(o, t, '/');
        lemma_split_on_nonempty(t, '/');
        assert(inner =~= outer + split_on(t, '/'));
    }
    if outer.is_prefix_of(inner) && outer.len() < inner.len() {
        let rest = inner.skip(outer.len() as int);
        assert(inner =~= outer + rest);
        lemma_joined_concat(outer, rest);
        assert(i[o.len() as int] == '/');
    }
}

/// The directory of shared task state, and what lies below it, is exempt, and
/// nothing else: the first component decides.
pub proof fn law_exempt_by_the_first_component(path: Seq<char>)
    ensures
        is_exempt(path, false) <==> path_components(path).len() > 0 && path_components(path)[0]
            == ".beads"@,
{
    reveal_strlit(".beads");
    law_normal_components_are_plain(path);
    let parts = path_components(path);
    let n = joined(parts, "/"@);
    let one = seq![".beads"@];
    if parts.len() > 0 {
        assert forall|i: int| 0 <= i < parts.len() implies !(#[trigger] parts[i]).contains('/') by {
        }
        assert(!".beads"@.contains('/'));
        lemma_below_by_components(parts, one);
        assert(joined(one, "/"@) == ".beads"@);
        if parts[0] == ".beads"@ {
            assert(parts.len() == 1 ==> parts =~= one);
            assert(one.is_prefix_of(parts)) by {
                assert(parts.take(1) =~= one);
            }
        }
        if one.is_prefix_of(parts) {
            assert(parts[0] == one[0]);
        }
    }
}

proof fn lemma_join_of_split(s: Seq<char>)
    ensures
        joined(split_on(s, '/'), "/"@) == s,
    decreases s.len(),
{
    reveal_strlit("/");
    lemma_split_on_nonempty(s, '/');
    let fields = split_on(s, '/');
    if s.len() == 0 {
        assert(fields =~= seq![Seq::<char>::empty()]);
        assert(joined(fields, "/"@) =~= s);
    } else {
        let shorter = s.drop_last();
        lemma_split_on_nonempty(shorter, '/');
        lemma_join_of_split(shorter);
        let before = split_on(shorter, '/');
        if s.last() == '/' {
            assert(fields.drop_last() =~= before);
            assert(joined(fields, "/"@) =~= s);
        } else {
            assert(fields.drop_last() =~= before.drop_last());
            assert(fields.last() == before.last().push(s.last()));
            if before.len() == 1 {
                assert(fields[0] == before.last().push(s.last()));
                assert(joined(fields, "/"@) =~= s);
            } else {
                let front = joined(before.drop_last(), "/"@) + "/"@;
                assert(joined(before, "/"@) == front + before.last());
                assert(joined(fields, "/"@) == front + fields.last());
                assert(joined(fields, "/"@) =~= shorter.push(s.last()));
                assert(shorter.push(s.last()) =~= s);
            }
        }
    }
}

/// One text lies below another, at a slash, exactly where the parts of the
/// other between slashes are the first of its own and it has more.
pub proof fn lemma_below_by_parts(inner: Seq<char>, outer: Seq<char>)
    ensures
        (outer.is_prefix_of(inner) && inner.len() > outer.len() && inner[outer.len() as int]
            == '/') <==> (split_on(outer, '/').is_prefix_of(split_on(inner, '/')) && split_on(
            outer,
            '/',
        ).len() < split_on(inner, '/').len()),
{
    lemma_join_of_split(inner);
    lemma_join_of_split(outer);
    lemma_split_on_nonempty(inner, '/');
    lemma_split_on_nonempty(outer, '/');
    lemma_fields_without_separator(inner, '/');
    lemma_fields_without_separator(outer, '/');
    lemma_below_by_components(split_on(inner, '/'), split_on(outer, '/'));
}

/// The parts of a normal path between slashes are its components, except that
/// the root has none.
pub proof fn law_normal_paths_split_into_their_components(path: Seq<char>)
    ensures
        path_components(path).len() > 0 ==> split_on(normalized(path, false), '/')
            == path_components(path),
        path_components(path).len() == 0 <==> normalized(path, false).len() == 0,
{
    law_normal_components_are_plain(path);
    let parts = path_components(path);
    if parts.len() > 0 {
        assert forall|i: int| 0 <= i < parts.len() implies !(#[trigger] parts[i]).contains('/') by {
        }
        lemma_split_of_joined(parts);
        reveal_strlit("");
        assert(is_plain_component(parts[0]));
        if normalized(path, false).len() == 0 {
            let n = normalized(path, false);
            assert(n =~= Seq::<char>::empty());
            assert(split_on(n, '/') =~= seq![Seq::<char>::empty()]);
            assert(parts[0] =~= ""@);
        }
    }
}

} // verus!
