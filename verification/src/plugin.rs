//! The guard plugin that is installed into a repository's hooks.

use vstd::prelude::*;

use crate::numbers::digit_char;
use crate::plugin_template::{
    plugin_tail_text, plugin_template, plugin_template_text, HOOK_NAME_JSON_PLACE,
    HOOK_NAME_PLACE, PLUGIN_HEADER, PLUGIN_TITLE, PROJECT_JSON_PLACE, PROJECT_PLACE,
};
use crate::text::{char_replaced, replace_all, replace_char, replaced};
use crate::text::{
    has_text, lemma_nothing_left, lemma_replaced_parts, lemma_replaced_whole, occurs_at,
    stands_clear,
};

verus! {

/// How a character stands in a JSON string: quotes, backslashes and control
/// characters are escaped, everything else stands for itself.
pub open spec fn json_escape(c: char) -> Seq<char> {
    if c == '"' {
        seq!['\\', '"']
    } else if c == '\\' {
        seq!['\\', '\\']
    } else if c == '\x08' {
        seq!['\\', 'b']
    } else if c == '\t' {
        seq!['\\', 't']
    } else if c == '\n' {
        seq!['\\', 'n']
    } else if c == '\x0C' {
        seq!['\\', 'f']
    } else if c == '\r' {
        seq!['\\', 'r']
    } else if (c as u32) < 0x20 {
        seq![
            '\\',
            'u',
            '0',
            '0',
            digit_char((c as u32 / 16) as int),
            digit_char((c as u32 % 16) as int),
        ]
    } else {
        seq![c]
    }
}

pub open spec fn json_escaped(s: Seq<char>) -> Seq<char>
    decreases s.len(),
{
    if s.len() == 0 {
        Seq::empty()
    } else {
        json_escaped(s.drop_last()) + json_escape(s.last())
    }
}

/// A text as a JSON string.
pub open spec fn json_string(s: Seq<char>) -> Seq<char> {
    seq!['"'] + json_escaped(s) + seq!['"']
}

/// Calls `serde_json::to_string` on a text: it succeeds, and gives the text in
/// quotes with its quotes, backslashes and control characters escaped.
#[verifier::external_body]
fn to_json(s: &str) -> (r: Option<String>)
    ensures
        r is Some,
        r->0@ == json_string(s@),
{
    serde_json::to_string(s).ok()
}

/// The plugin: the template with the hook's name and the project filled in, as
/// text in comments, where line breaks become spaces, and as JSON strings in
/// the code.
pub open spec fn plugin_script(project: Seq<char>, hook_name: Seq<char>) -> Seq<char> {
    let one_line = char_replaced(char_replaced(project, '\n', ' '), '\r', ' ');
    let named = replaced(plugin_template_text(), "__HOOK_NAME_TEXT__"@, hook_name);
    let commented = replaced(named, "__PROJECT_TEXT__"@, one_line);
    let with_project = replaced(commented, "__PROJECT_JSON__"@, json_string(project));
    replaced(with_project, "__HOOK_NAME_JSON__"@, json_string(hook_name))
}

/// Renders the plugin that checks reservations in a hook.
pub fn render_guard_plugin_script(project: &str, hook_name: &str) -> (r: String)
    ensures
        r@ == plugin_script(project@, hook_name@),
{
    let project_json = match to_json(project) {
        Some(text) => text,
        None => "\"\"".to_owned(),
    };
    let hook_name_json = match to_json(hook_name) {
        Some(text) => text,
        None => "\"\"".to_owned(),
    };
    let no_feed = replace_char(project, '\n', ' ');
    let one_line = replace_char(no_feed.as_str(), '\r', ' ');
    proof {
        reveal_strlit("__HOOK_NAME_TEXT__");
        reveal_strlit("__PROJECT_TEXT__");
        reveal_strlit("__PROJECT_JSON__");
        reveal_strlit("__HOOK_NAME_JSON__");
    }
    let named = replace_all(plugin_template().as_str(), "__HOOK_NAME_TEXT__", hook_name);
    let commented = replace_all(named.as_str(), "__PROJECT_TEXT__", one_line.as_str());
    let with_project = replace_all(commented.as_str(), "__PROJECT_JSON__", project_json.as_str());
    replace_all(with_project.as_str(), "__HOOK_NAME_JSON__", hook_name_json.as_str())
}

proof fn lemma_escape_is_printable(c: char)
    ensures
        forall|i: int| 0 <= i < json_escape(c).len() ==> #[trigger] (json_escape(c)[i] as u32)
            >= 0x20,
{
}

/// A JSON string is one line: it holds no control character, whatever the
/// text holds, so a project's name cannot end the line that it is put into.
pub proof fn law_json_string_is_one_line(s: Seq<char>)
    ensures
        forall|i: int| 0 <= i < json_string(s).len() ==> #[trigger] (json_string(s)[i] as u32)
            >= 0x20,
{
    lemma_escaped_is_printable(s);
    let e = json_escaped(s);
    let j = json_string(s);
    assert forall|i: int| 0 <= i < j.len() implies #[trigger] (j[i] as u32) >= 0x20 by {
        if 0 < i < j.len() - 1 {
            assert(j[i] == e[i - 1]);
            assert(e[i - 1] as u32 >= 0x20);
        }
    }
}

proof fn lemma_escaped_is_printable(s: Seq<char>)
    ensures
        forall|i: int| 0 <= i < json_escaped(s).len() ==> #[trigger] (json_escaped(s)[i] as u32)
            >= 0x20,
    decreases s.len(),
{
    if s.len() > 0 {
        let before = json_escaped(s.drop_last());
        let last = json_escape(s.last());
        lemma_escaped_is_printable(s.drop_last());
        lemma_escape_is_printable(s.last());
        let all = json_escaped(s);
        assert forall|i: int| 0 <= i < all.len() implies #[trigger] (all[i] as u32) >= 0x20 by {
            if i < before.len() {
                assert(all[i] == before[i]);
                assert(before[i] as u32 >= 0x20);
            } else {
                assert(all[i] == last[i - before.len()]);
                assert(last[i - before.len()] as u32 >= 0x20);
            }
        }
    }
}

/// A text with all places filled in.
spec fn filled(s: Seq<char>, project: Seq<char>, hook_name: Seq<char>) -> Seq<char> {
    let one_line = char_replaced(char_replaced(project, '\n', ' '), '\r', ' ');
    let named = replaced(s, "__HOOK_NAME_TEXT__"@, hook_name);
    let commented = replaced(named, "__PROJECT_TEXT__"@, one_line);
    let with_project = replaced(commented, "__PROJECT_JSON__"@, json_string(project));
    replaced(with_project, "__HOOK_NAME_JSON__"@, json_string(hook_name))
}

/// The characters that places are made of.
pub open spec fn is_place_char(c: char) -> bool {
    c == '_' || 'A' <= c <= 'Z'
}

pub open spec fn is_place(p: Seq<char>) -> bool {
    ||| p == "__HOOK_NAME_TEXT__"@
    ||| p == "__PROJECT_TEXT__"@
    ||| p == "__PROJECT_JSON__"@
    ||| p == "__HOOK_NAME_JSON__"@
}

proof fn lemma_place_chars(p: Seq<char>)
    requires
        is_place(p),
    ensures
        p.len() == 16 || p.len() == 18,
        forall|i: int| 0 <= i < p.len() ==> is_place_char(#[trigger] p[i]),
        p[0] == '_' && p[1] == '_',
        p[p.len() - 1] == '_' && p[p.len() - 2] == '_',
{
    reveal_strlit("__HOOK_NAME_TEXT__");
    reveal_strlit("__PROJECT_TEXT__");
    reveal_strlit("__PROJECT_JSON__");
    reveal_strlit("__HOOK_NAME_JSON__");
}

proof fn lemma_filled_parts(
    a: Seq<char>,
    c: char,
    b: Seq<char>,
    project: Seq<char>,
    hook_name: Seq<char>,
)
    requires
        !is_place_char(c),
    ensures
        filled(a + seq![c] + b, project, hook_name) == filled(a, project, hook_name) + seq![c]
            + filled(b, project, hook_name),
{
    let one_line = char_replaced(char_replaced(project, '\n', ' '), '\r', ' ');
    let (p1, p2, p3, p4) = (
        "__HOOK_NAME_TEXT__"@,
        "__PROJECT_TEXT__"@,
        "__PROJECT_JSON__"@,
        "__HOOK_NAME_JSON__"@,
    );
    lemma_place_chars(p1);
    lemma_place_chars(p2);
    lemma_place_chars(p3);
    lemma_place_chars(p4);
    lemma_replaced_parts(a, c, b, p1, hook_name);
    let (a1, b1) = (replaced(a, p1, hook_name), replaced(b, p1, hook_name));
    lemma_replaced_parts(a1, c, b1, p2, one_line);
    let (a2, b2) = (replaced(a1, p2, one_line), replaced(b1, p2, one_line));
    lemma_replaced_parts(a2, c, b2, p3, json_string(project));
    let (a3, b3) = (
        replaced(a2, p3, json_string(project)),
        replaced(b2, p3, json_string(project)),
    );
    lemma_replaced_parts(a3, c, b3, p4, json_string(hook_name));
}

/// A text that is too short to hold a place stays.
proof fn lemma_filled_short(s: Seq<char>, project: Seq<char>, hook_name: Seq<char>)
    requires
        s.len() < 16,
    ensures
        filled(s, project, hook_name) == s,
{
    let one_line = char_replaced(char_replaced(project, '\n', ' '), '\r', ' ');
    let (p1, p2, p3, p4) = (
        "__HOOK_NAME_TEXT__"@,
        "__PROJECT_TEXT__"@,
        "__PROJECT_JSON__"@,
        "__HOOK_NAME_JSON__"@,
    );
    lemma_place_chars(p1);
    lemma_place_chars(p2);
    lemma_place_chars(p3);
    lemma_place_chars(p4);
    lemma_replaced_whole(s, p1, hook_name);
    lemma_replaced_whole(s, p2, one_line);
    lemma_replaced_whole(s, p3, json_string(project));
    lemma_replaced_whole(s, p4, json_string(hook_name));
}

/// No place holds another.
proof fn lemma_places_differ(s: Seq<char>, p: Seq<char>)
    requires
        is_place(s),
        is_place(p),
        s != p,
    ensures
        !has_text(s, p),
{
    reveal_strlit("__HOOK_NAME_TEXT__");
    reveal_strlit("__PROJECT_TEXT__");
    reveal_strlit("__PROJECT_JSON__");
    reveal_strlit("__HOOK_NAME_JSON__");
    if has_text(s, p) {
        let i = choose|i: int| occurs_at(s, p, i);
        let t = s.subrange(i, i + p.len());
        assert(t == p);
        assert(i == 0 || i == 1 || i == 2);
        assert(t[0] == s[i] && t[1] == s[i + 1] && t[2] == s[i + 2]);
        if i == 0 {
            if s.len() == p.len() {
                assert(t =~= s);
            }
        }
        assert(false);
    }
}

proof fn lemma_filled_places(project: Seq<char>, hook_name: Seq<char>)
    ensures
        filled("__HOOK_NAME_JSON__"@, project, hook_name) == json_string(hook_name),
        !has_text(json_string(project), "__HOOK_NAME_JSON__"@) ==> filled(
            "__PROJECT_JSON__"@,
            project,
            hook_name,
        ) == json_string(project),
        !hook_name.contains('_') ==> filled("__HOOK_NAME_TEXT__"@, project, hook_name) == hook_name,
        ({
            let one_line = char_replaced(char_replaced(project, '\n', ' '), '\r', ' ');
            !has_text(one_line, "__PROJECT_JSON__"@) && !has_text(one_line, "__HOOK_NAME_JSON__"@)
                ==> filled("__PROJECT_TEXT__"@, project, hook_name) == one_line
        }),
{
    let one_line = char_replaced(char_replaced(project, '\n', ' '), '\r', ' ');
    let (p1, p2, p3, p4) = (
        "__HOOK_NAME_TEXT__"@,
        "__PROJECT_TEXT__"@,
        "__PROJECT_JSON__"@,
        "__HOOK_NAME_JSON__"@,
    );
    reveal_strlit("__HOOK_NAME_TEXT__");
    reveal_strlit("__PROJECT_TEXT__");
    reveal_strlit("__PROJECT_JSON__");
    reveal_strlit("__HOOK_NAME_JSON__");
    let (h, j, k) = (hook_name, json_string(project), json_string(hook_name));
    assert(p1[12] == 'T' && p4[12] == 'J');
    assert(p2[10] == 'T' && p3[10] == 'J');
    assert(p1.len() == 18 && p4.len() == 18 && p2.len() == 16 && p3.len() == 16);
    lemma_places_differ(p4, p1);
    lemma_places_differ(p4, p2);
    lemma_places_differ(p4, p3);
    lemma_places_differ(p3, p1);
    lemma_places_differ(p3, p2);
    lemma_places_differ(p2, p1);
    lemma_replaced_whole(p4, p1, h);
    lemma_replaced_whole(p4, p2, one_line);
    lemma_replaced_whole(p4, p3, j);
    lemma_replaced_whole(p4, p4, k);
    lemma_replaced_whole(p3, p1, h);
    lemma_replaced_whole(p3, p2, one_line);
    lemma_replaced_whole(p3, p3, j);
    lemma_replaced_whole(j, p4, k);
    lemma_replaced_whole(p1, p1, h);
    if !h.contains('_') {
        lemma_no_place_without_its_start(h, p2);
        lemma_no_place_without_its_start(h, p3);
        lemma_no_place_without_its_start(h, p4);
        lemma_replaced_whole(h, p2, one_line);
        lemma_replaced_whole(h, p3, j);
        lemma_replaced_whole(h, p4, k);
    }
    lemma_replaced_whole(p2, p1, h);
    lemma_replaced_whole(p2, p2, one_line);
    lemma_replaced_whole(one_line, p3, j);
    lemma_replaced_whole(one_line, p4, k);
}

proof fn lemma_no_place_without_its_start(s: Seq<char>, p: Seq<char>)
    requires
        is_place(p),
        !s.contains('_'),
    ensures
        !has_text(s, p),
{
    lemma_place_chars(p);
    if has_text(s, p) {
        let i = choose|i: int| occurs_at(s, p, i);
        assert(s.subrange(i, i + p.len())[0] == s[i]);
        assert(s.contains(s[i]));
    }
}

proof fn lemma_text_between(a: Seq<char>, t: Seq<char>, b: Seq<char>)
    ensures
        has_text(a + t + b, t),
{
    let s = a + t + b;
    assert(s.subrange(a.len() as int, a.len() + t.len() as int) =~= t);
    assert(occurs_at(s, t, a.len() as int));
}

/// The plugin knows the hook that it runs in, and the project: it holds the
/// line that sets each, with the very name as a JSON string. The project must
/// not hold the text that stands for the hook's name.
pub proof fn law_the_plugin_knows_its_hook_and_project(
    project: &str,
    hook_name: &str,
    r: String,
)
    requires
        call_ensures(render_guard_plugin_script, (project, hook_name), r),
    ensures
        has_text(r@, "\nHOOK_NAME = "@ + json_string(hook_name@) + "\n"@),
        !has_text(json_string(project@), "__HOOK_NAME_JSON__"@) ==> has_text(
            r@,
            "\nPROJECT = "@ + json_string(project@) + "\n"@,
        ),
{
    let (p, h) = (project@, hook_name@);
    reveal_strlit("\n");
    reveal_strlit("PROJECT = ");
    reveal_strlit("HOOK_NAME = ");
    reveal_strlit("\nPROJECT = ");
    reveal_strlit("\nHOOK_NAME = ");
    let feed = seq!['\n'];
    assert("\n"@ =~= feed);
    let before = PLUGIN_TITLE@ + " ("@ + HOOK_NAME_PLACE@ + ")\n"@ + "# project: "@ + PROJECT_PLACE@
        + "\n"@ + PLUGIN_HEADER@;
    let w1 = seq!['P', 'R', 'O', 'J', 'E', 'C', 'T', ' ', '='];
    let w2 = seq!['H', 'O', 'O', 'K', '_', 'N', 'A', 'M', 'E', ' ', '='];
    let first = w1 + seq![' '] + PROJECT_JSON_PLACE@;
    let second = w2 + seq![' '] + HOOK_NAME_JSON_PLACE@;
    assert("PROJECT = "@ =~= w1 + seq![' ']);
    assert("HOOK_NAME = "@ =~= w2 + seq![' ']);
    let tail = plugin_tail_text();
    let behind = second + feed + tail;
    let all = plugin_template_text();
    assert(all =~= before + feed + (first + feed + behind));
    lemma_filled_parts(before, '\n', first + feed + behind, p, h);
    lemma_filled_parts(first, '\n', behind, p, h);
    lemma_filled_parts(second, '\n', tail, p, h);
    lemma_filled_parts(w1, ' ', PROJECT_JSON_PLACE@, p, h);
    lemma_filled_parts(w2, ' ', HOOK_NAME_JSON_PLACE@, p, h);
    lemma_filled_short(w1, p, h);
    lemma_filled_short(w2, p, h);
    lemma_filled_places(p, h);
    let fb = filled(before, p, h);
    let ff = filled(first, p, h);
    let ft = filled(tail, p, h);
    let fs = w2 + seq![' '] + json_string(h);
    assert(r@ == filled(all, p, h));
    assert(r@ == fb + feed + (ff + feed + (fs + feed + ft)));
    let hook_line = "\nHOOK_NAME = "@ + json_string(h) + "\n"@;
    assert(hook_line =~= feed + fs + feed);
    assert(r@ =~= (fb + feed + ff) + hook_line + ft);
    lemma_text_between(fb + feed + ff, hook_line, ft);
    if !has_text(json_string(p), "__HOOK_NAME_JSON__"@) {
        let project_line = "\nPROJECT = "@ + json_string(p) + "\n"@;
        assert(project_line =~= feed + ff + feed);
        assert(r@ =~= fb + project_line + (fs + feed + ft));
        lemma_text_between(fb, project_line, fs + feed + ft);
    }
}

/// The first lines of the plugin tell a reader the hook and the project, the
/// latter without line breaks.
pub proof fn law_the_plugin_is_titled(project: &str, hook_name: &str, r: String)
    requires
        call_ensures(render_guard_plugin_script, (project, hook_name), r),
        !hook_name@.contains('_'),
        ({
            let one_line = char_replaced(char_replaced(project@, '\n', ' '), '\r', ' ');
            !has_text(one_line, "__PROJECT_JSON__"@) && !has_text(one_line, "__HOOK_NAME_JSON__"@)
        }),
    ensures
        has_text(
            r@,
            " ("@ + hook_name@ + ")\n# project: "@ + char_replaced(
                char_replaced(project@, '\n', ' '),
                '\r',
                ' ',
            ) + "\n"@,
        ),
{
    let (p, h) = (project@, hook_name@);
    let one_line = char_replaced(char_replaced(p, '\n', ' '), '\r', ' ');
    let gap = Seq::<char>::empty();
    let mid = seq!['\n', '#', ' ', 'p', 'r', 'o', 'j', 'e', 'c', 't', ':'];
    let rest = lemma_template_begins();
    let third = PROJECT_PLACE@ + seq!['\n'] + rest;
    let second = mid + seq![' '] + third;
    let first = HOOK_NAME_PLACE@ + seq![')'] + second;
    lemma_filled_parts(PLUGIN_TITLE@, ' ', gap + seq!['('] + first, p, h);
    lemma_filled_parts(gap, '(', first, p, h);
    lemma_filled_parts(HOOK_NAME_PLACE@, ')', second, p, h);
    lemma_filled_parts(mid, ' ', third, p, h);
    lemma_filled_parts(PROJECT_PLACE@, '\n', rest, p, h);
    lemma_filled_short(gap, p, h);
    lemma_filled_short(mid, p, h);
    lemma_filled_places(p, h);
    lemma_title_line(filled(PLUGIN_TITLE@, p, h), h, one_line, filled(rest, p, h));
}

/// How the template begins, part by part.
proof fn lemma_template_begins() -> (rest: Seq<char>)
    ensures
        plugin_template_text() == PLUGIN_TITLE@ + seq![' '] + (Seq::<char>::empty() + seq!['('] + (
        HOOK_NAME_PLACE@ + seq![')'] + (seq![
            '\n',
            '#',
            ' ',
            'p',
            'r',
            'o',
            'j',
            'e',
            'c',
            't',
            ':',
        ] + seq![' '] + (PROJECT_PLACE@ + seq!['\n'] + rest)))),
{
    reveal_strlit("\n");
    reveal_strlit(" (");
    reveal_strlit(")\n");
    reveal_strlit("# project: ");
    let mid = seq!['\n', '#', ' ', 'p', 'r', 'o', 'j', 'e', 'c', 't', ':'];
    assert("\n"@ =~= seq!['\n']);
    assert(" ("@ =~= seq![' '] + seq!['(']);
    assert(")\n"@ + "# project: "@ =~= seq![')'] + mid + seq![' ']);
    let rest = PLUGIN_HEADER@ + "\n"@ + "PROJECT = "@ + PROJECT_JSON_PLACE@ + "\n"@
        + "HOOK_NAME = "@ + HOOK_NAME_JSON_PLACE@ + "\n"@ + plugin_tail_text();
    let front = PLUGIN_TITLE@ + " ("@ + HOOK_NAME_PLACE@;
    assert(plugin_template_text() =~= front + (")\n"@ + "# project: "@) + PROJECT_PLACE@ + "\n"@
        + rest);
    lemma_regroup(PLUGIN_TITLE@, HOOK_NAME_PLACE@, mid, PROJECT_PLACE@, rest);
    rest
}

proof fn lemma_regroup(t: Seq<char>, h: Seq<char>, mid: Seq<char>, p: Seq<char>, rest: Seq<char>)
    ensures
        t + (seq![' '] + seq!['(']) + h + (seq![')'] + mid + seq![' ']) + p + seq!['\n'] + rest == t
            + seq![' '] + (Seq::<char>::empty() + seq!['('] + (h + seq![')'] + (mid + seq![' '] + (p
            + seq!['\n'] + rest)))),
{
    assert(t + (seq![' '] + seq!['(']) + h + (seq![')'] + mid + seq![' ']) + p + seq!['\n'] + rest
        =~= t + seq![' '] + (Seq::<char>::empty() + seq!['('] + (h + seq![')'] + (mid + seq![' '] + (
    p + seq!['\n'] + rest)))));
}

proof fn lemma_title_line(t: Seq<char>, h: Seq<char>, p: Seq<char>, rest: Seq<char>)
    ensures
        has_text(
            t + seq![' '] + (Seq::<char>::empty() + seq!['('] + (h + seq![')'] + (seq![
                '\n',
                '#',
                ' ',
                'p',
                'r',
                'o',
                'j',
                'e',
                'c',
                't',
                ':',
            ] + seq![' '] + (p + seq!['\n'] + rest)))),
            " ("@ + h + ")\n# project: "@ + p + "\n"@,
        ),
{
    reveal_strlit("\n");
    reveal_strlit(" (");
    reveal_strlit(")\n# project: ");
    let mid = seq!['\n', '#', ' ', 'p', 'r', 'o', 'j', 'e', 'c', 't', ':'];
    assert("\n"@ =~= seq!['\n']);
    assert(" ("@ =~= seq![' '] + seq!['(']);
    assert(")\n# project: "@ =~= seq![')'] + mid + seq![' ']);
    let line = " ("@ + h + ")\n# project: "@ + p + "\n"@;
    lemma_regroup(t, h, mid, p, rest);
    assert(t + (seq![' '] + seq!['(']) + h + (seq![')'] + mid + seq![' ']) + p + seq!['\n'] + rest
        =~= t + line + rest);
    lemma_text_between(t, line, rest);
}

/// Two underscores in a row, which begin and end every place.
pub open spec fn has_double(s: Seq<char>) -> bool {
    exists|i: int| #![trigger s[i]] 0 <= i < s.len() - 1 && s[i] == '_' && s[i + 1] == '_'
}

proof fn lemma_clear_of_others(to: Seq<char>, p: Seq<char>)
    requires
        is_place(p),
        to.len() > 0,
        forall|i: int| 0 <= i < to.len() ==> !is_place_char(#[trigger] to[i]),
    ensures
        stands_clear(to, p),
{
    lemma_place_chars(p);
    if has_text(p, to) {
        let i = choose|i: int| occurs_at(p, to, i);
        assert(p.subrange(i, i + to.len())[0] == p[i]);
        assert(!is_place_char(to[0]));
    }
    if has_text(to, p) {
        let i = choose|i: int| occurs_at(to, p, i);
        assert(to.subrange(i, i + p.len())[0] == to[i]);
    }
    assert forall|i: int| 0 <= i < to.len() implies !(#[trigger] to.skip(i)).is_prefix_of(p) by {
        assert(to.skip(i)[0] == to[i]);
    }
    assert forall|j: int| 0 <= j < p.len() implies !(#[trigger] p.skip(j)).is_prefix_of(to) by {
        assert(p.skip(j)[0] == p[j]);
    }
}

proof fn lemma_clear_of_places(to: Seq<char>, p: Seq<char>, at: int)
    requires
        is_place(p),
        !has_double(to),
        0 <= at < to.len(),
        !is_place_char(to[at]),
        to[0] != '_',
        to[to.len() - 1] != '_',
    ensures
        stands_clear(to, p),
{
    lemma_place_chars(p);
    if has_text(p, to) {
        let i = choose|i: int| occurs_at(p, to, i);
        assert(p.subrange(i, i + to.len())[at] == p[i + at]);
    }
    if has_text(to, p) {
        let i = choose|i: int| occurs_at(to, p, i);
        let t = to.subrange(i, i + p.len());
        assert(t[0] == to[i] && t[1] == to[i + 1]);
        assert(has_double(to));
    }
    assert forall|i: int| 0 <= i < to.len() implies !(#[trigger] to.skip(i)).is_prefix_of(p) by {
        let t = to.skip(i);
        if t.is_prefix_of(p) {
            assert(t[0] == p[0] && t[0] == to[i]);
            if t.len() > 1 {
                assert(t[1] == p[1] && t[1] == to[i + 1]);
                assert(has_double(to));
            }
        }
    }
    assert forall|j: int| 0 <= j < p.len() implies !(#[trigger] p.skip(j)).is_prefix_of(to) by {
        let t = p.skip(j);
        if t.is_prefix_of(to) {
            let m: int = t.len() as int;
            assert(t[m - 1] == to[m - 1] && t[m - 1] == p[p.len() - 1]);
            if m > 1 {
                assert(t[m - 2] == to[m - 2] && t[m - 2] == p[p.len() - 2]);
                assert(to[m - 2] == '_' && to[m - 2 + 1] == '_');
                assert(has_double(to));
            }
        }
    }
}

proof fn lemma_escaped_underscores(s: Seq<char>)
    ensures
        json_escaped(s).len() > 0 ==> s.len() > 0 && (json_escaped(s).last() == '_' ==> s.last()
            == '_'),
        !has_double(s) ==> !has_double(json_escaped(s)),
    decreases s.len(),
{
    if s.len() > 0 {
        let shorter = s.drop_last();
        lemma_escaped_underscores(shorter);
        let before = json_escaped(shorter);
        let last = json_escape(s.last());
        let all = json_escaped(s);
        assert(all == before + last);
        assert(last.len() > 0);
        assert(last.contains('_') ==> s.last() == '_' && last =~= seq!['_']) by {
            if last.contains('_') {
                let k = choose|k: int| 0 <= k < last.len() && last[k] == '_';
                assert(last[k] == '_');
            }
        }
        assert(all.last() == last.last());
        assert(all.last() == '_' ==> last.contains('_')) by {
            if all.last() == '_' {
                assert(last[last.len() - 1] == '_');
            }
        }
        if !has_double(s) {
            assert(!has_double(shorter)) by {
                if has_double(shorter) {
                    let i = choose|i: int|
                        #![trigger shorter[i]]
                        0 <= i < shorter.len() - 1 && shorter[i] == '_' && shorter[i + 1] == '_';
                    assert(s[i] == '_' && s[i + 1] == '_');
                }
            }
            if has_double(all) {
                let i = choose|i: int|
                    #![trigger all[i]]
                    0 <= i < all.len() - 1 && all[i] == '_' && all[i + 1] == '_';
                if i + 1 < before.len() {
                    assert(before[i] == '_' && before[i + 1] == '_');
                } else {
                    assert(last[i + 1 - before.len()] == '_');
                    assert(last.contains('_'));
                    assert(i + 1 == before.len());
                    assert(before[i] == '_');
                    assert(shorter.last() == '_');
                    assert(s[s.len() - 2] == '_' && s[s.len() - 2 + 1] == '_');
                }
                assert(false);
            }
        }
    }
}

proof fn lemma_clear_json(s: Seq<char>, p: Seq<char>)
    requires
        is_place(p),
        !has_double(s),
    ensures
        stands_clear(json_string(s), p),
{
    lemma_escaped_underscores(s);
    let e = json_escaped(s);
    let j = json_string(s);
    assert(j[0] == '"' && j[j.len() - 1] == '"');
    if has_double(j) {
        let i = choose|i: int|
            #![trigger j[i]]
            0 <= i < j.len() - 1 && j[i] == '_' && j[i + 1] == '_';
        assert(e[i - 1] == '_' && e[i - 1 + 1] == '_');
    }
    lemma_clear_of_places(j, p, 0);
}

/// No place of the template is left in the plugin, nor does one arise, for a
/// hook that is named in small letters, with hyphens, and a project without
/// two underscores in a row, or one at its beginning or end, and with anything
/// but capital letters and underscores in it.
pub proof fn law_no_place_is_left(project: &str, hook_name: &str, at: int, r: String)
    requires
        call_ensures(render_guard_plugin_script, (project, hook_name), r),
        hook_name@.len() > 0,
        forall|i: int| 0 <= i < hook_name@.len() ==> !is_place_char(#[trigger] hook_name@[i]),
        !has_double(project@),
        0 <= at < project@.len(),
        !is_place_char(project@[at]),
        project@[0] != '_',
        project@[project@.len() - 1] != '_',
    ensures
        !has_text(r@, "__HOOK_NAME_TEXT__"@),
        !has_text(r@, "__PROJECT_TEXT__"@),
        !has_text(r@, "__PROJECT_JSON__"@),
        !has_text(r@, "__HOOK_NAME_JSON__"@),
{
    let one_line = char_replaced(char_replaced(project@, '\n', ' '), '\r', ' ');
    let (p1, p2, p3, p4) = (
        "__HOOK_NAME_TEXT__"@,
        "__PROJECT_TEXT__"@,
        "__PROJECT_JSON__"@,
        "__HOOK_NAME_JSON__"@,
    );
    let (h, j, k) = (hook_name@, json_string(project@), json_string(hook_name@));
    assert(one_line.len() == project@.len());
    assert forall|i: int| 0 <= i < one_line.len() implies ((#[trigger] one_line[i]) == '_'
        <==> project@[i] == '_') by {
    }
    assert(!has_double(one_line)) by {
        if has_double(one_line) {
            let i = choose|i: int|
                #![trigger one_line[i]]
                0 <= i < one_line.len() - 1 && one_line[i] == '_' && one_line[i + 1] == '_';
            assert(project@[i] == '_' && project@[i + 1] == '_');
        }
    }
    assert(!has_double(h)) by {
        if has_double(h) {
            let i = choose|i: int|
                #![trigger h[i]]
                0 <= i < h.len() - 1 && h[i] == '_' && h[i + 1] == '_';
            assert(!is_place_char(h[i]));
        }
    }
    let s0 = plugin_template_text();
    let s1 = replaced(s0, p1, h);
    let s2 = replaced(s1, p2, one_line);
    let s3 = replaced(s2, p3, j);
    lemma_place_chars(p1);
    lemma_place_chars(p2);
    lemma_place_chars(p3);
    lemma_place_chars(p4);
    lemma_clear_of_others(h, p1);
    lemma_clear_of_places(one_line, p1, at);
    lemma_clear_of_places(one_line, p2, at);
    lemma_clear_json(project@, p1);
    lemma_clear_json(project@, p2);
    lemma_clear_json(project@, p3);
    lemma_clear_json(h, p1);
    lemma_clear_json(h, p2);
    lemma_clear_json(h, p3);
    lemma_clear_json(h, p4);
    lemma_nothing_left(s0, p1, h, p1);
    lemma_nothing_left(s1, p2, one_line, p1);
    lemma_nothing_left(s1, p2, one_line, p2);
    lemma_nothing_left(s2, p3, j, p1);
    lemma_nothing_left(s2, p3, j, p2);
    lemma_nothing_left(s2, p3, j, p3);
    lemma_nothing_left(s3, p4, k, p1);
    lemma_nothing_left(s3, p4, k, p2);
    lemma_nothing_left(s3, p4, k, p3);
    lemma_nothing_left(s3, p4, k, p4);
}

/// In a JSON string a text stands between quotes, character by character, and
/// every character but quotes, backslashes and control characters stands for
/// itself.
pub proof fn law_json_strings_are_quoted(s: Seq<char>, c: char)
    ensures
        json_string(Seq::empty()) == seq!['"', '"'],
        json_string(s.push(c)) == json_string(s).drop_last() + json_string(
            seq![c],
        ).drop_first(),
        c != '"' && c != '\\' && (c as u32) >= 0x20 ==> json_string(seq![c]) == seq!['"', c, '"'],
        c == '"' || c == '\\' ==> json_string(seq![c]) == seq!['"', '\\', c, '"'],
        (forall|i: int|
            0 <= i < s.len() ==> #[trigger] s[i] != '"' && s[i] != '\\' && (s[i] as u32) >= 0x20)
            ==> json_string(s) == seq!['"'] + s + seq!['"'],
    decreases s.len(),
{
    let one = seq![c];
    assert(one.drop_last() =~= Seq::<char>::empty());
    assert(json_escaped(Seq::<char>::empty()) =~= Seq::<char>::empty());
    assert(json_escaped(one) =~= json_escape(c));
    assert(s.push(c).drop_last() =~= s);
    assert(json_string(Seq::<char>::empty()) =~= seq!['"', '"']);
    assert(json_string(s.push(c)) =~= json_string(s).drop_last() + json_string(one).drop_first());
    assert(c != '"' && c != '\\' && (c as u32) >= 0x20 ==> json_string(one) =~= seq!['"', c, '"']);
    assert(c == '"' || c == '\\' ==> json_string(one) =~= seq!['"', '\\', c, '"']);
    if forall|i: int|
        0 <= i < s.len() ==> #[trigger] s[i] != '"' && s[i] != '\\' && (s[i] as u32) >= 0x20 {
        if s.len() > 0 {
            let shorter = s.drop_last();
            law_json_strings_are_quoted(shorter, c);
            assert forall|i: int| 0 <= i < shorter.len() implies #[trigger] shorter[i] != '"'
                && shorter[i] != '\\' && (shorter[i] as u32) >= 0x20 by {
                assert(shorter[i] == s[i]);
            }
            assert(json_string(shorter) =~= seq!['"'] + shorter + seq!['"']);
            let e = json_escaped(shorter);
            assert(e =~= shorter) by {
                assert forall|i: int| 0 <= i < e.len() implies e[i] == shorter[i] by {
                    assert(json_string(shorter)[i + 1] == e[i]);
                }
                assert(json_string(shorter).len() == e.len() + 2);
            }
            assert(s[s.len() - 1] == s.last());
            assert(json_escaped(s) =~= s);
        }
        assert(json_string(s) =~= seq!['"'] + s + seq!['"']);
    }
}

} // verus!
