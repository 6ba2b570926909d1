//! Which paths touch reservations of other agents.

use vstd::prelude::*;

use crate::guard::{Conflict, FileReservationRecord, GuardConflict, GuardError, GuardResult};
use crate::paths::{has_glob_char, is_default_exempt_path, is_exempt, normalize_path, normalized};
use crate::paths::{lemma_below_by_parts, to_lowercase, unicode_lower};
use crate::paths::{
    law_normal_path_holds_no_backslash, law_normal_paths_split_into_their_components,
    lemma_split_of_joined, path_components,
};
use crate::text::{chars_of, eq_ignore_ascii_case, occurs, same_ignoring_ascii_case, views};
use crate::text::{joined, split_on};

verus! {

/// `globset::GlobSetBuilder`, which collects globs.
#[verifier::external_type_specification]
#[verifier::external_body]
pub struct ExGlobSetBuilder(globset::GlobSetBuilder);

/// `globset::GlobSet`, which matches a path against all its globs.
#[verifier::external_type_specification]
#[verifier::external_body]
pub struct ExGlobSet(globset::GlobSet);

/// The globs that a builder holds: each pattern, and whether it ignores case.
pub uninterp spec fn builder_globs(builder: globset::GlobSetBuilder) -> Seq<(Seq<char>, bool)>;

/// The globs of a set, in the order in which they were added.
pub uninterp spec fn set_globs(set: globset::GlobSet) -> Seq<(Seq<char>, bool)>;

/// Whether a backslash separates components where a builder was made, as it
/// does on Windows, or escapes the character behind it.
pub uninterp spec fn builder_separates(builder: globset::GlobSetBuilder) -> bool;

/// The same of a set.
pub uninterp spec fn set_separates(set: globset::GlobSet) -> bool;

/// The error of compiling a pattern with literal separators, if it has one.
pub uninterp spec fn glob_error(
    pattern: Seq<char>,
    ignorecase: bool,
    separates: bool,
) -> Option<Seq<char>>;

/// The error of compiling globs into one set, if there is one. It differs
/// between machines, which are numbered here in some way: how wide pointers are
/// decides which sets are too large, the platform says what a backslash means,
/// and of several errors the one that is met first comes out.
pub uninterp spec fn glob_set_error(globs: Seq<(Seq<char>, bool)>, machine: int) -> Option<
    Seq<char>,
>;

/// Whether a glob, in which `*` and `?` match no slash, matches a path.
pub uninterp spec fn glob_matches(
    pattern: Seq<char>,
    ignorecase: bool,
    path: Seq<char>,
    separates: bool,
) -> bool;

/// A pattern without any character that globs give a meaning to.
pub open spec fn is_literal(pattern: Seq<char>) -> bool {
    &&& pattern.len() > 0
    &&& !has_glob_char(pattern)
    &&& !pattern.contains('}')
    &&& !pattern.contains('\\')
}

/// Some of the patterns holds a backslash.
pub open spec fn has_backslash(globs: Seq<(Seq<char>, bool)>) -> bool {
    exists|g: int| 0 <= g < globs.len() && (#[trigger] globs[g]).0.contains('\\')
}

/// Calls `GlobSetBuilder::new`: the builder is empty. Nothing is said of what
/// a backslash means in it, which depends on the platform.
#[verifier::external_body]
fn new_builder() -> (r: globset::GlobSetBuilder)
    ensures
        builder_globs(r) == Seq::<(Seq<char>, bool)>::empty(),
{
    globset::GlobSetBuilder::new()
}

/// Compiles a pattern by `GlobBuilder` with `literal_separator` and, as asked,
/// with `case_insensitive`, and adds it by `GlobSetBuilder::add`. Whether it
/// compiles, and the error's text, are named; what a backslash means is left
/// to the platform, which makes no difference to a pattern without one. A glob
/// that compiles is added behind the others, and one that does not leaves the
/// builder as it was.
#[verifier::external_body]
fn add_glob(builder: &mut globset::GlobSetBuilder, pattern: &str, ignorecase: bool) -> (r: Result<
    (),
    String,
>)
    ensures
        r is Ok ==> glob_error(
            pattern@,
            ignorecase,
            builder_separates(*old(builder)) && pattern@.contains('\\'),
        ) is None,
        r matches Err(e) ==> glob_error(
            pattern@,
            ignorecase,
            builder_separates(*old(builder)) && pattern@.contains('\\'),
        ) == Some(e@),
        r is Ok ==> builder_globs(*final(builder)) == builder_globs(*old(builder)).push(
            (pattern@, ignorecase),
        ),
        r is Err ==> builder_globs(*final(builder)) == builder_globs(*old(builder)),
        builder_separates(*final(builder)) == builder_separates(*old(builder)),
{
    let mut glob = globset::GlobBuilder::new(pattern);
    glob.literal_separator(true).case_insensitive(ignorecase);
    match glob.build() {
        Ok(glob) => {
            builder.add(glob);
            Ok(())
        },
        Err(err) => Err(err.to_string()),
    }
}

/// Calls `GlobSetBuilder::build`: the set holds the builder's globs. Whether
/// it can be built, and the error's text, is what some machine makes of these
/// globs; nothing is said of which. Without globs the set can be built.
#[verifier::external_body]
fn build_set(builder: &globset::GlobSetBuilder) -> (r: Result<globset::GlobSet, String>)
    ensures
        r matches Ok(set) ==> set_globs(set) == builder_globs(*builder) && set_separates(set)
            == builder_separates(*builder),
        r is Ok ==> exists|machine: int| #[trigger]
            glob_set_error(builder_globs(*builder), machine) is None,
        r matches Err(e) ==> exists|machine: int| #[trigger]
            glob_set_error(builder_globs(*builder), machine) == Some(e@),
        builder_globs(*builder).len() == 0 ==> r is Ok,
{
    builder.build().map_err(|err| err.to_string())
}

/// Calls `GlobSet::matches`: the positions of exactly the globs that match,
/// in ascending order. Whether a glob matches is named; the platform makes no
/// difference where neither the pattern nor the path holds a backslash. A glob
/// whose pattern holds no metacharacter matches the path that is equal to it.
#[verifier::external_body]
fn matching_globs(set: &globset::GlobSet, path: &str) -> (r: Vec<usize>)
    ensures
        forall|i: int| 0 <= i < r@.len() ==> (#[trigger] r@[i]) < set_globs(*set).len(),
        forall|i: int, j: int| 0 <= i < j < r@.len() ==> r@[i] < r@[j],
        forall|g: int|
            0 <= g < set_globs(*set).len() ==> (r@.contains(g as usize) <==> glob_matches(
                (#[trigger] set_globs(*set)[g]).0,
                set_globs(*set)[g].1,
                path@,
                set_separates(*set) && (set_globs(*set)[g].0.contains('\\') || path@.contains(
                    '\\',
                )),
            )),
        forall|g: int|
            0 <= g < set_globs(*set).len() && is_literal((#[trigger] set_globs(*set)[g]).0)
                && path@ == set_globs(*set)[g].0 ==> r@.contains(g as usize),
{
    set.matches(path)
}

/// The error of compiling a pattern where a backslash separates components or
/// does not, which only matters to a pattern that holds one.
pub open spec fn pattern_error(
    pattern: Seq<char>,
    ignorecase: bool,
    separates: bool,
) -> Option<Seq<char>> {
    glob_error(pattern, ignorecase, separates && pattern.contains('\\'))
}

/// A glob matches a path, likewise.
pub open spec fn pattern_matches(
    pattern: Seq<char>,
    ignorecase: bool,
    path: Seq<char>,
    separates: bool,
) -> bool {
    glob_matches(
        pattern,
        ignorecase,
        path,
        separates && (pattern.contains('\\') || path.contains('\\')),
    )
}

/// A reservation that can block `self_agent`: exclusive, held by somebody
/// else, and with a pattern that compiles.
pub open spec fn can_block(
    res: FileReservationRecord,
    self_agent: Seq<char>,
    ignorecase: bool,
    separates: bool,
) -> bool {
    &&& res.exclusive
    &&& !same_ignoring_ascii_case(res.agent_name@, self_agent)
    &&& pattern_error(res.normalized_pattern@, ignorecase, separates) is None
}

/// The reservations that can block `self_agent`, in order.
pub open spec fn blocking(
    reservations: Seq<FileReservationRecord>,
    self_agent: Seq<char>,
    ignorecase: bool,
    separates: bool,
) -> Seq<FileReservationRecord>
    decreases reservations.len(),
{
    if reservations.len() == 0 {
        Seq::empty()
    } else {
        let before = blocking(reservations.drop_last(), self_agent, ignorecase, separates);
        if can_block(reservations.last(), self_agent, ignorecase, separates) {
            before.push(reservations.last())
        } else {
            before
        }
    }
}

pub open spec fn globs_of(active: Seq<FileReservationRecord>, ignorecase: bool) -> Seq<
    (Seq<char>, bool),
> {
    active.map_values(|res: FileReservationRecord| (res.normalized_pattern@, ignorecase))
}

/// The pattern as directory prefixes are compared.
pub open spec fn prefix_pattern(res: FileReservationRecord, ignorecase: bool) -> Seq<char> {
    if ignorecase {
        unicode_lower(res.normalized_pattern@)
    } else {
        res.normalized_pattern@
    }
}

/// `inner` starts with `outer` at a component boundary, and goes on behind it;
/// the empty path, the root, is the start of every path.
pub open spec fn is_within(inner: Seq<char>, outer: Seq<char>) -> bool {
    outer.is_prefix_of(inner) && (outer.len() == 0 || (inner.len() > outer.len()
        && inner[outer.len() as int] == '/'))
}

/// The path is a parent directory of what the pattern covers, or it lies in
/// the directory that a pattern without glob names. A pattern with a glob does
/// not cover what lies deeper than it matches.
pub open spec fn overlaps_by_directory(
    res: FileReservationRecord,
    path: Seq<char>,
    ignorecase: bool,
) -> bool {
    ||| is_within(prefix_pattern(res, ignorecase), path)
    ||| !res.has_glob && is_within(path, prefix_pattern(res, ignorecase))
}

/// The first reservation at or after `from` whose glob matches the path.
pub open spec fn first_match(
    active: Seq<FileReservationRecord>,
    path: Seq<char>,
    ignorecase: bool,
    from: int,
    separates: bool,
) -> Option<int>
    decreases active.len() - from,
{
    if from < 0 || from >= active.len() {
        None
    } else if pattern_matches(active[from].normalized_pattern@, ignorecase, path, separates) {
        Some(from)
    } else {
        first_match(active, path, ignorecase, from + 1, separates)
    }
}

/// The first reservation at or after `from` that overlaps by directory.
pub open spec fn first_overlap(
    active: Seq<FileReservationRecord>,
    path: Seq<char>,
    ignorecase: bool,
    from: int,
) -> Option<int>
    decreases active.len() - from,
{
    if from < 0 || from >= active.len() {
        None
    } else if overlaps_by_directory(active[from], path, ignorecase) {
        Some(from)
    } else {
        first_overlap(active, path, ignorecase, from + 1)
    }
}

/// The reservation that a normal path conflicts with: the first whose glob
/// matches, or else the first that overlaps by directory.
pub open spec fn holder_index(
    active: Seq<FileReservationRecord>,
    path: Seq<char>,
    ignorecase: bool,
    separates: bool,
) -> Option<int> {
    match first_match(active, path, ignorecase, 0, separates) {
        Some(i) => Some(i),
        None => first_overlap(active, path, ignorecase, 0),
    }
}

pub open spec fn conflict_with(path: Seq<char>, res: FileReservationRecord) -> Conflict {
    Conflict {
        path,
        pattern: res.path_pattern@,
        holder: res.agent_name@,
        expires_ts: res.expires_ts@,
    }
}

/// The conflict of one path, if it has one.
pub open spec fn conflict_of(
    path: Seq<char>,
    active: Seq<FileReservationRecord>,
    ignorecase: bool,
    separates: bool,
) -> Option<Conflict> {
    if is_exempt(path, ignorecase) {
        None
    } else {
        match holder_index(active, normalized(path, ignorecase), ignorecase, separates) {
            Some(i) => Some(conflict_with(path, active[i])),
            None => None,
        }
    }
}

/// The conflicts of the paths, in the order of the paths.
pub open spec fn conflicts_of(
    paths: Seq<Seq<char>>,
    active: Seq<FileReservationRecord>,
    ignorecase: bool,
    separates: bool,
) -> Seq<Conflict>
    decreases paths.len(),
{
    if paths.len() == 0 {
        Seq::empty()
    } else {
        let before = conflicts_of(paths.drop_last(), active, ignorecase, separates);
        match conflict_of(paths.last(), active, ignorecase, separates) {
            Some(c) => before.push(c),
            None => before,
        }
    }
}

pub open spec fn conflict_views(conflicts: Seq<GuardConflict>) -> Seq<Conflict> {
    conflicts.map_values(|c: GuardConflict| c@)
}

/// A literal reservation names the path or a directory above it.
pub open spec fn literally_covers(
    res: FileReservationRecord,
    path: Seq<char>,
    ignorecase: bool,
) -> bool {
    ||| is_literal(res.normalized_pattern@) && path == res.normalized_pattern@
    ||| !res.has_glob && is_within(path, prefix_pattern(res, ignorecase))
}

fn within(inner: &str, outer: &str) -> (r: bool)
    ensures
        r == is_within(inner@, outer@),
{
    let cs = chars_of(inner);
    let ps = chars_of(outer);
    let n: usize = ps.len();
    occurs(cs.as_slice(), ps.as_slice(), 0) && (n == 0 || (n < cs.len() && cs[n] == '/'))
}

fn overlaps(res: &FileReservationRecord, path: &str, ignorecase: bool) -> (r: bool)
    ensures
        r == overlaps_by_directory(*res, path@, ignorecase),
{
    let pattern = if ignorecase {
        to_lowercase(res.normalized_pattern.as_str())
    } else {
        res.normalized_pattern.clone()
    };
    within(pattern.as_str(), path) || (!res.has_glob && within(path, pattern.as_str()))
}

/// The reservation of `active` that a normal path conflicts with, given the
/// positions of those whose globs match it: the first match, or else the first
/// that overlaps by directory.
pub fn blocking_reservation(
    matches: &Vec<usize>,
    active: &Vec<FileReservationRecord>,
    path: &str,
    ignorecase: bool,
) -> (r: Option<usize>)
    ensures
        matches@.len() > 0 ==> r == Some(matches@[0]),
        matches@.len() == 0 ==> (match r {
            Some(i) => first_overlap(active@, path@, ignorecase, 0) == Some(i as int),
            None => first_overlap(active@, path@, ignorecase, 0) is None,
        }),
{
    if matches.len() > 0 {
        return Some(matches[0]);
    }
    let mut i: usize = 0;
    while i < active.len()
        invariant
            i <= active@.len(),
            matches@.len() == 0,
            first_overlap(active@, path@, ignorecase, 0) == first_overlap(
                active@,
                path@,
                ignorecase,
                i as int,
            ),
        decreases active@.len() - i,
    {
        if overlaps(&active[i], path, ignorecase) {
            return Some(i);
        }
        i = i + 1;
    }
    None
}

proof fn lemma_first_match(
    active: Seq<FileReservationRecord>,
    path: Seq<char>,
    ignorecase: bool,
    from: int,
    matches: Seq<usize>,
    separates: bool,
)
    requires
        0 <= from <= active.len() <= usize::MAX,
        forall|i: int| 0 <= i < matches.len() ==> (#[trigger] matches[i]) < active.len(),
        forall|i: int, j: int| 0 <= i < j < matches.len() ==> matches[i] < matches[j],
        forall|i: int| 0 <= i < matches.len() ==> from <= #[trigger] matches[i],
        forall|g: int|
            from <= g < active.len() ==> (matches.contains(g as usize) <==> pattern_matches(
                (#[trigger] active[g]).normalized_pattern@,
                ignorecase,
                path,
                separates,
            )),
    ensures
        matches.len() == 0 ==> first_match(active, path, ignorecase, from, separates) is None,
        matches.len() > 0 ==> first_match(active, path, ignorecase, from, separates) == Some(
            matches[0] as int,
        ),
    decreases active.len() - from,
{
    if from < active.len() {
        let g = active[from];
        if matches.contains(from as usize) {
            let k = choose|k: int| 0 <= k < matches.len() && matches[k] == from as usize;
            if k > 0 {
                assert(matches[0] < matches[k]);
            }
        } else {
            assert forall|i: int| 0 <= i < matches.len() implies from + 1 <= #[trigger] matches[i] by {
                assert(matches.contains(matches[i]));
            }
            lemma_first_match(active, path, ignorecase, from + 1, matches, separates);
        }
    } else {
        if matches.len() > 0 {
            assert(matches[0] < active.len());
        }
    }
}

/// The result of a check of these paths for this agent, where a backslash
/// separates components or does not.
pub open spec fn is_checked(
    r: GuardResult<Vec<GuardConflict>>,
    paths: Seq<String>,
    reservations: Seq<FileReservationRecord>,
    self_agent: Seq<char>,
    ignorecase: bool,
    separates: bool,
) -> bool {
    let active = blocking(reservations, self_agent, ignorecase, separates);
    &&& match r {
        Ok(conflicts) => (exists|machine: int| #[trigger]
            glob_set_error(globs_of(active, ignorecase), machine) is None) && conflict_views(conflicts@) == conflicts_of(
            views(paths),
            active,
            ignorecase,
            separates,
        ),
        Err(e) => e matches GuardError::InvalidReservationPattern { pattern, error } && pattern@
            == "<globset>"@ && exists|machine: int| #[trigger]
            glob_set_error(globs_of(active, ignorecase), machine) == Some(error@),
    }
    &&& active.len() == 0 ==> (r matches Ok(conflicts) && conflicts@.len() == 0)
    // A literal reservation is never missed.
    &&& r is Ok ==> forall|p: int, g: int|
        0 <= p < paths.len() && 0 <= g < active.len() && !is_exempt(
            #[trigger] paths[p]@,
            ignorecase,
        ) && literally_covers(
            #[trigger] active[g],
            normalized(paths[p]@, ignorecase),
            ignorecase,
        ) ==> conflict_of(paths[p]@, active, ignorecase, separates) is Some
}

/// No backslash stands in a pattern, nor, where case is ignored, in the normal
/// form of a path; where case counts there is none in any normal form.
pub open spec fn free_of_backslashes(
    paths: Seq<String>,
    reservations: Seq<FileReservationRecord>,
    ignorecase: bool,
) -> bool {
    &&& forall|i: int|
        0 <= i < reservations.len() ==> !(
        #[trigger] reservations[i]).normalized_pattern@.contains('\\')
    &&& ignorecase ==> forall|p: int|
        0 <= p < paths.len() ==> !normalized(#[trigger] paths[p]@, ignorecase).contains('\\')
}

/// The result of a check on whatever machine it ran. Whether the patterns fit
/// into one set, and the error where they do not, is up to the machine. So is
/// what a backslash means; without backslashes the conflicts of a check that
/// succeeds are the same everywhere.
pub open spec fn is_check_result(
    r: GuardResult<Vec<GuardConflict>>,
    paths: Seq<String>,
    reservations: Seq<FileReservationRecord>,
    self_agent: Seq<char>,
    ignorecase: bool,
) -> bool {
    &&& exists|separates: bool| #[trigger]
        is_checked(r, paths, reservations, self_agent, ignorecase, separates)
    &&& free_of_backslashes(paths, reservations, ignorecase) ==> is_checked(
        r,
        paths,
        reservations,
        self_agent,
        ignorecase,
        false,
    )
}

proof fn lemma_blocking_anywhere(
    reservations: Seq<FileReservationRecord>,
    self_agent: Seq<char>,
    ignorecase: bool,
    separates: bool,
)
    requires
        forall|i: int|
            0 <= i < reservations.len() ==> !(
            #[trigger] reservations[i]).normalized_pattern@.contains('\\'),
    ensures
        blocking(reservations, self_agent, ignorecase, separates) == blocking(
            reservations,
            self_agent,
            ignorecase,
            false,
        ),
        !has_backslash(
            globs_of(blocking(reservations, self_agent, ignorecase, separates), ignorecase),
        ),
    decreases reservations.len(),
{
    let active = blocking(reservations, self_agent, ignorecase, separates);
    let globs = globs_of(active, ignorecase);
    if reservations.len() > 0 {
        let shorter = reservations.drop_last();
        assert forall|i: int| 0 <= i < shorter.len() implies !(
        #[trigger] shorter[i]).normalized_pattern@.contains('\\') by {
            assert(shorter[i] == reservations[i]);
        }
        lemma_blocking_anywhere(shorter, self_agent, ignorecase, separates);
        assert(!reservations[reservations.len() - 1].normalized_pattern@.contains('\\'));
        let before = blocking(shorter, self_agent, ignorecase, separates);
        let fewer = globs_of(before, ignorecase);
        assert forall|g: int| 0 <= g < globs.len() implies !(#[trigger] globs[g]).0.contains(
            '\\',
        ) by {
            if g < before.len() {
                assert(fewer[g] == globs[g]);
            }
        }
    }
}

proof fn lemma_first_match_anywhere(
    active: Seq<FileReservationRecord>,
    path: Seq<char>,
    ignorecase: bool,
    from: int,
    separates: bool,
)
    requires
        !has_backslash(globs_of(active, ignorecase)),
        !path.contains('\\'),
    ensures
        first_match(active, path, ignorecase, from, separates) == first_match(
            active,
            path,
            ignorecase,
            from,
            false,
        ),
    decreases active.len() - from,
{
    if 0 <= from < active.len() {
        assert(globs_of(active, ignorecase)[from].0 == active[from].normalized_pattern@);
        lemma_first_match_anywhere(active, path, ignorecase, from + 1, separates);
    }
}

proof fn lemma_conflict_anywhere(
    path: Seq<char>,
    active: Seq<FileReservationRecord>,
    ignorecase: bool,
    separates: bool,
)
    requires
        !has_backslash(globs_of(active, ignorecase)),
        !normalized(path, ignorecase).contains('\\'),
    ensures
        conflict_of(path, active, ignorecase, separates) == conflict_of(
            path,
            active,
            ignorecase,
            false,
        ),
{
    lemma_first_match_anywhere(active, normalized(path, ignorecase), ignorecase, 0, separates);
}

proof fn lemma_conflicts_anywhere(
    paths: Seq<Seq<char>>,
    active: Seq<FileReservationRecord>,
    ignorecase: bool,
    separates: bool,
)
    requires
        forall|p: int|
            0 <= p < paths.len() ==> conflict_of(
                #[trigger] paths[p],
                active,
                ignorecase,
                separates,
            ) == conflict_of(paths[p], active, ignorecase, false),
    ensures
        conflicts_of(paths, active, ignorecase, separates) == conflicts_of(
            paths,
            active,
            ignorecase,
            false,
        ),
    decreases paths.len(),
{
    if paths.len() > 0 {
        let shorter = paths.drop_last();
        assert forall|p: int| 0 <= p < shorter.len() implies conflict_of(
            #[trigger] shorter[p],
            active,
            ignorecase,
            separates,
        ) == conflict_of(shorter[p], active, ignorecase, false) by {
            assert(shorter[p] == paths[p]);
        }
        lemma_conflicts_anywhere(shorter, active, ignorecase, separates);
        assert(paths[paths.len() - 1] == paths.last());
    }
}

/// Without backslashes the platform makes no difference: what is a result
/// where a backslash separates is one where it does not, with the same
/// conflicts.
pub proof fn law_the_platform_matters_only_to_backslashes(
    r: GuardResult<Vec<GuardConflict>>,
    paths: Seq<String>,
    reservations: Seq<FileReservationRecord>,
    self_agent: Seq<char>,
    ignorecase: bool,
    separates: bool,
)
    requires
        free_of_backslashes(paths, reservations, ignorecase),
    ensures
        is_checked(r, paths, reservations, self_agent, ignorecase, separates) == is_checked(
            r,
            paths,
            reservations,
            self_agent,
            ignorecase,
            false,
        ),
{
    lemma_blocking_anywhere(reservations, self_agent, ignorecase, separates);
    let active = blocking(reservations, self_agent, ignorecase, separates);
    assert forall|p: int| 0 <= p < paths.len() implies conflict_of(
        #[trigger] paths[p]@,
        active,
        ignorecase,
        separates,
    ) == conflict_of(paths[p]@, active, ignorecase, false) by {
        if !ignorecase {
            law_normal_path_holds_no_backslash(paths[p]@);
        }
        lemma_conflict_anywhere(paths[p]@, active, ignorecase, separates);
    }
    let all = views(paths);
    assert forall|p: int| 0 <= p < all.len() implies conflict_of(
        #[trigger] all[p],
        active,
        ignorecase,
        separates,
    ) == conflict_of(all[p], active, ignorecase, false) by {
        assert(all[p] == paths[p]@);
    }
    lemma_conflicts_anywhere(all, active, ignorecase, separates);
}

/// Checks paths against the reservations of other agents.
///
/// Reservations that are shared, that `self_agent` holds (in any ASCII case)
/// or whose pattern does not compile block nothing. A path conflicts with at
/// most one reservation. Where the patterns cannot be compiled into one set
/// the check fails.
pub fn check_path_conflicts(
    paths: &Vec<String>,
    reservations: &Vec<FileReservationRecord>,
    self_agent: &str,
    ignorecase: bool,
) -> (r: GuardResult<Vec<GuardConflict>>)
    ensures
        is_check_result(r, paths@, reservations@, self_agent@, ignorecase),
{
    let mut builder = new_builder();
    let ghost separates = builder_separates(builder);
    let ghost all_active = blocking(reservations@, self_agent@, ignorecase, separates);
    let mut active: Vec<FileReservationRecord> = Vec::new();
    let mut i: usize = 0;
    assert(active@ =~= blocking(reservations@.take(0), self_agent@, ignorecase, separates));
    assert(builder_globs(builder) =~= globs_of(active@, ignorecase));
    while i < reservations.len()
        invariant
            i <= reservations@.len(),
            active@ == blocking(reservations@.take(i as int), self_agent@, ignorecase, separates),
            builder_globs(builder) == globs_of(active@, ignorecase),
            builder_separates(builder) == separates,
        decreases reservations@.len() - i,
    {
        let res = &reservations[i];
        let ghost next = reservations@.take(i + 1);
        assert(next.drop_last() =~= reservations@.take(i as int));
        assert(next.last() == *res);
        if res.exclusive && !eq_ignore_ascii_case(res.agent_name.as_str(), self_agent) {
            let ghost before = globs_of(active@, ignorecase);
            if let Ok(_) = add_glob(&mut builder, res.normalized_pattern.as_str(), ignorecase) {
                active.push(res.clone());
                assert(globs_of(active@, ignorecase) =~= before.push(
                    (res.normalized_pattern@, ignorecase),
                ));
            }
        }
        i = i + 1;
    }
    assert(reservations@.take(i as int) =~= reservations@);
    let set = match build_set(&builder) {
        Ok(set) => set,
        Err(error) => {
            let r: GuardResult<Vec<GuardConflict>> = Err(
                GuardError::InvalidReservationPattern { pattern: "<globset>".to_owned(), error },
            );
            proof {
                lemma_is_check_result(
                    r,
                    paths@,
                    reservations@,
                    self_agent@,
                    ignorecase,
                    separates,
                );
            }
            return r;
        },
    };
    let ghost pv = views(paths@);
    let mut conflicts: Vec<GuardConflict> = Vec::new();
    let mut p: usize = 0;
    assert(conflict_views(conflicts@) =~= conflicts_of(
        pv.take(0),
        all_active,
        ignorecase,
        separates,
    ));
    while p < paths.len()
        invariant
            p <= paths@.len(),
            pv == views(paths@),
            active@ == all_active,
            set_globs(set) == globs_of(all_active, ignorecase),
            set_separates(set) == separates,
            conflict_views(conflicts@) == conflicts_of(
                pv.take(p as int),
                all_active,
                ignorecase,
                separates,
            ),
            all_active.len() == 0 ==> conflicts@.len() == 0,
            forall|q: int, g: int|
                0 <= q < p && 0 <= g < all_active.len() && !is_exempt(
                    #[trigger] paths@[q]@,
                    ignorecase,
                ) && literally_covers(
                    #[trigger] all_active[g],
                    normalized(paths@[q]@, ignorecase),
                    ignorecase,
                ) ==> conflict_of(paths@[q]@, all_active, ignorecase, separates) is Some,
        decreases paths@.len() - p,
    {
        let path = paths[p].as_str();
        let ghost next = pv.take(p + 1);
        assert(next.drop_last() =~= pv.take(p as int));
        assert(next.last() == path@);
        if !is_default_exempt_path(path, ignorecase) {
            let normal = normalize_path(path, ignorecase);
            let matches = matching_globs(&set, normal.as_str());
            let count: usize = active.len();
            proof {
                assert(all_active.len() == count);
                assert forall|g: int| 0 <= g < all_active.len() implies (matches@.contains(
                    g as usize,
                ) <==> pattern_matches(
                    (#[trigger] all_active[g]).normalized_pattern@,
                    ignorecase,
                    normal@,
                    separates,
                )) by {
                    assert(set_globs(set)[g] == (all_active[g].normalized_pattern@, ignorecase));
                }
                lemma_first_match(all_active, normal@, ignorecase, 0, matches@, separates);
                assert forall|g: int|
                    0 <= g < all_active.len() && literally_covers(
                        #[trigger] all_active[g],
                        normal@,
                        ignorecase,
                    ) implies conflict_of(path@, all_active, ignorecase, separates) is Some by {
                    assert(set_globs(set)[g] == (all_active[g].normalized_pattern@, ignorecase));
                    if matches@.len() == 0 {
                        lemma_first_overlap_found(all_active, normal@, ignorecase, 0, g);
                    }
                }
            }
            if let Some(at) = blocking_reservation(&matches, &active, normal.as_str(), ignorecase) {
                proof {
                    if matches@.len() == 0 {
                        lemma_first_overlap_bound(all_active, normal@, ignorecase, 0);
                    }
                }
                let res = &active[at];
                let conflict = GuardConflict {
                    path: path.to_owned(),
                    pattern: res.path_pattern.clone(),
                    holder: res.agent_name.clone(),
                    expires_ts: res.expires_ts.clone(),
                };
                let ghost before = conflict_views(conflicts@);
                assert(conflict@ == conflict_with(path@, all_active[at as int]));
                conflicts.push(conflict);
                assert(conflict_views(conflicts@) =~= before.push(conflict@));
            }
        }
        p = p + 1;
    }
    assert(pv.take(p as int) =~= pv);
    let r: GuardResult<Vec<GuardConflict>> = Ok(conflicts);
    proof {
        lemma_is_check_result(r, paths@, reservations@, self_agent@, ignorecase, separates);
    }
    r
}

proof fn lemma_is_check_result(
    r: GuardResult<Vec<GuardConflict>>,
    paths: Seq<String>,
    reservations: Seq<FileReservationRecord>,
    self_agent: Seq<char>,
    ignorecase: bool,
    separates: bool,
)
    requires
        is_checked(r, paths, reservations, self_agent, ignorecase, separates),
    ensures
        is_check_result(r, paths, reservations, self_agent, ignorecase),
{
    if free_of_backslashes(paths, reservations, ignorecase) {
        law_the_platform_matters_only_to_backslashes(
            r,
            paths,
            reservations,
            self_agent,
            ignorecase,
            separates,
        );
    }
}

proof fn lemma_first_overlap_bound(
    active: Seq<FileReservationRecord>,
    path: Seq<char>,
    ignorecase: bool,
    from: int,
)
    ensures
        first_overlap(active, path, ignorecase, from) matches Some(i) ==> from <= i < active.len()
            && overlaps_by_directory(active[i], path, ignorecase),
    decreases active.len() - from,
{
    if 0 <= from < active.len() {
        lemma_first_overlap_bound(active, path, ignorecase, from + 1);
    }
}

proof fn lemma_first_overlap_found(
    active: Seq<FileReservationRecord>,
    path: Seq<char>,
    ignorecase: bool,
    from: int,
    at: int,
)
    requires
        0 <= from <= at < active.len(),
        overlaps_by_directory(active[at], path, ignorecase),
    ensures
        first_overlap(active, path, ignorecase, from) is Some,
    decreases active.len() - from,
{
    if from < at {
        lemma_first_overlap_found(active, path, ignorecase, from + 1, at);
    }
}

/// Checks paths against reservations; the entry point for input generators.
pub fn fuzz_check_path_conflicts(
    paths: &Vec<String>,
    reservations: &Vec<FileReservationRecord>,
    self_agent: &str,
    ignorecase: bool,
) -> (r: GuardResult<Vec<GuardConflict>>)
    ensures
        is_check_result(r, paths@, reservations@, self_agent@, ignorecase),
{
    check_path_conflicts(paths, reservations, self_agent, ignorecase)
}

/// The warning about a reservation whose pattern does not compile.
pub open spec fn pattern_warning(res: FileReservationRecord, error: Seq<char>) -> Seq<char> {
    "[agent-mail guard] warning: invalid glob pattern '"@ + res.normalized_pattern@
        + "' in reservation by "@ + res.agent_name@ + ": "@ + error
}

/// The warnings about the exclusive reservations of other agents whose
/// patterns do not compile, in the order of the reservations.
pub open spec fn warnings_of(
    reservations: Seq<FileReservationRecord>,
    self_agent: Seq<char>,
    ignorecase: bool,
    separates: bool,
) -> Seq<Seq<char>>
    decreases reservations.len(),
{
    if reservations.len() == 0 {
        Seq::empty()
    } else {
        let before = warnings_of(reservations.drop_last(), self_agent, ignorecase, separates);
        let res = reservations.last();
        match pattern_error(res.normalized_pattern@, ignorecase, separates) {
            Some(error) if res.exclusive && !same_ignoring_ascii_case(res.agent_name@, self_agent)
                => before.push(pattern_warning(res, error)),
            _ => before,
        }
    }
}

/// What to tell the operator about reservations that are passed over because
/// their pattern does not compile.
pub fn invalid_pattern_warnings(
    reservations: &Vec<FileReservationRecord>,
    self_agent: &str,
    ignorecase: bool,
) -> (r: Vec<String>)
    ensures
        exists|separates: bool|
            views(r@) == #[trigger] warnings_of(
                reservations@,
                self_agent@,
                ignorecase,
                separates,
            ),
        (forall|i: int|
            0 <= i < reservations@.len() ==> !(
            #[trigger] reservations@[i]).normalized_pattern@.contains('\\')) ==> views(r@)
            == warnings_of(reservations@, self_agent@, ignorecase, false),
{
    let mut builder = new_builder();
    let ghost separates = builder_separates(builder);
    let mut out: Vec<String> = Vec::new();
    let mut i: usize = 0;
    assert(views(out@) =~= warnings_of(reservations@.take(0), self_agent@, ignorecase, separates));
    while i < reservations.len()
        invariant
            i <= reservations@.len(),
            views(out@) == warnings_of(
                reservations@.take(i as int),
                self_agent@,
                ignorecase,
                separates,
            ),
            builder_separates(builder) == separates,
        decreases reservations@.len() - i,
    {
        let res = &reservations[i];
        let ghost next = reservations@.take(i + 1);
        assert(next.drop_last() =~= reservations@.take(i as int));
        assert(next.last() == *res);
        if res.exclusive && !eq_ignore_ascii_case(res.agent_name.as_str(), self_agent) {
            if let Err(error) = add_glob(
                &mut builder,
                res.normalized_pattern.as_str(),
                ignorecase,
            ) {
                let ghost before = views(out@);
                let text = "[agent-mail guard] warning: invalid glob pattern '".to_owned().concat(
                    res.normalized_pattern.as_str(),
                ).concat("' in reservation by ").concat(res.agent_name.as_str()).concat(
                    ": ",
                ).concat(error.as_str());
                out.push(text);
                assert(views(out@) =~= before.push(text@));
            }
        }
        i = i + 1;
    }
    assert(reservations@.take(i as int) =~= reservations@);
    proof {
        if forall|i: int|
            0 <= i < reservations@.len() ==> !(
            #[trigger] reservations@[i]).normalized_pattern@.contains('\\') {
            lemma_warnings_anywhere(reservations@, self_agent@, ignorecase, separates);
        }
    }
    out
}

proof fn lemma_warnings_anywhere(
    reservations: Seq<FileReservationRecord>,
    self_agent: Seq<char>,
    ignorecase: bool,
    separates: bool,
)
    requires
        forall|i: int|
            0 <= i < reservations.len() ==> !(
            #[trigger] reservations[i]).normalized_pattern@.contains('\\'),
    ensures
        warnings_of(reservations, self_agent, ignorecase, separates) == warnings_of(
            reservations,
            self_agent,
            ignorecase,
            false,
        ),
    decreases reservations.len(),
{
    if reservations.len() > 0 {
        let shorter = reservations.drop_last();
        assert forall|i: int| 0 <= i < shorter.len() implies !(
        #[trigger] shorter[i]).normalized_pattern@.contains('\\') by {
            assert(shorter[i] == reservations[i]);
        }
        lemma_warnings_anywhere(shorter, self_agent, ignorecase, separates);
        assert(!reservations[reservations.len() - 1].normalized_pattern@.contains('\\'));
    }
}

proof fn lemma_first_match_bound(
    active: Seq<FileReservationRecord>,
    path: Seq<char>,
    ignorecase: bool,
    from: int,
    separates: bool,
)
    ensures
        first_match(active, path, ignorecase, from, separates) matches Some(i) ==> from <= i
            < active.len() && pattern_matches(active[i].normalized_pattern@, ignorecase, path, separates),
    decreases active.len() - from,
{
    if 0 <= from < active.len() {
        lemma_first_match_bound(active, path, ignorecase, from + 1, separates);
    }
}

proof fn lemma_blocking_members(
    reservations: Seq<FileReservationRecord>,
    self_agent: Seq<char>,
    ignorecase: bool,
    separates: bool,
)
    ensures
        forall|g: int|
            0 <= g < blocking(reservations, self_agent, ignorecase, separates).len() ==> can_block(
                #[trigger] blocking(reservations, self_agent, ignorecase, separates)[g],
                self_agent,
                ignorecase,
                separates,
            ) && reservations.contains(
                blocking(reservations, self_agent, ignorecase, separates)[g],
            ),
    decreases reservations.len(),
{
    if reservations.len() > 0 {
        let shorter = reservations.drop_last();
        lemma_blocking_members(shorter, self_agent, ignorecase, separates);
        let before = blocking(shorter, self_agent, ignorecase, separates);
        let all = blocking(reservations, self_agent, ignorecase, separates);
        assert forall|g: int| 0 <= g < all.len() implies can_block(
            #[trigger] all[g],
            self_agent,
            ignorecase,
            separates,
        ) && reservations.contains(all[g]) by {
            if g < before.len() {
                assert(all[g] == before[g]);
                let k = choose|k: int| 0 <= k < shorter.len() && shorter[k] == before[g];
                assert(reservations[k] == before[g]);
            } else {
                assert(reservations[reservations.len() - 1] == all[g]);
            }
        }
    }
}

/// `res` explains the conflict `c` for `self_agent`: an exclusive reservation
/// of somebody else, with the pattern, holder and expiry that are reported.
pub open spec fn explains(
    res: FileReservationRecord,
    c: Conflict,
    self_agent: Seq<char>,
) -> bool {
    &&& res.exclusive
    &&& !same_ignoring_ascii_case(res.agent_name@, self_agent)
    &&& c == conflict_with(c.path, res)
}

/// Every conflict is with an exclusive reservation of somebody else, and none
/// is about an exempt path.
pub proof fn law_conflicts_are_with_others(
    paths: Seq<Seq<char>>,
    reservations: Seq<FileReservationRecord>,
    self_agent: Seq<char>,
    ignorecase: bool,
    separates: bool,
)
    ensures
        ({
            let found = conflicts_of(
                paths,
                blocking(reservations, self_agent, ignorecase, separates),
                ignorecase,
                separates,
            );
            forall|k: int|
                0 <= k < found.len() ==> {
                    &&& paths.contains((#[trigger] found[k]).path)
                    &&& !is_exempt(found[k].path, ignorecase)
                    &&& exists|r: int|
                        0 <= r < reservations.len() && explains(
                            #[trigger] reservations[r],
                            found[k],
                            self_agent,
                        )
                }
        }),
    decreases paths.len(),
{
    let active = blocking(reservations, self_agent, ignorecase, separates);
    let found = conflicts_of(paths, active, ignorecase, separates);
    if paths.len() > 0 {
        let shorter = paths.drop_last();
        law_conflicts_are_with_others(shorter, reservations, self_agent, ignorecase, separates);
        lemma_blocking_members(reservations, self_agent, ignorecase, separates);
        let before = conflicts_of(shorter, active, ignorecase, separates);
        let path = paths.last();
        let normal = normalized(path, ignorecase);
        lemma_first_match_bound(active, normal, ignorecase, 0, separates);
        lemma_first_overlap_bound(active, normal, ignorecase, 0);
        assert forall|k: int| 0 <= k < found.len() implies {
            &&& paths.contains((#[trigger] found[k]).path)
            &&& !is_exempt(found[k].path, ignorecase)
            &&& exists|r: int|
                0 <= r < reservations.len() && explains(
                    #[trigger] reservations[r],
                    found[k],
                    self_agent,
                )
        } by {
            if k < before.len() {
                assert(found[k] == before[k]);
                let j = choose|j: int| 0 <= j < shorter.len() && shorter[j] == before[k].path;
                assert(paths[j] == before[k].path);
            } else {
                let i = holder_index(active, normal, ignorecase, separates)->0;
                assert(found[k] == conflict_with(path, active[i]));
                assert(paths[paths.len() - 1] == path);
                let r = choose|r: int| 0 <= r < reservations.len() && reservations[r] == active[i];
                assert(explains(reservations[r], found[k], self_agent));
            }
        }
    }
}

proof fn lemma_first_match_found(
    active: Seq<FileReservationRecord>,
    path: Seq<char>,
    ignorecase: bool,
    from: int,
    at: int,
    separates: bool,
)
    requires
        0 <= from <= at < active.len(),
        pattern_matches(active[at].normalized_pattern@, ignorecase, path, separates),
    ensures
        first_match(active, path, ignorecase, from, separates) is Some,
    decreases active.len() - from,
{
    if from < at {
        lemma_first_match_found(active, path, ignorecase, from + 1, at, separates);
    }
}

proof fn lemma_blocking_complete(
    reservations: Seq<FileReservationRecord>,
    self_agent: Seq<char>,
    ignorecase: bool,
    at: int,
    separates: bool,
)
    requires
        0 <= at < reservations.len(),
        can_block(reservations[at], self_agent, ignorecase, separates),
    ensures
        blocking(reservations, self_agent, ignorecase, separates).contains(reservations[at]),
    decreases reservations.len(),
{
    let all = blocking(reservations, self_agent, ignorecase, separates);
    if at == reservations.len() - 1 {
        assert(all[all.len() - 1] == reservations[at]);
    } else {
        let shorter = reservations.drop_last();
        lemma_blocking_complete(shorter, self_agent, ignorecase, at, separates);
        let before = blocking(shorter, self_agent, ignorecase, separates);
        let k = choose|k: int| 0 <= k < before.len() && before[k] == reservations[at];
        assert(all[k] == reservations[at]);
    }
}

/// A reservation covers a normal path: its glob matches, or they overlap by
/// directory.
pub open spec fn covers(
    res: FileReservationRecord,
    path: Seq<char>,
    ignorecase: bool,
    separates: bool,
) -> bool {
    pattern_matches(res.normalized_pattern@, ignorecase, path, separates) || overlaps_by_directory(
        res,
        path,
        ignorecase,
    )
}

/// A path is blocked exactly where it is not exempt and an exclusive
/// reservation of somebody else, whose pattern compiles, covers it.
pub proof fn law_a_path_is_blocked_exactly_where_it_is_reserved(
    path: Seq<char>,
    reservations: Seq<FileReservationRecord>,
    self_agent: Seq<char>,
    ignorecase: bool,
    separates: bool,
)
    ensures
        conflict_of(
            path,
            blocking(reservations, self_agent, ignorecase, separates),
            ignorecase,
            separates,
        ) is Some
            <==> !is_exempt(path, ignorecase) && exists|r: int|
            0 <= r < reservations.len() && can_block(
                #[trigger] reservations[r],
                self_agent,
                ignorecase,
                separates,
            ) && covers(reservations[r], normalized(path, ignorecase), ignorecase, separates),
{
    let active = blocking(reservations, self_agent, ignorecase, separates);
    let normal = normalized(path, ignorecase);
    lemma_blocking_members(reservations, self_agent, ignorecase, separates);
    lemma_first_match_bound(active, normal, ignorecase, 0, separates);
    lemma_first_overlap_bound(active, normal, ignorecase, 0);
    if conflict_of(path, active, ignorecase, separates) is Some {
        let i = holder_index(active, normal, ignorecase, separates)->0;
        assert(reservations.contains(active[i]));
        let r = choose|r: int| 0 <= r < reservations.len() && reservations[r] == active[i];
        assert(can_block(reservations[r], self_agent, ignorecase, separates) && covers(
            reservations[r],
            normal,
            ignorecase,
            separates,
        ));
    }
    if exists|r: int|
        0 <= r < reservations.len() && can_block(
            #[trigger] reservations[r],
            self_agent,
            ignorecase,
            separates,
        ) && covers(reservations[r], normal, ignorecase, separates) {
        let r = choose|r: int|
            0 <= r < reservations.len() && can_block(
                #[trigger] reservations[r],
                self_agent,
                ignorecase,
                separates,
            ) && covers(reservations[r], normal, ignorecase, separates);
        lemma_blocking_complete(reservations, self_agent, ignorecase, r, separates);
        let g = choose|g: int| 0 <= g < active.len() && active[g] == reservations[r];
        if pattern_matches(active[g].normalized_pattern@, ignorecase, normal, separates) {
            lemma_first_match_found(active, normal, ignorecase, 0, g, separates);
        } else {
            lemma_first_overlap_found(active, normal, ignorecase, 0, g);
        }
    }
}

/// The conflict of every path is reported, and nothing else is.
pub proof fn law_every_conflict_is_reported(
    paths: Seq<Seq<char>>,
    active: Seq<FileReservationRecord>,
    ignorecase: bool,
    c: Conflict,
    separates: bool,
)
    ensures
        conflicts_of(paths, active, ignorecase, separates).contains(c) <==> exists|k: int|
            0 <= k < paths.len() && conflict_of(
                #[trigger] paths[k],
                active,
                ignorecase,
                separates,
            ) == Some(c),
    decreases paths.len(),
{
    let found = conflicts_of(paths, active, ignorecase, separates);
    if paths.len() > 0 {
        let shorter = paths.drop_last();
        law_every_conflict_is_reported(shorter, active, ignorecase, c, separates);
        let before = conflicts_of(shorter, active, ignorecase, separates);
        let last = paths.len() - 1;
        if found.contains(c) {
            let j = choose|j: int| 0 <= j < found.len() && found[j] == c;
            if j < before.len() {
                assert(before[j] == c);
                let k = choose|k: int|
                    0 <= k < shorter.len() && conflict_of(
                        #[trigger] shorter[k],
                        active,
                        ignorecase,
                        separates,
                    ) == Some(c);
                assert(paths[k] == shorter[k]);
            } else {
                assert(conflict_of(paths[last], active, ignorecase, separates) == Some(c));
            }
        }
        if exists|k: int|
            0 <= k < paths.len() && conflict_of(
                #[trigger] paths[k],
                active,
                ignorecase,
                separates,
            ) == Some(c) {
            let k = choose|k: int|
                0 <= k < paths.len() && conflict_of(
                    #[trigger] paths[k],
                    active,
                    ignorecase,
                    separates,
                ) == Some(c);
            if k < last {
                assert(shorter[k] == paths[k]);
                let j = choose|j: int| 0 <= j < before.len() && before[j] == c;
                assert(found[j] == c);
            } else {
                assert(found[before.len() as int] == c);
            }
        }
    }
}

/// Each path is judged on its own: the conflicts of two lists of paths are
/// those of the first and then those of the second, so a path has at most one.
pub proof fn law_paths_are_judged_alone(
    first: Seq<Seq<char>>,
    second: Seq<Seq<char>>,
    active: Seq<FileReservationRecord>,
    ignorecase: bool,
    separates: bool,
)
    ensures
        conflicts_of(first + second, active, ignorecase, separates) == conflicts_of(
            first,
            active,
            ignorecase,
            separates,
        ) + conflicts_of(second, active, ignorecase, separates),
        conflicts_of(second, active, ignorecase, separates).len() <= second.len(),
    decreases second.len(),
{
    if second.len() == 0 {
        assert(first + second =~= first);
        assert(conflicts_of(first, active, ignorecase, separates) + conflicts_of(
            second,
            active,
            ignorecase,
            separates,
        ) =~= conflicts_of(first, active, ignorecase, separates));
    } else {
        law_paths_are_judged_alone(first, second.drop_last(), active, ignorecase, separates);
        assert((first + second).drop_last() =~= first + second.drop_last());
        assert((first + second).last() == second.last());
        assert(conflicts_of(first + second, active, ignorecase, separates) =~= conflicts_of(
            first,
            active,
            ignorecase,
            separates,
        ) + conflicts_of(second, active, ignorecase, separates));
    }
}

/// The exclusive reservations of other agents.
pub open spec fn of_others(
    reservations: Seq<FileReservationRecord>,
    self_agent: Seq<char>,
) -> Seq<FileReservationRecord> {
    reservations.filter(
        |res: FileReservationRecord|
            res.exclusive && !same_ignoring_ascii_case(res.agent_name@, self_agent),
    )
}

/// The reservations of the agent itself, in whatever ASCII case its name is
/// written, change nothing; neither do shared ones. Without all of them the
/// same reservations block, and so the same conflicts are found.
pub proof fn law_own_and_shared_reservations_do_not_block(
    reservations: Seq<FileReservationRecord>,
    self_agent: Seq<char>,
    ignorecase: bool,
    separates: bool,
)
    ensures
        blocking(of_others(reservations, self_agent), self_agent, ignorecase, separates)
            == blocking(reservations, self_agent, ignorecase, separates),
    decreases reservations.len(),
{
    reveal(Seq::filter);
    if reservations.len() > 0 {
        let shorter = reservations.drop_last();
        let kept = of_others(shorter, self_agent);
        law_own_and_shared_reservations_do_not_block(shorter, self_agent, ignorecase, separates);
        assert(kept.push(reservations.last()).drop_last() =~= kept);
    }
}

proof fn lemma_of_others_members(reservations: Seq<FileReservationRecord>, self_agent: Seq<char>)
    ensures
        forall|i: int|
            0 <= i < of_others(reservations, self_agent).len() ==> reservations.contains(
                #[trigger] of_others(reservations, self_agent)[i],
            ),
    decreases reservations.len(),
{
    reveal(Seq::filter);
    if reservations.len() > 0 {
        let shorter = reservations.drop_last();
        lemma_of_others_members(shorter, self_agent);
        let before = of_others(shorter, self_agent);
        let kept = of_others(reservations, self_agent);
        assert forall|i: int| 0 <= i < kept.len() implies reservations.contains(
            #[trigger] kept[i],
        ) by {
            if i < before.len() {
                assert(kept[i] == before[i]);
                let k = choose|k: int| 0 <= k < shorter.len() && shorter[k] == before[i];
                assert(reservations[k] == before[i]);
            } else {
                assert(reservations[reservations.len() - 1] == kept[i]);
            }
        }
    }
}

/// Of three checks that succeed where a backslash means the same, one of some
/// paths, one of others and one of both, the last finds the conflicts of the
/// first and then those of the second.
pub proof fn law_checks_of_parts_make_the_check_of_all(
    first: Seq<String>,
    second: Seq<String>,
    reservations: Seq<FileReservationRecord>,
    self_agent: Seq<char>,
    ignorecase: bool,
    separates: bool,
    of_first: Vec<GuardConflict>,
    of_second: Vec<GuardConflict>,
    of_all: Vec<GuardConflict>,
)
    requires
        is_checked(Ok(of_first), first, reservations, self_agent, ignorecase, separates),
        is_checked(Ok(of_second), second, reservations, self_agent, ignorecase, separates),
        is_checked(Ok(of_all), first + second, reservations, self_agent, ignorecase, separates),
    ensures
        conflict_views(of_all@) == conflict_views(of_first@) + conflict_views(of_second@),
{
    assert(views(first + second) =~= views(first) + views(second));
    law_paths_are_judged_alone(
        views(first),
        views(second),
        blocking(reservations, self_agent, ignorecase, separates),
        ignorecase,
        separates,
    );
}

/// The same of any three checks that succeed, wherever they ran, where there
/// are no backslashes.
pub proof fn law_checks_of_parts_make_the_check_of_all_anywhere(
    first: Seq<String>,
    second: Seq<String>,
    reservations: Seq<FileReservationRecord>,
    self_agent: Seq<char>,
    ignorecase: bool,
    of_first: Vec<GuardConflict>,
    of_second: Vec<GuardConflict>,
    of_all: Vec<GuardConflict>,
)
    requires
        free_of_backslashes(first + second, reservations, ignorecase),
        is_check_result(Ok(of_first), first, reservations, self_agent, ignorecase),
        is_check_result(Ok(of_second), second, reservations, self_agent, ignorecase),
        is_check_result(Ok(of_all), first + second, reservations, self_agent, ignorecase),
    ensures
        conflict_views(of_all@) == conflict_views(of_first@) + conflict_views(of_second@),
{
    let all = first + second;
    assert forall|p: int| ignorecase && 0 <= p < first.len() implies !normalized(
        #[trigger] first[p]@,
        ignorecase,
    ).contains('\\') by {
        assert(all[p] == first[p]);
    }
    assert forall|p: int| ignorecase && 0 <= p < second.len() implies !normalized(
        #[trigger] second[p]@,
        ignorecase,
    ).contains('\\') by {
        assert(all[first.len() + p] == second[p]);
    }
    assert(free_of_backslashes(first, reservations, ignorecase));
    assert(free_of_backslashes(second, reservations, ignorecase));
    law_checks_of_parts_make_the_check_of_all(
        first,
        second,
        reservations,
        self_agent,
        ignorecase,
        false,
        of_first,
        of_second,
        of_all,
    );
}

/// A check without the agent's own reservations and the shared ones finds what
/// the check with them finds, where both succeed and a backslash means the
/// same.
pub proof fn law_checks_pass_over_own_and_shared_reservations(
    paths: Seq<String>,
    reservations: Seq<FileReservationRecord>,
    self_agent: Seq<char>,
    ignorecase: bool,
    separates: bool,
    without: Vec<GuardConflict>,
    with: Vec<GuardConflict>,
)
    requires
        is_checked(
            Ok(without),
            paths,
            of_others(reservations, self_agent),
            self_agent,
            ignorecase,
            separates,
        ),
        is_checked(Ok(with), paths, reservations, self_agent, ignorecase, separates),
    ensures
        conflict_views(without@) == conflict_views(with@),
{
    law_own_and_shared_reservations_do_not_block(
        reservations,
        self_agent,
        ignorecase,
        separates,
    );
}

/// The same of any two checks that succeed, wherever they ran, where there are
/// no backslashes.
pub proof fn law_checks_pass_over_own_and_shared_reservations_anywhere(
    paths: Seq<String>,
    reservations: Seq<FileReservationRecord>,
    self_agent: Seq<char>,
    ignorecase: bool,
    without: Vec<GuardConflict>,
    with: Vec<GuardConflict>,
)
    requires
        free_of_backslashes(paths, reservations, ignorecase),
        is_check_result(
            Ok(without),
            paths,
            of_others(reservations, self_agent),
            self_agent,
            ignorecase,
        ),
        is_check_result(Ok(with), paths, reservations, self_agent, ignorecase),
    ensures
        conflict_views(without@) == conflict_views(with@),
{
    let kept = of_others(reservations, self_agent);
    lemma_of_others_members(reservations, self_agent);
    assert forall|i: int| 0 <= i < kept.len() implies !(
    #[trigger] kept[i]).normalized_pattern@.contains('\\') by {
        let k = choose|k: int| 0 <= k < reservations.len() && reservations[k] == kept[i];
        assert(!reservations[k].normalized_pattern@.contains('\\'));
    }
    assert(free_of_backslashes(paths, kept, ignorecase));
    law_checks_pass_over_own_and_shared_reservations(
        paths,
        reservations,
        self_agent,
        ignorecase,
        false,
        without,
        with,
    );
}

/// The components of `outer` are the first of `inner`, which has more.
pub open spec fn starts_below(inner: Seq<Seq<char>>, outer: Seq<Seq<char>>) -> bool {
    &&& outer.len() < inner.len()
    &&& forall|i: int| 0 <= i < outer.len() ==> #[trigger] outer[i] == inner[i]
}

/// A pattern and a path have a directory in common, told by their parts
/// between slashes: the path is a directory above the pattern, or the pattern,
/// if it is no glob, one above the path. The root, which is empty, is above
/// everything.
pub open spec fn meets(pattern: Seq<char>, glob: bool, path: Seq<char>) -> bool {
    ||| path.len() == 0
    ||| starts_below(split_on(pattern, '/'), split_on(path, '/'))
    ||| !glob && pattern.len() == 0
    ||| !glob && starts_below(split_on(path, '/'), split_on(pattern, '/'))
}

/// Directories overlap by whole components: a name that merely starts like
/// another is a different name.
pub proof fn law_overlap_is_by_whole_components(
    res: FileReservationRecord,
    path: Seq<char>,
    ignorecase: bool,
)
    ensures
        overlaps_by_directory(res, path, ignorecase) <==> meets(
            if ignorecase {
                unicode_lower(res.normalized_pattern@)
            } else {
                res.normalized_pattern@
            },
            res.has_glob,
            path,
        ),
{
    let pattern = prefix_pattern(res, ignorecase);
    lemma_below_by_parts(pattern, path);
    lemma_below_by_parts(path, pattern);
    let a = split_on(pattern, '/');
    let b = split_on(path, '/');
    assert(starts_below(a, b) <==> b.is_prefix_of(a) && b.len() < a.len());
    assert(starts_below(b, a) <==> a.is_prefix_of(b) && a.len() < b.len());
}

/// An exclusive reservation of somebody else whose pattern, which holds no
/// backslash, compiles.
pub open spec fn holds_off(
    res: FileReservationRecord,
    self_agent: Seq<char>,
    ignorecase: bool,
) -> bool {
    &&& res.exclusive
    &&& !same_ignoring_ascii_case(res.agent_name@, self_agent)
    &&& glob_error(res.normalized_pattern@, ignorecase, false) is None
}

/// The glob of a reservation matches the normal form of a path.
pub open spec fn is_hit(
    res: FileReservationRecord,
    path: Seq<char>,
    ignorecase: bool,
) -> bool {
    glob_matches(res.normalized_pattern@, ignorecase, normalized(path, ignorecase), false)
}

/// A reservation and the normal form of a path have a directory in common.
pub open spec fn is_met(
    res: FileReservationRecord,
    path: Seq<char>,
    ignorecase: bool,
) -> bool {
    meets(
        if ignorecase {
            unicode_lower(res.normalized_pattern@)
        } else {
            res.normalized_pattern@
        },
        res.has_glob,
        normalized(path, ignorecase),
    )
}

proof fn lemma_first_match_first(
    active: Seq<FileReservationRecord>,
    path: Seq<char>,
    ignorecase: bool,
    from: int,
    separates: bool,
)
    requires
        0 <= from,
    ensures
        first_match(active, path, ignorecase, from, separates) matches Some(i) ==> forall|j: int|
            from <= j < i ==> !pattern_matches(
                (#[trigger] active[j]).normalized_pattern@,
                ignorecase,
                path,
                separates,
            ),
    decreases active.len() - from,
{
    if from < active.len() {
        lemma_first_match_first(active, path, ignorecase, from + 1, separates);
    }
}

proof fn lemma_first_overlap_first(
    active: Seq<FileReservationRecord>,
    path: Seq<char>,
    ignorecase: bool,
    from: int,
)
    requires
        0 <= from,
    ensures
        first_overlap(active, path, ignorecase, from) matches Some(i) ==> forall|j: int|
            from <= j < i ==> !overlaps_by_directory(#[trigger] active[j], path, ignorecase),
    decreases active.len() - from,
{
    if from < active.len() {
        lemma_first_overlap_first(active, path, ignorecase, from + 1);
    }
}

/// Where each blocking reservation stands among all, in the same order.
proof fn lemma_blocking_places(
    reservations: Seq<FileReservationRecord>,
    self_agent: Seq<char>,
    ignorecase: bool,
    separates: bool,
) -> (at: Seq<int>)
    ensures
        at.len() == blocking(reservations, self_agent, ignorecase, separates).len(),
        forall|g: int|
            0 <= g < at.len() ==> 0 <= #[trigger] at[g] < reservations.len() && reservations[at[g]]
                == blocking(reservations, self_agent, ignorecase, separates)[g] && can_block(
                reservations[at[g]],
                self_agent,
                ignorecase,
                separates,
            ),
        forall|g: int, h: int| 0 <= g < h < at.len() ==> at[g] < at[h],
        forall|r: int|
            0 <= r < reservations.len() && can_block(
                #[trigger] reservations[r],
                self_agent,
                ignorecase,
                separates,
            ) ==> at.contains(r),
    decreases reservations.len(),
{
    if reservations.len() == 0 {
        Seq::empty()
    } else {
        let shorter = reservations.drop_last();
        let before = lemma_blocking_places(shorter, self_agent, ignorecase, separates);
        let last = reservations.len() - 1;
        assert forall|r: int| 0 <= r < last implies reservations[r] == #[trigger] shorter[r] by {
        }
        if can_block(reservations.last(), self_agent, ignorecase, separates) {
            let at = before.push(last);
            assert forall|r: int|
                0 <= r < reservations.len() && can_block(
                    #[trigger] reservations[r],
                    self_agent,
                    ignorecase,
                    separates,
                ) implies at.contains(r) by {
                if r < last {
                    assert(shorter[r] == reservations[r]);
                    let k = choose|k: int| 0 <= k < before.len() && before[k] == r;
                    assert(at[k] == r);
                } else {
                    assert(at[before.len() as int] == r);
                }
            }
            at
        } else {
            assert forall|r: int|
                0 <= r < reservations.len() && can_block(
                    #[trigger] reservations[r],
                    self_agent,
                    ignorecase,
                    separates,
                ) implies before.contains(r) by {
                assert(r < last);
                assert(shorter[r] == reservations[r]);
            }
            before
        }
    }
}

/// What the check of one path finds, where no pattern and no normal path
/// holds a backslash. The path conflicts exactly where it is not exempt and
/// the glob of an exclusive reservation of somebody else matches it, or the two
/// have a directory in common. Of such reservations the first whose glob
/// matches is named, or else the first with a directory in common, by its
/// pattern as it was written, its holder and its expiry.
pub proof fn law_the_check_of_one_path(
    paths: &Vec<String>,
    reservations: &Vec<FileReservationRecord>,
    self_agent: &str,
    ignorecase: bool,
    found: Vec<GuardConflict>,
)
    requires
        paths@.len() == 1,
        forall|i: int|
            0 <= i < reservations@.len() ==> !(
            #[trigger] reservations@[i]).normalized_pattern@.contains('\\'),
        ignorecase ==> !normalized(paths@[0]@, ignorecase).contains('\\'),
        call_ensures(
            check_path_conflicts,
            (paths, reservations, self_agent, ignorecase),
            Ok(found),
        ),
    ensures
        found@.len() <= 1,
        found@.len() == 1 <==> !is_exempt(paths@[0]@, ignorecase) && exists|r: int|
            0 <= r < reservations@.len() && holds_off(
                #[trigger] reservations@[r],
                self_agent@,
                ignorecase,
            ) && (is_hit(reservations@[r], paths@[0]@, ignorecase) || is_met(
                reservations@[r],
                paths@[0]@,
                ignorecase,
            )),
        found@.len() == 1 ==> exists|r: int|
            0 <= r < reservations@.len() && is_named(
                found@[0],
                #[trigger] reservations@[r],
                paths@[0]@,
            ) && holds_off(reservations@[r], self_agent@, ignorecase) && (is_hit(
                reservations@[r],
                paths@[0]@,
                ignorecase,
            ) || is_met(reservations@[r], paths@[0]@, ignorecase)) && (forall|q: int|
                0 <= q < reservations@.len() && holds_off(
                    #[trigger] reservations@[q],
                    self_agent@,
                    ignorecase,
                ) ==> !passed_over(reservations@, q, r, paths@[0]@, ignorecase)),
{
    let separates = false;
    let path = paths@[0]@;
    let normal = normalized(path, ignorecase);
    let all = reservations@;
    if !ignorecase {
        law_normal_path_holds_no_backslash(path);
    }
    assert(free_of_backslashes(paths@, all, ignorecase));
    let active = blocking(all, self_agent@, ignorecase, separates);
    assert(views(paths@) =~= seq![path]);
    assert(seq![path].drop_last() =~= Seq::<Seq<char>>::empty());
    assert(conflicts_of(seq![path].drop_last(), active, ignorecase, separates) =~= Seq::<
        Conflict,
    >::empty());
    assert(conflict_views(found@).len() == found@.len());
    let at = lemma_blocking_places(all, self_agent@, ignorecase, separates);
    assert forall|r: int| 0 <= r < all.len() implies (can_block(
        #[trigger] all[r],
        self_agent@,
        ignorecase,
        separates,
    ) <==> holds_off(all[r], self_agent@, ignorecase)) && (pattern_matches(
        all[r].normalized_pattern@,
        ignorecase,
        normal,
        separates,
    ) <==> is_hit(all[r], path, ignorecase)) && (overlaps_by_directory(all[r], normal, ignorecase)
        <==> is_met(all[r], path, ignorecase)) by {
        law_overlap_is_by_whole_components(all[r], normal, ignorecase);
    }
    law_a_path_is_blocked_exactly_where_it_is_reserved(
        path,
        all,
        self_agent@,
        ignorecase,
        separates,
    );
    if found@.len() == 1 {
        assert(conflict_of(path, active, ignorecase, separates) is Some);
        let g = holder_index(active, normal, ignorecase, separates)->0;
        lemma_first_match_bound(active, normal, ignorecase, 0, separates);
        lemma_first_overlap_bound(active, normal, ignorecase, 0);
        lemma_first_match_first(active, normal, ignorecase, 0, separates);
        lemma_first_overlap_first(active, normal, ignorecase, 0);
        let r = at[g];
        assert(all[r] == active[g]);
        assert(conflict_views(found@)[0] == found@[0]@);
        assert(is_named(found@[0], all[r], path));
        assert forall|q: int| 0 <= q < all.len() && holds_off(
            #[trigger] all[q],
            self_agent@,
            ignorecase,
        ) implies !passed_over(all, q, r, path, ignorecase) by {
            let h = choose|h: int| 0 <= h < at.len() && at[h] == q;
            assert(all[at[h]] == active[h]);
            if is_hit(all[q], path, ignorecase) {
                lemma_first_match_found(active, normal, ignorecase, 0, h, separates);
            }
            if q < r {
                if h >= g && h > g {
                    assert(at[g] < at[h]);
                }
                assert(h < g);
            }
        }
    }
    if conflict_of(path, active, ignorecase, separates) is Some {
        assert(found@.len() == 1);
    }
}

/// The conflict names this path and this reservation.
pub open spec fn is_named(c: GuardConflict, res: FileReservationRecord, path: Seq<char>) -> bool {
    &&& c.path@ == path
    &&& c.pattern@ == res.path_pattern@
    &&& c.holder@ == res.agent_name@
    &&& c.expires_ts@ == res.expires_ts@
}

/// The reservation `q` was owed the place of `r`: it matches where `r` does
/// not, or it comes before `r` and is no worse.
pub open spec fn passed_over(
    reservations: Seq<FileReservationRecord>,
    q: int,
    r: int,
    path: Seq<char>,
    ignorecase: bool,
) -> bool {
    let hit_q = is_hit(reservations[q], path, ignorecase);
    let hit_r = is_hit(reservations[r], path, ignorecase);
    ||| hit_q && !hit_r
    ||| q < r && hit_q && hit_r
    ||| q < r && !hit_r && is_met(reservations[q], path, ignorecase)
}

/// A literal reservation and a path of which neither lies below the other, by
/// whole components, do not conflict unless the pattern matches the path:
/// `app/api` says nothing about `app/api_v2/file.py`.
pub proof fn law_siblings_do_not_conflict(
    paths: &Vec<String>,
    reservations: &Vec<FileReservationRecord>,
    self_agent: &str,
    pattern: Seq<Seq<char>>,
    r: GuardResult<Vec<GuardConflict>>,
)
    requires
        paths@.len() == 1,
        reservations@.len() == 1,
        !reservations@[0].normalized_pattern@.contains('\\'),
        reservations@[0].normalized_pattern@ == joined(pattern, "/"@),
        joined(pattern, "/"@).len() > 0,
        pattern.len() > 0,
        forall|i: int| 0 <= i < pattern.len() ==> !(#[trigger] pattern[i]).contains('/'),
        path_components(paths@[0]@).len() > 0,
        !pattern.is_prefix_of(path_components(paths@[0]@)),
        !path_components(paths@[0]@).is_prefix_of(pattern),
        !glob_matches(
            reservations@[0].normalized_pattern@,
            false,
            joined(path_components(paths@[0]@), "/"@),
            false,
        ),
        call_ensures(check_path_conflicts, (paths, reservations, self_agent, false), r),
    ensures
        r matches Ok(found) ==> found@.len() == 0,
{
    if r is Ok {
        let found = r->Ok_0;
        let path = paths@[0]@;
        let parts = path_components(path);
        law_the_check_of_one_path(paths, reservations, self_agent, false, found);
        law_normal_paths_split_into_their_components(path);
        lemma_split_of_joined(pattern);
        assert(!starts_below(pattern, parts)) by {
            if starts_below(pattern, parts) {
                assert(parts.is_prefix_of(pattern));
            }
        }
        assert(!starts_below(parts, pattern)) by {
            if starts_below(parts, pattern) {
                assert(pattern.is_prefix_of(parts));
            }
        }
        assert(!is_hit(reservations@[0], path, false));
        assert(!is_met(reservations@[0], path, false));
    }
}

/// An exclusive reservation of somebody else whose pattern is no glob, and
/// compiles, blocks every path below its directory, by whatever other
/// reservation the conflict is explained; where there are no backslashes. So
/// does a path above it.
pub proof fn law_a_directory_is_held_with_all_below(
    paths: &Vec<String>,
    reservations: &Vec<FileReservationRecord>,
    self_agent: &str,
    ignorecase: bool,
    at: int,
    below: Seq<char>,
    found: Vec<GuardConflict>,
)
    requires
        paths@.len() == 1,
        forall|i: int|
            0 <= i < reservations@.len() ==> !(
            #[trigger] reservations@[i]).normalized_pattern@.contains('\\'),
        ignorecase ==> !normalized(paths@[0]@, ignorecase).contains('\\'),
        0 <= at < reservations@.len(),
        reservations@[at].exclusive,
        !same_ignoring_ascii_case(reservations@[at].agent_name@, self_agent@),
        glob_error(reservations@[at].normalized_pattern@, ignorecase, false) is None,
        ({
            let pattern = if ignorecase {
                unicode_lower(reservations@[at].normalized_pattern@)
            } else {
                reservations@[at].normalized_pattern@
            };
            ||| !reservations@[at].has_glob && normalized(paths@[0]@, ignorecase) == pattern.push(
                '/',
            ) + below
            ||| normalized(paths@[0]@, ignorecase).push('/') + below == pattern
        }),
        !is_exempt(paths@[0]@, ignorecase),
        call_ensures(
            check_path_conflicts,
            (paths, reservations, self_agent, ignorecase),
            Ok(found),
        ),
    ensures
        found@.len() == 1,
        found@[0].path@ == paths@[0]@,
{
    let res = reservations@[at];
    let path = paths@[0]@;
    let normal = normalized(path, ignorecase);
    let pattern = if ignorecase {
        unicode_lower(res.normalized_pattern@)
    } else {
        res.normalized_pattern@
    };
    law_the_check_of_one_path(paths, reservations, self_agent, ignorecase, found);
    lemma_below_by_parts(normal, pattern);
    lemma_below_by_parts(pattern, normal);
    if !res.has_glob && normal == pattern.push('/') + below {
        assert(pattern.is_prefix_of(normal));
        assert(starts_below(split_on(normal, '/'), split_on(pattern, '/')));
    } else {
        assert(normal.is_prefix_of(pattern));
        assert(starts_below(split_on(pattern, '/'), split_on(normal, '/')));
    }
    assert(holds_off(res, self_agent@, ignorecase) && is_met(res, path, ignorecase));
}

/// A check finds what the checks of its paths one after the other find, in the
/// order of the paths, and without paths it finds nothing; where there are no
/// backslashes.
pub proof fn law_each_path_is_checked(
    first: &Vec<String>,
    second: &Vec<String>,
    both: &Vec<String>,
    reservations: &Vec<FileReservationRecord>,
    self_agent: &str,
    ignorecase: bool,
    of_first: Vec<GuardConflict>,
    of_second: Vec<GuardConflict>,
    of_both: Vec<GuardConflict>,
)
    requires
        both@ == first@ + second@,
        free_of_backslashes(both@, reservations@, ignorecase),
        call_ensures(
            check_path_conflicts,
            (first, reservations, self_agent, ignorecase),
            Ok(of_first),
        ),
        call_ensures(
            check_path_conflicts,
            (second, reservations, self_agent, ignorecase),
            Ok(of_second),
        ),
        call_ensures(
            check_path_conflicts,
            (both, reservations, self_agent, ignorecase),
            Ok(of_both),
        ),
    ensures
        conflict_views(of_both@) == conflict_views(of_first@) + conflict_views(of_second@),
        first@.len() == 0 ==> of_first@.len() == 0,
{
    law_checks_of_parts_make_the_check_of_all_anywhere(
        first@,
        second@,
        reservations@,
        self_agent@,
        ignorecase,
        of_first,
        of_second,
        of_both,
    );
    assert(conflict_views(of_first@).len() == of_first@.len());
}

/// Where every reservation is shared or the agent's own, in whatever ASCII
/// case, the check succeeds and finds nothing.
pub proof fn law_own_and_shared_reservations_let_everything_pass(
    paths: &Vec<String>,
    reservations: &Vec<FileReservationRecord>,
    self_agent: &str,
    ignorecase: bool,
    r: GuardResult<Vec<GuardConflict>>,
)
    requires
        forall|i: int|
            0 <= i < reservations@.len() ==> !(#[trigger] reservations@[i]).exclusive
                || same_ignoring_ascii_case(reservations@[i].agent_name@, self_agent@),
        call_ensures(check_path_conflicts, (paths, reservations, self_agent, ignorecase), r),
    ensures
        r matches Ok(found) && found@.len() == 0,
{
    let separates = choose|separates: bool| #[trigger]
        is_checked(r, paths@, reservations@, self_agent@, ignorecase, separates);
    lemma_blocking_members(reservations@, self_agent@, ignorecase, separates);
    let active = blocking(reservations@, self_agent@, ignorecase, separates);
    if active.len() > 0 {
        assert(can_block(active[0], self_agent@, ignorecase, separates));
        let k = choose|k: int| 0 <= k < reservations@.len() && reservations@[k] == active[0];
        assert(reservations@[k].exclusive);
    }
}

/// A warning comes of exactly the exclusive reservations of other agents whose
/// patterns do not compile; one more reservation adds its warning, or nothing,
/// behind those before. Where no pattern holds a backslash.
pub proof fn law_a_pattern_that_does_not_compile_is_told(
    before: &Vec<FileReservationRecord>,
    all: &Vec<FileReservationRecord>,
    res: FileReservationRecord,
    self_agent: &str,
    ignorecase: bool,
    of_before: Vec<String>,
    of_all: Vec<String>,
)
    requires
        all@ == before@.push(res),
        forall|i: int|
            0 <= i < all@.len() ==> !(#[trigger] all@[i]).normalized_pattern@.contains('\\'),
        call_ensures(invalid_pattern_warnings, (before, self_agent, ignorecase), of_before),
        call_ensures(invalid_pattern_warnings, (all, self_agent, ignorecase), of_all),
    ensures
        before@.len() == 0 ==> of_before@.len() == 0,
        ({
            let error = glob_error(res.normalized_pattern@, ignorecase, false);
            if res.exclusive && !same_ignoring_ascii_case(res.agent_name@, self_agent@)
                && error is Some {
                of_all@.len() == of_before@.len() + 1 && views(of_all@).drop_last() == views(
                    of_before@,
                ) && of_all@.last()@ == "[agent-mail guard] warning: invalid glob pattern '"@
                    + res.normalized_pattern@ + "' in reservation by "@ + res.agent_name@ + ": "@
                    + error->0
            } else {
                views(of_all@) == views(of_before@)
            }
        }),
{
    assert forall|i: int| 0 <= i < before@.len() implies !(
    #[trigger] before@[i]).normalized_pattern@.contains('\\') by {
        assert(all@[i] == before@[i]);
    }
    assert(all@.drop_last() =~= before@);
    assert(all@[before@.len() as int] == res);
    assert(views(of_before@).len() == of_before@.len());
    assert(views(of_all@).len() == of_all@.len());
    if of_all@.len() > 0 {
        assert(views(of_all@).last() == of_all@.last()@);
    }
    let more = views(of_before@).push(pattern_warning(res, glob_error(res.normalized_pattern@, ignorecase, false)->0));
    assert(more.drop_last() =~= views(of_before@));
}

proof fn lemma_warning_is_told(
    reservations: Seq<FileReservationRecord>,
    self_agent: Seq<char>,
    ignorecase: bool,
    separates: bool,
    at: int,
)
    requires
        0 <= at < reservations.len(),
        reservations[at].exclusive,
        !same_ignoring_ascii_case(reservations[at].agent_name@, self_agent),
        pattern_error(reservations[at].normalized_pattern@, ignorecase, separates) is Some,
    ensures
        warnings_of(reservations, self_agent, ignorecase, separates).contains(
            pattern_warning(
                reservations[at],
                pattern_error(reservations[at].normalized_pattern@, ignorecase, separates)->0,
            ),
        ),
    decreases reservations.len(),
{
    let rest = reservations.drop_last();
    let before = warnings_of(rest, self_agent, ignorecase, separates);
    let all = warnings_of(reservations, self_agent, ignorecase, separates);
    let w = pattern_warning(
        reservations[at],
        pattern_error(reservations[at].normalized_pattern@, ignorecase, separates)->0,
    );
    if at == rest.len() {
        assert(all == before.push(w));
        assert(all[before.len() as int] == w);
    } else {
        assert(rest[at] == reservations[at]);
        lemma_warning_is_told(rest, self_agent, ignorecase, separates, at);
        let k = choose|k: int| 0 <= k < before.len() && before[k] == w;
        assert(all[k] == w);
    }
}

proof fn lemma_at_most_one_warning_each(
    reservations: Seq<FileReservationRecord>,
    self_agent: Seq<char>,
    ignorecase: bool,
    separates: bool,
)
    ensures
        warnings_of(reservations, self_agent, ignorecase, separates).len() <= reservations.len(),
    decreases reservations.len(),
{
    if reservations.len() > 0 {
        lemma_at_most_one_warning_each(reservations.drop_last(), self_agent, ignorecase, separates);
    }
}

/// A pattern without a backslash that does not compile is told wherever it
/// stands, whatever the others hold, and no reservation is told twice.
pub proof fn law_every_plain_pattern_that_does_not_compile_is_told(
    reservations: &Vec<FileReservationRecord>,
    at: int,
    self_agent: &str,
    ignorecase: bool,
    r: Vec<String>,
)
    requires
        0 <= at < reservations@.len(),
        call_ensures(invalid_pattern_warnings, (reservations, self_agent, ignorecase), r),
    ensures
        r@.len() <= reservations@.len(),
        ({
            let res = reservations@[at];
            let error = glob_error(res.normalized_pattern@, ignorecase, false);
            res.exclusive && !same_ignoring_ascii_case(res.agent_name@, self_agent@)
                && !res.normalized_pattern@.contains('\\') && error is Some ==> views(r@).contains(
                "[agent-mail guard] warning: invalid glob pattern '"@ + res.normalized_pattern@
                    + "' in reservation by "@ + res.agent_name@ + ": "@ + error->0,
            )
        }),
{
    let separates = choose|separates: bool|
        views(r@) == #[trigger] warnings_of(reservations@, self_agent@, ignorecase, separates);
    let res = reservations@[at];
    assert(views(r@).len() == r@.len());
    lemma_at_most_one_warning_each(reservations@, self_agent@, ignorecase, separates);
    if res.exclusive && !same_ignoring_ascii_case(res.agent_name@, self_agent@)
        && !res.normalized_pattern@.contains('\\') && glob_error(
        res.normalized_pattern@,
        ignorecase,
        false,
    ) is Some {
        lemma_warning_is_told(reservations@, self_agent@, ignorecase, separates, at);
    }
}

} // verus!
