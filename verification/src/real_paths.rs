//! Paths that lead through real directories only.
//!
//! The file system is the caller's part; what an entry means for a path is
//! decided here.

use vstd::prelude::*;

use crate::text::same;

verus! {

/// A component of a path.
#[derive(Debug, Clone, Copy, PartialEq, Eq, Structural)]
pub enum PathComponent {
    Prefix,
    RootDir,
    CurDir,
    ParentDir,
    Normal,
}

/// What is found at a path, without following a link at its end.
#[derive(Debug)]
pub enum Entry {
    Directory,
    File,
    /// A link; a trusted one is an alias that the platform itself keeps.
    Symlink { trusted: bool },
    /// Neither a directory nor a file nor a link.
    Special,
    Missing,
    /// It could not be looked at.
    Unreadable { error: String },
}

/// Where a link that the platform keeps as an alias of a root directory leads.
pub fn platform_alias_target(path: &str) -> (r: Option<&'static str>)
    ensures
        if path@ == "/etc"@ {
            r matches Some(t) && t@ == "/private/etc"@
        } else if path@ == "/tmp"@ {
            r matches Some(t) && t@ == "/private/tmp"@
        } else if path@ == "/var"@ {
            r matches Some(t) && t@ == "/private/var"@
        } else {
            r is None
        },
{
    if same(path, "/etc") {
        Some("/private/etc")
    } else if same(path, "/tmp") {
        Some("/private/tmp")
    } else if same(path, "/var") {
        Some("/private/var")
    } else {
        None
    }
}

/// A step along a path: the component, the path up to it as it is shown, and
/// what is found there.
#[derive(Debug)]
pub struct PathStep {
    pub component: PathComponent,
    pub current: String,
    pub entry: Entry,
}

/// The problem of a component that leads upwards.
pub open spec fn traversal_problem(label: Seq<char>, path: Seq<char>) -> Seq<char> {
    "refusing to traverse "@ + label + " with parent traversal: "@ + path
}

/// What an entry is for a path that must lead through directories: a problem,
/// nothing, or a directory that is not there yet.
pub enum StepVerdict {
    Fine,
    /// Create the directory, or fail where nothing may be created.
    Absent,
    Problem(Seq<char>),
}

/// What a step means. Only the names along the path are looked at, and each
/// must be a directory or an alias that the platform keeps.
pub open spec fn step_verdict(
    component: PathComponent,
    current: Seq<char>,
    entry: Entry,
    label: Seq<char>,
    path: Seq<char>,
) -> StepVerdict {
    match component {
        PathComponent::ParentDir => StepVerdict::Problem(traversal_problem(label, path)),
        PathComponent::Normal => match entry {
            Entry::Directory => StepVerdict::Fine,
            Entry::Symlink { trusted } => if trusted {
                StepVerdict::Fine
            } else {
                StepVerdict::Problem(label + " "@ + current + " must not be a symlink"@)
            },
            Entry::File => StepVerdict::Problem(
                label + " "@ + current + " exists but is not a directory"@,
            ),
            Entry::Special => StepVerdict::Problem(
                label + " "@ + current + " exists but is not a directory"@,
            ),
            Entry::Missing => StepVerdict::Absent,
            Entry::Unreadable { error } => StepVerdict::Problem(error@),
        },
        _ => StepVerdict::Fine,
    }
}

/// What to do at a step.
#[derive(Debug)]
pub enum StepAction {
    /// Go on.
    Continue,
    /// Create the directory, then go on.
    Create,
}

/// Judges a step along a path whose directories may be created.
pub fn ensure_real_directory_tree_step(step: &PathStep, label: &str, path: &str) -> (r: Result<
    StepAction,
    String,
>)
    ensures
        match step_verdict(step.component, step.current@, step.entry, label@, path@) {
            StepVerdict::Fine => r matches Ok(action) && action is Continue,
            StepVerdict::Absent => r matches Ok(action) && action is Create,
            StepVerdict::Problem(text) => r matches Err(e) && e@ == text,
        },
{
    match step.component {
        PathComponent::ParentDir => Err(
            "refusing to traverse ".to_owned().concat(label).concat(
                " with parent traversal: ",
            ).concat(path),
        ),
        PathComponent::Normal => match &step.entry {
            Entry::Directory => Ok(StepAction::Continue),
            Entry::Symlink { trusted } => if *trusted {
                Ok(StepAction::Continue)
            } else {
                Err(
                    label.to_owned().concat(" ").concat(step.current.as_str()).concat(
                        " must not be a symlink",
                    ),
                )
            },
            Entry::File => Err(
                label.to_owned().concat(" ").concat(step.current.as_str()).concat(
                    " exists but is not a directory",
                ),
            ),
            Entry::Special => Err(
                label.to_owned().concat(" ").concat(step.current.as_str()).concat(
                    " exists but is not a directory",
                ),
            ),
            Entry::Missing => Ok(StepAction::Create),
            Entry::Unreadable { error } => Err(error.clone()),
        },
        _ => Ok(StepAction::Continue),
    }
}

/// What is said of a directory that could not be created.
pub fn create_directory_problem(label: &str, current: &str, error: &str) -> (r: String)
    ensures
        r@ == "cannot create "@ + label@ + " "@ + current@ + ": "@ + error@,
{
    "cannot create ".to_owned().concat(label).concat(" ").concat(current).concat(": ").concat(error)
}

/// The problem of a step along a path that must be there, if it has one.
pub open spec fn existing_problem(step: PathStep, label: Seq<char>, path: Seq<char>) -> Option<
    Seq<char>,
> {
    match step_verdict(step.component, step.current@, step.entry, label, path) {
        StepVerdict::Fine => None,
        StepVerdict::Absent => Some(label + " "@ + step.current@ + " does not exist"@),
        StepVerdict::Problem(text) => Some(text),
    }
}

/// The problem of the first step that has one.
pub open spec fn first_problem(steps: Seq<PathStep>, label: Seq<char>, path: Seq<char>) -> Option<
    Seq<char>,
>
    decreases steps.len(),
{
    if steps.len() == 0 {
        None
    } else if existing_problem(steps[0], label, path) is Some {
        existing_problem(steps[0], label, path)
    } else {
        first_problem(steps.skip(1), label, path)
    }
}

/// Judges a path whose directories must all be there, by the steps along it.
/// The steps behind the first problem do not matter.
pub fn validate_real_existing_directory(steps: &Vec<PathStep>, label: &str, path: &str) -> (r:
    Result<(), String>)
    ensures
        match first_problem(steps@, label@, path@) {
            None => r is Ok,
            Some(text) => r matches Err(e) && e@ == text,
        },
{
    let mut i: usize = 0;
    assert(steps@.skip(0) =~= steps@);
    while i < steps.len()
        invariant
            i <= steps@.len(),
            first_problem(steps@, label@, path@) == first_problem(
                steps@.skip(i as int),
                label@,
                path@,
            ),
        decreases steps@.len() - i,
    {
        assert(steps@.skip(i as int)[0] == steps@[i as int]);
        assert(steps@.skip(i as int).skip(1) =~= steps@.skip(i + 1));
        match ensure_real_directory_tree_step(&steps[i], label, path) {
            Err(e) => {
                return Err(e);
            },
            Ok(StepAction::Create) => {
                return Err(
                    label.to_owned().concat(" ").concat(steps[i].current.as_str()).concat(
                        " does not exist",
                    ),
                );
            },
            Ok(StepAction::Continue) => {},
        }
        i = i + 1;
    }
    Ok(())
}

/// The problem of what is found where a file is or will be, if it has one.
pub open spec fn target_problem(entry: Entry, label: Seq<char>, path: Seq<char>) -> Option<Seq<char>> {
    match entry {
        Entry::File => None,
        Entry::Missing => None,
        Entry::Symlink { .. } => Some(label + " "@ + path + " must not be a symlink"@),
        Entry::Directory => Some(label + " "@ + path + " exists but is not a file"@),
        Entry::Special => Some(label + " "@ + path + " exists but is not a file"@),
        Entry::Unreadable { error } => Some(error@),
    }
}

/// Judges a path to a file: its parent, where it has one, must lead through
/// real directories, and what is there must be a file or nothing.
pub fn validate_real_file_target_path(
    parent: Option<(&Vec<PathStep>, &str)>,
    entry: &Entry,
    label: &str,
    path: &str,
) -> (r: Result<(), String>)
    ensures
        match parent {
            Some((steps, parent_path)) => match first_problem(
                steps@,
                label@ + " parent"@,
                parent_path@,
            ) {
                Some(text) => r matches Err(e) && e@ == text,
                None => match target_problem(*entry, label@, path@) {
                    Some(text) => r matches Err(e) && e@ == text,
                    None => r is Ok,
                },
            },
            None => match target_problem(*entry, label@, path@) {
                Some(text) => r matches Err(e) && e@ == text,
                None => r is Ok,
            },
        },
{
    if let Some((steps, parent_path)) = parent {
        let parent_label = label.to_owned().concat(" parent");
        if let Err(e) = validate_real_existing_directory(steps, parent_label.as_str(), parent_path) {
            return Err(e);
        }
    }
    match entry {
        Entry::File => Ok(()),
        Entry::Missing => Ok(()),
        Entry::Symlink { .. } => Err(
            label.to_owned().concat(" ").concat(path).concat(" must not be a symlink"),
        ),
        Entry::Directory => Err(
            label.to_owned().concat(" ").concat(path).concat(" exists but is not a file"),
        ),
        Entry::Special => Err(
            label.to_owned().concat(" ").concat(path).concat(" exists but is not a file"),
        ),
        Entry::Unreadable { error } => Err(error.clone()),
    }
}

/// What a search for links along a path finds.
pub enum LinkSearch {
    Found,
    NotFound,
    Problem(Seq<char>),
}

/// Whether a step is a link, other than an alias that the platform keeps.
pub open spec fn link_at(step: PathStep, path: Seq<char>) -> LinkSearch {
    if step.component == PathComponent::ParentDir {
        LinkSearch::Problem(traversal_problem("listener PID hint path"@, path))
    } else {
        match step.entry {
            Entry::Symlink { trusted } => if trusted {
                LinkSearch::NotFound
            } else {
                LinkSearch::Found
            },
            Entry::Unreadable { error } => LinkSearch::Problem(error@),
            _ => LinkSearch::NotFound,
        }
    }
}

pub open spec fn first_link(steps: Seq<PathStep>, path: Seq<char>) -> LinkSearch
    decreases steps.len(),
{
    if steps.len() == 0 {
        LinkSearch::NotFound
    } else if link_at(steps[0], path) !is NotFound {
        link_at(steps[0], path)
    } else {
        first_link(steps.skip(1), path)
    }
}

/// Whether a path leads through a link, as far as it exists.
pub fn path_existing_prefix_has_symlink(steps: &Vec<PathStep>, path: &str) -> (r: Result<
    bool,
    String,
>)
    ensures
        match first_link(steps@, path@) {
            LinkSearch::Found => r == Ok::<bool, String>(true),
            LinkSearch::NotFound => r == Ok::<bool, String>(false),
            LinkSearch::Problem(text) => r matches Err(e) && e@ == text,
        },
{
    let mut i: usize = 0;
    assert(steps@.skip(0) =~= steps@);
    while i < steps.len()
        invariant
            i <= steps@.len(),
            first_link(steps@, path@) == first_link(steps@.skip(i as int), path@),
        decreases steps@.len() - i,
    {
        assert(steps@.skip(i as int)[0] == steps@[i as int]);
        assert(steps@.skip(i as int).skip(1) =~= steps@.skip(i + 1));
        match steps[i].component {
            PathComponent::ParentDir => {
                return Err(
                    "refusing to traverse ".to_owned().concat("listener PID hint path").concat(
                        " with parent traversal: ",
                    ).concat(path),
                );
            },
            _ => {},
        }
        match &steps[i].entry {
            Entry::Symlink { trusted } => {
                if !*trusted {
                    return Ok(true);
                }
            },
            Entry::Unreadable { error } => {
                return Err(error.clone());
            },
            _ => {},
        }
        i = i + 1;
    }
    Ok(false)
}

/// A path that is accepted leads through directories only: no step upwards, no
/// link but an alias of the platform, and nothing missing.
pub proof fn law_accepted_path_is_real(
    steps: Seq<PathStep>,
    label: Seq<char>,
    path: Seq<char>,
    i: int,
)
    requires
        first_problem(steps, label, path) is None,
        0 <= i < steps.len(),
    ensures
        steps[i].component != PathComponent::ParentDir,
        steps[i].component == PathComponent::Normal ==> (steps[i].entry is Directory || (
        steps[i].entry matches Entry::Symlink { trusted } && trusted)),
    decreases steps.len(),
{
    if i > 0 {
        law_accepted_path_is_real(steps.skip(1), label, path, i - 1);
        assert(steps.skip(1)[i - 1] == steps[i]);
    }
}

/// An alias of the platform leads to the directory of the same name below
/// `/private`, and there are three.
pub proof fn law_aliases_lead_below_private(path: &str, r: Option<&'static str>)
    requires
        call_ensures(platform_alias_target, (path,), r),
    ensures
        r is Some <==> path@ == "/etc"@ || path@ == "/tmp"@ || path@ == "/var"@,
        r is Some ==> r->0@ == "/private"@ + path@,
{
    reveal_strlit("/private");
    reveal_strlit("/etc");
    reveal_strlit("/tmp");
    reveal_strlit("/var");
    reveal_strlit("/private/etc");
    reveal_strlit("/private/tmp");
    reveal_strlit("/private/var");
    assert("/private"@ + "/etc"@ =~= "/private/etc"@);
    assert("/private"@ + "/tmp"@ =~= "/private/tmp"@);
    assert("/private"@ + "/var"@ =~= "/private/var"@);
}

/// A step is good where its entry is a directory or an alias of the platform,
/// or where it is not a name at all; a step upwards never is.
pub open spec fn is_good_step(step: PathStep) -> bool {
    match step.component {
        PathComponent::Prefix => true,
        PathComponent::RootDir => true,
        PathComponent::CurDir => true,
        PathComponent::ParentDir => false,
        PathComponent::Normal => step.entry is Directory || step.entry == (Entry::Symlink {
            trusted: true,
        }),
    }
}

/// Along a path whose directories may be created, a step is taken where it is
/// good, a directory is created exactly where a name is missing, and
/// everything else is refused.
pub proof fn law_a_directory_is_made_only_where_there_is_nothing(
    step: &PathStep,
    label: &str,
    path: &str,
    r: Result<StepAction, String>,
)
    requires
        call_ensures(ensure_real_directory_tree_step, (step, label, path), r),
    ensures
        is_good_step(*step) <==> (r matches Ok(action) && action is Continue),
        step.component == PathComponent::Normal && step.entry is Missing <==> (r matches Ok(action)
            && action is Create),
{
}

proof fn lemma_no_problem(steps: Seq<PathStep>, label: Seq<char>, path: Seq<char>)
    ensures
        first_problem(steps, label, path) is None <==> forall|i: int|
            0 <= i < steps.len() ==> is_good_step(#[trigger] steps[i]),
    decreases steps.len(),
{
    if steps.len() > 0 {
        let rest = steps.skip(1);
        lemma_no_problem(rest, label, path);
        if forall|i: int| 0 <= i < steps.len() ==> is_good_step(#[trigger] steps[i]) {
            assert(is_good_step(steps[0]));
            assert forall|i: int| 0 <= i < rest.len() implies is_good_step(#[trigger] rest[i]) by {
                assert(rest[i] == steps[i + 1]);
            }
        }
        if first_problem(steps, label, path) is None {
            assert forall|i: int| 0 <= i < steps.len() implies is_good_step(#[trigger] steps[i]) by {
                if i > 0 {
                    assert(rest[i - 1] == steps[i]);
                }
            }
        }
    }
}

/// A path to a directory that must be there is accepted exactly where every
/// step is good. A path to a file is accepted exactly where its parent is and
/// there is a file or nothing.
pub proof fn law_a_path_is_accepted_exactly_where_it_is_real(
    steps: &Vec<PathStep>,
    entry: &Entry,
    label: &str,
    path: &str,
    parent_path: &str,
    directory: Result<(), String>,
    file: Result<(), String>,
    alone: Result<(), String>,
)
    requires
        call_ensures(validate_real_existing_directory, (steps, label, path), directory),
        call_ensures(
            validate_real_file_target_path,
            (Some((steps, parent_path)), entry, label, path),
            file,
        ),
        call_ensures(validate_real_file_target_path, (None, entry, label, path), alone),
    ensures
        directory is Ok <==> forall|i: int|
            0 <= i < steps@.len() ==> is_good_step(#[trigger] steps@[i]),
        file is Ok <==> directory is Ok && (entry is File || entry is Missing),
        alone is Ok <==> entry is File || entry is Missing,
{
    lemma_no_problem(steps@, label@, path@);
    lemma_no_problem(steps@, label@ + " parent"@, parent_path@);
}

/// A path leads through a link where a step, before which there is no trouble,
/// is one that the platform does not keep.
pub proof fn law_a_link_is_found_where_it_is(steps: &Vec<PathStep>, path: &str, r: Result<bool, String>)
    requires
        forall|i: int|
            0 <= i < steps@.len() ==> (#[trigger] steps@[i]).component != PathComponent::ParentDir
                && !(steps@[i].entry is Unreadable),
        call_ensures(path_existing_prefix_has_symlink, (steps, path), r),
    ensures
        r is Ok,
        r->Ok_0 <==> exists|i: int|
            0 <= i < steps@.len() && (#[trigger] steps@[i]).entry == (Entry::Symlink {
                trusted: false,
            }),
{
    lemma_first_link(steps@, path@);
}

proof fn lemma_first_link(steps: Seq<PathStep>, path: Seq<char>)
    requires
        forall|i: int|
            0 <= i < steps.len() ==> (#[trigger] steps[i]).component != PathComponent::ParentDir
                && !(steps[i].entry is Unreadable),
    ensures
        !(first_link(steps, path) is Problem),
        first_link(steps, path) is Found <==> exists|i: int|
            0 <= i < steps.len() && (#[trigger] steps[i]).entry == (Entry::Symlink {
                trusted: false,
            }),
    decreases steps.len(),
{
    if steps.len() > 0 {
        let rest = steps.skip(1);
        assert forall|i: int| 0 <= i < rest.len() implies (#[trigger] rest[i]).component
            != PathComponent::ParentDir && !(rest[i].entry is Unreadable) by {
            assert(rest[i] == steps[i + 1]);
        }
        lemma_first_link(rest, path);
        assert(steps[0].component != PathComponent::ParentDir);
        if exists|i: int|
            0 <= i < rest.len() && (#[trigger] rest[i]).entry == (Entry::Symlink {
                trusted: false,
            }) {
            let i = choose|i: int|
                0 <= i < rest.len() && (#[trigger] rest[i]).entry == (Entry::Symlink {
                    trusted: false,
                });
            assert(steps[i + 1] == rest[i]);
        }
        if exists|i: int|
            0 <= i < steps.len() && (#[trigger] steps[i]).entry == (Entry::Symlink {
                trusted: false,
            }) {
            let i = choose|i: int|
                0 <= i < steps.len() && (#[trigger] steps[i]).entry == (Entry::Symlink {
                    trusted: false,
                });
            if i > 0 {
                assert(rest[i - 1] == steps[i]);
            }
        }
    }
}

/// A step upwards is refused wherever it is met first.
pub proof fn law_a_step_upwards_is_refused(
    steps: &Vec<PathStep>,
    label: &str,
    path: &str,
    search: Result<bool, String>,
    directory: Result<(), String>,
)
    requires
        steps@.len() > 0,
        steps@[0].component == PathComponent::ParentDir,
        call_ensures(path_existing_prefix_has_symlink, (steps, path), search),
        call_ensures(validate_real_existing_directory, (steps, label, path), directory),
    ensures
        search is Err,
        directory is Err,
{
}

/// What is said of a step that is refused: a step upwards tells the whole
/// path, a link and what is no directory tell how far it leads, and what could
/// not be read tells why.
pub proof fn law_what_is_said_of_a_bad_step(
    step: &PathStep,
    label: &str,
    path: &str,
    r: Result<StepAction, String>,
)
    requires
        call_ensures(ensure_real_directory_tree_step, (step, label, path), r),
    ensures
        step.component == PathComponent::ParentDir ==> r is Err && r->Err_0@
            == "refusing to traverse "@ + label@ + " with parent traversal: "@ + path@,
        step.component == PathComponent::Normal ==> {
            let place = label@ + " "@ + step.current@;
            &&& step.entry == (Entry::Symlink { trusted: false }) ==> r is Err && r->Err_0@ == place
                + " must not be a symlink"@
            &&& step.entry is File || step.entry is Special ==> r is Err && r->Err_0@ == place
                + " exists but is not a directory"@
            &&& step.entry matches Entry::Unreadable { error } ==> r is Err && r->Err_0@ == error@
        },
{
}

proof fn lemma_first_bad_step(steps: Seq<PathStep>, label: Seq<char>, path: Seq<char>, at: int)
    requires
        0 <= at < steps.len(),
        forall|i: int| 0 <= i < at ==> is_good_step(#[trigger] steps[i]),
        !is_good_step(steps[at]),
    ensures
        first_problem(steps, label, path) == existing_problem(steps[at], label, path),
    decreases at,
{
    if at > 0 {
        let rest = steps.skip(1);
        assert(is_good_step(steps[0]));
        assert forall|i: int| 0 <= i < at - 1 implies is_good_step(#[trigger] rest[i]) by {
            assert(rest[i] == steps[i + 1]);
        }
        assert(rest[at - 1] == steps[at]);
        lemma_first_bad_step(rest, label, path, at - 1);
    }
}

/// The first bad step is the one that is told, in the same words as where
/// directories may be created; one that is missing does not exist.
pub proof fn law_the_first_bad_step_is_told(
    steps: &Vec<PathStep>,
    at: int,
    label: &str,
    path: &str,
    step: Result<StepAction, String>,
    directory: Result<(), String>,
)
    requires
        0 <= at < steps@.len(),
        forall|i: int| 0 <= i < at ==> is_good_step(#[trigger] steps@[i]),
        !is_good_step(steps@[at]),
        call_ensures(ensure_real_directory_tree_step, (&steps@[at], label, path), step),
        call_ensures(validate_real_existing_directory, (steps, label, path), directory),
    ensures
        directory is Err,
        step is Err ==> directory->Err_0@ == step->Err_0@,
        step is Ok ==> directory->Err_0@ == label@ + " "@ + steps@[at].current@ + " does not exist"@,
{
    lemma_first_bad_step(steps@, label@, path@, at);
}

/// A bad parent is told before what is there itself, and as the parent; of a
/// good one nothing is told.
pub proof fn law_a_bad_parent_is_told_first(
    steps: &Vec<PathStep>,
    parent_label: &str,
    parent_path: &str,
    entry: &Entry,
    label: &str,
    path: &str,
    directory: Result<(), String>,
    file: Result<(), String>,
    alone: Result<(), String>,
)
    requires
        parent_label@ == label@ + " parent"@,
        call_ensures(validate_real_existing_directory, (steps, parent_label, parent_path), directory),
        call_ensures(
            validate_real_file_target_path,
            (Some((steps, parent_path)), entry, label, path),
            file,
        ),
        call_ensures(validate_real_file_target_path, (None, entry, label, path), alone),
    ensures
        directory is Err ==> file is Err && file->Err_0@ == directory->Err_0@,
        directory is Ok ==> (file is Ok <==> alone is Ok) && (file is Err ==> file->Err_0@
            == alone->Err_0@),
        entry is Symlink ==> alone is Err && alone->Err_0@ == label@ + " "@ + path@
            + " must not be a symlink"@,
        entry is Directory || entry is Special ==> alone is Err && alone->Err_0@ == label@ + " "@
            + path@ + " exists but is not a file"@,
        entry matches Entry::Unreadable { error } ==> alone is Err && alone->Err_0@ == error@,
{
}

/// The search for a link ends at the first step that is one or that cannot be
/// judged; a step upwards tells the whole path, and what could not be read
/// tells why.
pub proof fn law_the_search_for_a_link_ends_at_the_first(
    steps: &Vec<PathStep>,
    at: int,
    path: &str,
    r: Result<bool, String>,
)
    requires
        0 <= at < steps@.len(),
        forall|i: int|
            0 <= i < at ==> (#[trigger] steps@[i]).component != PathComponent::ParentDir
                && !(steps@[i].entry is Unreadable) && steps@[i].entry != (Entry::Symlink {
                trusted: false,
            }),
        call_ensures(path_existing_prefix_has_symlink, (steps, path), r),
    ensures
        steps@[at].component == PathComponent::ParentDir ==> r is Err && r->Err_0@
            == "refusing to traverse "@ + "listener PID hint path"@ + " with parent traversal: "@
            + path@,
        steps@[at].component != PathComponent::ParentDir && steps@[at].entry is Unreadable ==> r
            is Err && r->Err_0@ == steps@[at].entry->error@,
        steps@[at].component != PathComponent::ParentDir && steps@[at].entry == (Entry::Symlink {
            trusted: false,
        }) ==> r == Ok::<bool, String>(true),
{
    lemma_links_before(steps@, path@, at);
    let rest = steps@.skip(at);
    assert(rest[0] == steps@[at]);
}

proof fn lemma_links_before(steps: Seq<PathStep>, path: Seq<char>, at: int)
    requires
        0 <= at <= steps.len(),
        forall|i: int|
            0 <= i < at ==> (#[trigger] steps[i]).component != PathComponent::ParentDir
                && !(steps[i].entry is Unreadable) && steps[i].entry != (Entry::Symlink {
                trusted: false,
            }),
    ensures
        first_link(steps, path) == first_link(steps.skip(at), path),
    decreases at,
{
    if at == 0 {
        assert(steps.skip(0) =~= steps);
    } else {
        let rest = steps.skip(1);
        assert(steps[0].component != PathComponent::ParentDir);
        assert forall|i: int| 0 <= i < at - 1 implies (#[trigger] rest[i]).component
            != PathComponent::ParentDir && !(rest[i].entry is Unreadable) && rest[i].entry != (
        Entry::Symlink { trusted: false }) by {
            assert(rest[i] == steps[i + 1]);
        }
        lemma_links_before(rest, path, at - 1);
        assert(rest.skip(at - 1) =~= steps.skip(at));
    }
}

/// What is said of a directory that could not be created holds which, where
/// and why.
pub proof fn law_what_is_said_of_a_failed_creation(
    label: &str,
    current: &str,
    error: &str,
    r: String,
)
    requires
        call_ensures(create_directory_problem, (label, current, error), r),
    ensures
        r@ == "cannot create "@ + label@ + " "@ + current@ + ": "@ + error@,
{
}

} // verus!
