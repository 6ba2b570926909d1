//! Writing the hint about a listener so that a reader sees all of it or
//! nothing: a temporary file is written and put in place.

use vstd::prelude::*;

use crate::listeners::{format_listener_pid_hint, hint_text, Hint, ListenerPidHint};
use crate::numbers::{decimal, print_u64};
use crate::text::opt_view;

verus! {

/// How many temporary names are tried.
pub const HINT_TEMP_ATTEMPTS: u64 = 64;

/// Where the writing of a hint stands.
pub enum HintStage {
    /// The temporary file of this attempt is to be created.
    Open { attempt: u64 },
    /// It is being written.
    Write { attempt: u64 },
    /// It is being flushed.
    Sync { attempt: u64 },
    /// It is being put in place.
    Publish { attempt: u64 },
    /// What is in its place is being removed, after this error.
    RemoveOld { attempt: u64, publish_error: String },
    /// It is being put in place again, after this error.
    Republish { attempt: u64, publish_error: String },
    Over,
}

/// What came of an operation.
pub enum HintEvent {
    Done,
    /// The path that the operation is about was turned down before it.
    Invalid { problem: String },
    /// Something is there already.
    Exists { error: String },
    /// It is not permitted.
    Denied { error: String },
    /// There is nothing there.
    Missing { error: String },
    Failed { error: String },
}

impl HintEvent {
    /// The text of the error.
    pub open spec fn error(self) -> Seq<char> {
        match self {
            HintEvent::Done => Seq::empty(),
            HintEvent::Invalid { problem } => problem@,
            HintEvent::Exists { error } => error@,
            HintEvent::Denied { error } => error@,
            HintEvent::Missing { error } => error@,
            HintEvent::Failed { error } => error@,
        }
    }

    fn error_text(self) -> (r: String)
        ensures
            r@ == self.error(),
    {
        match self {
            HintEvent::Done => String::new(),
            HintEvent::Invalid { problem } => problem,
            HintEvent::Exists { error } => error,
            HintEvent::Denied { error } => error,
            HintEvent::Missing { error } => error,
            HintEvent::Failed { error } => error,
        }
    }
}

/// What to do next.
pub enum HintAction {
    /// Validate the path of this temporary file and create it.
    OpenTemp { name: String },
    /// Write this text, the hint, to it.
    WriteTemp { content: String },
    /// Flush it.
    SyncTemp,
    /// Validate the path of the hint, and rename the temporary file to it.
    Rename,
    /// Validate the path of the hint, and remove what is there.
    RemoveTarget,
    /// Rename the temporary file to the path of the hint.
    RenameAgain,
    /// The hint is in place.
    Finished,
    /// Give up; the temporary file is removed first where `remove_temp`.
    Fail { error: String, remove_temp: bool },
}

/// The writing of a hint.
pub struct HintWriter {
    /// The path of the hint, as it is shown.
    pub path: String,
    /// The directory of the temporary files, as it is shown before a name.
    pub directory: String,
    pub file_name: String,
    /// The hint, as it is written.
    pub content: String,
    pub pid: u32,
    pub stage: HintStage,
}

/// The file name that temporary names are made from.
pub open spec fn base_of(file_name: Option<Seq<char>>) -> Seq<char> {
    match file_name {
        Some(n) if n.len() > 0 => n,
        _ => "listener-pid-hint"@,
    }
}

/// The name of the temporary file of an attempt.
pub open spec fn temp_name(file_name: Seq<char>, pid: u32, attempt: u64) -> Seq<char> {
    "."@ + file_name + ".tmp-"@ + decimal(pid as nat) + "-"@ + decimal(attempt as nat)
}

/// Prepares the writing of a hint. `directory` ends where a name follows.
pub fn write_listener_pid_hint_atomic(
    path: &str,
    directory: &str,
    file_name: Option<&str>,
    content: &str,
    pid: u32,
) -> (r: HintWriter)
    ensures
        r.path@ == path@,
        r.directory@ == directory@,
        r.file_name@ == base_of(opt_view(file_name)),
        r.content@ == content@,
        r.pid == pid,
        r.stage == (HintStage::Open { attempt: 0 }),
        r.well_formed(),
{
    let file_name = match file_name {
        Some(n) => if n.is_empty() {
            "listener-pid-hint".to_owned()
        } else {
            n.to_owned()
        },
        None => "listener-pid-hint".to_owned(),
    };
    HintWriter {
        path: path.to_owned(),
        directory: directory.to_owned(),
        file_name,
        content: content.to_owned(),
        pid,
        stage: HintStage::Open { attempt: 0 },
    }
}

/// Prepares the writing of the hint about the process `pid`, which runs the
/// executable at `exe_path`, where that is known. The hint is stamped with the
/// present time.
pub fn write_listener_pid_hint(
    path: &str,
    directory: &str,
    file_name: Option<&str>,
    pid: u32,
    exe_path: Option<String>,
    now_secs: u64,
) -> (r: HintWriter)
    ensures
        r.path@ == path@,
        r.directory@ == directory@,
        r.file_name@ == base_of(opt_view(file_name)),
        r.content@ == hint_text(
            (Hint {
                pid,
                exe_path: match exe_path {
                    Some(p) => Some(p@),
                    None => None,
                },
                created: Some(now_secs),
            }),
            now_secs,
        ),
        r.pid == pid,
        r.stage == (HintStage::Open { attempt: 0 }),
        r.well_formed(),
{
    let hint = ListenerPidHint { pid, exe_path, created_epoch_secs: Some(now_secs) };
    let content = format_listener_pid_hint(&hint, now_secs);
    write_listener_pid_hint_atomic(path, directory, file_name, content.as_str(), pid)
}

impl HintWriter {
    /// The number of an attempt is one of those allowed.
    pub open spec fn well_formed(&self) -> bool {
        self.stage matches HintStage::Open { attempt } ==> attempt < HINT_TEMP_ATTEMPTS
    }

    /// How many operations can still follow.
    pub open spec fn operations_left(&self) -> nat {
        match self.stage {
            HintStage::Open { attempt } => (HINT_TEMP_ATTEMPTS - attempt + 5) as nat,
            HintStage::Write { .. } => 5,
            HintStage::Sync { .. } => 4,
            HintStage::Publish { .. } => 3,
            HintStage::RemoveOld { .. } => 2,
            HintStage::Republish { .. } => 1,
            HintStage::Over => 0,
        }
    }

    /// A temporary file of this writer is there.
    pub open spec fn has_temp(&self) -> bool {
        !(self.stage is Open) && !(self.stage is Over)
    }

    pub open spec fn temp(&self, attempt: u64) -> Seq<char> {
        temp_name(self.file_name@, self.pid, attempt)
    }

    /// The path of a temporary file, as it is shown.
    pub open spec fn shown_temp(&self, attempt: u64) -> Seq<char> {
        self.directory@ + self.temp(attempt)
    }

    pub open spec fn same_target(&self, other: &HintWriter) -> bool {
        self.path == other.path && self.directory == other.directory && self.file_name
            == other.file_name && self.content == other.content && self.pid == other.pid
    }

    /// The writing is over: it failed with this error.
    pub open spec fn gives_up(&self, r: HintAction, text: Seq<char>, remove: bool) -> bool {
        self.stage is Over && (r matches HintAction::Fail { error, remove_temp } && error@ == text
            && remove_temp == remove)
    }

    fn show_temp(&self, attempt: u64) -> (r: String)
        ensures
            r@ == self.temp(attempt),
    {
        ".".to_owned().concat(self.file_name.as_str()).concat(".tmp-").concat(
            print_u64(self.pid as u64).as_str(),
        ).concat("-").concat(print_u64(attempt).as_str())
    }

    /// What follows from the creation of the temporary file. A name that is
    /// taken leads to the next one, as long as there is one.
    pub open spec fn opened(&self, attempt: u64, event: HintEvent, next: &HintWriter, r: HintAction) -> bool {
        match event {
            HintEvent::Done => (r matches HintAction::WriteTemp { content } && content@
                == self.content@) && next.stage == (HintStage::Write { attempt }),
            HintEvent::Invalid { problem } => next.gives_up(r, problem@, false),
            HintEvent::Exists { .. } => if attempt + 1 < HINT_TEMP_ATTEMPTS {
                (r matches HintAction::OpenTemp { name } && name@ == self.temp((attempt + 1) as u64))
                    && next.stage == (HintStage::Open { attempt: (attempt + 1) as u64 })
            } else {
                next.gives_up(
                    r,
                    "failed to allocate unique staged listener PID hint next to "@ + self.path@,
                    false,
                )
            },
            _ => next.gives_up(
                r,
                "open staged listener PID hint "@ + self.shown_temp(attempt) + ": "@
                    + event.error(),
                false,
            ),
        }
    }

    /// What follows from the writing of the temporary file.
    pub open spec fn written(&self, attempt: u64, event: HintEvent, next: &HintWriter, r: HintAction) -> bool {
        match event {
            HintEvent::Done => r is SyncTemp && next.stage == (HintStage::Sync { attempt }),
            _ => next.gives_up(
                r,
                "write staged listener PID hint "@ + self.shown_temp(attempt) + ": "@
                    + event.error(),
                true,
            ),
        }
    }

    /// What follows from the flushing of the temporary file.
    pub open spec fn flushed(&self, attempt: u64, event: HintEvent, next: &HintWriter, r: HintAction) -> bool {
        match event {
            HintEvent::Done => r is Rename && next.stage == (HintStage::Publish { attempt }),
            _ => next.gives_up(
                r,
                "sync staged listener PID hint "@ + self.shown_temp(attempt) + ": "@
                    + event.error(),
                true,
            ),
        }
    }

    /// What follows from putting the temporary file in place. Where something
    /// is in the way it is removed.
    pub open spec fn published(&self, attempt: u64, event: HintEvent, next: &HintWriter, r: HintAction) -> bool {
        match event {
            HintEvent::Done => r is Finished && next.stage is Over,
            HintEvent::Invalid { problem } => next.gives_up(r, problem@, true),
            HintEvent::Exists { error } => r is RemoveTarget && next.stage == (
            HintStage::RemoveOld { attempt, publish_error: error }),
            HintEvent::Denied { error } => r is RemoveTarget && next.stage == (
            HintStage::RemoveOld { attempt, publish_error: error }),
            _ => next.gives_up(
                r,
                "publish listener PID hint "@ + self.path@ + ": "@ + event.error(),
                true,
            ),
        }
    }

    /// What follows from the removal of what was in the way; that it is gone
    /// by itself is as good.
    pub open spec fn removed(
        &self,
        attempt: u64,
        publish_error: String,
        event: HintEvent,
        next: &HintWriter,
        r: HintAction,
    ) -> bool {
        match event {
            HintEvent::Invalid { problem } => next.gives_up(r, problem@, true),
            HintEvent::Done => r is RenameAgain && next.stage == (HintStage::Republish {
                attempt,
                publish_error,
            }),
            HintEvent::Missing { .. } => r is RenameAgain && next.stage == (HintStage::Republish {
                attempt,
                publish_error,
            }),
            _ => next.gives_up(
                r,
                "replace existing listener PID hint "@ + self.path@ + " after rename failure ("@
                    + publish_error@ + "): "@ + event.error(),
                true,
            ),
        }
    }

    /// What follows from putting the temporary file in place at last.
    pub open spec fn republished(
        &self,
        publish_error: String,
        event: HintEvent,
        next: &HintWriter,
        r: HintAction,
    ) -> bool {
        match event {
            HintEvent::Done => r is Finished && next.stage is Over,
            _ => next.gives_up(
                r,
                "publish replacement listener PID hint "@ + self.path@
                    + " after rename failure ("@ + publish_error@ + "): "@ + event.error(),
                true,
            ),
        }
    }

    /// What follows from an operation in the stage where the writing stands.
    pub open spec fn follows(&self, event: HintEvent, next: &HintWriter, r: HintAction) -> bool {
        match self.stage {
            HintStage::Open { attempt } => self.opened(attempt, event, next, r),
            HintStage::Write { attempt } => self.written(attempt, event, next, r),
            HintStage::Sync { attempt } => self.flushed(attempt, event, next, r),
            HintStage::Publish { attempt } => self.published(attempt, event, next, r),
            HintStage::RemoveOld { attempt, publish_error } => self.removed(
                attempt,
                publish_error,
                event,
                next,
                r,
            ),
            HintStage::Republish { attempt: _, publish_error } => self.republished(
                publish_error,
                event,
                next,
                r,
            ),
            HintStage::Over => true,
        }
    }

    /// The first thing to do.
    pub fn first_action(&self) -> (r: HintAction)
        requires
            self.stage == (HintStage::Open { attempt: 0 }),
        ensures
            r matches HintAction::OpenTemp { name } && name@ == self.temp(0),
    {
        HintAction::OpenTemp { name: self.show_temp(0) }
    }

    fn give_up(&mut self, error: String, remove_temp: bool) -> (r: HintAction)
        ensures
            final(self).same_target(old(self)),
            final(self).gives_up(r, error@, remove_temp),
    {
        self.stage = HintStage::Over;
        HintAction::Fail { error, remove_temp }
    }

    fn staged(&self, what: &str, attempt: u64, event: HintEvent) -> (r: String)
        ensures
            r@ == what@ + self.shown_temp(attempt) + ": "@ + event.error(),
    {
        let shown = self.directory.clone().concat(self.show_temp(attempt).as_str());
        what.to_owned().concat(shown.as_str()).concat(": ").concat(event.error_text().as_str())
    }

    fn after_failure(&self, what: &str, publish_error: &str, event: HintEvent) -> (r: String)
        ensures
            r@ == what@ + self.path@ + " after rename failure ("@ + publish_error@ + "): "@
                + event.error(),
    {
        what.to_owned().concat(self.path.as_str()).concat(" after rename failure (").concat(
            publish_error,
        ).concat("): ").concat(event.error_text().as_str())
    }

    fn on_open(&mut self, attempt: u64, event: HintEvent) -> (r: HintAction)
        requires
            attempt < HINT_TEMP_ATTEMPTS,
        ensures
            final(self).same_target(old(self)),
            old(self).opened(attempt, event, final(self), r),
    {
        match event {
            HintEvent::Done => {
                self.stage = HintStage::Write { attempt };
                HintAction::WriteTemp { content: self.content.clone() }
            },
            HintEvent::Invalid { problem } => self.give_up(problem, false),
            HintEvent::Exists { .. } => if attempt < HINT_TEMP_ATTEMPTS - 1 {
                let next: u64 = attempt + 1;
                self.stage = HintStage::Open { attempt: next };
                HintAction::OpenTemp { name: self.show_temp(next) }
            } else {
                let text = "failed to allocate unique staged listener PID hint next to ".to_owned().concat(
                    self.path.as_str(),
                );
                self.give_up(text, false)
            },
            other => {
                let text = self.staged("open staged listener PID hint ", attempt, other);
                self.give_up(text, false)
            },
        }
    }

    fn on_write(&mut self, attempt: u64, event: HintEvent) -> (r: HintAction)
        ensures
            final(self).same_target(old(self)),
            old(self).written(attempt, event, final(self), r),
    {
        match event {
            HintEvent::Done => {
                self.stage = HintStage::Sync { attempt };
                HintAction::SyncTemp
            },
            other => {
                let text = self.staged("write staged listener PID hint ", attempt, other);
                self.give_up(text, true)
            },
        }
    }

    fn on_sync(&mut self, attempt: u64, event: HintEvent) -> (r: HintAction)
        ensures
            final(self).same_target(old(self)),
            old(self).flushed(attempt, event, final(self), r),
    {
        match event {
            HintEvent::Done => {
                self.stage = HintStage::Publish { attempt };
                HintAction::Rename
            },
            other => {
                let text = self.staged("sync staged listener PID hint ", attempt, other);
                self.give_up(text, true)
            },
        }
    }

    fn on_publish(&mut self, attempt: u64, event: HintEvent) -> (r: HintAction)
        ensures
            final(self).same_target(old(self)),
            old(self).published(attempt, event, final(self), r),
    {
        match event {
            HintEvent::Done => {
                self.stage = HintStage::Over;
                HintAction::Finished
            },
            HintEvent::Invalid { problem } => self.give_up(problem, true),
            HintEvent::Exists { error } => {
                self.stage = HintStage::RemoveOld { attempt, publish_error: error };
                HintAction::RemoveTarget
            },
            HintEvent::Denied { error } => {
                self.stage = HintStage::RemoveOld { attempt, publish_error: error };
                HintAction::RemoveTarget
            },
            other => {
                let text = "publish listener PID hint ".to_owned().concat(
                    self.path.as_str(),
                ).concat(": ").concat(other.error_text().as_str());
                self.give_up(text, true)
            },
        }
    }

    fn on_remove_old(&mut self, attempt: u64, publish_error: String, event: HintEvent) -> (r:
        HintAction)
        ensures
            final(self).same_target(old(self)),
            old(self).removed(attempt, publish_error, event, final(self), r),
    {
        match event {
            HintEvent::Invalid { problem } => self.give_up(problem, true),
            HintEvent::Done => {
                self.stage = HintStage::Republish { attempt, publish_error };
                HintAction::RenameAgain
            },
            HintEvent::Missing { .. } => {
                self.stage = HintStage::Republish { attempt, publish_error };
                HintAction::RenameAgain
            },
            other => {
                let text = self.after_failure(
                    "replace existing listener PID hint ",
                    publish_error.as_str(),
                    other,
                );
                self.give_up(text, true)
            },
        }
    }

    fn on_republish(&mut self, publish_error: String, event: HintEvent) -> (r: HintAction)
        ensures
            final(self).same_target(old(self)),
            old(self).republished(publish_error, event, final(self), r),
    {
        match event {
            HintEvent::Done => {
                self.stage = HintStage::Over;
                HintAction::Finished
            },
            other => {
                let text = self.after_failure(
                    "publish replacement listener PID hint ",
                    publish_error.as_str(),
                    other,
                );
                self.give_up(text, true)
            },
        }
    }

    /// Takes what came of the operation that was asked for, and says what to
    /// do next. Each operation brings the writing nearer to its end, and where
    /// it is given up a temporary file of it is removed.
    pub fn on_event(&mut self, event: HintEvent) -> (r: HintAction)
        requires
            old(self).well_formed(),
            !(old(self).stage is Over),
        ensures
            final(self).well_formed(),
            final(self).same_target(old(self)),
            old(self).follows(event, final(self), r),
            final(self).operations_left() < old(self).operations_left(),
            r matches HintAction::Fail { error: _, remove_temp } ==> remove_temp == old(
                self,
            ).has_temp(),
    {
        let mut stage = HintStage::Over;
        std::mem::swap(&mut stage, &mut self.stage);
        match stage {
            HintStage::Open { attempt } => self.on_open(attempt, event),
            HintStage::Write { attempt } => self.on_write(attempt, event),
            HintStage::Sync { attempt } => self.on_sync(attempt, event),
            HintStage::Publish { attempt } => self.on_publish(attempt, event),
            HintStage::RemoveOld { attempt, publish_error } => self.on_remove_old(
                attempt,
                publish_error,
                event,
            ),
            HintStage::Republish { attempt: _, publish_error } => self.on_republish(
                publish_error,
                event,
            ),
            HintStage::Over => HintAction::Finished,
        }
    }
}

/// The hint is in place only after it was written and flushed, and only by a
/// rename that came off: no reader sees a part of it.
pub proof fn law_published_by_rename(
    writer: HintWriter,
    event: HintEvent,
    next: HintWriter,
    action: HintAction,
)
    requires
        !(writer.stage is Over),
        writer.follows(event, &next, action),
        action is Finished,
    ensures
        event is Done,
        writer.stage is Publish || writer.stage is Republish,
{
}

/// What the two files hold: the temporary one, and the hint.
pub struct HintFiles {
    pub temp: Option<Seq<char>>,
    pub target: Option<Seq<char>>,
}

/// What an operation does to the files: one that came off does what its name
/// says. What the temporary file holds where it could not be created or
/// written is left open; the other operations change nothing where they fail.
pub open spec fn carried_out(
    action: HintAction,
    event: HintEvent,
    before: HintFiles,
    after: HintFiles,
) -> bool {
    let done = event is Done;
    match action {
        HintAction::OpenTemp { .. } => after.target == before.target && (done ==> after.temp
            == Some(Seq::<char>::empty())),
        HintAction::WriteTemp { content } => after.target == before.target && (done ==> after.temp
            == Some(content@)),
        HintAction::Rename => if done {
            after.target == before.temp && after.temp is None
        } else {
            after == before
        },
        HintAction::RenameAgain => if done {
            after.target == before.temp && after.temp is None
        } else {
            after == before
        },
        HintAction::RemoveTarget => if done {
            after.target is None && after.temp == before.temp
        } else {
            after == before
        },
        _ => after == before,
    }
}

/// A moment of the writing: where it stands, what is to be done next, and what
/// the files hold.
pub struct HintMoment {
    pub writer: HintWriter,
    pub action: HintAction,
    pub files: HintFiles,
}

impl HintMoment {
    /// The action is the one that belongs to the stage, and the files hold
    /// what they must there; `old_target` is what the hint held at first.
    pub open spec fn stands(self, content: Seq<char>, old_target: Option<Seq<char>>) -> bool {
        &&& self.writer.content@ == content
        &&& match self.writer.stage {
            HintStage::Open { .. } => self.action is OpenTemp && self.files.target == old_target,
            HintStage::Write { .. } => (self.action matches HintAction::WriteTemp { content: c }
                && c@ == content) && self.files.target == old_target,
            HintStage::Sync { .. } => self.action is SyncTemp && self.files.target == old_target
                && self.files.temp == Some(content),
            HintStage::Publish { .. } => self.action is Rename && self.files.target == old_target
                && self.files.temp == Some(content),
            HintStage::RemoveOld { .. } => self.action is RemoveTarget && self.files.target
                == old_target && self.files.temp == Some(content),
            HintStage::Republish { .. } => self.action is RenameAgain && (self.files.target
                == old_target || self.files.target is None) && self.files.temp == Some(content),
            HintStage::Over => match self.action {
                HintAction::Finished => self.files.target == Some(content),
                HintAction::Fail { .. } => self.files.target == old_target
                    || self.files.target is None,
                _ => false,
            },
        }
    }

    /// The action is carried out, comes to this event, and leads on.
    pub open spec fn leads_to(self, event: HintEvent, next: HintMoment) -> bool {
        &&& !(self.writer.stage is Over)
        &&& carried_out(self.action, event, self.files, next.files)
        &&& self.writer.follows(event, &next.writer, next.action)
        &&& next.writer.same_target(&self.writer)
    }
}

/// One moment of a run leads to the next.
pub open spec fn hint_goes_on(moments: Seq<HintMoment>, events: Seq<HintEvent>, i: int) -> bool {
    moments[i].leads_to(events[i], moments[i + 1])
}

/// The moments of the writing of a hint, from its start.
pub open spec fn is_hint_run(moments: Seq<HintMoment>, events: Seq<HintEvent>) -> bool {
    &&& moments.len() == events.len() + 1
    &&& moments[0].writer.stage == (HintStage::Open { attempt: 0 })
    &&& moments[0].action is OpenTemp
    &&& forall|i: int| 0 <= i < events.len() ==> #[trigger] hint_goes_on(moments, events, i)
}

proof fn lemma_hint_run(moments: Seq<HintMoment>, events: Seq<HintEvent>, k: int)
    requires
        is_hint_run(moments, events),
        0 <= k < moments.len(),
    ensures
        moments[k].stands(moments[0].writer.content@, moments[0].files.target),
    decreases k,
{
    if k > 0 {
        lemma_hint_run(moments, events, k - 1);
        assert(hint_goes_on(moments, events, k - 1));
    }
}

/// A reader of the hint sees what was there before, nothing, or the whole new
/// text, and never a part of it; and where the writing ends well the hint
/// holds the text that was to be written.
pub proof fn law_the_whole_text_is_published(
    moments: Seq<HintMoment>,
    events: Seq<HintEvent>,
    k: int,
)
    requires
        is_hint_run(moments, events),
        0 <= k < moments.len(),
    ensures
        moments[k].files.target == moments[0].files.target || moments[k].files.target is None
            || moments[k].files.target == Some(moments[0].writer.content@),
        moments[k].action is Finished ==> moments[k].files.target == Some(
            moments[0].writer.content@,
        ),
        moments[k].action is Fail ==> moments[k].files.target == moments[0].files.target
            || moments[k].files.target is None,
{
    lemma_hint_run(moments, events, k);
}

/// Where nothing goes wrong the hint is written, flushed and put in place by
/// one rename, under the first temporary name.
pub proof fn law_without_trouble_four_operations_do(
    moments: Seq<HintMoment>,
    events: Seq<HintEvent>,
)
    requires
        is_hint_run(moments, events),
        events.len() == 4,
        forall|i: int| 0 <= i < 4 ==> (#[trigger] events[i]) is Done,
    ensures
        moments[1].action is WriteTemp,
        moments[2].action is SyncTemp,
        moments[3].action is Rename,
        moments[4].action is Finished,
        moments[4].files.target == Some(moments[0].writer.content@),
        moments[4].files.temp is None,
{
    assert(events[0] is Done && events[1] is Done && events[2] is Done && events[3] is Done);
    assert(hint_goes_on(moments, events, 0));
    assert(hint_goes_on(moments, events, 1));
    assert(hint_goes_on(moments, events, 2));
    assert(hint_goes_on(moments, events, 3));
    lemma_hint_run(moments, events, 1);
    lemma_hint_run(moments, events, 2);
    lemma_hint_run(moments, events, 3);
    lemma_hint_run(moments, events, 4);
}

/// What is in the way of the rename is removed, and the rename is tried once
/// more: that it is taken or not permitted is a reason, and that it is gone by
/// itself is as good as its removal.
pub proof fn law_what_is_in_the_way_is_removed(
    writer: HintWriter,
    event: HintEvent,
    next: HintWriter,
    action: HintAction,
)
    requires
        writer.follows(event, &next, action),
    ensures
        writer.stage is Publish ==> (action is RemoveTarget <==> event is Exists || event is Denied),
        writer.stage is RemoveOld ==> (action is RenameAgain <==> event is Done || event is Missing),
        writer.stage is Republish ==> (action is Finished <==> event is Done),
        writer.stage is Publish || writer.stage is Republish || writer.stage is RemoveOld || (
        writer.stage is Open && !(event is Exists)) || writer.stage is Write || writer.stage is Sync
            ==> (action is Fail ==> !(event is Done)),
        writer.stage is Write || writer.stage is Sync ==> (action is Fail <==> !(event is Done)),
{
}

/// A temporary name that is taken leads to the next, sixty-four times in all,
/// and anything else that keeps the file from being created ends it.
pub proof fn law_names_are_tried_one_after_the_other(
    writer: HintWriter,
    attempt: u64,
    event: HintEvent,
    next: HintWriter,
    action: HintAction,
)
    requires
        writer.stage == (HintStage::Open { attempt }),
        writer.well_formed(),
        writer.follows(event, &next, action),
    ensures
        event is Done ==> action is WriteTemp,
        event is Exists && attempt < 63 ==> action is OpenTemp && next.stage == (HintStage::Open {
            attempt: (attempt + 1) as u64,
        }),
        event is Exists && attempt >= 63 ==> action is Fail,
        !(event is Done) && !(event is Exists) ==> action is Fail,
{
}

/// The temporary names of different processes and attempts differ, and all are
/// hidden and tell the file that they are for.
pub proof fn law_temporary_names_differ(
    file_name: Seq<char>,
    pid: u32,
    attempt: u64,
    other_pid: u32,
    other: u64,
)
    ensures
        temp_name(file_name, pid, attempt) == temp_name(file_name, other_pid, other) ==> pid
            == other_pid && attempt == other,
        (seq!['.'] + file_name).is_prefix_of(temp_name(file_name, pid, attempt)),
{
    reveal_strlit(".");
    reveal_strlit("-");
    let front = "."@ + file_name + ".tmp-"@;
    let (a, b) = (decimal(pid as nat), decimal(attempt as nat));
    let (c, d) = (decimal(other_pid as nat), decimal(other as nat));
    let s = temp_name(file_name, pid, attempt);
    let t = temp_name(file_name, other_pid, other);
    let n = front.len() as int;
    crate::numbers::lemma_decimal_digits(pid as nat);
    crate::numbers::lemma_decimal_digits(other_pid as nat);
    assert("."@ =~= seq!['.']);
    assert(s =~= (seq!['.'] + file_name) + (".tmp-"@ + a + "-"@ + b));
    if s == t {
        assert(s[n + a.len()] == '-');
        assert(t[n + c.len()] == '-');
        if a.len() < c.len() {
            assert(t[n + a.len()] == c[a.len() as int]);
        }
        if c.len() < a.len() {
            assert(s[n + c.len()] == a[c.len() as int]);
        }
        assert(s.subrange(n, n + a.len()) =~= a);
        assert(t.subrange(n, n + c.len()) =~= c);
        assert(s.skip(n + a.len() as int + 1) =~= b);
        assert(t.skip(n + c.len() as int + 1) =~= d);
        crate::numbers::lemma_decimal_parses(pid as nat, u32::MAX as int);
        crate::numbers::lemma_decimal_parses(other_pid as nat, u32::MAX as int);
        crate::numbers::lemma_decimal_parses(attempt as nat, u64::MAX as int);
        crate::numbers::lemma_decimal_parses(other as nat, u64::MAX as int);
    }
}

/// What is to be written about a process reads back as that process, its
/// executable and the time of writing; everything else is as it was given.
pub proof fn law_the_hint_tells_the_process(
    path: &str,
    directory: &str,
    file_name: Option<&str>,
    pid: u32,
    exe_path: Option<String>,
    now_secs: u64,
    r: HintWriter,
    content: &str,
    read: Option<ListenerPidHint>,
)
    requires
        exe_path is Some ==> !exe_path->0@.contains('\n') && crate::text::trimmed(exe_path->0@)
            == exe_path->0@ && exe_path->0@.len() > 0,
        call_ensures(
            write_listener_pid_hint,
            (path, directory, file_name, pid, exe_path, now_secs),
            r,
        ),
        content@ == r.content@,
        call_ensures(crate::listeners::parse_listener_pid_hint, (content,), read),
    ensures
        read is Some,
        read->0.pid == pid,
        exe_path is Some ==> read->0.exe_path is Some && read->0.exe_path->0@ == exe_path->0@,
        exe_path is None ==> read->0.exe_path is None,
        read->0.created_epoch_secs == Some(now_secs),
        r.path@ == path@ && r.directory@ == directory@ && r.pid == pid,
        file_name is Some && file_name->0@.len() > 0 ==> r.file_name@ == file_name->0@,
        file_name is None || file_name->0@.len() == 0 ==> r.file_name@ == "listener-pid-hint"@,
        r.stage == (HintStage::Open { attempt: 0 }),
{
    let hint = Hint {
        pid,
        exe_path: match exe_path {
            Some(p) => Some(p@),
            None => None,
        },
        created: Some(now_secs),
    };
    crate::listeners::law_hint_round_trip(hint, now_secs);
    assert(crate::listeners::parsed_hint(content@) == Some(read->0@));
}

/// What an operation that came off leads to: from creating to writing, from
/// there to flushing, then to the rename, and with it the end; a removal leads
/// to the rename again. What was to be written never changes.
pub proof fn law_each_operation_leads_to_the_next(
    w: &mut HintWriter,
    event: HintEvent,
    r: HintAction,
)
    requires
        old(w).well_formed(),
        !(old(w).stage is Over),
        call_ensures(HintWriter::on_event, (w, event), r),
    ensures
        event is Done ==> {
            &&& old(w).stage is Open ==> (r matches HintAction::WriteTemp { content } && content@
                == old(w).content@) && final(w).stage is Write
            &&& old(w).stage is Write ==> r is SyncTemp && final(w).stage is Sync
            &&& old(w).stage is Sync ==> r is Rename && final(w).stage is Publish
            &&& old(w).stage is Publish || old(w).stage is Republish ==> r is Finished && final(w).stage is Over
            &&& old(w).stage is RemoveOld ==> r is RenameAgain && final(w).stage is Republish
        },
        event is Failed ==> (r matches HintAction::Fail { error, remove_temp } && (remove_temp <==>
        !(old(w).stage is Open))) && final(w).stage is Over,
        event is Invalid && (old(w).stage is Open || old(w).stage is Publish || old(w).stage
            is RemoveOld) ==> (r matches HintAction::Fail { error, remove_temp } && error@
            == event->Invalid_problem@),
        old(w).stage is Publish && (event is Exists || event is Denied) ==> r is RemoveTarget && (
        final(w).stage matches HintStage::RemoveOld { attempt, publish_error } && attempt == old(w).stage->Publish_attempt && publish_error@ == event.error()),
        old(w).stage is Open && event is Exists && old(w).stage->Open_attempt < 63 ==> (r matches
            HintAction::OpenTemp { name } && name@ == old(w).temp(
            (old(w).stage->Open_attempt + 1) as u64,
        )) && (final(w).stage matches HintStage::Open { attempt } && attempt == old(w).stage->Open_attempt + 1),
        old(w).stage is Open && event is Exists && old(w).stage->Open_attempt == 63 ==> r is Fail,
        old(w).stage is RemoveOld && event is Missing ==> r is RenameAgain,
        final(w).content@ == old(w).content@ && final(w).path@ == old(w).path@ && final(w).pid
            == old(w).pid && final(w).file_name@ == old(w).file_name@,
{
}

} // verus!
