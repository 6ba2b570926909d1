//! The integrity probe as a sequence of operations: lock the mailbox, check
//! it, and recover it where its archive holds more than its database.

use vstd::prelude::*;

use crate::integrity::{
    busy_cause, classify_integrity_busy_root_cause, classify_integrity_open_root_cause,
    classify_recovery_failure_root_cause, open_cause, recovery_cause, with_detail,
};
use crate::probes::{fail, pass, real_path_advice};
use crate::report::ProbeResult;

verus! {

/// How often the activity lock is tried.
pub const MAX_LOCK_ATTEMPTS: u32 = 8;

/// The pause before the lock is tried again, in milliseconds.
pub const LOCK_BACKOFF_MS: u64 = 150;

/// What is known before the probe begins.
pub struct IntegrityFacts {
    /// The check is wanted on startup.
    pub enabled: bool,
    /// The database is in memory.
    pub in_memory: bool,
    pub url: String,
    /// The path that the URL gives.
    pub db_path: Option<String>,
    /// Whether that path was accepted.
    pub accepted: Result<(), String>,
    /// Nothing is at that path.
    pub file_missing: bool,
    /// There is a directory with archived projects.
    pub has_archive: bool,
}

/// Where the probe stands.
#[derive(Debug, Clone, Copy, PartialEq, Eq, Structural)]
pub enum IntegrityStage {
    /// The activity lock is being acquired; the database's file is missing or
    /// not.
    Lock { attempt: u32, file_missing: bool },
    OpenPool,
    Check,
    /// The archive is being compared with the database.
    Compare,
    AdvanceFloor,
    /// The path is being looked at again before a recovery.
    Validate,
    Recover,
    Over,
}

/// What to do next.
pub enum IntegrityAction {
    /// Wait, then acquire the activity lock.
    AcquireLock { after_ms: u64 },
    OpenPool,
    RunCheck,
    CompareArchive,
    /// Raise the allocator of message identifiers to what the archive holds.
    AdvanceFloor,
    /// Look at the path of the database again.
    ValidateTarget,
    /// Bring the database to health, from the archive or without it.
    Recover { with_archive: bool },
    /// The probe is over.
    Conclude { result: ProbeResult },
}

/// What the check of the database found.
pub enum CheckOutcome {
    Clean,
    /// It failed. `diagnosis` explains a sidecar that cannot be opened, and
    /// `lock_error` tells that the error is about a lock.
    Failed { error: String, diagnosis: Option<ProbeResult>, lock_error: bool },
}

/// A run of the integrity probe.
pub struct IntegrityProbe {
    pub url: String,
    pub db_path: Option<String>,
    pub stage: IntegrityStage,
}

/// The stages that can follow a stage.
pub open spec fn may_follow(from: IntegrityStage, to: IntegrityStage) -> bool {
    match from {
        IntegrityStage::Lock { attempt, file_missing } => to is Over || (if file_missing {
            to is Validate
        } else {
            to is OpenPool
        }) || (attempt + 1 < MAX_LOCK_ATTEMPTS && to == (IntegrityStage::Lock {
            attempt: (attempt + 1) as u32,
            file_missing,
        })),
        IntegrityStage::OpenPool => to is Over || to is Check,
        IntegrityStage::Check => to is Over || to is Compare,
        IntegrityStage::Compare => to is Over || to is Validate || to is AdvanceFloor,
        IntegrityStage::Validate => to is Over || to is Recover,
        IntegrityStage::AdvanceFloor => to is Over,
        IntegrityStage::Recover => to is Over,
        IntegrityStage::Over => false,
    }
}

/// The action is to end with this failure.
pub open spec fn concludes_failed(a: IntegrityAction, problem: Seq<char>, fix: Seq<char>) -> bool {
    a matches IntegrityAction::Conclude { result } && result.failed("integrity"@, problem, fix)
}

/// The action is to end with a pass.
pub open spec fn concludes_passed(a: IntegrityAction) -> bool {
    a matches IntegrityAction::Conclude { result } && result.passed("integrity"@)
}

/// What to do about a busy mailbox.
pub open spec fn busy_advice() -> Seq<char> {
    "Wait for the current mailbox owner to finish, or stop the conflicting `am`, `mcp-agent-mail`, or mutating `am doctor` process and retry."@
}

/// What to do where a recovery failed for a database.
pub open spec fn recovery_advice(path: Seq<char>) -> Seq<char> {
    "Try these in order:\n1. `am doctor repair --yes` — automatic repair from backups/archive\n2. `am doctor reconstruct --yes` — rebuild the database from the Git archive\n3. `am clear-and-reset-everything` — archive current state and start completely fresh\nThe corrupt file has been quarantined at "@
        + path + ".corrupt-*"@
}

/// The failure of a probe that a busy mailbox blocks.
pub fn integrity_busy_probe_failure(database: &str, detail: &str) -> (r: ProbeResult)
    ensures
        r.failed(
            "integrity"@,
            "Integrity probe blocked for "@ + database@ + ": "@ + with_detail(
                busy_cause(detail@),
                detail@,
            ),
            busy_advice(),
        ),
{
    fail(
        "integrity",
        "Integrity probe blocked for ".to_owned().concat(database).concat(": ").concat(
            classify_integrity_busy_root_cause(detail).as_str(),
        ),
        "Wait for the current mailbox owner to finish, or stop the conflicting `am`, `mcp-agent-mail`, or mutating `am doctor` process and retry.".to_owned(),
    )
}

/// Begins the probe.
pub fn probe_integrity(facts: IntegrityFacts) -> (r: (IntegrityProbe, IntegrityAction))
    ensures
        r.0.url == facts.url,
        r.0.db_path == facts.db_path,
        r.0.well_formed(),
        if !facts.enabled || facts.in_memory {
            r.0.stage is Over && concludes_passed(r.1)
        } else if facts.db_path is Some && facts.accepted is Err {
            r.0.stage is Over && concludes_failed(
                r.1,
                (facts.accepted->Err_0)@,
                real_path_advice((facts.db_path->0)@),
            )
        } else if facts.db_path is Some && facts.file_missing && !facts.has_archive {
            r.0.stage is Over && concludes_passed(r.1)
        } else {
            r.0.stage == (IntegrityStage::Lock {
                attempt: 0,
                file_missing: facts.db_path is Some && facts.file_missing,
            }) && r.1 == (IntegrityAction::AcquireLock { after_ms: 0 })
        },
{
    let has_path = facts.db_path.is_some();
    let mut probe = IntegrityProbe {
        url: facts.url,
        db_path: facts.db_path,
        stage: IntegrityStage::Over,
    };
    if !facts.enabled || facts.in_memory {
        return (probe, IntegrityAction::Conclude { result: pass("integrity") });
    }
    if let Some(path) = &probe.db_path {
        if let Err(problem) = facts.accepted {
            let advice = "Use a real, non-symlinked database path for ".to_owned().concat(
                path.as_str(),
            );
            let result = fail("integrity", problem, advice);
            return (probe, IntegrityAction::Conclude { result });
        }
    }
    let file_missing = has_path && facts.file_missing;
    if file_missing && !facts.has_archive {
        return (probe, IntegrityAction::Conclude { result: pass("integrity") });
    }
    probe.stage = IntegrityStage::Lock { attempt: 0, file_missing };
    (probe, IntegrityAction::AcquireLock { after_ms: 0 })
}

/// How many operations can still follow.
pub open spec fn operations_left(stage: IntegrityStage) -> int {
    match stage {
        IntegrityStage::Lock { attempt, .. } => MAX_LOCK_ATTEMPTS - attempt + 5,
        IntegrityStage::OpenPool => 5,
        IntegrityStage::Check => 4,
        IntegrityStage::Compare => 3,
        IntegrityStage::Validate => 2,
        IntegrityStage::AdvanceFloor => 1,
        IntegrityStage::Recover => 1,
        IntegrityStage::Over => 0,
    }
}

/// The stage behind this one can follow it.
pub open spec fn goes_on(stages: Seq<IntegrityStage>, i: int) -> bool {
    may_follow(stages[i], stages[i + 1])
}

/// The stages of a run of the probe, in order.
pub open spec fn is_run(stages: Seq<IntegrityStage>) -> bool {
    stages.len() > 0 && (stages[0] matches IntegrityStage::Lock { attempt, .. } ==> attempt
        < MAX_LOCK_ATTEMPTS) && forall|i: int|
        0 <= i < stages.len() - 1 ==> #[trigger] goes_on(stages, i)
}

proof fn lemma_run_gets_nearer_to_its_end(stages: Seq<IntegrityStage>, i: int, j: int)
    requires
        is_run(stages),
        0 <= i <= j < stages.len(),
    ensures
        operations_left(stages[j]) <= operations_left(stages[i]) - (j - i),
    decreases j - i,
{
    if i < j {
        lemma_run_gets_nearer_to_its_end(stages, i, j - 1);
        lemma_operations_left(stages, j - 1);
        assert(goes_on(stages, j - 1));
    }
}

proof fn lemma_operations_left(stages: Seq<IntegrityStage>, i: int)
    requires
        is_run(stages),
        0 <= i < stages.len(),
    ensures
        stages[i] matches IntegrityStage::Lock { attempt, .. } ==> attempt < MAX_LOCK_ATTEMPTS,
        0 <= operations_left(stages[i]) <= MAX_LOCK_ATTEMPTS + 5,
    decreases i,
{
    if i > 0 {
        lemma_operations_left(stages, i - 1);
        assert(goes_on(stages, i - 1));
    }
}

/// A run of the probe recovers the mailbox at most once.
pub proof fn law_one_recovery_at_most(stages: Seq<IntegrityStage>, i: int, j: int)
    requires
        is_run(stages),
        0 <= i <= j < stages.len(),
        stages[i] is Recover,
        stages[j] is Recover,
    ensures
        i == j,
{
    lemma_run_gets_nearer_to_its_end(stages, i, j);
}

/// Every run of the probe ends: none has more stages than this.
pub proof fn law_probe_ends(stages: Seq<IntegrityStage>)
    requires
        is_run(stages),
    ensures
        stages.len() <= MAX_LOCK_ATTEMPTS + 6,
{
    let last = stages.len() - 1;
    lemma_run_gets_nearer_to_its_end(stages, 0, last);
    lemma_operations_left(stages, last);
    lemma_operations_left(stages, 0);
}

/// A check of the database that failed is not followed by a recovery.
pub proof fn law_failed_check_is_final(stages: Seq<IntegrityStage>, i: int)
    requires
        is_run(stages),
        0 <= i < stages.len() - 1,
        stages[i] is Check,
        !(stages[i + 1] is Compare),
    ensures
        stages[i + 1] is Over,
        stages.len() == i + 2,
{
    assert(goes_on(stages, i));
    if stages.len() > i + 2 {
        assert(goes_on(stages, i + 1));
    }
}

impl IntegrityProbe {
    pub open spec fn well_formed(&self) -> bool {
        self.stage matches IntegrityStage::Lock { attempt, .. } ==> attempt < MAX_LOCK_ATTEMPTS
    }

    pub open spec fn same_database(&self, other: &IntegrityProbe) -> bool {
        self.url == other.url && self.db_path == other.db_path
    }

    /// The database as it is named in messages.
    pub open spec fn database(&self) -> Seq<char> {
        match self.db_path {
            Some(path) => path@,
            None => self.url@,
        }
    }

    fn show_database(&self) -> (r: String)
        ensures
            r@ == self.database(),
    {
        match &self.db_path {
            Some(path) => path.clone(),
            None => self.url.clone(),
        }
    }

    fn conclude(&mut self, result: ProbeResult) -> (r: IntegrityAction)
        ensures
            final(self).same_database(old(self)),
            final(self).stage is Over,
            r == (IntegrityAction::Conclude { result }),
    {
        self.stage = IntegrityStage::Over;
        IntegrityAction::Conclude { result }
    }

    /// A recovery begins with another look at the path, where there is one.
    pub open spec fn recovery_begins(&self, stage: IntegrityStage, r: IntegrityAction) -> bool {
        match self.db_path {
            Some(_) => stage is Validate && r is ValidateTarget,
            None => stage is Over && concludes_failed(
                r,
                "Automatic recovery cannot start: DATABASE_URL does not resolve to a filesystem SQLite path"@,
                "Set DATABASE_URL to a real SQLite file path such as `sqlite:///.../storage.sqlite3`."@,
            ),
        }
    }

    fn attempt_probe_recovery(&mut self) -> (r: IntegrityAction)
        ensures
            final(self).same_database(old(self)),
            old(self).recovery_begins(final(self).stage, r),
    {
        if self.db_path.is_some() {
            self.stage = IntegrityStage::Validate;
            IntegrityAction::ValidateTarget
        } else {
            self.conclude(
                fail(
                    "integrity",
                    "Automatic recovery cannot start: DATABASE_URL does not resolve to a filesystem SQLite path".to_owned(),
                    "Set DATABASE_URL to a real SQLite file path such as `sqlite:///.../storage.sqlite3`.".to_owned(),
                ),
            )
        }
    }

    /// The activity lock was acquired or not. It is tried again after a pause,
    /// as often as is allowed.
    pub fn on_lock(&mut self, outcome: Result<(), String>) -> (r: IntegrityAction)
        requires
            old(self).well_formed(),
            old(self).stage is Lock,
        ensures
            final(self).well_formed(),
            final(self).same_database(old(self)),
            may_follow(old(self).stage, final(self).stage),
            old(self).stage matches IntegrityStage::Lock { attempt, file_missing } ==> match outcome {
                Ok(_) => if file_missing {
                    old(self).recovery_begins(final(self).stage, r)
                } else {
                    final(self).stage is OpenPool && r is OpenPool
                },
                Err(e) => if attempt + 1 < MAX_LOCK_ATTEMPTS {
                    final(self).stage == (IntegrityStage::Lock {
                        attempt: (attempt + 1) as u32,
                        file_missing,
                    }) && r == (IntegrityAction::AcquireLock { after_ms: LOCK_BACKOFF_MS })
                } else {
                    final(self).stage is Over && concludes_failed(
                        r,
                        "Integrity probe blocked for "@ + old(self).database() + ": "@
                            + with_detail(busy_cause(e@), e@),
                        busy_advice(),
                    )
                },
            },
    {
        let (attempt, file_missing) = match self.stage {
            IntegrityStage::Lock { attempt, file_missing } => (attempt, file_missing),
            _ => (0, false),
        };
        match outcome {
            Ok(_) => if file_missing {
                self.attempt_probe_recovery()
            } else {
                self.stage = IntegrityStage::OpenPool;
                IntegrityAction::OpenPool
            },
            Err(e) => if attempt < MAX_LOCK_ATTEMPTS - 1 {
                self.stage = IntegrityStage::Lock { attempt: attempt + 1, file_missing };
                IntegrityAction::AcquireLock { after_ms: LOCK_BACKOFF_MS }
            } else {
                let database = self.show_database();
                let result = integrity_busy_probe_failure(database.as_str(), e.as_str());
                self.conclude(result)
            },
        }
    }

    /// The pool was set up or not.
    pub fn on_pool(&mut self, outcome: Result<(), String>) -> (r: IntegrityAction)
        requires
            old(self).stage is OpenPool,
        ensures
            final(self).well_formed(),
            final(self).same_database(old(self)),
            may_follow(old(self).stage, final(self).stage),
            match outcome {
                Ok(_) => final(self).stage is Check && r is RunCheck,
                Err(e) => final(self).stage is Over && concludes_failed(
                    r,
                    "Integrity probe could not initialize the mailbox pool for "@ + old(self).url@
                        + ": "@ + with_detail(open_cause(e@), e@),
                    "Check DATABASE_URL, filesystem permissions, and parent-directory existence before retrying. Set `INTEGRITY_CHECK_ON_STARTUP=false` only if you intentionally want to skip startup integrity probing."@,
                ),
            },
    {
        match outcome {
            Ok(_) => {
                self.stage = IntegrityStage::Check;
                IntegrityAction::RunCheck
            },
            Err(e) => {
                let problem = "Integrity probe could not initialize the mailbox pool for ".to_owned().concat(
                    self.url.as_str(),
                ).concat(": ").concat(classify_integrity_open_root_cause(e.as_str()).as_str());
                self.conclude(
                    fail(
                        "integrity",
                        problem,
                        "Check DATABASE_URL, filesystem permissions, and parent-directory existence before retrying. Set `INTEGRITY_CHECK_ON_STARTUP=false` only if you intentionally want to skip startup integrity probing.".to_owned(),
                    ),
                )
            },
        }
    }

    /// The database was checked. The check does its own recovery, so that its
    /// failure ends the probe.
    pub fn on_check(&mut self, outcome: CheckOutcome) -> (r: IntegrityAction)
        requires
            old(self).stage is Check,
        ensures
            final(self).well_formed(),
            final(self).same_database(old(self)),
            may_follow(old(self).stage, final(self).stage),
            match outcome {
                CheckOutcome::Clean => final(self).stage is Compare && r is CompareArchive,
                CheckOutcome::Failed { error, diagnosis, lock_error } => final(self).stage is Over
                    && match diagnosis {
                    Some(result) => r == (IntegrityAction::Conclude { result }),
                    None => if lock_error {
                        concludes_failed(
                            r,
                            "Integrity probe blocked for "@ + old(self).database() + ": "@
                                + with_detail(busy_cause(error@), error@),
                            busy_advice(),
                        )
                    } else {
                        concludes_failed(
                            r,
                            "Startup integrity recovery failed for "@ + old(self).database() + ": "@
                                + with_detail(recovery_cause(error@), error@),
                            "Run `am doctor repair --yes`, then retry startup. If the database remains unhealthy, run `am doctor reconstruct --yes`."@,
                        )
                    },
                },
            },
    {
        match outcome {
            CheckOutcome::Clean => {
                self.stage = IntegrityStage::Compare;
                IntegrityAction::CompareArchive
            },
            CheckOutcome::Failed { error, diagnosis, lock_error } => {
                if let Some(result) = diagnosis {
                    return self.conclude(result);
                }
                let database = self.show_database();
                if lock_error {
                    let result = integrity_busy_probe_failure(database.as_str(), error.as_str());
                    return self.conclude(result);
                }
                let problem = "Startup integrity recovery failed for ".to_owned().concat(
                    database.as_str(),
                ).concat(": ").concat(
                    classify_recovery_failure_root_cause(error.as_str()).as_str(),
                );
                self.conclude(
                    fail(
                        "integrity",
                        problem,
                        "Run `am doctor repair --yes`, then retry startup. If the database remains unhealthy, run `am doctor reconstruct --yes`.".to_owned(),
                    ),
                )
            },
        }
    }

    /// The archive was compared with the database: it holds more, or not.
    pub fn on_compared(&mut self, archive_ahead: bool) -> (r: IntegrityAction)
        requires
            old(self).stage is Compare,
        ensures
            final(self).well_formed(),
            final(self).same_database(old(self)),
            may_follow(old(self).stage, final(self).stage),
            if archive_ahead {
                old(self).recovery_begins(final(self).stage, r)
            } else {
                final(self).stage is AdvanceFloor && r is AdvanceFloor
            },
    {
        if archive_ahead {
            self.attempt_probe_recovery()
        } else {
            self.stage = IntegrityStage::AdvanceFloor;
            IntegrityAction::AdvanceFloor
        }
    }

    /// The allocator of message identifiers was raised, or that failed: either
    /// way the probe passes.
    pub fn on_floor_advanced(&mut self) -> (r: IntegrityAction)
        requires
            old(self).stage is AdvanceFloor,
        ensures
            final(self).well_formed(),
            final(self).same_database(old(self)),
            may_follow(old(self).stage, final(self).stage),
            final(self).stage is Over && concludes_passed(r),
    {
        self.conclude(pass("integrity"))
    }

    /// The path was looked at again: it is still accepted or not. The archive
    /// is used where the storage directory and its projects are directories.
    pub fn on_validated(
        &mut self,
        accepted: Result<(), String>,
        root_is_directory: bool,
        projects_is_directory: bool,
    ) -> (r: IntegrityAction)
        requires
            old(self).stage is Validate,
        ensures
            final(self).well_formed(),
            final(self).same_database(old(self)),
            may_follow(old(self).stage, final(self).stage),
            match accepted {
                Ok(_) => final(self).stage is Recover && r == (IntegrityAction::Recover {
                    with_archive: root_is_directory && projects_is_directory,
                }),
                Err(problem) => final(self).stage is Over && concludes_failed(
                    r,
                    problem@,
                    real_path_advice(old(self).database()),
                ),
            },
    {
        match accepted {
            Ok(_) => {
                self.stage = IntegrityStage::Recover;
                IntegrityAction::Recover {
                    with_archive: root_is_directory && projects_is_directory,
                }
            },
            Err(problem) => {
                let advice = "Use a real, non-symlinked database path for ".to_owned().concat(
                    self.show_database().as_str(),
                );
                self.conclude(fail("integrity", problem, advice))
            },
        }
    }

    /// The recovery came off or not; there is no second one.
    pub fn on_recovered(&mut self, outcome: Result<(), String>) -> (r: IntegrityAction)
        requires
            old(self).stage is Recover,
        ensures
            final(self).well_formed(),
            final(self).same_database(old(self)),
            may_follow(old(self).stage, final(self).stage),
            final(self).stage is Over,
            match outcome {
                Ok(_) => concludes_passed(r),
                Err(e) => concludes_failed(
                    r,
                    "Automatic recovery failed for "@ + old(self).database() + ": "@ + with_detail(
                        recovery_cause(e@),
                        e@,
                    ),
                    recovery_advice(old(self).database()),
                ),
            },
    {
        match outcome {
            Ok(_) => self.conclude(pass("integrity")),
            Err(e) => {
                let database = self.show_database();
                let problem = "Automatic recovery failed for ".to_owned().concat(
                    database.as_str(),
                ).concat(": ").concat(classify_recovery_failure_root_cause(e.as_str()).as_str());
                let advice =
                    "Try these in order:\n1. `am doctor repair --yes` — automatic repair from backups/archive\n2. `am doctor reconstruct --yes` — rebuild the database from the Git archive\n3. `am clear-and-reset-everything` — archive current state and start completely fresh\nThe corrupt file has been quarantined at ".to_owned().concat(
                    database.as_str(),
                ).concat(".corrupt-*");
                self.conclude(fail("integrity", problem, advice))
            },
        }
    }
}

/// The probe has nothing to do where it is switched off, where the database is
/// in memory, and where there is neither a database nor an archive. A path
/// that was turned down fails it, and otherwise it starts with the lock.
pub proof fn law_when_there_is_something_to_probe(
    facts: IntegrityFacts,
    r: (IntegrityProbe, IntegrityAction),
)
    requires
        call_ensures(probe_integrity, (facts,), r),
    ensures
        !facts.enabled || facts.in_memory ==> (r.1 matches IntegrityAction::Conclude { result }
            && result is Pass),
        facts.enabled && !facts.in_memory && facts.db_path is Some && facts.accepted is Err ==> (r.1
            matches IntegrityAction::Conclude { result } && (result matches ProbeResult::Fail(f)
            && f.problem@ == (facts.accepted->Err_0)@)),
        facts.enabled && !facts.in_memory && (facts.db_path is None || facts.accepted is Ok) ==> (r.1
            is Conclude <==> facts.db_path is Some && facts.file_missing && !facts.has_archive),
        facts.enabled && !facts.in_memory && (facts.db_path is None || facts.accepted is Ok) && !(
        facts.db_path is Some && facts.file_missing && !facts.has_archive) ==> r.1 == (
        IntegrityAction::AcquireLock { after_ms: 0 }) && r.0.stage == (IntegrityStage::Lock {
            attempt: 0,
            file_missing: facts.db_path is Some && facts.file_missing,
        }),
        r.1 matches IntegrityAction::Conclude { result } ==> (result is Pass || (result matches
            ProbeResult::Fail(f) && f.name@ == "integrity"@)),
{
}

/// With the lock a database that is there is opened, and one that is missing
/// is recovered. Without it the lock is tried again after a pause, eight times
/// in all, and then the probe fails.
pub proof fn law_what_the_lock_leads_to(
    p: &mut IntegrityProbe,
    attempt: u32,
    file_missing: bool,
    outcome: Result<(), String>,
    r: IntegrityAction,
)
    requires
        old(p).stage == (IntegrityStage::Lock { attempt, file_missing }),
        attempt < 8,
        call_ensures(IntegrityProbe::on_lock, (p, outcome), r),
    ensures
        outcome is Ok && !file_missing ==> r is OpenPool && final(p).stage is OpenPool,
        outcome is Ok && file_missing && old(p).db_path is Some ==> r is ValidateTarget,
        outcome is Ok && file_missing && old(p).db_path is None ==> (r matches
            IntegrityAction::Conclude { result } && result is Fail),
        outcome is Err && attempt < 7 ==> r == (IntegrityAction::AcquireLock { after_ms: 150 })
            && final(p).stage == (IntegrityStage::Lock {
            attempt: (attempt + 1) as u32,
            file_missing,
        }),
        outcome is Err && attempt == 7 ==> (r matches IntegrityAction::Conclude { result } && result
            is Fail),
{
}

/// A pool that was set up is checked, a clean check is followed by the
/// comparison with the archive, and a failure of either ends the probe with a
/// failure: that of a sidecar as it was diagnosed.
pub proof fn law_what_the_check_leads_to(
    p: &mut IntegrityProbe,
    outcome: Result<(), String>,
    opened: IntegrityAction,
    q: &mut IntegrityProbe,
    checked: CheckOutcome,
    r: IntegrityAction,
)
    requires
        old(p).stage is OpenPool,
        old(q).stage is Check,
        call_ensures(IntegrityProbe::on_pool, (p, outcome), opened),
        call_ensures(IntegrityProbe::on_check, (q, checked), r),
    ensures
        outcome is Ok ==> opened is RunCheck && final(p).stage is Check,
        outcome is Err ==> (opened matches IntegrityAction::Conclude { result } && result is Fail),
        checked is Clean ==> r is CompareArchive && final(q).stage is Compare,
        checked matches CheckOutcome::Failed { error, diagnosis, lock_error } ==> {
            &&& r is Conclude && final(q).stage is Over
            &&& diagnosis is Some ==> r == (IntegrityAction::Conclude { result: diagnosis->0 })
            &&& diagnosis is None ==> (r matches IntegrityAction::Conclude { result } && (result
                matches ProbeResult::Fail(f) && f.name@ == "integrity"@ && (lock_error ==>
                "Integrity probe blocked for "@.is_prefix_of(f.problem@)) && (!lock_error ==>
                "Startup integrity recovery failed for "@.is_prefix_of(f.problem@))))
        },
{
    if let CheckOutcome::Failed { error, diagnosis, lock_error } = checked {
        let a = "Integrity probe blocked for "@;
        let b = "Startup integrity recovery failed for "@;
        let d = old(q).database();
        let x = with_detail(busy_cause(error@), error@);
        let y = with_detail(recovery_cause(error@), error@);
        assert(a + d + ": "@ + x =~= a + (d + ": "@ + x));
        assert(b + d + ": "@ + y =~= b + (d + ": "@ + y));
    }
}

/// An archive that holds more than the database leads to a recovery, and
/// otherwise the allocator is raised and the probe passes. A recovery looks at
/// the path again first, uses the archive where both its directories are
/// there, and passes or fails the probe.
pub proof fn law_when_the_mailbox_is_recovered(
    p: &mut IntegrityProbe,
    ahead: bool,
    compared: IntegrityAction,
    q: &mut IntegrityProbe,
    raised: IntegrityAction,
    v: &mut IntegrityProbe,
    accepted: Result<(), String>,
    root: bool,
    projects: bool,
    validated: IntegrityAction,
    w: &mut IntegrityProbe,
    outcome: Result<(), String>,
    r: IntegrityAction,
)
    requires
        old(p).stage is Compare,
        old(q).stage is AdvanceFloor,
        old(v).stage is Validate,
        old(w).stage is Recover,
        call_ensures(IntegrityProbe::on_compared, (p, ahead), compared),
        call_ensures(IntegrityProbe::on_floor_advanced, (q,), raised),
        call_ensures(IntegrityProbe::on_validated, (v, accepted, root, projects), validated),
        call_ensures(IntegrityProbe::on_recovered, (w, outcome), r),
    ensures
        !ahead ==> compared is AdvanceFloor,
        ahead && old(p).db_path is Some ==> compared is ValidateTarget && final(p).stage
            is Validate,
        ahead && old(p).db_path is None ==> (compared matches IntegrityAction::Conclude { result }
            && result is Fail),
        raised matches IntegrityAction::Conclude { result } && result is Pass,
        accepted is Ok ==> validated == (IntegrityAction::Recover {
            with_archive: root && projects,
        }),
        accepted is Err ==> (validated matches IntegrityAction::Conclude { result } && (result
            matches ProbeResult::Fail(f) && f.problem@ == (accepted->Err_0)@)),
        r matches IntegrityAction::Conclude { result } && (result is Pass <==> outcome is Ok),
{
}

} // verus!
