//! What a failed start says about the state of recovery.

use vstd::prelude::*;

use crate::expiry::{nanos_of, TimePoint};
use crate::numbers::{decimal, print_u64};
use crate::text::{has_text, join, joined, occurs_at, views};

verus! {

/// How durable the mailbox is.
#[derive(Debug, Clone, Copy, PartialEq, Eq, Structural)]
pub enum DurabilityState {
    Healthy,
    DegradedReadOnly,
    Recovering,
    Corrupt,
}

/// Who owns the mailbox.
#[derive(Debug, Clone, Copy, PartialEq, Eq, Structural)]
pub enum MailboxOwnershipDisposition {
    Unowned,
    ActiveOtherOwner,
    StaleLiveProcess,
    DeletedExecutable,
    SplitBrain,
}

/// How full the queue of deferred writes is.
#[derive(Debug, Clone, Copy, PartialEq, Eq, Structural)]
pub enum BacklogPressure {
    Normal,
    Elevated,
    Critical,
    HardStop,
}

/// The recovery lock.
#[derive(Debug, Clone, Copy, PartialEq, Eq, Structural)]
pub struct RecoveryLock {
    /// A live process holds it.
    pub active: bool,
    /// Its file is there.
    pub exists: bool,
    /// The process that holds it, where it is known.
    pub pid: Option<u32>,
}

/// The queue of deferred writes.
#[derive(Debug, Clone, Copy, PartialEq, Eq, Structural)]
pub struct DeferredWrites {
    pub active: bool,
    pub sealed: bool,
    pub queued: u64,
    pub capacity: u64,
    pub oldest_age_secs: u64,
    pub pressure: BacklogPressure,
}

/// The controller that admits recoveries.
#[derive(Debug, Clone, Copy, PartialEq, Eq, Structural)]
pub struct Admission {
    pub suppressed: bool,
    pub consecutive_failures: u64,
    pub attempts_in_window: u64,
}

/// What is known of the recovery of a mailbox.
pub struct RecoveryFacts {
    pub durability: DurabilityState,
    /// The durability as it is shown.
    pub mode: String,
    pub lock: RecoveryLock,
    pub disposition: MailboxOwnershipDisposition,
    /// The first process that has the mailbox open.
    pub owner_pid: Option<u32>,
    /// How many processes compete for it.
    pub competing: u64,
    /// The age of the lock file, in seconds, where it is known.
    pub elapsed_secs: Option<u64>,
    pub admission: Admission,
    pub deferred: DeferredWrites,
    /// The latest forensic bundle, where there is one.
    pub bundle: Option<String>,
}

/// The age at which a held lock counts as stalled, in seconds.
pub const STARTUP_RECOVERY_STALL_THRESHOLD_SECS: u64 = 300;

/// A span of time: seconds, or minutes and seconds, or hours and minutes.
pub open spec fn elapsed_text(secs: int) -> Seq<char> {
    if secs < 60 {
        decimal(secs as nat) + "s"@
    } else if secs < 3600 {
        if secs % 60 == 0 {
            decimal((secs / 60) as nat) + "m"@
        } else {
            decimal((secs / 60) as nat) + "m "@ + decimal((secs % 60) as nat) + "s"@
        }
    } else {
        decimal((secs / 3600) as nat) + "h "@ + decimal(((secs % 3600) / 60) as nat) + "m"@
    }
}

pub fn format_recovery_elapsed(total_secs: u64) -> (r: String)
    ensures
        r@ == elapsed_text(total_secs as int),
{
    if total_secs < 60 {
        print_u64(total_secs).concat("s")
    } else if total_secs < 3600 {
        let m: u64 = total_secs / 60;
        let s: u64 = total_secs % 60;
        if s == 0 {
            print_u64(m).concat("m")
        } else {
            print_u64(m).concat("m ").concat(print_u64(s).as_str()).concat("s")
        }
    } else {
        let h: u64 = total_secs / 3600;
        let m: u64 = (total_secs % 3600) / 60;
        print_u64(h).concat("h ").concat(print_u64(m).as_str()).concat("m")
    }
}

impl RecoveryFacts {
    /// Something is wrong that is worth showing.
    pub open spec fn is_relevant(&self) -> bool {
        self.durability != DurabilityState::Healthy || self.lock.active
    }

    /// Where recovery stands.
    pub open spec fn phase(&self) -> Seq<char> {
        if self.lock.active {
            "lock_held"@
        } else if self.lock.exists {
            "lock_stale"@
        } else if self.durability == DurabilityState::Corrupt {
            "corrupt_no_lock"@
        } else {
            "degraded_no_lock"@
        }
    }

    /// A process and what it is, or what is said where none is known.
    pub open spec fn process_or(&self, suffix: Seq<char>, unknown: Seq<char>) -> Seq<char> {
        match self.owner_pid {
            Some(pid) => "pid "@ + decimal(pid as nat) + suffix,
            None => unknown,
        }
    }

    /// Who owns the mailbox.
    pub open spec fn owner(&self) -> Seq<char> {
        match self.disposition {
            MailboxOwnershipDisposition::Unowned => "none"@,
            MailboxOwnershipDisposition::ActiveOtherOwner => self.process_or(
                " (active)"@,
                "active (unknown pid)"@,
            ),
            MailboxOwnershipDisposition::StaleLiveProcess => self.process_or(
                " (stale)"@,
                "stale (unknown pid)"@,
            ),
            MailboxOwnershipDisposition::DeletedExecutable => self.process_or(
                " (deleted executable)"@,
                "deleted executable"@,
            ),
            MailboxOwnershipDisposition::SplitBrain => "split-brain ("@ + decimal(
                self.competing as nat,
            ) + " competing pids)"@,
        }
    }

    /// Who holds the recovery lock.
    pub open spec fn lock_line(&self) -> Seq<char> {
        if self.lock.active {
            "    Lock:   recovery lock held by "@ + (match self.lock.pid {
                Some(pid) => "pid "@ + decimal(pid as nat),
                None => "unknown"@,
            }) + "\n"@
        } else {
            Seq::empty()
        }
    }

    pub open spec fn elapsed_line(&self) -> Seq<char> {
        match self.elapsed_secs {
            Some(age) => "    Elapsed: "@ + elapsed_text(age as int) + "\n"@,
            None => Seq::empty(),
        }
    }

    /// A live process has held the lock for too long.
    pub open spec fn held_too_long(&self) -> bool {
        self.lock.active && self.elapsed_secs is Some && self.elapsed_secs->0
            >= STARTUP_RECOVERY_STALL_THRESHOLD_SECS
    }

    /// The lock is left over from a process that is gone.
    pub open spec fn has_stale_lock(&self) -> bool {
        self.lock.exists && !self.lock.active && self.durability != DurabilityState::Healthy
    }

    /// Why recovery does not get on, one reason after the other.
    pub open spec fn stall_reasons(&self) -> Seq<Seq<char>> {
        let none = Seq::<Seq<char>>::empty();
        let held = if self.held_too_long() {
            none.push("lock held beyond stall threshold"@)
        } else {
            none
        };
        let suppressed = if self.admission.suppressed {
            held.push("admission suppressed after repeated failures"@)
        } else {
            held
        };
        let stopped = if self.deferred.pressure == BacklogPressure::HardStop {
            suppressed.push("deferred-write queue at hard-stop"@)
        } else {
            suppressed
        };
        if self.has_stale_lock() {
            stopped.push("stale recovery lock from dead process"@)
        } else {
            stopped
        }
    }

    pub open spec fn stall_line(&self) -> Seq<char> {
        if self.stall_reasons().len() > 0 {
            "    Stall:  YES ("@ + joined(self.stall_reasons(), "; "@) + ")\n"@
        } else if self.lock.active {
            "    Stall:  no (still within budget)\n"@
        } else {
            Seq::empty()
        }
    }

    pub open spec fn pressure_label(&self) -> Seq<char> {
        match self.deferred.pressure {
            BacklogPressure::Normal => "normal"@,
            BacklogPressure::Elevated => "elevated"@,
            BacklogPressure::Critical => "critical"@,
            BacklogPressure::HardStop => "hard_stop"@,
        }
    }

    pub open spec fn backlog_line(&self) -> Seq<char> {
        let d = self.deferred;
        if d.active || d.sealed || d.queued > 0 {
            "    Backlog: "@ + decimal(d.queued as nat) + "/"@ + decimal(d.capacity as nat)
                + " writes queued, oldest "@ + decimal(d.oldest_age_secs as nat) + "s, pressure="@
                + self.pressure_label() + "\n"@
        } else {
            Seq::empty()
        }
    }

    pub open spec fn admission_line(&self) -> Seq<char> {
        let a = self.admission;
        if a.consecutive_failures > 0 || a.suppressed {
            "    Admission: "@ + decimal(a.consecutive_failures as nat)
                + " consecutive failures, "@ + decimal(a.attempts_in_window as nat)
                + " attempts in window"@ + (if a.suppressed {
                ", SUPPRESSED"@
            } else {
                ""@
            }) + "\n"@
        } else {
            Seq::empty()
        }
    }

    /// What to do next.
    pub open spec fn next_action(&self) -> Seq<char> {
        if self.stall_reasons().len() > 0 {
            match self.durability {
                DurabilityState::Healthy => "No action required"@,
                DurabilityState::Corrupt =>
                    "Run `am doctor repair --yes` or restore from archive backup"@,
                _ => if self.lock.exists && !self.lock.active {
                    "Recovery lock is stale (process exited); run `am doctor repair` to restart"@
                } else if self.admission.suppressed {
                    "Recovery suppressed after repeated failures; run `am doctor repair --yes` to override"@
                } else {
                    "Recovery appears stalled; investigate lock holder or run `am doctor repair --yes`"@
                },
            }
        } else {
            match self.durability {
                DurabilityState::Healthy => "No action required"@,
                DurabilityState::DegradedReadOnly => if self.lock.active {
                    "Recovery in progress; still within budget, no action needed yet"@
                } else {
                    "Run `am doctor repair` to attempt automatic recovery"@
                },
                DurabilityState::Recovering =>
                    "Recovery in progress; wait for completion or investigate stall"@,
                DurabilityState::Corrupt =>
                    "Run `am doctor repair --yes` or restore from archive backup"@,
            }
        }
    }

    pub open spec fn bundle_line(&self) -> Seq<char> {
        match self.bundle {
            Some(path) => "    Bundle: "@ + path@ + "\n"@,
            None => Seq::empty(),
        }
    }

    /// The whole section.
    pub open spec fn context_text(&self) -> Seq<char> {
        "\n  Recovery context:\n"@ + "    Mode:   "@ + self.mode@ + "\n"@ + "    Phase:  "@
            + self.phase() + "\n"@ + "    Owner:  "@ + self.owner() + "\n"@ + self.lock_line()
            + self.elapsed_line() + self.stall_line() + self.backlog_line() + self.admission_line()
            + "    Action: "@ + self.next_action() + "\n"@ + self.bundle_line()
    }

    fn show_process_or(&self, suffix: &str, unknown: &str) -> (r: String)
        ensures
            r@ == self.process_or(suffix@, unknown@),
    {
        match self.owner_pid {
            Some(pid) => "pid ".to_owned().concat(print_u64(pid as u64).as_str()).concat(suffix),
            None => unknown.to_owned(),
        }
    }

    fn show_owner(&self) -> (r: String)
        ensures
            r@ == self.owner(),
    {
        match self.disposition {
            MailboxOwnershipDisposition::Unowned => "none".to_owned(),
            MailboxOwnershipDisposition::ActiveOtherOwner => self.show_process_or(
                " (active)",
                "active (unknown pid)",
            ),
            MailboxOwnershipDisposition::StaleLiveProcess => self.show_process_or(
                " (stale)",
                "stale (unknown pid)",
            ),
            MailboxOwnershipDisposition::DeletedExecutable => self.show_process_or(
                " (deleted executable)",
                "deleted executable",
            ),
            MailboxOwnershipDisposition::SplitBrain => "split-brain (".to_owned().concat(
                print_u64(self.competing).as_str(),
            ).concat(" competing pids)"),
        }
    }

    fn show_phase(&self) -> (r: &'static str)
        ensures
            r@ == self.phase(),
    {
        if self.lock.active {
            "lock_held"
        } else if self.lock.exists {
            "lock_stale"
        } else {
            match self.durability {
                DurabilityState::Corrupt => "corrupt_no_lock",
                _ => "degraded_no_lock",
            }
        }
    }

    fn show_lock(&self) -> (r: String)
        ensures
            r@ == self.lock_line(),
    {
        if !self.lock.active {
            return String::new();
        }
        let holder = match self.lock.pid {
            Some(pid) => "pid ".to_owned().concat(print_u64(pid as u64).as_str()),
            None => "unknown".to_owned(),
        };
        "    Lock:   recovery lock held by ".to_owned().concat(holder.as_str()).concat("\n")
    }

    fn show_elapsed(&self) -> (r: String)
        ensures
            r@ == self.elapsed_line(),
    {
        match self.elapsed_secs {
            Some(age) => "    Elapsed: ".to_owned().concat(
                format_recovery_elapsed(age).as_str(),
            ).concat("\n"),
            None => String::new(),
        }
    }

    /// Why recovery does not get on.
    pub fn find_stall_reasons(&self) -> (r: Vec<String>)
        ensures
            views(r@) == self.stall_reasons(),
    {
        let mut out: Vec<String> = Vec::new();
        let held = self.lock.active && (match self.elapsed_secs {
            Some(age) => age >= STARTUP_RECOVERY_STALL_THRESHOLD_SECS,
            None => false,
        });
        assert(views(out@) =~= Seq::<Seq<char>>::empty());
        if held {
            let ghost before = views(out@);
            out.push("lock held beyond stall threshold".to_owned());
            assert(views(out@) =~= before.push("lock held beyond stall threshold"@));
        }
        if self.admission.suppressed {
            let ghost before = views(out@);
            out.push("admission suppressed after repeated failures".to_owned());
            assert(views(out@) =~= before.push("admission suppressed after repeated failures"@));
        }
        let stopped = match self.deferred.pressure {
            BacklogPressure::HardStop => true,
            _ => false,
        };
        if stopped {
            let ghost before = views(out@);
            out.push("deferred-write queue at hard-stop".to_owned());
            assert(views(out@) =~= before.push("deferred-write queue at hard-stop"@));
        }
        let healthy = match self.durability {
            DurabilityState::Healthy => true,
            _ => false,
        };
        if self.lock.exists && !self.lock.active && !healthy {
            let ghost before = views(out@);
            out.push("stale recovery lock from dead process".to_owned());
            assert(views(out@) =~= before.push("stale recovery lock from dead process"@));
        }
        out
    }

    fn show_stall(&self, reasons: &Vec<String>) -> (r: String)
        requires
            views(reasons@) == self.stall_reasons(),
        ensures
            r@ == self.stall_line(),
    {
        if reasons.len() > 0 {
            "    Stall:  YES (".to_owned().concat(join(reasons, "; ").as_str()).concat(")\n")
        } else if self.lock.active {
            "    Stall:  no (still within budget)\n".to_owned()
        } else {
            String::new()
        }
    }

    fn show_backlog(&self) -> (r: String)
        ensures
            r@ == self.backlog_line(),
    {
        let d = self.deferred;
        if !(d.active || d.sealed || d.queued > 0) {
            return String::new();
        }
        let label = match d.pressure {
            BacklogPressure::Normal => "normal",
            BacklogPressure::Elevated => "elevated",
            BacklogPressure::Critical => "critical",
            BacklogPressure::HardStop => "hard_stop",
        };
        "    Backlog: ".to_owned().concat(print_u64(d.queued).as_str()).concat("/").concat(
            print_u64(d.capacity).as_str(),
        ).concat(" writes queued, oldest ").concat(print_u64(d.oldest_age_secs).as_str()).concat(
            "s, pressure=",
        ).concat(label).concat("\n")
    }

    fn show_admission(&self) -> (r: String)
        ensures
            r@ == self.admission_line(),
    {
        let a = self.admission;
        if a.consecutive_failures == 0 && !a.suppressed {
            return String::new();
        }
        let suffix = if a.suppressed {
            ", SUPPRESSED"
        } else {
            ""
        };
        "    Admission: ".to_owned().concat(print_u64(a.consecutive_failures).as_str()).concat(
            " consecutive failures, ",
        ).concat(print_u64(a.attempts_in_window).as_str()).concat(" attempts in window").concat(
            suffix,
        ).concat("\n")
    }

    fn show_action(&self, stalled: bool) -> (r: &'static str)
        requires
            stalled == (self.stall_reasons().len() > 0),
        ensures
            r@ == self.next_action(),
    {
        match self.durability {
            DurabilityState::Healthy => "No action required",
            DurabilityState::Corrupt =>
                "Run `am doctor repair --yes` or restore from archive backup",
            DurabilityState::DegradedReadOnly => if stalled {
                self.show_stalled_action()
            } else if self.lock.active {
                "Recovery in progress; still within budget, no action needed yet"
            } else {
                "Run `am doctor repair` to attempt automatic recovery"
            },
            DurabilityState::Recovering => if stalled {
                self.show_stalled_action()
            } else {
                "Recovery in progress; wait for completion or investigate stall"
            },
        }
    }

    fn show_stalled_action(&self) -> (r: &'static str)
        requires
            self.stall_reasons().len() > 0,
            self.durability == DurabilityState::DegradedReadOnly || self.durability
                == DurabilityState::Recovering,
        ensures
            r@ == self.next_action(),
    {
        if self.lock.exists && !self.lock.active {
            "Recovery lock is stale (process exited); run `am doctor repair` to restart"
        } else if self.admission.suppressed {
            "Recovery suppressed after repeated failures; run `am doctor repair --yes` to override"
        } else {
            "Recovery appears stalled; investigate lock holder or run `am doctor repair --yes`"
        }
    }
}

/// The section about recovery that is added to a failed start, where something
/// is wrong: the mode, the phase, the owner, the lock and its age, whether
/// recovery is stalled and why, the backlog, the admission of recoveries, what
/// to do next, and the latest forensic bundle.
pub fn format_recovery_context(facts: &RecoveryFacts) -> (r: Option<String>)
    ensures
        match r {
            Some(text) => facts.is_relevant() && text@ == facts.context_text(),
            None => !facts.is_relevant(),
        },
{
    let healthy = match facts.durability {
        DurabilityState::Healthy => true,
        _ => false,
    };
    if healthy && !facts.lock.active {
        return None;
    }
    let reasons = facts.find_stall_reasons();
    let bundle = match &facts.bundle {
        Some(path) => "    Bundle: ".to_owned().concat(path.as_str()).concat("\n"),
        None => String::new(),
    };
    assert(bundle@ =~= facts.bundle_line());
    Some(
        "\n  Recovery context:\n".to_owned().concat("    Mode:   ").concat(
            facts.mode.as_str(),
        ).concat("\n").concat("    Phase:  ").concat(facts.show_phase()).concat("\n").concat(
            "    Owner:  ",
        ).concat(facts.show_owner().as_str()).concat("\n").concat(
            facts.show_lock().as_str(),
        ).concat(facts.show_elapsed().as_str()).concat(
            facts.show_stall(&reasons).as_str(),
        ).concat(facts.show_backlog().as_str()).concat(facts.show_admission().as_str()).concat(
            "    Action: ",
        ).concat(facts.show_action(reasons.len() > 0)).concat("\n").concat(bundle.as_str()),
    )
}

/// A healthy mailbox is never said to need anything.
pub proof fn law_healthy_needs_nothing(facts: RecoveryFacts)
    requires
        facts.durability == DurabilityState::Healthy,
    ensures
        facts.next_action() == "No action required"@,
{
}

/// Recovery counts as stalled for exactly four reasons.
pub proof fn law_stalled_for_a_reason(facts: RecoveryFacts)
    ensures
        facts.stall_reasons().len() > 0 <==> (facts.held_too_long() || facts.admission.suppressed
            || facts.deferred.pressure == BacklogPressure::HardStop || facts.has_stale_lock()),
{
}

/// A directory that may be a forensic bundle.
#[derive(Debug, Clone, Copy, PartialEq, Eq, Structural)]
pub struct BundleEntry {
    pub is_dir: bool,
    /// When it was last changed, where that is known.
    pub modified: Option<TimePoint>,
}

/// When a bundle was last changed; unknown counts as the epoch.
pub open spec fn changed_at(entry: BundleEntry) -> TimePoint {
    match entry.modified {
        Some(t) => t,
        None => TimePoint { secs: 0, nanos: 0 },
    }
}

/// The position of the directory that was changed last; of two changed at the
/// same time the first.
pub open spec fn latest_of(entries: Seq<BundleEntry>) -> Option<int>
    decreases entries.len(),
{
    if entries.len() == 0 {
        None
    } else {
        let before = latest_of(entries.drop_last());
        let last = entries.len() - 1;
        if !entries.last().is_dir {
            before
        } else {
            match before {
                Some(i) => if changed_at(entries.last()).is_at_or_before(changed_at(entries[i])) {
                    before
                } else {
                    Some(last)
                },
                None => Some(last),
            }
        }
    }
}

/// The latest bundle among the entries of the forensics directory.
pub fn find_latest_bundle_in(entries: &Vec<BundleEntry>) -> (r: Option<usize>)
    ensures
        match r {
            Some(i) => latest_of(entries@) == Some(i as int) && i < entries@.len(),
            None => latest_of(entries@) is None,
        },
{
    let mut best: Option<usize> = None;
    let mut i: usize = 0;
    while i < entries.len()
        invariant
            i <= entries@.len(),
            match best {
                Some(b) => latest_of(entries@.take(i as int)) == Some(b as int) && b < i,
                None => latest_of(entries@.take(i as int)) is None,
            },
        decreases entries@.len() - i,
    {
        let ghost next = entries@.take(i + 1);
        assert(next.drop_last() =~= entries@.take(i as int));
        let e = entries[i];
        if e.is_dir {
            let time = match e.modified {
                Some(t) => t,
                None => TimePoint { secs: 0, nanos: 0 },
            };
            let newer = match best {
                Some(b) => {
                    let previous = match entries[b].modified {
                        Some(t) => t,
                        None => TimePoint { secs: 0, nanos: 0 },
                    };
                    assert(next[b as int] == entries@[b as int]);
                    assert(next.drop_last()[b as int] == entries@[b as int]);
                    !time.at_or_before(&previous)
                },
                None => true,
            };
            if newer {
                best = Some(i);
            }
        }
        i = i + 1;
    }
    assert(entries@.take(i as int) =~= entries@);
    best
}

proof fn lemma_latest_is_a_directory(entries: Seq<BundleEntry>)
    ensures
        latest_of(entries) matches Some(i) ==> 0 <= i < entries.len() && entries[i].is_dir,
        latest_of(entries) is None ==> forall|k: int|
            0 <= k < entries.len() ==> !(#[trigger] entries[k]).is_dir,
    decreases entries.len(),
{
    if entries.len() > 0 {
        let shorter = entries.drop_last();
        lemma_latest_is_a_directory(shorter);
        if latest_of(entries) is None {
            assert forall|k: int| 0 <= k < entries.len() implies !(#[trigger] entries[k]).is_dir by {
                if k < shorter.len() {
                    assert(!shorter[k].is_dir);
                }
            }
        }
    }
}

/// No directory was changed after the latest one.
pub proof fn law_latest_is_latest(entries: Seq<BundleEntry>, k: int)
    requires
        0 <= k < entries.len(),
        entries[k].is_dir,
    ensures
        latest_of(entries) matches Some(i) && entries[i].is_dir && changed_at(
            entries[k],
        ).is_at_or_before(changed_at(entries[i])),
    decreases entries.len(),
{
    lemma_latest_is_a_directory(entries);
    let shorter = entries.drop_last();
    lemma_latest_is_a_directory(shorter);
    if k < shorter.len() {
        assert(shorter[k] == entries[k]);
        law_latest_is_latest(shorter, k);
        let i = latest_of(shorter)->0;
        assert(shorter[i] == entries[i]);
    } else {
        if latest_of(shorter) is Some {
            let i = latest_of(shorter)->0;
            assert(shorter[i] == entries[i]);
        }
    }
}

/// A span of time is shown in its two largest units: up to a minute in
/// seconds, up to an hour in minutes and the seconds where there are any, and
/// beyond in hours and minutes.
pub proof fn law_a_span_is_shown_in_two_units(h: u64, m: u64, s: u64, total: u64, r: String)
    requires
        m < 60,
        s < 60,
        total == h * 3600 + m * 60 + s,
        call_ensures(format_recovery_elapsed, (total,), r),
    ensures
        h == 0 && m == 0 ==> r@ == decimal(s as nat) + "s"@,
        h == 0 && m > 0 && s == 0 ==> r@ == decimal(m as nat) + "m"@,
        h == 0 && m > 0 && s > 0 ==> r@ == decimal(m as nat) + "m "@ + decimal(s as nat) + "s"@,
        h > 0 ==> r@ == decimal(h as nat) + "h "@ + decimal(m as nat) + "m"@,
{
    let t = total as int;
    let minutes = h * 60 + m;
    assert(t == minutes * 60 + s);
    assert(t / 60 == minutes && t % 60 == s);
    assert(t / 3600 == h && t % 3600 == m * 60 + s);
    assert((t % 3600) / 60 == m);
}

/// Each reason for a stall is told where it holds and only there, and nothing
/// else is: a lock that is held for five minutes or more, refused recoveries, a
/// full queue, and a lock that nobody holds while the mailbox is not healthy.
pub proof fn law_each_stall_has_its_reason(facts: RecoveryFacts, r: Vec<String>)
    requires
        call_ensures(RecoveryFacts::find_stall_reasons, (&facts,), r),
    ensures
        ({
            let told = views(r@);
            let held = facts.lock.active && facts.elapsed_secs is Some && facts.elapsed_secs->0
                >= 300;
            let refused = facts.admission.suppressed;
            let full = facts.deferred.pressure == BacklogPressure::HardStop;
            let stale = facts.lock.exists && !facts.lock.active && facts.durability
                != DurabilityState::Healthy;
            &&& told.contains("lock held beyond stall threshold"@) <==> held
            &&& told.contains("admission suppressed after repeated failures"@) <==> refused
            &&& told.contains("deferred-write queue at hard-stop"@) <==> full
            &&& told.contains("stale recovery lock from dead process"@) <==> stale
            &&& r@.len() == (if held { 1int } else { 0 }) + (if refused { 1int } else { 0 }) + (
            if full { 1int } else { 0 }) + (if stale { 1int } else { 0 })
        }),
{
    reveal_strlit("lock held beyond stall threshold");
    reveal_strlit("admission suppressed after repeated failures");
    reveal_strlit("deferred-write queue at hard-stop");
    reveal_strlit("stale recovery lock from dead process");
    let a = "lock held beyond stall threshold"@;
    let b = "admission suppressed after repeated failures"@;
    let c = "deferred-write queue at hard-stop"@;
    let d = "stale recovery lock from dead process"@;
    assert(a.len() == 32 && b.len() == 44 && c.len() == 33 && d.len() == 37);
    let told = views(r@);
    assert(told.len() == r@.len());
    let none = Seq::<Seq<char>>::empty();
    let one = if facts.held_too_long() {
        none.push(a)
    } else {
        none
    };
    let two = if facts.admission.suppressed {
        one.push(b)
    } else {
        one
    };
    let three = if facts.deferred.pressure == BacklogPressure::HardStop {
        two.push(c)
    } else {
        two
    };
    assert(forall|x: Seq<char>| !none.contains(x));
    lemma_pushed(none, a);
    lemma_pushed(one, b);
    lemma_pushed(two, c);
    lemma_pushed(three, d);
}

proof fn lemma_pushed(parts: Seq<Seq<char>>, last: Seq<char>)
    ensures
        forall|x: Seq<char>| #[trigger] parts.push(last).contains(x) <==> parts.contains(x) || x == last,
{
    let longer = parts.push(last);
    assert forall|x: Seq<char>| #[trigger] longer.contains(x) <==> parts.contains(x) || x == last by {
        if longer.contains(x) {
            let k = choose|k: int| 0 <= k < longer.len() && longer[k] == x;
            if k < parts.len() {
                assert(parts[k] == x);
            }
        }
        if parts.contains(x) {
            let k = choose|k: int| 0 <= k < parts.len() && parts[k] == x;
            assert(longer[k] == x);
        }
        if x == last {
            assert(longer[parts.len() as int] == x);
        }
    }
}

proof fn lemma_text_goes_on(p: Seq<char>, q: Seq<char>, x: Seq<char>)
    ensures
        has_text(p + x, x),
        has_text(p, x) ==> has_text(p + q, x),
{
    assert((p + x).subrange(p.len() as int, (p.len() + x.len()) as int) =~= x);
    assert(occurs_at(p + x, x, p.len() as int));
    if has_text(p, x) {
        let i = choose|i: int| occurs_at(p, x, i);
        assert((p + q).subrange(i, i + x.len()) =~= p.subrange(i, i + x.len()));
        assert(occurs_at(p + q, x, i));
    }
}

/// How the section starts: the mode, the phase and the owner.
pub open spec fn context_head(mode: Seq<char>, phase: Seq<char>, owner: Seq<char>) -> Seq<char> {
    "\n  Recovery context:\n"@ + "    Mode:   "@ + mode + "\n"@ + "    Phase:  "@ + phase + "\n"@
        + "    Owner:  "@ + owner + "\n"@
}

/// A section is shown where the mailbox is not healthy or somebody recovers
/// it. It starts with the mode, with the phase, which is told by the lock and
/// only without one by the mailbox, and with the owner.
pub proof fn law_how_the_section_starts(facts: RecoveryFacts, r: Option<String>)
    requires
        call_ensures(format_recovery_context, (&facts,), r),
    ensures
        r is Some <==> facts.durability != DurabilityState::Healthy || facts.lock.active,
        r is Some ==> {
            let phase = if facts.lock.active {
                "lock_held"@
            } else if facts.lock.exists {
                "lock_stale"@
            } else if facts.durability == DurabilityState::Corrupt {
                "corrupt_no_lock"@
            } else {
                "degraded_no_lock"@
            };
            let head = |owner: Seq<char>| context_head(facts.mode@, phase, owner);
            let text = r->0@;
            let process = "pid "@ + decimal(facts.owner_pid->0 as nat);
            let known = facts.owner_pid is Some;
            &&& facts.disposition == MailboxOwnershipDisposition::Unowned ==> head(
                "none"@,
            ).is_prefix_of(text)
            &&& facts.disposition == MailboxOwnershipDisposition::ActiveOtherOwner ==> head(
                if known {
                    process + " (active)"@
                } else {
                    "active (unknown pid)"@
                },
            ).is_prefix_of(text)
            &&& facts.disposition == MailboxOwnershipDisposition::StaleLiveProcess ==> head(
                if known {
                    process + " (stale)"@
                } else {
                    "stale (unknown pid)"@
                },
            ).is_prefix_of(text)
            &&& facts.disposition == MailboxOwnershipDisposition::DeletedExecutable ==> head(
                if known {
                    process + " (deleted executable)"@
                } else {
                    "deleted executable"@
                },
            ).is_prefix_of(text)
            &&& facts.disposition == MailboxOwnershipDisposition::SplitBrain ==> head(
                "split-brain ("@ + decimal(facts.competing as nat) + " competing pids)"@,
            ).is_prefix_of(text)
        },
{
    if r is Some {
        lemma_context_parts(
            context_head(facts.mode@, facts.phase(), facts.owner()),
            facts.lock_line(),
            facts.elapsed_line(),
            facts.stall_line(),
            facts.backlog_line(),
            facts.admission_line(),
            "    Action: "@,
            facts.next_action(),
            "\n"@,
            facts.bundle_line(),
        );
    }
}

proof fn lemma_context_parts(
    head: Seq<char>,
    a: Seq<char>,
    b: Seq<char>,
    c: Seq<char>,
    d: Seq<char>,
    e: Seq<char>,
    f: Seq<char>,
    g: Seq<char>,
    h: Seq<char>,
    i: Seq<char>,
)
    ensures
        ({
            let text = head + a + b + c + d + e + f + g + h + i;
            &&& head.is_prefix_of(text)
            &&& has_text(text, a) && has_text(text, b) && has_text(text, c) && has_text(text, d)
                && has_text(text, e)
            &&& (f + g + h + i).is_suffix_of(text)
        }),
{
    let t1 = head + a;
    let t2 = t1 + b;
    let t3 = t2 + c;
    let t4 = t3 + d;
    let t5 = t4 + e;
    let t6 = t5 + f;
    let t7 = t6 + g;
    let t8 = t7 + h;
    let t9 = t8 + i;
    assert(head =~= t9.take(head.len() as int));
    let end = f + g + h + i;
    assert(end =~= t9.subrange(t9.len() - end.len(), t9.len() as int));
    lemma_text_goes_on(head, b, a);
    lemma_text_goes_on(t1, b, a);
    lemma_text_goes_on(t1, c, b);
    lemma_text_goes_on(t2, c, a);
    lemma_text_goes_on(t2, c, b);
    lemma_text_goes_on(t2, c, c);
    lemma_text_goes_on(t3, d, a);
    lemma_text_goes_on(t3, d, b);
    lemma_text_goes_on(t3, d, c);
    lemma_text_goes_on(t3, d, d);
    lemma_text_goes_on(t4, e, a);
    lemma_text_goes_on(t4, e, b);
    lemma_text_goes_on(t4, e, c);
    lemma_text_goes_on(t4, e, d);
    lemma_text_goes_on(t4, e, e);
    lemma_stays(t5, f, g, h, i, a);
    lemma_stays(t5, f, g, h, i, b);
    lemma_stays(t5, f, g, h, i, c);
    lemma_stays(t5, f, g, h, i, d);
    lemma_stays(t5, f, g, h, i, e);
}

proof fn lemma_stays(
    t: Seq<char>,
    f: Seq<char>,
    g: Seq<char>,
    h: Seq<char>,
    i: Seq<char>,
    x: Seq<char>,
)
    ensures
        has_text(t, x) ==> has_text(t + f + g + h + i, x),
{
    lemma_text_goes_on(t, f, x);
    lemma_text_goes_on(t + f, g, x);
    lemma_text_goes_on(t + f + g, h, x);
    lemma_text_goes_on(t + f + g + h, i, x);
}

/// What the section tells: who holds the lock and for how long, why recovery
/// is stalled or that it is not, the backlog and the refusals.
pub proof fn law_what_the_section_tells(
    facts: RecoveryFacts,
    reasons: Vec<String>,
    age: String,
    r: Option<String>,
)
    requires
        call_ensures(format_recovery_context, (&facts,), r),
        call_ensures(RecoveryFacts::find_stall_reasons, (&facts,), reasons),
        facts.elapsed_secs is Some ==> call_ensures(
            format_recovery_elapsed,
            (facts.elapsed_secs->0,),
            age,
        ),
        r is Some,
    ensures
        facts.lock.active && facts.lock.pid is Some ==> has_text(
            r->0@,
            "    Lock:   recovery lock held by "@ + ("pid "@ + decimal(facts.lock.pid->0 as nat))
                + "\n"@,
        ),
        facts.lock.active && facts.lock.pid is None ==> has_text(
            r->0@,
            "    Lock:   recovery lock held by "@ + "unknown"@ + "\n"@,
        ),
        facts.elapsed_secs is Some ==> has_text(r->0@, "    Elapsed: "@ + age@ + "\n"@),
        reasons@.len() > 0 ==> has_text(
            r->0@,
            "    Stall:  YES ("@ + joined(views(reasons@), "; "@) + ")\n"@,
        ),
        reasons@.len() == 0 && facts.lock.active ==> has_text(
            r->0@,
            "    Stall:  no (still within budget)\n"@,
        ),
        facts.deferred.active || facts.deferred.sealed || facts.deferred.queued > 0 ==> has_text(
            r->0@,
            "    Backlog: "@ + decimal(facts.deferred.queued as nat) + "/"@ + decimal(
                facts.deferred.capacity as nat,
            ) + " writes queued, oldest "@ + decimal(facts.deferred.oldest_age_secs as nat)
                + "s, pressure="@ + (match facts.deferred.pressure {
                BacklogPressure::Normal => "normal"@,
                BacklogPressure::Elevated => "elevated"@,
                BacklogPressure::Critical => "critical"@,
                BacklogPressure::HardStop => "hard_stop"@,
            }) + "\n"@,
        ),
        facts.admission.suppressed ==> has_text(
            r->0@,
            "    Admission: "@ + decimal(facts.admission.consecutive_failures as nat)
                + " consecutive failures, "@ + decimal(facts.admission.attempts_in_window as nat)
                + " attempts in window"@ + ", SUPPRESSED"@ + "\n"@,
        ),
        !facts.admission.suppressed && facts.admission.consecutive_failures > 0 ==> has_text(
            r->0@,
            "    Admission: "@ + decimal(facts.admission.consecutive_failures as nat)
                + " consecutive failures, "@ + decimal(facts.admission.attempts_in_window as nat)
                + " attempts in window"@ + ""@ + "\n"@,
        ),
{
    assert(views(reasons@).len() == reasons@.len());
    lemma_context_parts(
        context_head(facts.mode@, facts.phase(), facts.owner()),
        facts.lock_line(),
        facts.elapsed_line(),
        facts.stall_line(),
        facts.backlog_line(),
        facts.admission_line(),
        "    Action: "@,
        facts.next_action(),
        "\n"@,
        facts.bundle_line(),
    );
}

/// How the section ends: with what to do, and with the bundle where there is
/// one.
pub open spec fn context_end(action: Seq<char>, bundle: Option<String>) -> Seq<char> {
    match bundle {
        Some(path) => "    Action: "@ + action + "\n"@ + ("    Bundle: "@ + path@ + "\n"@),
        None => "    Action: "@ + action + "\n"@ + Seq::<char>::empty(),
    }
}

/// The section ends with what to do: nothing where the mailbox is healthy, a
/// repair or a restore where it is corrupt, and otherwise what the stall asks
/// for, or to wait for whoever recovers it, or to recover it.
pub proof fn law_how_the_section_ends(
    facts: RecoveryFacts,
    reasons: Vec<String>,
    r: Option<String>,
)
    requires
        call_ensures(format_recovery_context, (&facts,), r),
        call_ensures(RecoveryFacts::find_stall_reasons, (&facts,), reasons),
        r is Some,
    ensures
        ({
            let ends = |action: Seq<char>|
                context_end(action, facts.bundle).is_suffix_of(r->0@);
            let stalled = reasons@.len() > 0;
            let between = facts.durability == DurabilityState::DegradedReadOnly
                || facts.durability == DurabilityState::Recovering;
            let left = facts.lock.exists && !facts.lock.active;
            &&& facts.durability == DurabilityState::Healthy ==> ends("No action required"@)
            &&& facts.durability == DurabilityState::Corrupt ==> ends(
                "Run `am doctor repair --yes` or restore from archive backup"@,
            )
            &&& between && stalled && left ==> ends(
                "Recovery lock is stale (process exited); run `am doctor repair` to restart"@,
            )
            &&& between && stalled && !left && facts.admission.suppressed ==> ends(
                "Recovery suppressed after repeated failures; run `am doctor repair --yes` to override"@,
            )
            &&& between && stalled && !left && !facts.admission.suppressed ==> ends(
                "Recovery appears stalled; investigate lock holder or run `am doctor repair --yes`"@,
            )
            &&& !stalled && facts.durability == DurabilityState::Recovering ==> ends(
                "Recovery in progress; wait for completion or investigate stall"@,
            )
            &&& !stalled && facts.durability == DurabilityState::DegradedReadOnly
                && facts.lock.active ==> ends(
                "Recovery in progress; still within budget, no action needed yet"@,
            )
            &&& !stalled && facts.durability == DurabilityState::DegradedReadOnly
                && !facts.lock.active ==> ends(
                "Run `am doctor repair` to attempt automatic recovery"@,
            )
        }),
{
    assert(views(reasons@).len() == reasons@.len());
    lemma_context_parts(
        context_head(facts.mode@, facts.phase(), facts.owner()),
        facts.lock_line(),
        facts.elapsed_line(),
        facts.stall_line(),
        facts.backlog_line(),
        facts.admission_line(),
        "    Action: "@,
        facts.next_action(),
        "\n"@,
        facts.bundle_line(),
    );
    assert(context_end(facts.next_action(), facts.bundle) == "    Action: "@ + facts.next_action()
        + "\n"@ + facts.bundle_line());
}

/// Where nobody holds the lock, nothing is stalled, queued or refused, the
/// section tells no more than its start and its end.
pub proof fn law_a_quiet_section_is_short(
    facts: RecoveryFacts,
    reasons: Vec<String>,
    r: Option<String>,
)
    requires
        call_ensures(format_recovery_context, (&facts,), r),
        call_ensures(RecoveryFacts::find_stall_reasons, (&facts,), reasons),
        r is Some,
        !facts.lock.active,
        facts.elapsed_secs is None,
        reasons@.len() == 0,
        !facts.deferred.active && !facts.deferred.sealed && facts.deferred.queued == 0,
        !facts.admission.suppressed && facts.admission.consecutive_failures == 0,
    ensures
        r->0@ == context_head(facts.mode@, facts.phase(), facts.owner()) + context_end(
            facts.next_action(),
            facts.bundle,
        ),
{
    assert(views(reasons@).len() == reasons@.len());
    let head = context_head(facts.mode@, facts.phase(), facts.owner());
    let none = Seq::<char>::empty();
    assert(head + none + none + none + none + none =~= head);
    let f = "    Action: "@;
    let g = facts.next_action();
    let i = facts.bundle_line();
    assert(head + f + g + "\n"@ + i =~= head + (f + g + "\n"@ + i));
}

/// When an entry was last changed, in nanoseconds; unknown counts as the
/// epoch.
pub open spec fn changed_nanos(entry: BundleEntry) -> int {
    match entry.modified {
        Some(t) => nanos_of(t.secs, t.nanos),
        None => 0,
    }
}

proof fn lemma_latest_is_first(entries: Seq<BundleEntry>, k: int)
    requires
        latest_of(entries) is Some,
        0 <= k < latest_of(entries)->0,
        entries[k].is_dir,
    ensures
        !changed_at(entries[latest_of(entries)->0]).is_at_or_before(changed_at(entries[k])),
    decreases entries.len(),
{
    let shorter = entries.drop_last();
    lemma_latest_is_a_directory(entries);
    lemma_latest_is_a_directory(shorter);
    let i = latest_of(entries)->0;
    if i < shorter.len() {
        assert(latest_of(shorter) == Some(i));
        assert(shorter[i] == entries[i] && shorter[k] == entries[k]);
        lemma_latest_is_first(shorter, k);
    } else {
        assert(shorter[k] == entries[k]);
        law_latest_is_latest(shorter, k);
        let j = latest_of(shorter)->0;
        assert(shorter[j] == entries[j]);
        assert(!changed_at(entries.last()).is_at_or_before(changed_at(entries[j])));
    }
}

/// The latest bundle is a directory that none was changed after, and of those
/// changed at the same time the first; there is none where there is no
/// directory.
pub proof fn law_which_bundle_is_the_latest(entries: Vec<BundleEntry>, r: Option<usize>)
    requires
        call_ensures(find_latest_bundle_in, (&entries,), r),
        forall|k: int|
            0 <= k < entries@.len() && (#[trigger] entries@[k]).modified is Some
                ==> entries@[k].modified->0.nanos < 1_000_000_000,
    ensures
        r is None <==> forall|k: int| 0 <= k < entries@.len() ==> !(#[trigger] entries@[k]).is_dir,
        r is Some ==> r->0 < entries@.len() && entries@[r->0 as int].is_dir,
        r is Some ==> forall|k: int|
            0 <= k < entries@.len() && (#[trigger] entries@[k]).is_dir ==> changed_nanos(
                entries@[k],
            ) <= changed_nanos(entries@[r->0 as int]) && (k < r->0 ==> changed_nanos(entries@[k])
                < changed_nanos(entries@[r->0 as int])),
{
    let es = entries@;
    lemma_latest_is_a_directory(es);
    if r is Some {
        assert forall|k: int| 0 <= k < es.len() && (#[trigger] es[k]).is_dir implies changed_nanos(
            es[k],
        ) <= changed_nanos(es[r->0 as int]) && (k < r->0 ==> changed_nanos(es[k]) < changed_nanos(
            es[r->0 as int],
        )) by {
            law_latest_is_latest(es, k);
            if k < r->0 {
                lemma_latest_is_first(es, k);
            }
        }
    }
}

} // verus!
