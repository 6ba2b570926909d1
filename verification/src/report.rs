//! Results of startup probes, and the report about them.

use vstd::prelude::*;

use crate::numbers::{decimal, print_u64};
use crate::text::same;

verus! {

/// The outcome of a startup probe.
#[derive(Debug)]
pub enum ProbeResult {
    /// The probe passed.
    Pass { name: &'static str },
    /// The probe failed, with what to do about it.
    Fail(ProbeFailure),
}

/// Details of a failed probe.
#[derive(Debug)]
pub struct ProbeFailure {
    /// Short identifier of the probe.
    pub name: &'static str,
    /// The problem, in one line.
    pub problem: String,
    /// What to do about it.
    pub fix: String,
}

impl Clone for ProbeFailure {
    fn clone(&self) -> (r: Self)
        ensures
            r == *self,
    {
        ProbeFailure { name: self.name, problem: self.problem.clone(), fix: self.fix.clone() }
    }
}

impl Clone for ProbeResult {
    fn clone(&self) -> (r: Self)
        ensures
            r == *self,
    {
        match self {
            ProbeResult::Pass { name } => ProbeResult::Pass { name: *name },
            ProbeResult::Fail(failure) => ProbeResult::Fail(failure.clone()),
        }
    }
}

impl ProbeFailure {
    pub open spec fn text(&self) -> Seq<char> {
        "["@ + self.name@ + "] Problem: "@ + self.problem@ + "\n        Fix: "@ + self.fix@
    }

    /// The failure as it is shown.
    pub fn to_text(&self) -> (r: String)
        ensures
            r@ == self.text(),
    {
        "[".to_owned().concat(self.name).concat("] Problem: ").concat(
            self.problem.as_str(),
        ).concat("\n        Fix: ").concat(self.fix.as_str())
    }
}

impl ProbeResult {
    /// The probe of this name passed.
    pub open spec fn passed(&self, name: Seq<char>) -> bool {
        self matches ProbeResult::Pass { name: n } && n@ == name
    }

    /// The probe of this name failed with this problem and this advice.
    pub open spec fn failed(&self, name: Seq<char>, problem: Seq<char>, fix: Seq<char>) -> bool {
        self matches ProbeResult::Fail(f) && f.name@ == name && f.problem@ == problem && f.fix@
            == fix
    }
}

/// The results of all probes.
#[derive(Debug)]
pub struct StartupReport {
    pub results: Vec<ProbeResult>,
}

/// The failures among the results, in order.
pub open spec fn failures_of(results: Seq<ProbeResult>) -> Seq<ProbeFailure>
    decreases results.len(),
{
    if results.len() == 0 {
        Seq::empty()
    } else {
        match results.last() {
            ProbeResult::Fail(f) => failures_of(results.drop_last()).push(f),
            ProbeResult::Pass { .. } => failures_of(results.drop_last()),
        }
    }
}

/// How well a failure explains why startup is blocked; less is better.
pub open spec fn priority_of(name: Seq<char>) -> int {
    if name == "database"@ {
        0
    } else if name == "db-lock"@ {
        1
    } else if name == "storage"@ {
        2
    } else if name == "integrity"@ {
        3
    } else if name == "port"@ {
        4
    } else if name == "auth"@ {
        5
    } else if name == "http_path"@ {
        6
    } else {
        7
    }
}

pub fn startup_failure_priority(name: &str) -> (r: usize)
    ensures
        r == priority_of(name@),
{
    if same(name, "database") {
        0
    } else if same(name, "db-lock") {
        1
    } else if same(name, "storage") {
        2
    } else if same(name, "integrity") {
        3
    } else if same(name, "port") {
        4
    } else if same(name, "auth") {
        5
    } else if same(name, "http_path") {
        6
    } else {
        7
    }
}

/// `i` is the first of the failures that explain best.
pub open spec fn is_primary(failures: Seq<ProbeFailure>, i: int) -> bool {
    &&& 0 <= i < failures.len()
    &&& forall|k: int|
        0 <= k < i ==> priority_of(failures[i].name@) < priority_of((#[trigger] failures[k]).name@)
    &&& forall|k: int|
        i < k < failures.len() ==> priority_of(failures[i].name@) <= priority_of(
            (#[trigger] failures[k]).name@,
        )
}

/// The entries about the failures from the second finding on, numbered from
/// one; the primary one is left out.
pub open spec fn secondary_entries(failures: Seq<ProbeFailure>, primary: int, upto: int) -> Seq<char>
    decreases upto,
{
    if upto <= 0 || upto > failures.len() {
        Seq::empty()
    } else {
        let before = secondary_entries(failures, primary, upto - 1);
        if upto - 1 == primary {
            before
        } else {
            let number = if upto - 1 < primary {
                upto
            } else {
                upto - 1
            };
            let f = failures[upto - 1];
            before + "  "@ + decimal(number as nat) + ". ["@ + f.name@ + "] "@ + f.problem@ + "\n"@
                + "     Next action: "@ + f.fix@ + "\n"@
        }
    }
}

/// The primary failure is one of the database or its storage, so that the
/// state of recovery matters.
pub open spec fn is_durability_failure(name: Seq<char>) -> bool {
    name == "database"@ || name == "db-lock"@ || name == "integrity"@ || name == "storage"@
}

/// The report about failures of which the one at `primary` explains best.
pub open spec fn error_text(
    failures: Seq<ProbeFailure>,
    primary: int,
    context: Option<Seq<char>>,
) -> Seq<char> {
    let p = failures[primary];
    let head = "\n  Startup probe summary:\n\n"@ + "  Primary issue: ["@ + p.name@ + "] "@
        + p.problem@ + "\n"@ + "  Next action: "@ + p.fix@ + "\n"@;
    let others = if failures.len() > 1 {
        head + "\n  Secondary findings: "@ + decimal((failures.len() - 1) as nat)
            + " additional failing probe(s).\n"@ + secondary_entries(
            failures,
            primary,
            failures.len() as int,
        )
    } else {
        head
    };
    if is_durability_failure(p.name@) && context is Some {
        others + context->0
    } else {
        others
    }
}

impl StartupReport {
    /// The failures among the results.
    pub fn failures(&self) -> (r: Vec<&ProbeFailure>)
        ensures
            r@.len() == failures_of(self.results@).len(),
            forall|i: int| 0 <= i < r@.len() ==> *(#[trigger] r@[i]) == failures_of(self.results@)[i],
    {
        let mut out: Vec<&ProbeFailure> = Vec::new();
        let mut i: usize = 0;
        while i < self.results.len()
            invariant
                i <= self.results@.len(),
                out@.len() == failures_of(self.results@.take(i as int)).len(),
                forall|k: int|
                    0 <= k < out@.len() ==> *(#[trigger] out@[k]) == failures_of(
                        self.results@.take(i as int),
                    )[k],
            decreases self.results@.len() - i,
        {
            let ghost next = self.results@.take(i + 1);
            assert(next.drop_last() =~= self.results@.take(i as int));
            assert(next.last() == self.results@[i as int]);
            match &self.results[i] {
                ProbeResult::Fail(f) => {
                    out.push(f);
                },
                ProbeResult::Pass { .. } => {},
            }
            i = i + 1;
        }
        assert(self.results@.take(i as int) =~= self.results@);
        out
    }

    /// Whether all probes passed.
    pub fn is_ok(&self) -> (r: bool)
        ensures
            r == (failures_of(self.results@).len() == 0),
    {
        self.failures().is_empty()
    }

    fn primary_index(failures: &Vec<&ProbeFailure>) -> (r: Option<usize>)
        ensures
            r is None <==> failures@.len() == 0,
            r matches Some(i) ==> i < failures@.len() && (forall|k: int|
                0 <= k < i ==> priority_of(failures@[i as int].name@) < priority_of(
                    (#[trigger] failures@[k]).name@,
                )) && (forall|k: int|
                i < k < failures@.len() ==> priority_of(failures@[i as int].name@) <= priority_of(
                    (#[trigger] failures@[k]).name@,
                )),
    {
        if failures.len() == 0 {
            return None;
        }
        let mut best: usize = 0;
        let mut i: usize = 1;
        while i < failures.len()
            invariant
                best < i <= failures@.len(),
                forall|k: int|
                    0 <= k < best ==> priority_of(failures@[best as int].name@) < priority_of(
                        (#[trigger] failures@[k]).name@,
                    ),
                forall|k: int|
                    best < k < i ==> priority_of(failures@[best as int].name@) <= priority_of(
                        (#[trigger] failures@[k]).name@,
                    ),
            decreases failures@.len() - i,
        {
            if startup_failure_priority(failures[i].name) < startup_failure_priority(
                failures[best].name,
            ) {
                best = i;
            }
            i = i + 1;
        }
        Some(best)
    }

    /// The failure that best explains why startup is blocked.
    pub fn primary_failure(&self) -> (r: Option<&ProbeFailure>)
        ensures
            match r {
                Some(f) => exists|i: int|
                    is_primary(failures_of(self.results@), i) && *f == failures_of(self.results@)[i],
                None => failures_of(self.results@).len() == 0,
            },
    {
        let failures = self.failures();
        match Self::primary_index(&failures) {
            Some(i) => {
                proof {
                    let fs = failures_of(self.results@);
                    assert forall|k: int| 0 <= k < i implies priority_of(fs[i as int].name@)
                        < priority_of((#[trigger] fs[k]).name@) by {
                        assert(*failures@[k] == fs[k]);
                        assert(*failures@[i as int] == fs[i as int]);
                    }
                    assert forall|k: int| i < k < fs.len() implies priority_of(fs[i as int].name@)
                        <= priority_of((#[trigger] fs[k]).name@) by {
                        assert(*failures@[k] == fs[k]);
                        assert(*failures@[i as int] == fs[i as int]);
                    }
                    assert(is_primary(fs, i as int));
                }
                Some(failures[i])
            },
            None => None,
        }
    }

    /// Whether the report wants the state of recovery.
    pub fn wants_recovery_context(&self) -> (r: bool)
        ensures
            r == exists|i: int|
                is_primary(failures_of(self.results@), i) && is_durability_failure(
                    failures_of(self.results@)[i].name@,
                ),
    {
        match self.primary_failure() {
            Some(f) => {
                proof {
                    let fs = failures_of(self.results@);
                    let i = choose|i: int| is_primary(fs, i) && *f == fs[i];
                    assert forall|j: int| is_primary(fs, j) implies j == i by {
                        law_primary_is_unique(fs, i, j);
                    }
                }
                durability_name(f.name)
            },
            None => false,
        }
    }

    /// The report as it is shown, empty where every probe passed. `context`
    /// is the state of recovery; it is shown where the primary failure is one
    /// of the database or its storage.
    pub fn format_errors(&self, context: Option<&str>) -> (r: String)
        ensures
            failures_of(self.results@).len() == 0 ==> r@.len() == 0,
            failures_of(self.results@).len() > 0 ==> exists|i: int|
                is_primary(failures_of(self.results@), i) && r@ == error_text(
                    failures_of(self.results@),
                    i,
                    crate::text::opt_view(context),
                ),
    {
        let failures = self.failures();
        let ghost fs = failures_of(self.results@);
        let primary: usize = match Self::primary_index(&failures) {
            Some(i) => i,
            None => {
                return String::new();
            },
        };
        proof {
            assert forall|k: int| 0 <= k < primary implies priority_of(fs[primary as int].name@)
                < priority_of((#[trigger] fs[k]).name@) by {
                assert(*failures@[k] == fs[k]);
                assert(*failures@[primary as int] == fs[primary as int]);
            }
            assert forall|k: int| primary < k < fs.len() implies priority_of(
                fs[primary as int].name@,
            ) <= priority_of((#[trigger] fs[k]).name@) by {
                assert(*failures@[k] == fs[k]);
                assert(*failures@[primary as int] == fs[primary as int]);
            }
            assert(is_primary(fs, primary as int));
            assert(*failures@[primary as int] == fs[primary as int]);
        }
        let p = failures[primary];
        let mut out = "\n  Startup probe summary:\n\n".to_owned().concat(
            "  Primary issue: [",
        ).concat(p.name).concat("] ").concat(p.problem.as_str()).concat("\n").concat(
            "  Next action: ",
        ).concat(p.fix.as_str()).concat("\n");
        let count: usize = failures.len();
        if count > 1 {
            out = out.concat("\n  Secondary findings: ").concat(
                print_u64((count - 1) as u64).as_str(),
            ).concat(" additional failing probe(s).\n");
            let ghost head = out@;
            let mut i: usize = 0;
            assert(head + secondary_entries(fs, primary as int, 0) =~= head);
            while i < count
                invariant
                    i <= count,
                    count == failures@.len(),
                    count == fs.len(),
                    primary < count,
                    forall|k: int| 0 <= k < failures@.len() ==> *(#[trigger] failures@[k]) == fs[k],
                    out@ == head + secondary_entries(fs, primary as int, i as int),
                decreases count - i,
            {
                let ghost before = secondary_entries(fs, primary as int, i as int);
                assert(*failures@[i as int] == fs[i as int]);
                if i != primary {
                    let number: usize = if i < primary {
                        i + 1
                    } else {
                        i
                    };
                    let f = failures[i];
                    out = out.concat("  ").concat(print_u64(number as u64).as_str()).concat(
                        ". [",
                    ).concat(f.name).concat("] ").concat(f.problem.as_str()).concat("\n").concat(
                        "     Next action: ",
                    ).concat(f.fix.as_str()).concat("\n");
                    assert(out@ =~= head + secondary_entries(fs, primary as int, i + 1));
                }
                i = i + 1;
            }
        }
        if durability_name(p.name) {
            if let Some(text) = context {
                out = out.concat(text);
            }
        }
        assert(out@ =~= error_text(fs, primary as int, crate::text::opt_view(context)));
        out
    }
}

fn durability_name(name: &str) -> (r: bool)
    ensures
        r == is_durability_failure(name@),
{
    same(name, "database") || same(name, "db-lock") || same(name, "integrity") || same(
        name,
        "storage",
    )
}

/// At most one failure is the primary one.
pub proof fn law_primary_is_unique(failures: Seq<ProbeFailure>, i: int, j: int)
    requires
        is_primary(failures, i),
        is_primary(failures, j),
    ensures
        i == j,
{
    if i < j {
        assert(priority_of(failures[j].name@) < priority_of(failures[i].name@));
        assert(priority_of(failures[i].name@) <= priority_of(failures[j].name@));
    } else if j < i {
        assert(priority_of(failures[i].name@) < priority_of(failures[j].name@));
        assert(priority_of(failures[j].name@) <= priority_of(failures[i].name@));
    }
}

/// A report is good exactly where every result is: then there are no failures,
/// no primary one, and nothing to show.
pub proof fn law_good_report_has_no_failures(results: Seq<ProbeResult>)
    ensures
        failures_of(results).len() == 0 <==> (forall|i: int|
            0 <= i < results.len() ==> (#[trigger] results[i]) is Pass),
        failures_of(results).len() == 0 ==> forall|i: int| !is_primary(failures_of(results), i),
    decreases results.len(),
{
    if results.len() > 0 {
        let shorter = results.drop_last();
        law_good_report_has_no_failures(shorter);
        if failures_of(results).len() == 0 {
            assert forall|i: int| 0 <= i < results.len() implies (#[trigger] results[i]) is Pass by {
                if i < shorter.len() {
                    assert(shorter[i] is Pass);
                }
            }
        }
        if forall|i: int| 0 <= i < results.len() ==> (#[trigger] results[i]) is Pass {
            assert(results[results.len() - 1] is Pass);
            assert forall|i: int| 0 <= i < shorter.len() implies (#[trigger] shorter[i]) is Pass by {
                assert(results[i] is Pass);
            }
        }
    }
}

/// The failures that explain best come first in this order, and all others
/// behind them.
pub proof fn law_the_order_of_explanations(
    name: &str,
    r: usize,
    database: usize,
    lock: usize,
    storage: usize,
    integrity: usize,
    port: usize,
    auth: usize,
    path: usize,
)
    requires
        call_ensures(startup_failure_priority, (name,), r),
        call_ensures(startup_failure_priority, ("database",), database),
        call_ensures(startup_failure_priority, ("db-lock",), lock),
        call_ensures(startup_failure_priority, ("storage",), storage),
        call_ensures(startup_failure_priority, ("integrity",), integrity),
        call_ensures(startup_failure_priority, ("port",), port),
        call_ensures(startup_failure_priority, ("auth",), auth),
        call_ensures(startup_failure_priority, ("http_path",), path),
    ensures
        database < lock < storage < integrity < port < auth < path,
        name@ != "database"@ && name@ != "db-lock"@ && name@ != "storage"@ && name@ != "integrity"@
            && name@ != "port"@ && name@ != "auth"@ && name@ != "http_path"@ ==> path < r,
{
    lemma_names_differ();
}

proof fn lemma_names_differ()
    ensures
        priority_of("database"@) == 0,
        priority_of("db-lock"@) == 1,
        priority_of("storage"@) == 2,
        priority_of("integrity"@) == 3,
        priority_of("port"@) == 4,
        priority_of("auth"@) == 5,
        priority_of("http_path"@) == 6,
{
    reveal_strlit("database");
    reveal_strlit("db-lock");
    reveal_strlit("storage");
    reveal_strlit("integrity");
    reveal_strlit("port");
    reveal_strlit("auth");
    reveal_strlit("http_path");
    assert("database"@.len() == 8 && "db-lock"@.len() == 7 && "storage"@.len() == 7
        && "integrity"@.len() == 9 && "port"@.len() == 4 && "auth"@.len() == 4 && "http_path"@.len()
        == 9);
    assert("db-lock"@[0] == 'd' && "storage"@[0] == 's');
    assert("integrity"@[0] == 'i' && "http_path"@[0] == 'h');
    assert("port"@[0] == 'p' && "auth"@[0] == 'a');
}

/// The failures are those among the results, in their order: one more result
/// adds itself where it failed.
pub proof fn law_failures_are_picked_in_order(
    before: &StartupReport,
    all: &StartupReport,
    last: ProbeResult,
    of_before: Vec<&ProbeFailure>,
    of_all: Vec<&ProbeFailure>,
    good_before: bool,
    good_all: bool,
)
    requires
        all.results@ == before.results@.push(last),
        call_ensures(StartupReport::failures, (before,), of_before),
        call_ensures(StartupReport::failures, (all,), of_all),
        call_ensures(StartupReport::is_ok, (before,), good_before),
        call_ensures(StartupReport::is_ok, (all,), good_all),
    ensures
        last is Pass ==> of_all@.len() == of_before@.len(),
        last matches ProbeResult::Fail(f) ==> of_all@.len() == of_before@.len() + 1
            && *of_all@[of_before@.len() as int] == f,
        forall|i: int|
            0 <= i < of_before@.len() ==> *(#[trigger] of_all@[i]) == *of_before@[i],
        good_all <==> good_before && last is Pass,
        before.results@.len() == 0 ==> good_before && of_before@.len() == 0,
{
    assert(all.results@.drop_last() =~= before.results@);
    let fb = failures_of(before.results@);
    let fa = failures_of(all.results@);
    assert forall|i: int| 0 <= i < of_before@.len() implies *(#[trigger] of_all@[i])
        == *of_before@[i] by {
        assert(*of_before@[i] == fb[i]);
        assert(*of_all@[i] == fa[i]);
    }
    if last is Fail {
        assert(*of_all@[of_before@.len() as int] == fa[of_before@.len() as int]);
    }
}

/// The primary failure is a failure that none explains better, and the first
/// of those.
pub proof fn law_the_primary_failure_explains_best(
    report: &StartupReport,
    failures: Vec<&ProbeFailure>,
    r: Option<&ProbeFailure>,
    other: int,
    best: usize,
    rank: usize,
)
    requires
        call_ensures(StartupReport::failures, (report,), failures),
        call_ensures(StartupReport::primary_failure, (report,), r),
        0 <= other < failures@.len(),
        r is Some ==> call_ensures(startup_failure_priority, (r->0.name,), best),
        call_ensures(startup_failure_priority, (failures@[other].name,), rank),
    ensures
        r is Some,
        best <= rank,
        best == rank ==> exists|i: int| 0 <= i <= other && *(#[trigger] failures@[i]) == *r->0,
{
    let fs = failures_of(report.results@);
    assert(*failures@[other] == fs[other]);
    assert(fs.len() > 0);
    let i = choose|i: int| is_primary(fs, i) && *r->0 == fs[i];
    assert(*failures@[i] == fs[i]);
    if other < i {
        assert(priority_of(fs[i].name@) < priority_of(fs[other].name@));
    } else if i < other {
        assert(priority_of(fs[i].name@) <= priority_of(fs[other].name@));
    }
}

/// The report shows the primary failure first, with its problem and what to do
/// about it; says how many others there are; and shows the state of recovery
/// exactly where the primary failure is one of the database or its storage.
pub proof fn law_the_report_shows_the_primary_failure_first(
    report: &StartupReport,
    context: Option<&str>,
    failures: Vec<&ProbeFailure>,
    primary: Option<&ProbeFailure>,
    wants: bool,
    r: String,
)
    requires
        call_ensures(StartupReport::failures, (report,), failures),
        call_ensures(StartupReport::primary_failure, (report,), primary),
        call_ensures(StartupReport::wants_recovery_context, (report,), wants),
        call_ensures(StartupReport::format_errors, (report, context), r),
    ensures
        failures@.len() == 0 ==> r@.len() == 0,
        primary is Some <==> failures@.len() > 0,
        primary is Some ==> {
            let p = primary->0;
            let head = "\n  Startup probe summary:\n\n  Primary issue: ["@ + p.name@ + "] "@
                + p.problem@ + "\n  Next action: "@ + p.fix@ + "\n"@;
            let durable = p.name@ == "database"@ || p.name@ == "db-lock"@ || p.name@ == "integrity"@
                || p.name@ == "storage"@;
            &&& head.is_prefix_of(r@)
            &&& failures@.len() > 1 ==> (head + "\n  Secondary findings: "@ + decimal(
                (failures@.len() - 1) as nat,
            )).is_prefix_of(r@)
            &&& failures@.len() == 1 && (!durable || context is None) ==> r@ == head
            &&& durable && context is Some ==> context->0@.is_suffix_of(r@)
            &&& failures@.len() == 1 && durable && context is Some ==> r@ == head + context->0@
        },
{
    let fs = failures_of(report.results@);
    if failures@.len() > 0 {
        let i = choose|i: int|
            is_primary(fs, i) && r@ == error_text(fs, i, crate::text::opt_view(context));
        let j = choose|j: int| is_primary(fs, j) && *primary->0 == fs[j];
        law_primary_is_unique(fs, i, j);
        lemma_report_text(fs, i, crate::text::opt_view(context));
    }
}

/// The state of recovery is wanted where the primary failure is one of the
/// database or its storage.
pub proof fn law_when_recovery_matters(
    report: &StartupReport,
    primary: Option<&ProbeFailure>,
    wants: bool,
)
    requires
        call_ensures(StartupReport::primary_failure, (report,), primary),
        call_ensures(StartupReport::wants_recovery_context, (report,), wants),
    ensures
        wants <==> primary is Some && (primary->0.name@ == "database"@ || primary->0.name@
            == "db-lock"@ || primary->0.name@ == "integrity"@ || primary->0.name@ == "storage"@),
{
    let fs = failures_of(report.results@);
    if primary is Some {
        let j = choose|j: int| is_primary(fs, j) && *primary->0 == fs[j];
        if exists|i: int| is_primary(fs, i) && is_durability_failure(fs[i].name@) {
            let i = choose|i: int| is_primary(fs, i) && is_durability_failure(fs[i].name@);
            law_primary_is_unique(fs, i, j);
        }
        assert(is_primary(fs, j));
    }
}

proof fn lemma_report_text(fs: Seq<ProbeFailure>, i: int, context: Option<Seq<char>>)
    requires
        0 <= i < fs.len(),
    ensures
        ({
            let p = fs[i];
            let head = "\n  Startup probe summary:\n\n  Primary issue: ["@ + p.name@ + "] "@
                + p.problem@ + "\n  Next action: "@ + p.fix@ + "\n"@;
            let s = error_text(fs, i, context);
            &&& head.is_prefix_of(s)
            &&& fs.len() > 1 ==> (head + "\n  Secondary findings: "@ + decimal(
                (fs.len() - 1) as nat,
            )).is_prefix_of(s)
            &&& fs.len() == 1 && (!is_durability_failure(p.name@) || context is None) ==> s == head
            &&& is_durability_failure(p.name@) && context is Some ==> context->0.is_suffix_of(s)
            &&& fs.len() == 1 && is_durability_failure(p.name@) && context is Some ==> s == head
                + context->0
        }),
{
    let p = fs[i];
    let a = "\n  Startup probe summary:\n\n  Primary issue: ["@;
    let b = "\n  Next action: "@;
    assert(a =~= "\n  Startup probe summary:\n\n"@ + "  Primary issue: ["@) by {
        reveal_strlit("\n  Startup probe summary:\n\n  Primary issue: [");
        reveal_strlit("\n  Startup probe summary:\n\n");
        reveal_strlit("  Primary issue: [");
    }
    assert(b =~= "\n"@ + "  Next action: "@) by {
        reveal_strlit("\n  Next action: ");
        reveal_strlit("\n");
        reveal_strlit("  Next action: ");
    }
    let head = a + p.name@ + "] "@ + p.problem@ + b + p.fix@ + "\n"@;
    let shown = "\n  Startup probe summary:\n\n"@ + "  Primary issue: ["@ + p.name@ + "] "@
        + p.problem@ + "\n"@ + "  Next action: "@ + p.fix@ + "\n"@;
    assert(head =~= shown);
    let count = "\n  Secondary findings: "@ + decimal((fs.len() - 1) as nat);
    let more = " additional failing probe(s).\n"@ + secondary_entries(fs, i, fs.len() as int);
    let tail = if is_durability_failure(p.name@) && context is Some {
        context->0
    } else {
        Seq::empty()
    };
    let s = error_text(fs, i, context);
    if fs.len() > 1 {
        assert(s =~= head + count + more + tail);
        assert(s =~= head + (count + more + tail));
        assert(s =~= (head + count) + (more + tail));
        let second = head + "\n  Secondary findings: "@ + decimal((fs.len() - 1) as nat);
        assert(second =~= head + count);
        if is_durability_failure(p.name@) && context is Some {
            assert(s.skip(s.len() - tail.len()) =~= tail);
        }
    } else {
        assert(s =~= head + tail);
        if is_durability_failure(p.name@) && context is Some {
            assert(s.skip(s.len() - tail.len()) =~= tail);
        }
    }
}

/// The other failures are shown in their order, numbered from one, each with
/// its problem and what to do about it.
pub proof fn law_other_failures_are_numbered(failures: Seq<ProbeFailure>, primary: int, at: int)
    requires
        0 <= primary < failures.len(),
        0 <= at < failures.len(),
        at != primary,
    ensures
        ({
            let number: int = if at < primary {
                at + 1
            } else {
                at
            };
            secondary_entries(failures, primary, at + 1) == secondary_entries(failures, primary, at)
                + "  "@ + decimal(number as nat) + ". ["@ + failures[at].name@ + "] "@
                + failures[at].problem@ + "\n     Next action: "@ + failures[at].fix@ + "\n"@
        }),
        secondary_entries(failures, primary, primary + 1) == secondary_entries(
            failures,
            primary,
            primary,
        ),
        secondary_entries(failures, primary, 0).len() == 0,
{
    assert("\n     Next action: "@ =~= "\n"@ + "     Next action: "@) by {
        reveal_strlit("\n     Next action: ");
        reveal_strlit("\n");
        reveal_strlit("     Next action: ");
    }
    let number: int = if at < primary {
        at + 1
    } else {
        at
    };
    let f = failures[at];
    let a = secondary_entries(failures, primary, at) + "  "@ + decimal(number as nat) + ". ["@
        + f.name@ + "] "@ + f.problem@;
    assert(a + "\n"@ + "     Next action: "@ =~= a + "\n     Next action: "@);
}

/// A failure is shown with its name, its problem and what to do about it.
pub proof fn law_a_failure_is_shown_in_full(f: &ProbeFailure, r: String)
    requires
        call_ensures(ProbeFailure::to_text, (f,), r),
    ensures
        r@ == "["@ + f.name@ + "] Problem: "@ + f.problem@ + "\n        Fix: "@ + f.fix@,
{
}

} // verus!
