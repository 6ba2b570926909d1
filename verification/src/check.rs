//! The guard check: gates, identity and conflicts.

use vstd::prelude::*;

use crate::conflicts::{check_path_conflicts, is_check_result};
use crate::guard::{
    FileReservationRecord, GuardCheckResult, GuardConflict, GuardError, GuardMode, GuardResult,
};
use crate::hooks::{is_truthy, is_truthy_value};
use crate::text::{opt_view, trim, trimmed};

verus! {

/// The guard is active unless enforcement is set to something that is not a
/// yes. The settings of worktrees and of git identities have no say in it.
pub open spec fn is_enforced(enforcement: Option<Seq<char>>) -> bool {
    enforcement is Some ==> is_truthy(enforcement)
}

/// Whether the guard is active, by the values of the three settings.
pub fn is_guard_gated_from_values(
    enforcement_enabled: Option<&str>,
    _worktrees_enabled: Option<&str>,
    _git_identity_enabled: Option<&str>,
) -> (r: bool)
    ensures
        r == is_enforced(opt_view(enforcement_enabled)),
{
    match enforcement_enabled {
        Some(value) => is_truthy_value(Some(value)),
        None => true,
    }
}

/// Whether the guard is active, by the value of
/// `FILE_RESERVATIONS_ENFORCEMENT_ENABLED`.
pub fn is_guard_gated(enforcement_enabled: Option<&str>) -> (r: bool)
    ensures
        r == is_enforced(opt_view(enforcement_enabled)),
{
    is_guard_gated_from_values(enforcement_enabled, None, None)
}

/// Whether the guard is bypassed, by the value of `AGENT_MAIL_BYPASS`.
pub fn is_bypass_active(bypass: Option<&str>) -> (r: bool)
    ensures
        r == is_truthy(opt_view(bypass)),
{
    is_truthy_value(bypass)
}

/// The agent that commits: the explicit name where it is not blank, or else
/// the identity of the terminal pane.
pub open spec fn agent_of(explicit: Option<Seq<char>>, pane: Option<Seq<char>>) -> Option<
    Seq<char>,
> {
    match explicit {
        Some(name) if trimmed(name).len() > 0 => Some(trimmed(name)),
        _ => pane,
    }
}

pub fn resolve_guard_agent_name(explicit: Option<&str>, pane: Option<&str>) -> (r: Option<String>)
    ensures
        match r {
            Some(name) => agent_of(opt_view(explicit), opt_view(pane)) == Some(name@),
            None => agent_of(opt_view(explicit), opt_view(pane)) is None,
        },
{
    if let Some(name) = explicit {
        let name = trim(name);
        if !name.as_str().is_empty() {
            return Some(name);
        }
    }
    match pane {
        Some(name) => Some(name.to_owned()),
        None => None,
    }
}

/// How far a check goes before reservations are read.
pub enum CheckStart {
    /// It ends here, without conflicts.
    Done(GuardCheckResult),
    /// Nobody is known to check for.
    Fail(GuardError),
    /// Reservations are read, and checked for this agent.
    Check { agent: String },
}

/// Opens a full check: a bypass wins over everything, then the guard must be
/// enforced, and then somebody must be known.
pub fn guard_check_start(
    mode: GuardMode,
    bypassed: bool,
    enforced: bool,
    agent: Option<String>,
) -> (r: CheckStart)
    ensures
        bypassed || !enforced ==> (r matches CheckStart::Done(result) && result.conflicts@.len()
            == 0 && result.mode == mode && result.bypassed == bypassed && result.gated
            == !bypassed),
        !bypassed && enforced ==> (match agent {
            Some(name) => r matches CheckStart::Check { agent: a } && a == name,
            None => r matches CheckStart::Fail(e) && e is MissingAgentName,
        }),
{
    if bypassed {
        return CheckStart::Done(
            GuardCheckResult { conflicts: Vec::new(), mode, bypassed: true, gated: false },
        );
    }
    if !enforced {
        return CheckStart::Done(
            GuardCheckResult { conflicts: Vec::new(), mode, bypassed: false, gated: true },
        );
    }
    match agent {
        Some(name) => CheckStart::Check { agent: name },
        None => CheckStart::Fail(GuardError::MissingAgentName),
    }
}

/// The full check of paths for an agent, once reservations are read.
pub fn guard_check_full(
    mode: GuardMode,
    agent: &str,
    reservations: &Vec<FileReservationRecord>,
    paths: &Vec<String>,
    ignorecase: bool,
) -> (r: GuardResult<GuardCheckResult>)
    ensures
        match r {
            Ok(result) => {
                &&& is_check_result(
                    Ok(result.conflicts),
                    paths@,
                    reservations@,
                    agent@,
                    ignorecase,
                )
                &&& result.mode == mode
                &&& !result.bypassed
                &&& !result.gated
            },
            Err(e) => is_check_result(Err(e), paths@, reservations@, agent@, ignorecase),
        },
{
    match check_path_conflicts(paths, reservations, agent, ignorecase) {
        Ok(conflicts) => Ok(GuardCheckResult { conflicts, mode, bypassed: false, gated: false }),
        Err(e) => Err(e),
    }
}

/// The conflicts of paths, without gate and bypass.
pub fn guard_check(
    agent: Option<&str>,
    reservations: &Vec<FileReservationRecord>,
    paths: &Vec<String>,
    ignorecase: bool,
) -> (r: GuardResult<Vec<GuardConflict>>)
    ensures
        match agent {
            Some(name) => is_check_result(r, paths@, reservations@, name@, ignorecase),
            None => r matches Err(e) && e is MissingAgentName,
        },
{
    match agent {
        Some(name) => check_path_conflicts(paths, reservations, name, ignorecase),
        None => Err(GuardError::MissingAgentName),
    }
}

/// The guard is on unless enforcement is set to something other than a yes;
/// the settings of worktrees and identities make no difference.
pub proof fn law_the_guard_is_on_by_default(
    enforcement: Option<&str>,
    worktrees: Option<&str>,
    identity: Option<&str>,
    yes: bool,
    all: bool,
    alone: bool,
)
    requires
        call_ensures(is_truthy_value, (enforcement,), yes),
        call_ensures(is_guard_gated_from_values, (enforcement, worktrees, identity), all),
        call_ensures(is_guard_gated, (enforcement,), alone),
    ensures
        all == alone,
        enforcement is None ==> all,
        enforcement is Some ==> all == yes,
{
}

/// A bypass wins over everything, then a guard that is off lets everything
/// pass, and only then somebody must be known.
pub proof fn law_bypass_before_gate_before_agent(
    mode: GuardMode,
    bypassed: bool,
    enforced: bool,
    agent: Option<String>,
    r: CheckStart,
)
    requires
        call_ensures(guard_check_start, (mode, bypassed, enforced, agent), r),
    ensures
        r is Done <==> bypassed || !enforced,
        r is Check <==> !bypassed && enforced && agent is Some,
        r is Fail <==> !bypassed && enforced && agent is None,
        r matches CheckStart::Done(result) ==> result.conflicts@.len() == 0 && result.mode == mode
            && result.bypassed == bypassed && result.gated == !bypassed,
        r matches CheckStart::Check { agent: name } ==> Some(name) == agent,
        r matches CheckStart::Fail(e) ==> e is MissingAgentName,
{
}

/// The explicit name counts, trimmed, unless it is blank; then the pane's.
pub proof fn law_the_explicit_name_counts(
    explicit: Option<&str>,
    pane: Option<&str>,
    r: Option<String>,
)
    requires
        call_ensures(resolve_guard_agent_name, (explicit, pane), r),
    ensures
        explicit is Some && trimmed(explicit->0@).len() > 0 ==> r is Some && r->0@ == trimmed(
            explicit->0@,
        ),
        explicit is None || trimmed(explicit->0@).len() == 0 ==> {
            &&& r is Some <==> pane is Some
            &&& r is Some ==> r->0@ == pane->0@
        },
{
}

/// The full check, and the check without gates, find what the check of paths
/// finds, with the agent that they were given; nothing is bypassed or gated.
pub proof fn law_the_full_check_is_the_check_of_paths(
    mode: GuardMode,
    agent: &str,
    reservations: &Vec<FileReservationRecord>,
    paths: &Vec<String>,
    ignorecase: bool,
    plain: Vec<GuardConflict>,
    full: GuardCheckResult,
    bare: Vec<GuardConflict>,
    nobody: GuardResult<Vec<GuardConflict>>,
)
    requires
        crate::conflicts::free_of_backslashes(paths@, reservations@, ignorecase),
        call_ensures(
            check_path_conflicts,
            (paths, reservations, agent, ignorecase),
            Ok(plain),
        ),
        call_ensures(
            guard_check_full,
            (mode, agent, reservations, paths, ignorecase),
            Ok(full),
        ),
        call_ensures(guard_check, (Some(agent), reservations, paths, ignorecase), Ok(bare)),
        call_ensures(guard_check, (None, reservations, paths, ignorecase), nobody),
    ensures
        crate::conflicts::conflict_views(full.conflicts@) == crate::conflicts::conflict_views(
            plain@,
        ),
        crate::conflicts::conflict_views(bare@) == crate::conflicts::conflict_views(plain@),
        full.mode == mode && !full.bypassed && !full.gated,
        nobody matches Err(e) && e is MissingAgentName,
{
}

/// The guard is bypassed by a value that means yes.
pub proof fn law_what_bypasses_the_guard(bypass: Option<&str>, yes: bool, r: bool)
    requires
        call_ensures(is_truthy_value, (bypass,), yes),
        call_ensures(is_bypass_active, (bypass,), r),
    ensures
        r == yes,
        bypass is None ==> !r,
{
}

} // verus!
