//! Whether a port is free, held by a server of ours or held by another
//! process.

use vstd::prelude::*;

use crate::hosts::{
    connect_host, is_wildcard, is_wildcard_host, normalize_bind_host_for_socket,
    normalize_connect_host_for_health_check, strip_brackets, unbracketed,
};
use crate::mcp_probe::HealthProbeStatus;
use crate::numbers::{decimal, print_u64};
use crate::report::{ProbeFailure, ProbeResult};
use crate::text::{debug_text, show_debug, trimmed};

verus! {

/// Why a socket could not be bound.
#[derive(Debug, Clone, Copy, PartialEq, Eq, Structural)]
pub enum BindErrorKind {
    AddrInUse,
    PermissionDenied,
    AddrNotAvailable,
    Other,
}

/// What is known about a port.
#[derive(Debug, PartialEq, Eq)]
pub enum PortStatus {
    /// It is free.
    Free,
    /// A server of ours holds it, and can be reused.
    AgentMailServer,
    /// Another process holds it.
    OtherProcess { description: String },
    /// Its status could not be determined.
    Error { kind: BindErrorKind, message: String },
}

impl Clone for PortStatus {
    fn clone(&self) -> (r: Self)
        ensures
            r == *self,
    {
        match self {
            PortStatus::Free => PortStatus::Free,
            PortStatus::AgentMailServer => PortStatus::AgentMailServer,
            PortStatus::OtherProcess { description } => PortStatus::OtherProcess {
                description: description.clone(),
            },
            PortStatus::Error { kind, message } => PortStatus::Error {
                kind: *kind,
                message: message.clone(),
            },
        }
    }
}

impl PortStatus {
    /// Whether the port can be used: it is free, or held by a server of ours.
    pub fn is_usable(&self) -> (r: bool)
        ensures
            r == (self is Free || self is AgentMailServer),
    {
        match self {
            PortStatus::Free => true,
            PortStatus::AgentMailServer => true,
            _ => false,
        }
    }

    /// Whether a server of ours is running.
    pub fn is_agent_mail_server(&self) -> (r: bool)
        ensures
            r == (self is AgentMailServer),
    {
        match self {
            PortStatus::AgentMailServer => true,
            _ => false,
        }
    }
}

/// What an attempt to connect gave.
#[derive(Debug, Clone, Copy, PartialEq, Eq, Structural)]
pub enum ConnectResult {
    Connected,
    /// Nobody listens there.
    Refused,
    /// Anything else, such as a timeout.
    Unclear,
}

/// Only refusals all round show that nobody listens.
pub open spec fn all_refused(attempts: Seq<ConnectResult>) -> bool {
    attempts.len() > 0 && forall|i: int|
        0 <= i < attempts.len() ==> #[trigger] attempts[i] == ConnectResult::Refused
}

/// Whether something may be listening, given the attempts to connect to the
/// addresses of a host; `None` is a host that could not be resolved. In doubt
/// there is a listener.
pub fn port_has_active_listener(attempts: Option<&Vec<ConnectResult>>) -> (r: bool)
    ensures
        r == !(attempts matches Some(a) && all_refused(a@)),
{
    let list = match attempts {
        None => {
            return true;
        },
        Some(a) => a,
    };
    let mut i: usize = 0;
    while i < list.len()
        invariant
            i <= list@.len(),
            attempts == Some(list),
            forall|k: int| 0 <= k < i ==> #[trigger] list@[k] == ConnectResult::Refused,
        decreases list@.len() - i,
    {
        match list[i] {
            ConnectResult::Refused => {},
            _ => {
                assert(list@[i as int] != ConnectResult::Refused);
                return true;
            },
        }
        i = i + 1;
    }
    list.len() == 0
}

/// The host to resolve before connecting: the one to connect to, without
/// brackets.
pub fn host_to_resolve(host: &str) -> (r: String)
    ensures
        r@ == unbracketed(connect_host(host@)),
{
    strip_brackets(normalize_connect_host_for_health_check(host).as_str())
}

/// Where a port check stands.
#[derive(Debug, Clone, Copy, PartialEq, Eq, Structural)]
pub enum PortStage {
    /// The socket is being bound.
    Bind,
    /// It could be bound for every address; a listener on one address may be
    /// there all the same.
    Coexisting,
    /// No process is known to listen; connecting decides.
    CoexistingConnect,
    /// Something is there; its route is being called.
    Probe,
    /// Nothing answered; the processes are being looked at.
    ByPid,
    /// No server of ours is there; any other process counts.
    Holders,
    /// No process is known to listen; connecting decides.
    Connect,
    /// The check is over.
    Over,
}

/// What a port check wants done next.
pub enum PortAction {
    /// Bind a socket to this host and the port, and let go of it again.
    Bind { host: String },
    /// List the processes that listen.
    ListHolders,
    /// Connect to the port.
    TryConnect,
    /// Call the route of the server.
    ProbeRoute,
    /// Look for a server of ours among the processes that listen.
    FindServer,
    /// The check is over.
    Done(PortStatus),
}

/// What happened in a port check.
pub enum PortEvent {
    /// The socket could be bound.
    Bound,
    /// It could not.
    BindFailed(BindErrorKind),
    /// The processes that listen are known.
    Holders { none: bool },
    /// Connecting was tried.
    Connect { active: bool },
    /// The route was called.
    Probe(HealthProbeStatus),
    /// The processes were looked at.
    Search { found: bool },
}

/// How a port check ends.
pub enum PortOutcome {
    Free,
    Server,
    Other,
    Failed(BindErrorKind),
}

/// The stage behind an event, and how the check ends where it does; none where
/// the event does not belong to the stage. `wildcard` says whether the host
/// stands for every address.
pub open spec fn port_step(stage: PortStage, wildcard: bool, event: PortEvent) -> Option<
    (PortStage, Option<PortOutcome>),
> {
    match (stage, event) {
        (PortStage::Bind, PortEvent::Bound) => Some(
            if wildcard {
                (PortStage::Coexisting, None)
            } else {
                (PortStage::Over, Some(PortOutcome::Free))
            },
        ),
        (PortStage::Bind, PortEvent::BindFailed(kind)) => Some(
            if kind == BindErrorKind::AddrInUse {
                (PortStage::Probe, None)
            } else {
                (PortStage::Over, Some(PortOutcome::Failed(kind)))
            },
        ),
        (PortStage::Coexisting, PortEvent::Holders { none }) => Some(
            if none {
                (PortStage::CoexistingConnect, None)
            } else {
                (PortStage::Probe, None)
            },
        ),
        (PortStage::CoexistingConnect, PortEvent::Connect { active }) => Some(
            if active {
                (PortStage::Probe, None)
            } else {
                (PortStage::Over, Some(PortOutcome::Free))
            },
        ),
        (PortStage::Probe, PortEvent::Probe(status)) => Some(
            match status {
                HealthProbeStatus::AgentMailServer => (PortStage::Over, Some(PortOutcome::Server)),
                HealthProbeStatus::OtherListener => (PortStage::Over, Some(PortOutcome::Other)),
                HealthProbeStatus::NoResponse => (PortStage::ByPid, None),
            },
        ),
        (PortStage::ByPid, PortEvent::Search { found }) => Some(
            if found {
                (PortStage::Over, Some(PortOutcome::Server))
            } else {
                (PortStage::Holders, None)
            },
        ),
        (PortStage::Holders, PortEvent::Holders { none }) => Some(
            if none {
                (PortStage::Connect, None)
            } else {
                (PortStage::Over, Some(PortOutcome::Other))
            },
        ),
        (PortStage::Connect, PortEvent::Connect { active }) => Some(
            if active {
                (PortStage::Over, Some(PortOutcome::Other))
            } else {
                (PortStage::Over, Some(PortOutcome::Free))
            },
        ),
        _ => None,
    }
}

/// How many events a check can still take.
pub open spec fn events_left(stage: PortStage) -> int {
    match stage {
        PortStage::Bind => 7,
        PortStage::Coexisting => 6,
        PortStage::CoexistingConnect => 5,
        PortStage::Probe => 4,
        PortStage::ByPid => 3,
        PortStage::Holders => 2,
        PortStage::Connect => 1,
        PortStage::Over => 0,
    }
}

/// The stage that the events of a check lead to, and how it ends; none where
/// the events are not those of a check.
pub open spec fn port_run(wildcard: bool, events: Seq<PortEvent>) -> Option<
    (PortStage, Option<PortOutcome>),
>
    decreases events.len(),
{
    if events.len() == 0 {
        Some((PortStage::Bind, None))
    } else {
        match port_run(wildcard, events.drop_last()) {
            Some((stage, _)) => port_step(stage, wildcard, events.last()),
            None => None,
        }
    }
}

/// A port check in progress.
pub struct PortCheck {
    pub host: String,
    pub port: u16,
    pub mcp_path: String,
    pub stage: PortStage,
}

/// How a status speaks of a process that is not ours.
pub open spec fn other_process_text(host: Seq<char>, port: u16) -> Seq<char> {
    "Unknown process listening on "@ + host + ":"@ + decimal(port as nat)
}

/// Starts the check of a port, with the usual route of a server.
pub fn check_port_status(host: &str, port: u16) -> (r: PortCheck)
    ensures
        r.host@ == host@,
        r.port == port,
        r.mcp_path@ == "/mcp/"@,
        r.stage == PortStage::Bind,
{
    check_port_status_at_mcp_path(host, port, "/mcp/")
}

/// Starts the check of a port, with the route that the server would serve.
pub fn check_port_status_at_mcp_path(host: &str, port: u16, mcp_path: &str) -> (r: PortCheck)
    ensures
        r.host@ == host@,
        r.port == port,
        r.mcp_path@ == mcp_path@,
        r.stage == PortStage::Bind,
{
    PortCheck {
        host: host.to_owned(),
        port,
        mcp_path: mcp_path.to_owned(),
        stage: PortStage::Bind,
    }
}

impl PortCheck {
    /// Nothing but the stage differs.
    pub open spec fn same_target(&self, other: &PortCheck) -> bool {
        self.host == other.host && self.port == other.port && self.mcp_path == other.mcp_path
    }

    /// The action reports another process and ends the check.
    pub open spec fn ends_with_other(&self, action: PortAction) -> bool {
        self.stage == PortStage::Over && (action matches PortAction::Done(status) && (status matches
            PortStatus::OtherProcess { description } && description@ == other_process_text(
            self.host@,
            self.port,
        )))
    }

    /// The action reports a free port and ends the check.
    pub open spec fn ends_free(&self, action: PortAction) -> bool {
        self.stage == PortStage::Over && (action matches PortAction::Done(status) && status is Free)
    }

    /// The action reports a server of ours and ends the check.
    pub open spec fn ends_with_server(&self, action: PortAction) -> bool {
        self.stage == PortStage::Over && (action matches PortAction::Done(status) && status is
            AgentMailServer)
    }

    /// The check has taken the event: it stands where the event leads, and the
    /// action is the one that belongs there.
    pub open spec fn took(&self, before: &PortCheck, event: PortEvent, action: PortAction) -> bool {
        self.same_target(before) && match port_step(before.stage, is_wildcard(before.host@), event) {
            None => false,
            Some((stage, outcome)) => self.stage == stage && match outcome {
                Some(PortOutcome::Free) => self.ends_free(action),
                Some(PortOutcome::Server) => self.ends_with_server(action),
                Some(PortOutcome::Other) => self.ends_with_other(action),
                Some(PortOutcome::Failed(kind)) => action matches PortAction::Done(status) && (
                status matches PortStatus::Error { kind: k, message } && k == kind),
                None => match stage {
                    PortStage::Coexisting => action is ListHolders,
                    PortStage::CoexistingConnect => action is TryConnect,
                    PortStage::Probe => action is ProbeRoute,
                    PortStage::ByPid => action is FindServer,
                    PortStage::Holders => action is ListHolders,
                    PortStage::Connect => action is TryConnect,
                    _ => false,
                },
            },
        }
    }

    /// The first thing to do.
    pub fn first_action(&self) -> (r: PortAction)
        requires
            self.stage == PortStage::Bind,
        ensures
            r matches PortAction::Bind { host } && host@ == unbracketed(trimmed(self.host@)),
    {
        PortAction::Bind { host: normalize_bind_host_for_socket(self.host.as_str()) }
    }

    fn free(&mut self) -> (r: PortAction)
        ensures
            final(self).same_target(old(self)),
            final(self).ends_free(r),
    {
        self.stage = PortStage::Over;
        PortAction::Done(PortStatus::Free)
    }

    fn other(&mut self) -> (r: PortAction)
        ensures
            final(self).same_target(old(self)),
            final(self).ends_with_other(r),
    {
        self.stage = PortStage::Over;
        PortAction::Done(
            PortStatus::OtherProcess {
                description: "Unknown process listening on ".to_owned().concat(
                    self.host.as_str(),
                ).concat(":").concat(print_u64(self.port as u64).as_str()),
            },
        )
    }

    fn server(&mut self) -> (r: PortAction)
        ensures
            final(self).same_target(old(self)),
            final(self).ends_with_server(r),
    {
        self.stage = PortStage::Over;
        PortAction::Done(PortStatus::AgentMailServer)
    }

    /// The socket could be bound. That settles it for one address; for every
    /// address a listener on one of them may be there all the same.
    pub fn on_bound(&mut self) -> (r: PortAction)
        requires
            old(self).stage == PortStage::Bind,
        ensures
            final(self).took(old(self), PortEvent::Bound, r),
    {
        if !is_wildcard_host(self.host.as_str()) {
            return self.free();
        }
        self.stage = PortStage::Coexisting;
        PortAction::ListHolders
    }

    /// The socket could not be bound. Only an address in use leads on.
    pub fn on_bind_error(&mut self, kind: BindErrorKind, message: String) -> (r: PortAction)
        requires
            old(self).stage == PortStage::Bind,
        ensures
            final(self).took(old(self), PortEvent::BindFailed(kind), r),
            r matches PortAction::Done(status) ==> (status matches PortStatus::Error {
                kind: _,
                message: m,
            } && m == message),
    {
        match kind {
            BindErrorKind::AddrInUse => {
                self.stage = PortStage::Probe;
                PortAction::ProbeRoute
            },
            _ => {
                self.stage = PortStage::Over;
                PortAction::Done(PortStatus::Error { kind, message })
            },
        }
    }

    /// The processes that listen are known; `none` where there are none.
    pub fn on_holders(&mut self, none: bool) -> (r: PortAction)
        requires
            old(self).stage == PortStage::Coexisting || old(self).stage == PortStage::Holders,
        ensures
            final(self).took(old(self), PortEvent::Holders { none }, r),
    {
        match self.stage {
            PortStage::Coexisting => if none {
                self.stage = PortStage::CoexistingConnect;
                PortAction::TryConnect
            } else {
                self.stage = PortStage::Probe;
                PortAction::ProbeRoute
            },
            _ => if none {
                self.stage = PortStage::Connect;
                PortAction::TryConnect
            } else {
                self.other()
            },
        }
    }

    /// The attempt to connect is over; `active` where something may listen.
    pub fn on_connect(&mut self, active: bool) -> (r: PortAction)
        requires
            old(self).stage == PortStage::CoexistingConnect || old(self).stage
                == PortStage::Connect,
        ensures
            final(self).took(old(self), PortEvent::Connect { active }, r),
    {
        if !active {
            return self.free();
        }
        match self.stage {
            PortStage::CoexistingConnect => {
                self.stage = PortStage::Probe;
                PortAction::ProbeRoute
            },
            _ => self.other(),
        }
    }

    /// The route was called. A listener that answered otherwise is left alone;
    /// only where nothing answered are the processes looked at.
    pub fn on_probe(&mut self, status: HealthProbeStatus) -> (r: PortAction)
        requires
            old(self).stage == PortStage::Probe,
        ensures
            final(self).took(old(self), PortEvent::Probe(status), r),
    {
        match status {
            HealthProbeStatus::AgentMailServer => self.server(),
            HealthProbeStatus::OtherListener => self.other(),
            HealthProbeStatus::NoResponse => {
                self.stage = PortStage::ByPid;
                PortAction::FindServer
            },
        }
    }

    /// The processes were looked at; `found` where one is a server of ours.
    pub fn on_server_search(&mut self, found: bool) -> (r: PortAction)
        requires
            old(self).stage == PortStage::ByPid,
        ensures
            final(self).took(old(self), PortEvent::Search { found }, r),
    {
        if found {
            self.server()
        } else {
            self.stage = PortStage::Holders;
            PortAction::ListHolders
        }
    }
}

/// A check ends: it takes at most seven events, and it has an outcome exactly
/// where it is over.
pub proof fn law_port_check_ends(wildcard: bool, events: Seq<PortEvent>)
    ensures
        port_run(wildcard, events) matches Some((stage, outcome)) ==> events.len() + events_left(
            stage,
        ) <= 7 && (outcome is Some <==> stage == PortStage::Over),
    decreases events.len(),
{
    if events.len() > 0 {
        law_port_check_ends(wildcard, events.drop_last());
    }
}

/// A port counts as free only where a socket could be bound to its one
/// address, or nobody listened when connecting was tried last.
pub proof fn law_free_needs_evidence(wildcard: bool, events: Seq<PortEvent>)
    requires
        port_run(wildcard, events) matches Some((_, Some(PortOutcome::Free))),
    ensures
        events.len() > 0,
        events.last() == (PortEvent::Connect { active: false }) || (events =~= seq![
            PortEvent::Bound,
        ] && !wildcard),
{
    reveal_with_fuel(port_run, 3);
    let before = events.drop_last();
    if events.last() == PortEvent::Bound {
        if before.len() > 0 {
            let (stage, _) = port_run(wildcard, before.drop_last())->0;
            let (next, _) = port_step(stage, wildcard, before.last())->0;
            assert(next != PortStage::Bind);
        }
        assert(events =~= before.push(PortEvent::Bound));
    }
}

/// A server counts as ours only where its route answered as ours, or where
/// nothing answered and its process is one of ours.
pub proof fn law_server_needs_evidence(wildcard: bool, events: Seq<PortEvent>)
    requires
        port_run(wildcard, events) matches Some((_, Some(PortOutcome::Server))),
    ensures
        events.len() > 0,
        events.last() == PortEvent::Probe(HealthProbeStatus::AgentMailServer) || (events.last() == (
        PortEvent::Search { found: true }) && events.len() > 1 && events[events.len() - 2]
            == PortEvent::Probe(HealthProbeStatus::NoResponse)),
{
    reveal_with_fuel(port_run, 3);
    let before = events.drop_last();
    if events.last() == (PortEvent::Search { found: true }) {
        assert(before.len() > 0);
        let (stage, _) = port_run(wildcard, before.drop_last())->0;
        let (next, _) = port_step(stage, wildcard, before.last())->0;
        assert(next == PortStage::ByPid);
        assert(before.last() == events[events.len() - 2]);
    }
}

/// The host and the port, as messages show them.
pub open spec fn address(host: Seq<char>, port: u16) -> Seq<char> {
    host + ":"@ + decimal(port as nat)
}

/// The problem that the status of a port is for a start, and what to do.
pub open spec fn port_problem(host: Seq<char>, port: u16, status: PortStatus) -> Option<
    (Seq<char>, Seq<char>),
> {
    match status {
        PortStatus::Free => None,
        PortStatus::AgentMailServer => Some(
            (
                "An Agent Mail server is already running on "@ + address(host, port),
                "Reuse the running server (for CLI: use --reuse-running), stop the existing server, or choose a different HTTP_PORT"@,
            ),
        ),
        PortStatus::OtherProcess { description } => Some(
            (
                "Port "@ + decimal(port as nat) + " is already in use on "@ + host
                    + " by another process. "@ + description@,
                "Stop the other process using port "@ + decimal(port as nat)
                    + ", or set HTTP_PORT to a different port"@,
            ),
        ),
        PortStatus::Error { kind: BindErrorKind::PermissionDenied, .. } => Some(
            (
                "Permission denied binding to "@ + address(host, port),
                if port < 1024 {
                    "Ports below 1024 require elevated privileges. Use HTTP_PORT=1024 or higher"@
                } else {
                    "Check your firewall or OS security settings"@
                },
            ),
        ),
        PortStatus::Error { kind: BindErrorKind::AddrNotAvailable, .. } => Some(
            (
                "Address "@ + address(host, port) + " is not available"@,
                "The host "@ + debug_text(host)
                    + " may not be a valid local address. Try HTTP_HOST=127.0.0.1 or HTTP_HOST=0.0.0.0"@,
            ),
        ),
        PortStatus::Error { kind: _, message } => Some(
            (
                "Cannot bind to "@ + address(host, port) + ": "@ + message@,
                "Check network configuration and try a different port/host"@,
            ),
        ),
    }
}

fn show_address(host: &str, port: u16) -> (r: String)
    ensures
        r@ == address(host@, port),
{
    host.to_owned().concat(":").concat(print_u64(port as u64).as_str())
}

/// The probe of the port: it passes where the port is free.
pub fn probe_port(host: &str, port: u16, status: &PortStatus) -> (r: ProbeResult)
    ensures
        match port_problem(host@, port, *status) {
            None => r.passed("port"@),
            Some((problem, fix)) => r.failed("port"@, problem, fix),
        },
{
    let number = print_u64(port as u64);
    let (problem, fix) = match status {
        PortStatus::Free => {
            return ProbeResult::Pass { name: "port" };
        },
        PortStatus::AgentMailServer => (
            "An Agent Mail server is already running on ".to_owned().concat(
                show_address(host, port).as_str(),
            ),
            "Reuse the running server (for CLI: use --reuse-running), stop the existing server, or choose a different HTTP_PORT".to_owned(),
        ),
        PortStatus::OtherProcess { description } => (
            "Port ".to_owned().concat(number.as_str()).concat(" is already in use on ").concat(
                host,
            ).concat(" by another process. ").concat(description.as_str()),
            "Stop the other process using port ".to_owned().concat(number.as_str()).concat(
                ", or set HTTP_PORT to a different port",
            ),
        ),
        PortStatus::Error { kind, message } => match kind {
            BindErrorKind::PermissionDenied => (
                "Permission denied binding to ".to_owned().concat(
                    show_address(host, port).as_str(),
                ),
                if port < 1024 {
                    "Ports below 1024 require elevated privileges. Use HTTP_PORT=1024 or higher".to_owned()
                } else {
                    "Check your firewall or OS security settings".to_owned()
                },
            ),
            BindErrorKind::AddrNotAvailable => (
                "Address ".to_owned().concat(show_address(host, port).as_str()).concat(
                    " is not available",
                ),
                "The host ".to_owned().concat(show_debug(host).as_str()).concat(
                    " may not be a valid local address. Try HTTP_HOST=127.0.0.1 or HTTP_HOST=0.0.0.0",
                ),
            ),
            _ => (
                "Cannot bind to ".to_owned().concat(show_address(host, port).as_str()).concat(
                    ": ",
                ).concat(message.as_str()),
                "Check network configuration and try a different port/host".to_owned(),
            ),
        },
    };
    ProbeResult::Fail(ProbeFailure { name: "port", problem, fix })
}

/// The route was called and did not answer as a server of ours.
pub open spec fn was_probed(events: Seq<PortEvent>) -> bool {
    exists|k: int|
        0 <= k < events.len() && ((#[trigger] events[k]) == PortEvent::Probe(
            HealthProbeStatus::OtherListener,
        ) || events[k] == PortEvent::Probe(HealthProbeStatus::NoResponse))
}

proof fn lemma_probed_stages(wildcard: bool, events: Seq<PortEvent>)
    ensures
        port_run(wildcard, events) matches Some((stage, outcome)) ==> {
            &&& (stage == PortStage::ByPid || stage == PortStage::Holders || stage
                == PortStage::Connect) ==> was_probed(events)
            &&& (outcome matches Some(PortOutcome::Other)) ==> was_probed(events)
        },
    decreases events.len(),
{
    if events.len() > 0 {
        let before = events.drop_last();
        lemma_probed_stages(wildcard, before);
        let last = events.len() - 1;
        assert(events[last] == events.last());
        if was_probed(before) {
            let k = choose|k: int|
                0 <= k < before.len() && ((#[trigger] before[k]) == PortEvent::Probe(
                    HealthProbeStatus::OtherListener,
                ) || before[k] == PortEvent::Probe(HealthProbeStatus::NoResponse));
            assert(events[k] == before[k]);
        }
    }
}

/// Another process is reported only on evidence: the route was called before,
/// and it answered as another listener or not at all.
pub proof fn law_another_process_needs_evidence(wildcard: bool, events: Seq<PortEvent>)
    requires
        port_run(wildcard, events) matches Some((_, Some(PortOutcome::Other))),
    ensures
        was_probed(events),
{
    lemma_probed_stages(wildcard, events);
}

/// Something may be listening: the address is in use, or every address could
/// be bound and a process is listed, or none is and connecting came through.
pub open spec fn may_be_taken(wildcard: bool, events: Seq<PortEvent>) -> bool {
    ||| events.len() >= 1 && events[0] == PortEvent::BindFailed(BindErrorKind::AddrInUse)
    ||| wildcard && events.len() >= 2 && events[0] == PortEvent::Bound && events[1] == (
    PortEvent::Holders { none: false })
    ||| wildcard && events.len() >= 3 && events[0] == PortEvent::Bound && events[1] == (
    PortEvent::Holders { none: true }) && events[2] == (PortEvent::Connect { active: true })
}

/// The events that show that something may be listening: one, two or three.
pub open spec fn opening_len(events: Seq<PortEvent>) -> int {
    if events[0] == PortEvent::BindFailed(BindErrorKind::AddrInUse) {
        1
    } else if events[1] == (PortEvent::Holders { none: false }) {
        2
    } else {
        3
    }
}

proof fn lemma_run_goes_on(wildcard: bool, events: Seq<PortEvent>, n: int)
    requires
        0 <= n <= events.len(),
        port_run(wildcard, events) is Some,
    ensures
        port_run(wildcard, events.take(n)) is Some,
    decreases events.len(),
{
    if n == events.len() {
        assert(events.take(n) =~= events);
    } else {
        assert(events.drop_last().take(n) =~= events.take(n));
        lemma_run_goes_on(wildcard, events.drop_last(), n);
    }
}

/// Where something may be listening the route is what is called next, and
/// where it answers as a server of ours the check ends with a server of ours.
pub proof fn law_a_possible_listener_is_asked(wildcard: bool, events: Seq<PortEvent>)
    requires
        port_run(wildcard, events) is Some,
        may_be_taken(wildcard, events),
    ensures
        port_run(wildcard, events.take(opening_len(events))) == Some(
            (PortStage::Probe, None::<PortOutcome>),
        ),
        events.len() > opening_len(events) ==> events[opening_len(events)] is Probe,
        events.len() > opening_len(events) && events[opening_len(events)] == PortEvent::Probe(
            HealthProbeStatus::AgentMailServer,
        ) ==> events.len() == opening_len(events) + 1 && port_run(wildcard, events) == Some(
            (PortStage::Over, Some(PortOutcome::Server)),
        ),
{
    reveal_with_fuel(port_run, 5);
    let n = opening_len(events);
    let opening = events.take(n);
    lemma_run_goes_on(wildcard, events, n);
    if n == 1 {
        assert(opening.drop_last() =~= Seq::<PortEvent>::empty());
    } else if n == 2 {
        assert(opening.drop_last() =~= seq![PortEvent::Bound]);
        assert(opening.drop_last().drop_last() =~= Seq::<PortEvent>::empty());
    } else {
        assert(opening.drop_last() =~= seq![PortEvent::Bound, PortEvent::Holders { none: true }]);
        assert(opening.drop_last().drop_last() =~= seq![PortEvent::Bound]);
        assert(opening.drop_last().drop_last().drop_last() =~= Seq::<PortEvent>::empty());
    }
    if events.len() > n {
        let further = events.take(n + 1);
        assert(further.drop_last() =~= opening);
        assert(further.last() == events[n]);
        lemma_run_goes_on(wildcard, events, n + 1);
        if events[n] == PortEvent::Probe(HealthProbeStatus::AgentMailServer) {
            if events.len() > n + 1 {
                let more = events.take(n + 2);
                assert(more.drop_last() =~= further);
                lemma_run_goes_on(wildcard, events, n + 2);
            } else {
                assert(further =~= events);
            }
        }
    }
}

/// A socket that could be bound to its one address settles the check: the port
/// is free. Every error of binding but an address in use is handed on.
pub proof fn law_binding_settles_one_address(kind: BindErrorKind)
    ensures
        port_run(false, seq![PortEvent::Bound]) == Some(
            (PortStage::Over, Some(PortOutcome::Free)),
        ),
        forall|wildcard: bool|
            kind != BindErrorKind::AddrInUse ==> #[trigger] port_run(
                wildcard,
                seq![PortEvent::BindFailed(kind)],
            ) == Some((PortStage::Over, Some(PortOutcome::Failed(kind)))),
{
    reveal_with_fuel(port_run, 3);
    assert(seq![PortEvent::Bound].drop_last() =~= Seq::<PortEvent>::empty());
    assert(seq![PortEvent::BindFailed(kind)].drop_last() =~= Seq::<PortEvent>::empty());
}

/// Where nothing answered, no server of ours was found, no process is listed
/// and nobody accepts a connection, the port is free; a process that is
/// listed, or a connection that comes through, is another process.
pub proof fn law_a_silent_port_is_judged_by_its_holders(
    wildcard: bool,
    events: Seq<PortEvent>,
    none: bool,
    active: bool,
)
    requires
        port_run(wildcard, events) == Some((PortStage::Probe, None::<PortOutcome>)),
    ensures
        ({
            let silent = events.push(PortEvent::Probe(HealthProbeStatus::NoResponse)).push(
                PortEvent::Search { found: false },
            );
            &&& port_run(wildcard, silent.push(PortEvent::Holders { none: false })) == Some(
                (PortStage::Over, Some(PortOutcome::Other)),
            )
            &&& port_run(
                wildcard,
                silent.push(PortEvent::Holders { none: true }).push(PortEvent::Connect { active }),
            ) == Some(
                (
                    PortStage::Over,
                    Some(
                        if active {
                            PortOutcome::Other
                        } else {
                            PortOutcome::Free
                        },
                    ),
                ),
            )
        }),
{
    reveal_with_fuel(port_run, 5);
    let a = events.push(PortEvent::Probe(HealthProbeStatus::NoResponse));
    let b = a.push(PortEvent::Search { found: false });
    let c = b.push(PortEvent::Holders { none: true });
    assert(a.drop_last() =~= events);
    assert(b.drop_last() =~= a);
    assert(b.push(PortEvent::Holders { none: false }).drop_last() =~= b);
    assert(c.drop_last() =~= b);
    assert(c.push(PortEvent::Connect { active }).drop_last() =~= c);
}

/// What is asked for belongs to where the check stands: the route is called
/// exactly in the stage that calls it, processes are listed and looked at, and
/// connecting is tried, in theirs, and a status is given exactly at the end.
pub proof fn law_actions_belong_to_their_stage(
    check: PortCheck,
    before: PortCheck,
    event: PortEvent,
    action: PortAction,
)
    requires
        check.took(&before, event, action),
    ensures
        action is ProbeRoute <==> check.stage == PortStage::Probe,
        action is ListHolders <==> check.stage == PortStage::Coexisting || check.stage
            == PortStage::Holders,
        action is TryConnect <==> check.stage == PortStage::CoexistingConnect || check.stage
            == PortStage::Connect,
        action is FindServer <==> check.stage == PortStage::ByPid,
        action is Done <==> check.stage == PortStage::Over,
        action matches PortAction::Done(PortStatus::Free) ==> (event == (PortEvent::Connect {
            active: false,
        }) || event == PortEvent::Bound),
        action matches PortAction::Done(PortStatus::AgentMailServer) ==> (event
            == PortEvent::Probe(HealthProbeStatus::AgentMailServer) || event == (
        PortEvent::Search { found: true })),
        action matches PortAction::Done(PortStatus::Error { kind, .. }) ==> event
            == PortEvent::BindFailed(kind),
        check.host == before.host && check.port == before.port && check.mcp_path
            == before.mcp_path,
{
}

/// The probe of the port passes exactly where the port is free, and what it
/// says names the host and the port.
pub proof fn law_only_a_free_port_passes(host: Seq<char>, port: u16, status: PortStatus)
    ensures
        port_problem(host, port, status) is None <==> status is Free,
        port_problem(host, port, status) matches Some((problem, _)) ==> crate::text::has_text(
            problem,
            host,
        ) && crate::text::has_text(problem, decimal(port as nat)),
{
    let d = decimal(port as nat);
    match status {
        PortStatus::Free => {},
        PortStatus::AgentMailServer => {
            let a = "An Agent Mail server is already running on "@;
            lemma_part(a, host, ":"@ + d);
            lemma_part(a + host + ":"@, d, Seq::empty());
            assert(a + address(host, port) =~= a + host + (":"@ + d));
            assert(a + address(host, port) =~= a + host + ":"@ + d + Seq::<char>::empty());
        },
        PortStatus::OtherProcess { description } => {
            let a = "Port "@;
            let b = " is already in use on "@;
            let rest = " by another process. "@ + description@;
            let p = a + d + b + host + " by another process. "@ + description@;
            lemma_part(a, d, b + host + rest);
            lemma_part(a + d + b, host, rest);
            assert(p =~= a + d + (b + host + rest));
            assert(p =~= a + d + b + host + rest);
        },
        PortStatus::Error { kind, message } => {
            match kind {
                BindErrorKind::PermissionDenied => {
                    let a = "Permission denied binding to "@;
                    lemma_part(a, host, ":"@ + d);
                    lemma_part(a + host + ":"@, d, Seq::empty());
                    assert(a + address(host, port) =~= a + host + (":"@ + d));
                    assert(a + address(host, port) =~= a + host + ":"@ + d + Seq::<char>::empty());
                },
                BindErrorKind::AddrNotAvailable => {
                    let a = "Address "@;
                    let z = " is not available"@;
                    let p = a + address(host, port) + z;
                    lemma_part(a, host, ":"@ + d + z);
                    lemma_part(a + host + ":"@, d, z);
                    assert(p =~= a + host + (":"@ + d + z));
                    assert(p =~= a + host + ":"@ + d + z);
                },
                _ => {
                    let a = "Cannot bind to "@;
                    let z = ": "@ + message@;
                    let p = a + address(host, port) + ": "@ + message@;
                    lemma_part(a, host, ":"@ + d + z);
                    lemma_part(a + host + ":"@, d, z);
                    assert(p =~= a + host + (":"@ + d + z));
                    assert(p =~= a + host + ":"@ + d + z);
                },
            }
        },
    }
}

proof fn lemma_part(a: Seq<char>, m: Seq<char>, b: Seq<char>)
    ensures
        crate::text::has_text(a + m + b, m),
{
    assert((a + m + b).subrange(a.len() as int, (a.len() + m.len()) as int) =~= m);
    assert(crate::text::occurs_at(a + m + b, m, a.len() as int));
}

/// What binding gives settles the check for one address and leads on for every
/// address; an address in use leads to the route, and every other error is
/// handed on as it is.
pub proof fn law_what_binding_leads_to(
    check: &mut PortCheck,
    failed: &mut PortCheck,
    host: &str,
    wildcard: bool,
    kind: BindErrorKind,
    message: String,
    bound: PortAction,
    r: PortAction,
)
    requires
        host@ == old(check).host@,
        call_ensures(is_wildcard_host, (host,), wildcard),
        old(check).stage == PortStage::Bind,
        old(failed).stage == PortStage::Bind,
        call_ensures(PortCheck::on_bound, (check,), bound),
        call_ensures(PortCheck::on_bind_error, (failed, kind, message), r),
    ensures
        !wildcard ==> (bound matches PortAction::Done(status) && status is Free),
        wildcard ==> bound is ListHolders && final(check).stage == PortStage::Coexisting,
        kind == BindErrorKind::AddrInUse ==> r is ProbeRoute && final(failed).stage
            == PortStage::Probe,
        kind != BindErrorKind::AddrInUse ==> (r matches PortAction::Done(status) && (status matches
            PortStatus::Error { kind: k, message: m } && k == kind && m == message)),
        final(check).host == old(check).host && final(check).port == old(check).port && final(check).mcp_path == old(check).mcp_path,
{
}

/// Where every address could be bound, a process that is listed leads to its
/// route, and none to an attempt to connect; where nothing answered, a process
/// that is listed is another one. Another process is told by host and port.
pub proof fn law_what_holders_lead_to(check: &mut PortCheck, none: bool, r: PortAction)
    requires
        old(check).stage == PortStage::Coexisting || old(check).stage == PortStage::Holders,
        call_ensures(PortCheck::on_holders, (check, none), r),
    ensures
        none ==> r is TryConnect,
        !none && old(check).stage == PortStage::Coexisting ==> r is ProbeRoute && final(check).stage
            == PortStage::Probe,
        !none && old(check).stage == PortStage::Holders ==> (r matches PortAction::Done(status) && (
        status matches PortStatus::OtherProcess { description } && description@
            == "Unknown process listening on "@ + old(check).host@ + ":"@ + decimal(
            old(check).port as nat,
        ))),
{
}

/// Without a connection the port is free. With one the route is called, unless
/// it was before: then another process is there.
pub proof fn law_what_connecting_leads_to(check: &mut PortCheck, active: bool, r: PortAction)
    requires
        old(check).stage == PortStage::CoexistingConnect || old(check).stage == PortStage::Connect,
        call_ensures(PortCheck::on_connect, (check, active), r),
    ensures
        !active ==> (r matches PortAction::Done(status) && status is Free),
        active && old(check).stage == PortStage::CoexistingConnect ==> r is ProbeRoute && final(check).stage == PortStage::Probe,
        active && old(check).stage == PortStage::Connect ==> (r matches PortAction::Done(status)
            && status is OtherProcess),
{
}

/// What the route answered decides; only silence leads to the processes, and
/// among them a server of ours is found or the holders are listed.
pub proof fn law_what_the_route_leads_to(
    check: &mut PortCheck,
    status: HealthProbeStatus,
    r: PortAction,
    search: &mut PortCheck,
    found: bool,
    s: PortAction,
)
    requires
        old(check).stage == PortStage::Probe,
        old(search).stage == PortStage::ByPid,
        call_ensures(PortCheck::on_probe, (check, status), r),
        call_ensures(PortCheck::on_server_search, (search, found), s),
    ensures
        status == HealthProbeStatus::AgentMailServer <==> (r matches PortAction::Done(end) && end
            is AgentMailServer),
        status == HealthProbeStatus::OtherListener <==> (r matches PortAction::Done(end) && end
            is OtherProcess),
        status == HealthProbeStatus::NoResponse <==> r is FindServer,
        found ==> (s matches PortAction::Done(end) && end is AgentMailServer),
        !found ==> s is ListHolders && final(search).stage == PortStage::Holders,
{
}

/// A check starts with binding, without brackets around the host, and calls
/// the usual route unless another is given.
pub proof fn law_a_check_starts_with_binding(
    host: &str,
    port: u16,
    path: &str,
    usual: PortCheck,
    given: PortCheck,
    bound: String,
    first: PortAction,
)
    requires
        call_ensures(check_port_status, (host, port), usual),
        call_ensures(check_port_status_at_mcp_path, (host, port, path), given),
        call_ensures(normalize_bind_host_for_socket, (host,), bound),
        call_ensures(PortCheck::first_action, (&given,), first),
    ensures
        usual.stage == PortStage::Bind && given.stage == PortStage::Bind,
        usual.host@ == host@ && usual.port == port && usual.mcp_path@ == "/mcp/"@,
        given.host@ == host@ && given.port == port && given.mcp_path@ == path@,
        first matches PortAction::Bind { host: h } && h@ == bound@,
{
}

/// Nobody listens only where every attempt was refused, and there was one; in
/// doubt somebody does.
pub proof fn law_in_doubt_somebody_listens(
    attempts: &Vec<ConnectResult>,
    unresolved: bool,
    r: bool,
)
    requires
        call_ensures(port_has_active_listener, (None,), unresolved),
        call_ensures(port_has_active_listener, (Some(attempts),), r),
    ensures
        unresolved,
        attempts@.len() == 0 ==> r,
        attempts@.len() > 0 ==> (r <==> exists|i: int|
            0 <= i < attempts@.len() && #[trigger] attempts@[i] != ConnectResult::Refused),
{
}

/// A port can be used where it is free or a server of ours holds it.
pub proof fn law_which_ports_can_be_used(status: PortStatus, usable: bool, ours: bool)
    requires
        call_ensures(PortStatus::is_usable, (&status,), usable),
        call_ensures(PortStatus::is_agent_mail_server, (&status,), ours),
    ensures
        usable <==> status is Free || ours,
        ours <==> status is AgentMailServer,
{
}

/// The probe of a port passes exactly where it is free, under the name of the
/// port; a port of a privileged number is told from another.
pub proof fn law_the_probe_of_a_port(
    host: &str,
    port: u16,
    status: &PortStatus,
    r: ProbeResult,
)
    requires
        call_ensures(probe_port, (host, port, status), r),
    ensures
        r is Pass <==> status is Free,
        r matches ProbeResult::Fail(f) ==> f.name@ == "port"@ && crate::text::has_text(
            f.problem@,
            host@,
        ) && crate::text::has_text(f.problem@, decimal(port as nat)),
        status matches PortStatus::Error { kind, message } ==> {
            &&& kind == BindErrorKind::PermissionDenied && port < 1024 ==> (r matches
                ProbeResult::Fail(f) && f.fix@
                == "Ports below 1024 require elevated privileges. Use HTTP_PORT=1024 or higher"@)
            &&& kind == BindErrorKind::PermissionDenied && port >= 1024 ==> (r matches
                ProbeResult::Fail(f) && f.fix@ == "Check your firewall or OS security settings"@)
            &&& kind == BindErrorKind::Other ==> (r matches ProbeResult::Fail(f)
                && message@.is_suffix_of(f.problem@))
        },
{
    law_only_a_free_port_passes(host@, port, *status);
    if let PortStatus::Error { kind, message } = *status {
        let a = "Cannot bind to "@ + address(host@, port) + ": "@;
        assert((a + message@).skip(a.len() as int) =~= message@);
    }
}

/// The host that is resolved for a connection is the one that a health check
/// goes to, without brackets.
pub proof fn law_what_is_resolved(host: &str, connect: String, text: &str, inner: String, r: String)
    requires
        call_ensures(normalize_connect_host_for_health_check, (host,), connect),
        text@ == connect@,
        call_ensures(strip_brackets, (text,), inner),
        call_ensures(host_to_resolve, (host,), r),
    ensures
        r@ == inner@,
{
}

} // verus!
