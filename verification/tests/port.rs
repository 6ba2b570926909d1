//! The status of the port, and the probe of it.

use agent_mail_guard::mcp_probe::HealthProbeStatus;
use agent_mail_guard::port::{
    check_port_status, check_port_status_at_mcp_path, host_to_resolve, port_has_active_listener,
    probe_port, BindErrorKind, ConnectResult, PortAction, PortStatus,
};
use agent_mail_guard::report::ProbeResult;

#[test]
fn port_status_free_is_usable() {
    let status = PortStatus::Free;
    assert!(status.is_usable());
    assert!(!status.is_agent_mail_server());
}

#[test]
fn port_status_agent_mail_is_usable() {
    let status = PortStatus::AgentMailServer;
    assert!(status.is_usable());
    assert!(status.is_agent_mail_server());
}

#[test]
fn port_status_other_process_not_usable() {
    let status = PortStatus::OtherProcess { description: "nginx".into() };
    assert!(!status.is_usable());
    assert!(!status.is_agent_mail_server());
}

#[test]
fn port_status_error_not_usable() {
    let status = PortStatus::Error {
        kind: BindErrorKind::PermissionDenied,
        message: "access denied".into(),
    };
    assert!(!status.is_usable());
    assert!(!status.is_agent_mail_server());
}

#[test]
fn check_port_status_free_on_random_port() {
    let mut check = check_port_status("127.0.0.1", 8765);
    assert!(matches!(check.first_action(), PortAction::Bind { host } if host == "127.0.0.1"));
    assert!(matches!(check.on_bound(), PortAction::Done(PortStatus::Free)));
}

#[test]
fn check_port_status_in_use_by_other_process() {
    let mut check = check_port_status("127.0.0.1", 8765);
    let action = check.on_bind_error(BindErrorKind::AddrInUse, "in use".into());
    assert!(matches!(action, PortAction::ProbeRoute));
    assert!(matches!(
        check.on_probe(HealthProbeStatus::OtherListener),
        PortAction::Done(PortStatus::OtherProcess { .. })
    ));
}

#[test]
fn check_port_status_detects_agent_mail_server() {
    let mut check = check_port_status_at_mcp_path("127.0.0.1", 8765, "/mcp/");
    check.on_bind_error(BindErrorKind::AddrInUse, "in use".into());
    assert!(matches!(
        check.on_probe(HealthProbeStatus::AgentMailServer),
        PortAction::Done(PortStatus::AgentMailServer)
    ));
}

#[test]
fn check_port_status_detects_agent_mail_server_for_wildcard_host() {
    let mut check = check_port_status("0.0.0.0", 8765);
    assert!(matches!(check.on_bound(), PortAction::ListHolders));
    assert!(matches!(check.on_holders(true), PortAction::TryConnect));
    assert!(matches!(check.on_connect(true), PortAction::ProbeRoute));
    assert!(matches!(check.on_probe(HealthProbeStatus::NoResponse), PortAction::FindServer));
    assert!(matches!(
        check.on_server_search(true),
        PortAction::Done(PortStatus::AgentMailServer)
    ));
}

#[test]
fn check_port_status_accepts_raw_ipv6_loopback_host() {
    let check = check_port_status("[::1]", 8765);
    assert!(matches!(check.first_action(), PortAction::Bind { host } if host == "::1"));
    assert_eq!(host_to_resolve("[::1]"), "::1");
    assert_eq!(host_to_resolve("0.0.0.0"), "127.0.0.1");
}

#[test]
fn a_silent_listener_is_another_process() {
    let mut check = check_port_status("127.0.0.1", 8765);
    check.on_bind_error(BindErrorKind::AddrInUse, "in use".into());
    check.on_probe(HealthProbeStatus::NoResponse);
    assert!(matches!(check.on_server_search(false), PortAction::ListHolders));
    assert!(matches!(check.on_holders(true), PortAction::TryConnect));
    assert!(matches!(check.on_connect(false), PortAction::Done(PortStatus::Free)));
}

#[test]
fn other_errors_of_binding_are_handed_on() {
    let mut check = check_port_status("127.0.0.1", 80);
    match check.on_bind_error(BindErrorKind::PermissionDenied, "denied".into()) {
        PortAction::Done(PortStatus::Error { kind, message }) => {
            assert_eq!(kind, BindErrorKind::PermissionDenied);
            assert_eq!(message, "denied");
        }
        _ => panic!("the error must be handed on"),
    }
}

#[test]
fn port_has_active_listener_unless_every_address_refuses() {
    let (connected, refused, unclear) =
        (ConnectResult::Connected, ConnectResult::Refused, ConnectResult::Unclear);
    assert!(port_has_active_listener(Some(&vec![refused, connected])));
    assert!(port_has_active_listener(Some(&vec![refused, unclear])));
    assert!(!port_has_active_listener(Some(&vec![refused, refused])));
    assert!(port_has_active_listener(None));
}

fn failure(status: PortStatus, port: u16) -> (String, String) {
    match probe_port("10.0.0.1", port, &status) {
        ProbeResult::Fail(failure) => {
            assert_eq!(failure.name, "port");
            (failure.problem, failure.fix)
        }
        ProbeResult::Pass { .. } => panic!("the probe must fail"),
    }
}

#[test]
fn probe_port_passes_when_free() {
    assert!(matches!(
        probe_port("10.0.0.1", 8765, &PortStatus::Free),
        ProbeResult::Pass { name: "port" }
    ));
}

#[test]
fn probe_port_fails_when_other_process() {
    let (problem, fix) =
        failure(PortStatus::OtherProcess { description: "It is nginx.".into() }, 8765);
    assert_eq!(problem, "Port 8765 is already in use on 10.0.0.1 by another process. It is nginx.");
    assert_eq!(fix, "Stop the other process using port 8765, or set HTTP_PORT to a different port");
}

#[test]
fn probe_port_fails_when_agent_mail_server_running() {
    let (problem, fix) = failure(PortStatus::AgentMailServer, 8765);
    assert_eq!(problem, "An Agent Mail server is already running on 10.0.0.1:8765");
    assert!(fix.starts_with("Reuse the running server"));
}

#[test]
fn probe_port_explains_errors() {
    let error = |kind| PortStatus::Error { kind, message: "m".into() };
    let (problem, fix) = failure(error(BindErrorKind::PermissionDenied), 80);
    assert_eq!(problem, "Permission denied binding to 10.0.0.1:80");
    assert_eq!(
        fix,
        "Ports below 1024 require elevated privileges. Use HTTP_PORT=1024 or higher"
    );
    let (_, fix) = failure(error(BindErrorKind::PermissionDenied), 1024);
    assert_eq!(fix, "Check your firewall or OS security settings");
    let (problem, fix) = failure(error(BindErrorKind::AddrNotAvailable), 8765);
    assert_eq!(problem, "Address 10.0.0.1:8765 is not available");
    assert_eq!(
        fix,
        "The host \"10.0.0.1\" may not be a valid local address. Try HTTP_HOST=127.0.0.1 or HTTP_HOST=0.0.0.0"
    );
    let (problem, fix) = failure(error(BindErrorKind::Other), 8765);
    assert_eq!(problem, "Cannot bind to 10.0.0.1:8765: m");
    assert_eq!(fix, "Check network configuration and try a different port/host");
}
