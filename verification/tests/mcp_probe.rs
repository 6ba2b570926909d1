//! Asking a listener whether it is a server of ours.

use agent_mail_guard::mcp_probe::{
    agent_mail_mcp_probe_addrs, has_agent_mail_signature, mcp_probe_request,
    normalize_mcp_probe_path, parse_content_length, probe_agent_mail_mcp_addr,
    probe_agent_mail_mcp_blocking, AnswerReader, AnswerVerdict, HealthProbeStatus, PROBE_BODY,
};

#[test]
fn parse_content_length_ignores_case_and_whitespace() {
    let headers = "Content-Type: application/json\r\ncontent-length: 18\r\n";
    assert_eq!(parse_content_length(headers), Some(18));
}

#[test]
fn agent_mail_health_signature_header_is_detected() {
    let headers = "Content-Type: application/json\r\nX-Agent-Mail-Health: 1\r\n";
    assert!(has_agent_mail_signature(headers));
}

#[test]
fn server_header_alone_is_not_agent_mail_signature() {
    let headers = "Content-Type: application/json\r\nServer: mcp-agent-mail-test\r\n";
    assert!(!has_agent_mail_signature(headers));
}

#[test]
fn a_content_length_must_be_a_number() {
    assert_eq!(parse_content_length("Content-Length: many\r\n"), None);
    assert_eq!(parse_content_length("Server: x\r\n"), None);
}

#[test]
fn a_probe_path_is_framed_by_slashes() {
    assert_eq!(normalize_mcp_probe_path("mcp"), normalize_mcp_probe_path("/mcp/"));
    assert!(normalize_mcp_probe_path("api").starts_with('/'));
}

#[test]
fn a_request_names_its_host_and_length() {
    let request = mcp_probe_request("127.0.0.1", 8765, "/mcp/");
    assert!(request.starts_with("POST "), "{request}");
    assert!(request.contains("127.0.0.1:8765"));
    assert!(request.contains(&format!("Content-Length: {}\r\n", PROBE_BODY.len())), "{request}");
    assert!(request.ends_with(PROBE_BODY));
}

fn read(lines: &[&str]) -> AnswerVerdict {
    let mut reader = AnswerReader::new();
    for line in lines {
        match reader.take_line(Some(line)) {
            AnswerVerdict::More => {}
            verdict => return verdict,
        }
    }
    reader.take_line(None)
}

#[test]
fn a_signed_answer_is_ours() {
    let signed = ["HTTP/1.1 200 OK\r\n", "X-Agent-Mail-Health: 1\r\n", "\r\n"];
    assert_eq!(read(&signed), AnswerVerdict::Ours);
    let refused = ["HTTP/1.1 401 Unauthorized\r\n", "x-agent-mail-health: 1\r\n", "\r\n"];
    assert_eq!(read(&refused), AnswerVerdict::Ours);
}

#[test]
fn signed_mcp_post_405_is_not_treated_as_agent_mail() {
    let wrong = ["HTTP/1.1 405 Method Not Allowed\r\n", "X-Agent-Mail-Health: 1\r\n", "\r\n"];
    assert_eq!(read(&wrong), AnswerVerdict::NotOurs);
}

#[test]
fn generic_ready_json_without_signature_is_not_agent_mail() {
    let plain = ["HTTP/1.1 200 OK\r\n", "Content-Type: application/json\r\n", "\r\n"];
    assert_eq!(read(&plain), AnswerVerdict::NotOurs);
}

#[test]
fn headers_must_end_and_not_be_too_large() {
    let open = ["HTTP/1.1 200 OK\r\n", "X-Agent-Mail-Health: 1\r\n", ""];
    assert_eq!(read(&open), AnswerVerdict::NotOurs);
    let signature = "X-Agent-Mail-Health: 1\r\n";
    let fits = format!("A: {}\r\n", "x".repeat(4096 - signature.len() - 5));
    let large = format!("A: {}\r\n", "x".repeat(4096 - signature.len() - 4));
    assert_eq!(read(&["HTTP/1.1 200 OK\r\n", &fits, signature, "\r\n"]), AnswerVerdict::Ours);
    assert_eq!(read(&["HTTP/1.1 200 OK\r\n", &large, signature, "\r\n"]), AnswerVerdict::NotOurs);
}

#[test]
fn mcp_probe_tries_all_resolved_addresses() {
    let none = HealthProbeStatus::NoResponse;
    let other = HealthProbeStatus::OtherListener;
    let ours = HealthProbeStatus::AgentMailServer;
    assert_eq!(agent_mail_mcp_probe_addrs(&vec![none, ours]), ours);
    assert_eq!(agent_mail_mcp_probe_addrs(&vec![other, ours]), ours);
    assert_eq!(agent_mail_mcp_probe_addrs(&vec![none, other]), other);
    assert_eq!(agent_mail_mcp_probe_addrs(&vec![none, none]), none);
    assert_eq!(agent_mail_mcp_probe_addrs(&Vec::new()), none);
    assert!(probe_agent_mail_mcp_blocking(ours));
    assert!(!probe_agent_mail_mcp_blocking(other));
}

#[test]
fn an_address_that_does_not_connect_does_not_answer() {
    assert_eq!(probe_agent_mail_mcp_addr(false, true), HealthProbeStatus::NoResponse);
    assert_eq!(probe_agent_mail_mcp_addr(true, true), HealthProbeStatus::AgentMailServer);
    assert_eq!(probe_agent_mail_mcp_addr(true, false), HealthProbeStatus::OtherListener);
}
