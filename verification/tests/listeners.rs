//! Who listens on a port, and the hints that servers leave about themselves.

use agent_mail_guard::listeners::{
    agent_mail_port_holder_pids, agent_mail_port_holder_pids_with_hint, encode_pid_hint_component,
    format_listener_pid_hint, hinted_agent_mail_pid, hinted_pid_matches_listener,
    listener_pid_hint_file_name, listener_port_holder_pids_with_hint,
    parse_listener_pid_hint, parse_lsof_port_holder_pids, parse_lsof_port_holder_pids_for_host,
    parse_ss_port_holder_pids, parse_ss_port_holder_pids_for_host, pid_hint_max_age_secs,
    port_holder_pids, read_listener_pid_hint, uses_tmpdir, ListenerPidHint, PortHolder,
};

const SS_OUTPUT: &str = "LISTEN 0 4096 127.0.0.1:8765 0.0.0.0:* users:((\"am\",pid=1234,fd=7))\nLISTEN 0 4096 127.0.0.2:8765 0.0.0.0:* users:((\"am\",pid=5678,fd=8))\nLISTEN 0 4096 [::1]:8765 [::]:* users:((\"am\",pid=9999,fd=9))\n";

#[test]
fn parse_ss_port_holder_pids_extracts_unique_pids() {
    let output = r#"LISTEN 0 4096 127.0.0.1:8765 0.0.0.0:* users:(("am",pid=1234,fd=7),("helper",pid=5678,fd=8),("am",pid=1234,fd=9))"#;
    assert_eq!(parse_ss_port_holder_pids(output), vec![1234, 5678]);
}

#[test]
fn parse_lsof_port_holder_pids_extracts_unique_pids() {
    let output = "1234\n5678\n1234\n";
    assert_eq!(parse_lsof_port_holder_pids(output), vec![1234, 5678]);
}

#[test]
fn parse_ss_port_holder_pids_for_host_filters_non_matching_hosts() {
    assert_eq!(parse_ss_port_holder_pids_for_host(SS_OUTPUT, "127.0.0.1"), vec![1234, 9999]);
    assert_eq!(parse_ss_port_holder_pids_for_host(SS_OUTPUT, "127.0.0.2"), vec![5678, 9999]);
}

#[test]
fn parse_ss_port_holder_pids_for_wildcard_request_matches_specific_conflicting_hosts() {
    assert_eq!(parse_ss_port_holder_pids_for_host(SS_OUTPUT, "0.0.0.0"), vec![1234, 5678]);
    assert_eq!(parse_ss_port_holder_pids_for_host(SS_OUTPUT, "::"), vec![9999]);
}

#[test]
fn parse_lsof_port_holder_pids_for_host_filters_non_matching_hosts() {
    let output = "p1234\nnTCP 127.0.0.1:8765 (LISTEN)\np5678\nnTCP 127.0.0.2:8765 (LISTEN)\np9999\nnTCP *:8765 (LISTEN)\n";
    assert_eq!(parse_lsof_port_holder_pids_for_host(output, "127.0.0.1"), vec![1234, 9999]);
    assert_eq!(parse_lsof_port_holder_pids_for_host(output, "127.0.0.2"), vec![5678, 9999]);
}

#[test]
fn the_second_tool_is_asked_where_the_first_found_nobody() {
    assert_eq!(port_holder_pids(vec![1], vec![2]), vec![1]);
    assert_eq!(port_holder_pids(Vec::new(), vec![2]), vec![2]);
}

#[test]
fn servers_are_picked_from_those_who_listen() {
    let holders = vec![
        PortHolder { pid: 3, is_agent_mail: false },
        PortHolder { pid: 5, is_agent_mail: true },
    ];
    assert_eq!(agent_mail_port_holder_pids(&holders), vec![5]);
    assert_eq!(agent_mail_port_holder_pids_with_hint(Some(9), &holders), vec![9]);
    assert_eq!(agent_mail_port_holder_pids_with_hint(None, &holders), vec![5]);
    assert_eq!(listener_port_holder_pids_with_hint(Some(9), vec![3, 5]), vec![9]);
    assert_eq!(listener_port_holder_pids_with_hint(None, vec![3, 5]), vec![3, 5]);
}

#[test]
fn listener_pid_hint_path_sanitizes_host() {
    assert_eq!(listener_pid_hint_file_name("::1", 8765), "3a3a31-8765.pid");
}

#[test]
fn listener_pid_hint_path_distinguishes_hosts_that_old_sanitizer_collided() {
    let dotted = listener_pid_hint_file_name("127.0.0.1", 8765);
    let underscored = listener_pid_hint_file_name("127_0_0_1", 8765);
    assert_ne!(dotted, underscored);
}

#[test]
fn an_empty_host_has_a_name_too() {
    assert_eq!(encode_pid_hint_component("  "), encode_pid_hint_component("host"));
    assert_eq!(encode_pid_hint_component(" ä "), "c3a4");
}

fn hint(exe: Option<&str>, created: Option<u64>) -> ListenerPidHint {
    ListenerPidHint {
        pid: 42,
        exe_path: exe.map(|e| e.to_string()),
        created_epoch_secs: created,
    }
}

#[test]
fn a_hint_is_read_as_it_was_written() {
    let written = format_listener_pid_hint(&hint(Some("/usr/bin/am"), Some(1000)), 0);
    assert_eq!(written, "42\n/usr/bin/am\n1000\n");
    assert_eq!(parse_listener_pid_hint(&written), Some(hint(Some("/usr/bin/am"), Some(1000))));
    let written = format_listener_pid_hint(&hint(None, None), 77);
    assert_eq!(written, "42\n\n77\n");
    assert_eq!(parse_listener_pid_hint(&written), Some(hint(None, Some(77))));
    let written = format_listener_pid_hint(&hint(Some(" /opt/my am\r"), Some(5)), 0);
    assert_eq!(parse_listener_pid_hint(&written), Some(hint(Some("/opt/my am"), Some(5))));
    let written = format_listener_pid_hint(&hint(Some("  "), Some(5)), 0);
    assert_eq!(parse_listener_pid_hint(&written), Some(hint(None, Some(5))));
    assert_eq!(parse_listener_pid_hint("x\n"), None);
    assert_eq!(parse_listener_pid_hint(""), None);
}

#[test]
fn a_stale_hint_is_not_believed() {
    let written = format_listener_pid_hint(&hint(None, Some(1000)), 0);
    assert!(read_listener_pid_hint(&written, 1500, 600).is_some());
    assert!(read_listener_pid_hint(&written, 1601, 600).is_none());
    assert_eq!(pid_hint_max_age_secs(Some(" 90 ")), 90);
    assert_eq!(pid_hint_max_age_secs(Some("30")), 60);
    assert_eq!(pid_hint_max_age_secs(None), 86400);
    assert_eq!(pid_hint_max_age_secs(Some("junk")), pid_hint_max_age_secs(None));
}

#[test]
fn a_hint_counts_where_its_process_listens_and_is_ours() {
    let named = hint(Some("/usr/bin/am"), None);
    assert!(hinted_pid_matches_listener(&named, &vec![42], true, false));
    assert!(!hinted_pid_matches_listener(&named, &vec![43], true, true));
    assert!(!hinted_pid_matches_listener(&named, &vec![42], false, false));
    assert_eq!(hinted_agent_mail_pid(Some(&named), &vec![42], true, false), Some(42));
    assert_eq!(hinted_agent_mail_pid(None, &vec![42], true, true), None);
    let unnamed = hint(None, None);
    assert!(hinted_pid_matches_listener(&unnamed, &vec![42], false, true));
}

#[test]
fn a_blank_directory_is_not_used() {
    assert!(uses_tmpdir(Some("/tmp/x")));
    assert!(!uses_tmpdir(Some("  ")));
    assert!(!uses_tmpdir(None));
}
