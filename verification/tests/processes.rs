//! What is known of other processes and of the files they hold.

use agent_mail_guard::processes::{
    agent_mail_pids_all_stopped, agent_mail_pids_holding_file,
    command_line_has_agent_mail_signature, command_line_starts_with_process_path,
    executable_name_has_agent_mail_signature, identify_lock_holder, identify_lock_holder_via_proc,
    other_process, parse_lsof_file_holders, parse_proc_stat_state, parse_ps_output_value,
    pid_command_line, pid_is_agent_mail, pid_is_stopped, pids_holding_file,
    process_path_prefix_matches, FileId, OpenFile, ProcessFiles,
};

#[test]
fn command_line_signature_rejects_unrelated_processes() {
    assert!(!command_line_has_agent_mail_signature(
        "/usr/bin/python worker.py --label=mcp-agent-mail"
    ));
    assert!(!executable_name_has_agent_mail_signature("python3"));
    assert!(!executable_name_has_agent_mail_signature("node"));
}

#[test]
fn command_line_signature_accepts_am_binary() {
    assert!(command_line_has_agent_mail_signature("/usr/local/bin/am serve"));
    assert!(executable_name_has_agent_mail_signature("am"));
    assert!(executable_name_has_agent_mail_signature("agent-mail"));
}

#[test]
fn command_line_signature_accepts_agent_mail_binary_names() {
    assert!(command_line_has_agent_mail_signature("/usr/local/bin/mcp-agent-mail serve"));
    assert!(command_line_has_agent_mail_signature("/opt/tools/mcp_agent_mail daemon"));
    assert!(command_line_has_agent_mail_signature(
        "/home/ubuntu/.cargo/bin/mcp-agent-mail-cli serve-http"
    ));
    assert!(executable_name_has_agent_mail_signature("mcp-agent-mail"));
    assert!(executable_name_has_agent_mail_signature("mcp-agent-mail-cli"));
    assert!(executable_name_has_agent_mail_signature("mcp_agent_mail.exe"));
    assert!(executable_name_has_agent_mail_signature("mcp_agent_mail_cli.exe"));
}

#[test]
fn a_process_is_ours_by_its_command_or_its_executable() {
    assert!(pid_is_agent_mail(Some("/usr/local/bin/am serve"), None));
    assert!(pid_is_agent_mail(None, Some("am")));
    assert!(!pid_is_agent_mail(Some("python"), Some("python3")));
    assert!(!pid_is_agent_mail(None, None));
}

#[test]
fn process_path_prefix_matches_handles_spaces_in_executable_path() {
    let command = "/Applications/Agent Mail.app/Contents/MacOS/mcp-agent-mail serve --no-auth";
    let executable_path = "/Applications/Agent Mail.app/Contents/MacOS/mcp-agent-mail";
    assert!(process_path_prefix_matches(command, executable_path));
    assert!(command_line_starts_with_process_path(command, executable_path, None));
}

#[test]
fn process_path_prefix_matches_rejects_partial_prefixes() {
    let command = "/opt/tools/mcp-agent-mail-helper serve";
    assert!(!process_path_prefix_matches(command, "/opt/tools/mcp-agent-mail"));
}

#[test]
fn a_path_is_also_known_by_what_it_leads_to() {
    let command = "/real/am serve";
    assert!(!command_line_starts_with_process_path(command, "/link/am", None));
    assert!(command_line_starts_with_process_path(command, "/link/am", Some("/real/am")));
    assert!(!command_line_starts_with_process_path(command, "  ", Some("/real/am")));
}

#[test]
fn parse_ps_output_value_uses_first_nonempty_trimmed_line() {
    assert_eq!(
        parse_ps_output_value(b"\n  /usr/local/bin/mcp-agent-mail  \nignored\n"),
        Some("/usr/local/bin/mcp-agent-mail".to_string())
    );
    assert_eq!(parse_ps_output_value(b" \n\n"), None);
}

#[test]
fn parse_proc_stat_state_extracts_state_after_command_name() {
    assert_eq!(parse_proc_stat_state("123 (am) T 1 2 3 4"), Some('T'));
    assert_eq!(parse_proc_stat_state("124 (am worker) t 1 2 3 4"), Some('t'));
}

#[test]
fn a_command_name_may_hold_brackets() {
    assert_eq!(parse_proc_stat_state("125 (a) b) S 1"), Some('S'));
    assert_eq!(parse_proc_stat_state("no bracket"), None);
    assert_eq!(parse_proc_stat_state("1 (a)"), None);
}

#[test]
fn stopped_processes_are_told_from_running_ones() {
    assert!(pid_is_stopped(Some('T')));
    assert!(pid_is_stopped(Some('t')));
    assert!(!pid_is_stopped(Some('S')));
    assert!(!pid_is_stopped(None));
    assert!(agent_mail_pids_all_stopped(&vec![Some('T'), Some('t')]));
    assert!(!agent_mail_pids_all_stopped(&vec![Some('T'), Some('R')]));
    assert!(!agent_mail_pids_all_stopped(&Vec::new()));
}

#[test]
fn a_command_line_is_shown_with_spaces() {
    assert_eq!(pid_command_line(b"/bin/am\0serve\0\0"), Some("/bin/am serve".to_string()));
    assert_eq!(pid_command_line(b""), None);
    assert_eq!(pid_command_line(b"\0\0"), None);
}

fn process(name: &str, ours: bool, files: Vec<OpenFile>) -> ProcessFiles {
    ProcessFiles { name: name.to_string(), is_agent_mail: ours, files }
}

#[test]
fn holders_of_a_file_are_found_by_path_and_identity() {
    let target = FileId { dev: 1, ino: 7 };
    let held = OpenFile { same_path: true, file: Some(target) };
    let gone = OpenFile { same_path: true, file: None };
    let elsewhere = OpenFile { same_path: false, file: Some(target) };
    let other = OpenFile { same_path: false, file: Some(FileId { dev: 1, ino: 8 }) };
    let processes = vec![
        process("10", true, vec![other, held]),
        process("11", false, vec![held, held]),
        process("12", true, vec![other, gone, elsewhere]),
        process("13", true, vec![held]),
        process("self", true, vec![held]),
    ];
    assert_eq!(pids_holding_file(&processes, target, 13), vec![10, 11]);
    assert_eq!(agent_mail_pids_holding_file(&processes, target, 13), vec![10]);
    assert_eq!(other_process("13", 13), None);
    assert_eq!(other_process("14", 13), Some(14));
}

#[test]
fn lists_of_holders_are_read() {
    assert_eq!(parse_lsof_file_holders("10\n11 12\n10\nx\n", 12), vec![10, 11, 10]);
}

#[test]
fn the_holder_of_a_lock_is_found_by_its_file() {
    let target = FileId { dev: 0x0802, ino: 4242 };
    let locks = "1: POSIX  ADVISORY  WRITE 500 08:02:4242 0 EOF\n2: FLOCK  ADVISORY  WRITE 1234 08:02:4242 0 EOF\n3: FLOCK  ADVISORY  WRITE 99 08:02:1 0 EOF\n";
    assert_eq!(identify_lock_holder_via_proc(locks, target), Some(1234));
    assert_eq!(identify_lock_holder_via_proc(locks, FileId { dev: 0x0802, ino: 5 }), None);
}

#[test]
fn a_holder_is_described() {
    let holder = identify_lock_holder(5, Some("/usr/bin/python3 worker.py".to_string()));
    assert_eq!(holder.pid, 5);
    assert_eq!(holder.cmdline, "/usr/bin/python3 worker.py");
    assert!(holder.is_python);
    let holder = identify_lock_holder(6, None);
    assert!(!holder.is_python);
    assert!(holder.cmdline.contains('6'), "{}", holder.cmdline);
}
