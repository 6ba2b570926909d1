//! Paths through real directories, and the writing of hints.

use agent_mail_guard::hint_writer::{
    write_listener_pid_hint, write_listener_pid_hint_atomic, HintAction, HintEvent, HintWriter,
};
use agent_mail_guard::real_paths::{
    create_directory_problem, ensure_real_directory_tree_step, path_existing_prefix_has_symlink,
    platform_alias_target, validate_real_existing_directory, validate_real_file_target_path, Entry,
    PathComponent, PathStep, StepAction,
};

fn step(component: PathComponent, current: &str, entry: Entry) -> PathStep {
    PathStep { component, current: current.to_string(), entry }
}

fn named(current: &str, entry: Entry) -> PathStep {
    step(PathComponent::Normal, current, entry)
}

fn root() -> PathStep {
    step(PathComponent::RootDir, "/", Entry::Directory)
}

#[test]
fn directories_are_accepted() {
    let steps = vec![root(), named("/a", Entry::Directory), named("/a/b", Entry::Directory)];
    assert!(validate_real_existing_directory(&steps, "storage", "/a/b").is_ok());
    assert_eq!(path_existing_prefix_has_symlink(&steps, "/a/b"), Ok(false));
}

#[test]
fn probe_storage_root_rejects_symlinked_root() {
    let linked = named("/a", Entry::Symlink { trusted: false });
    assert_eq!(
        ensure_real_directory_tree_step(&linked, "storage directory", "/a").unwrap_err(),
        "storage directory /a must not be a symlink"
    );
    let steps = vec![root(), linked];
    assert_eq!(
        validate_real_existing_directory(&steps, "storage directory", "/a"),
        Err("storage directory /a must not be a symlink".to_string())
    );
    assert_eq!(path_existing_prefix_has_symlink(&steps, "/a"), Ok(true));
}

#[test]
fn an_alias_of_the_platform_is_trusted() {
    let steps = vec![root(), named("/tmp", Entry::Symlink { trusted: true })];
    assert!(validate_real_existing_directory(&steps, "x", "/tmp").is_ok());
    assert_eq!(path_existing_prefix_has_symlink(&steps, "/tmp"), Ok(false));
    assert_eq!(platform_alias_target("/tmp"), Some("/private/tmp"));
    assert_eq!(platform_alias_target("/etc"), Some("/private/etc"));
    assert_eq!(platform_alias_target("/var"), Some("/private/var"));
    assert_eq!(platform_alias_target("/home"), None);
}

#[test]
fn steps_upwards_are_refused() {
    let steps = vec![root(), step(PathComponent::ParentDir, "/", Entry::Directory)];
    assert_eq!(
        validate_real_existing_directory(&steps, "storage", "/.."),
        Err("refusing to traverse storage with parent traversal: /..".to_string())
    );
    assert_eq!(
        path_existing_prefix_has_symlink(&steps, "/.."),
        Err("refusing to traverse listener PID hint path with parent traversal: /..".to_string())
    );
}

#[test]
fn a_missing_directory_is_created_or_reported() {
    let missing = named("/a", Entry::Missing);
    assert!(matches!(
        ensure_real_directory_tree_step(&missing, "storage", "/a"),
        Ok(StepAction::Create)
    ));
    assert_eq!(
        validate_real_existing_directory(&vec![missing], "storage", "/a"),
        Err("storage /a does not exist".to_string())
    );
    assert_eq!(create_directory_problem("storage", "/a", "e"), "cannot create storage /a: e");
}

#[test]
fn a_file_in_the_way_is_reported() {
    for entry in [Entry::File, Entry::Special] {
        assert_eq!(
            validate_real_existing_directory(&vec![named("/a", entry)], "storage", "/a"),
            Err("storage /a exists but is not a directory".to_string())
        );
    }
    let unreadable = named("/a", Entry::Unreadable { error: "denied".into() });
    assert_eq!(
        validate_real_existing_directory(&vec![unreadable], "storage", "/a"),
        Err("denied".to_string())
    );
}

#[test]
fn a_target_is_a_file_or_nothing() {
    let target = |entry| validate_real_file_target_path(None, &entry, "database path", "/d");
    assert!(target(Entry::File).is_ok());
    assert!(target(Entry::Missing).is_ok());
    assert_eq!(
        target(Entry::Symlink { trusted: true }),
        Err("database path /d must not be a symlink".to_string())
    );
    assert_eq!(
        target(Entry::Directory),
        Err("database path /d exists but is not a file".to_string())
    );
    let steps = vec![named("p", Entry::Missing)];
    assert_eq!(
        validate_real_file_target_path(Some((&steps, "p")), &Entry::File, "database path", "p/d"),
        Err("database path parent p does not exist".to_string())
    );
}

fn writer() -> HintWriter {
    write_listener_pid_hint_atomic("/t/h.pid", "/t/", Some("h.pid"), "9\n\n5\n", 9)
}

fn failed(action: HintAction) -> (String, bool) {
    match action {
        HintAction::Fail { error, remove_temp } => (error, remove_temp),
        _ => panic!("the writing must fail"),
    }
}

#[test]
fn write_listener_pid_hint_replaces_existing_hint_file() {
    let mut writer = writer();
    assert!(matches!(writer.first_action(), HintAction::OpenTemp { name } if name == ".h.pid.tmp-9-0"));
    assert!(matches!(
        writer.on_event(HintEvent::Done),
        HintAction::WriteTemp { content } if content == "9\n\n5\n"
    ));
    assert!(matches!(writer.on_event(HintEvent::Done), HintAction::SyncTemp));
    assert!(matches!(writer.on_event(HintEvent::Done), HintAction::Rename));
    assert!(matches!(
        writer.on_event(HintEvent::Exists { error: "there".into() }),
        HintAction::RemoveTarget
    ));
    assert!(matches!(
        writer.on_event(HintEvent::Missing { error: "gone".into() }),
        HintAction::RenameAgain
    ));
    assert!(matches!(writer.on_event(HintEvent::Done), HintAction::Finished));
}

/// Two files in memory: the temporary one and the hint.
fn write_out(writer: &mut HintWriter, fail_at: usize) -> (Option<String>, bool) {
    let mut temp: Option<String> = None;
    let mut target = Some("old".to_string());
    let mut action = writer.first_action();
    for step in 0.. {
        let fails = step == fail_at;
        match action {
            HintAction::Finished => return (target, true),
            HintAction::Fail { .. } => return (target, false),
            HintAction::OpenTemp { .. } if !fails => temp = Some(String::new()),
            HintAction::WriteTemp { content } => {
                let end = if fails { 1 } else { content.len() };
                temp = Some(content[..end].to_string());
            }
            HintAction::Rename if !fails => target = temp.take(),
            _ => {}
        }
        let event = if fails {
            HintEvent::Failed { error: "full".into() }
        } else {
            HintEvent::Done
        };
        action = writer.on_event(event);
    }
    (target, false)
}

#[test]
fn a_hint_is_published_as_a_whole_or_not_at_all() {
    let hint = || write_listener_pid_hint("/t/h.pid", "/t/", Some("h.pid"), 9, Some("/am".into()), 5);
    let text = "9\n/am\n5\n".to_string();
    assert_eq!(hint().content, text);
    assert_eq!(write_out(&mut hint(), 99), (Some(text), true));
    for fail_at in 0..4 {
        assert_eq!(write_out(&mut hint(), fail_at), (Some("old".to_string()), false), "{fail_at}");
    }
}

#[test]
fn names_that_are_taken_lead_to_the_next_one() {
    let mut writer = writer();
    let mut names = 1;
    loop {
        match writer.on_event(HintEvent::Exists { error: "there".into() }) {
            HintAction::OpenTemp { name } => {
                assert_eq!(name, format!(".h.pid.tmp-9-{names}"));
                names += 1;
            }
            action => {
                assert_eq!(
                    failed(action),
                    (
                        "failed to allocate unique staged listener PID hint next to /t/h.pid".into(),
                        false
                    )
                );
                break;
            }
        }
    }
    assert_eq!(names, 64);
}

#[test]
fn a_failed_write_removes_the_temporary_file() {
    let mut first = writer();
    assert_eq!(
        failed(first.on_event(HintEvent::Denied { error: "e".into() })),
        ("open staged listener PID hint /t/.h.pid.tmp-9-0: e".into(), false)
    );
    let mut second = writer();
    second.on_event(HintEvent::Done);
    assert_eq!(
        failed(second.on_event(HintEvent::Failed { error: "full".into() })),
        ("write staged listener PID hint /t/.h.pid.tmp-9-0: full".into(), true)
    );
    let mut third = writer();
    third.on_event(HintEvent::Done);
    third.on_event(HintEvent::Done);
    assert_eq!(
        failed(third.on_event(HintEvent::Failed { error: "e".into() })),
        ("sync staged listener PID hint /t/.h.pid.tmp-9-0: e".into(), true)
    );
}

fn at_publish() -> HintWriter {
    let mut writer = writer();
    for _ in 0..3 {
        writer.on_event(HintEvent::Done);
    }
    writer
}

#[test]
fn a_failed_publication_is_explained() {
    assert_eq!(
        failed(at_publish().on_event(HintEvent::Failed { error: "e".into() })),
        ("publish listener PID hint /t/h.pid: e".into(), true)
    );
    assert_eq!(
        failed(at_publish().on_event(HintEvent::Invalid { problem: "a link".into() })),
        ("a link".into(), true)
    );
    let mut replaced = at_publish();
    replaced.on_event(HintEvent::Denied { error: "first".into() });
    assert_eq!(
        failed(replaced.on_event(HintEvent::Failed { error: "second".into() })),
        (
            "replace existing listener PID hint /t/h.pid after rename failure (first): second".into(),
            true
        )
    );
    let mut again = at_publish();
    again.on_event(HintEvent::Denied { error: "first".into() });
    again.on_event(HintEvent::Done);
    assert_eq!(
        failed(again.on_event(HintEvent::Exists { error: "third".into() })),
        (
            "publish replacement listener PID hint /t/h.pid after rename failure (first): third"
                .into(),
            true
        )
    );
}

#[test]
fn a_path_without_a_name_gets_one() {
    let writer = write_listener_pid_hint_atomic("/", "/", None, "", 1);
    assert!(matches!(
        writer.first_action(),
        HintAction::OpenTemp { name } if name == ".listener-pid-hint.tmp-1-0"
    ));
}
