//! Installing the guard as a hook, and the texts of the hook and its plugin.

use agent_mail_guard::chain_runner::{render_chain_runner_script, sentinel};
use agent_mail_guard::guard::{GuardError, GuardMode};
use agent_mail_guard::hooks::{
    config_level_label, env_allows_global_hookspath, expand_user, guard_status, guard_temp_name,
    has_other_plugins, home_dir, hooks_to_install, hookspath_level_refuses_install, install_guard,
    is_legacy_single_file_guard, is_truthy_value, require_existing, require_worktree,
    resolve_common_git_dir, resolve_hooks_dir, resolve_install_hooks_dir, uninstall_guard,
    ConfigLevel, ExpandedPath, HomeSource, HookFiles, HookRemoval, HooksDir, PluginEntry,
    PLUGIN_FILE_NAME,
};
use agent_mail_guard::plugin::render_guard_plugin_script;
use agent_mail_guard::push_scan::{
    PushScanLimits, PUSH_MAX_COMMITS_ENV, PUSH_MAX_PATHS_ENV, PUSH_TIMEOUT_ENV,
};

fn entry(is_file: bool, name: &str) -> PluginEntry {
    PluginEntry { is_file, name: Some(name.to_string()) }
}

#[test]
fn truthy_value_parsing_matches_legacy() {
    assert!(is_truthy_value(Some("1")));
    assert!(is_truthy_value(Some(" true ")));
    assert!(is_truthy_value(Some("T")));
    assert!(is_truthy_value(Some("yes")));
    assert!(is_truthy_value(Some("Y")));

    assert!(!is_truthy_value(Some("0")));
    assert!(!is_truthy_value(Some("false")));
    assert!(!is_truthy_value(Some("no")));
    assert!(!is_truthy_value(Some("")));
    assert!(!is_truthy_value(None));
}

#[test]
fn resolve_hooks_dir_follows_the_configuration() {
    assert!(matches!(resolve_hooks_dir(None), HooksDir::Common));
    assert!(matches!(resolve_hooks_dir(Some("  ")), HooksDir::Common));
    assert!(matches!(resolve_hooks_dir(Some(".githooks")), HooksDir::Configured(p) if p == ".githooks"));
    assert!(matches!(resolve_hooks_dir(Some("/alt/hooks")), HooksDir::Configured(p) if p == "/alt/hooks"));
}

#[test]
fn install_hooks_dir_refuses_a_machine_wide_path() {
    assert!(matches!(
        resolve_install_hooks_dir(Some(".husky"), ConfigLevel::Local, false),
        Ok(HooksDir::Configured(p)) if p == ".husky"
    ));
    assert!(matches!(
        resolve_install_hooks_dir(None, ConfigLevel::Global, false),
        Ok(HooksDir::Common)
    ));
    match resolve_install_hooks_dir(Some("/etc/hooks"), ConfigLevel::Global, false) {
        Err(GuardError::GlobalHooksPath { hooks_path, origin }) => {
            assert_eq!(hooks_path, "/etc/hooks");
            assert_eq!(origin, config_level_label(ConfigLevel::Global));
        }
        _ => panic!("a machine-wide path must be refused"),
    }
    assert!(resolve_install_hooks_dir(Some("/etc/hooks"), ConfigLevel::Global, true).is_ok());
}

#[test]
fn hookspath_level_refusal_matrix() {
    assert!(hookspath_level_refuses_install(ConfigLevel::Global, false));
    assert!(hookspath_level_refuses_install(ConfigLevel::System, false));
    assert!(hookspath_level_refuses_install(ConfigLevel::XDG, false));
    assert!(!hookspath_level_refuses_install(ConfigLevel::Global, true));
    assert!(!hookspath_level_refuses_install(ConfigLevel::Local, false));
    assert!(!hookspath_level_refuses_install(ConfigLevel::Worktree, false));
    assert!(!hookspath_level_refuses_install(ConfigLevel::App, false));
}

#[test]
fn a_machine_wide_path_is_allowed_by_a_true_value() {
    assert!(env_allows_global_hookspath(Some("1")));
    assert!(env_allows_global_hookspath(Some(" Yes ")));
    assert!(!env_allows_global_hookspath(Some("0")));
    assert!(!env_allows_global_hookspath(None));
}

#[test]
fn the_home_directory_is_expanded_where_it_is_known() {
    assert!(matches!(expand_user("~", true), ExpandedPath::Home));
    assert!(matches!(expand_user("~/hooks", true), ExpandedPath::BelowHome(p) if p == "hooks"));
    assert!(matches!(expand_user("~/hooks", false), ExpandedPath::Plain(p) if p == "~/hooks"));
    assert!(matches!(expand_user("~other", true), ExpandedPath::Plain(p) if p == "~other"));
    assert!(matches!(home_dir(true, true, true, true), HomeSource::Home));
    assert!(matches!(home_dir(false, true, true, true), HomeSource::UserProfile));
    assert!(matches!(home_dir(false, false, true, true), HomeSource::DriveAndPath));
    assert!(matches!(home_dir(false, false, true, false), HomeSource::Unknown));
}

#[test]
fn a_worktree_shares_the_common_directory() {
    assert_eq!(resolve_common_git_dir(Some("../..\n")), Some("../..".to_string()));
    assert_eq!(resolve_common_git_dir(Some(" \n")), None);
    assert_eq!(resolve_common_git_dir(None), None);
}

#[test]
fn guard_status_invalid_repo_returns_error() {
    let result = require_existing(false, "does_not_exist");
    assert!(result.is_err());
    let err = result.unwrap_err();
    assert!(
        matches!(err, GuardError::InvalidRepo { .. }),
        "expected InvalidRepo, got: {err:?}"
    );
    assert!(require_existing(true, "repo").is_ok());
}

#[test]
fn a_bare_repository_has_no_hooks_of_ours() {
    assert!(require_worktree(false, true, "r").is_ok());
    assert!(matches!(require_worktree(true, true, "r"), Err(GuardError::InvalidRepo { path }) if path == "r"));
    assert!(matches!(require_worktree(false, false, "r"), Err(GuardError::InvalidRepo { .. })));
}

#[test]
fn install_and_uninstall_guard_preserves_existing_hook() {
    let files = HookFiles {
        hook: Some("#!/bin/sh\necho original\n".to_string()),
        has_orig: false,
        has_cmd: false,
        has_ps1: true,
    };
    let install = install_guard("/abs/path/backend", "pre-commit", &files);
    assert!(install.back_up);
    assert!(
        install.chain_script.contains("mcp-agent-mail chain-runner (pre-commit)"),
        "expected chain-runner sentinel"
    );
    assert!(install.cmd.is_some());
    assert!(install.ps1.is_none());
    assert!(install.plugin.contains("mcp-agent-mail guard plugin (pre-commit)"));
    assert_eq!(PLUGIN_FILE_NAME, "50-agent-mail.py");

    let ours = vec![entry(true, PLUGIN_FILE_NAME)];
    assert!(matches!(uninstall_guard(&install.chain_script, &ours), HookRemoval::RemoveChain));
}

#[test]
fn an_installed_hook_is_not_backed_up_again() {
    let files = HookFiles {
        hook: Some(render_chain_runner_script("pre-push")),
        has_orig: false,
        has_cmd: true,
        has_ps1: true,
    };
    let install = install_guard("/p", "pre-push", &files);
    assert!(!install.back_up);
    let first = HookFiles { hook: None, has_orig: false, has_cmd: false, has_ps1: false };
    assert!(!install_guard("/p", "pre-push", &first).back_up);
}

#[test]
fn a_hook_with_other_plugins_stays() {
    let chain = render_chain_runner_script("pre-commit");
    let others = vec![entry(true, "10-lint.sh")];
    assert!(has_other_plugins(&others));
    assert!(matches!(uninstall_guard(&chain, &others), HookRemoval::Keep));
    let hidden = vec![entry(false, "subdir")];
    assert!(!has_other_plugins(&hidden));
    assert!(matches!(uninstall_guard("#!/bin/sh\n", &Vec::new()), HookRemoval::Keep));
}

#[test]
fn guard_status_after_install_shows_pre_commit_present() {
    let chain = render_chain_runner_script("pre-commit");
    let status =
        guard_status(GuardMode::Block, "/repo/.git/hooks".to_string(), Some(&chain), None, false);
    assert!(status.pre_commit_present, "pre-commit hook should be detected after install");
    assert!(!status.pre_push_present);
    assert!(status.hooks_dir.contains("hooks"), "hooks_dir should point to hooks directory");
}

#[test]
fn guard_status_on_fresh_repo_no_guard_installed() {
    let status = guard_status(GuardMode::Warn, String::new(), None, Some("#!/bin/sh\n"), false);
    assert!(!status.pre_commit_present);
    assert!(!status.pre_push_present);
    assert!(!status.worktrees_enabled);
    assert!(matches!(status.guard_mode, GuardMode::Warn));
}

#[test]
fn guard_status_worktrees_detected_when_hooks_path_set() {
    let status = guard_status(GuardMode::Block, "/some/hooks".to_string(), None, None, true);
    assert!(
        status.worktrees_enabled,
        "worktrees_enabled should be true when core.hooksPath is set"
    );
}

#[test]
fn a_temporary_name_tells_the_process() {
    assert_eq!(guard_temp_name("pre-commit", 42), ".pre-commit.42.tmp");
}

#[test]
fn the_push_hook_is_installed_on_request() {
    assert_eq!(hooks_to_install(false), vec!["pre-commit"]);
    assert_eq!(hooks_to_install(true), vec!["pre-commit", "pre-push"]);
}

#[test]
fn a_chain_runner_is_no_legacy_guard() {
    assert!(!is_legacy_single_file_guard("#!/bin/sh\necho hello\n"));
    assert!(!is_legacy_single_file_guard(&render_chain_runner_script("pre-commit")));
}

#[test]
fn the_chain_runner_names_its_hook() {
    for hook in ["pre-commit", "pre-push"] {
        let script = render_chain_runner_script(hook);
        assert!(script.starts_with("#!/usr/bin/env python3\n"));
        assert!(script.contains(&sentinel(hook)));
        assert!(script.contains(&format!("{hook}.orig")));
    }
    assert_eq!(sentinel("pre-push"), "mcp-agent-mail chain-runner (pre-push)");
    assert!(render_chain_runner_script("pre-push").contains("stdin"));
}

#[test]
fn render_guard_plugin_script_uses_valid_python_booleans_in_slugify() {
    let script = render_guard_plugin_script("/abs/path/backend", "pre-commit");
    assert!(
        script.contains("prev_dash = False"),
        "slugify helper should emit valid Python booleans"
    );
    assert!(
        script.contains("prev_dash = True"),
        "slugify helper should emit valid Python booleans"
    );
    assert!(
        !script.contains("prev_dash = false"),
        "slugify helper must not emit Rust-style lowercase booleans"
    );
}

#[test]
fn guard_plugin_script_contains_project() {
    let script = render_guard_plugin_script("/my/project", "pre-commit");
    assert!(script.contains("mcp-agent-mail guard plugin (pre-commit)"));
    assert!(script.contains("PROJECT = \"/my/project\""));
    assert!(script.contains("get_staged_files"));
    assert!(script.contains("check_conflicts"));
    assert!(script.contains("def glob_to_regex"));
    assert!(script.contains("core.ignorecase"));
    assert!(script.contains("def resolve_identity_agent_name"));
    assert!(script.contains("def is_default_exempt_path"));
    assert!(script.contains("def check_conflicts(paths, reservations, self_agent):"));
    assert!(script.contains("self_agent = self_agent.lower()"));
    assert!(script.contains("if holder.lower() == self_agent:"));
    assert!(script.contains("has_glob = any(c in pattern for c in \"*?[{\")"));
    assert!(script.contains("record.get(\"path_pattern\") or record.get(\"path\")"));
    assert!(script.contains("def resolve_archive_root"));
    assert!(script.contains("def looks_like_project_slug"));
    assert!(script.contains("project.json"));
    assert!(script.contains("STORAGE_ROOT"));
    assert!(script.contains("project_value_is_slug = looks_like_project_slug(project_value)"));
    assert!(script.contains("\"/\" not in name"));
    assert!(script.contains("AGENT_NAME is unset and no current-pane identity"));
    assert!(script.contains("sys.exit(2)"));
}

#[test]
fn guard_plugin_glob_matcher_is_fnmatch_translate_free() {
    for hook in ["pre-commit", "pre-push"] {
        let script = render_guard_plugin_script("/abs/project", hook);
        assert!(
            !script.contains("fnmatch.translate("),
            "guard {hook} must not call fnmatch.translate (unstable across Python versions)"
        );
        assert!(
            !script.contains("\nimport fnmatch\n"),
            "guard {hook} must not import fnmatch (no longer used)"
        );
        assert!(
            script.contains("def _glob_translate_body(pattern):"),
            "guard {hook} must use the version-agnostic glob compiler"
        );
        assert!(
            script.contains("treating as a conflict (fail-closed)"),
            "guard {hook} must fail closed when a reservation pattern cannot be evaluated"
        );
    }
}

#[test]
fn rendered_pre_push_hook_is_batched_and_bounded() {
    let script = render_guard_plugin_script("/abs/project", "pre-push");
    assert!(
        script.contains("\"-z\", \"--cc\", \"--stdin\"]"),
        "diff-tree must take its commit list on stdin"
    );
    assert!(!script.contains("for sha in commits:"), "no per-commit git process loop");
    assert!(script.contains("def compile_reservations(reservations, self_agent):"));
    assert!(script.contains("def push_scan_bound(name, default):"));
    for (name, default) in [
        (PUSH_MAX_COMMITS_ENV, PushScanLimits::DEFAULT_MAX_COMMITS),
        (PUSH_MAX_PATHS_ENV, PushScanLimits::DEFAULT_MAX_PATHS),
        (PUSH_TIMEOUT_ENV, PushScanLimits::DEFAULT_TIMEOUT_SECS),
    ] {
        assert!(script.contains(&format!("\"{name}\"")), "{name} missing");
        assert!(
            script.contains(&format!("_DEFAULT = {default}\n")),
            "default {default} for {name} must match the Rust scan"
        );
    }
}

#[test]
fn a_project_with_quotes_stays_on_one_line() {
    let script = render_guard_plugin_script("/a\"b\\c\nd\u{1}é", "pre-commit");
    assert!(script.contains("PROJECT = \"/a\\\"b\\\\c\\nd\\u0001é\"\n"), "{}", &script[..400]);
}
