use declarch_core::commands::ext::{discovered_extensions, discovered_extensions_on, extension_prefix, normalize_ext_name, normalize_ext_name_on, run};
use declarch_core::commands::hooks::{
    execute_hooks, execute_pre_install, execute_pre_sync, hook_argv, validate_hook_command, ActionType,
    ErrorBehavior, HookOutcome, HookPlan, LifecycleAction, LifecycleConfig, LifecyclePhase,
};

fn sample_hook(command: &str, error_behavior: ErrorBehavior) -> LifecycleAction {
    LifecycleAction {
        command: command.to_string(),
        action_type: ActionType::User,
        phase: LifecyclePhase::PreSync,
        package: None,
        error_behavior,
    }
}

fn failing_launch(_argv: &Vec<String>, _sudo: bool) -> HookOutcome {
    HookOutcome::SpawnFailed { not_found: true, error: "No such file or directory (os error 2)".to_string() }
}

#[test]
fn ext_normalize_keeps_unix_name() {
    assert_eq!(normalize_ext_name_on("declarch-ext-security", false), "declarch-ext-security");
    assert_eq!(normalize_ext_name("declarch-ext-security"), "declarch-ext-security");
}

#[test]
fn ext_normalize_windows_suffixes() {
    assert_eq!(normalize_ext_name_on("declarch-ext-security.exe", true), "declarch-ext-security");
    assert_eq!(normalize_ext_name_on("declarch-ext-security.cmd", true), "declarch-ext-security");
}

#[test]
fn tests_normalize_keeps_unix_name() {
    let sample = format!("{}security", extension_prefix());
    assert_eq!(normalize_ext_name(&sample), sample);
}

#[test]
fn tests_normalize_windows_suffixes() {
    let sample = format!("{}security", extension_prefix());
    assert_eq!(normalize_ext_name_on(&format!("{}.exe", sample), true), sample);
    assert_eq!(normalize_ext_name_on(&format!("{}.cmd", sample), true), sample);
}

#[test]
fn windows_suffix_only_stripped_on_windows() {
    assert_eq!(normalize_ext_name_on("declarch-ext-a.ps1", false), "declarch-ext-a.ps1");
    assert_eq!(normalize_ext_name_on("declarch-ext-a.bat", true), "declarch-ext-a");
    assert_eq!(normalize_ext_name_on("tool.txt", true), "tool.txt");
}

#[test]
fn extensions_are_sorted_and_unique() {
    let names = vec![
        "declarch-ext-zeta".to_string(),
        "ls".to_string(),
        "declarch-ext-alpha".to_string(),
        "declarch-ext-zeta".to_string(),
    ];
    let found = discovered_extensions(&names);
    assert_eq!(found, vec!["declarch-ext-alpha".to_string(), "declarch-ext-zeta".to_string()]);
    assert_eq!(run(&names), found);
}

#[test]
fn execute_hooks_dry_run_skips_execution_errors() {
    let h = sample_hook("nonexistent-command-that-would-fail", ErrorBehavior::Required);
    let refs = vec![h];
    let res = execute_hooks(&refs, "PreSync", true, true, failing_launch);
    assert!(res.is_ok());
}

#[test]
fn execute_hooks_required_failure_propagates_error() {
    let h = sample_hook("nonexistent-command-that-will-fail", ErrorBehavior::Required);
    let refs = vec![h];
    let res = execute_hooks(&refs, "PreSync", true, false, failing_launch);
    assert!(res.is_err());
}

#[test]
fn execute_hooks_warns_and_continues() {
    let hooks = vec![
        sample_hook("first-missing", ErrorBehavior::Warn),
        sample_hook("second-missing", ErrorBehavior::Ignore),
    ];
    let warnings = execute_hooks(&hooks, "PreSync", true, false, failing_launch).expect("warn only");
    assert_eq!(warnings, vec!["Command not found: first-missing".to_string()]);
    let disabled = execute_hooks(&hooks, "PreSync", false, false, failing_launch).expect("disabled");
    assert!(disabled.is_empty());
}

#[test]
fn execute_hooks_reports_exit_status() {
    let hooks = vec![sample_hook("make build", ErrorBehavior::Required)];
    let err = execute_hooks(&hooks, "PostSync", true, false, |_a: &Vec<String>, _s: bool| HookOutcome::Exited {
        success: false,
        status: "exit status: 2".to_string(),
    })
    .expect_err("required failure");
    assert_eq!(err.to_string(), "Required hook failed with status: exit status: 2");
    let ok = execute_hooks(&hooks, "PostSync", true, false, |_a: &Vec<String>, _s: bool| HookOutcome::TimedOut);
    assert_eq!(ok.expect_err("timeout").to_string(), "Required hook timed out");
}

#[test]
fn validate_rejects_embedded_sudo() {
    let err = validate_hook_command(&sample_hook("sudo echo x", ErrorBehavior::Warn)).expect_err("sudo should fail");
    assert!(err.to_string().contains("Embedded 'sudo'"));
}

#[test]
fn validate_rejects_path_traversal() {
    let err = validate_hook_command(&sample_hook("bash ../evil.sh", ErrorBehavior::Warn)).expect_err("traversal");
    assert!(err.to_string().contains("path traversal"));
}

#[test]
fn validate_accepts_simple_safe_command() {
    validate_hook_command(&sample_hook("echo hello/world", ErrorBehavior::Warn)).expect("safe command");
}

#[test]
fn validate_rejects_unsafe_characters() {
    let err = validate_hook_command(&sample_hook("echo hi; rm -rf x", ErrorBehavior::Warn)).expect_err("unsafe");
    assert!(err.to_string().contains("unsafe characters"));
}

#[test]
fn hook_argv_splits_words() {
    let argv = hook_argv(&sample_hook("notify-send done now", ErrorBehavior::Warn)).expect("words");
    assert_eq!(argv, vec!["notify-send".to_string(), "done".to_string(), "now".to_string()]);
    let err = hook_argv(&sample_hook("echo \"open", ErrorBehavior::Warn)).expect_err("quoting");
    assert!(err.to_string().contains("Invalid quoting"));
}

#[test]
fn phase_hooks_are_selected() {
    let mut install = sample_hook("echo install", ErrorBehavior::Warn);
    install.phase = LifecyclePhase::PreInstall;
    install.package = Some("bat".to_string());
    let config = Some(LifecycleConfig { actions: vec![sample_hook("echo sync", ErrorBehavior::Warn), install] });
    let pre = execute_pre_sync(&config, true, false);
    assert_eq!(pre.hooks.len(), 1);
    assert_eq!(pre.plan, HookPlan::Execute);
    let for_bat = execute_pre_install(&config, "bat", false, true);
    assert_eq!(for_bat.hooks.len(), 1);
    assert_eq!(for_bat.plan, HookPlan::DryRun);
    let for_fd = execute_pre_install(&config, "fd", true, false);
    assert_eq!(for_fd.hooks.len(), 0);
    assert_eq!(for_fd.plan, HookPlan::Nothing);
}

#[test]
fn extensions_found_per_platform() {
    let names = vec!["declarch-ext-b.exe".to_string(), "ls".to_string(), "declarch-ext-a".to_string(), "declarch-ext-a".to_string()];
    assert_eq!(discovered_extensions_on(&names, true), vec!["declarch-ext-a", "declarch-ext-b"]);
    assert_eq!(discovered_extensions_on(&names, false), vec!["declarch-ext-a", "declarch-ext-b.exe"]);
}

#[test]
fn hook_commands_accepted_by_character_set() {
    assert!(validate_hook_command(&sample_hook("systemctl --user restart waybar.service", ErrorBehavior::Warn)).is_ok());
    assert!(validate_hook_command(&sample_hook("notify\tdone", ErrorBehavior::Warn)).is_ok());
    assert!(validate_hook_command(&sample_hook("echo hi; rm x", ErrorBehavior::Warn)).is_err());
    assert!(validate_hook_command(&sample_hook("", ErrorBehavior::Warn)).is_err());
}
