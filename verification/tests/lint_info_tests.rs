use declarch_core::commands::info::diagnostics::{collect_state_signature_duplicates, count_orphans, doctor_report};
use declarch_core::commands::info::summary::display_summary;
use declarch_core::commands::info::{
    count_backends_filtered, extract_package_name, filter_packages, format_packages_inline, run as info_run, InfoOptions,
    InfoRun,
};
use declarch_core::commands::lint::file_checks::sort_import_lines;
use declarch_core::commands::lint::state_ops::{resolve_state_remove_keys, state_remove_step, StateRemoveStep};
use declarch_core::commands::lint::{
    check_state_remove_options, count_issues, import_issue, kdl_file_issues, lint_verdict, machine_mode,
    run as lint_run, LintIssue, LintMode, LintOptions, Severity,
};
use declarch_core::model::{DeclaredPackage, MergedConfig, PackageId, PackageMap, PackageState};

fn pkg(backend: &str, config_name: &str) -> PackageState {
    PackageState::new(backend, config_name)
}

#[test]
fn state_signature_duplicates_detected() {
    let mut state = PackageMap::new();
    state.insert("legacy:bat".to_string(), pkg("aur", "bat"));
    state.insert("aur:bat".to_string(), pkg("aur", "bat"));
    state.insert("aur:ripgrep".to_string(), pkg("aur", "ripgrep"));
    let duplicates = collect_state_signature_duplicates(&state);
    assert_eq!(duplicates.len(), 1);
    assert_eq!(duplicates[0].0, "aur:bat");
    assert_eq!(duplicates[0].1.len(), 2);
}

#[test]
fn state_signature_duplicates_empty_when_clean() {
    let mut state = PackageMap::new();
    state.insert("aur:bat".to_string(), pkg("aur", "bat"));
    state.insert("aur:ripgrep".to_string(), pkg("aur", "ripgrep"));
    let duplicates = collect_state_signature_duplicates(&state);
    assert!(duplicates.is_empty());
}

#[test]
fn sort_import_lines_reorders_and_dedupes() {
    let input = "\nimports {\n  \"b.kdl\"\n  \"a.kdl\"\n  \"a.kdl\"\n}\n";
    let output = sort_import_lines(input);
    assert!(output.contains("\"a.kdl\""));
    assert!(output.contains("\"b.kdl\""));
    assert_eq!(output.matches("\"a.kdl\"").count(), 1);
}

#[test]
fn sorting_imports_twice_changes_nothing() {
    let input = "meta { }\n  imports {\n    \"z.kdl\"\n    // keep\n    \"m.kdl\"\n  }\npkg { aur { bat } }\n\n\n";
    let once = sort_import_lines(input);
    assert_eq!(once, "meta { }\n  imports {\n    // keep\n    \"m.kdl\"\n    \"z.kdl\"\n  }\npkg { aur { bat } }\n");
    assert_eq!(sort_import_lines(&once), once);
}

fn state_with(entries: &[(&str, &str, &str)]) -> PackageMap {
    let mut packages = PackageMap::new();
    for (key, backend, name) in entries {
        packages.insert(key.to_string(), pkg(backend, name));
    }
    packages
}

#[test]
fn resolve_state_remove_keys_prefixed_id() {
    let packages = state_with(&[("soar:firefox", "soar", "firefox")]);
    let keys = resolve_state_remove_keys(&packages, &["soar:firefox".to_string()], None, false).expect("resolve keys");
    assert_eq!(keys, vec!["soar:firefox".to_string()]);
}

#[test]
fn resolve_state_remove_keys_backend_filter_plain_name() {
    let packages = state_with(&[("aur:firefox", "aur", "firefox"), ("soar:firefox", "soar", "firefox")]);
    let keys = resolve_state_remove_keys(&packages, &["firefox".to_string()], Some("soar"), false).expect("resolve keys");
    assert_eq!(keys, vec!["soar:firefox".to_string()]);
}

#[test]
fn resolve_state_remove_keys_all_for_backend() {
    let packages = state_with(&[("soar:firefox", "soar", "firefox"), ("soar:bat", "soar", "bat"), ("aur:bat", "aur", "bat")]);
    let keys = resolve_state_remove_keys(&packages, &[], Some("soar"), true).expect("resolve backend keys");
    assert_eq!(keys, vec!["soar:bat".to_string(), "soar:firefox".to_string()]);
}

#[test]
fn resolve_state_remove_keys_ambiguous_plain_name_errors() {
    let packages = state_with(&[("aur:firefox", "aur", "firefox"), ("soar:firefox", "soar", "firefox")]);
    let err = resolve_state_remove_keys(&packages, &["firefox".to_string()], None, false)
        .expect_err("plain name should be ambiguous");
    assert!(err.to_string().contains("matched multiple backends"));
}

fn lint_options(mode: LintMode) -> LintOptions {
    LintOptions {
        strict: false,
        fix: false,
        mode,
        backend: None,
        diff: false,
        benchmark: false,
        repair_state: false,
        state_rm: vec![],
        state_rm_backend: None,
        state_rm_all: false,
        dry_run: false,
        yes: false,
        format: None,
        output_version: None,
        verbose: false,
        profile: None,
        host: None,
        modules: vec![],
    }
}

fn merged(packages: Vec<(&str, &str, usize)>) -> MergedConfig {
    MergedConfig {
        packages: packages
            .into_iter()
            .map(|(b, n, k)| DeclaredPackage {
                id: PackageId::new(b, n),
                sources: (0..k).map(|i| format!("modules/m{}.kdl", i)).collect(),
            })
            .collect(),
        backends: vec![],
        duplicate_is_error: false,
        conflict_is_error: true,
        require_backend: false,
        has_hooks: true,
        hooks_experiment_enabled: false,
    }
}

#[test]
fn lint_collects_issues_by_mode() {
    let cfg = merged(vec![("aur", "bat", 2), ("flatpak", "bat", 1), ("default", "fd", 1)]);
    let file_issue = LintIssue::warning(Some("a.kdl".into()), "file".to_string());
    let report = lint_run(&lint_options(LintMode::All), &cfg, &vec![file_issue.clone()], &vec![]);
    let messages: Vec<String> = report.issues.iter().map(|i| i.message.clone()).collect();
    assert_eq!(
        messages,
        vec![
            "Duplicate declaration: aur:bat appears in 2 source file(s)".to_string(),
            "Cross-backend conflict candidate: 'bat' exists in [aur, flatpak]".to_string(),
            "Hooks configured but not executable: add experimental { \"enable-hooks\" } if intentional".to_string(),
            "Package 'fd' uses implicit 'default' backend (legacy syntax). Prefer explicit pkg{ backend { ... } }".to_string(),
            "file".to_string(),
        ]
    );
    assert_eq!(report.errors, 1);
    assert_eq!(report.warnings, 4);
    assert_eq!(report.outcome.unwrap_err().to_string(), "Lint failed with 1 error(s)");
    let dups = lint_run(&lint_options(LintMode::Duplicates), &cfg, &vec![file_issue.clone()], &vec![]);
    assert_eq!(dups.issues.len(), 1);
    let validate = lint_run(&lint_options(LintMode::Validate), &cfg, &vec![file_issue], &vec![]);
    assert_eq!(validate.issues.len(), 1);
    assert!(validate.outcome.is_ok());
    let mut filtered = lint_options(LintMode::Conflicts);
    filtered.backend = Some("snap".into());
    assert!(lint_run(&filtered, &cfg, &vec![], &vec![]).issues.is_empty());
}

#[test]
fn lint_verdicts() {
    assert!(lint_verdict(3, 0, false).is_ok());
    assert_eq!(lint_verdict(12, 0, true).unwrap_err().to_string(), "Lint strict mode failed with 12 warning(s)");
    assert_eq!(lint_verdict(0, 105, true).unwrap_err().to_string(), "Lint failed with 105 error(s)");
    let issues = vec![
        LintIssue::error(None, "e".into()),
        LintIssue::warning(None, "w".into()),
        LintIssue::warning(None, "w2".into()),
    ];
    assert_eq!(count_issues(&issues), (2, 1));
    assert_eq!(issues[0].severity, Severity::Error);
}

#[test]
fn lint_options_checks() {
    let mut o = lint_options(LintMode::All);
    assert!(!machine_mode(&o));
    o.format = Some("json".into());
    o.output_version = Some("v1".into());
    assert!(machine_mode(&o));
    assert_eq!(check_state_remove_options(&o).expect("none"), false);
    o.state_rm_backend = Some("aur".into());
    assert!(check_state_remove_options(&o).unwrap_err().to_string().starts_with("State remove requires package IDs"));
    o.state_rm = vec!["aur:bat".into()];
    assert!(check_state_remove_options(&o).unwrap_err().to_string().contains("prefixed IDs"));
    o.state_rm_all = true;
    assert!(check_state_remove_options(&o).unwrap_err().to_string().contains("--state-rm-all"));
    o.state_rm_all = false;
    o.state_rm = vec!["bat".into()];
    assert_eq!(check_state_remove_options(&o).expect("ok"), true);
}

#[test]
fn lint_file_checks() {
    let issues = kdl_file_issues("x.kdl", "packages { bat }\npackages:aur { fd }\npkg { }");
    assert_eq!(issues.len(), 2);
    assert_eq!(issues[0].message, "Deprecated syntax block 'packages' detected. Use 'pkg' syntax");
    assert_eq!(issues[0].file, Some("x.kdl".to_string()));
    let broken = kdl_file_issues("y.kdl", "pkg {");
    assert_eq!(broken.len(), 1);
    assert_eq!(broken[0].severity, Severity::Error);
    assert!(broken[0].message.starts_with("Invalid KDL syntax: "));
    let t = import_issue("r.kdl", "modules\\..\\x", false, "", false).expect("traversal");
    assert_eq!(t.message, "Import contains path traversal '..': modules\\..\\x");
    let u = import_issue("r.kdl", "b.kdl", true, "/cfg/b.kdl", false).expect("unresolved");
    assert_eq!(u.message, "Unresolved backend import: 'b.kdl' (resolved: /cfg/b.kdl)");
    assert!(import_issue("r.kdl", "b.kdl", true, "/cfg/b.kdl", true).is_none());
}

#[test]
fn info_filters_and_counts() {
    let mut state = PackageMap::new();
    state.insert("aur:bat".into(), pkg("aur", "bat"));
    state.insert("aur:batsignal".into(), pkg("aur", "batsignal"));
    state.insert("flatpak:bat".into(), pkg("flatpak", "bat"));
    state.insert("npm:prettier".into(), pkg("npm", "prettier"));
    let options = InfoOptions { doctor: false, format: None, output_version: None, backend: None, package: Some("bat".into()), verbose: false };
    let chosen = filter_packages(&state, &options);
    assert_eq!(chosen, vec![0, 1, 2]);
    let counts = count_backends_filtered(&state, &chosen);
    assert_eq!(counts, vec![("aur".to_string(), 2), ("flatpak".to_string(), 1)]);
    let only_aur = InfoOptions { backend: Some("AUR".into()), ..options.clone() };
    assert_eq!(filter_packages(&state, &only_aur), vec![0, 1]);
    assert!(matches!(info_run(&InfoOptions { doctor: true, ..options.clone() }, &state), InfoRun::Doctor));
    match info_run(&InfoOptions { format: Some("json".into()), ..options }, &state) {
        InfoRun::Report { chosen, check_updates } => {
            assert_eq!(chosen.len(), 3);
            assert!(!check_updates);
        }
        InfoRun::Doctor => panic!("no doctor"),
    }
    assert_eq!(extract_package_name("aur:bat"), "bat");
    assert_eq!(extract_package_name("plain"), "plain");
}

#[test]
fn inline_layout() {
    let names: Vec<String> = vec!["alpha".into(), "beta".into(), "gamma".into()];
    assert_eq!(format_packages_inline(&names, 30), "alpha beta gamma");
    assert_eq!(format_packages_inline(&names, 34), "alpha  beta  gamma");
    assert_eq!(format_packages_inline(&names, 35), "alpha  beta  gamma");
    let long: Vec<String> = vec!["aaaaaaaaaa".into(), "bbbbbbbbbb".into(), "cccccccccc".into()];
    assert_eq!(format_packages_inline(&long, 40), "aaaaaaaaaa  bbbbbbbbbb\n     cccccccccc");
    assert_eq!(format_packages_inline(&vec![], 80), "");
}

#[test]
fn summary_of_drift() {
    let mut state = PackageMap::new();
    state.insert("aur:bat".into(), pkg("aur", "bat"));
    state.insert("aur:old".into(), pkg("aur", "old"));
    state.insert("npm:x".into(), pkg("npm", "x"));
    let cfg = merged(vec![("aur", "bat", 1), ("aur", "new", 1)]);
    let stats = display_summary(&state, Some(&cfg), 9);
    assert_eq!(stats.total, 3);
    assert_eq!(stats.drift_install, 1);
    assert_eq!(stats.drift_remove, 2);
    assert!(stats.stale);
    assert_eq!(stats.backend_lines, vec![("aur".to_string(), 2), ("npm".to_string(), 1)]);
    let none = display_summary(&state, None, 0);
    assert_eq!((none.drift_install, none.drift_remove, none.stale), (0, 0, false));
}

#[test]
fn doctor_counts_records_not_declared() {
    let mut state = PackageMap::new();
    state.insert("aur:bat".to_string(), pkg("aur", "bat"));
    state.insert("aur:ripgrep".to_string(), pkg("aur", "ripgrep"));
    state.insert("flatpak:bat".to_string(), pkg("flatpak", "bat"));
    let config = merged(vec![("aur", "bat", 1)]);
    assert_eq!(count_orphans(&state, &config), 2);
    let all = merged(vec![("aur", "bat", 1), ("aur", "ripgrep", 1), ("flatpak", "bat", 1)]);
    assert_eq!(count_orphans(&state, &all), 0);
}

#[test]
fn sorting_imports_settles_with_trailing_space_and_duplicates() {
    let input = "// root\nimports {\n    \"modules/z.kdl\"\n  // keep\n  \"modules/a.kdl\"   \n  \"modules/z.kdl\"\n}\npkg { aur { bat } }  \n\n\n";
    let once = sort_import_lines(input);
    assert_eq!(
        once,
        "// root\nimports {\n  // keep\n  \"modules/a.kdl\"\n  \"modules/z.kdl\"\n}\npkg { aur { bat } }\n"
    );
    assert_eq!(sort_import_lines(&once), once);
}

#[test]
fn sorting_imports_settles_with_final_carriage_return() {
    let once = sort_import_lines("a\r");
    assert_eq!(once, "a\n");
    assert_eq!(sort_import_lines(&once), once);
    let held = sort_import_lines("imports {\n  \"b.kdl\"\r\r\n  \"a.kdl\"\n}\n");
    assert_eq!(held, "imports {\n  \"a.kdl\"\n  \"b.kdl\"\n}\n");
    assert_eq!(sort_import_lines(&held), held);
}

#[test]
fn doctor_reports_config_and_state_checks() {
    let mut state = PackageMap::new();
    state.insert("aur:bat".to_string(), pkg("aur", "bat"));
    state.insert("aur:fd".to_string(), pkg("aur", "fd"));
    let cfg = merged(vec![("aur", "bat", 1)]);
    let full = doctor_report(Some(Ok(&cfg)), Some(Ok(&state)), 9).expect("state loads");
    assert_eq!(full.config_packages, Some(1));
    assert_eq!(full.state_packages, Some(2));
    assert_eq!(full.orphans, Some(1));
    assert!(full.duplicate_signatures.is_empty());
    assert!(full.stale && full.finished && full.all_ok);
    let broken = doctor_report(Some(Err("bad".to_string())), None, 0).expect("no state file");
    assert_eq!(broken.config_packages, None);
    assert!(!broken.all_ok && !broken.finished && broken.orphans.is_none());
    let err = doctor_report(None, Some(Err("State file corrupt".to_string())), 0).unwrap_err();
    assert_eq!(err.to_string(), "State file corrupt");
}

#[test]
fn layout_keeps_order_and_fills_lines() {
    let names: Vec<String> = vec!["aaaaaaaaaa".into(), "bbbbbbbbbb".into(), "cccccccccc".into(), "d".into()];
    // 40 columns leave 26: two ten-byte names (22 bytes) fit, a third does not.
    assert_eq!(format_packages_inline(&names, 40), "aaaaaaaaaa  bbbbbbbbbb\n     cccccccccc  d");
    let long: Vec<String> = vec!["x".repeat(30), "y".into()];
    assert_eq!(format_packages_inline(&long, 40), format!("{}\n     y", "x".repeat(30)));
}

#[test]
fn state_removal_steps() {
    assert_eq!(state_remove_step(0, false, true, None), StateRemoveStep::NothingFound);
    assert_eq!(state_remove_step(2, true, true, None), StateRemoveStep::DryRun);
    assert_eq!(state_remove_step(2, false, false, None), StateRemoveStep::Confirm);
    assert_eq!(state_remove_step(2, false, false, Some(false)), StateRemoveStep::Cancelled);
    assert_eq!(state_remove_step(2, false, false, Some(true)), StateRemoveStep::Remove);
    assert_eq!(state_remove_step(2, false, true, None), StateRemoveStep::Remove);
}
