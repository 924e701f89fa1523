use declarch_core::commands::explain;
use declarch_core::commands::info_reason::query_helpers::{looks_like_module_query, parse_query};
use declarch_core::commands::info_reason::targets::{info_target, route_query, InfoTarget, QueryRoute};
use declarch_core::commands::info_reason::{run, InfoReasonOptions, InfoRequest};
use declarch_core::model::{DeclaredPackage, MergedConfig, PackageId};

fn config(ids: &[(&str, &str)]) -> MergedConfig {
    MergedConfig {
        packages: ids
            .iter()
            .map(|(b, n)| DeclaredPackage { id: PackageId::new(b, n), sources: vec!["modules/base.kdl".to_string()] })
            .collect(),
        backends: vec![],
        duplicate_is_error: false,
        conflict_is_error: false,
        require_backend: false,
        has_hooks: false,
        hooks_experiment_enabled: false,
    }
}

#[test]
fn explain_parse_query_backend_prefix() {
    let (backend, name) = explain::parse_query("aur:bat");
    assert_eq!(backend.expect("backend").to_string(), "aur");
    assert_eq!(name, "bat");
}

#[test]
fn explain_parse_query_plain_name() {
    let (backend, name) = explain::parse_query("firefox");
    assert!(backend.is_none());
    assert_eq!(name, "firefox");
}

#[test]
fn tests_parse_query_backend_prefix() {
    let (backend, name) = parse_query("aur:bat");
    assert_eq!(backend.expect("backend").to_string(), "aur");
    assert_eq!(name, "bat");
}

#[test]
fn tests_parse_query_plain_name() {
    let (backend, name) = parse_query("firefox");
    assert!(backend.is_none());
    assert_eq!(name, "firefox");
}

#[test]
fn parse_query_backend_keyword() {
    let (backend, name) = parse_query("backend:pnpm");
    assert_eq!(backend.expect("backend").to_string(), "backend");
    assert_eq!(name, "pnpm");
}

#[test]
fn detect_module_query_shape() {
    assert!(looks_like_module_query("system/base"));
    assert!(looks_like_module_query("modules/dev.kdl"));
    assert!(!looks_like_module_query("firefox"));
}

#[test]
fn parse_query_lowercases_backend_and_trims() {
    let (backend, name) = parse_query("  AUR : bat ");
    assert_eq!(backend.expect("backend").to_string(), "aur");
    assert_eq!(name, "bat");
    let (backend, name) = parse_query(":bat");
    assert!(backend.is_none());
    assert_eq!(name, ":bat");
}

#[test]
fn info_request_needs_query_or_target() {
    let options = InfoReasonOptions { query: None, target: None, profile: None, host: None, modules: vec![], verbose: false };
    let err = run(&options).expect_err("nothing asked");
    assert_eq!(err.to_string(), "Nothing to inspect. Provide a QUERY or use --plan.");
    let options = InfoReasonOptions { query: Some("bat".into()), target: Some("sync-plan".into()), profile: None, host: None, modules: vec![], verbose: false };
    assert!(matches!(run(&options), Ok(InfoRequest::Target(t)) if t == "sync-plan"));
}

#[test]
fn info_targets_are_read() {
    assert!(matches!(info_target("help"), Ok(InfoTarget::Help)));
    assert!(matches!(info_target("sync-plan"), Ok(InfoTarget::SyncPlan)));
    assert!(matches!(info_target("backend:backend: pnpm "), Ok(InfoTarget::Backend(b)) if b == "pnpm"));
    assert!(matches!(info_target("module:system/base"), Ok(InfoTarget::Module(m)) if m == "system/base"));
    assert_eq!(info_target("backend:  ").unwrap_err().to_string(), "Backend target is empty. Use --target backend:<name>");
    assert_eq!(info_target("module:").unwrap_err().to_string(), "Module target is empty. Use --target module:<name>");
    assert_eq!(
        info_target("bogus").unwrap_err().to_string(),
        "Unsupported info target 'bogus'. Supported: sync-plan, backend:<name>, module:<name>."
    );
}

#[test]
fn queries_are_routed() {
    let cfg = config(&[("aur", "bat"), ("aur", "batsignal"), ("flatpak", "Bat")]);
    match route_query(&cfg, "aur:BAT", false, &vec![]) {
        QueryRoute::Packages(ids) => {
            let labels: Vec<String> = ids.iter().map(|i| i.to_string()).collect();
            assert_eq!(labels, vec!["aur:bat".to_string()]);
        }
        other => panic!("unexpected {:?}", other),
    }
    match route_query(&cfg, "signal", false, &vec![]) {
        QueryRoute::Packages(ids) => assert_eq!(ids.len(), 1),
        other => panic!("unexpected {:?}", other),
    }
    assert!(matches!(route_query(&cfg, "backend:pnpm", false, &vec![]), QueryRoute::Backend(b) if b == "pnpm"));
    assert!(matches!(route_query(&cfg, "system/base", true, &vec![]), QueryRoute::Module(m) if m == "system/base"));
    assert!(matches!(route_query(&cfg, "NPM", false, &vec!["npm".to_string()]), QueryRoute::Backend(b) if b == "NPM"));
    assert!(matches!(route_query(&cfg, "zzz", false, &vec![]), QueryRoute::NotFound));
}

#[test]
fn explain_query_matches_exact_then_fuzzy() {
    let cfg = config(&[("aur", "ripgrep"), ("flatpak", "rip"), ("aur", "rip")]);
    let found = explain::query_matches(&cfg, "rip").expect("matches");
    let labels: Vec<String> = found.iter().map(|i| i.to_string()).collect();
    assert_eq!(labels, vec!["aur:rip".to_string(), "flatpak:rip".to_string()]);
    let found = explain::query_matches(&cfg, "grep").expect("fuzzy");
    assert_eq!(found.len(), 1);
    assert_eq!(explain::query_matches(&cfg, "nothing").unwrap_err().to_string(), "Target not found: nothing");
}

#[test]
fn explain_targets_and_requests() {
    assert!(explain::explain_target("sync-plan").is_ok());
    assert_eq!(
        explain::explain_target("plan").unwrap_err().to_string(),
        "Unsupported explain target 'plan'. Supported: sync-plan"
    );
    let options = explain::ExplainOptions { query: None, target: None, profile: None, host: None, modules: vec![] };
    assert_eq!(
        explain::run(&options).unwrap_err().to_string(),
        "Nothing to explain. Provide a QUERY or --target sync-plan"
    );
}

#[test]
fn explain_preview_truncates_after_fifteen() {
    let ids: Vec<PackageId> = (0..17).map(|i| PackageId::new("aur", &format!("p{:02}", i))).collect();
    let lines = explain::preview_lines(&ids, "+");
    assert_eq!(lines.len(), 16);
    assert_eq!(lines[0], "  + aur:p00");
    assert_eq!(lines[15], "  ... and 2 more");
}

#[test]
fn printed_label_names_the_package_again() {
    let id = PackageId::new("AUR", "python:pip");
    let (backend, name) = parse_query(&id.to_string());
    assert_eq!(backend.map(|b| b.to_string()), Some("aur".to_string()));
    assert_eq!(name, "python:pip");
}
