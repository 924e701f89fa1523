use declarch_core::commands::cache::{cache_class, clean_counts, run as cache_run, select_backends, CacheClass, CacheOptions};
use declarch_core::commands::check::{check_report, file_name, CheckOptions, CheckReport};
use declarch_core::commands::edit::{
    choose_editor, edit_action, edit_target, editor_binary, missing_file_message, validate_edit_target, EditAction,
    EditOptions, EditTarget, EditorSource,
};
use declarch_core::commands::list::{find_orphans, find_synced, group_by_backend, run as list_run, unmanaged_packages, ListOptions, ListedPackage};
use declarch_core::model::{DeclaredPackage, MergedConfig, PackageId, PackageMap, PackageState};

fn strings(v: &[&str]) -> Vec<String> {
    v.iter().map(|s| s.to_string()).collect()
}

fn config(ids: &[(&str, &str, usize)]) -> MergedConfig {
    MergedConfig {
        packages: ids
            .iter()
            .map(|(b, n, k)| DeclaredPackage {
                id: PackageId::new(b, n),
                sources: (0..*k).map(|i| format!("/home/u/.config/declarch/modules/m{}.kdl", i)).collect(),
            })
            .collect(),
        backends: vec![],
        duplicate_is_error: false,
        conflict_is_error: false,
        require_backend: false,
        has_hooks: false,
        hooks_experiment_enabled: false,
    }
}

#[test]
fn edit_resolve_target_rejects_parent_dir_traversal() {
    let err = edit_target("../evil").expect_err("must reject traversal");
    assert!(err.to_string().contains("traversal"));
}

#[test]
fn edit_resolve_target_accepts_nested_module_path() {
    match edit_target("hyprland/niri").expect("valid path") {
        EditTarget::Path(p) => assert!(p.ends_with("modules/hyprland/niri.kdl")),
        other => panic!("unexpected {:?}", other),
    }
}

#[test]
fn tests_resolve_target_rejects_parent_dir_traversal() {
    let err = validate_edit_target("../evil").expect_err("must reject traversal");
    assert!(err.to_string().contains("traversal"));
}

#[test]
fn tests_resolve_target_accepts_nested_module_path() {
    let resolved = edit_target("hyprland/niri").expect("valid path");
    assert!(matches!(resolved, EditTarget::Path(p) if p.ends_with("modules/hyprland/niri.kdl")));
}

#[test]
fn edit_targets_resolve() {
    assert!(matches!(edit_target("base"), Ok(EditTarget::Bare { module, file, root }) if module == "modules/base.kdl" && file == "base.kdl" && !root));
    assert!(matches!(edit_target("notes.txt"), Ok(EditTarget::Bare { module, .. }) if module == "modules/notes.txt"));
    assert!(matches!(edit_target("modules/a/b"), Ok(EditTarget::Path(p)) if p == "modules/a/b.kdl"));
    assert!(matches!(edit_target("./x/y.kdl"), Ok(EditTarget::Path(p)) if p == "x/y.kdl"));
    assert_eq!(edit_target("/etc/passwd").unwrap_err().to_string(), "Invalid module name: absolute paths are not allowed");
    assert_eq!(edit_target("  ").unwrap_err().to_string(), "Invalid module name");
    assert_eq!(edit_target("a/../../b").unwrap_err().to_string(), "Invalid module name: path traversal is not allowed");
}

#[test]
fn editors_are_chosen() {
    assert_eq!(editor_binary("code -w"), "code");
    assert_eq!(editor_binary("  vim"), "vim");
    assert_eq!(editor_binary("   "), "   ");
    let picked = choose_editor(Some(("hx".into(), false)), Some(("".into(), true)), Some(("vim".into(), true)), true).expect("editor");
    assert_eq!(picked, ("vim".to_string(), EditorSource::Editor));
    let fallback = choose_editor(None, None, None, true).expect("nano");
    assert_eq!(fallback, ("nano".to_string(), EditorSource::Fallback));
    assert!(choose_editor(None, None, None, false).is_err());
    let opts = EditOptions { target: None, dry_run: false, preview: true, number: false, create: true, auto_format: false, validate_only: false, backup: false };
    assert_eq!(edit_action(&opts, false), EditAction::Create);
    assert_eq!(edit_action(&opts, true), EditAction::Preview);
    assert!(missing_file_message("/x.kdl").starts_with("File not found: /x.kdl\nHint:"));
}

fn state() -> PackageMap {
    let mut s = PackageMap::new();
    s.insert("aur:bat".into(), PackageState::new("aur", "bat"));
    s.insert("aur:fd".into(), PackageState::new("aur", "fd"));
    s.insert("npm:x".into(), PackageState::new("npm", "x"));
    s
}

fn list_options() -> ListOptions {
    ListOptions { backend: None, orphans: false, synced: false, unmanaged: false, format: None, output_version: None }
}

#[test]
fn list_filters_orphans_and_synced() {
    let cfg = config(&[("aur", "bat", 1)]);
    let all = list_run(&list_options(), &state(), Some(&cfg));
    assert_eq!(all.len(), 3);
    let orphans = list_run(&ListOptions { orphans: true, ..list_options() }, &state(), Some(&cfg));
    let synced = list_run(&ListOptions { synced: true, ..list_options() }, &state(), Some(&cfg));
    assert_eq!(orphans.len() + synced.len(), all.len());
    assert_eq!(synced[0].name, "bat");
    let only_npm = list_run(&ListOptions { backend: Some("NPM".into()), ..list_options() }, &state(), None);
    assert_eq!(only_npm.len(), 1);
    let no_config = list_run(&ListOptions { orphans: true, ..list_options() }, &state(), None);
    assert_eq!(no_config.len(), 3);
    let groups = group_by_backend(&all);
    assert_eq!(groups.len(), 2);
    assert_eq!(groups[0].backend, "aur");
    assert_eq!(groups[0].packages, vec![("bat".to_string(), "-".to_string()), ("fd".to_string(), "-".to_string())]);
}

#[test]
fn unmanaged_are_sorted_unique_and_undeclared() {
    let cfg = config(&[("aur", "bat", 1)]);
    let installed = vec![
        ListedPackage { backend: "npm".into(), name: "z".into(), version: None },
        ListedPackage { backend: "aur".into(), name: "zz".into(), version: Some("1".into()) },
        ListedPackage { backend: "aur".into(), name: "bat".into(), version: None },
        ListedPackage { backend: "aur".into(), name: "ab".into(), version: None },
        ListedPackage { backend: "aur".into(), name: "zz".into(), version: Some("2".into()) },
    ];
    let out = unmanaged_packages(&cfg, &installed);
    let pairs: Vec<(String, String)> = out.iter().map(|p| (p.backend.clone(), p.name.clone())).collect();
    assert_eq!(
        pairs,
        vec![("aur".into(), "ab".into()), ("aur".into(), "zz".into()), ("npm".into(), "z".into())]
    );
    assert_eq!(out[1].version, Some("1".to_string()));
}

#[test]
fn cache_selection() {
    let configured = strings(&["pip", "apt", "npm"]);
    let sel = select_backends(&configured, Some(&strings(&["npm", "ghost", "apt", "ghost"])));
    assert_eq!(sel.selected, strings(&["apt", "npm"]));
    assert_eq!(sel.unknown, strings(&["ghost"]));
    let all = cache_run(&CacheOptions { backends: None, verbose: false }, &configured);
    assert_eq!(all.selected, strings(&["apt", "npm", "pip"]));
    assert!(all.unknown.is_empty());
    assert_eq!(cache_class(false, true, true), CacheClass::NoCommand);
    assert_eq!(cache_class(true, false, true), CacheClass::NotAvailable);
    assert_eq!(cache_class(true, true, false), CacheClass::Unsupported);
    assert_eq!(cache_class(true, true, true), CacheClass::Cleanable);
    assert_eq!(clean_counts(&vec![true, false, true]), (2, 1));
}

fn check_options() -> CheckOptions {
    CheckOptions {
        verbose: false,
        check_duplicates: true,
        check_conflicts: true,
        only_duplicates: false,
        only_conflicts: false,
        backend_filter: None,
        diff: false,
        validate_only: false,
        benchmark: false,
        extra_modules: vec![],
    }
}

#[test]
fn check_reports() {
    let cfg = config(&[("aur", "bat", 2), ("flatpak", "bat", 1), ("aur", "fd", 1)]);
    match check_report(&cfg, &check_options()) {
        CheckReport::Checked { package_count, duplicates, conflicts } => {
            assert_eq!(package_count, 3);
            let d = duplicates.expect("duplicates");
            assert_eq!(d, vec![("aur:bat".to_string(), strings(&["m0.kdl", "m1.kdl"]))]);
            let c = conflicts.expect("conflicts");
            assert_eq!(c, vec![("bat".to_string(), strings(&["aur", "flatpak"]))]);
        }
        other => panic!("unexpected {:?}", other),
    }
    let filtered = CheckOptions { backend_filter: Some("snap".into()), ..check_options() };
    assert!(matches!(check_report(&cfg, &filtered), CheckReport::NoPackagesForBackend(b) if b == "snap"));
    let both = CheckOptions { only_duplicates: true, only_conflicts: true, backend_filter: Some("AUR".into()), ..check_options() };
    assert!(matches!(check_report(&cfg, &both), CheckReport::ConflictingOnlyFlags { package_count: 2 }));
    let validate = CheckOptions { validate_only: true, ..check_options() };
    assert!(matches!(check_report(&cfg, &validate), CheckReport::Validated));
    assert_eq!(file_name("a/b/c.kdl"), "c.kdl");
    assert_eq!(file_name("a/.."), "");
}

#[test]
fn grouping_keeps_every_package() {
    let rows = vec![
        ListedPackage { backend: "npm".into(), name: "pnpm".into(), version: Some("9".into()) },
        ListedPackage { backend: "aur".into(), name: "bat".into(), version: None },
        ListedPackage { backend: "npm".into(), name: "yarn".into(), version: None },
        ListedPackage { backend: "aur".into(), name: "bat".into(), version: None },
        ListedPackage { backend: "cargo".into(), name: "fd-find".into(), version: Some("10".into()) },
    ];
    let groups = group_by_backend(&rows);
    let backends: Vec<&str> = groups.iter().map(|g| g.backend.as_str()).collect();
    assert_eq!(backends, vec!["aur", "cargo", "npm"]);
    let total: usize = groups.iter().map(|g| g.packages.len()).sum();
    assert_eq!(total, rows.len());
    assert_eq!(groups[2].packages, vec![("pnpm".to_string(), "9".to_string()), ("yarn".to_string(), "-".to_string())]);
}

#[test]
fn edit_root_name_falls_back_to_root_file() {
    assert!(matches!(edit_target("declarch"),
        Ok(EditTarget::Bare { module, file, root }) if module == "modules/declarch.kdl" && file == "declarch.kdl" && root));
    assert!(matches!(edit_target("declarch.kdl"), Ok(EditTarget::Bare { root: true, .. })));
}

#[test]
fn orphans_and_synced_partition_the_records() {
    let cfg = config(&[("aur", "bat", 1), ("npm", "pnpm", 1)]);
    let a = PackageState::new("aur", "bat");
    let b = PackageState::new("aur", "fd");
    let c = PackageState::new("npm", "pnpm");
    let d = PackageState::new("npm", "bat");
    let records = vec![&a, &b, &c, &d];
    let orphans: Vec<String> = find_orphans(records.clone(), &cfg).iter().map(|p| p.package_id().to_string()).collect();
    let synced: Vec<String> = find_synced(records, &cfg).iter().map(|p| p.package_id().to_string()).collect();
    assert_eq!(orphans, vec!["aur:fd", "npm:bat"]);
    assert_eq!(synced, vec!["aur:bat", "npm:pnpm"]);
}
