use declarch_core::model::DeclarchError;
use declarch_core::commands::init::backend::{
    add_backend_import, add_backend_to_declarch, adopt_step, extract_backend_meta, AdoptStep, ImportResult, RootImport,
};
use declarch_core::commands::init::list::{
    backend_listing, is_module_available, known_backends, known_modules, list_available_backends, list_available_modules,
    module_groups,
};
use declarch_core::commands::init::template::{
    generate_aur_backend_template, generate_backend_template, generic_backend_template_on,
};
use declarch_core::commands::init::{normalize_backend_args, run, sanitize_backend_name, validate_kdl, InitOptions, InitPlan};
use declarch_core::commands::install::{
    after_auto_sync, cleanup_plan, finalize_edits, install_import_text, install_tally, rollback_plan, AfterSync,
    RollbackStep, ModuleEditRecord, SyncOutcome,
    dry_run_view, existing_declaration, install_action, parse_package_string, plan_installs, ExistingDeclaration,
    InstallAction, InstallOptions, PlannedInstall,
};
use declarch_core::model::{DeclaredPackage, MergedConfig, PackageId};

fn normalize_input() -> Vec<String> {
    vec!["pnpm,yarn".to_string(), "bun".to_string(), "  ".to_string(), "paru, yay".to_string()]
}

fn normalize_expected() -> Vec<String> {
    vec!["pnpm".to_string(), "yarn".to_string(), "bun".to_string(), "paru".to_string(), "yay".to_string()]
}

#[test]
fn mod_normalize_backend_args_supports_comma_and_space_forms() {
    assert_eq!(normalize_backend_args(&normalize_input()), normalize_expected());
}

#[test]
fn tests_normalize_backend_args_supports_comma_and_space_forms() {
    let normalized = normalize_backend_args(&normalize_input());
    assert_eq!(normalized, normalize_expected());
}

#[test]
fn normalized_names_are_clean() {
    for name in normalize_backend_args(&vec![" a ,, b,".to_string(), ",c".to_string()]) {
        assert!(!name.is_empty());
        assert!(!name.contains(','));
        assert_eq!(name.trim(), name);
    }
}

#[test]
fn init_plans_module_backends_or_root() {
    let base = InitOptions { path: None, host: Some("box".into()), backends: vec![], force: false, yes: true, local: false };
    assert!(matches!(run(&base), InitPlan::Root { host: Some(h), force: false } if h == "box"));
    let backends = InitOptions { backends: vec!["npm, pip".into()], ..base.clone() };
    match run(&backends) {
        InitPlan::Backends { names, force } => {
            assert_eq!(names, vec!["npm".to_string(), "pip".to_string()]);
            assert!(force);
        }
        other => panic!("unexpected {:?}", other),
    }
    let module = InitOptions { path: Some("system/base".into()), ..backends };
    assert!(matches!(run(&module), InitPlan::Module { path, .. } if path == "system/base"));
}

#[test]
fn backend_names_are_sanitized() {
    assert_eq!(sanitize_backend_name("My-Backend_1!").expect("name"), "my-backend_1");
    assert_eq!(
        sanitize_backend_name("!!").unwrap_err().to_string(),
        "Invalid backend name. Use alphanumeric characters, hyphens, or underscores."
    );
}

#[test]
fn kdl_is_validated_with_context() {
    assert!(validate_kdl("pkg { aur { bat } }", "module 'x'").is_ok());
    let err = validate_kdl("pkg {", "module 'x'").expect_err("invalid");
    assert!(err.to_string().starts_with("Invalid KDL in module 'x': "));
}

#[test]
fn test_extract_backend_meta_maintainer_alias() {
    let content = r#"
backend "nala" {
    meta {
        title "Nala"
        maintained "declarch"
        kdl-maintainer "community-a" "community-b"
        homepage "https://example.com"
        install-guide "https://example.com/guide"
        requires "nala" "apt"
    }
    binary "nala"
    install "{binary} install {packages}"
}
"#;
    let meta = extract_backend_meta(content).expect("extract meta");
    assert_eq!(meta.title, "Nala");
    assert_eq!(
        meta.maintainers,
        vec!["community-a".to_string(), "community-b".to_string(), "declarch".to_string()]
    );
    assert_eq!(meta.installation_guide, Some("https://example.com/guide".to_string()));
    assert_eq!(meta.requires, vec!["apt".to_string(), "nala".to_string()]);
}

#[test]
fn backend_meta_errors_and_defaults() {
    let err = extract_backend_meta("backend \"x\" {").expect_err("invalid");
    assert!(err.to_string().starts_with("Failed to parse backend KDL: "));
    let meta = extract_backend_meta("other \"x\" { meta { title \"T\" } }\nbackend \"y\" { binary \"y\" }").expect("meta");
    assert_eq!(meta.title, "");
    assert!(meta.author.is_none());
    assert!(meta.platforms.is_empty());
}

#[test]
fn test_add_backend_to_declarch_success() {
    let content = "meta {\n    title \"Host\"\n}\n\nbackends {\n    \"backends/aur.kdl\"\n}\n";
    match add_backend_to_declarch(content, "flatpak") {
        RootImport::Updated(new_content) => {
            assert!(new_content.contains("\"backends/flatpak.kdl\""));
            assert!(!new_content.contains("\\\"backends/flatpak.kdl\\\""));
        }
        other => panic!("unexpected {:?}", other),
    }
    assert!(matches!(add_backend_to_declarch(content, "aur"), RootImport::Present));
}

#[test]
fn test_add_backend_to_declarch_no_block() {
    assert!(matches!(add_backend_to_declarch("meta { title \"Host\" }", "flatpak"), RootImport::NoBlock));
}

fn added(result: ImportResult) -> String {
    match result {
        ImportResult::Added(text) => text,
        other => panic!("unexpected {:?}", other),
    }
}

#[test]
fn test_add_backend_import_success() {
    let content = "// Backend Aggregator\n\nbackend \"aur\" {\n    binary \"paru\"\n}\n\nimports {\n    // Custom backends\n}\n\n// Footer comment\n";
    let new_content = added(add_backend_import(Some(content), "npm"));
    assert!(new_content.contains("backends/npm.kdl"));
    assert!(new_content.contains("imports {"));
}

#[test]
fn test_add_backend_import_at_start() {
    let content = "imports {\n    // empty\n}\n\nbackend \"aur\" {\n    binary \"paru\"\n}";
    let new_content = added(add_backend_import(Some(content), "cargo"));
    assert!(new_content.contains("backends/cargo.kdl"));
}

#[test]
fn test_add_backend_import_at_end() {
    let content = "backend \"aur\" {\n    binary \"paru\"\n}\n\nimports {\n    // empty\n}";
    let new_content = added(add_backend_import(Some(content), "pip"));
    assert!(new_content.contains("backends/pip.kdl"));
}

#[test]
fn test_add_backend_import_no_imports_block() {
    let content = "backend \"aur\" {\n    binary \"paru\"\n}";
    assert!(matches!(add_backend_import(Some(content), "npm"), ImportResult::NoImportsBlock));
    assert!(!content.contains("backends/npm.kdl"));
}

#[test]
fn test_add_backend_import_already_exists() {
    let content = "imports {\n    \"backends/npm.kdl\"\n}";
    assert!(matches!(add_backend_import(Some(content), "npm"), ImportResult::AlreadyImported));
    assert_eq!(content.matches("backends/npm.kdl").count(), 1);
}

#[test]
fn test_add_backend_import_inline_backend_exists() {
    let content = "backend \"npm\" {\n    binary \"npm\"\n}\n\nimports {\n    // empty\n}";
    assert!(matches!(add_backend_import(Some(content), "npm"), ImportResult::AlreadyExistsInline));
}

#[test]
fn test_add_backend_import_various_whitespace() {
    let content = "imports{\n}\n\nbackend \"aur\" {\n    binary \"paru\"\n}";
    let new_content = added(add_backend_import(Some(content), "cargo"));
    assert!(new_content.contains("backends/cargo.kdl"));
}

#[test]
fn test_add_backend_import_with_indentation() {
    let content = "backend \"aur\" {\n    binary \"paru\"\n}\n\n    imports {\n        // Custom backends\n    }";
    let new_content = added(add_backend_import(Some(content), "pip"));
    assert!(new_content.contains("backends/pip.kdl"));
}

#[test]
fn import_line_follows_block_opening() {
    let content = "  imports {\n  }\n";
    let new_content = added(add_backend_import(Some(content), "pip"));
    assert_eq!(new_content, "  imports {\n    \"backends/pip.kdl\"\n  }\n");
}

#[test]
fn adoption_steps() {
    assert_eq!(adopt_step(false, false, false, false), AdoptStep::ConfirmInvalid);
    assert_eq!(adopt_step(false, true, true, false), AdoptStep::FileExists);
    assert_eq!(adopt_step(true, false, false, false), AdoptStep::ConfirmAdopt);
    assert_eq!(adopt_step(false, false, true, true), AdoptStep::Write);
}

#[test]
fn registry_catalogue() {
    assert!(is_module_available("system/base"));
    assert!(!is_module_available("system/other"));
    let listing = backend_listing(&known_backends());
    assert_eq!(listing.system.len(), 11);
    assert_eq!(listing.language.len(), 8);
    assert_eq!(listing.system[0].0, "apt");
    assert_eq!(listing.language[0].0, "bun");
    let groups = module_groups(&known_modules());
    let cats: Vec<String> = groups.iter().map(|g| g.category.clone()).collect();
    assert_eq!(cats, vec!["system", "desktop", "apps", "development", "dev"]);
    assert_eq!(groups[2].modules.len(), 2);
    assert_eq!(groups[2].modules[1].0, "multimedia");
    assert_eq!(groups[2].modules[1].2, "apps, media, audio, video");
}

#[test]
fn templates() {
    assert_eq!(generate_backend_template("aur"), generate_aur_backend_template());
    assert!(generate_aur_backend_template().contains("kdl-maintainer \"declarch\""));
    let custom = generic_backend_template_on("mypm", "2024-01-02");
    assert!(custom.starts_with("// mypm - Custom Backend Configuration"));
    assert!(custom.contains("created \"2024-01-02\""));
    assert!(custom.contains("install \"mypm install {packages}\""));
    let today = generate_backend_template("zz");
    assert!(today.contains("backend \"zz\" {"));
}

#[test]
fn plan_installs_accepts_backend_prefix_per_package() {
    let raw = vec!["aur:bat".to_string(), "flatpak:org.mozilla.firefox".to_string()];
    let planned = plan_installs(&raw, None).expect("planning should succeed");
    assert_eq!(planned.len(), 2);
    assert_eq!(planned[0].backend, "aur");
    assert_eq!(planned[0].package, "bat");
    assert_eq!(planned[1].backend, "flatpak");
}

#[test]
fn plan_installs_accepts_global_backend_flag() {
    let raw = vec!["bat".to_string(), "ripgrep".to_string()];
    let backend = Some("aur".to_string());
    let planned = plan_installs(&raw, backend.as_ref()).expect("planning should succeed");
    assert_eq!(planned.len(), 2);
    assert!(planned.iter().all(|p| p.backend == "aur"));
}

#[test]
fn plan_installs_requires_explicit_backend() {
    let raw = vec!["bat".to_string()];
    let err = plan_installs(&raw, None).expect_err("planning should fail without backend");
    assert!(err.to_string().contains("has no backend"));
}

#[test]
fn plan_installs_rejects_unsafe_package_name() {
    let raw = vec!["aur:bat;rm".to_string()];
    let err = plan_installs(&raw, None).expect_err("unsafe package should fail");
    assert!(err.to_string().to_lowercase().contains("unsafe"));
}

#[test]
fn package_strings_are_parsed() {
    let (b, n) = parse_package_string(" aur : bat ").expect("parsed");
    assert_eq!(b, Some("aur".to_string()));
    assert_eq!(n, "bat");
    assert!(parse_package_string(":bat").unwrap_err().to_string().contains("backend name is empty"));
    assert!(parse_package_string("aur:").unwrap_err().to_string().contains("package name is empty"));
    let err = plan_installs(&vec!["".to_string()], None).unwrap_err();
    assert_eq!(err.to_string(), "Package name cannot be empty");
}

#[test]
fn planning_stops_at_first_refusal() {
    let raw = vec!["aur:ok".to_string(), "bad name".to_string(), "x".to_string()];
    let err = plan_installs(&raw, Some(&"aur".to_string())).unwrap_err();
    assert_eq!(err.to_string(), "Package name contains unsafe characters: 'bad name'");
}

fn declared(ids: &[(&str, &str)]) -> MergedConfig {
    MergedConfig {
        packages: ids.iter().map(|(b, n)| DeclaredPackage { id: PackageId::new(b, n), sources: vec![] }).collect(),
        backends: vec![],
        duplicate_is_error: false,
        conflict_is_error: false,
        require_backend: false,
        has_hooks: false,
        hooks_experiment_enabled: false,
    }
}

#[test]
fn install_checks_existing_declarations() {
    let cfg = declared(&[("aur", "bat"), ("flatpak", "bat"), ("aur", "fd")]);
    let p = PlannedInstall { package: "bat".into(), backend: "AUR".into() };
    assert!(matches!(existing_declaration(&p, Some(&cfg)), ExistingDeclaration::Same));
    let q = PlannedInstall { package: "bat".into(), backend: "snap".into() };
    match existing_declaration(&q, Some(&cfg)) {
        ExistingDeclaration::OtherBackends(b) => assert_eq!(b, vec!["aur".to_string(), "flatpak".to_string()]),
        other => panic!("unexpected {:?}", other),
    }
    let r = PlannedInstall { package: "rg".into(), backend: "aur".into() };
    assert!(matches!(existing_declaration(&r, Some(&cfg)), ExistingDeclaration::Absent));
    assert!(matches!(existing_declaration(&p, None), ExistingDeclaration::Absent));
    assert_eq!(install_action(&ExistingDeclaration::Same, true, true, true), InstallAction::SkipDeclared);
    assert_eq!(install_action(&ExistingDeclaration::OtherBackends(vec![]), false, true, true), InstallAction::SkipDeclined);
    assert_eq!(install_action(&ExistingDeclaration::Absent, false, false, true), InstallAction::SkipUnknownBackend);
    assert_eq!(install_action(&ExistingDeclaration::Absent, false, true, false), InstallAction::SkipOtherOs);
    assert_eq!(install_action(&ExistingDeclaration::OtherBackends(vec![]), true, true, true), InstallAction::Add);
}

#[test]
fn dry_run_preview() {
    let options = InstallOptions {
        packages: vec!["aur:bat".into()],
        backend: None,
        module: None,
        no_sync: true,
        yes: false,
        dry_run: true,
        verbose: false,
    };
    let planned = declarch_core::commands::install::run(&options).expect("plan");
    let view = dry_run_view(&options, &planned);
    assert_eq!(view.package_count, 1);
    assert_eq!(view.target_module, "modules/others.kdl (default)");
    assert_eq!(view.auto_sync, "disabled");
    assert_eq!(view.lines, vec!["+ aur:bat".to_string()]);
}

fn edit(stem: Option<&str>, path: &str, created: bool, packages: &[&str]) -> ModuleEditRecord {
    ModuleEditRecord {
        file_path: format!("/cfg/{}", path),
        backup_path: None,
        module_stem: stem.map(|s| s.to_string()),
        import_path: path.to_string(),
        created_new_file: created,
        packages_added: packages.iter().map(|p| p.to_string()).collect(),
    }
}

#[test]
fn finalize_gathers_modules_packages_and_imports() {
    let edits = vec![
        edit(Some("others"), "modules/others.kdl", false, &["bat"]),
        edit(Some("dev"), "modules/dev.kdl", true, &["ripgrep", "fd"]),
        edit(Some("others"), "modules/others.kdl", false, &["jq"]),
        edit(None, "weird", false, &[]),
    ];
    let plan = finalize_edits(&edits);
    assert_eq!(plan.modified_modules, vec!["others", "dev"]);
    assert_eq!(plan.all_packages, vec!["bat", "ripgrep", "fd", "jq"]);
    assert_eq!(plan.imports_to_inject, vec!["modules/dev.kdl"]);
    let none = finalize_edits(&vec![]);
    assert!(none.modified_modules.is_empty() && none.all_packages.is_empty() && none.imports_to_inject.is_empty());
}

#[test]
fn edits_roll_back_unless_sync_completes() {
    assert!(matches!(after_auto_sync(SyncOutcome::Completed, false), AfterSync::Keep));
    assert!(matches!(after_auto_sync(SyncOutcome::Completed, true), AfterSync::RollBack));
    assert!(matches!(after_auto_sync(SyncOutcome::Interrupted, false), AfterSync::RollBack));
    match after_auto_sync(SyncOutcome::Failed(DeclarchError::Other("backend failed".to_string())), false) {
        AfterSync::RollBackAndFail(e) => assert_eq!(e.to_string(), "backend failed"),
        other => panic!("unexpected {:?}", other),
    }
}

#[test]
fn backend_names_read_twice_stay_the_same() {
    let once = normalize_backend_args(&vec![" paru , yay,".to_string(), "bun".to_string(), ",,".to_string()]);
    assert_eq!(once, vec!["paru", "yay", "bun"]);
    assert_eq!(normalize_backend_args(&once), once);
}

#[test]
fn test_add_backend_import_file_not_exist() {
    let result = add_backend_import(None, "npm");
    assert!(matches!(result, ImportResult::FileNotFound));
}

#[test]
fn install_imports_new_modules_into_root() {
    let root = "meta { }\nimports {\n    \"modules/base.kdl\"\n}\n";
    assert_eq!(install_import_text(root, "modules/base.kdl"), None);
    assert_eq!(
        install_import_text(root, "modules/dev.kdl").as_deref(),
        Some("meta { }\nimports {\n    \"modules/dev.kdl\"\n    \"modules/base.kdl\"\n}\n")
    );
    assert_eq!(
        install_import_text("meta { }\n\n", "modules/dev.kdl").as_deref(),
        Some("meta { }\n\nimports {\n    \"modules/dev.kdl\"\n}\n")
    );
}

#[test]
fn listing_commands_show_the_catalogue() {
    let backends = list_available_backends();
    assert!(backends.system.iter().any(|(n, _)| n == "apt"));
    assert!(backends.language.iter().any(|(n, _)| n == "cargo"));
    assert!(!backends.system.iter().any(|(n, _)| n == "cargo"));
    let modules = list_available_modules();
    let expected = module_groups(&known_modules());
    assert_eq!(modules.len(), expected.len());
    assert!(!modules.is_empty());
}

#[test]
fn backends_node_without_block_gets_no_import() {
    assert!(matches!(add_backend_to_declarch("backends\n", "flatpak"), RootImport::NoBlock));
    match add_backend_to_declarch("backends {\n}\n", "flatpak") {
        RootImport::Updated(s) => assert!(s.contains("\"backends/flatpak.kdl\"")),
        other => panic!("unexpected {:?}", other),
    }
}

#[test]
fn rollback_restores_backups_and_deletes_new_files() {
    let mut changed = edit(Some("others"), "modules/others.kdl", false, &["bat"]);
    changed.backup_path = Some("/cfg/modules/others.kdl.bak".to_string());
    let created = edit(Some("dev"), "modules/dev.kdl", true, &["fd"]);
    let untouched = edit(Some("x"), "modules/x.kdl", false, &[]);
    let edits = vec![changed, created, untouched];
    let root = "/cfg/declarch.kdl.bak".to_string();
    let steps: Vec<String> = rollback_plan(&edits, Some(&root))
        .into_iter()
        .map(|s| match s {
            RollbackStep::Restore(p) => format!("restore {}", p),
            RollbackStep::Delete(p) => format!("delete {}", p),
        })
        .collect();
    assert_eq!(
        steps,
        vec!["restore /cfg/modules/others.kdl.bak", "delete /cfg/modules/dev.kdl", "restore /cfg/declarch.kdl.bak"]
    );
    assert_eq!(cleanup_plan(&edits, None), vec!["/cfg/modules/others.kdl.bak"]);
    assert_eq!(cleanup_plan(&edits, Some(&root)), vec!["/cfg/modules/others.kdl.bak", "/cfg/declarch.kdl.bak"]);
}

#[test]
fn install_stops_when_every_package_is_skipped() {
    let all_skipped = vec![InstallAction::SkipDeclared, InstallAction::SkipDeclined];
    assert_eq!(install_tally(&all_skipped, 2), (2, true));
    let one_added = vec![InstallAction::SkipDeclared, InstallAction::Add];
    assert_eq!(install_tally(&one_added, 2), (1, false));
}
