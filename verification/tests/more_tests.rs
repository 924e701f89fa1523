use declarch_core::commands::edit::{edit_target, format_kdl, EditTarget, FormatOutcome};
use declarch_core::commands::info::package_groups;
use declarch_core::commands::info_reason::report::{module_summary, package_report};
use declarch_core::commands::hooks::{hook_display, ActionType, ErrorBehavior, LifecycleAction, LifecyclePhase};
use declarch_core::commands::info_reason::sync_plan::{sync_plan_changes, sync_plan_report};
use declarch_core::commands::init::backend::{add_backend_to_declarch, RootImport};
use declarch_core::commands::init::module::{
    module_meta_view, ModuleMeta, add_module_import, module_already_imported, module_import_path, module_source, ModuleSource,
};
use declarch_core::commands::init::template::{
    backend_template_on, generate_aur_backend_template, generate_generic_backend_template, generic_backend_template_on,
};
use declarch_core::commands::init::backend::backend_meta_from_nodes;
use declarch_core::outside::KdlNodeData;
use declarch_core::sanitize::{sanitize_for_display, validate_package_name};
use declarch_core::model::{DeclaredPackage, MergedConfig, PackageId, PackageMap, PackageState};

fn config(ids: &[(&str, &str, &[&str])]) -> MergedConfig {
    MergedConfig {
        packages: ids
            .iter()
            .map(|(b, n, srcs)| DeclaredPackage {
                id: PackageId::new(b, n),
                sources: srcs.iter().map(|s| s.to_string()).collect(),
            })
            .collect(),
        backends: vec![],
        duplicate_is_error: false,
        conflict_is_error: false,
        require_backend: false,
        has_hooks: false,
        hooks_experiment_enabled: false,
    }
}

#[test]
fn regex_escaping_matters_for_present_imports() {
    let content = "backends {\n    \"backends/a+b.kdl\"\n}\n";
    assert!(matches!(add_backend_to_declarch(content, "a+b"), RootImport::Present));
    let other = "backends {\n    \"backends/aab.kdl\"\n}\n";
    assert!(matches!(add_backend_to_declarch(other, "a+b"), RootImport::Updated(_)));
}

#[test]
fn module_imports() {
    let root = "meta { title \"Host\" }\n\nimports {\n    \"modules/base.kdl\"\n}\n";
    assert!(module_already_imported(root, "modules/base.kdl"));
    assert!(!module_already_imported(root, "modules/dev.kdl"));
    let added = add_module_import(root, "modules/dev.kdl");
    assert_eq!(added, "meta { title \"Host\" }\n\nimports {\n    \"modules/dev.kdl\"\n    \"modules/base.kdl\"\n}\n");
    let bare = add_module_import("meta { }\n\n", "modules/x.kdl");
    assert_eq!(bare, "meta { }\n\nimports {\n    \"modules/x.kdl\"\n}\n");
}

#[test]
fn module_paths_and_sources() {
    assert_eq!(module_import_path("system/base"), Some("modules/system/base.kdl".to_string()));
    assert_eq!(module_import_path("modules/dev.kdl"), Some("modules/dev.kdl".to_string()));
    assert_eq!(module_import_path("notes"), Some("modules/notes.kdl".to_string()));
    assert_eq!(module_import_path("./"), None);
    assert_eq!(module_source(true, "system/base", false), ModuleSource::Template);
    assert_eq!(module_source(false, "x/y", false), ModuleSource::Registry);
    assert_eq!(module_source(false, "x/y", true), ModuleSource::Local);
    assert_eq!(module_source(false, "mine", false), ModuleSource::NotInRegistry);
}

#[test]
fn kdl_formatting() {
    assert!(matches!(format_kdl("pkg {\n    aur { bat }\n}\n"), FormatOutcome::Unchanged));
    assert!(matches!(format_kdl("pkg {"), FormatOutcome::Invalid(w) if w.starts_with("Cannot format invalid KDL: ")));
}

#[test]
fn generic_template_is_dated() {
    let text = generate_generic_backend_template("mypm");
    let start = text.find("created \"").expect("created line") + "created \"".len();
    let date = &text[start..start + 10];
    assert_eq!(date.len(), 10);
    assert_eq!(&date[4..5], "-");
    assert_eq!(&date[7..8], "-");
    assert!(date.chars().filter(|c| c.is_ascii_digit()).count() == 8);
}

#[test]
fn edit_targets_never_climb_out() {
    for t in ["a", "a/b", "./a", "modules/x", "x/./y", ".hidden", "a..b/c"] {
        let path = match edit_target(t).expect("accepted") {
            EditTarget::Bare { module, .. } => module,
            EditTarget::Path(p) => p,
        };
        assert!(!path.starts_with('/'));
        assert!(path.split('/').all(|piece| piece != ".."));
    }
    assert!(edit_target("x/../..").is_err());
}

#[test]
fn sync_plan_reconciles_on_example() {
    let cfg = config(&[("aur", "bat", &[]), ("aur", "fd", &[])]);
    let mut state = PackageMap::new();
    state.insert("aur:bat".into(), PackageState::new("aur", "bat"));
    state.insert("aur:old".into(), PackageState::new("aur", "old"));
    let plan = sync_plan_changes(&cfg, &state);
    let install: Vec<String> = plan.to_install.iter().map(|p| p.to_string()).collect();
    let remove: Vec<String> = plan.to_remove.iter().map(|p| p.to_string()).collect();
    assert_eq!(install, vec!["aur:fd".to_string()]);
    assert_eq!(remove, vec!["aur:old".to_string()]);
}

#[test]
fn package_reports() {
    let cfg = config(&[
        ("aur", "bat", &["/c/modules/b.kdl", "/c/modules/a.kdl", "/c/modules/b.kdl"]),
        ("flatpak", "bat", &["/c/modules/a.kdl"]),
    ]);
    let mut state = PackageMap::new();
    let mut rec = PackageState::new("aur", "bat");
    rec.version = Some("0.24".into());
    rec.actual_package_name = Some("bat-bin".into());
    state.insert("aur:bat".into(), rec);
    let report = package_report(&cfg, &state, &PackageId::new("aur", "bat"));
    assert_eq!(report.label, "aur:bat");
    assert!(report.installed);
    assert_eq!(report.installed_as, Some("bat-bin".to_string()));
    assert_eq!(report.version, Some("0.24".to_string()));
    assert_eq!(report.sources, vec!["/c/modules/a.kdl".to_string(), "/c/modules/b.kdl".to_string()]);
    assert_eq!(report.same_name_backends, vec!["aur".to_string(), "flatpak".to_string()]);
    let other = package_report(&cfg, &state, &PackageId::new("flatpak", "bat"));
    assert!(!other.installed);
    assert!(other.version.is_none());
}

#[test]
fn module_summaries() {
    let module = config(&[("aur", "zed", &[]), ("npm", "x", &[]), ("aur", "bat", &[])]);
    let root = config(&[
        ("aur", "zed", &["/c/modules/dev.kdl"]),
        ("npm", "x", &["/c/modules/dev.kdl", "/c/modules/other.kdl"]),
    ]);
    let summary = module_summary(&module, &root, "/c/modules/dev.kdl");
    assert_eq!(
        summary.groups,
        vec![
            ("aur".to_string(), vec!["bat".to_string(), "zed".to_string()]),
            ("npm".to_string(), vec!["x".to_string()]),
        ]
    );
    assert_eq!(summary.referenced, 2);
}

#[test]
fn status_table_groups() {
    let mut state = PackageMap::new();
    state.insert("npm:prettier".into(), PackageState::new("npm", "prettier"));
    state.insert("aur:zoxide".into(), PackageState::new("aur", "zoxide"));
    state.insert("aur:bat".into(), PackageState::new("aur", "bat"));
    let groups = package_groups(&state, &vec![0, 1, 2]);
    assert_eq!(groups.len(), 2);
    assert_eq!(groups[0].0, "aur");
    assert_eq!(groups[0].1, vec![("bat".to_string(), "bat".to_string()), ("zoxide".to_string(), "zoxide".to_string())]);
    assert_eq!(groups[1].0, "npm");
}

#[test]
fn sync_plan_report_counts_and_lines() {
    let cfg = config(&[
        ("aur", "bat", &["a.kdl", "b.kdl"]),
        ("flatpak", "bat", &["a.kdl"]),
        ("aur", "fd", &["a.kdl"]),
    ]);
    let mut state = PackageMap::new();
    state.insert("aur:bat".into(), PackageState::new("aur", "bat"));
    state.insert("aur:old".into(), PackageState::new("aur", "old"));
    let report = sync_plan_report(&cfg, &state);
    assert_eq!(report.declared, 3);
    assert_eq!(report.recorded, 2);
    assert_eq!(report.duplicates, 1);
    assert_eq!(report.conflicts, 1);
    assert_eq!(report.plan.to_install.len(), 2);
    assert_eq!(report.install_lines, vec!["  + flatpak:bat".to_string(), "  + aur:fd".to_string()]);
    assert_eq!(report.remove_lines, vec!["  - aur:old".to_string()]);
}

#[test]
fn sync_plan_report_caps_listing() {
    let names: Vec<String> = (0..17).map(|i| format!("p{:02}", i)).collect();
    let ids: Vec<(&str, &str, &[&str])> = names.iter().map(|n| ("aur", n.as_str(), &[] as &[&str])).collect();
    let cfg = config(&ids);
    let report = sync_plan_report(&cfg, &PackageMap::new());
    assert_eq!(report.install_lines.len(), 16);
    assert_eq!(report.install_lines[0], "  + aur:p00");
    assert_eq!(report.install_lines[15], "  ... and 2 more");
    assert!(report.remove_lines.is_empty());
}

#[test]
fn hook_lines() {
    let user = LifecycleAction {
        command: "notify-send done".to_string(),
        action_type: ActionType::User,
        phase: LifecyclePhase::PostSync,
        package: None,
        error_behavior: ErrorBehavior::Warn,
    };
    assert_eq!(hook_display(&user), "→ notify-send done");
    let root = LifecycleAction {
        command: "systemctl restart docker".to_string(),
        action_type: ActionType::Root,
        phase: LifecyclePhase::PostInstall,
        package: Some("docker".to_string()),
        error_behavior: ErrorBehavior::Warn,
    };
    assert_eq!(hook_display(&root), "🔒 systemctl restart docker [docker]");
}

#[test]
fn display_text_drops_control_characters() {
    let shown = sanitize_for_display("echo \x1b[31mred\x07\x7f done\n");
    assert_eq!(shown, "echo [31mred done");
    assert_eq!(sanitize_for_display(&shown), shown);
    assert_eq!(sanitize_for_display("plain"), "plain");
}

#[test]
fn package_names_checked() {
    assert!(validate_package_name("python-pip@3.12/x_y+z").is_ok());
    assert_eq!(validate_package_name("").unwrap_err().to_string(), "Package name cannot be empty");
    assert_eq!(
        validate_package_name("bat; rm -rf /").unwrap_err().to_string(),
        "Package name contains unsafe characters: 'bat; rm -rf /'"
    );
}

fn bare_meta() -> ModuleMeta {
    ModuleMeta {
        title: None,
        description: None,
        author: None,
        maintainers: vec![],
        version: None,
        tags: vec![],
        url: None,
        homepage: None,
        license: None,
        platforms: vec![],
        requires: vec![],
        installation_guide: None,
    }
}

#[test]
fn module_meta_block() {
    assert!(module_meta_view(&bare_meta()).is_none());
    let mut meta = bare_meta();
    meta.title = Some("Hyprland desktop".to_string());
    meta.author = Some("nixval".to_string());
    meta.tags = vec!["wayland".to_string(), "desktop".to_string()];
    meta.license = Some("MIT".to_string());
    meta.platforms = vec!["linux".to_string()];
    let view = module_meta_view(&meta).expect("metadata shown");
    assert_eq!(view.title.as_deref(), Some("Hyprland desktop"));
    assert!(view.description.is_none());
    assert_eq!(
        view.details,
        vec!["Author: nixval", "Tags: wayland, desktop", "License: MIT", "Platforms: linux"]
    );
    let mut only_tags = bare_meta();
    only_tags.requires = vec!["aur".to_string()];
    assert_eq!(module_meta_view(&only_tags).expect("shown").details, vec!["Requires: aur"]);
}

#[test]
fn state_map_reads_back_what_was_set() {
    let mut state = PackageMap::new();
    state.insert("aur:bat".into(), PackageState::new("aur", "bat"));
    state.insert("npm:pnpm".into(), PackageState::new("npm", "pnpm"));
    let mut newer = PackageState::new("aur", "bat");
    newer.version = Some("0.24".to_string());
    state.insert("aur:bat".into(), newer);
    assert_eq!(state.len(), 2);
    assert_eq!(state.get("aur:bat").and_then(|p| p.version.clone()), Some("0.24".to_string()));
    assert_eq!(state.get("npm:pnpm").map(|p| p.config_name.clone()), Some("pnpm".to_string()));
    assert!(state.get("aur:fd").is_none());
    let keys: Vec<&str> = state.entries().iter().map(|e| e.0.as_str()).collect();
    assert_eq!(keys, vec!["aur:bat", "npm:pnpm"]);
}

#[test]
fn state_removal_drops_only_named_keys() {
    let mut state = PackageMap::new();
    state.insert("aur:bat".into(), PackageState::new("aur", "bat"));
    state.insert("npm:pnpm".into(), PackageState::new("npm", "pnpm"));
    state.insert("aur:fd".into(), PackageState::new("aur", "fd"));
    let removed = state.remove_keys(&vec!["aur:bat".to_string(), "aur:missing".to_string(), "aur:fd".to_string()]);
    assert_eq!(removed, 2);
    let keys: Vec<&str> = state.entries().iter().map(|e| e.0.as_str()).collect();
    assert_eq!(keys, vec!["npm:pnpm"]);
}

#[test]
fn template_by_name_on_a_day() {
    assert_eq!(backend_template_on("aur", "2024-05-01"), generate_aur_backend_template());
    let custom = backend_template_on("mybk", "2024-05-01");
    assert_eq!(custom, generic_backend_template_on("mybk", "2024-05-01"));
    assert!(custom.contains("created \"2024-05-01\""));
}

fn node(name: &str, values: &[&str], children: Option<Vec<KdlNodeData>>) -> KdlNodeData {
    KdlNodeData { name: name.to_string(), values: values.iter().map(|v| Some(v.to_string())).collect(), children }
}

#[test]
fn backend_meta_read_from_parsed_nodes() {
    let meta = node("meta", &[], Some(vec![
        node("title", &["Paru"], None),
        node("maintainer", &["zed", "amy"], None),
        node("platforms", &["linux"], None),
    ]));
    let nodes = vec![node("other", &[], None), node("backend", &["paru"], Some(vec![meta]))];
    let m = backend_meta_from_nodes(&nodes);
    assert_eq!(m.title, "Paru");
    assert_eq!(m.maintainers, vec!["amy", "zed"]);
    assert_eq!(m.platforms, vec!["linux"]);
    assert_eq!(m.description, "");
    let none = backend_meta_from_nodes(&vec![node("pkg", &[], None)]);
    assert!(none.maintainers.is_empty() && none.title.is_empty());
}

#[test]
fn ascii_backend_names_lower_case() {
    assert_eq!(PackageId::new("AUR", "bat").to_string(), "aur:bat");
}
