//! The `install` command's decisions: which packages go to which backend,
//! and what becomes of each one against the current configuration.
use vstd::prelude::*;
use crate::model::{DeclarchError, MergedConfig, declared_ids};
use crate::outside::{
    debug_quote, debug_quoted, lowercase, regex_insert_after_match, regex_is_match, regex_line_after_match,
    regex_match,
};
use crate::sanitize::{valid_package_name, validate_package_name};
use crate::text::{
    chars_of, concat3, concat5, owned, same_text, split_once, split_once_chars, string_of,
    trim, trim_chars,
};

verus! {

/// Options of the `install` command.
#[derive(Clone, Debug)]
pub struct InstallOptions {
    /// Packages to add, each `[backend:]package`.
    pub packages: Vec<String>,
    /// Backend for the packages that name none.
    pub backend: Option<String>,
    /// Module file to add them to.
    pub module: Option<String>,
    /// Do not synchronise after editing.
    pub no_sync: bool,
    /// Answer prompts with yes.
    pub yes: bool,
    /// Only show what would be done.
    pub dry_run: bool,
    /// Say more.
    pub verbose: bool,
}

/// One package to add, with the backend it goes to.
#[derive(Clone, Debug)]
pub struct PlannedInstall {
    pub package: String,
    pub backend: String,
}

impl View for PlannedInstall {
    type V = (Seq<char>, Seq<char>);

    open spec fn view(&self) -> (Seq<char>, Seq<char>) {
        (self.package@, self.backend@)
    }
}

/// What `[backend:]package` names: the trimmed backend before the first `:`
/// and the trimmed package after it, or no backend and the trimmed input;
/// an error where a side of the `:` is blank.
pub open spec fn package_parts(raw: Seq<char>) -> Result<(Option<Seq<char>>, Seq<char>), Seq<char>> {
    match split_once(raw, ':') {
        Some(p) => if trim(p.0).len() == 0 {
            Err("Invalid package '"@ + raw + "': backend name is empty"@)
        } else if trim(p.1).len() == 0 {
            Err("Invalid package '"@ + raw + "': package name is empty"@)
        } else {
            Ok((Some(trim(p.0)), trim(p.1)))
        },
        None => Ok((None, trim(raw))),
    }
}

/// Splits `[backend:]package` into its optional backend and its package name.
pub fn parse_package_string(raw: &str) -> (r: Result<(Option<String>, String), DeclarchError>)
    ensures
        match package_parts(raw@) {
            Ok(p) => r matches Ok(x) && x.1@ == p.1 && match p.0 {
                Some(b) => x.0 matches Some(xb) && xb@ == b,
                None => x.0 is None,
            },
            Err(m) => r matches Err(DeclarchError::Other(e)) && e@ == m,
        },
{
    let c = chars_of(raw);
    match split_once_chars(c.as_slice(), ':') {
        Some((b, n)) => {
            let bt = trim_chars(b.as_slice());
            let nt = trim_chars(n.as_slice());
            if bt.len() == 0 {
                Err(DeclarchError::Other(concat3("Invalid package '", raw, "': backend name is empty")))
            } else if nt.len() == 0 {
                Err(DeclarchError::Other(concat3("Invalid package '", raw, "': package name is empty")))
            } else {
                Ok((Some(string_of(bt.as_slice())), string_of(nt.as_slice())))
            }
        },
        None => {
            let t = trim_chars(c.as_slice());
            Ok((None, string_of(t.as_slice())))
        },
    }
}

/// Why a package name is refused by `validate_package_name`.
pub open spec fn package_name_problem(name: Seq<char>) -> Seq<char> {
    if name.len() == 0 {
        "Package name cannot be empty"@
    } else {
        "Package name contains unsafe characters: '"@ + name + "'"@
    }
}

/// The message for a package with no backend.
pub open spec fn no_backend_message(name: Seq<char>) -> Seq<char> {
    "Package '"@ + name + "' has no backend. Use '<backend>:"@ + name
        + "' or '--backend <name>'."@
}

/// The plan for one raw package: `(package, backend)`, the backend being
/// the package's own or else the flag's, or the message that refuses it.
pub open spec fn plan_one(raw: Seq<char>, flag: Option<Seq<char>>) -> Result<(Seq<char>, Seq<char>), Seq<char>> {
    match package_parts(raw) {
        Err(m) => Err(m),
        Ok(p) => if !valid_package_name(p.1) {
            Err(package_name_problem(p.1))
        } else {
            match p.0 {
                Some(b) => Ok((p.1, b)),
                None => match flag {
                    Some(f) => Ok((p.1, f)),
                    None => Err(no_backend_message(p.1)),
                },
            }
        },
    }
}

/// The plans for all raw packages in order, or the message for the first
/// one refused.
pub open spec fn plan_all(raws: Seq<Seq<char>>, flag: Option<Seq<char>>) -> Result<Seq<(Seq<char>, Seq<char>)>, Seq<char>>
    decreases raws.len(),
{
    if raws.len() == 0 {
        Ok(Seq::empty())
    } else {
        match plan_all(raws.drop_last(), flag) {
            Err(m) => Err(m),
            Ok(s) => match plan_one(raws.last(), flag) {
                Err(m) => Err(m),
                Ok(p) => Ok(s.push(p)),
            },
        }
    }
}

/// The view of an optional string.
pub open spec fn opt_view(o: Option<&String>) -> Option<Seq<char>> {
    match o {
        Some(s) => Some(s@),
        None => None,
    }
}

/// The view of an optional owned string.
pub open spec fn opt_string(o: Option<String>) -> Option<Seq<char>> {
    match o {
        Some(s) => Some(s@),
        None => None,
    }
}

/// The views of planned installs.
pub open spec fn plan_views(v: Seq<PlannedInstall>) -> Seq<(Seq<char>, Seq<char>)> {
    v.map_values(|p: PlannedInstall| p@)
}

/// Once a prefix of the raw packages is refused, so are all of them, with
/// the same message.
proof fn lemma_plan_all_stops(raws: Seq<Seq<char>>, n: int, flag: Option<Seq<char>>)
    requires
        0 <= n <= raws.len(),
        plan_all(raws.take(n), flag) is Err,
    ensures
        plan_all(raws, flag) == plan_all(raws.take(n), flag),
    decreases raws.len() - n,
{
    if n < raws.len() {
        assert(raws.take(n + 1).drop_last() =~= raws.take(n));
        lemma_plan_all_stops(raws, n + 1, flag);
    } else {
        assert(raws.take(n) =~= raws);
    }
}

/// Plans one raw package.
fn plan_install(raw: &str, backend_flag: Option<&String>) -> (r: Result<PlannedInstall, DeclarchError>)
    ensures
        match plan_one(raw@, opt_view(backend_flag)) {
            Ok(p) => r matches Ok(x) && x@ == p,
            Err(m) => r matches Err(DeclarchError::Other(e)) && e@ == m,
        },
{
    let (backend_override, pkg_name) = parse_package_string(raw)?;
    match validate_package_name(pkg_name.as_str()) {
        Ok(()) => {},
        Err(e) => {
            return Err(e);
        },
    }
    match backend_override {
        Some(b) => Ok(PlannedInstall { package: pkg_name, backend: b }),
        None => match backend_flag {
            Some(f) => Ok(PlannedInstall { package: pkg_name, backend: f.clone() }),
            None => {
                let n = pkg_name.as_str();
                Err(DeclarchError::Other(concat5("Package '", n, "' has no backend. Use '<backend>:", n, "' or '--backend <name>'.")))
            },
        },
    }
}

/// Plans every raw package in order: the package's own backend, else the
/// `--backend` flag; fails on the first package that is malformed, has an
/// unsafe name, or has no backend.
pub fn plan_installs(raw_packages: &Vec<String>, backend_flag: Option<&String>) -> (r: Result<Vec<PlannedInstall>, DeclarchError>)
    ensures
        match plan_all(crate::text::views(raw_packages@), opt_view(backend_flag)) {
            Ok(s) => r matches Ok(v) && plan_views(v@) == s,
            Err(m) => r matches Err(DeclarchError::Other(e)) && e@ == m,
        },
{
    let ghost raws = crate::text::views(raw_packages@);
    let ghost flag = opt_view(backend_flag);
    let mut planned: Vec<PlannedInstall> = Vec::new();
    let mut i: usize = 0;
    assert(raws.take(0) =~= Seq::<Seq<char>>::empty());
    assert(plan_views(planned@) =~= Seq::<(Seq<char>, Seq<char>)>::empty());
    while i < raw_packages.len()
        invariant
            i <= raw_packages.len(),
            raws == crate::text::views(raw_packages@),
            flag == opt_view(backend_flag),
            plan_all(raws.take(i as int), flag) == Ok::<Seq<(Seq<char>, Seq<char>)>, Seq<char>>(plan_views(planned@)),
        decreases raw_packages.len() - i,
    {
        assert(raws.take(i + 1).drop_last() =~= raws.take(i as int));
        assert(raws.take(i + 1).last() == raw_packages@[i as int]@);
        let p = match plan_install(raw_packages[i].as_str(), backend_flag) {
            Ok(p) => p,
            Err(e) => {
                proof {
                    lemma_plan_all_stops(raws, i + 1, flag);
                }
                return Err(e);
            },
        };
        let ghost before = plan_views(planned@);
        planned.push(p);
        assert(plan_views(planned@) =~= before.push(p@));
        i += 1;
    }
    assert(raws.take(raw_packages.len() as int) =~= raws);
    Ok(planned)
}

/// Plans the command's packages: what `install` adds before it touches any file.
pub fn run(options: &InstallOptions) -> (r: Result<Vec<PlannedInstall>, DeclarchError>)
    ensures
        match plan_all(crate::text::views(options.packages@), opt_string(options.backend)) {
            Ok(s) => r matches Ok(v) && plan_views(v@) == s,
            Err(m) => r matches Err(DeclarchError::Other(e)) && e@ == m,
        },
{
    plan_installs(&options.packages, options.backend.as_ref())
}

/// How a planned package stands in the configuration.
#[derive(Clone, Debug)]
pub enum ExistingDeclaration {
    /// Declared already, for the same backend.
    Same,
    /// Declared under the same name for these other backends.
    OtherBackends(Vec<String>),
    /// Not declared.
    Absent,
}

/// The backends, in order, that declare a package named `name`.
pub open spec fn backends_declaring(ids: Seq<(Seq<char>, Seq<char>)>, name: Seq<char>) -> Seq<Seq<char>>
    decreases ids.len(),
{
    if ids.len() == 0 {
        Seq::empty()
    } else {
        let rest = backends_declaring(ids.drop_last(), name);
        if ids.last().1 == name {
            rest.push(ids.last().0)
        } else {
            rest
        }
    }
}

/// How `planned` stands against the declared identities (none when there is
/// no configuration yet).
pub open spec fn declaration_of(planned: (Seq<char>, Seq<char>), ids: Option<Seq<(Seq<char>, Seq<char>)>>) -> Option<Seq<Seq<char>>> {
    match ids {
        None => Some(Seq::empty()),
        Some(s) => if s.contains((lowercase(planned.1), planned.0)) {
            None
        } else {
            Some(backends_declaring(s, planned.0))
        },
    }
}

/// The declared identities of a configuration, if there is one.
pub open spec fn config_ids(config: Option<&MergedConfig>) -> Option<Seq<(Seq<char>, Seq<char>)>> {
    match config {
        Some(c) => Some(declared_ids(c.packages@)),
        None => None,
    }
}

/// Whether a planned package is declared already, under the same backend
/// (`Same`) or under other backends with the same name (`OtherBackends`, in
/// declaration order).
pub fn existing_declaration(planned: &PlannedInstall, config: Option<&MergedConfig>) -> (r: ExistingDeclaration)
    ensures
        match declaration_of(planned@, config_ids(config)) {
            None => r is Same,
            Some(bs) => if bs.len() == 0 {
                r is Absent
            } else {
                r matches ExistingDeclaration::OtherBackends(v) && crate::text::views(v@) == bs
            },
        },
{
    let cfg = match config {
        Some(c) => c,
        None => {
            return ExistingDeclaration::Absent;
        },
    };
    let ghost ids = declared_ids(cfg.packages@);
    assert(config_ids(config) == Some(ids));
    let backend = crate::outside::to_lowercase(planned.backend.as_str());
    let mut i: usize = 0;
    while i < cfg.packages.len()
        invariant
            i <= cfg.packages.len(),
            ids == declared_ids(cfg.packages@),
            config_ids(config) == Some(ids),
            backend@ == lowercase(planned.backend@),
            forall|j: int| 0 <= j < i ==> ids[j] != (backend@, planned.package@),
        decreases cfg.packages.len() - i,
    {
        let id = &cfg.packages[i].id;
        if same_text(id.backend.name(), backend.as_str()) && same_text(id.name.as_str(), planned.package.as_str()) {
            assert(ids[i as int] == (backend@, planned.package@));
            assert(ids.contains((lowercase(planned.backend@), planned.package@)));
            assert(declaration_of(planned@, Some(ids)) is None);
            return ExistingDeclaration::Same;
        }
        i += 1;
    }
    let mut others: Vec<String> = Vec::new();
    let mut k: usize = 0;
    while k < cfg.packages.len()
        invariant
            k <= cfg.packages.len(),
            ids == declared_ids(cfg.packages@),
            config_ids(config) == Some(ids),
            !ids.contains((lowercase(planned.backend@), planned.package@)),
            crate::text::views(others@) == backends_declaring(ids.take(k as int), planned.package@),
        decreases cfg.packages.len() - k,
    {
        assert(ids.take(k + 1).drop_last() =~= ids.take(k as int));
        let id = &cfg.packages[k].id;
        if same_text(id.name.as_str(), planned.package.as_str()) {
            let ghost before = crate::text::views(others@);
            others.push(id.backend.to_string());
            assert(crate::text::views(others@) =~= before.push(id.backend@));
        }
        k += 1;
    }
    assert(ids.take(cfg.packages.len() as int) =~= ids);
    if others.len() == 0 {
        ExistingDeclaration::Absent
    } else {
        ExistingDeclaration::OtherBackends(others)
    }
}

/// What `install` does with one planned package.
#[derive(Clone, Copy, Debug, PartialEq, Eq)]
pub enum InstallAction {
    /// Skipped: declared already for this backend.
    SkipDeclared,
    /// Skipped: the user declined adding it beside other backends.
    SkipDeclined,
    /// Skipped: the backend has no configuration.
    SkipUnknownBackend,
    /// Skipped: the backend is not for this OS.
    SkipOtherOs,
    /// Added to the configuration.
    Add,
}

/// Decides one planned package: declared already → skip; declared for other
/// backends and not confirmed → skip; unknown backend → skip; backend for
/// another OS → skip; otherwise add.
pub fn install_action(existing: &ExistingDeclaration, confirmed: bool, backend_known: bool, backend_supports_os: bool) -> (r: InstallAction)
    ensures
        r == (match existing {
            ExistingDeclaration::Same => InstallAction::SkipDeclared,
            ExistingDeclaration::OtherBackends(_) if !confirmed => InstallAction::SkipDeclined,
            _ => if !backend_known {
                InstallAction::SkipUnknownBackend
            } else if !backend_supports_os {
                InstallAction::SkipOtherOs
            } else {
                InstallAction::Add
            },
        }),
{
    match existing {
        ExistingDeclaration::Same => InstallAction::SkipDeclared,
        ExistingDeclaration::OtherBackends(_) if !confirmed => InstallAction::SkipDeclined,
        _ => if !backend_known {
            InstallAction::SkipUnknownBackend
        } else if !backend_supports_os {
            InstallAction::SkipOtherOs
        } else {
            InstallAction::Add
        },
    }
}

/// The preview `install --dry-run` shows.
#[derive(Clone, Debug)]
pub struct DryRunView {
    pub package_count: usize,
    pub target_module: String,
    pub auto_sync: String,
    /// One `+ backend:package` line per planned package.
    pub lines: Vec<String>,
}

/// The `+ backend:package` line of a planned package.
pub open spec fn plan_line(p: (Seq<char>, Seq<char>)) -> Seq<char> {
    "+ "@ + p.1 + ":"@ + p.0
}

/// The dry-run preview of planned packages under the command's options.
pub fn dry_run_view(options: &InstallOptions, planned: &Vec<PlannedInstall>) -> (r: DryRunView)
    ensures
        r.package_count == planned@.len(),
        r.target_module@ == (match options.module {
            Some(m) => m@,
            None => "modules/others.kdl (default)"@,
        }),
        r.auto_sync@ == (if options.no_sync { "disabled"@ } else { "enabled"@ }),
        r.lines@.len() == planned@.len(),
        forall|i: int| 0 <= i < planned@.len() ==> #[trigger] r.lines@[i]@ == plan_line(planned@[i]@),
{
    let mut lines: Vec<String> = Vec::new();
    let mut i: usize = 0;
    while i < planned.len()
        invariant
            i <= planned.len(),
            lines@.len() == i,
            forall|j: int| 0 <= j < i ==> #[trigger] lines@[j]@ == plan_line(planned@[j]@),
        decreases planned.len() - i,
    {
        let p = &planned[i];
        let mut v = chars_of("+ ");
        crate::text::push_str(&mut v, p.backend.as_str());
        crate::text::push_str(&mut v, ":");
        crate::text::push_str(&mut v, p.package.as_str());
        lines.push(string_of(v.as_slice()));
        i += 1;
    }
    DryRunView {
        package_count: planned.len(),
        target_module: match &options.module {
            Some(m) => m.clone(),
            None => owned("modules/others.kdl (default)"),
        },
        auto_sync: if options.no_sync { owned("disabled") } else { owned("enabled") },
        lines,
    }
}

/// One edit `install` made to a module file.
#[derive(Clone, Debug)]
pub struct ModuleEditRecord {
    /// The edited file.
    pub file_path: String,
    /// The backup taken of the file before the edit, if one was.
    pub backup_path: Option<String>,
    /// The file's name without its extension, where it has one.
    pub module_stem: Option<String>,
    /// The file's path as the root configuration imports it.
    pub import_path: String,
    /// The edit created the file.
    pub created_new_file: bool,
    /// The packages the edit added.
    pub packages_added: Vec<String>,
}

/// What follows the edits: the modules to sync, the packages added, and
/// the imports of newly created module files to add to the root file.
#[derive(Clone, Debug)]
pub struct FinalizePlan {
    pub modified_modules: Vec<String>,
    pub all_packages: Vec<String>,
    pub imports_to_inject: Vec<String>,
}

/// The texts of `s`, each at its first occurrence only.
pub open spec fn first_occurrences(s: Seq<Seq<char>>) -> Seq<Seq<char>>
    decreases s.len(),
{
    if s.len() == 0 {
        Seq::empty()
    } else {
        let r = first_occurrences(s.drop_last());
        if r.contains(s.last()) {
            r
        } else {
            r.push(s.last())
        }
    }
}

/// The stems of the edited files, in edit order.
pub open spec fn edit_stems(edits: Seq<ModuleEditRecord>) -> Seq<Seq<char>>
    decreases edits.len(),
{
    if edits.len() == 0 {
        Seq::empty()
    } else {
        let r = edit_stems(edits.drop_last());
        match edits.last().module_stem {
            Some(m) => r.push(m@),
            None => r,
        }
    }
}

/// The packages all edits added, in edit order.
pub open spec fn edit_packages(edits: Seq<ModuleEditRecord>) -> Seq<Seq<char>>
    decreases edits.len(),
{
    if edits.len() == 0 {
        Seq::empty()
    } else {
        edit_packages(edits.drop_last()) + crate::text::views(edits.last().packages_added@)
    }
}

/// The paths of the files the edits created, in edit order.
pub open spec fn created_paths(edits: Seq<ModuleEditRecord>) -> Seq<Seq<char>>
    decreases edits.len(),
{
    if edits.len() == 0 {
        Seq::empty()
    } else {
        let r = created_paths(edits.drop_last());
        if edits.last().created_new_file {
            r.push(edits.last().import_path@)
        } else {
            r
        }
    }
}

fn contains_text(v: &Vec<String>, t: &str) -> (r: bool)
    ensures
        r == crate::text::views(v@).contains(t@),
{
    let mut i: usize = 0;
    while i < v.len()
        invariant
            i <= v.len(),
            forall|j: int| 0 <= j < i ==> v@[j]@ != t@,
        decreases v.len() - i,
    {
        if same_text(v[i].as_str(), t) {
            assert(crate::text::views(v@)[i as int] == t@);
            return true;
        }
        i += 1;
    }
    assert forall|j: int| 0 <= j < crate::text::views(v@).len() implies crate::text::views(v@)[j] != t@ by {
        assert(crate::text::views(v@)[j] == v@[j]@);
    }
    false
}

/// Gathers what follows the edits: each edited module once, in edit order;
/// every added package; and the created files whose imports go into the
/// root configuration.
pub fn finalize_edits(edits: &Vec<ModuleEditRecord>) -> (r: FinalizePlan)
    ensures
        crate::text::views(r.modified_modules@) == first_occurrences(edit_stems(edits@)),
        crate::text::views(r.all_packages@) == edit_packages(edits@),
        crate::text::views(r.imports_to_inject@) == created_paths(edits@),
{
    let mut modules: Vec<String> = Vec::new();
    let mut packages: Vec<String> = Vec::new();
    let mut imports: Vec<String> = Vec::new();
    let mut i: usize = 0;
    while i < edits.len()
        invariant
            i <= edits.len(),
            crate::text::views(modules@) == first_occurrences(edit_stems(edits@.take(i as int))),
            crate::text::views(packages@) == edit_packages(edits@.take(i as int)),
            crate::text::views(imports@) == created_paths(edits@.take(i as int)),
        decreases edits.len() - i,
    {
        assert(edits@.take(i + 1).drop_last() =~= edits@.take(i as int));
        assert(edits@.take(i + 1).last() == edits@[i as int]);
        let e = &edits[i];
        let ghost mods0 = crate::text::views(modules@);
        let ghost st0 = edit_stems(edits@.take(i as int));
        match &e.module_stem {
            Some(m) => {
                assert(edit_stems(edits@.take(i + 1)) == st0.push(m@));
                assert(st0.push(m@).drop_last() =~= st0);
                if !contains_text(&modules, m.as_str()) {
                    modules.push(m.clone());
                    assert(crate::text::views(modules@) =~= mods0.push(m@));
                }
            },
            None => {
                assert(edit_stems(edits@.take(i + 1)) == st0);
            },
        }
        let ghost pk0 = crate::text::views(packages@);
        let mut k: usize = 0;
        while k < e.packages_added.len()
            invariant
                k <= e.packages_added.len(),
                crate::text::views(packages@) == pk0 + crate::text::views(e.packages_added@).take(k as int),
            decreases e.packages_added.len() - k,
        {
            let ghost before = crate::text::views(packages@);
            packages.push(e.packages_added[k].clone());
            assert(crate::text::views(e.packages_added@).take(k + 1)
                =~= crate::text::views(e.packages_added@).take(k as int).push(e.packages_added@[k as int]@));
            assert(crate::text::views(packages@) =~= before.push(e.packages_added@[k as int]@));
            k += 1;
        }
        assert(crate::text::views(e.packages_added@).take(e.packages_added.len() as int)
            =~= crate::text::views(e.packages_added@));
        if e.created_new_file {
            let ghost im0 = crate::text::views(imports@);
            imports.push(e.import_path.clone());
            assert(crate::text::views(imports@) =~= im0.push(e.import_path@));
        }
        i += 1;
    }
    assert(edits@.take(edits.len() as int) =~= edits@);
    FinalizePlan { modified_modules: modules, all_packages: packages, imports_to_inject: imports }
}

/// The pattern of the first line that opens an `imports` block, whatever
/// precedes the word on its line.
pub open spec fn install_imports_opening() -> Seq<char> {
    "(?m)^(.*imports\\s*\\{)"@
}

/// The root configuration text with a new module's import added, or
/// `None` when the text mentions the import path already: the import goes
/// on a line after the first opening of an `imports` block, else into a new
/// block appended after the text (trailing whitespace cut).
pub open spec fn with_install_import(content: Seq<char>, import_path: Seq<char>) -> Option<Seq<char>> {
    if crate::text::has_sub(content, import_path) {
        None
    } else {
        let line = "    "@ + debug_quoted(import_path);
        Some(if regex_match(install_imports_opening(), content) {
            regex_line_after_match(install_imports_opening(), content, line)
        } else {
            crate::text::trim_end(content) + "\n\nimports {\n"@ + line + "\n}\n"@
        })
    }
}

/// Adds the import of a module that `install` created to the root
/// configuration text (see `with_install_import`).
pub fn install_import_text(content: &str, import_path: &str) -> (r: Option<String>)
    ensures
        opt_string(r) == with_install_import(content@, import_path@),
{
    let c = chars_of(content);
    let p = chars_of(import_path);
    if crate::text::contains_chars(c.as_slice(), p.as_slice()) {
        return None;
    }
    let quoted = debug_quote(import_path);
    let mut line = chars_of("    ");
    crate::text::push_str(&mut line, quoted.as_str());
    let line = string_of(line.as_slice());
    if regex_is_match("(?m)^(.*imports\\s*\\{)", content) {
        Some(regex_insert_after_match("(?m)^(.*imports\\s*\\{)", content, line.as_str()))
    } else {
        let mut out = crate::text::trim_end_chars(&c);
        crate::text::push_str(&mut out, "\n\nimports {\n");
        crate::text::push_str(&mut out, line.as_str());
        crate::text::push_str(&mut out, "\n}\n");
        Some(string_of(out.as_slice()))
    }
}

/// One step of undoing `install`'s edits.
#[derive(Clone, Debug)]
pub enum RollbackStep {
    /// Restore a file from this backup.
    Restore(String),
    /// Delete this file, which the edits created.
    Delete(String),
}

/// The view of a rollback step: whether it restores, and its path.
pub open spec fn step_view(s: RollbackStep) -> (bool, Seq<char>) {
    match s {
        RollbackStep::Restore(p) => (true, p@),
        RollbackStep::Delete(p) => (false, p@),
    }
}

/// The steps that undo the edits, in edit order: restore each edited file
/// from its backup; delete each file an edit created and has no backup of.
pub open spec fn edit_rollback(edits: Seq<ModuleEditRecord>) -> Seq<(bool, Seq<char>)>
    decreases edits.len(),
{
    if edits.len() == 0 {
        Seq::empty()
    } else {
        let rest = edit_rollback(edits.drop_last());
        let e = edits.last();
        match e.backup_path {
            Some(b) => rest.push((true, b@)),
            None => if e.created_new_file {
                rest.push((false, e.file_path@))
            } else {
                rest
            },
        }
    }
}

/// The steps that undo `install`'s edits (see `edit_rollback`), then the
/// root configuration's restore from its backup when one was taken.
pub fn rollback_plan(edits: &Vec<ModuleEditRecord>, root_backup: Option<&String>) -> (r: Vec<RollbackStep>)
    ensures
        r@.map_values(|s: RollbackStep| step_view(s)) == match root_backup {
            Some(b) => edit_rollback(edits@).push((true, b@)),
            None => edit_rollback(edits@),
        },
{
    let mut steps: Vec<RollbackStep> = Vec::new();
    let mut i: usize = 0;
    while i < edits.len()
        invariant
            i <= edits.len(),
            steps@.map_values(|s: RollbackStep| step_view(s)) == edit_rollback(edits@.take(i as int)),
        decreases edits.len() - i,
    {
        assert(edits@.take(i + 1).drop_last() =~= edits@.take(i as int));
        assert(edits@.take(i + 1).last() == edits@[i as int]);
        let ghost before = steps@.map_values(|s: RollbackStep| step_view(s));
        let e = &edits[i];
        match &e.backup_path {
            Some(b) => {
                steps.push(RollbackStep::Restore(b.clone()));
                assert(steps@.map_values(|s: RollbackStep| step_view(s)) =~= before.push((true, b@)));
            },
            None => {
                if e.created_new_file {
                    steps.push(RollbackStep::Delete(e.file_path.clone()));
                    assert(steps@.map_values(|s: RollbackStep| step_view(s)) =~= before.push((false, e.file_path@)));
                }
            },
        }
        i += 1;
    }
    assert(edits@.take(edits.len() as int) =~= edits@);
    if let Some(b) = root_backup {
        let ghost before = steps@.map_values(|s: RollbackStep| step_view(s));
        steps.push(RollbackStep::Restore(b.clone()));
        assert(steps@.map_values(|s: RollbackStep| step_view(s)) =~= before.push((true, b@)));
    }
    steps
}

/// The backups of the edited files, in edit order.
pub open spec fn edit_backups(edits: Seq<ModuleEditRecord>) -> Seq<Seq<char>>
    decreases edits.len(),
{
    if edits.len() == 0 {
        Seq::empty()
    } else {
        let rest = edit_backups(edits.drop_last());
        match edits.last().backup_path {
            Some(b) => rest.push(b@),
            None => rest,
        }
    }
}

/// The backups to delete once the edits are kept: each edited file's, then
/// the root configuration's when one was taken.
pub fn cleanup_plan(edits: &Vec<ModuleEditRecord>, root_backup: Option<&String>) -> (r: Vec<String>)
    ensures
        crate::text::views(r@) == match root_backup {
            Some(b) => edit_backups(edits@).push(b@),
            None => edit_backups(edits@),
        },
{
    let mut out: Vec<String> = Vec::new();
    let mut i: usize = 0;
    while i < edits.len()
        invariant
            i <= edits.len(),
            crate::text::views(out@) == edit_backups(edits@.take(i as int)),
        decreases edits.len() - i,
    {
        assert(edits@.take(i + 1).drop_last() =~= edits@.take(i as int));
        assert(edits@.take(i + 1).last() == edits@[i as int]);
        let ghost before = crate::text::views(out@);
        if let Some(b) = &edits[i].backup_path {
            out.push(b.clone());
            assert(crate::text::views(out@) =~= before.push(b@));
        }
        i += 1;
    }
    assert(edits@.take(edits.len() as int) =~= edits@);
    if let Some(b) = root_backup {
        let ghost before = crate::text::views(out@);
        out.push(b.clone());
        assert(crate::text::views(out@) =~= before.push(b@));
    }
    out
}

/// How many planned packages are skipped rather than added.
pub open spec fn skipped_count(actions: Seq<InstallAction>) -> nat
    decreases actions.len(),
{
    if actions.len() == 0 {
        0
    } else {
        skipped_count(actions.drop_last()) + if actions.last() == InstallAction::Add { 0nat } else { 1nat }
    }
}

/// Tallies the per-package decisions: how many were skipped, and whether all
/// of the requested packages were (then `install` stops: they all exist).
pub fn install_tally(actions: &Vec<InstallAction>, requested: usize) -> (r: (usize, bool))
    ensures
        r.0 == skipped_count(actions@),
        r.1 == (skipped_count(actions@) == requested),
{
    let mut n: usize = 0;
    let mut i: usize = 0;
    while i < actions.len()
        invariant
            i <= actions.len(),
            n == skipped_count(actions@.take(i as int)),
            n <= i,
        decreases actions.len() - i,
    {
        assert(actions@.take(i + 1).drop_last() =~= actions@.take(i as int));
        assert(actions@.take(i + 1).last() == actions@[i as int]);
        match actions[i] {
            InstallAction::Add => {},
            _ => {
                n += 1;
            },
        }
        i += 1;
    }
    assert(actions@.take(actions.len() as int) =~= actions@);
    (n, n == requested)
}

/// How the automatic sync after the edits ended.
#[derive(Debug)]
pub enum SyncOutcome {
    /// It ran to its end.
    Completed,
    /// The user interrupted it.
    Interrupted,
    /// It failed with this error.
    Failed(DeclarchError),
}

/// What `install` does after the automatic sync.
#[derive(Debug)]
pub enum AfterSync {
    /// Keep the edits.
    Keep,
    /// Roll the edits back and report that they were rolled back.
    RollBack,
    /// Roll the edits back and fail with the sync's error.
    RollBackAndFail(DeclarchError),
}

/// Decides what becomes of the edits after the automatic sync: kept when it
/// completed without an interruption, rolled back when it was interrupted
/// (or completed while an interrupt was signalled), rolled back and failed
/// with the sync's error otherwise.
pub fn after_auto_sync(outcome: SyncOutcome, interrupted: bool) -> (r: AfterSync)
    ensures
        match outcome {
            SyncOutcome::Completed => if interrupted { r is RollBack } else { r is Keep },
            SyncOutcome::Interrupted => r is RollBack,
            SyncOutcome::Failed(e) => r matches AfterSync::RollBackAndFail(x) && x == e,
        },
{
    match outcome {
        SyncOutcome::Completed => if interrupted { AfterSync::RollBack } else { AfterSync::Keep },
        SyncOutcome::Interrupted => AfterSync::RollBack,
        SyncOutcome::Failed(e) => AfterSync::RollBackAndFail(e),
    }
}

/// Law: planning is per package. It succeeds exactly when every raw
/// package plans on its own, and then gives one plan per package, in order,
/// each the package's own plan.
pub proof fn law_planning_is_per_package(raws: Seq<Seq<char>>, flag: Option<Seq<char>>)
    ensures
        plan_all(raws, flag) is Ok <==> forall|i: int| 0 <= i < raws.len() ==> (#[trigger] plan_one(raws[i], flag)) is Ok,
        plan_all(raws, flag) matches Ok(s) ==> s.len() == raws.len() && forall|i: int| 0 <= i < raws.len()
            ==> Ok::<(Seq<char>, Seq<char>), Seq<char>>(#[trigger] s[i]) == plan_one(raws[i], flag),
    decreases raws.len(),
{
    if raws.len() > 0 {
        let d = raws.drop_last();
        law_planning_is_per_package(d, flag);
        assert forall|i: int| 0 <= i < d.len() implies #[trigger] plan_one(d[i], flag) == plan_one(raws[i], flag) by {
            assert(d[i] == raws[i]);
        }
        if plan_all(raws, flag) is Ok {
            assert forall|i: int| 0 <= i < raws.len() implies (#[trigger] plan_one(raws[i], flag)) is Ok by {
                if i < d.len() {
                    assert(plan_one(d[i], flag) is Ok);
                }
            }
        }
        if forall|i: int| 0 <= i < raws.len() ==> (#[trigger] plan_one(raws[i], flag)) is Ok {
            assert forall|i: int| 0 <= i < d.len() implies (#[trigger] plan_one(d[i], flag)) is Ok by {
                assert(plan_one(raws[i], flag) is Ok);
            }
            assert(plan_one(raws[raws.len() - 1], flag) is Ok);
        }
    }
}

/// Law: a package's own `backend:` prefix decides its backend, whatever
/// `--backend` says; the flag gives the backend only to packages written
/// without a prefix. Planning a prefixed package with or without the flag
/// gives the same answer; a planned package's backend is the trimmed text
/// before its first `:`, or else the flag.
pub proof fn law_prefix_beats_flag(raw: Seq<char>, flag: Option<Seq<char>>)
    ensures
        raw.contains(':') ==> plan_one(raw, flag) == plan_one(raw, None),
        plan_one(raw, flag) matches Ok(x) ==> x.1 == (if raw.contains(':') {
            trim((split_once(raw, ':')->0).0)
        } else {
            flag->0
        }),
        !raw.contains(':') && flag is None ==> plan_one(raw, flag) is Err,
{
    raw.index_of_first_ensures(':');
}

/// Law: in a whole plan, every package written `backend:package` goes to
/// its own backend, and every other package to the `--backend` flag's.
pub proof fn law_plan_backends(raws: Seq<Seq<char>>, flag: Option<Seq<char>>)
    ensures
        plan_all(raws, flag) matches Ok(s) ==> forall|i: int| 0 <= i < raws.len() ==> (#[trigger] s[i]).1 == (
            if raws[i].contains(':') {
                trim((split_once(raws[i], ':')->0).0)
            } else {
                flag->0
            }),
{
    law_planning_is_per_package(raws, flag);
    if plan_all(raws, flag) is Ok {
        let s = plan_all(raws, flag)->Ok_0;
        assert forall|i: int| 0 <= i < raws.len() implies (#[trigger] s[i]).1 == (
            if raws[i].contains(':') {
                trim((split_once(raws[i], ':')->0).0)
            } else {
                flag->0
            }) by {
            law_prefix_beats_flag(raws[i], flag);
            assert(Ok::<(Seq<char>, Seq<char>), Seq<char>>(s[i]) == plan_one(raws[i], flag));
        }
    }
}

} // verus!
