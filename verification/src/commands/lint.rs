//! The `lint` command's decisions: which issues a configuration has, how
//! severe they are, and whether the run fails.
use vstd::prelude::*;
use crate::commands::install::backends_declaring;
use crate::model::{DeclarchError, MergedConfig, declared_ids, package_label};
use crate::outside::{KdlNodeData, kdl_parse, kdl_parsed};
use crate::text::{
    chars_of, concat2, concat3, decimal, join, joined, owned, push_str, same_text,
    split_all, split_all_chars, starts_with_chars, string_of, usize_text, views,
};

pub mod file_checks;
pub mod import_sort_idempotence;
pub mod state_ops;

verus! {

/// Options of the `lint` command.
#[derive(Clone, Debug)]
pub struct LintOptions {
    pub strict: bool,
    pub fix: bool,
    pub mode: LintMode,
    pub backend: Option<String>,
    pub diff: bool,
    pub benchmark: bool,
    pub repair_state: bool,
    pub state_rm: Vec<String>,
    pub state_rm_backend: Option<String>,
    pub state_rm_all: bool,
    pub dry_run: bool,
    pub yes: bool,
    pub format: Option<String>,
    pub output_version: Option<String>,
    pub verbose: bool,
    pub profile: Option<String>,
    pub host: Option<String>,
    pub modules: Vec<String>,
}

/// Which checks `lint` runs.
#[derive(Clone, Copy, Debug, PartialEq, Eq)]
pub enum LintMode {
    All,
    Validate,
    Duplicates,
    Conflicts,
}

/// How severe an issue is.
#[derive(Clone, Copy, Debug, PartialEq, Eq)]
pub enum Severity {
    Warning,
    Error,
}

/// One finding: its severity, the file it is about (if any) and its message.
#[derive(Clone, Debug)]
pub struct LintIssue {
    pub severity: Severity,
    pub file: Option<String>,
    pub message: String,
}

/// The view of an optional owned string.
pub open spec fn opt_seq(o: Option<String>) -> Option<Seq<char>> {
    match o {
        Some(s) => Some(s@),
        None => None,
    }
}

impl View for LintIssue {
    type V = (Severity, Option<Seq<char>>, Seq<char>);

    open spec fn view(&self) -> (Severity, Option<Seq<char>>, Seq<char>) {
        (self.severity, opt_seq(self.file), self.message@)
    }
}

impl LintIssue {
    /// A warning.
    pub fn warning(file: Option<String>, message: String) -> (r: LintIssue)
        ensures
            r.severity == Severity::Warning,
            r.file == file,
            r.message == message,
    {
        LintIssue { severity: Severity::Warning, file, message }
    }

    /// An error.
    pub fn error(file: Option<String>, message: String) -> (r: LintIssue)
        ensures
            r.severity == Severity::Error,
            r.file == file,
            r.message == message,
    {
        LintIssue { severity: Severity::Error, file, message }
    }
}

/// The views of issues.
pub open spec fn issue_views(v: Seq<LintIssue>) -> Seq<(Severity, Option<Seq<char>>, Seq<char>)> {
    v.map_values(|i: LintIssue| i@)
}

/// How many issues have the given severity.
pub open spec fn severity_count(v: Seq<(Severity, Option<Seq<char>>, Seq<char>)>, s: Severity) -> nat
    decreases v.len(),
{
    if v.len() == 0 {
        0
    } else {
        severity_count(v.drop_last(), s) + if v.last().0 == s { 1nat } else { 0nat }
    }
}

/// Counts warnings and errors.
pub fn count_issues(issues: &Vec<LintIssue>) -> (r: (usize, usize))
    ensures
        r.0 == severity_count(issue_views(issues@), Severity::Warning),
        r.1 == severity_count(issue_views(issues@), Severity::Error),
{
    let ghost iv = issue_views(issues@);
    let mut w: usize = 0;
    let mut e: usize = 0;
    let mut i: usize = 0;
    while i < issues.len()
        invariant
            i <= issues@.len(),
            iv == issue_views(issues@),
            w == severity_count(iv.take(i as int), Severity::Warning),
            e == severity_count(iv.take(i as int), Severity::Error),
            w + e == i,
        decreases issues.len() - i,
    {
        assert(iv.take(i + 1).drop_last() =~= iv.take(i as int));
        assert(iv.take(i + 1).last() == issues@[i as int]@);
        match issues[i].severity {
            Severity::Warning => w += 1,
            Severity::Error => e += 1,
        }
        i += 1;
    }
    assert(iv.take(issues.len() as int) =~= iv);
    (w, e)
}

/// The severity a policy flag asks for.
pub open spec fn severity_for(as_error: bool) -> Severity {
    if as_error { Severity::Error } else { Severity::Warning }
}

/// The message for a package declared in several files.
pub open spec fn duplicate_message(id: (Seq<char>, Seq<char>), sources: nat) -> Seq<char> {
    "Duplicate declaration: "@ + package_label(id) + " appears in "@ + decimal(sources)
        + " source file(s)"@
}

/// The declared packages, as identity and number of declaring files.
pub open spec fn declarations(config: MergedConfig) -> Seq<((Seq<char>, Seq<char>), nat)> {
    config.packages@.map_values(|p: crate::model::DeclaredPackage| (p.id@, p.sources@.len()))
}

/// The duplicate-declaration issues: one per package declared in more than
/// one file, of the filtered backend if there is one, in declaration order.
pub open spec fn duplicate_issues_of(
    decls: Seq<((Seq<char>, Seq<char>), nat)>,
    filter: Option<Seq<char>>,
    as_error: bool,
) -> Seq<(Severity, Option<Seq<char>>, Seq<char>)>
    decreases decls.len(),
{
    if decls.len() == 0 {
        Seq::empty()
    } else {
        let rest = duplicate_issues_of(decls.drop_last(), filter, as_error);
        let d = decls.last();
        if d.1 > 1 && (filter matches Some(f) ==> d.0.0 == f) {
            rest.push((severity_for(as_error), None, duplicate_message(d.0, d.1)))
        } else {
            rest
        }
    }
}

/// The view of an optional string slice.
pub open spec fn opt_str(o: Option<&str>) -> Option<Seq<char>> {
    match o {
        Some(s) => Some(s@),
        None => None,
    }
}

/// Adds an issue for every package declared in more than one file (of the
/// filtered backend, if any); errors when the policy says so.
pub fn collect_duplicate_issues(merged: &MergedConfig, backend_filter: Option<&str>, issues: &mut Vec<LintIssue>)
    ensures
        issue_views(final(issues)@) == issue_views(old(issues)@) + duplicate_issues_of(
            declarations(*merged),
            opt_str(backend_filter),
            merged.duplicate_is_error,
        ),
{
    let ghost start = issue_views(issues@);
    let ghost decls = declarations(*merged);
    let mut i: usize = 0;
    while i < merged.packages.len()
        invariant
            i <= merged.packages@.len(),
            decls == declarations(*merged),
            issue_views(issues@) == start + duplicate_issues_of(decls.take(i as int), opt_str(backend_filter), merged.duplicate_is_error),
        decreases merged.packages.len() - i,
    {
        assert(decls.take(i + 1).drop_last() =~= decls.take(i as int));
        assert(decls.take(i + 1).last() == (merged.packages@[i as int].id@, merged.packages@[i as int].sources@.len()));
        let p = &merged.packages[i];
        let keep = match backend_filter {
            Some(f) => same_text(p.id.backend.name(), f),
            None => true,
        };
        if p.sources.len() > 1 && keep {
            let label = p.id.to_string();
            let count = usize_text(p.sources.len());
            let mut m = chars_of("Duplicate declaration: ");
            push_str(&mut m, label.as_str());
            push_str(&mut m, " appears in ");
            push_str(&mut m, count.as_str());
            push_str(&mut m, " source file(s)");
            let msg = string_of(m.as_slice());
            let issue = if merged.duplicate_is_error {
                LintIssue::error(None, msg)
            } else {
                LintIssue::warning(None, msg)
            };
            let ghost before = issue_views(issues@);
            issues.push(issue);
            assert(issue_views(issues@) =~= before.push(issue@));
        }
        i += 1;
    }
    assert(decls.take(merged.packages.len() as int) =~= decls);
}

/// The package names, each once, in order of first declaration.
pub open spec fn first_names(ids: Seq<(Seq<char>, Seq<char>)>) -> Seq<Seq<char>>
    decreases ids.len(),
{
    if ids.len() == 0 {
        Seq::empty()
    } else {
        let rest = first_names(ids.drop_last());
        if rest.contains(ids.last().1) {
            rest
        } else {
            rest.push(ids.last().1)
        }
    }
}

/// The message for a name declared for several backends.
pub open spec fn conflict_message(name: Seq<char>, backends: Seq<Seq<char>>) -> Seq<char> {
    "Cross-backend conflict candidate: '"@ + name + "' exists in ["@ + joined(backends, ", "@) + "]"@
}

/// The conflict issues for the given names: one per name declared for more
/// than one backend (one of them the filtered backend, if any).
pub open spec fn conflict_issues_of(
    names: Seq<Seq<char>>,
    ids: Seq<(Seq<char>, Seq<char>)>,
    filter: Option<Seq<char>>,
    as_error: bool,
) -> Seq<(Severity, Option<Seq<char>>, Seq<char>)>
    decreases names.len(),
{
    if names.len() == 0 {
        Seq::empty()
    } else {
        let rest = conflict_issues_of(names.drop_last(), ids, filter, as_error);
        let n = names.last();
        let bs = backends_declaring(ids, n);
        if bs.len() > 1 && (filter matches Some(f) ==> bs.contains(f)) {
            rest.push((severity_for(as_error), None, conflict_message(n, bs)))
        } else {
            rest
        }
    }
}

/// The distinct package names in order of first declaration.
pub fn names_in_order(merged: &MergedConfig) -> (r: Vec<String>)
    ensures
        views(r@) == first_names(declared_ids(merged.packages@)),
{
    let ghost ids = declared_ids(merged.packages@);
    let mut names: Vec<String> = Vec::new();
    let mut i: usize = 0;
    while i < merged.packages.len()
        invariant
            i <= merged.packages@.len(),
            ids == declared_ids(merged.packages@),
            views(names@) == first_names(ids.take(i as int)),
        decreases merged.packages.len() - i,
    {
        assert(ids.take(i + 1).drop_last() =~= ids.take(i as int));
        assert(ids.take(i + 1).last() == merged.packages@[i as int].id@);
        let n = merged.packages[i].id.name.as_str();
        let mut k: usize = 0;
        while k < names.len() && !same_text(names[k].as_str(), n)
            invariant
                k <= names@.len(),
                forall|j: int| 0 <= j < k ==> names@[j]@ != n@,
            decreases names.len() - k,
        {
            k += 1;
        }
        if k == names.len() {
            let ghost before = views(names@);
            assert(!before.contains(n@)) by {
                if before.contains(n@) {
                    let j = choose|j: int| 0 <= j < before.len() && before[j] == n@;
                    assert(names@[j]@ == before[j]);
                }
            }
            names.push(merged.packages[i].id.name.clone());
            assert(views(names@) =~= before.push(n@));
        } else {
            assert(views(names@)[k as int] == n@);
        }
        i += 1;
    }
    assert(ids.take(merged.packages.len() as int) =~= ids);
    names
}

/// The backends, in declaration order, that declare a package named `name`.
pub fn backends_of_name(merged: &MergedConfig, name: &str) -> (r: Vec<String>)
    ensures
        views(r@) == backends_declaring(declared_ids(merged.packages@), name@),
{
    let ghost ids = declared_ids(merged.packages@);
    let mut r: Vec<String> = Vec::new();
    let mut k: usize = 0;
    while k < merged.packages.len()
        invariant
            k <= merged.packages@.len(),
            ids == declared_ids(merged.packages@),
            views(r@) == backends_declaring(ids.take(k as int), name@),
        decreases merged.packages.len() - k,
    {
        assert(ids.take(k + 1).drop_last() =~= ids.take(k as int));
        let id = &merged.packages[k].id;
        if same_text(id.name.as_str(), name) {
            let ghost before = views(r@);
            r.push(id.backend.to_string());
            assert(views(r@) =~= before.push(id.backend@));
        }
        k += 1;
    }
    assert(ids.take(merged.packages.len() as int) =~= ids);
    r
}

/// Whether a text is among the strings.
fn among(v: &Vec<String>, s: &str) -> (r: bool)
    ensures
        r == views(v@).contains(s@),
{
    let mut i: usize = 0;
    while i < v.len()
        invariant
            i <= v@.len(),
            forall|j: int| 0 <= j < i ==> v@[j]@ != s@,
        decreases v.len() - i,
    {
        if same_text(v[i].as_str(), s) {
            assert(views(v@)[i as int] == s@);
            return true;
        }
        i += 1;
    }
    assert forall|j: int| 0 <= j < views(v@).len() implies views(v@)[j] != s@ by {
        assert(views(v@)[j] == v@[j]@);
    }
    false
}

/// Adds an issue for every package name declared for more than one backend
/// (one of them the filtered backend, if any), names in order of first
/// declaration; errors when the policy says so.
pub fn collect_conflict_issues(merged: &MergedConfig, backend_filter: Option<&str>, issues: &mut Vec<LintIssue>)
    ensures
        issue_views(final(issues)@) == issue_views(old(issues)@) + conflict_issues_of(
            first_names(declared_ids(merged.packages@)),
            declared_ids(merged.packages@),
            opt_str(backend_filter),
            merged.conflict_is_error,
        ),
{
    let ghost start = issue_views(issues@);
    let ghost ids = declared_ids(merged.packages@);
    let names = names_in_order(merged);
    let ghost nv = views(names@);
    let mut i: usize = 0;
    while i < names.len()
        invariant
            i <= names@.len(),
            nv == views(names@),
            ids == declared_ids(merged.packages@),
            issue_views(issues@) == start + conflict_issues_of(nv.take(i as int), ids, opt_str(backend_filter), merged.conflict_is_error),
        decreases names.len() - i,
    {
        assert(nv.take(i + 1).drop_last() =~= nv.take(i as int));
        assert(nv.take(i + 1).last() == names@[i as int]@);
        let bs = backends_of_name(merged, names[i].as_str());
        let keep = match backend_filter {
            Some(f) => among(&bs, f),
            None => true,
        };
        if bs.len() > 1 && keep {
            let list = join(&bs, ", ");
            let mut m = chars_of("Cross-backend conflict candidate: '");
            push_str(&mut m, names[i].as_str());
            push_str(&mut m, "' exists in [");
            push_str(&mut m, list.as_str());
            push_str(&mut m, "]");
            let msg = string_of(m.as_slice());
            let issue = if merged.conflict_is_error {
                LintIssue::error(None, msg)
            } else {
                LintIssue::warning(None, msg)
            };
            let ghost before = issue_views(issues@);
            issues.push(issue);
            assert(issue_views(issues@) =~= before.push(issue@));
        }
        i += 1;
    }
    assert(nv.take(names.len() as int) =~= nv);
}

/// The warning for hooks that are configured but not switched on.
pub open spec fn hooks_disabled_message() -> Seq<char> {
    "Hooks configured but not executable: add experimental { \"enable-hooks\" } if intentional"@
}

/// The message for a package on the implicit `default` backend.
pub open spec fn default_backend_message(name: Seq<char>) -> Seq<char> {
    "Package '"@ + name
        + "' uses implicit 'default' backend (legacy syntax). Prefer explicit pkg{ backend { ... } }"@
}

/// One issue per package on the `default` backend, in declaration order.
pub open spec fn default_backend_issues(ids: Seq<(Seq<char>, Seq<char>)>, as_error: bool) -> Seq<(Severity, Option<Seq<char>>, Seq<char>)>
    decreases ids.len(),
{
    if ids.len() == 0 {
        Seq::empty()
    } else {
        let rest = default_backend_issues(ids.drop_last(), as_error);
        if ids.last().0 == "default"@ {
            rest.push((severity_for(as_error), None, default_backend_message(ids.last().1)))
        } else {
            rest
        }
    }
}

/// The other issues of a merged configuration: hooks configured without the
/// `enable-hooks` experiment, then packages on the implicit `default`
/// backend (errors when the policy requires a backend).
pub open spec fn misc_issues_of(config: MergedConfig) -> Seq<(Severity, Option<Seq<char>>, Seq<char>)> {
    (if config.has_hooks && !config.hooks_experiment_enabled {
        seq![(Severity::Warning, None::<Seq<char>>, hooks_disabled_message())]
    } else {
        Seq::empty()
    }) + default_backend_issues(declared_ids(config.packages@), config.require_backend)
}

/// Adds the other issues of a merged configuration (see `misc_issues_of`).
pub fn collect_misc_merged_issues(merged: &MergedConfig, issues: &mut Vec<LintIssue>)
    ensures
        issue_views(final(issues)@) == issue_views(old(issues)@) + misc_issues_of(*merged),
{
    let ghost start = issue_views(issues@);
    if merged.has_hooks && !merged.hooks_experiment_enabled {
        let issue = LintIssue::warning(None, owned("Hooks configured but not executable: add experimental { \"enable-hooks\" } if intentional"));
        issues.push(issue);
        assert(issue_views(issues@) =~= start.push(issue@));
    }
    let ghost mid = issue_views(issues@);
    let ghost ids = declared_ids(merged.packages@);
    let mut i: usize = 0;
    while i < merged.packages.len()
        invariant
            i <= merged.packages@.len(),
            ids == declared_ids(merged.packages@),
            issue_views(issues@) == mid + default_backend_issues(ids.take(i as int), merged.require_backend),
        decreases merged.packages.len() - i,
    {
        assert(ids.take(i + 1).drop_last() =~= ids.take(i as int));
        assert(ids.take(i + 1).last() == merged.packages@[i as int].id@);
        let id = &merged.packages[i].id;
        if same_text(id.backend.name(), "default") {
            let msg = concat3("Package '", id.name.as_str(), "' uses implicit 'default' backend (legacy syntax). Prefer explicit pkg{ backend { ... } }");
            let issue = if merged.require_backend {
                LintIssue::error(None, msg)
            } else {
                LintIssue::warning(None, msg)
            };
            let ghost before = issue_views(issues@);
            issues.push(issue);
            assert(issue_views(issues@) =~= before.push(issue@));
        }
        i += 1;
    }
    assert(ids.take(merged.packages.len() as int) =~= ids);
    assert(issue_views(issues@) =~= start + misc_issues_of(*merged));
}

/// The issues a mode collects: all checks (duplicates, conflicts, other
/// merged issues, file issues, state issues, in that order), only the file
/// checks, only duplicates, or only conflicts.
pub open spec fn issues_for_mode(
    options: LintOptions,
    merged: MergedConfig,
    file_issues: Seq<(Severity, Option<Seq<char>>, Seq<char>)>,
    state_issues: Seq<(Severity, Option<Seq<char>>, Seq<char>)>,
) -> Seq<(Severity, Option<Seq<char>>, Seq<char>)> {
    let filter = opt_seq(options.backend);
    let dups = duplicate_issues_of(declarations(merged), filter, merged.duplicate_is_error);
    let ids = declared_ids(merged.packages@);
    let conflicts = conflict_issues_of(first_names(ids), ids, filter, merged.conflict_is_error);
    match options.mode {
        LintMode::All => dups + conflicts + misc_issues_of(merged) + file_issues + state_issues,
        LintMode::Validate => file_issues,
        LintMode::Duplicates => dups,
        LintMode::Conflicts => conflicts,
    }
}

/// Appends copies of issues.
fn append_issues(issues: &mut Vec<LintIssue>, more: &Vec<LintIssue>)
    ensures
        issue_views(final(issues)@) == issue_views(old(issues)@) + issue_views(more@),
{
    let ghost start = issue_views(issues@);
    let mut i: usize = 0;
    while i < more.len()
        invariant
            i <= more@.len(),
            issue_views(issues@) == start + issue_views(more@).take(i as int),
        decreases more.len() - i,
    {
        let m = &more[i];
        let copy = LintIssue {
            severity: m.severity,
            file: match &m.file {
                Some(f) => Some(f.clone()),
                None => None,
            },
            message: m.message.clone(),
        };
        let ghost before = issue_views(issues@);
        issues.push(copy);
        assert(issue_views(issues@) =~= before.push(more@[i as int]@));
        assert(issue_views(more@).take(i + 1) =~= issue_views(more@).take(i as int).push(more@[i as int]@));
        i += 1;
    }
    assert(issue_views(more@).take(more.len() as int) =~= issue_views(more@));
}

/// Gathers the issues the mode asks for; the file and state issues are
/// those found by reading the files and the state.
pub fn collect_issues_for_mode(
    options: &LintOptions,
    merged: &MergedConfig,
    file_issues: &Vec<LintIssue>,
    state_issues: &Vec<LintIssue>,
) -> (r: Vec<LintIssue>)
    ensures
        issue_views(r@) == issues_for_mode(*options, *merged, issue_views(file_issues@), issue_views(state_issues@)),
{
    let mut issues: Vec<LintIssue> = Vec::new();
    let filter = match &options.backend {
        Some(b) => Some(b.as_str()),
        None => None,
    };
    assert(opt_str(filter) == opt_seq(options.backend));
    assert(issue_views(issues@) =~= Seq::<(Severity, Option<Seq<char>>, Seq<char>)>::empty());
    match options.mode {
        LintMode::All => {
            collect_duplicate_issues(merged, filter, &mut issues);
            collect_conflict_issues(merged, filter, &mut issues);
            collect_misc_merged_issues(merged, &mut issues);
            append_issues(&mut issues, file_issues);
            append_issues(&mut issues, state_issues);
        },
        LintMode::Validate => {
            append_issues(&mut issues, file_issues);
        },
        LintMode::Duplicates => {
            collect_duplicate_issues(merged, filter, &mut issues);
        },
        LintMode::Conflicts => {
            collect_conflict_issues(merged, filter, &mut issues);
        },
    }
    issues
}

/// The outcome of a lint run from its counts: errors fail it; in strict
/// mode warnings fail it too.
pub open spec fn verdict(warnings: nat, errors: nat, strict: bool) -> Result<(), Seq<char>> {
    if errors > 0 {
        Err("Lint failed with "@ + decimal(errors) + " error(s)"@)
    } else if strict && warnings > 0 {
        Err("Lint strict mode failed with "@ + decimal(warnings) + " warning(s)"@)
    } else {
        Ok(())
    }
}

/// Whether a lint run passes (see `verdict`).
pub fn lint_verdict(warnings: usize, errors: usize, strict: bool) -> (r: Result<(), DeclarchError>)
    ensures
        match verdict(warnings as nat, errors as nat, strict) {
            Ok(_) => r is Ok,
            Err(m) => r matches Err(DeclarchError::ConfigError(x)) && x@ == m,
        },
{
    if errors > 0 {
        let n = usize_text(errors);
        Err(DeclarchError::ConfigError(concat3("Lint failed with ", n.as_str(), " error(s)")))
    } else if strict && warnings > 0 {
        let n = usize_text(warnings);
        Err(DeclarchError::ConfigError(concat3("Lint strict mode failed with ", n.as_str(), " warning(s)")))
    } else {
        Ok(())
    }
}

/// What a lint run found and how it ends.
#[derive(Debug)]
pub struct LintReport {
    pub issues: Vec<LintIssue>,
    pub warnings: usize,
    pub errors: usize,
    /// The run's outcome (see `verdict`).
    pub outcome: Result<(), DeclarchError>,
}

/// Runs the checks of the options' mode over the merged configuration and
/// the issues found in the files and the state, counts them, and decides
/// whether the run passes.
pub fn run(
    options: &LintOptions,
    merged: &MergedConfig,
    file_issues: &Vec<LintIssue>,
    state_issues: &Vec<LintIssue>,
) -> (r: LintReport)
    ensures
        issue_views(r.issues@) == issues_for_mode(*options, *merged, issue_views(file_issues@), issue_views(state_issues@)),
        r.warnings == severity_count(issue_views(r.issues@), Severity::Warning),
        r.errors == severity_count(issue_views(r.issues@), Severity::Error),
        match verdict(r.warnings as nat, r.errors as nat, options.strict) {
            Ok(_) => r.outcome is Ok,
            Err(m) => r.outcome matches Err(DeclarchError::ConfigError(x)) && x@ == m,
        },
{
    let issues = collect_issues_for_mode(options, merged, file_issues, state_issues);
    let (warnings, errors) = count_issues(&issues);
    let outcome = lint_verdict(warnings, errors, options.strict);
    LintReport { issues, warnings, errors, outcome }
}

/// Machine-readable output is asked for with output version `v1` and format
/// `json` or `yaml`.
pub fn machine_mode(options: &LintOptions) -> (r: bool)
    ensures
        r == ((options.output_version matches Some(v) && v@ == "v1"@)
            && (options.format matches Some(f) && (f@ == "json"@ || f@ == "yaml"@))),
{
    let v1 = match &options.output_version {
        Some(v) => same_text(v.as_str(), "v1"),
        None => false,
    };
    let fmt = match &options.format {
        Some(f) => same_text(f.as_str(), "json") || same_text(f.as_str(), "yaml"),
        None => false,
    };
    v1 && fmt
}

/// What the state-removal options ask, or why they conflict: no removal;
/// else ids or `--state-rm-all` are needed, not both, and prefixed ids do
/// not go with `--state-rm-backend`.
pub open spec fn state_remove_request(options: LintOptions) -> Result<bool, Seq<char>> {
    if options.state_rm@.len() == 0 && options.state_rm_backend is None && !options.state_rm_all {
        Ok(false)
    } else if options.state_rm@.len() == 0 && !options.state_rm_all {
        Err("State remove requires package IDs via --state-rm, or --state-rm-backend with --state-rm-all."@)
    } else if options.state_rm_all && options.state_rm@.len() > 0 {
        Err("Do not combine --state-rm-all with --state-rm. Use one strategy at a time."@)
    } else if options.state_rm_backend is Some && exists|i: int| 0 <= i < options.state_rm@.len() && options.state_rm@[i]@.contains(':') {
        Err("Do not combine prefixed IDs (backend:name) with --state-rm-backend."@)
    } else {
        Ok(true)
    }
}

/// Whether any id holds a colon.
fn any_prefixed(ids: &Vec<String>) -> (r: bool)
    ensures
        r == exists|i: int| 0 <= i < ids@.len() && ids@[i]@.contains(':'),
{
    let mut i: usize = 0;
    while i < ids.len()
        invariant
            i <= ids@.len(),
            forall|j: int| 0 <= j < i ==> !ids@[j]@.contains(':'),
        decreases ids.len() - i,
    {
        let c = chars_of(ids[i].as_str());
        if crate::text::has_char(c.as_slice(), ':') {
            return true;
        }
        i += 1;
    }
    false
}

/// Checks the state-removal options (see `state_remove_request`): `Ok(true)`
/// when a removal is asked for.
pub fn check_state_remove_options(options: &LintOptions) -> (r: Result<bool, DeclarchError>)
    ensures
        match state_remove_request(*options) {
            Ok(b) => r == Ok::<bool, DeclarchError>(b),
            Err(m) => r matches Err(DeclarchError::Other(x)) && x@ == m,
        },
{
    if options.state_rm.len() == 0 && options.state_rm_backend.is_none() && !options.state_rm_all {
        return Ok(false);
    }
    if options.state_rm.len() == 0 && !options.state_rm_all {
        return Err(DeclarchError::Other(owned("State remove requires package IDs via --state-rm, or --state-rm-backend with --state-rm-all.")));
    }
    if options.state_rm_all && options.state_rm.len() > 0 {
        return Err(DeclarchError::Other(owned("Do not combine --state-rm-all with --state-rm. Use one strategy at a time.")));
    }
    if options.state_rm_backend.is_some() && any_prefixed(&options.state_rm) {
        return Err(DeclarchError::Other(owned("Do not combine prefixed IDs (backend:name) with --state-rm-backend.")));
    }
    Ok(true)
}

/// The issues of one configuration file's KDL: an error when it does not
/// parse, else a warning per top-level `packages` / `packages:..` node.
pub open spec fn kdl_file_issues_of(file: Seq<char>, content: Seq<char>) -> Seq<(Severity, Option<Seq<char>>, Seq<char>)> {
    match kdl_parsed(content) {
        Err(e) => seq![(Severity::Error, Some(file), "Invalid KDL syntax: "@ + e)],
        Ok(nodes) => deprecated_issues(nodes, file),
    }
}

/// A node name of the deprecated `packages` syntax.
pub open spec fn deprecated_block(name: Seq<char>) -> bool {
    name == "packages"@ || "packages:"@.is_prefix_of(name)
}

/// One warning per top-level node of the deprecated `packages` syntax.
pub open spec fn deprecated_issues(nodes: Seq<KdlNodeData>, file: Seq<char>) -> Seq<(Severity, Option<Seq<char>>, Seq<char>)>
    decreases nodes.len(),
{
    if nodes.len() == 0 {
        Seq::empty()
    } else {
        let rest = deprecated_issues(nodes.drop_last(), file);
        if deprecated_block(nodes.last().name@) {
            rest.push((Severity::Warning, Some(file), "Deprecated syntax block 'packages' detected. Use 'pkg' syntax"@))
        } else {
            rest
        }
    }
}

/// Checks one configuration file's KDL (see `kdl_file_issues_of`).
pub fn kdl_file_issues(file: &str, content: &str) -> (r: Vec<LintIssue>)
    ensures
        issue_views(r@) == kdl_file_issues_of(file@, content@),
{
    let mut issues: Vec<LintIssue> = Vec::new();
    match kdl_parse(content) {
        Err(e) => {
            issues.push(LintIssue::error(Some(owned(file)), concat2("Invalid KDL syntax: ", e.as_str())));
            assert(issue_views(issues@) =~= kdl_file_issues_of(file@, content@));
        },
        Ok(nodes) => {
            let exact = chars_of("packages");
            let prefix = chars_of("packages:");
            let mut i: usize = 0;
            while i < nodes.len()
                invariant
                    i <= nodes@.len(),
                    exact@ == "packages"@,
                    prefix@ == "packages:"@,
                    issue_views(issues@) == deprecated_issues(nodes@.take(i as int), file@),
                decreases nodes.len() - i,
            {
                assert(nodes@.take(i + 1).drop_last() =~= nodes@.take(i as int));
                let n = chars_of(nodes[i].name.as_str());
                if crate::text::eq_chars(n.as_slice(), exact.as_slice()) || starts_with_chars(n.as_slice(), prefix.as_slice()) {
                    let issue = LintIssue::warning(Some(owned(file)), owned("Deprecated syntax block 'packages' detected. Use 'pkg' syntax"));
                    let ghost before = issue_views(issues@);
                    issues.push(issue);
                    assert(issue_views(issues@) =~= before.push(issue@));
                }
                i += 1;
            }
            assert(nodes@.take(nodes.len() as int) =~= nodes@);
        },
    }
    issues
}

/// `\` read as `/`.
pub open spec fn slashed(s: Seq<char>) -> Seq<char> {
    s.map_values(|c: char| if c == '\\' { '/' } else { c })
}

/// An import climbs out through a `..` component (either slash counts).
pub open spec fn has_traversal(import: Seq<char>) -> bool {
    split_all(slashed(import), '/').contains(".."@)
}

/// Whether an import climbs out through a `..` component.
pub fn import_has_traversal(import: &str) -> (r: bool)
    ensures
        r == has_traversal(import@),
{
    let c = chars_of(import);
    let mut s: Vec<char> = Vec::new();
    let mut i: usize = 0;
    while i < c.len()
        invariant
            i <= c@.len(),
            s@ == slashed(c@.take(i as int)),
        decreases c.len() - i,
    {
        s.push(if c[i] == '\\' { '/' } else { c[i] });
        assert(slashed(c@.take(i + 1)) =~= slashed(c@.take(i as int)).push(if c@[i as int] == '\\' { '/' } else { c@[i as int] }));
        i += 1;
    }
    assert(c@.take(c.len() as int) =~= c@);
    let parts = split_all_chars(s.as_slice(), '/');
    let dots = chars_of("..");
    let ghost ps = parts@.map_values(|l: Vec<char>| l@);
    assert(s@ == slashed(import@));
    assert(ps == split_all(slashed(import@), '/'));
    let mut k: usize = 0;
    while k < parts.len()
        invariant
            k <= parts@.len(),
            dots@ == ".."@,
            ps == parts@.map_values(|l: Vec<char>| l@),
            ps == split_all(slashed(import@), '/'),
            forall|j: int| 0 <= j < k ==> ps[j] != ".."@,
        decreases parts.len() - k,
    {
        if crate::text::eq_chars(parts[k].as_slice(), dots.as_slice()) {
            assert(ps[k as int] == ".."@);
            return true;
        }
        k += 1;
    }
    false
}

/// The issue an import of a file raises, if any: climbing out through `..`,
/// or not resolving to an existing file.
pub open spec fn import_issue_of(file: Seq<char>, import: Seq<char>, backend: bool, resolved: Seq<char>, exists: bool) -> Option<(Severity, Option<Seq<char>>, Seq<char>)> {
    let kind = if backend { "Backend import"@ } else { "Import"@ };
    let unresolved = if backend { "Unresolved backend import: '"@ } else { "Unresolved import: '"@ };
    if has_traversal(import) {
        Some((Severity::Warning, Some(file), kind + " contains path traversal '..': "@ + import))
    } else if !exists {
        Some((Severity::Warning, Some(file), unresolved + import + "' (resolved: "@ + resolved + ")"@))
    } else {
        None
    }
}

/// Checks one import (or backend import) of a file, given where it resolves
/// and whether that exists (see `import_issue_of`).
pub fn import_issue(file: &str, import: &str, backend: bool, resolved: &str, exists: bool) -> (r: Option<LintIssue>)
    ensures
        match import_issue_of(file@, import@, backend, resolved@, exists) {
            Some(i) => r matches Some(x) && x@ == i,
            None => r is None,
        },
{
    if import_has_traversal(import) {
        let kind = if backend { "Backend import" } else { "Import" };
        return Some(LintIssue::warning(Some(owned(file)), concat3(kind, " contains path traversal '..': ", import)));
    }
    if !exists {
        let head = if backend { "Unresolved backend import: '" } else { "Unresolved import: '" };
        let mut m = chars_of(head);
        push_str(&mut m, import);
        push_str(&mut m, "' (resolved: ");
        push_str(&mut m, resolved);
        push_str(&mut m, ")");
        return Some(LintIssue::warning(Some(owned(file)), string_of(m.as_slice())));
    }
    None
}

/// How an issue is shown: its message, then ` [file]` when it names one.
pub open spec fn issue_text(issue: (Severity, Option<Seq<char>>, Seq<char>)) -> Seq<char> {
    match issue.1 {
        Some(f) => issue.2 + " ["@ + f + "]"@,
        None => issue.2,
    }
}

/// The line shown for an issue (see `issue_text`).
pub fn issue_line(issue: &LintIssue) -> (r: String)
    ensures
        r@ == issue_text(issue@),
{
    match &issue.file {
        Some(f) => {
            let mut v = chars_of(issue.message.as_str());
            push_str(&mut v, " [");
            push_str(&mut v, f.as_str());
            push_str(&mut v, "]");
            string_of(v.as_slice())
        },
        None => issue.message.clone(),
    }
}

/// The name of a mode, as reports show it.
pub fn mode_name(mode: LintMode) -> (r: String)
    ensures
        r@ == (match mode {
            LintMode::All => "All"@,
            LintMode::Validate => "Validate"@,
            LintMode::Duplicates => "Duplicates"@,
            LintMode::Conflicts => "Conflicts"@,
        }),
{
    match mode {
        LintMode::All => owned("All"),
        LintMode::Validate => owned("Validate"),
        LintMode::Duplicates => owned("Duplicates"),
        LintMode::Conflicts => owned("Conflicts"),
    }
}

/// Counting a severity over two parts adds their counts.
proof fn lemma_severity_count_concat(a: Seq<(Severity, Option<Seq<char>>, Seq<char>)>, b: Seq<(Severity, Option<Seq<char>>, Seq<char>)>, sv: Severity)
    ensures
        severity_count(a + b, sv) == severity_count(a, sv) + severity_count(b, sv),
    decreases b.len(),
{
    if b.len() == 0 {
        assert(a + b =~= a);
    } else {
        assert((a + b).drop_last() =~= a + b.drop_last());
        assert((a + b).last() == b.last());
        lemma_severity_count_concat(a, b.drop_last(), sv);
    }
}

/// Law: a duplicate declaration is reported as an error exactly when the
/// configuration's policy makes duplicates errors, and as a warning
/// otherwise; and there is such an issue for every package of the filtered
/// backend declared in more than one file.
pub proof fn law_duplicate_severity_follows_policy(
    decls: Seq<((Seq<char>, Seq<char>), nat)>,
    filter: Option<Seq<char>>,
    as_error: bool,
)
    ensures
        forall|i: int| 0 <= i < duplicate_issues_of(decls, filter, as_error).len()
            ==> (#[trigger] duplicate_issues_of(decls, filter, as_error)[i]).0
                == (if as_error { Severity::Error } else { Severity::Warning }),
        (exists|k: int| 0 <= k < decls.len() && #[trigger] decls[k].1 > 1 && (filter matches Some(f) ==> decls[k].0.0 == f))
            ==> severity_count(duplicate_issues_of(decls, filter, as_error),
                if as_error { Severity::Error } else { Severity::Warning }) > 0,
    decreases decls.len(),
{
    if decls.len() > 0 {
        let d = decls.drop_last();
        law_duplicate_severity_follows_policy(d, filter, as_error);
        let rest = duplicate_issues_of(d, filter, as_error);
        let all = duplicate_issues_of(decls, filter, as_error);
        let sv = if as_error { Severity::Error } else { Severity::Warning };
        let l = decls.last();
        if l.1 > 1 && (filter matches Some(f) ==> l.0.0 == f) {
            assert(all == rest.push((severity_for(as_error), None::<Seq<char>>, duplicate_message(l.0, l.1))));
            assert(all.drop_last() =~= rest);
            assert forall|i: int| 0 <= i < all.len() implies (#[trigger] all[i]).0 == sv by {
                if i < rest.len() {
                    assert(all[i] == rest[i]);
                }
            }
        } else {
            assert(all == rest);
            if exists|k: int| 0 <= k < decls.len() && #[trigger] decls[k].1 > 1 && (filter matches Some(f) ==> decls[k].0.0 == f) {
                let k = choose|k: int| 0 <= k < decls.len() && #[trigger] decls[k].1 > 1 && (filter matches Some(f) ==> decls[k].0.0 == f);
                assert(k < d.len());
                assert(d[k] == decls[k]);
            }
        }
    }
}

/// Law: when the policy makes duplicates errors and some package (of the
/// filtered backend) is declared in more than one file, a lint run that
/// checks duplicates (mode `All` or `Duplicates`) finds an error and fails.
pub proof fn law_duplicate_error_fails_lint(
    options: LintOptions,
    merged: MergedConfig,
    file_issues: Seq<(Severity, Option<Seq<char>>, Seq<char>)>,
    state_issues: Seq<(Severity, Option<Seq<char>>, Seq<char>)>,
)
    requires
        merged.duplicate_is_error,
        options.mode == LintMode::All || options.mode == LintMode::Duplicates,
        exists|k: int| 0 <= k < merged.packages@.len() && (#[trigger] merged.packages@[k]).sources@.len() > 1
            && (opt_seq(options.backend) matches Some(f) ==> merged.packages@[k].id@.0 == f),
    ensures
        severity_count(issues_for_mode(options, merged, file_issues, state_issues), Severity::Error) > 0,
        verdict(
            severity_count(issues_for_mode(options, merged, file_issues, state_issues), Severity::Warning),
            severity_count(issues_for_mode(options, merged, file_issues, state_issues), Severity::Error),
            options.strict,
        ) is Err,
{
    let decls = declarations(merged);
    let filter = opt_seq(options.backend);
    let k = choose|k: int| 0 <= k < merged.packages@.len() && (#[trigger] merged.packages@[k]).sources@.len() > 1
        && (filter matches Some(f) ==> merged.packages@[k].id@.0 == f);
    assert(decls[k] == (merged.packages@[k].id@, merged.packages@[k].sources@.len()));
    assert(decls[k].1 > 1 && (filter matches Some(f) ==> decls[k].0.0 == f));
    law_duplicate_severity_follows_policy(decls, filter, true);
    let dups = duplicate_issues_of(decls, filter, true);
    let ids = declared_ids(merged.packages@);
    let conflicts = conflict_issues_of(first_names(ids), ids, filter, merged.conflict_is_error);
    if options.mode == LintMode::All {
        lemma_severity_count_concat(dups, conflicts, Severity::Error);
        lemma_severity_count_concat(dups + conflicts, misc_issues_of(merged), Severity::Error);
        lemma_severity_count_concat(dups + conflicts + misc_issues_of(merged), file_issues, Severity::Error);
        lemma_severity_count_concat(dups + conflicts + misc_issues_of(merged) + file_issues, state_issues, Severity::Error);
    }
}

} // verus!
