//! Adding a module: where its file goes, where its content comes from, and
//! how its import is added to the root configuration text.
use vstd::prelude::*;
use crate::commands::edit::{normal_pieces, normal_pieces_of, with_kdl};
use crate::commands::init::list::{is_module_available, registry_module};
use crate::outside::{
    debug_quote, debug_quoted, regex_escape, regex_escaped, regex_insert_after_match, regex_is_match,
    regex_line_after_match, regex_match,
};
use crate::text::{
    chars_of, concat2, concat3, has_char, join, joined, push_str, split_all, split_all_chars, string_of,
    trim_end, trim_end_chars, views,
};

verus! {

/// Where a module's content comes from.
#[derive(Clone, Copy, Debug, PartialEq, Eq)]
pub enum ModuleSource {
    /// A built-in template of that name.
    Template,
    /// The remote registry.
    Registry,
    /// A new local module from the default template.
    Local,
    /// Nowhere: the registry does not offer it.
    NotInRegistry,
}

/// A target names a registry path when it holds `/` or `\`.
pub open spec fn registry_path(t: Seq<char>) -> bool {
    t.contains('/') || t.contains('\\')
}

/// Decides where a module's content comes from: a built-in template of its
/// name first; then the registry for a registry path (unless local); then a
/// local module when asked; else the registry when it offers the module.
pub fn module_source(has_template: bool, target_path: &str, local: bool) -> (r: ModuleSource)
    ensures
        r == (if has_template {
            ModuleSource::Template
        } else if registry_path(target_path@) && !local {
            ModuleSource::Registry
        } else if local {
            ModuleSource::Local
        } else if !registry_module(target_path@) {
            ModuleSource::NotInRegistry
        } else {
            ModuleSource::Registry
        }),
{
    let c = chars_of(target_path);
    let is_registry = has_char(c.as_slice(), '/') || has_char(c.as_slice(), '\\');
    if has_template {
        ModuleSource::Template
    } else if is_registry && !local {
        ModuleSource::Registry
    } else if local {
        ModuleSource::Local
    } else if !is_module_available(target_path) {
        ModuleSource::NotInRegistry
    } else {
        ModuleSource::Registry
    }
}

/// The import path of a module target, relative to the configuration
/// directory: under `modules/` unless its first component is `modules`, its
/// file name given `.kdl` when it has no extension; normalized (no empty or
/// `.` components). None for a target with no component.
pub open spec fn module_import_path_of(t: Seq<char>) -> Option<Seq<char>> {
    let pieces = normal_pieces(split_all(t, '/'));
    if pieces.len() == 0 {
        None
    } else {
        let full = if pieces[0] == "modules"@ { pieces } else { seq!["modules"@] + pieces };
        Some(joined(full.drop_last().push(with_kdl(full.last())), "/"@))
    }
}

/// The import path of a module target (see `module_import_path_of`).
pub fn module_import_path(target_path: &str) -> (r: Option<String>)
    ensures
        match module_import_path_of(target_path@) {
            Some(p) => r matches Some(x) && x@ == p,
            None => r is None,
        },
{
    let c = chars_of(target_path);
    let parts = split_all_chars(c.as_slice(), '/');
    let pieces = normal_pieces_of(&parts);
    let ghost ps = pieces@.map_values(|l: Vec<char>| l@);
    if pieces.len() == 0 {
        return None;
    }
    let modules = chars_of("modules");
    let mut full: Vec<Vec<char>> = Vec::new();
    let starts = crate::text::eq_chars(pieces[0].as_slice(), modules.as_slice());
    assert(ps[0] == pieces@[0]@);
    if !starts {
        full.push(chars_of("modules"));
    }
    let ghost base = full@.map_values(|l: Vec<char>| l@);
    let mut k: usize = 0;
    while k < pieces.len()
        invariant
            k <= pieces@.len(),
            ps == pieces@.map_values(|l: Vec<char>| l@),
            full@.map_values(|l: Vec<char>| l@) == base + ps.take(k as int),
        decreases pieces.len() - k,
    {
        let ghost before = full@.map_values(|l: Vec<char>| l@);
        full.push(pieces[k].clone());
        assert(full@.map_values(|l: Vec<char>| l@) =~= before.push(ps[k as int]));
        assert(ps.take(k + 1) =~= ps.take(k as int).push(ps[k as int]));
        k += 1;
    }
    assert(ps.take(pieces.len() as int) =~= ps);
    proof {
        reveal_strlit("modules");
        if starts {
            assert(base =~= Seq::<Seq<char>>::empty());
            assert(full@.map_values(|l: Vec<char>| l@) =~= ps);
        } else {
            assert(base =~= seq!["modules"@]);
        }
    }
    Some(crate::commands::edit::kdl_path_of(&full))
}

/// The pattern of the module's import on an indented line of its own.
pub open spec fn module_import_pattern(import_path: Seq<char>) -> Seq<char> {
    "(?m)^\\s+\""@ + regex_escaped(import_path) + "\"\\s*$"@
}

/// Whether the root configuration text imports the module already.
pub fn module_already_imported(content: &str, import_path: &str) -> (r: bool)
    ensures
        r == regex_match(module_import_pattern(import_path@), content@),
{
    let escaped = regex_escape(import_path);
    let pattern = concat3("(?m)^\\s+\"", escaped.as_str(), "\"\\s*$");
    regex_is_match(pattern.as_str(), content)
}

/// The pattern of the opening of an `imports` block.
pub open spec fn imports_opening() -> Seq<char> {
    "(?m)^(\\s*imports\\s*\\{)"@
}

/// The root configuration text with the module's import added: on a line
/// after the opening of the `imports` block when there is one, else in a new
/// block appended after the text (trailing whitespace cut).
pub open spec fn with_module_import(content: Seq<char>, import_path: Seq<char>) -> Seq<char> {
    let line = "    "@ + debug_quoted(import_path);
    if regex_match(imports_opening(), content) {
        regex_line_after_match(imports_opening(), content, line)
    } else {
        trim_end(content) + "\n\nimports {\n"@ + line + "\n}\n"@
    }
}

/// Adds the module's import to the root configuration text (see
/// `with_module_import`).
pub fn add_module_import(content: &str, import_path: &str) -> (r: String)
    ensures
        r@ == with_module_import(content@, import_path@),
{
    let quoted = debug_quote(import_path);
    let mut line = chars_of("    ");
    push_str(&mut line, quoted.as_str());
    let line = string_of(line.as_slice());
    if regex_is_match("(?m)^(\\s*imports\\s*\\{)", content) {
        regex_insert_after_match("(?m)^(\\s*imports\\s*\\{)", content, line.as_str())
    } else {
        let c = chars_of(content);
        let mut out = trim_end_chars(&c);
        push_str(&mut out, "\n\nimports {\n");
        push_str(&mut out, line.as_str());
        push_str(&mut out, "\n}\n");
        string_of(out.as_slice())
    }
}

/// The metadata a module file declares about itself.
#[derive(Clone, Debug)]
pub struct ModuleMeta {
    pub title: Option<String>,
    pub description: Option<String>,
    pub author: Option<String>,
    pub maintainers: Vec<String>,
    pub version: Option<String>,
    pub tags: Vec<String>,
    pub url: Option<String>,
    pub homepage: Option<String>,
    pub license: Option<String>,
    pub platforms: Vec<String>,
    pub requires: Vec<String>,
    pub installation_guide: Option<String>,
}

/// What the module information block shows: the title, the description,
/// and one line per further detail.
#[derive(Clone, Debug)]
pub struct ModuleMetaView {
    pub title: Option<String>,
    pub description: Option<String>,
    pub details: Vec<String>,
}

/// The view of an optional text.
pub open spec fn opt_text(o: Option<String>) -> Option<Seq<char>> {
    match o {
        Some(s) => Some(s@),
        None => None,
    }
}

/// Whether the module declares any metadata at all.
pub open spec fn has_meta(m: ModuleMeta) -> bool {
    ||| m.title is Some
    ||| m.description is Some
    ||| m.author is Some
    ||| m.maintainers@.len() > 0
    ||| m.version is Some
    ||| m.tags@.len() > 0
    ||| m.url is Some
    ||| m.homepage is Some
    ||| m.license is Some
    ||| m.platforms@.len() > 0
    ||| m.requires@.len() > 0
    ||| m.installation_guide is Some
}

/// `label` and the value, as a one-line list, when there is a value.
pub open spec fn value_line(label: Seq<char>, v: Option<String>) -> Seq<Seq<char>> {
    match v {
        Some(s) => seq![label + s@],
        None => Seq::empty(),
    }
}

/// `label` and the values joined by `, `, when there are values.
pub open spec fn list_line(label: Seq<char>, vs: Vec<String>) -> Seq<Seq<char>> {
    if vs@.len() == 0 {
        Seq::empty()
    } else {
        seq![label + joined(views(vs@), ", "@)]
    }
}

/// The detail lines, in the order the block lists them.
pub open spec fn meta_details(m: ModuleMeta) -> Seq<Seq<char>> {
    value_line("Author: "@, m.author) + list_line("Maintainer: "@, m.maintainers)
        + value_line("Version: "@, m.version) + list_line("Tags: "@, m.tags)
        + value_line("URL: "@, m.url) + value_line("Homepage: "@, m.homepage)
        + value_line("License: "@, m.license) + list_line("Platforms: "@, m.platforms)
        + list_line("Requires: "@, m.requires)
        + value_line("Installation Guide: "@, m.installation_guide)
}

fn push_value_line(out: &mut Vec<String>, label: &str, v: &Option<String>)
    ensures
        views(final(out)@) == views(old(out)@) + value_line(label@, *v),
{
    let ghost before = views(out@);
    match v {
        Some(s) => {
            out.push(concat2(label, s.as_str()));
            assert(views(out@) =~= before + value_line(label@, *v));
        },
        None => {
            assert(views(out@) =~= before + value_line(label@, *v));
        },
    }
}

fn push_list_line(out: &mut Vec<String>, label: &str, vs: &Vec<String>)
    ensures
        views(final(out)@) == views(old(out)@) + list_line(label@, *vs),
{
    let ghost before = views(out@);
    if vs.len() > 0 {
        let j = join(vs, ", ");
        out.push(concat2(label, j.as_str()));
    }
    assert(views(out@) =~= before + list_line(label@, *vs));
}

fn copy_text(o: &Option<String>) -> (r: Option<String>)
    ensures
        opt_text(r) == opt_text(*o),
{
    match o {
        Some(s) => Some(s.clone()),
        None => None,
    }
}

/// The module information block for the metadata: nothing when the module
/// declares none; else its title, description and detail lines.
pub fn module_meta_view(meta: &ModuleMeta) -> (r: Option<ModuleMetaView>)
    ensures
        r is None <==> !has_meta(*meta),
        r matches Some(v) ==> opt_text(v.title) == opt_text(meta.title)
            && opt_text(v.description) == opt_text(meta.description)
            && views(v.details@) == meta_details(*meta),
{
    let any = meta.title.is_some() || meta.description.is_some() || meta.author.is_some()
        || meta.maintainers.len() > 0 || meta.version.is_some() || meta.tags.len() > 0
        || meta.url.is_some() || meta.homepage.is_some() || meta.license.is_some()
        || meta.platforms.len() > 0 || meta.requires.len() > 0 || meta.installation_guide.is_some();
    if !any {
        return None;
    }
    let mut details: Vec<String> = Vec::new();
    assert(views(details@) =~= Seq::<Seq<char>>::empty());
    push_value_line(&mut details, "Author: ", &meta.author);
    push_list_line(&mut details, "Maintainer: ", &meta.maintainers);
    push_value_line(&mut details, "Version: ", &meta.version);
    push_list_line(&mut details, "Tags: ", &meta.tags);
    push_value_line(&mut details, "URL: ", &meta.url);
    push_value_line(&mut details, "Homepage: ", &meta.homepage);
    push_value_line(&mut details, "License: ", &meta.license);
    push_list_line(&mut details, "Platforms: ", &meta.platforms);
    push_list_line(&mut details, "Requires: ", &meta.requires);
    push_value_line(&mut details, "Installation Guide: ", &meta.installation_guide);
    assert(views(details@) =~= meta_details(*meta));
    Some(ModuleMetaView {
        title: copy_text(&meta.title),
        description: copy_text(&meta.description),
        details,
    })
}

} // verus!
