//! Adopting a backend: reading its `meta` block, and adding its import to
//! the configuration text.
use vstd::prelude::*;
use crate::model::DeclarchError;
use crate::outside::{
    KdlNodeData, kdl_parse, kdl_parsed, regex_escape, regex_escaped, regex_insert_after_match,
    regex_is_match, regex_line_after_match, regex_match,
};
use crate::sorting::{lemma_sorted_set_of, sorted_set, sorted_unique};
use crate::text::{concat2, concat3, owned, same_text, views};

verus! {

/// What a backend definition says about itself.
#[derive(Clone, Debug)]
pub struct BackendMeta {
    pub title: String,
    pub description: String,
    pub author: Option<String>,
    pub maintainers: Vec<String>,
    pub homepage: String,
    pub installation_guide: Option<String>,
    pub platforms: Vec<String>,
    pub requires: Vec<String>,
}

/// The view of an optional owned string.
pub open spec fn opt_text(o: Option<String>) -> Option<Seq<char>> {
    match o {
        Some(s) => Some(s@),
        None => None,
    }
}

/// The fields of a backend's `meta` block, in the order of `BackendMeta`:
/// title, description, author, maintainers, homepage, installation guide,
/// platforms, requirements.
pub type MetaFields = (Seq<char>, Seq<char>, Option<Seq<char>>, Seq<Seq<char>>, Seq<char>, Option<Seq<char>>, Seq<Seq<char>>, Seq<Seq<char>>);

impl View for BackendMeta {
    type V = MetaFields;

    open spec fn view(&self) -> MetaFields {
        (self.title@, self.description@, opt_text(self.author), views(self.maintainers@), self.homepage@,
            opt_text(self.installation_guide), views(self.platforms@), views(self.requires@))
    }
}

/// Nothing said yet.
pub open spec fn empty_meta() -> MetaFields {
    (Seq::empty(), Seq::empty(), None, Seq::empty(), Seq::empty(), None, Seq::empty(), Seq::empty())
}

/// The first value of a node, when it is a string.
pub open spec fn first_string(n: KdlNodeData) -> Option<Seq<char>> {
    if n.values@.len() > 0 {
        opt_text(n.values@[0])
    } else {
        None
    }
}

/// The first value of a node when it is a string, else empty.
pub open spec fn first_text(n: KdlNodeData) -> Seq<char> {
    match first_string(n) {
        Some(s) => s,
        None => Seq::empty(),
    }
}

/// The string values of a node, in order.
pub open spec fn string_values(vs: Seq<Option<String>>) -> Seq<Seq<char>>
    decreases vs.len(),
{
    if vs.len() == 0 {
        Seq::empty()
    } else {
        let rest = string_values(vs.drop_last());
        match vs.last() {
            Some(s) => rest.push(s@),
            None => rest,
        }
    }
}

/// The `meta` fields after reading one node of a `meta` block: `title`,
/// `description` and `homepage` take the first string (or empty), `author`
/// and `install-guide` / `installation_guide` the first string if any;
/// `kdl-maintainer` / `maintained` / `maintainer`, `platforms` and
/// `requires` add all their strings; other nodes change nothing.
pub open spec fn apply_meta(m: MetaFields, n: KdlNodeData) -> MetaFields {
    let name = n.name@;
    if name == "title"@ {
        (first_text(n), m.1, m.2, m.3, m.4, m.5, m.6, m.7)
    } else if name == "description"@ {
        (m.0, first_text(n), m.2, m.3, m.4, m.5, m.6, m.7)
    } else if name == "author"@ {
        (m.0, m.1, first_string(n), m.3, m.4, m.5, m.6, m.7)
    } else if name == "kdl-maintainer"@ || name == "maintained"@ || name == "maintainer"@ {
        (m.0, m.1, m.2, m.3 + string_values(n.values@), m.4, m.5, m.6, m.7)
    } else if name == "homepage"@ {
        (m.0, m.1, m.2, m.3, first_text(n), m.5, m.6, m.7)
    } else if name == "requires"@ {
        (m.0, m.1, m.2, m.3, m.4, m.5, m.6, m.7 + string_values(n.values@))
    } else if name == "install-guide"@ || name == "installation_guide"@ {
        (m.0, m.1, m.2, m.3, m.4, first_string(n), m.6, m.7)
    } else if name == "platforms"@ {
        (m.0, m.1, m.2, m.3, m.4, m.5, m.6 + string_values(n.values@), m.7)
    } else {
        m
    }
}

/// The `meta` fields after reading nodes in order.
pub open spec fn fold_meta(nodes: Seq<KdlNodeData>) -> MetaFields
    decreases nodes.len(),
{
    if nodes.len() == 0 {
        empty_meta()
    } else {
        apply_meta(fold_meta(nodes.drop_last()), nodes.last())
    }
}

/// The nodes inside the `meta` blocks among a backend's children, in order.
pub open spec fn meta_nodes(children: Seq<KdlNodeData>) -> Seq<KdlNodeData>
    decreases children.len(),
{
    if children.len() == 0 {
        Seq::empty()
    } else {
        let rest = meta_nodes(children.drop_last());
        let c = children.last();
        if c.name@ == "meta"@ {
            match c.children {
                Some(cc) => rest + cc@,
                None => rest,
            }
        } else {
            rest
        }
    }
}

/// The first top-level node named `backend`.
pub open spec fn first_backend(nodes: Seq<KdlNodeData>) -> Option<KdlNodeData>
    decreases nodes.len(),
{
    if nodes.len() == 0 {
        None
    } else if nodes[0].name@ == "backend"@ {
        Some(nodes[0])
    } else {
        first_backend(nodes.drop_first())
    }
}

/// What the first `backend` node's `meta` blocks say, with maintainers,
/// platforms and requirements sorted and each given once.
pub open spec fn meta_of(nodes: Seq<KdlNodeData>) -> MetaFields {
    let m = match first_backend(nodes) {
        None => empty_meta(),
        Some(b) => match b.children {
            None => empty_meta(),
            Some(cs) => fold_meta(meta_nodes(cs@)),
        },
    };
    (m.0, m.1, m.2, sorted_set(m.3.to_set()), m.4, m.5, sorted_set(m.6.to_set()), sorted_set(m.7.to_set()))
}

/// The meta of a backend definition text, or why it does not parse.
pub open spec fn backend_meta_of(text: Seq<char>) -> Result<MetaFields, Seq<char>> {
    match kdl_parsed(text) {
        Err(e) => Err("Failed to parse backend KDL: "@ + e),
        Ok(nodes) => Ok(meta_of(nodes)),
    }
}

/// The first value of a node when it is a string.
fn first_string_of(n: &KdlNodeData) -> (r: Option<String>)
    ensures
        opt_text(r) == first_string(*n),
{
    if n.values.len() > 0 {
        match &n.values[0] {
            Some(s) => Some(s.clone()),
            None => None,
        }
    } else {
        None
    }
}

/// The first value of a node when it is a string, else empty.
fn first_text_of(n: &KdlNodeData) -> (r: String)
    ensures
        r@ == first_text(*n),
{
    match first_string_of(n) {
        Some(s) => s,
        None => {
            proof {
                reveal_strlit("");
            }
            owned("")
        },
    }
}

/// Appends the string values of a node.
fn push_strings(out: &mut Vec<String>, n: &KdlNodeData)
    ensures
        views(final(out)@) == views(old(out)@) + string_values(n.values@),
{
    let ghost start = views(out@);
    let mut i: usize = 0;
    while i < n.values.len()
        invariant
            i <= n.values@.len(),
            views(out@) == start + string_values(n.values@.take(i as int)),
        decreases n.values.len() - i,
    {
        assert(n.values@.take(i + 1).drop_last() =~= n.values@.take(i as int));
        match &n.values[i] {
            Some(s) => {
                let ghost before = views(out@);
                out.push(s.clone());
                assert(views(out@) =~= before.push(s@));
            },
            None => {},
        }
        i += 1;
    }
    assert(n.values@.take(n.values.len() as int) =~= n.values@);
}

/// Reads one node of a `meta` block into the fields.
fn apply_meta_node(meta: &mut BackendMeta, n: &KdlNodeData)
    ensures
        final(meta)@ == apply_meta(old(meta)@, *n),
{
    let name = n.name.as_str();
    if same_text(name, "title") {
        meta.title = first_text_of(n);
    } else if same_text(name, "description") {
        meta.description = first_text_of(n);
    } else if same_text(name, "author") {
        meta.author = first_string_of(n);
    } else if same_text(name, "kdl-maintainer") || same_text(name, "maintained") || same_text(name, "maintainer") {
        push_strings(&mut meta.maintainers, n);
    } else if same_text(name, "homepage") {
        meta.homepage = first_text_of(n);
    } else if same_text(name, "requires") {
        push_strings(&mut meta.requires, n);
    } else if same_text(name, "install-guide") || same_text(name, "installation_guide") {
        meta.installation_guide = first_string_of(n);
    } else if same_text(name, "platforms") {
        push_strings(&mut meta.platforms, n);
    }
}

/// Reads the `meta` blocks among a backend's children.
fn read_meta_blocks(meta: &mut BackendMeta, children: &Vec<KdlNodeData>)
    requires
        old(meta)@ == empty_meta(),
    ensures
        final(meta)@ == fold_meta(meta_nodes(children@)),
{
    let mut i: usize = 0;
    assert(meta_nodes(children@.take(0)) =~= Seq::<KdlNodeData>::empty());
    while i < children.len()
        invariant
            i <= children@.len(),
            meta@ == fold_meta(meta_nodes(children@.take(i as int))),
        decreases children.len() - i,
    {
        let ghost pre = meta_nodes(children@.take(i as int));
        assert(children@.take(i + 1).drop_last() =~= children@.take(i as int));
        let child = &children[i];
        if same_text(child.name.as_str(), "meta") {
            match &child.children {
                Some(cc) => {
                    let mut k: usize = 0;
                    assert(pre + cc@.take(0) =~= pre);
                    while k < cc.len()
                        invariant
                            k <= cc@.len(),
                            meta@ == fold_meta(pre + cc@.take(k as int)),
                        decreases cc.len() - k,
                    {
                        apply_meta_node(meta, &cc[k]);
                        assert((pre + cc@.take(k + 1)).drop_last() =~= pre + cc@.take(k as int));
                        assert((pre + cc@.take(k + 1)).last() == cc@[k as int]);
                        k += 1;
                    }
                    assert(cc@.take(cc.len() as int) =~= cc@);
                },
                None => {},
            }
        }
        i += 1;
    }
    assert(children@.take(children.len() as int) =~= children@);
}

/// The index of the first node named `backend`, if any.
fn find_backend(nodes: &Vec<KdlNodeData>) -> (r: Option<usize>)
    ensures
        match r {
            Some(i) => i < nodes@.len() && first_backend(nodes@) == Some(nodes@[i as int]),
            None => first_backend(nodes@) is None,
        },
{
    let mut i: usize = 0;
    assert(nodes@.skip(0) =~= nodes@);
    while i < nodes.len()
        invariant
            i <= nodes@.len(),
            first_backend(nodes@) == first_backend(nodes@.skip(i as int)),
        decreases nodes.len() - i,
    {
        if same_text(nodes[i].name.as_str(), "backend") {
            return Some(i);
        }
        assert(nodes@.skip(i as int).drop_first() =~= nodes@.skip(i + 1));
        i += 1;
    }
    None
}

/// Reads the `meta` block of the first `backend` node of a definition:
/// title, description, author, homepage, installation guide, and the sorted
/// distinct maintainers, platforms and requirements.
pub fn extract_backend_meta(content: &str) -> (r: Result<BackendMeta, DeclarchError>)
    ensures
        match backend_meta_of(content@) {
            Ok(m) => r matches Ok(x) && x@ == m,
            Err(e) => r matches Err(DeclarchError::Other(x)) && x@ == e,
        },
{
    match kdl_parse(content) {
        Ok(nodes) => Ok(backend_meta_from_nodes(&nodes)),
        Err(e) => Err(DeclarchError::Other(concat2("Failed to parse backend KDL: ", e.as_str()))),
    }
}

/// The meta of a parsed backend definition (see `meta_of`): the `meta`
/// block of its first `backend` node.
pub fn backend_meta_from_nodes(nodes: &Vec<KdlNodeData>) -> (r: BackendMeta)
    ensures
        r@ == meta_of(nodes@),
{
    let mut meta = BackendMeta {
        title: owned(""),
        description: owned(""),
        author: None,
        maintainers: Vec::new(),
        homepage: owned(""),
        installation_guide: None,
        platforms: Vec::new(),
        requires: Vec::new(),
    };
    proof {
        reveal_strlit("");
        assert(views(meta.maintainers@) =~= Seq::<Seq<char>>::empty());
        assert(views(meta.platforms@) =~= Seq::<Seq<char>>::empty());
        assert(views(meta.requires@) =~= Seq::<Seq<char>>::empty());
        assert(meta@ == empty_meta());
    }
    match find_backend(nodes) {
        Some(i) => match &nodes[i].children {
            Some(cs) => read_meta_blocks(&mut meta, cs),
            None => {},
        },
        None => {},
    }
    let ghost raw = meta@;
    let maintainers = sorted_unique(&meta.maintainers);
    let platforms = sorted_unique(&meta.platforms);
    let required = sorted_unique(&meta.requires);
    proof {
        lemma_sorted_set_of(views(maintainers@));
        lemma_sorted_set_of(views(platforms@));
        lemma_sorted_set_of(views(required@));
    }
    meta.maintainers = maintainers;
    meta.platforms = platforms;
    meta.requires = required;
    meta
}

/// The import path of a backend's definition file.
pub open spec fn backend_import_path(name: Seq<char>) -> Seq<char> {
    "backends/"@ + name + ".kdl"@
}

/// The pattern that finds the import, quoted, anywhere in the text.
pub open spec fn quoted_import_pattern(name: Seq<char>) -> Seq<char> {
    "\""@ + regex_escaped(backend_import_path(name)) + "\""@
}

/// The pattern of a line that starts a `backends` node.
pub open spec fn backends_line_pattern() -> Seq<char> {
    "(?m)^\\s*backends\\b"@
}

/// The pattern of the opening of a `backends` block.
pub open spec fn backends_block_pattern() -> Seq<char> {
    "(?m)^(\\s*backends(?:\\s+\"[^\"]*\")?\\s*\\{)"@
}

/// The import line added inside a block.
pub open spec fn import_line(name: Seq<char>) -> Seq<char> {
    "    \""@ + backend_import_path(name) + "\""@
}

/// What adding a backend's import does to the root configuration text.
#[derive(Clone, Debug)]
pub enum RootImport {
    /// The import is there already.
    Present,
    /// There is no `backends` block; it must be added by hand.
    NoBlock,
    /// The new text, with the import after the block's opening.
    Updated(String),
}

/// Adds `backends/<name>.kdl` to the `backends { .. }` block of the root
/// configuration text: nothing to do when it is quoted there already; no
/// block to add it to when no line starts a `backends` node or no
/// `backends { .. }` block opens; else the text with an indented import line
/// after the block's opening.
pub fn add_backend_to_declarch(content: &str, backend_name: &str) -> (r: RootImport)
    ensures
        regex_match(quoted_import_pattern(backend_name@), content@) ==> r is Present,
        !regex_match(quoted_import_pattern(backend_name@), content@)
            && !(regex_match(backends_line_pattern(), content@) && regex_match(backends_block_pattern(), content@))
            ==> r is NoBlock,
        !regex_match(quoted_import_pattern(backend_name@), content@)
            && regex_match(backends_line_pattern(), content@) && regex_match(backends_block_pattern(), content@)
            ==> (r matches RootImport::Updated(s)
            && s@ == regex_line_after_match(backends_block_pattern(), content@, import_line(backend_name@))
            && s@.len() == content@.len() + 1 + import_line(backend_name@).len()),
{
    let import_path = concat3("backends/", backend_name, ".kdl");
    let escaped = regex_escape(import_path.as_str());
    let existing = concat3("\"", escaped.as_str(), "\"");
    if regex_is_match(existing.as_str(), content) {
        return RootImport::Present;
    }
    if !regex_is_match("(?m)^\\s*backends\\b", content) {
        return RootImport::NoBlock;
    }
    if !regex_is_match("(?m)^(\\s*backends(?:\\s+\"[^\"]*\")?\\s*\\{)", content) {
        return RootImport::NoBlock;
    }
    let line = concat3("    \"", import_path.as_str(), "\"");
    RootImport::Updated(regex_insert_after_match("(?m)^(\\s*backends(?:\\s+\"[^\"]*\")?\\s*\\{)", content, line.as_str()))
}

/// The pattern of a backend defined inline at the start of a line.
pub open spec fn inline_backend_pattern(name: Seq<char>) -> Seq<char> {
    "(?m)^backend\\s+\""@ + regex_escaped(name) + "\""@
}

/// The pattern of an indented (active) import line.
pub open spec fn active_import_pattern(name: Seq<char>) -> Seq<char> {
    "(?m)^\\s+\""@ + regex_escaped(backend_import_path(name)) + "\""@
}

/// The pattern of the opening of an `imports` block.
pub open spec fn imports_block_pattern() -> Seq<char> {
    "(?m)^(\\s*imports\\s*\\{)"@
}

/// What adding a backend's import does to a backend aggregator text.
#[derive(Clone, Debug)]
pub enum ImportResult {
    /// There is no aggregator file.
    FileNotFound,
    /// The backend is defined inline.
    AlreadyExistsInline,
    /// The import is there already, on its own indented line.
    AlreadyImported,
    /// There is no `imports { .. }` block.
    NoImportsBlock,
    /// The new text, with the import after the block's opening.
    Added(String),
}

/// Adds `backends/<name>.kdl` to the `imports { .. }` block of a backend
/// aggregator's text (`None` when the file does not exist), unless the
/// backend is defined inline or already imported, or there is no such block.
pub fn add_backend_import(content: Option<&str>, backend_name: &str) -> (r: ImportResult)
    ensures
        content is None ==> r is FileNotFound,
        content matches Some(c) ==> {
            &&& regex_match(inline_backend_pattern(backend_name@), c@) ==> r is AlreadyExistsInline
            &&& !regex_match(inline_backend_pattern(backend_name@), c@)
                && regex_match(active_import_pattern(backend_name@), c@) ==> r is AlreadyImported
            &&& !regex_match(inline_backend_pattern(backend_name@), c@)
                && !regex_match(active_import_pattern(backend_name@), c@)
                && !regex_match(imports_block_pattern(), c@) ==> r is NoImportsBlock
            &&& !regex_match(inline_backend_pattern(backend_name@), c@)
                && !regex_match(active_import_pattern(backend_name@), c@)
                && regex_match(imports_block_pattern(), c@) ==> (r matches ImportResult::Added(s)
                && s@ == regex_line_after_match(imports_block_pattern(), c@, import_line(backend_name@))
                && s@.len() == c@.len() + 1 + import_line(backend_name@).len())
        },
{
    let content = match content {
        Some(c) => c,
        None => {
            return ImportResult::FileNotFound;
        },
    };
    let escaped_name = regex_escape(backend_name);
    let inline = concat3("(?m)^backend\\s+\"", escaped_name.as_str(), "\"");
    if regex_is_match(inline.as_str(), content) {
        return ImportResult::AlreadyExistsInline;
    }
    let import_path = concat3("backends/", backend_name, ".kdl");
    let escaped_path = regex_escape(import_path.as_str());
    let active = concat3("(?m)^\\s+\"", escaped_path.as_str(), "\"");
    if regex_is_match(active.as_str(), content) {
        return ImportResult::AlreadyImported;
    }
    if !regex_is_match("(?m)^(\\s*imports\\s*\\{)", content) {
        return ImportResult::NoImportsBlock;
    }
    let line = concat3("    \"", import_path.as_str(), "\"");
    ImportResult::Added(regex_insert_after_match("(?m)^(\\s*imports\\s*\\{)", content, line.as_str()))
}

/// What adopting a fetched backend definition does next.
#[derive(Clone, Copy, Debug, PartialEq, Eq)]
pub enum AdoptStep {
    /// Ask whether to go on with a definition that does not parse.
    ConfirmInvalid,
    /// Stop: the file exists and `--force` was not given.
    FileExists,
    /// Ask whether to adopt the backend.
    ConfirmAdopt,
    /// Write the file and import it.
    Write,
}

/// Decides the next step of adopting a backend definition: a definition
/// that does not parse needs confirmation (unless forced) before anything
/// else; an existing file stops the adoption unless forced; adopting needs
/// confirmation unless forced.
pub fn adopt_step(valid: bool, invalid_confirmed: bool, file_exists: bool, force: bool) -> (r: AdoptStep)
    ensures
        r == (if !valid && !force && !invalid_confirmed {
            AdoptStep::ConfirmInvalid
        } else if file_exists && !force {
            AdoptStep::FileExists
        } else if !force {
            AdoptStep::ConfirmAdopt
        } else {
            AdoptStep::Write
        }),
{
    if !valid && !force && !invalid_confirmed {
        AdoptStep::ConfirmInvalid
    } else if file_exists && !force {
        AdoptStep::FileExists
    } else if !force {
        AdoptStep::ConfirmAdopt
    } else {
        AdoptStep::Write
    }
}

} // verus!
