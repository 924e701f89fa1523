//! The `edit` command's decisions: which file a target names, which editor
//! opens it, and what the command does with it.
use vstd::prelude::*;
use crate::model::DeclarchError;
use crate::text::{
    chars_of, concat3, eq_chars, is_whitespace, is_ws, owned, push_all, split_all,
    split_all_chars, string_of, trim, trim_chars, trim_start,
};

verus! {

/// Options of the `edit` command.
#[derive(Clone, Debug)]
pub struct EditOptions {
    pub target: Option<String>,
    pub dry_run: bool,
    pub preview: bool,
    pub number: bool,
    pub create: bool,
    pub auto_format: bool,
    pub validate_only: bool,
    pub backup: bool,
}

/// Why a target is refused, if it is: blank, absolute, or climbing out
/// through a `..` component.
pub open spec fn edit_target_problem(t: Seq<char>) -> Option<Seq<char>> {
    if trim(t).len() == 0 {
        Some("Invalid module name"@)
    } else if t[0] == '/' {
        Some("Invalid module name: absolute paths are not allowed"@)
    } else if split_all(t, '/').contains(".."@) {
        Some("Invalid module name: path traversal is not allowed"@)
    } else {
        None
    }
}

/// Whether a piece list holds `..`, and the first index where it does.
fn holds_parent(parts: &Vec<Vec<char>>) -> (r: bool)
    ensures
        r == parts@.map_values(|l: Vec<char>| l@).contains(".."@),
{
    let dots = chars_of("..");
    let ghost ps = parts@.map_values(|l: Vec<char>| l@);
    let mut i: usize = 0;
    while i < parts.len()
        invariant
            i <= parts.len(),
            dots@ == ".."@,
            ps == parts@.map_values(|l: Vec<char>| l@),
            forall|j: int| 0 <= j < i ==> ps[j] != ".."@,
        decreases parts.len() - i,
    {
        if eq_chars(parts[i].as_slice(), dots.as_slice()) {
            assert(ps[i as int] == ".."@);
            return true;
        }
        i += 1;
    }
    false
}

/// Checks a target given to `edit`: not blank, not absolute, no `..`.
pub fn validate_edit_target(target: &str) -> (r: Result<(), DeclarchError>)
    ensures
        match edit_target_problem(target@) {
            None => r is Ok,
            Some(m) => r matches Err(DeclarchError::Other(e)) && e@ == m,
        },
{
    let c = chars_of(target);
    let t = trim_chars(c.as_slice());
    if t.len() == 0 {
        return Err(DeclarchError::Other(owned("Invalid module name")));
    }
    if c[0] == '/' {
        return Err(DeclarchError::Other(owned("Invalid module name: absolute paths are not allowed")));
    }
    let parts = split_all_chars(c.as_slice(), '/');
    if holds_parent(&parts) {
        return Err(DeclarchError::Other(owned("Invalid module name: path traversal is not allowed")));
    }
    Ok(())
}

/// The path components of a relative target: its `/`-separated pieces
/// without empty pieces and `.` pieces.
pub open spec fn normal_pieces(parts: Seq<Seq<char>>) -> Seq<Seq<char>>
    decreases parts.len(),
{
    if parts.len() == 0 {
        Seq::empty()
    } else {
        let rest = normal_pieces(parts.drop_last());
        if parts.last().len() == 0 || parts.last() == "."@ {
            rest
        } else {
            rest.push(parts.last())
        }
    }
}

/// A file name has an extension when it holds a `.` after its first character.
pub open spec fn has_extension(name: Seq<char>) -> bool {
    exists|i: int| 0 < i < name.len() && name[i] == '.'
}

/// The file name with `.kdl` added when it has no extension.
pub open spec fn with_kdl(name: Seq<char>) -> Seq<char> {
    if has_extension(name) {
        name
    } else {
        name + ".kdl"@
    }
}

/// The pieces joined by `/`, the last one given `.kdl` when it has no
/// extension.
pub open spec fn kdl_path(pieces: Seq<Seq<char>>) -> Seq<char>
    recommends
        pieces.len() > 0,
{
    crate::text::joined(pieces.drop_last().push(with_kdl(pieces.last())), "/"@)
}

/// Where a target for `edit` points, relative to the configuration directory.
#[derive(Clone, Debug)]
pub enum EditTarget {
    /// A bare module name: `module` (under `modules/`) is tried first, then
    /// `file` inside each category directory of `modules/`, and last, when
    /// `root` holds (the name is that of the root configuration file,
    /// `declarch.kdl`), the root configuration file itself.
    Bare { module: String, file: String, root: bool },
    /// A path: under `modules/` unless it starts with `modules/` or `./`.
    Path(String),
}

/// The file a valid target points to: a one-component target is a bare
/// module name; otherwise a path, put under `modules/` unless it starts with
/// `modules/` or `./`; the file name gets `.kdl` when it has no extension.
/// Paths are given normalized (no empty or `.` components).
pub open spec fn edit_target_of(t: Seq<char>) -> Result<(bool, Seq<char>, Seq<char>), Seq<char>> {
    match edit_target_problem(t) {
        Some(m) => Err(m),
        None => {
            let parts = split_all(t, '/');
            let pieces = normal_pieces(parts);
            if pieces.len() == 0 {
                Err("Invalid module name"@)
            } else if pieces.len() == 1 && parts[0] != "."@ {
                Ok((true, "modules/"@ + with_kdl(pieces[0]), with_kdl(pieces[0])))
            } else if "modules/"@.is_prefix_of(t) || "./"@.is_prefix_of(t) {
                Ok((false, kdl_path(pieces), Seq::empty()))
            } else {
                Ok((false, kdl_path(seq!["modules"@] + pieces), Seq::empty()))
            }
        },
    }
}

/// Whether a file name has an extension.
fn name_has_extension(name: &Vec<char>) -> (r: bool)
    ensures
        r == has_extension(name@),
{
    let mut i: usize = 1;
    while i < name.len()
        invariant
            1 <= i,
            forall|j: int| 0 < j < i && j < name@.len() ==> name@[j] != '.',
        decreases name.len() - i,
    {
        if name[i] == '.' {
            return true;
        }
        i += 1;
    }
    false
}

/// A file name with `.kdl` added when it has no extension.
fn kdl_name(name: &Vec<char>) -> (r: Vec<char>)
    ensures
        r@ == with_kdl(name@),
{
    let mut out = name.clone();
    assert(out@ == name@);
    if !name_has_extension(name) {
        crate::text::push_str(&mut out, ".kdl");
    }
    out
}

/// The normal pieces of a piece list.
pub fn normal_pieces_of(parts: &Vec<Vec<char>>) -> (r: Vec<Vec<char>>)
    ensures
        r@.map_values(|l: Vec<char>| l@) == normal_pieces(parts@.map_values(|l: Vec<char>| l@)),
{
    let ghost ps = parts@.map_values(|l: Vec<char>| l@);
    let dot = chars_of(".");
    let mut out: Vec<Vec<char>> = Vec::new();
    let mut i: usize = 0;
    while i < parts.len()
        invariant
            i <= parts.len(),
            dot@ == "."@,
            ps == parts@.map_values(|l: Vec<char>| l@),
            out@.map_values(|l: Vec<char>| l@) == normal_pieces(ps.take(i as int)),
        decreases parts.len() - i,
    {
        assert(ps.take(i + 1).drop_last() =~= ps.take(i as int));
        assert(ps.take(i + 1).last() == parts@[i as int]@);
        if parts[i].len() > 0 && !eq_chars(parts[i].as_slice(), dot.as_slice()) {
            let ghost before = out@.map_values(|l: Vec<char>| l@);
            out.push(parts[i].clone());
            assert(out@.map_values(|l: Vec<char>| l@) =~= before.push(parts@[i as int]@));
        }
        i += 1;
    }
    assert(ps.take(parts.len() as int) =~= ps);
    out
}

/// The pieces joined by `/` with the last one given `.kdl` if needed.
pub fn kdl_path_of(pieces: &Vec<Vec<char>>) -> (r: String)
    requires
        pieces@.len() > 0,
    ensures
        r@ == kdl_path(pieces@.map_values(|l: Vec<char>| l@)),
{
    let ghost ps = pieces@.map_values(|l: Vec<char>| l@);
    let ghost target = ps.drop_last().push(with_kdl(ps.last()));
    let n = pieces.len();
    let mut out: Vec<char> = Vec::new();
    let mut i: usize = 0;
    while i < n
        invariant
            n == pieces@.len(),
            n > 0,
            i <= n,
            ps == pieces@.map_values(|l: Vec<char>| l@),
            target == ps.drop_last().push(with_kdl(ps.last())),
            out@ == crate::text::joined(target.take(i as int), "/"@),
        decreases n - i,
    {
        assert(target.take(i + 1).drop_last() =~= target.take(i as int));
        if i > 0 {
            crate::text::push_str(&mut out, "/");
        }
        if i + 1 == n {
            let last = kdl_name(&pieces[i]);
            push_all(&mut out, last.as_slice());
            assert(target[i as int] == with_kdl(ps.last()));
        } else {
            push_all(&mut out, pieces[i].as_slice());
            assert(target[i as int] == ps[i as int]);
        }
        proof {
            if i == 0 {
                assert(out@ =~= target.take(1)[0]);
            }
        }
        i += 1;
    }
    assert(target.take(n as int) =~= target);
    string_of(out.as_slice())
}

/// The file name of the root configuration file.
pub open spec fn root_file_name() -> Seq<char> {
    "declarch.kdl"@
}

/// Decides which file a target for `edit` points to (see `edit_target_of`);
/// a bare name that is the root configuration file's name also names that
/// file, tried after the module directories.
pub fn edit_target(target: &str) -> (r: Result<EditTarget, DeclarchError>)
    ensures
        match edit_target_of(target@) {
            Err(m) => r matches Err(DeclarchError::Other(e)) && e@ == m,
            Ok(x) => if x.0 {
                r matches Ok(EditTarget::Bare { module, file, root }) && module@ == x.1 && file@ == x.2
                    && root == (x.2 == root_file_name())
            } else {
                r matches Ok(EditTarget::Path(p)) && p@ == x.1
            },
        },
{
    validate_edit_target(target)?;
    let c = chars_of(target);
    let parts = split_all_chars(c.as_slice(), '/');
    let pieces = normal_pieces_of(&parts);
    let ghost ps = pieces@.map_values(|l: Vec<char>| l@);
    let ghost parts_v = parts@.map_values(|l: Vec<char>| l@);
    if pieces.len() == 0 {
        return Err(DeclarchError::Other(owned("Invalid module name")));
    }
    proof {
        reveal_strlit(".");
        reveal_strlit("modules/");
        reveal_strlit("./");
        reveal_strlit("modules");
    }
    let dot = chars_of(".");
    assert(parts_v.len() > 0) by {
        crate::text::lemma_split_all_nonempty(c@, '/');
    }
    assert(parts_v[0] == parts@[0]@);
    if pieces.len() == 1 && !eq_chars(parts[0].as_slice(), dot.as_slice()) {
        let file = kdl_name(&pieces[0]);
        let mut module = chars_of("modules/");
        push_all(&mut module, file.as_slice());
        assert(ps[0] == pieces@[0]@);
        let root_name = chars_of("declarch.kdl");
        let root = eq_chars(file.as_slice(), root_name.as_slice());
        return Ok(EditTarget::Bare { module: string_of(module.as_slice()), file: string_of(file.as_slice()), root });
    }
    let mp = chars_of("modules/");
    let cd = chars_of("./");
    if crate::text::starts_with_chars(c.as_slice(), mp.as_slice())
        || crate::text::starts_with_chars(c.as_slice(), cd.as_slice()) {
        Ok(EditTarget::Path(kdl_path_of(&pieces)))
    } else {
        let mut all: Vec<Vec<char>> = Vec::new();
        all.push(chars_of("modules"));
        let mut k: usize = 0;
        while k < pieces.len()
            invariant
                k <= pieces@.len(),
                ps == pieces@.map_values(|l: Vec<char>| l@),
                all@.map_values(|l: Vec<char>| l@) == seq!["modules"@] + ps.take(k as int),
            decreases pieces.len() - k,
        {
            let ghost before = all@.map_values(|l: Vec<char>| l@);
            all.push(pieces[k].clone());
            assert(all@.map_values(|l: Vec<char>| l@) =~= before.push(ps[k as int]));
            assert(ps.take(k + 1) =~= ps.take(k as int).push(ps[k as int]));
            k += 1;
        }
        assert(ps.take(pieces.len() as int) =~= ps);
        Ok(EditTarget::Path(kdl_path_of(&all)))
    }
}

/// The program part of an editor command: its first whitespace-separated
/// word, or the command itself when it is blank.
pub open spec fn editor_program(e: Seq<char>) -> Seq<char> {
    let s = trim_start(e);
    if s.len() == 0 {
        e
    } else if exists|i: int| 0 <= i < s.len() && is_ws(#[trigger] s[i]) {
        s.take(choose|i: int| 0 <= i < s.len() && is_ws(#[trigger] s[i]) && forall|j: int| 0 <= j < i ==> !is_ws(s[j]))
    } else {
        s
    }
}

/// The program an editor command runs (`code -w` runs `code`).
pub fn editor_binary(editor: &str) -> (r: String)
    ensures
        r@ == editor_program(editor@),
{
    let c = chars_of(editor);
    let mut i: usize = 0;
    while i < c.len() && is_whitespace(c[i])
        invariant
            i <= c.len(),
            forall|j: int| 0 <= j < i ==> is_ws(c@[j]),
        decreases c.len() - i,
    {
        i += 1;
    }
    proof {
        crate::text::lemma_trim_start_skips(c@, i as int);
    }
    let ghost s = c@.skip(i as int);
    if i == c.len() {
        assert(s.len() == 0);
        return owned(editor);
    }
    let start = i;
    let mut word: Vec<char> = Vec::new();
    while i < c.len() && !is_whitespace(c[i])
        invariant
            start <= i <= c.len(),
            s == c@.skip(start as int),
            word@ == c@.subrange(start as int, i as int),
            forall|j: int| start <= j < i ==> !is_ws(c@[j]),
        decreases c.len() - i,
    {
        word.push(c[i]);
        i += 1;
        assert(word@ =~= c@.subrange(start as int, i as int));
    }
    proof {
        if i < c.len() {
            let k = (i - start) as int;
            assert(is_ws(s[k]));
            assert(forall|j: int| 0 <= j < k ==> !is_ws(s[j]));
            let w = choose|w: int| 0 <= w < s.len() && is_ws(#[trigger] s[w]) && forall|j: int| 0 <= j < w ==> !is_ws(s[j]);
            if w < k {
                assert(!is_ws(s[w]));
            }
            if k < w {
                assert(!is_ws(s[k]));
            }
            assert(word@ =~= s.take(k));
        } else {
            assert(word@ =~= s);
            assert forall|w: int| 0 <= w < s.len() implies !is_ws(#[trigger] s[w]) by {
                assert(s[w] == c@[start + w]);
            }
        }
    }
    string_of(word.as_slice())
}

/// Where the chosen editor came from.
#[derive(Clone, Copy, Debug, PartialEq, Eq)]
pub enum EditorSource {
    Config,
    Visual,
    Editor,
    Fallback,
}

/// An editor candidate and whether its program was found.
pub open spec fn usable(c: Option<(String, bool)>) -> bool {
    c matches Some(x) && x.0@.len() > 0 && x.1
}

/// The command of an editor candidate.
pub open spec fn candidate_text(c: Option<(String, bool)>) -> Seq<char> {
    match c {
        Some(x) => x.0@,
        None => Seq::empty(),
    }
}

/// Picks the editor: the configuration's, then `$VISUAL`, then `$EDITOR`,
/// each only when set, non-empty and found; else `nano` when found.
/// Each candidate comes with whether its program was found on `PATH`.
pub fn choose_editor(
    configured: Option<(String, bool)>,
    visual: Option<(String, bool)>,
    editor: Option<(String, bool)>,
    nano_found: bool,
) -> (r: Result<(String, EditorSource), DeclarchError>)
    ensures
        usable(configured) ==> (r matches Ok(x) && x.1 == EditorSource::Config && x.0@ == candidate_text(configured)),
        !usable(configured) && usable(visual) ==> (r matches Ok(x) && x.1 == EditorSource::Visual && x.0@ == candidate_text(visual)),
        !usable(configured) && !usable(visual) && usable(editor) ==> (r matches Ok(x) && x.1 == EditorSource::Editor && x.0@ == candidate_text(editor)),
        !usable(configured) && !usable(visual) && !usable(editor) ==> if nano_found {
            r matches Ok(x) && x.1 == EditorSource::Fallback && x.0@ == "nano"@
        } else {
            r matches Err(DeclarchError::Other(m)) && m@ == "No editor found. Please install nano or set $EDITOR environment variable."@
        },
{
    if let Some((e, found)) = &configured {
        if *found && chars_of(e.as_str()).len() > 0 {
            return Ok((e.clone(), EditorSource::Config));
        }
    }
    if let Some((e, found)) = &visual {
        if *found && chars_of(e.as_str()).len() > 0 {
            return Ok((e.clone(), EditorSource::Visual));
        }
    }
    if let Some((e, found)) = &editor {
        if *found && chars_of(e.as_str()).len() > 0 {
            return Ok((e.clone(), EditorSource::Editor));
        }
    }
    if nano_found {
        Ok((owned("nano"), EditorSource::Fallback))
    } else {
        Err(DeclarchError::Other(owned("No editor found. Please install nano or set $EDITOR environment variable.")))
    }
}

/// What `edit` does once it knows its file.
#[derive(Clone, Copy, Debug, PartialEq, Eq)]
pub enum EditAction {
    /// Create the missing module from a template.
    Create,
    /// Only check the file's syntax.
    ValidateOnly,
    /// The file is missing.
    Missing,
    /// Show the file.
    Preview,
    /// Open the file in the editor.
    Open,
}

/// Decides what `edit` does: create a missing module when asked, only
/// validate when asked, fail on a missing file, preview when asked, else open.
pub fn edit_action(options: &EditOptions, file_exists: bool) -> (r: EditAction)
    ensures
        r == (if options.create && !file_exists {
            EditAction::Create
        } else if options.validate_only {
            EditAction::ValidateOnly
        } else if !file_exists {
            EditAction::Missing
        } else if options.preview {
            EditAction::Preview
        } else {
            EditAction::Open
        }),
{
    if options.create && !file_exists {
        EditAction::Create
    } else if options.validate_only {
        EditAction::ValidateOnly
    } else if !file_exists {
        EditAction::Missing
    } else if options.preview {
        EditAction::Preview
    } else {
        EditAction::Open
    }
}

/// What auto-formatting does to a file's text.
#[derive(Clone, Debug)]
pub enum FormatOutcome {
    /// The text is already formatted.
    Unchanged,
    /// The formatted text, to be written back.
    Reformatted(String),
    /// The text does not parse; the warning to show.
    Invalid(String),
}

/// Formats a file's KDL text: unchanged when writing the parsed document
/// back gives the same text, the new text otherwise, and a warning (not an
/// error) when it does not parse.
pub fn format_kdl(content: &str) -> (r: FormatOutcome)
    ensures
        match crate::outside::kdl_parsed(content@) {
            Err(e) => r matches FormatOutcome::Invalid(w) && w@ == "Cannot format invalid KDL: "@ + e,
            Ok(_) => if crate::outside::kdl_rendered(content@) == content@ {
                r is Unchanged
            } else {
                r matches FormatOutcome::Reformatted(t) && t@ == crate::outside::kdl_rendered(content@)
            },
        },
{
    match crate::outside::kdl_render(content) {
        Ok(formatted) => {
            if crate::text::same_text(formatted.as_str(), content) {
                FormatOutcome::Unchanged
            } else {
                FormatOutcome::Reformatted(formatted)
            }
        },
        Err(e) => FormatOutcome::Invalid(crate::text::concat2("Cannot format invalid KDL: ", e.as_str())),
    }
}

/// The message for a file that is missing.
pub fn missing_file_message(path: &str) -> (r: String)
    ensures
        r@ == "File not found: "@ + path@
            + "\nHint: Use 'declarch init' first, or use --create to make a new module"@,
{
    concat3("File not found: ", path, "\nHint: Use 'declarch init' first, or use --create to make a new module")
}

/// Splitting at a separator placed between two texts splits each side.
proof fn lemma_split_at_separator(a: Seq<char>, b: Seq<char>, c: char)
    ensures
        split_all(a + seq![c] + b, c) == split_all(a, c) + split_all(b, c),
    decreases a.len(),
{
    let t = a + seq![c] + b;
    a.index_of_first_ensures(c);
    t.index_of_first_ensures(c);
    assert(t[a.len() as int] == c);
    match a.index_of_first(c) {
        None => {
            let i = t.index_of_first(c)->0;
            if i < a.len() {
                assert(a[i] == c);
            }
            assert(i == a.len());
            assert(t.take(i) =~= a);
            assert(t.skip(i + 1) =~= b);
        },
        Some(i) => {
            let j = t.index_of_first(c)->0;
            if j < i {
                assert(t[j] == a[j]);
            }
            assert(t[i] == a[i]);
            assert(j == i);
            assert(t.take(i) =~= a.take(i));
            assert(t.skip(i + 1) =~= a.skip(i + 1) + seq![c] + b);
            lemma_split_at_separator(a.skip(i + 1), b, c);
            assert(split_all(t, c) =~= seq![a.take(i)] + (split_all(a.skip(i + 1), c) + split_all(b, c)));
        },
    }
}

/// A text without the separator splits into itself.
proof fn lemma_split_whole(a: Seq<char>, c: char)
    requires
        !a.contains(c),
    ensures
        split_all(a, c) == seq![a],
{
    a.index_of_first_ensures(c);
}

/// Pieces without the separator, joined by it, split back into themselves.
proof fn lemma_split_joined(ps: Seq<Seq<char>>)
    requires
        ps.len() > 0,
        forall|i: int| 0 <= i < ps.len() ==> !(#[trigger] ps[i]).contains('/'),
    ensures
        split_all(crate::text::joined(ps, "/"@), '/') == ps,
    decreases ps.len(),
{
    reveal_strlit("/");
    if ps.len() == 1 {
        lemma_split_whole(ps[0], '/');
        assert(ps =~= seq![ps[0]]);
    } else {
        let d = ps.drop_last();
        assert forall|i: int| 0 <= i < d.len() implies !(#[trigger] d[i]).contains('/') by {
            assert(d[i] == ps[i]);
        }
        lemma_split_joined(d);
        assert("/"@ =~= seq!['/']);
        lemma_split_at_separator(crate::text::joined(d, "/"@), ps.last(), '/');
        lemma_split_whole(ps.last(), '/');
        assert(ps =~= d + seq![ps.last()]);
    }
}

/// The first piece begins the joined text.
proof fn lemma_joined_starts(ps: Seq<Seq<char>>, sep: Seq<char>)
    requires
        ps.len() > 0,
    ensures
        ps[0].is_prefix_of(crate::text::joined(ps, sep)),
    decreases ps.len(),
{
    if ps.len() > 1 {
        lemma_joined_starts(ps.drop_last(), sep);
        let j = crate::text::joined(ps.drop_last(), sep);
        assert(crate::text::joined(ps, sep) == j + sep + ps.last());
        assert forall|k: int| 0 <= k < ps[0].len() implies ps[0][k] == crate::text::joined(ps, sep)[k] by {
            assert(ps.drop_last()[0] == ps[0]);
            assert(j[k] == ps[0][k]);
        }
    }
}

/// The normal pieces are non-empty pieces of the split, none of them `.`.
proof fn lemma_normal_pieces_from(parts: Seq<Seq<char>>)
    ensures
        forall|i: int| 0 <= i < normal_pieces(parts).len() ==> {
            let p = #[trigger] normal_pieces(parts)[i];
            p.len() > 0 && p != "."@ && parts.contains(p)
        },
    decreases parts.len(),
{
    if parts.len() > 0 {
        let d = parts.drop_last();
        lemma_normal_pieces_from(d);
        let rest = normal_pieces(d);
        assert forall|i: int| 0 <= i < normal_pieces(parts).len() implies {
            let p = #[trigger] normal_pieces(parts)[i];
            p.len() > 0 && p != "."@ && parts.contains(p)
        } by {
            if i < rest.len() {
                assert(normal_pieces(parts)[i] == rest[i]);
                let p = rest[i];
                let j = choose|j: int| 0 <= j < d.len() && d[j] == p;
                assert(parts[j] == p);
            } else {
                assert(parts[parts.len() - 1] == parts.last());
            }
        }
    }
}

/// A piece given `.kdl` stays free of `/` and is not `..`.
proof fn lemma_with_kdl_safe(x: Seq<char>)
    requires
        x.len() > 0,
        !x.contains('/'),
        x != ".."@,
    ensures
        !with_kdl(x).contains('/'),
        with_kdl(x) != ".."@,
        with_kdl(x).len() > 0,
{
    reveal_strlit(".kdl");
    reveal_strlit("..");
    if !has_extension(x) {
        let y = x + ".kdl"@;
        assert(y.len() >= 4);
        if y.contains('/') {
            let k = choose|k: int| 0 <= k < y.len() && y[k] == '/';
            if k < x.len() {
                assert(x[k] == '/');
            }
        }
    }
}

/// Law: a target that `edit` accepts never leads outside the configuration
/// directory: the path it gives is relative and has no `..` component, and
/// neither has the file name tried inside the category directories.
pub proof fn law_edit_target_stays_inside(t: Seq<char>)
    ensures
        edit_target_of(t) matches Ok(x) ==> {
            &&& x.1.len() > 0
            &&& x.1[0] != '/'
            &&& !split_all(x.1, '/').contains(".."@)
            &&& !split_all(x.2, '/').contains(".."@)
        },
{
    reveal_strlit("/");
    reveal_strlit("..");
    reveal_strlit("modules");
    reveal_strlit("modules/");
    if edit_target_of(t) is Ok {
        let parts = split_all(t, '/');
        let ps = normal_pieces(parts);
        crate::commands::init::lemma_split_pieces_lack_separator(t, '/');
        lemma_normal_pieces_from(parts);
        assert forall|i: int| 0 <= i < ps.len() implies !(#[trigger] ps[i]).contains('/') && ps[i] != ".."@ && ps[i].len() > 0 by {
            let j = choose|j: int| 0 <= j < parts.len() && parts[j] == ps[i];
            assert(!parts[j].contains('/'));
            assert(!parts.contains(".."@));
        }
        let x = edit_target_of(t)->Ok_0;
        let last = with_kdl(ps.last());
        lemma_with_kdl_safe(ps.last());
        assert("modules"@ =~= seq!['m', 'o', 'd', 'u', 'l', 'e', 's']);
        assert(!"modules"@.contains('/'));
        if ps.len() == 1 && parts[0] != "."@ {
            assert(x.1 =~= "modules"@ + seq!['/'] + last);
            lemma_split_at_separator("modules"@, last, '/');
            lemma_split_whole("modules"@, '/');
            lemma_split_whole(last, '/');
            assert(split_all(x.1, '/') =~= seq!["modules"@, last]);
            assert(x.2 == last);
            if split_all(x.1, '/').contains(".."@) {
                let k = choose|k: int| 0 <= k < 2 && split_all(x.1, '/')[k] == ".."@;
            }
        } else {
            let full = if "modules/"@.is_prefix_of(t) || "./"@.is_prefix_of(t) { ps } else { seq!["modules"@] + ps };
            let named = full.drop_last().push(with_kdl(full.last()));
            assert(named.last() == last) by {
                if !("modules/"@.is_prefix_of(t) || "./"@.is_prefix_of(t)) {
                    assert(full.last() == ps.last());
                }
            }
            assert forall|i: int| 0 <= i < named.len() implies !(#[trigger] named[i]).contains('/') && named[i] != ".."@ && named[i].len() > 0 by {
                if i == named.len() - 1 {
                    assert(named[i] == last);
                } else if "modules/"@.is_prefix_of(t) || "./"@.is_prefix_of(t) {
                    assert(named[i] == ps[i]);
                } else if i == 0 {
                    assert(named[i] == "modules"@);
                } else {
                    assert(named[i] == ps[i - 1]);
                }
            }
            assert(x.1 == crate::text::joined(named, "/"@));
            lemma_split_joined(named);
            lemma_joined_starts(named, "/"@);
            assert(x.1[0] == named[0][0]);
            assert(!named[0].contains('/'));
            if split_all(x.1, '/').contains(".."@) {
                let k = choose|k: int| 0 <= k < named.len() && split_all(x.1, '/')[k] == ".."@;
                assert(named[k] == ".."@);
            }
            assert(x.2 == Seq::<char>::empty());
            lemma_split_whole(x.2, '/');
            assert(split_all(x.2, '/') =~= seq![Seq::<char>::empty()]);
            if split_all(x.2, '/').contains(".."@) {
                assert(".."@.len() == 2);
            }
        }
    }
}

} // verus!
