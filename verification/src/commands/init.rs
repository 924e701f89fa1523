//! The `init` command's decisions: what it initialises, and how backend
//! names are read and checked.
use vstd::prelude::*;
use crate::model::DeclarchError;
use crate::outside::{alphanumeric, is_alphanumeric, kdl_parsed, kdl_parse, lowercase, to_lowercase};
use crate::text::{chars_of, concat4, split_all, split_all_chars, string_of, trim, trim_chars, views};

pub mod backend;
pub mod list;
pub mod module;
pub mod template;

verus! {

/// Options of the `init` command.
#[derive(Clone, Debug)]
pub struct InitOptions {
    /// Module to initialise, if any.
    pub path: Option<String>,
    /// Host name for a new root configuration.
    pub host: Option<String>,
    /// Backends to initialise, possibly comma-separated.
    pub backends: Vec<String>,
    /// Overwrite existing files.
    pub force: bool,
    /// Answer prompts with yes.
    pub yes: bool,
    /// Create a local module instead of fetching one.
    pub local: bool,
}

/// The non-blank comma-separated names in one argument, trimmed.
pub open spec fn names_in(pieces: Seq<Seq<char>>) -> Seq<Seq<char>>
    decreases pieces.len(),
{
    if pieces.len() == 0 {
        Seq::empty()
    } else {
        let rest = names_in(pieces.drop_last());
        if trim(pieces.last()).len() > 0 {
            rest.push(trim(pieces.last()))
        } else {
            rest
        }
    }
}

/// All backend names given, in order: each argument split at commas, each
/// piece trimmed, blank pieces dropped.
pub open spec fn backend_names(args: Seq<Seq<char>>) -> Seq<Seq<char>>
    decreases args.len(),
{
    if args.len() == 0 {
        Seq::empty()
    } else {
        backend_names(args.drop_last()) + names_in(split_all(args.last(), ','))
    }
}

/// Reads `--backend` arguments: `a,b` and `c` give `a`, `b`, `c`.
pub fn normalize_backend_args(backends: &Vec<String>) -> (r: Vec<String>)
    ensures
        views(r@) == backend_names(views(backends@)),
{
    let ghost args = views(backends@);
    let mut out: Vec<String> = Vec::new();
    let mut i: usize = 0;
    while i < backends.len()
        invariant
            i <= backends.len(),
            args == views(backends@),
            views(out@) == backend_names(args.take(i as int)),
        decreases backends.len() - i,
    {
        assert(args.take(i + 1).drop_last() =~= args.take(i as int));
        assert(args.take(i + 1).last() == backends@[i as int]@);
        let c = chars_of(backends[i].as_str());
        let pieces = split_all_chars(c.as_slice(), ',');
        let ghost pv = pieces@.map_values(|l: Vec<char>| l@);
        let ghost base = views(out@);
        let mut k: usize = 0;
        while k < pieces.len()
            invariant
                k <= pieces.len(),
                pv == pieces@.map_values(|l: Vec<char>| l@),
                views(out@) == base + names_in(pv.take(k as int)),
            decreases pieces.len() - k,
        {
            assert(pv.take(k + 1).drop_last() =~= pv.take(k as int));
            assert(pv.take(k + 1).last() == pieces@[k as int]@);
            let t = trim_chars(pieces[k].as_slice());
            if t.len() > 0 {
                let ghost before = views(out@);
                out.push(string_of(t.as_slice()));
                assert(views(out@) =~= before.push(t@));
            }
            k += 1;
        }
        assert(pv.take(pieces.len() as int) =~= pv);
        i += 1;
    }
    assert(args.take(backends.len() as int) =~= args);
    out
}

/// What `init` sets up.
#[derive(Clone, Debug)]
pub enum InitPlan {
    /// A module at this path.
    Module { path: String, force: bool, yes: bool, local: bool },
    /// These backends, in order, after the root configuration when it is missing.
    Backends { names: Vec<String>, force: bool },
    /// The root configuration.
    Root { host: Option<String>, force: bool },
}

/// Decides what `init` sets up: a module when a path is given, else the
/// named backends (forced by `--force` or `--yes`), else the root.
pub fn run(options: &InitOptions) -> (r: InitPlan)
    ensures
        match options.path {
            Some(p) => r matches InitPlan::Module { path, force, yes, local } && path@ == p@
                && force == options.force && yes == options.yes && local == options.local,
            None => if backend_names(views(options.backends@)).len() > 0 {
                r matches InitPlan::Backends { names, force }
                    && views(names@) == backend_names(views(options.backends@))
                    && force == (options.force || options.yes)
            } else {
                r matches InitPlan::Root { host, force } && force == options.force
                    && match options.host {
                        Some(h) => host matches Some(x) && x@ == h@,
                        None => host is None,
                    }
            },
        },
{
    let names = normalize_backend_args(&options.backends);
    match &options.path {
        Some(p) => InitPlan::Module { path: p.clone(), force: options.force, yes: options.yes, local: options.local },
        None => if names.len() > 0 {
            InitPlan::Backends { names, force: options.force || options.yes }
        } else {
            InitPlan::Root {
                host: match &options.host {
                    Some(h) => Some(h.clone()),
                    None => None,
                },
                force: options.force,
            }
        },
    }
}

/// The characters a backend name keeps: alphanumeric ones, `-` and `_`.
pub open spec fn kept_chars(s: Seq<char>) -> Seq<char>
    decreases s.len(),
{
    if s.len() == 0 {
        Seq::empty()
    } else {
        let rest = kept_chars(s.drop_last());
        let c = s.last();
        if alphanumeric(c) || c == '-' || c == '_' {
            rest.push(c)
        } else {
            rest
        }
    }
}

/// A backend name made safe: the kept characters, lower-cased; an error
/// where nothing is left.
pub fn sanitize_backend_name(name: &str) -> (r: Result<String, DeclarchError>)
    ensures
        match r {
            Ok(s) => s@ == lowercase(kept_chars(name@)),
            Err(e) => e matches DeclarchError::Other(m)
                && m@ == "Invalid backend name. Use alphanumeric characters, hyphens, or underscores."@,
        },
        r is Err ==> lowercase(kept_chars(name@)).len() == 0,
        r is Ok ==> r->Ok_0@.len() > 0,
{
    let c = chars_of(name);
    let mut kept: Vec<char> = Vec::new();
    let mut i: usize = 0;
    while i < c.len()
        invariant
            i <= c.len(),
            c@ == name@,
            kept@ == kept_chars(c@.take(i as int)),
        decreases c.len() - i,
    {
        assert(c@.take(i + 1).drop_last() =~= c@.take(i as int));
        let ch = c[i];
        if is_alphanumeric(ch) || ch == '-' || ch == '_' {
            kept.push(ch);
        }
        i += 1;
    }
    assert(c@.take(c.len() as int) =~= c@);
    let k = string_of(kept.as_slice());
    let lowered = to_lowercase(k.as_str());
    if chars_of(lowered.as_str()).len() == 0 {
        Err(DeclarchError::Other(crate::text::owned("Invalid backend name. Use alphanumeric characters, hyphens, or underscores.")))
    } else {
        Ok(lowered)
    }
}

/// The message of a KDL text that does not parse, in a context.
pub open spec fn invalid_kdl_message(context: Seq<char>, error: Seq<char>) -> Seq<char> {
    "Invalid KDL in "@ + context + ": "@ + error
}

/// Checks that a text parses as KDL; the error names the context.
pub fn validate_kdl(content: &str, context: &str) -> (r: Result<(), DeclarchError>)
    ensures
        match kdl_parsed(content@) {
            Ok(_) => r is Ok,
            Err(e) => r matches Err(DeclarchError::ConfigError(m)) && m@ == invalid_kdl_message(context@, e),
        },
{
    match kdl_parse(content) {
        Ok(_) => Ok(()),
        Err(e) => Err(DeclarchError::ConfigError(concat4("Invalid KDL in ", context, ": ", e.as_str()))),
    }
}

/// The pieces of a split hold no separator.
pub proof fn lemma_split_pieces_lack_separator(s: Seq<char>, c: char)
    ensures
        forall|i: int| 0 <= i < split_all(s, c).len() ==> !(#[trigger] split_all(s, c)[i]).contains(c),
    decreases s.len(),
{
    s.index_of_first_ensures(c);
    match s.index_of_first(c) {
        None => {
            assert(split_all(s, c) == seq![s]);
        },
        Some(i) => {
            lemma_split_pieces_lack_separator(s.skip(i + 1), c);
            let parts = split_all(s, c);
            assert forall|j: int| 0 <= j < parts.len() implies !(#[trigger] parts[j]).contains(c) by {
                if j == 0 {
                    if s.take(i).contains(c) {
                        let k = choose|k: int| 0 <= k < s.take(i).len() && s.take(i)[k] == c;
                        assert(s[k] == c);
                    }
                } else {
                    assert(parts[j] == split_all(s.skip(i + 1), c)[j - 1]);
                }
            }
        },
    }
}

/// The names read from pieces are trimmed, non-empty pieces.
proof fn lemma_names_in_clean(pieces: Seq<Seq<char>>)
    requires
        forall|i: int| 0 <= i < pieces.len() ==> !(#[trigger] pieces[i]).contains(','),
    ensures
        forall|i: int| 0 <= i < names_in(pieces).len() ==> {
            let n = #[trigger] names_in(pieces)[i];
            n.len() > 0 && !n.contains(',') && trim(n) == n
        },
    decreases pieces.len(),
{
    if pieces.len() > 0 {
        let d = pieces.drop_last();
        assert forall|i: int| 0 <= i < d.len() implies !(#[trigger] d[i]).contains(',') by {
            assert(d[i] == pieces[i]);
        }
        lemma_names_in_clean(d);
        crate::text::lemma_trim_facts(pieces.last());
        assert(!pieces.last().contains(','));
        let rest = names_in(d);
        assert forall|i: int| 0 <= i < names_in(pieces).len() implies {
            let n = #[trigger] names_in(pieces)[i];
            n.len() > 0 && !n.contains(',') && trim(n) == n
        } by {
            if i < rest.len() {
                assert(names_in(pieces)[i] == rest[i]);
            } else {
                assert(names_in(pieces)[i] == trim(pieces.last()));
            }
        }
    }
}

/// Law: every backend name read from `--backend` arguments is non-empty,
/// holds no comma, and has no surrounding whitespace.
pub proof fn law_backend_names_are_clean(args: Seq<Seq<char>>)
    ensures
        forall|i: int| 0 <= i < backend_names(args).len() ==> {
            let n = #[trigger] backend_names(args)[i];
            n.len() > 0 && !n.contains(',') && trim(n) == n
        },
    decreases args.len(),
{
    if args.len() > 0 {
        law_backend_names_are_clean(args.drop_last());
        lemma_split_pieces_lack_separator(args.last(), ',');
        lemma_names_in_clean(split_all(args.last(), ','));
        let a = backend_names(args.drop_last());
        let b = names_in(split_all(args.last(), ','));
        assert forall|i: int| 0 <= i < backend_names(args).len() implies {
            let n = #[trigger] backend_names(args)[i];
            n.len() > 0 && !n.contains(',') && trim(n) == n
        } by {
            if i < a.len() {
                assert(backend_names(args)[i] == a[i]);
            } else {
                assert(backend_names(args)[i] == b[i - a.len()]);
            }
        }
    }
}

/// Clean names read as arguments come back as they are.
proof fn lemma_clean_names_read_back(names: Seq<Seq<char>>)
    requires
        forall|i: int| 0 <= i < names.len() ==> {
            let n = #[trigger] names[i];
            n.len() > 0 && !n.contains(',') && trim(n) == n
        },
    ensures
        backend_names(names) == names,
    decreases names.len(),
{
    if names.len() > 0 {
        let d = names.drop_last();
        let n = names.last();
        assert forall|i: int| 0 <= i < d.len() implies {
            let m = #[trigger] d[i];
            m.len() > 0 && !m.contains(',') && trim(m) == m
        } by {
            assert(d[i] == names[i]);
        }
        lemma_clean_names_read_back(d);
        assert(n == names[names.len() - 1]);
        n.index_of_first_ensures(',');
        assert(split_all(n, ',') == seq![n]);
        let one = seq![n];
        assert(one.drop_last() =~= Seq::<Seq<char>>::empty());
        assert(names_in(one) == names_in(one.drop_last()).push(n));
        assert(names_in(one) =~= seq![n]);
        assert(names =~= d + seq![n]);
    }
}

/// Law: reading backend names is settled after one pass: the names read
/// from the names read are those names.
pub proof fn law_backend_names_settle(args: Seq<Seq<char>>)
    ensures
        backend_names(backend_names(args)) == backend_names(args),
{
    law_backend_names_are_clean(args);
    lemma_clean_names_read_back(backend_names(args));
}

} // verus!
