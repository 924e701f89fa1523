//! What an `info` target or query asks for.
use vstd::prelude::*;
use crate::commands::info_reason::matching::{filter_view, find_matches, matching_ids};
use crate::commands::info_reason::query_helpers::{
    backend_view, looks_like_module_query, module_shaped, parse_query, query_parts,
};
use crate::model::{DeclarchError, MergedConfig, PackageId, declared_ids, id_views, labels};
use crate::outside::{lowercase, to_lowercase};
use crate::text::{
    chars_of, concat2, concat3, owned, same_text, sorted, starts_with_chars, string_of, trim,
    trim_chars, views,
};

verus! {

broadcast use vstd::seq_lib::group_to_multiset_ensures;

/// `s` with every leading copy of `p` removed (`str::trim_start_matches`).
pub open spec fn strip_leading(s: Seq<char>, p: Seq<char>) -> Seq<char>
    decreases s.len(),
{
    if p.len() > 0 && p.is_prefix_of(s) {
        strip_leading(s.skip(p.len() as int), p)
    } else {
        s
    }
}

/// Whether `p` occurs in `s` at position `i`.
fn occurs_at(s: &Vec<char>, i: usize, p: &Vec<char>) -> (r: bool)
    requires
        i <= s@.len(),
    ensures
        r == p@.is_prefix_of(s@.skip(i as int)),
{
    if p.len() > s.len() - i {
        return false;
    }
    let mut k: usize = 0;
    assert(i + p@.len() <= s@.len());
    while k < p.len()
        invariant
            k <= p@.len(),
            i + p@.len() <= s@.len(),
            s@.len() == s.len(),
            forall|j: int| 0 <= j < k ==> p@[j] == s@[i + j],
        decreases p.len() - k,
    {
        if p[k] != s[i + k] {
            return false;
        }
        k += 1;
    }
    true
}

/// Removes every leading copy of a non-empty prefix.
fn strip_leading_chars(s: &Vec<char>, p: &Vec<char>) -> (r: Vec<char>)
    requires
        p@.len() > 0,
    ensures
        r@ == strip_leading(s@, p@),
{
    let mut i: usize = 0;
    assert(s@.skip(0) =~= s@);
    while occurs_at(s, i, p)
        invariant
            i <= s@.len(),
            p@.len() > 0,
            strip_leading(s@, p@) == strip_leading(s@.skip(i as int), p@),
        decreases s.len() - i,
    {
        proof {
            assert(s@.skip(i as int).skip(p@.len() as int) =~= s@.skip(i + p@.len()));
        }
        assert(i + p@.len() <= s@.len());
        i += p.len();
    }
    let mut out: Vec<char> = Vec::new();
    let mut k: usize = i;
    while k < s.len()
        invariant
            i <= k <= s@.len(),
            out@ == s@.subrange(i as int, k as int),
        decreases s.len() - k,
    {
        out.push(s[k]);
        k += 1;
        assert(out@ =~= s@.subrange(i as int, k as int));
    }
    assert(out@ =~= s@.skip(i as int));
    out
}

/// What an `info --target` asks for.
#[derive(Clone, Debug)]
pub enum InfoTarget {
    /// The list of target forms.
    Help,
    /// The sync plan.
    SyncPlan,
    /// A backend, by name.
    Backend(String),
    /// A module, by name.
    Module(String),
}

/// The meaning of an `info --target`: `help` / `targets`, `sync-plan`,
/// `backend:<name>`, `module:<name>` (names trimmed after every leading
/// copy of the prefix is removed, and not empty), or an error.
pub open spec fn target_of(t: Seq<char>) -> Result<(int, Seq<char>), Seq<char>> {
    if t == "help"@ || t == "targets"@ {
        Ok((0, Seq::empty()))
    } else if t == "sync-plan"@ {
        Ok((1, Seq::empty()))
    } else if "backend:"@.is_prefix_of(t) {
        let n = trim(strip_leading(t, "backend:"@));
        if n.len() == 0 {
            Err("Backend target is empty. Use --target backend:<name>"@)
        } else {
            Ok((2, n))
        }
    } else if "module:"@.is_prefix_of(t) {
        let n = trim(strip_leading(t, "module:"@));
        if n.len() == 0 {
            Err("Module target is empty. Use --target module:<name>"@)
        } else {
            Ok((3, n))
        }
    } else {
        Err("Unsupported info target '"@ + t + "'. Supported: sync-plan, backend:<name>, module:<name>."@)
    }
}

/// Reads an `info --target` (see `target_of`; the number in it is the
/// variant: help, sync plan, backend, module).
pub fn info_target(target: &str) -> (r: Result<InfoTarget, DeclarchError>)
    ensures
        match target_of(target@) {
            Ok((k, n)) => r matches Ok(x) && (match x {
                InfoTarget::Help => k == 0,
                InfoTarget::SyncPlan => k == 1,
                InfoTarget::Backend(b) => k == 2 && b@ == n,
                InfoTarget::Module(m) => k == 3 && m@ == n,
            }),
            Err(m) => r matches Err(DeclarchError::Other(e)) && e@ == m,
        },
{
    if same_text(target, "help") || same_text(target, "targets") {
        return Ok(InfoTarget::Help);
    }
    if same_text(target, "sync-plan") {
        return Ok(InfoTarget::SyncPlan);
    }
    let t = chars_of(target);
    let bp = chars_of("backend:");
    let mp = chars_of("module:");
    proof {
        reveal_strlit("backend:");
        reveal_strlit("module:");
    }
    if starts_with_chars(t.as_slice(), bp.as_slice()) {
        let rest = strip_leading_chars(&t, &bp);
        let n = trim_chars(rest.as_slice());
        if n.len() == 0 {
            return Err(DeclarchError::Other(owned("Backend target is empty. Use --target backend:<name>")));
        }
        return Ok(InfoTarget::Backend(string_of(n.as_slice())));
    }
    if starts_with_chars(t.as_slice(), mp.as_slice()) {
        let rest = strip_leading_chars(&t, &mp);
        let n = trim_chars(rest.as_slice());
        if n.len() == 0 {
            return Err(DeclarchError::Other(owned("Module target is empty. Use --target module:<name>")));
        }
        return Ok(InfoTarget::Module(string_of(n.as_slice())));
    }
    Err(DeclarchError::Other(concat3("Unsupported info target '", target, "'. Supported: sync-plan, backend:<name>, module:<name>.")))
}

/// Where an `info` query leads.
#[derive(Clone, Debug)]
pub enum QueryRoute {
    /// A module, by the query's name part.
    Module(String),
    /// A backend, by the query's name part.
    Backend(String),
    /// These declared packages, ordered by `backend:name`.
    Packages(Vec<PackageId>),
    /// Nothing matched.
    NotFound,
}

/// Where a query leads, given whether its name part resolves to a module
/// file and the names of the known backends: a module when the name looks
/// like one and resolves; a backend for `backend:<name>`; else the packages
/// named exactly (up to ASCII case) or, failing that, holding the name; else
/// a backend when the lower-cased name is a known one; else nothing.
/// The number is the variant: module, backend, packages, nothing.
pub open spec fn route_of(
    ids: Seq<(Seq<char>, Seq<char>)>,
    query: Seq<char>,
    module_resolves: bool,
    known: Seq<Seq<char>>,
) -> (int, Seq<(Seq<char>, Seq<char>)>) {
    let (filter, needle) = query_parts(query);
    let exact = matching_ids(ids, filter, needle, true);
    let fuzzy = matching_ids(ids, filter, needle, false);
    if module_shaped(needle) && module_resolves {
        (0, Seq::empty())
    } else if filter == Some("backend"@) {
        (1, Seq::empty())
    } else if exact.len() > 0 {
        (2, exact)
    } else if fuzzy.len() > 0 {
        (2, fuzzy)
    } else if known.contains(lowercase(needle)) {
        (1, Seq::empty())
    } else {
        (3, Seq::empty())
    }
}

/// Whether a text is among the strings.
fn among(v: &Vec<String>, s: &str) -> (r: bool)
    ensures
        r == views(v@).contains(s@),
{
    let mut i: usize = 0;
    while i < v.len()
        invariant
            i <= v@.len(),
            forall|j: int| 0 <= j < i ==> v@[j]@ != s@,
        decreases v.len() - i,
    {
        if same_text(v[i].as_str(), s) {
            assert(views(v@)[i as int] == s@);
            return true;
        }
        i += 1;
    }
    assert forall|j: int| 0 <= j < views(v@).len() implies views(v@)[j] != s@ by {
        assert(views(v@)[j] == v@[j]@);
    }
    false
}

/// Decides where an `info` query leads (see `route_of`); `module_resolves`
/// says whether the query's name part names an existing module file, and
/// `known_backends` are the lower-cased names of the known backends.
pub fn route_query(config: &MergedConfig, query: &str, module_resolves: bool, known_backends: &Vec<String>) -> (r: QueryRoute)
    ensures
        ({
            let (k, ids) = route_of(declared_ids(config.packages@), query@, module_resolves, views(known_backends@));
            let needle = query_parts(query@).1;
            match r {
                QueryRoute::Module(n) => k == 0 && n@ == needle,
                QueryRoute::Backend(n) => k == 1 && n@ == needle,
                QueryRoute::Packages(v) => k == 2 && sorted(labels(id_views(v@)))
                    && id_views(v@).to_multiset() == ids.to_multiset(),
                QueryRoute::NotFound => k == 3,
            }
        }),
{
    let (backend_filter, needle) = parse_query(query);
    let bf = backend_filter.as_ref();
    let ghost fv = filter_view(bf);
    let ghost ids = declared_ids(config.packages@);
    assert(fv == backend_view(backend_filter));
    assert(query_parts(query@) == (fv, needle@));
    if looks_like_module_query(needle.as_str()) && module_resolves {
        return QueryRoute::Module(needle);
    }
    let is_backend_keyword = match bf {
        Some(b) => same_text(b.name(), "backend"),
        None => false,
    };
    if is_backend_keyword {
        return QueryRoute::Backend(needle);
    }
    assert(fv != Some("backend"@));
    let exact = find_matches(config, bf, needle.as_str(), true);
    assert(id_views(exact@).to_multiset().len() == matching_ids(ids, fv, needle@, true).len());
    if exact.len() > 0 {
        return QueryRoute::Packages(exact);
    }
    let fuzzy = find_matches(config, bf, needle.as_str(), false);
    assert(id_views(fuzzy@).to_multiset().len() == matching_ids(ids, fv, needle@, false).len());
    if fuzzy.len() > 0 {
        return QueryRoute::Packages(fuzzy);
    }
    let lowered = to_lowercase(needle.as_str());
    if among(known_backends, lowered.as_str()) {
        return QueryRoute::Backend(needle);
    }
    QueryRoute::NotFound
}

/// How many declared packages use a backend (compared lower-cased).
pub open spec fn backend_usage_of(ids: Seq<(Seq<char>, Seq<char>)>, backend: Seq<char>) -> nat
    decreases ids.len(),
{
    if ids.len() == 0 {
        0
    } else {
        backend_usage_of(ids.drop_last(), backend) + if ids.last().0 == lowercase(backend) { 1nat } else { 0nat }
    }
}

/// Counts the declared packages that use a backend.
pub fn backend_usage(config: &MergedConfig, backend_name: &str) -> (r: usize)
    ensures
        r == backend_usage_of(declared_ids(config.packages@), backend_name@),
{
    let ghost ids = declared_ids(config.packages@);
    let lowered = to_lowercase(backend_name);
    let mut n: usize = 0;
    let mut i: usize = 0;
    while i < config.packages.len()
        invariant
            i <= config.packages@.len(),
            ids == declared_ids(config.packages@),
            lowered@ == lowercase(backend_name@),
            n == backend_usage_of(ids.take(i as int), backend_name@),
            n <= i,
        decreases config.packages.len() - i,
    {
        assert(ids.take(i + 1).drop_last() =~= ids.take(i as int));
        assert(ids.take(i + 1).last() == config.packages@[i as int].id@);
        if same_text(config.packages[i].id.backend.name(), lowered.as_str()) {
            n += 1;
        }
        i += 1;
    }
    assert(ids.take(config.packages.len() as int) =~= ids);
    n
}

/// Looks a backend up among the known ones (lower-cased names): the
/// lower-cased name when known, else `TargetNotFound("backend:<name>")`.
pub fn known_backend(known_backends: &Vec<String>, backend_name: &str) -> (r: Result<String, DeclarchError>)
    ensures
        views(known_backends@).contains(lowercase(backend_name@)) ==> (r matches Ok(k) && k@ == lowercase(backend_name@)),
        !views(known_backends@).contains(lowercase(backend_name@)) ==> (r matches Err(DeclarchError::TargetNotFound(t))
            && t@ == "backend:"@ + backend_name@),
{
    let key = to_lowercase(backend_name);
    if among(known_backends, key.as_str()) {
        Ok(key)
    } else {
        Err(DeclarchError::TargetNotFound(concat2("backend:", backend_name)))
    }
}

} // verus!
