//! The `explain` command's decisions: what is asked, which declared
//! packages a query names, and what is shown of the sync plan.
use vstd::prelude::*;
use crate::commands::info_reason::matching::{filter_view, matching_ids};
use crate::commands::info_reason::query_helpers::{backend_view, query_parts};
use crate::model::{
    Backend, DeclarchError, MergedConfig, PackageId, declared_ids, id_views, labels, package_label,
};
use crate::text::{concat3, decimal, owned, push_str, same_text, sorted, usize_text};

verus! {

broadcast use vstd::seq_lib::group_to_multiset_ensures;

/// Options of the `explain` command.
#[derive(Clone, Debug)]
pub struct ExplainOptions {
    pub query: Option<String>,
    pub target: Option<String>,
    pub profile: Option<String>,
    pub host: Option<String>,
    pub modules: Vec<String>,
}

/// What an `explain` invocation is about.
#[derive(Clone, Debug)]
pub enum ExplainRequest {
    /// A `--target` form.
    Target(String),
    /// A package query.
    Query(String),
}

/// Checks that something was asked and picks it: the target when there is
/// one, else the query.
pub fn run(options: &ExplainOptions) -> (r: Result<ExplainRequest, DeclarchError>)
    ensures
        options.query is None && options.target is None ==> (r matches Err(DeclarchError::Other(m))
            && m@ == "Nothing to explain. Provide a QUERY or --target sync-plan"@),
        options.target matches Some(t) ==> (r matches Ok(ExplainRequest::Target(x)) && x@ == t@),
        options.target is None ==> (options.query matches Some(q) ==> (r matches Ok(ExplainRequest::Query(x)) && x@ == q@)),
{
    match &options.target {
        Some(t) => Ok(ExplainRequest::Target(t.clone())),
        None => match &options.query {
            Some(q) => Ok(ExplainRequest::Query(q.clone())),
            None => Err(DeclarchError::Other(owned("Nothing to explain. Provide a QUERY or --target sync-plan"))),
        },
    }
}

/// Checks an `explain --target`: only `sync-plan` is known.
pub fn explain_target(target: &str) -> (r: Result<(), DeclarchError>)
    ensures
        target@ == "sync-plan"@ ==> r is Ok,
        target@ != "sync-plan"@ ==> (r matches Err(DeclarchError::Other(m))
            && m@ == "Unsupported explain target '"@ + target@ + "'. Supported: sync-plan"@),
{
    if same_text(target, "sync-plan") {
        Ok(())
    } else {
        Err(DeclarchError::Other(concat3("Unsupported explain target '", target, "'. Supported: sync-plan")))
    }
}

/// Splits a query into an optional backend and a package name (see
/// `query_parts`).
pub fn parse_query(query: &str) -> (r: (Option<Backend>, String))
    ensures
        (backend_view(r.0), r.1@) == query_parts(query@),
{
    crate::commands::info_reason::query_helpers::parse_query(query)
}

/// The declared packages that answer a query, ordered by `backend:name`
/// (see `matching_ids`).
pub fn find_matches(config: &MergedConfig, backend_filter: Option<&Backend>, needle: &str, exact: bool) -> (r: Vec<PackageId>)
    ensures
        sorted(labels(id_views(r@))),
        id_views(r@).to_multiset() == matching_ids(
            declared_ids(config.packages@),
            filter_view(backend_filter),
            needle@,
            exact,
        ).to_multiset(),
        declared_ids(config.packages@).no_duplicates() ==> id_views(r@).no_duplicates(),
        backend_filter matches Some(b) ==> forall|j: int| 0 <= j < r@.len() ==> (#[trigger] r@[j]).backend@ == b@,
{
    crate::commands::info_reason::matching::find_matches(config, backend_filter, needle, exact)
}

/// The packages a query names: those whose name equals the needle up to
/// ASCII case, or if there are none those whose name holds it up to case;
/// an error when there are none either.
pub open spec fn query_answer(ids: Seq<(Seq<char>, Seq<char>)>, query: Seq<char>) -> Option<Seq<(Seq<char>, Seq<char>)>> {
    let (filter, needle) = query_parts(query);
    let exact = matching_ids(ids, filter, needle, true);
    let fuzzy = matching_ids(ids, filter, needle, false);
    if exact.len() > 0 {
        Some(exact)
    } else if fuzzy.len() > 0 {
        Some(fuzzy)
    } else {
        None
    }
}

/// The declared packages a query names, ordered by `backend:name` (see
/// `query_answer`); `TargetNotFound` with the query when none.
pub fn query_matches(config: &MergedConfig, query: &str) -> (r: Result<Vec<PackageId>, DeclarchError>)
    ensures
        match query_answer(declared_ids(config.packages@), query@) {
            Some(ids) => r matches Ok(v) && sorted(labels(id_views(v@)))
                && id_views(v@).to_multiset() == ids.to_multiset(),
            None => r matches Err(DeclarchError::TargetNotFound(t)) && t@ == query@,
        },
{
    let (backend_filter, needle) = parse_query(query);
    let bf = backend_filter.as_ref();
    let ghost fv = filter_view(bf);
    assert(fv == backend_view(backend_filter));
    assert(query_parts(query@) == (fv, needle@));
    let ghost ids = declared_ids(config.packages@);
    let exact = find_matches(config, bf, needle.as_str(), true);
    assert(id_views(exact@).to_multiset().len() == matching_ids(ids, fv, needle@, true).len());
    if exact.len() > 0 {
        assert(matching_ids(ids, fv, needle@, true).len() > 0);
        return Ok(exact);
    }
    assert(id_views(exact@).len() == 0);
    let fuzzy = find_matches(config, bf, needle.as_str(), false);
    assert(id_views(fuzzy@).to_multiset().len() == matching_ids(ids, fv, needle@, false).len());
    if fuzzy.len() > 0 {
        assert(matching_ids(ids, fv, needle@, false).len() > 0);
        return Ok(fuzzy);
    }
    assert(id_views(fuzzy@).len() == 0);
    Err(DeclarchError::TargetNotFound(owned(query)))
}

/// Up to 15 lines `  <sign> backend:name`, then `  ... and N more` when
/// there are more.
pub open spec fn preview_of(ids: Seq<(Seq<char>, Seq<char>)>, sign: Seq<char>) -> Seq<Seq<char>> {
    let shown = if ids.len() > 15 { ids.take(15) } else { ids };
    let lines = shown.map_values(|id: (Seq<char>, Seq<char>)| "  "@ + sign + " "@ + package_label(id));
    if ids.len() > 15 {
        lines.push("  ... and "@ + decimal((ids.len() - 15) as nat) + " more"@)
    } else {
        lines
    }
}

/// The lines that list planned changes, at most 15 packages shown.
pub fn preview_lines(ids: &Vec<PackageId>, sign: &str) -> (r: Vec<String>)
    ensures
        crate::text::views(r@) == preview_of(id_views(ids@), sign@),
{
    let ghost iv = id_views(ids@);
    let n = if ids.len() > 15 { 15 } else { ids.len() };
    let ghost shown = if iv.len() > 15 { iv.take(15) } else { iv };
    let mut lines: Vec<String> = Vec::new();
    let mut i: usize = 0;
    while i < n
        invariant
            i <= n,
            n <= ids@.len(),
            n == shown.len(),
            iv == id_views(ids@),
            shown == (if iv.len() > 15 { iv.take(15) } else { iv }),
            crate::text::views(lines@) == shown.take(i as int).map_values(|id: (Seq<char>, Seq<char>)| "  "@ + sign@ + " "@ + package_label(id)),
        decreases n - i,
    {
        let label = ids[i].to_string();
        let mut v = crate::text::chars_of("  ");
        push_str(&mut v, sign);
        push_str(&mut v, " ");
        push_str(&mut v, label.as_str());
        let ghost before = crate::text::views(lines@);
        lines.push(crate::text::string_of(v.as_slice()));
        assert(shown[i as int] == ids@[i as int]@);
        let ghost f = |id: (Seq<char>, Seq<char>)| "  "@ + sign@ + " "@ + package_label(id);
        assert(v@ == f(shown[i as int]));
        assert(crate::text::views(lines@) =~= before.push(f(shown[i as int])));
        assert(shown.take(i + 1).map_values(f) =~= shown.take(i as int).map_values(f).push(f(shown[i as int])));
        assert(crate::text::views(lines@) =~= shown.take(i + 1).map_values(|id: (Seq<char>, Seq<char>)| "  "@ + sign@ + " "@ + package_label(id)));
        i += 1;
    }
    assert(shown.take(n as int) =~= shown);
    if ids.len() > 15 {
        let more = usize_text(ids.len() - 15);
        let ghost before = crate::text::views(lines@);
        lines.push(concat3("  ... and ", more.as_str(), " more"));
        assert(crate::text::views(lines@) =~= before.push("  ... and "@ + decimal((iv.len() - 15) as nat) + " more"@));
    }
    lines
}

} // verus!
