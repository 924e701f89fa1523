//! Reading an `info` query.
use vstd::prelude::*;
use crate::model::{Backend, package_label};
use crate::outside::lowercase;
use crate::text::{
    chars_of, ends_with_chars, has_char, split_once, split_once_chars, string_of, trim,
    trim_chars,
};

verus! {

/// The backend and name a query names: `backend:name` when both sides are
/// non-blank (the backend lower-cased), else no backend and the whole query;
/// both sides trimmed.
pub open spec fn query_parts(q: Seq<char>) -> (Option<Seq<char>>, Seq<char>) {
    match split_once(q, ':') {
        Some(p) => if trim(p.0).len() > 0 && trim(p.1).len() > 0 {
            (Some(lowercase(trim(p.0))), trim(p.1))
        } else {
            (None, trim(q))
        },
        None => (None, trim(q)),
    }
}

/// The view of an optional backend.
pub open spec fn backend_view(b: Option<Backend>) -> Option<Seq<char>> {
    match b {
        Some(x) => Some(x@),
        None => None,
    }
}

/// Splits a query into an optional backend and a package name.
pub fn parse_query(query: &str) -> (r: (Option<Backend>, String))
    ensures
        (backend_view(r.0), r.1@) == query_parts(query@),
{
    let q = chars_of(query);
    if let Some((b, n)) = split_once_chars(q.as_slice(), ':') {
        let bt = trim_chars(b.as_slice());
        let nt = trim_chars(n.as_slice());
        if bt.len() > 0 && nt.len() > 0 {
            let bs = string_of(bt.as_slice());
            return (Some(Backend::from(bs.as_str())), string_of(nt.as_slice()));
        }
    }
    let t = trim_chars(q.as_slice());
    (None, string_of(t.as_slice()))
}

/// A query reads as a module when it holds a `/` or ends in `.kdl`.
pub open spec fn module_shaped(q: Seq<char>) -> bool {
    q.contains('/') || ".kdl"@.is_suffix_of(q)
}

/// Whether a query reads as a module path.
pub fn looks_like_module_query(query: &str) -> (r: bool)
    ensures
        r == module_shaped(query@),
{
    let q = chars_of(query);
    let ext = chars_of(".kdl");
    has_char(q.as_slice(), '/') || ends_with_chars(q.as_slice(), ext.as_slice())
}

/// Law: a package's printed label `backend:name`, given as a query, names
/// that package again (its backend lower-cased), for a backend without `:`
/// and both parts non-blank and without surrounding whitespace.
pub proof fn law_label_reads_back(backend: Seq<char>, name: Seq<char>)
    requires
        !backend.contains(':'),
        backend.len() > 0 && trim(backend) == backend,
        name.len() > 0 && trim(name) == name,
    ensures
        query_parts(package_label((backend, name))) == (Some(lowercase(backend)), name),
{
    let q = package_label((backend, name));
    assert(q =~= backend + ":"@ + name);
    assert(q[backend.len() as int] == ':') by {
        reveal_strlit(":");
    }
    q.index_of_first_ensures(':');
    assert(q.contains(':'));
    let i = q.index_of_first(':')->0;
    if i < backend.len() {
        assert(backend[i] == ':');
    }
    assert(i == backend.len());
    assert(q.take(i) =~= backend);
    assert(q.skip(i + 1) =~= name) by {
        reveal_strlit(":");
    }
}

} // verus!
