//! Finding the declared packages a query names.
use vstd::prelude::*;
use crate::model::{
    Backend, MergedConfig, PackageId, declared_ids, id_views, labels, sort_ids_by_label,
};
use crate::outside::{lowercase, to_lowercase};
use crate::text::{
    chars_of, contains_chars, eq_chars_ignore_ascii_case, eq_ignore_ascii_case, has_sub, sorted,
};

verus! {

/// Whether identity `id` answers a query: of the filtered backend if there is
/// one, and named `needle` up to ASCII case (exact) or holding it up to case.
pub open spec fn id_matches(
    id: (Seq<char>, Seq<char>),
    filter: Option<Seq<char>>,
    needle: Seq<char>,
    exact: bool,
) -> bool {
    &&& (filter matches Some(b) ==> id.0 == b)
    &&& if exact {
        eq_ignore_ascii_case(id.1, needle)
    } else {
        has_sub(lowercase(id.1), lowercase(needle))
    }
}

/// The identities, in order, that answer the query.
pub open spec fn matching_ids(
    ids: Seq<(Seq<char>, Seq<char>)>,
    filter: Option<Seq<char>>,
    needle: Seq<char>,
    exact: bool,
) -> Seq<(Seq<char>, Seq<char>)>
    decreases ids.len(),
{
    if ids.len() == 0 {
        Seq::empty()
    } else {
        let rest = matching_ids(ids.drop_last(), filter, needle, exact);
        if id_matches(ids.last(), filter, needle, exact) {
            rest.push(ids.last())
        } else {
            rest
        }
    }
}

/// The view of an optional backend reference.
pub open spec fn filter_view(b: Option<&Backend>) -> Option<Seq<char>> {
    match b {
        Some(x) => Some(x@),
        None => None,
    }
}

/// The declared packages that answer a query, ordered by `backend:name`.
pub fn find_matches(
    config: &MergedConfig,
    backend_filter: Option<&Backend>,
    needle: &str,
    exact: bool,
) -> (r: Vec<PackageId>)
    ensures
        sorted(labels(id_views(r@))),
        id_views(r@).to_multiset() == matching_ids(
            declared_ids(config.packages@),
            filter_view(backend_filter),
            needle@,
            exact,
        ).to_multiset(),
        declared_ids(config.packages@).no_duplicates() ==> id_views(r@).no_duplicates(),
        backend_filter matches Some(b) ==> forall|j: int| 0 <= j < r@.len() ==> (#[trigger] r@[j]).backend@ == b@,
{
    let needle_chars = chars_of(needle);
    let needle_lower = chars_of(to_lowercase(needle).as_str());
    let ghost ids = declared_ids(config.packages@);
    let ghost fv = filter_view(backend_filter);
    let mut found: Vec<PackageId> = Vec::new();
    let mut i: usize = 0;
    while i < config.packages.len()
        invariant
            i <= config.packages.len(),
            ids == declared_ids(config.packages@),
            fv == filter_view(backend_filter),
            needle_chars@ == needle@,
            needle_lower@ == lowercase(needle@),
            id_views(found@) == matching_ids(ids.take(i as int), fv, needle@, exact),
        decreases config.packages.len() - i,
    {
        let ghost pre = ids.take(i as int);
        assert(ids.take(i + 1).drop_last() =~= pre);
        assert(ids.take(i + 1).last() == config.packages@[i as int].id@);
        let id = &config.packages[i].id;
        let backend_ok = match backend_filter {
            Some(b) => id.backend.same_as(b),
            None => true,
        };
        let name_ok = if exact {
            let n = chars_of(id.name.as_str());
            eq_chars_ignore_ascii_case(n.as_slice(), needle_chars.as_slice())
        } else {
            let nl = chars_of(to_lowercase(id.name.as_str()).as_str());
            contains_chars(nl.as_slice(), needle_lower.as_slice())
        };
        if backend_ok && name_ok {
            let ghost before = id_views(found@);
            found.push(id.duplicate());
            assert(id_views(found@) =~= before.push(id@));
        }
        i += 1;
    }
    assert(ids.take(config.packages.len() as int) =~= ids);
    let r = sort_ids_by_label(found);
    proof {
        if backend_filter is Some {
            broadcast use vstd::seq_lib::group_to_multiset_ensures;
            let b = backend_filter->0@;
            law_matches_keep_to_backend(ids, b, needle@, exact);
            let m = matching_ids(ids, fv, needle@, exact);
            assert forall|j: int| 0 <= j < r@.len() implies (#[trigger] r@[j]).backend@ == b by {
                assert(id_views(r@)[j] == r@[j]@);
                assert(id_views(r@).contains(r@[j]@));
                assert(id_views(r@).to_multiset().count(r@[j]@) > 0);
                assert(m.to_multiset().count(r@[j]@) > 0);
                assert(m.contains(r@[j]@));
            }
        }
        if ids.no_duplicates() {
            lemma_matching_ids_distinct(ids, fv, needle@, exact);
            let m = matching_ids(ids, fv, needle@, exact);
            m.lemma_multiset_has_no_duplicates();
            id_views(r@).lemma_multiset_has_no_duplicates_conv();
        }
    }
    r
}

/// The answers to a query are some of the identities, each as often as there.
proof fn lemma_matching_ids_distinct(
    ids: Seq<(Seq<char>, Seq<char>)>,
    filter: Option<Seq<char>>,
    needle: Seq<char>,
    exact: bool,
)
    requires
        ids.no_duplicates(),
    ensures
        matching_ids(ids, filter, needle, exact).no_duplicates(),
        forall|x: (Seq<char>, Seq<char>)| matching_ids(ids, filter, needle, exact).contains(x) ==> ids.contains(x),
    decreases ids.len(),
{
    if ids.len() > 0 {
        let d = ids.drop_last();
        assert(d.no_duplicates()) by {
            assert forall|a: int, b: int| 0 <= a < d.len() && 0 <= b < d.len() && a != b implies d[a] != d[b] by {
                assert(d[a] == ids[a] && d[b] == ids[b]);
            }
        }
        lemma_matching_ids_distinct(d, filter, needle, exact);
        let rest = matching_ids(d, filter, needle, exact);
        assert(!d.contains(ids.last())) by {
            if d.contains(ids.last()) {
                let k = choose|k: int| 0 <= k < d.len() && d[k] == ids.last();
                assert(ids[k] == ids[ids.len() - 1]);
            }
        }
        let m = matching_ids(ids, filter, needle, exact);
        if id_matches(ids.last(), filter, needle, exact) {
            assert(m == rest.push(ids.last()));
        } else {
            assert(m == rest);
        }
        assert forall|x: (Seq<char>, Seq<char>)| m.contains(x) implies ids.contains(x) by {
            let k = choose|k: int| 0 <= k < m.len() && m[k] == x;
            if k < rest.len() {
                assert(rest[k] == x);
                assert(rest.contains(x));
                assert(d.contains(x));
                let j = choose|j: int| 0 <= j < d.len() && d[j] == x;
                assert(d[j] == ids[j]);
                assert(ids[j] == x);
            } else {
                assert(ids[ids.len() - 1] == x);
            }
        }
        if id_matches(ids.last(), filter, needle, exact) {
            assert forall|a: int, b: int| 0 <= a < m.len() && 0 <= b < m.len() && a != b implies m[a] != m[b] by {
                if a < rest.len() && b < rest.len() {
                    assert(m[a] == rest[a] && m[b] == rest[b]);
                } else if a < rest.len() {
                    assert(rest.contains(m[a]));
                } else {
                    assert(rest.contains(m[b]));
                }
            }
        }
    }
}

/// Law: a query for a backend answers only with identities of that backend
/// (in the exact pass and in the substring pass alike), and only with
/// declared identities.
pub proof fn law_matches_keep_to_backend(
    ids: Seq<(Seq<char>, Seq<char>)>,
    backend: Seq<char>,
    needle: Seq<char>,
    exact: bool,
)
    ensures
        forall|x: (Seq<char>, Seq<char>)| #[trigger] matching_ids(ids, Some(backend), needle, exact).contains(x)
            ==> x.0 == backend && ids.contains(x),
    decreases ids.len(),
{
    if ids.len() > 0 {
        let d = ids.drop_last();
        law_matches_keep_to_backend(d, backend, needle, exact);
        let rest = matching_ids(d, Some(backend), needle, exact);
        let m = matching_ids(ids, Some(backend), needle, exact);
        if id_matches(ids.last(), Some(backend), needle, exact) {
            assert(m == rest.push(ids.last()));
        } else {
            assert(m == rest);
        }
        assert forall|x: (Seq<char>, Seq<char>)| m.contains(x) implies x.0 == backend && ids.contains(x) by {
            let k = choose|k: int| 0 <= k < m.len() && m[k] == x;
            if k < rest.len() {
                assert(rest[k] == x);
                assert(rest.contains(x));
                let j = choose|j: int| 0 <= j < d.len() && d[j] == x;
                assert(ids[j] == x);
            } else {
                assert(ids[ids.len() - 1] == x);
            }
        }
    }
}

} // verus!
