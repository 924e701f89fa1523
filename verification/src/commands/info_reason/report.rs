//! What `info` shows of one declared package, and of one module.
use vstd::prelude::*;
use crate::model::{MergedConfig, PackageId, PackageMap, DeclaredPackage, declared_ids, key_set, lemma_lookup_found, lookup, package_label};
use crate::sorting::{lemma_sorted_set_of, sort_strings, sorted_set, sorted_unique};
use crate::text::{same_text, sorted, strictly_sorted, views};

verus! {

/// What is shown of one declared package.
#[derive(Clone, Debug)]
pub struct PackageReport {
    /// `backend:name`.
    pub label: String,
    /// Whether the state records it (under its label).
    pub installed: bool,
    /// The name it was installed as, when recorded.
    pub installed_as: Option<String>,
    /// Its recorded version.
    pub version: Option<String>,
    /// The files that declare it, sorted, each once.
    pub sources: Vec<String>,
    /// The backends that declare a package of the same name, sorted, each once.
    pub same_name_backends: Vec<String>,
}

/// The first declaration of an identity, if any.
pub open spec fn first_declaration(ps: Seq<DeclaredPackage>, id: (Seq<char>, Seq<char>)) -> Option<DeclaredPackage>
    decreases ps.len(),
{
    if ps.len() == 0 {
        None
    } else if ps[0].id@ == id {
        Some(ps[0])
    } else {
        first_declaration(ps.drop_first(), id)
    }
}

/// The backends declaring a package named `name`.
pub open spec fn same_name_backends_of(ids: Seq<(Seq<char>, Seq<char>)>, name: Seq<char>) -> Set<Seq<char>> {
    Set::new(|b: Seq<char>| ids.contains((b, name)))
}

/// The view of an optional owned string.
pub open spec fn opt_text(o: Option<String>) -> Option<Seq<char>> {
    match o {
        Some(s) => Some(s@),
        None => None,
    }
}

/// The declaration of a package, if any.
fn find_declaration<'a>(config: &'a MergedConfig, pkg: &PackageId) -> (r: Option<&'a DeclaredPackage>)
    ensures
        match first_declaration(config.packages@, pkg@) {
            Some(d) => r == Some(&d),
            None => r is None,
        },
{
    let mut i: usize = 0;
    assert(config.packages@.skip(0) =~= config.packages@);
    while i < config.packages.len()
        invariant
            i <= config.packages@.len(),
            first_declaration(config.packages@, pkg@) == first_declaration(config.packages@.skip(i as int), pkg@),
        decreases config.packages.len() - i,
    {
        if config.packages[i].id.same_as(pkg) {
            return Some(&config.packages[i]);
        }
        assert(config.packages@.skip(i as int).drop_first() =~= config.packages@.skip(i + 1));
        i += 1;
    }
    None
}

/// Describes one declared package: whether the state records it under its
/// label (with the name and version recorded), the files declaring it, and
/// the backends declaring a package of the same name.
pub fn package_report(config: &MergedConfig, state: &PackageMap, pkg: &PackageId) -> (r: PackageReport)
    ensures
        r.label@ == package_label(pkg@),
        r.installed == key_set(state@).contains(package_label(pkg@)),
        match lookup(state@, package_label(pkg@)) {
            Some(rec) => r.installed && opt_text(r.installed_as) == opt_text(rec.actual_package_name)
                && opt_text(r.version) == opt_text(rec.version),
            None => !r.installed && r.installed_as is None && r.version is None,
        },
        strictly_sorted(views(r.sources@)),
        views(r.sources@).to_set() == match first_declaration(config.packages@, pkg@) {
            Some(d) => views(d.sources@).to_set(),
            None => Set::empty(),
        },
        strictly_sorted(views(r.same_name_backends@)),
        views(r.same_name_backends@).to_set() == same_name_backends_of(declared_ids(config.packages@), pkg@.1),
{
    let label = pkg.to_string();
    let found = state.get(label.as_str());
    let (installed, installed_as, version) = match found {
        Some(rec) => {
            let installed_as = match &rec.actual_package_name {
                Some(a) => Some(a.clone()),
                None => None,
            };
            let version = match &rec.version {
                Some(v) => Some(v.clone()),
                None => None,
            };
            proof {
                lemma_lookup_found(state@, label@);
            }
            (true, installed_as, version)
        },
        None => (false, None, None),
    };
    let sources = match find_declaration(config, pkg) {
        Some(d) => sorted_unique(&d.sources),
        None => Vec::new(),
    };
    proof {
        if first_declaration(config.packages@, pkg@) is None {
            assert(views(sources@) =~= Seq::<Seq<char>>::empty());
            assert(views(sources@).to_set() =~= Set::<Seq<char>>::empty());
        }
    }
    let ghost ids = declared_ids(config.packages@);
    let mut backends: Vec<String> = Vec::new();
    let mut i: usize = 0;
    while i < config.packages.len()
        invariant
            i <= config.packages@.len(),
            ids == declared_ids(config.packages@),
            views(backends@).to_set() == Set::new(|b: Seq<char>| ids.take(i as int).contains((b, pkg@.1))),
        decreases config.packages.len() - i,
    {
        let id = &config.packages[i].id;
        let ghost before = views(backends@);
        let ghost pre = ids.take(i as int);
        let ghost post = ids.take(i + 1);
        assert(post =~= pre.push(id@));
        if same_text(id.name.as_str(), pkg.name.as_str()) {
            backends.push(id.backend.to_string());
            proof {
                assert(views(backends@) =~= before.push(id.backend@));
                before.lemma_push_to_set_commute(id.backend@);
            }
        }
        assert(views(backends@).to_set() =~= Set::new(|b: Seq<char>| post.contains((b, pkg@.1)))) by {
            assert forall|b: Seq<char>| Set::new(|b: Seq<char>| post.contains((b, pkg@.1))).contains(b) implies views(backends@).to_set().contains(b) by {
                let k = choose|k: int| 0 <= k < post.len() && post[k] == (b, pkg@.1);
                if k < i {
                    assert(pre[k] == post[k]);
                    assert(Set::new(|b: Seq<char>| pre.contains((b, pkg@.1))).contains(b));
                }
            }
            assert forall|b: Seq<char>| views(backends@).to_set().contains(b) implies Set::new(|b: Seq<char>| post.contains((b, pkg@.1))).contains(b) by {
                if before.to_set().contains(b) {
                    let k = choose|k: int| 0 <= k < pre.len() && pre[k] == (b, pkg@.1);
                    assert(post[k] == pre[k]);
                } else {
                    assert(post[i as int] == (b, pkg@.1));
                }
            }
        }
        i += 1;
    }
    assert(ids.take(config.packages.len() as int) =~= ids);
    assert(Set::new(|b: Seq<char>| ids.take(config.packages.len() as int).contains((b, pkg@.1))) =~= same_name_backends_of(ids, pkg@.1));
    let same = sorted_unique(&backends);
    PackageReport { label, installed, installed_as, version, sources, same_name_backends: same }
}

/// What is shown of a module: its packages grouped by backend, and how many
/// declarations of the merged configuration come from it.
#[derive(Clone, Debug)]
pub struct ModuleSummary {
    /// Backends sorted, each once; names of each backend sorted.
    pub groups: Vec<(String, Vec<String>)>,
    /// Declarations of the merged configuration whose source is the module.
    pub referenced: usize,
}

/// The names declared for backend `b`.
pub open spec fn names_for(ids: Seq<(Seq<char>, Seq<char>)>, b: Seq<char>) -> Seq<Seq<char>>
    decreases ids.len(),
{
    if ids.len() == 0 {
        Seq::empty()
    } else {
        let rest = names_for(ids.drop_last(), b);
        if ids.last().0 == b {
            rest.push(ids.last().1)
        } else {
            rest
        }
    }
}

/// How many sources, over all declarations, are `path`.
pub open spec fn source_count(ps: Seq<DeclaredPackage>, path: Seq<char>) -> nat
    decreases ps.len(),
{
    if ps.len() == 0 {
        0
    } else {
        source_count(ps.drop_last(), path) + views(ps.last().sources@).filter(|s: Seq<char>| s == path).len()
    }
}

/// Summarises a module: its packages by backend (backends sorted, names
/// sorted), and how many declarations of the merged configuration it is
/// the source of (the count stops at the largest `usize`).
pub fn module_summary(module_config: &MergedConfig, root_config: &MergedConfig, module_file: &str) -> (r: ModuleSummary)
    ensures
        r.groups@.map_values(|g: (String, Vec<String>)| g.0@) == sorted_set(declared_ids(module_config.packages@).map_values(|id: (Seq<char>, Seq<char>)| id.0).to_set()),
        forall|j: int| 0 <= j < r.groups@.len() ==> sorted(views(#[trigger] r.groups@[j].1@))
            && views(r.groups@[j].1@).to_multiset() == names_for(declared_ids(module_config.packages@), r.groups@[j].0@).to_multiset(),
        r.referenced == (if source_count(root_config.packages@, module_file@) <= usize::MAX {
            source_count(root_config.packages@, module_file@)
        } else {
            usize::MAX as nat
        }),
{
    let ghost ids = declared_ids(module_config.packages@);
    let mut names: Vec<String> = Vec::new();
    let mut i: usize = 0;
    while i < module_config.packages.len()
        invariant
            i <= module_config.packages@.len(),
            ids == declared_ids(module_config.packages@),
            views(names@) == ids.map_values(|id: (Seq<char>, Seq<char>)| id.0).take(i as int),
        decreases module_config.packages.len() - i,
    {
        let ghost before = views(names@);
        names.push(module_config.packages[i].id.backend.to_string());
        assert(views(names@) =~= before.push(ids[i as int].0));
        assert(ids.map_values(|id: (Seq<char>, Seq<char>)| id.0).take(i + 1) =~= before.push(ids[i as int].0));
        i += 1;
    }
    assert(ids.map_values(|id: (Seq<char>, Seq<char>)| id.0).take(module_config.packages.len() as int) =~= ids.map_values(|id: (Seq<char>, Seq<char>)| id.0));
    let backends = sorted_unique(&names);
    proof {
        lemma_sorted_set_of(views(backends@));
    }
    let mut groups: Vec<(String, Vec<String>)> = Vec::new();
    let mut k: usize = 0;
    while k < backends.len()
        invariant
            k <= backends@.len(),
            ids == declared_ids(module_config.packages@),
            groups@.map_values(|g: (String, Vec<String>)| g.0@) == views(backends@).take(k as int),
            forall|j: int| 0 <= j < groups@.len() ==> sorted(views(#[trigger] groups@[j].1@))
                && views(groups@[j].1@).to_multiset() == names_for(ids, groups@[j].0@).to_multiset(),
        decreases backends.len() - k,
    {
        let b = backends[k].as_str();
        let mut ns: Vec<String> = Vec::new();
        let mut q: usize = 0;
        while q < module_config.packages.len()
            invariant
                q <= module_config.packages@.len(),
                ids == declared_ids(module_config.packages@),
                views(ns@) == names_for(ids.take(q as int), b@),
            decreases module_config.packages.len() - q,
        {
            assert(ids.take(q + 1).drop_last() =~= ids.take(q as int));
            assert(ids.take(q + 1).last() == module_config.packages@[q as int].id@);
            let id = &module_config.packages[q].id;
            if same_text(id.backend.name(), b) {
                let ghost before = views(ns@);
                ns.push(id.name.clone());
                assert(views(ns@) =~= before.push(id.name@));
            }
            q += 1;
        }
        assert(ids.take(module_config.packages.len() as int) =~= ids);
        let sorted_ns = sort_strings(ns);
        let ghost before = groups@.map_values(|g: (String, Vec<String>)| g.0@);
        groups.push((backends[k].clone(), sorted_ns));
        assert(groups@.map_values(|g: (String, Vec<String>)| g.0@) =~= before.push(backends@[k as int]@));
        assert(views(backends@).take(k + 1) =~= views(backends@).take(k as int).push(backends@[k as int]@));
        k += 1;
    }
    assert(views(backends@).take(backends.len() as int) =~= views(backends@));
    let mut referenced: usize = 0;
    let mut p: usize = 0;
    while p < root_config.packages.len()
        invariant
            p <= root_config.packages@.len(),
            referenced == (if source_count(root_config.packages@.take(p as int), module_file@) <= usize::MAX {
                source_count(root_config.packages@.take(p as int), module_file@)
            } else {
                usize::MAX as nat
            }),
        decreases root_config.packages.len() - p,
    {
        assert(root_config.packages@.take(p + 1).drop_last() =~= root_config.packages@.take(p as int));
        let srcs = &root_config.packages[p].sources;
        let ghost sv = views(srcs@);
        let mut c: usize = 0;
        let mut s: usize = 0;
        while s < srcs.len()
            invariant
                s <= srcs@.len(),
                sv == views(srcs@),
                c == sv.take(s as int).filter(|x: Seq<char>| x == module_file@).len(),
                c <= s,
            decreases srcs.len() - s,
        {
            proof {
                sv.take(s as int).lemma_filter_push(sv[s as int], |x: Seq<char>| x == module_file@);
                assert(sv.take(s + 1) =~= sv.take(s as int).push(sv[s as int]));
            }
            if same_text(srcs[s].as_str(), module_file) {
                c += 1;
            }
            s += 1;
        }
        assert(sv.take(srcs.len() as int) =~= sv);
        if referenced > usize::MAX - c {
            referenced = usize::MAX;
        } else {
            referenced = referenced + c;
        }
        p += 1;
    }
    assert(root_config.packages@.take(root_config.packages.len() as int) =~= root_config.packages@);
    ModuleSummary { groups, referenced }
}

} // verus!
