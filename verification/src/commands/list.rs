//! The `list` command's decisions: which recorded packages are shown, how
//! they are grouped, and which installed packages nothing declares.
use vstd::prelude::*;
use crate::model::{MergedConfig, PackageMap, PackageState, declared_ids};
use crate::outside::{lowercase, to_lowercase};
use crate::sorting::{lemma_sorted_set_exists, lemma_sorted_set_of, sorted_set, sorted_unique};
use crate::text::{owned, same_text, views};

verus! {

/// Options of the `list` command.
#[derive(Clone, Debug)]
pub struct ListOptions {
    pub backend: Option<String>,
    pub orphans: bool,
    pub synced: bool,
    pub unmanaged: bool,
    pub format: Option<String>,
    pub output_version: Option<String>,
}

/// A package as `list` shows it: backend, name and version if known.
#[derive(Clone, Debug)]
pub struct ListedPackage {
    pub backend: String,
    pub name: String,
    pub version: Option<String>,
}

/// The view of an optional owned string.
pub open spec fn opt_s(o: Option<String>) -> Option<Seq<char>> {
    match o {
        Some(s) => Some(s@),
        None => None,
    }
}

impl View for ListedPackage {
    type V = (Seq<char>, Seq<char>, Option<Seq<char>>);

    open spec fn view(&self) -> (Seq<char>, Seq<char>, Option<Seq<char>>) {
        (self.backend@, self.name@, opt_s(self.version))
    }
}

/// The views of listed packages.
pub open spec fn row_views(v: Seq<ListedPackage>) -> Seq<(Seq<char>, Seq<char>, Option<Seq<char>>)> {
    v.map_values(|p: ListedPackage| p@)
}

/// A state record as a row: backend, configured name, version.
pub open spec fn state_row(s: PackageState) -> (Seq<char>, Seq<char>, Option<Seq<char>>) {
    (s.backend@, s.config_name@, opt_s(s.version))
}

/// Whether a row is shown: of the requested backend (compared lower-cased),
/// and, when a configuration is there, undeclared for `--orphans` and
/// declared for `--synced`.
pub open spec fn shown(
    row: (Seq<char>, Seq<char>, Option<Seq<char>>),
    options: ListOptions,
    ids: Option<Seq<(Seq<char>, Seq<char>)>>,
) -> bool {
    &&& (options.backend matches Some(b) ==> row.0 == lowercase(b@))
    &&& (options.orphans && ids is Some ==> !ids->0.contains((row.0, row.1)))
    &&& (options.synced && ids is Some ==> ids->0.contains((row.0, row.1)))
}

/// The rows of the state's records, in order, that are shown.
pub open spec fn shown_rows(
    entries: Seq<(String, PackageState)>,
    options: ListOptions,
    ids: Option<Seq<(Seq<char>, Seq<char>)>>,
) -> Seq<(Seq<char>, Seq<char>, Option<Seq<char>>)>
    decreases entries.len(),
{
    if entries.len() == 0 {
        Seq::empty()
    } else {
        let rest = shown_rows(entries.drop_last(), options, ids);
        let row = state_row(entries.last().1);
        if shown(row, options, ids) {
            rest.push(row)
        } else {
            rest
        }
    }
}

/// Whether the identities hold `(backend, name)`.
pub(crate) fn declares(config: &MergedConfig, backend: &str, name: &str) -> (r: bool)
    ensures
        r == declared_ids(config.packages@).contains((backend@, name@)),
{
    let ghost ids = declared_ids(config.packages@);
    let mut i: usize = 0;
    while i < config.packages.len()
        invariant
            i <= config.packages@.len(),
            ids == declared_ids(config.packages@),
            forall|j: int| 0 <= j < i ==> ids[j] != (backend@, name@),
        decreases config.packages.len() - i,
    {
        let id = &config.packages[i].id;
        if same_text(id.backend.name(), backend) && same_text(id.name.as_str(), name) {
            assert(ids[i as int] == (backend@, name@));
            return true;
        }
        i += 1;
    }
    false
}

/// The declared identities of an optional configuration.
pub open spec fn ids_of(config: Option<&MergedConfig>) -> Option<Seq<(Seq<char>, Seq<char>)>> {
    match config {
        Some(c) => Some(declared_ids(c.packages@)),
        None => None,
    }
}

/// The recorded packages `list` shows (see `shown`), in state order; the
/// configuration is the one found, if any.
pub fn run(options: &ListOptions, state: &PackageMap, config: Option<&MergedConfig>) -> (r: Vec<ListedPackage>)
    ensures
        row_views(r@) == shown_rows(state@, *options, ids_of(config)),
{
    let entries = state.entries();
    let ghost ids = ids_of(config);
    let filter = match &options.backend {
        Some(b) => Some(to_lowercase(b.as_str())),
        None => None,
    };
    let mut rows: Vec<ListedPackage> = Vec::new();
    let mut i: usize = 0;
    while i < entries.len()
        invariant
            i <= entries@.len(),
            entries@ == state@,
            ids == ids_of(config),
            match options.backend {
                Some(b) => filter matches Some(f) && f@ == lowercase(b@),
                None => filter is None,
            },
            row_views(rows@) == shown_rows(entries@.take(i as int), *options, ids),
        decreases entries.len() - i,
    {
        assert(entries@.take(i + 1).drop_last() =~= entries@.take(i as int));
        assert(entries@.take(i + 1).last() == entries@[i as int]);
        let rec = &entries[i].1;
        let backend_ok = match &filter {
            Some(f) => same_text(rec.backend.name(), f.as_str()),
            None => true,
        };
        let declared = match config {
            Some(c) => declares(c, rec.backend.name(), rec.config_name.as_str()),
            None => false,
        };
        let orphan_ok = !options.orphans || config.is_none() || !declared;
        let synced_ok = !options.synced || config.is_none() || declared;
        if backend_ok && orphan_ok && synced_ok {
            let row = ListedPackage {
                backend: rec.backend.to_string(),
                name: rec.config_name.clone(),
                version: match &rec.version {
                    Some(v) => Some(v.clone()),
                    None => None,
                },
            };
            let ghost before = row_views(rows@);
            rows.push(row);
            assert(row_views(rows@) =~= before.push(state_row(*rec)));
        }
        i += 1;
    }
    assert(entries@.take(entries.len() as int) =~= entries@);
    rows
}

/// A backend and its packages, as `list` shows them.
#[derive(Clone, Debug)]
pub struct BackendGroup {
    pub backend: String,
    /// Name and version (`-` when unknown) of each package.
    pub packages: Vec<(String, String)>,
}

/// How a row is shown inside its group: name and version or `-`.
pub open spec fn group_line(row: (Seq<char>, Seq<char>, Option<Seq<char>>)) -> (Seq<char>, Seq<char>) {
    (row.1, match row.2 {
        Some(v) => v,
        None => "-"@,
    })
}

/// The lines of the rows of backend `b`, in order.
pub open spec fn group_lines(rows: Seq<(Seq<char>, Seq<char>, Option<Seq<char>>)>, b: Seq<char>) -> Seq<(Seq<char>, Seq<char>)>
    decreases rows.len(),
{
    if rows.len() == 0 {
        Seq::empty()
    } else {
        let rest = group_lines(rows.drop_last(), b);
        if rows.last().0 == b {
            rest.push(group_line(rows.last()))
        } else {
            rest
        }
    }
}

/// The backends of the rows.
pub open spec fn row_backends(rows: Seq<(Seq<char>, Seq<char>, Option<Seq<char>>)>) -> Seq<Seq<char>> {
    rows.map_values(|r: (Seq<char>, Seq<char>, Option<Seq<char>>)| r.0)
}

/// The views of group lines.
pub open spec fn line_views(v: Seq<(String, String)>) -> Seq<(Seq<char>, Seq<char>)> {
    v.map_values(|l: (String, String)| (l.0@, l.1@))
}

/// The lines of the packages of one backend, in list order.
fn lines_for(rows: &Vec<ListedPackage>, backend: &str) -> (r: Vec<(String, String)>)
    ensures
        line_views(r@) == group_lines(row_views(rows@), backend@),
{
    let ghost rv = row_views(rows@);
    let mut out: Vec<(String, String)> = Vec::new();
    let mut i: usize = 0;
    while i < rows.len()
        invariant
            i <= rows@.len(),
            rv == row_views(rows@),
            line_views(out@) == group_lines(rv.take(i as int), backend@),
        decreases rows.len() - i,
    {
        assert(rv.take(i + 1).drop_last() =~= rv.take(i as int));
        assert(rv.take(i + 1).last() == rows@[i as int]@);
        let row = &rows[i];
        if same_text(row.backend.as_str(), backend) {
            let version = match &row.version {
                Some(v) => v.clone(),
                None => {
                    proof {
                        reveal_strlit("-");
                    }
                    owned("-")
                },
            };
            let ghost before = line_views(out@);
            out.push((row.name.clone(), version));
            assert(line_views(out@) =~= before.push(group_line(row@)));
        }
        i += 1;
    }
    assert(rv.take(rows.len() as int) =~= rv);
    out
}

/// Groups the packages by backend: backends sorted, each once; packages of
/// a backend in list order.
pub fn group_by_backend(rows: &Vec<ListedPackage>) -> (r: Vec<BackendGroup>)
    ensures
        r@.map_values(|g: BackendGroup| g.backend@) == sorted_set(row_backends(row_views(rows@)).to_set()),
        forall|j: int| 0 <= j < r@.len() ==> line_views(#[trigger] r@[j].packages@) == group_lines(row_views(rows@), r@[j].backend@),
{
    let mut names: Vec<String> = Vec::new();
    let mut i: usize = 0;
    while i < rows.len()
        invariant
            i <= rows@.len(),
            views(names@) == row_backends(row_views(rows@)).take(i as int),
        decreases rows.len() - i,
    {
        let ghost before = views(names@);
        names.push(rows[i].backend.clone());
        assert(views(names@) =~= before.push(rows@[i as int].backend@));
        assert(row_backends(row_views(rows@)).take(i + 1) =~= before.push(rows@[i as int].backend@));
        i += 1;
    }
    assert(row_backends(row_views(rows@)).take(rows.len() as int) =~= row_backends(row_views(rows@)));
    let backends = sorted_unique(&names);
    proof {
        lemma_sorted_set_of(views(backends@));
    }
    let mut groups: Vec<BackendGroup> = Vec::new();
    let mut k: usize = 0;
    while k < backends.len()
        invariant
            k <= backends@.len(),
            groups@.map_values(|g: BackendGroup| g.backend@) == views(backends@).take(k as int),
            forall|j: int| 0 <= j < groups@.len() ==> line_views(#[trigger] groups@[j].packages@) == group_lines(row_views(rows@), groups@[j].backend@),
        decreases backends.len() - k,
    {
        let packages = lines_for(rows, backends[k].as_str());
        let ghost before = groups@.map_values(|g: BackendGroup| g.backend@);
        groups.push(BackendGroup { backend: backends[k].clone(), packages });
        assert(groups@.map_values(|g: BackendGroup| g.backend@) =~= before.push(backends@[k as int]@));
        assert(views(backends@).take(k + 1) =~= views(backends@).take(k as int).push(backends@[k as int]@));
        k += 1;
    }
    assert(views(backends@).take(backends.len() as int) =~= views(backends@));
    groups
}

/// The installed rows that nothing declares.
pub open spec fn undeclared(rows: Seq<(Seq<char>, Seq<char>, Option<Seq<char>>)>, ids: Seq<(Seq<char>, Seq<char>)>) -> Seq<(Seq<char>, Seq<char>, Option<Seq<char>>)>
    decreases rows.len(),
{
    if rows.len() == 0 {
        Seq::empty()
    } else {
        let rest = undeclared(rows.drop_last(), ids);
        if ids.contains((rows.last().0, rows.last().1)) {
            rest
        } else {
            rest.push(rows.last())
        }
    }
}

/// The names of the rows of backend `b`.
pub open spec fn names_of_backend(rows: Seq<(Seq<char>, Seq<char>, Option<Seq<char>>)>, b: Seq<char>) -> Set<Seq<char>> {
    Set::new(|n: Seq<char>| exists|i: int| 0 <= i < rows.len() && rows[i].0 == b && #[trigger] rows[i].1 == n)
}

/// The pairs in `(backend, name)` order: backends sorted, and within each
/// backend its names sorted, each pair once.
pub open spec fn pair_order(backends: Seq<Seq<char>>, rows: Seq<(Seq<char>, Seq<char>, Option<Seq<char>>)>) -> Seq<(Seq<char>, Seq<char>)>
    decreases backends.len(),
{
    if backends.len() == 0 {
        Seq::empty()
    } else {
        let b = backends.last();
        pair_order(backends.drop_last(), rows)
            + sorted_set(names_of_backend(rows, b)).map_values(|n: Seq<char>| (b, n))
    }
}

/// The installed packages, as reported by the backends, that the
/// configuration does not declare: ordered by backend then name, each
/// `(backend, name)` once, with the version of one of its reports.
pub fn unmanaged_packages(declared: &MergedConfig, installed: &Vec<ListedPackage>) -> (r: Vec<ListedPackage>)
    ensures
        row_views(r@).map_values(|x: (Seq<char>, Seq<char>, Option<Seq<char>>)| (x.0, x.1)) == pair_order(
            sorted_set(row_backends(undeclared(row_views(installed@), declared_ids(declared.packages@))).to_set()),
            undeclared(row_views(installed@), declared_ids(declared.packages@)),
        ),
        forall|j: int| 0 <= j < r@.len() ==> undeclared(row_views(installed@), declared_ids(declared.packages@)).contains(#[trigger] row_views(r@)[j]),
{
    let ghost ids = declared_ids(declared.packages@);
    let ghost iv = row_views(installed@);
    let mut free: Vec<ListedPackage> = Vec::new();
    let mut i: usize = 0;
    while i < installed.len()
        invariant
            i <= installed@.len(),
            ids == declared_ids(declared.packages@),
            iv == row_views(installed@),
            row_views(free@) == undeclared(iv.take(i as int), ids),
        decreases installed.len() - i,
    {
        assert(iv.take(i + 1).drop_last() =~= iv.take(i as int));
        assert(iv.take(i + 1).last() == installed@[i as int]@);
        let row = &installed[i];
        if !declares(declared, row.backend.as_str(), row.name.as_str()) {
            let copy = ListedPackage {
                backend: row.backend.clone(),
                name: row.name.clone(),
                version: match &row.version {
                    Some(v) => Some(v.clone()),
                    None => None,
                },
            };
            let ghost before = row_views(free@);
            free.push(copy);
            assert(row_views(free@) =~= before.push(row@));
        }
        i += 1;
    }
    assert(iv.take(installed.len() as int) =~= iv);
    let ghost fv = row_views(free@);
    let mut bnames: Vec<String> = Vec::new();
    let mut k: usize = 0;
    while k < free.len()
        invariant
            k <= free@.len(),
            fv == row_views(free@),
            views(bnames@) == row_backends(fv).take(k as int),
        decreases free.len() - k,
    {
        let ghost before = views(bnames@);
        bnames.push(free[k].backend.clone());
        assert(views(bnames@) =~= before.push(free@[k as int].backend@));
        assert(row_backends(fv).take(k + 1) =~= before.push(free@[k as int].backend@));
        k += 1;
    }
    assert(row_backends(fv).take(free.len() as int) =~= row_backends(fv));
    let backends = sorted_unique(&bnames);
    proof {
        lemma_sorted_set_of(views(backends@));
    }
    let ghost bv = views(backends@);
    let mut out: Vec<ListedPackage> = Vec::new();
    let mut b: usize = 0;
    while b < backends.len()
        invariant
            b <= backends@.len(),
            fv == row_views(free@),
            bv == views(backends@),
            row_views(out@).map_values(|x: (Seq<char>, Seq<char>, Option<Seq<char>>)| (x.0, x.1)) == pair_order(bv.take(b as int), fv),
            forall|j: int| 0 <= j < out@.len() ==> fv.contains(#[trigger] row_views(out@)[j]),
        decreases backends.len() - b,
    {
        let backend = backends[b].as_str();
        let mut names: Vec<String> = Vec::new();
        let mut m: usize = 0;
        while m < free.len()
            invariant
                m <= free@.len(),
                fv == row_views(free@),
                views(names@).to_set() == names_of_backend(fv.take(m as int), backend@),
            decreases free.len() - m,
        {
            let ghost before = views(names@);
            let ghost pre = fv.take(m as int);
            let ghost post = fv.take(m + 1);
            assert(post =~= pre.push(fv[m as int]));
            assert(fv[m as int] == free@[m as int]@);
            if same_text(free[m].backend.as_str(), backend) {
                names.push(free[m].name.clone());
                assert(views(names@) =~= before.push(free@[m as int].name@));
                proof {
                    before.lemma_push_to_set_commute(free@[m as int].name@);
                    assert(views(names@).to_set() =~= names_of_backend(post, backend@)) by {
                        assert forall|n: Seq<char>| views(names@).to_set().contains(n) implies names_of_backend(post, backend@).contains(n) by {
                            if n == free@[m as int].name@ {
                                assert(post[m as int].0 == backend@ && post[m as int].1 == n);
                            } else {
                                assert(before.to_set().contains(n));
                                let w = choose|w: int| 0 <= w < pre.len() && pre[w].0 == backend@ && #[trigger] pre[w].1 == n;
                                assert(post[w] == pre[w]);
                            }
                        }
                        assert forall|n: Seq<char>| names_of_backend(post, backend@).contains(n) implies views(names@).to_set().contains(n) by {
                            let w = choose|w: int| 0 <= w < post.len() && post[w].0 == backend@ && #[trigger] post[w].1 == n;
                            if w < m {
                                assert(pre[w] == post[w]);
                                assert(names_of_backend(pre, backend@).contains(n));
                            }
                        }
                    }
                }
            } else {
                proof {
                    assert(views(names@).to_set() =~= names_of_backend(post, backend@)) by {
                        assert forall|n: Seq<char>| views(names@).to_set().contains(n) implies names_of_backend(post, backend@).contains(n) by {
                            let w = choose|w: int| 0 <= w < pre.len() && pre[w].0 == backend@ && #[trigger] pre[w].1 == n;
                            assert(post[w] == pre[w]);
                        }
                        assert forall|n: Seq<char>| names_of_backend(post, backend@).contains(n) implies views(names@).to_set().contains(n) by {
                            let w = choose|w: int| 0 <= w < post.len() && post[w].0 == backend@ && #[trigger] post[w].1 == n;
                            if w < m {
                                assert(pre[w] == post[w]);
                                assert(names_of_backend(pre, backend@).contains(n));
                            }
                        }
                    }
                }
            }
            m += 1;
        }
        assert(fv.take(free.len() as int) =~= fv);
        let sorted_names = sorted_unique(&names);
        proof {
            lemma_sorted_set_of(views(sorted_names@));
        }
        let ghost base = row_views(out@).map_values(|x: (Seq<char>, Seq<char>, Option<Seq<char>>)| (x.0, x.1));
        let ghost sn = views(sorted_names@);
        let mut q: usize = 0;
        while q < sorted_names.len()
            invariant
                q <= sorted_names@.len(),
                fv == row_views(free@),
                sn == views(sorted_names@),
                sn.to_set() == names_of_backend(fv, backend@),
                row_views(out@).map_values(|x: (Seq<char>, Seq<char>, Option<Seq<char>>)| (x.0, x.1)) == base + sn.take(q as int).map_values(|n: Seq<char>| (backend@, n)),
                forall|j: int| 0 <= j < out@.len() ==> fv.contains(#[trigger] row_views(out@)[j]),
            decreases sorted_names.len() - q,
        {
            let name = sorted_names[q].as_str();
            assert(sn.to_set().contains(sn[q as int]));
            let ghost w0 = choose|w: int| 0 <= w < fv.len() && fv[w].0 == backend@ && #[trigger] fv[w].1 == sn[q as int];
            let mut t: usize = 0;
            while t < free.len() && !(same_text(free[t].backend.as_str(), backend) && same_text(free[t].name.as_str(), name))
                invariant
                    t <= free@.len(),
                    fv == row_views(free@),
                    0 <= w0 < fv.len(),
                    fv[w0].0 == backend@,
                    fv[w0].1 == name@,
                    t <= w0,
                    forall|j: int| 0 <= j < t ==> !(fv[j].0 == backend@ && fv[j].1 == name@),
                decreases free.len() - t,
            {
                t += 1;
            }
            assert(t < free.len());
            assert(fv[t as int] == free@[t as int]@);
            assert(fv[t as int].0 == backend@ && fv[t as int].1 == name@);
            let hit = &free[t];
            let copy = ListedPackage {
                backend: hit.backend.clone(),
                name: hit.name.clone(),
                version: match &hit.version {
                    Some(v) => Some(v.clone()),
                    None => None,
                },
            };
            let ghost before_rows = row_views(out@);
            out.push(copy);
            proof {
                assert(row_views(out@) =~= before_rows.push(fv[t as int]));
                assert(sn.take(q + 1) =~= sn.take(q as int).push(sn[q as int]));
                assert(sn[q as int] == name@);
                let pf = |x: (Seq<char>, Seq<char>, Option<Seq<char>>)| (x.0, x.1);
                let nf = |n: Seq<char>| (backend@, n);
                assert(before_rows.push(fv[t as int]).map_values(pf) =~= before_rows.map_values(pf).push(pf(fv[t as int])));
                assert(sn.take(q + 1).map_values(nf) =~= sn.take(q as int).map_values(nf).push(nf(sn[q as int])));
                assert(row_views(out@).map_values(|x: (Seq<char>, Seq<char>, Option<Seq<char>>)| (x.0, x.1)) =~= base + sn.take(q + 1).map_values(|n: Seq<char>| (backend@, n)));
                assert forall|j: int| 0 <= j < out@.len() implies fv.contains(#[trigger] row_views(out@)[j]) by {
                    if j == out@.len() - 1 {
                        assert(row_views(out@)[j] == fv[t as int]);
                    } else {
                        assert(row_views(out@)[j] == before_rows[j]);
                    }
                }
            }
            q += 1;
        }
        proof {
            assert(sn.take(sn.len() as int) =~= sn);
            assert(bv.take(b + 1).drop_last() =~= bv.take(b as int));
            assert(bv.take(b + 1).last() == backend@);
        }
        b += 1;
    }
    assert(bv.take(backends.len() as int) =~= bv);
    out
}

/// How many lines the groups of the backends `bs` hold together.
pub open spec fn grouped_count(rows: Seq<(Seq<char>, Seq<char>, Option<Seq<char>>)>, bs: Seq<Seq<char>>) -> nat
    decreases bs.len(),
{
    if bs.len() == 0 {
        0
    } else {
        grouped_count(rows, bs.drop_last()) + group_lines(rows, bs.last()).len()
    }
}

/// How often `x` occurs in `bs`.
spec fn occurrences(bs: Seq<Seq<char>>, x: Seq<char>) -> nat
    decreases bs.len(),
{
    if bs.len() == 0 {
        0
    } else {
        occurrences(bs.drop_last(), x) + if bs.last() == x { 1nat } else { 0nat }
    }
}

proof fn lemma_grouped_count_push(rows: Seq<(Seq<char>, Seq<char>, Option<Seq<char>>)>, r: (Seq<char>, Seq<char>, Option<Seq<char>>), bs: Seq<Seq<char>>)
    ensures
        grouped_count(rows.push(r), bs) == grouped_count(rows, bs) + occurrences(bs, r.0),
    decreases bs.len(),
{
    if bs.len() > 0 {
        lemma_grouped_count_push(rows, r, bs.drop_last());
        assert(rows.push(r).drop_last() =~= rows);
    }
}

proof fn lemma_occurs_once(bs: Seq<Seq<char>>, x: Seq<char>)
    requires
        bs.no_duplicates(),
        bs.contains(x),
    ensures
        occurrences(bs, x) == 1,
    decreases bs.len(),
{
    let d = bs.drop_last();
    assert(d.no_duplicates()) by {
        assert forall|i: int, j: int| 0 <= i < d.len() && 0 <= j < d.len() && i != j implies d[i] != d[j] by {
            assert(d[i] == bs[i] && d[j] == bs[j]);
        }
    }
    if bs.last() == x {
        assert(!d.contains(x)) by {
            if d.contains(x) {
                let k = choose|k: int| 0 <= k < d.len() && d[k] == x;
                assert(bs[k] == bs[bs.len() - 1]);
            }
        }
        lemma_occurs_never(d, x);
    } else {
        let k = choose|k: int| 0 <= k < bs.len() && bs[k] == x;
        assert(k < d.len());
        assert(d[k] == x);
        lemma_occurs_once(d, x);
    }
}

proof fn lemma_occurs_never(bs: Seq<Seq<char>>, x: Seq<char>)
    requires
        !bs.contains(x),
    ensures
        occurrences(bs, x) == 0,
    decreases bs.len(),
{
    if bs.len() > 0 {
        let d = bs.drop_last();
        assert(!d.contains(x)) by {
            if d.contains(x) {
                let k = choose|k: int| 0 <= k < d.len() && d[k] == x;
                assert(bs[k] == x);
            }
        }
        assert(bs[bs.len() - 1] != x);
        lemma_occurs_never(d, x);
    }
}

/// Over backends that each occur once and include every row's backend, the
/// groups hold one line per row.
proof fn lemma_grouped_count(rows: Seq<(Seq<char>, Seq<char>, Option<Seq<char>>)>, bs: Seq<Seq<char>>)
    requires
        bs.no_duplicates(),
        forall|i: int| 0 <= i < rows.len() ==> bs.contains(#[trigger] rows[i].0),
    ensures
        grouped_count(rows, bs) == rows.len(),
    decreases rows.len(),
{
    if rows.len() == 0 {
        lemma_grouped_count_empty(bs);
        assert(rows =~= Seq::<(Seq<char>, Seq<char>, Option<Seq<char>>)>::empty());
    } else {
        let d = rows.drop_last();
        assert forall|i: int| 0 <= i < d.len() implies bs.contains(#[trigger] d[i].0) by {
            assert(d[i] == rows[i]);
        }
        lemma_grouped_count(d, bs);
        assert(rows =~= d.push(rows.last()));
        lemma_grouped_count_push(d, rows.last(), bs);
        assert(bs.contains(rows[rows.len() - 1].0));
        lemma_occurs_once(bs, rows.last().0);
    }
}

proof fn lemma_grouped_count_empty(bs: Seq<Seq<char>>)
    ensures
        grouped_count(Seq::empty(), bs) == 0,
    decreases bs.len(),
{
    if bs.len() > 0 {
        lemma_grouped_count_empty(bs.drop_last());
    }
}

/// Law: grouping by backend neither drops nor repeats a package: the groups
/// of all the rows' backends hold, together, exactly one line per row.
pub proof fn law_grouping_keeps_every_package(rows: Seq<(Seq<char>, Seq<char>, Option<Seq<char>>)>)
    ensures
        grouped_count(rows, sorted_set(row_backends(rows).to_set())) == rows.len(),
{
    let bs = sorted_set(row_backends(rows).to_set());
    lemma_sorted_set_exists(row_backends(rows));
    assert(bs.no_duplicates()) by {
        assert forall|i: int, j: int| 0 <= i < bs.len() && 0 <= j < bs.len() && i != j implies bs[i] != bs[j] by {
            if i < j {
                assert(crate::text::text_lt(bs[i], bs[j]));
                crate::text::lemma_text_lt_irreflexive(bs[i]);
            } else {
                assert(crate::text::text_lt(bs[j], bs[i]));
                crate::text::lemma_text_lt_irreflexive(bs[j]);
            }
        }
    }
    assert forall|i: int| 0 <= i < rows.len() implies bs.contains(#[trigger] rows[i].0) by {
        assert(row_backends(rows)[i] == rows[i].0);
        assert(row_backends(rows).to_set().contains(rows[i].0));
    }
    lemma_grouped_count(rows, bs);
}

/// The records, in order, whose identity the declared identities hold
/// (`declared`) or do not hold (`!declared`).
pub open spec fn records_by_declaration(
    records: Seq<PackageState>,
    ids: Seq<(Seq<char>, Seq<char>)>,
    declared: bool,
) -> Seq<PackageState>
    decreases records.len(),
{
    if records.len() == 0 {
        Seq::empty()
    } else {
        let rest = records_by_declaration(records.drop_last(), ids, declared);
        if ids.contains(records.last().id()) == declared {
            rest.push(records.last())
        } else {
            rest
        }
    }
}

/// The records behind references.
pub open spec fn derefs(v: Seq<&PackageState>) -> Seq<PackageState> {
    v.map_values(|p: &PackageState| *p)
}

fn records_filtered<'a>(installed: Vec<&'a PackageState>, config: &MergedConfig, declared: bool) -> (r: Vec<&'a PackageState>)
    ensures
        derefs(r@) == records_by_declaration(derefs(installed@), declared_ids(config.packages@), declared),
{
    let ghost ins = derefs(installed@);
    let mut out: Vec<&'a PackageState> = Vec::new();
    let mut i: usize = 0;
    while i < installed.len()
        invariant
            i <= installed.len(),
            ins == derefs(installed@),
            derefs(out@) == records_by_declaration(ins.take(i as int), declared_ids(config.packages@), declared),
        decreases installed.len() - i,
    {
        assert(ins.take(i + 1).drop_last() =~= ins.take(i as int));
        assert(ins.take(i + 1).last() == *installed@[i as int]);
        let p = installed[i];
        if declares(config, p.backend.name(), p.config_name.as_str()) == declared {
            let ghost before = derefs(out@);
            out.push(p);
            assert(derefs(out@) =~= before.push(*p));
        }
        i += 1;
    }
    assert(ins.take(installed.len() as int) =~= ins);
    out
}

/// The recorded packages, in order, that the configuration does not declare.
pub fn find_orphans<'a>(installed: Vec<&'a PackageState>, config: &MergedConfig) -> (r: Vec<&'a PackageState>)
    ensures
        derefs(r@) == records_by_declaration(derefs(installed@), declared_ids(config.packages@), false),
{
    records_filtered(installed, config, false)
}

/// The recorded packages, in order, that the configuration declares.
pub fn find_synced<'a>(installed: Vec<&'a PackageState>, config: &MergedConfig) -> (r: Vec<&'a PackageState>)
    ensures
        derefs(r@) == records_by_declaration(derefs(installed@), declared_ids(config.packages@), true),
{
    records_filtered(installed, config, true)
}

/// Law: orphans and synced packages partition the recorded packages: each
/// record is in exactly one of the two (as often as it is recorded), the
/// orphans undeclared and the synced declared, both in record order.
pub proof fn law_orphans_and_synced_partition(records: Seq<PackageState>, ids: Seq<(Seq<char>, Seq<char>)>)
    ensures
        records_by_declaration(records, ids, false).to_multiset().add(records_by_declaration(records, ids, true).to_multiset())
            == records.to_multiset(),
        forall|i: int| 0 <= i < records_by_declaration(records, ids, false).len()
            ==> !ids.contains((#[trigger] records_by_declaration(records, ids, false)[i]).id()),
        forall|i: int| 0 <= i < records_by_declaration(records, ids, true).len()
            ==> ids.contains((#[trigger] records_by_declaration(records, ids, true)[i]).id()),
    decreases records.len(),
{
    broadcast use vstd::seq_lib::group_to_multiset_ensures;
    broadcast use vstd::multiset::group_multiset_axioms;
    if records.len() == 0 {
        assert(records_by_declaration(records, ids, false).to_multiset().add(records_by_declaration(records, ids, true).to_multiset())
            =~= records.to_multiset());
    } else {
        let d = records.drop_last();
        let x = records.last();
        law_orphans_and_synced_partition(d, ids);
        assert(records =~= d.push(x));
        let o = records_by_declaration(d, ids, false);
        let y = records_by_declaration(d, ids, true);
        if ids.contains(x.id()) {
            assert(records_by_declaration(records, ids, true) == y.push(x));
            assert(records_by_declaration(records, ids, false) == o);
            assert(o.to_multiset().add(y.push(x).to_multiset()) =~= records.to_multiset());
        } else {
            assert(records_by_declaration(records, ids, false) == o.push(x));
            assert(records_by_declaration(records, ids, true) == y);
            assert(o.push(x).to_multiset().add(y.to_multiset()) =~= records.to_multiset());
        }
    }
}

/// Law: an installed package is unmanaged exactly when the configuration
/// does not declare that same backend and name: a declaration of the name
/// for another backend does not make it managed, and every reported row is
/// an installed one.
pub proof fn law_unmanaged_is_undeclared_pair(
    rows: Seq<(Seq<char>, Seq<char>, Option<Seq<char>>)>,
    ids: Seq<(Seq<char>, Seq<char>)>,
)
    ensures
        forall|r: (Seq<char>, Seq<char>, Option<Seq<char>>)| #[trigger] undeclared(rows, ids).contains(r)
            <==> rows.contains(r) && !ids.contains((r.0, r.1)),
    decreases rows.len(),
{
    if rows.len() > 0 {
        let d = rows.drop_last();
        let last = rows.last();
        law_unmanaged_is_undeclared_pair(d, ids);
        let rest = undeclared(d, ids);
        let u = undeclared(rows, ids);
        if ids.contains((last.0, last.1)) {
            assert(u == rest);
        } else {
            assert(u == rest.push(last));
        }
        assert forall|r: (Seq<char>, Seq<char>, Option<Seq<char>>)| u.contains(r)
            <==> rows.contains(r) && !ids.contains((r.0, r.1)) by {
            if u.contains(r) {
                let k = choose|k: int| 0 <= k < u.len() && u[k] == r;
                if k < rest.len() {
                    assert(rest[k] == r);
                    assert(rest.contains(r));
                    let j = choose|j: int| 0 <= j < d.len() && d[j] == r;
                    assert(rows[j] == r);
                } else {
                    assert(rows[rows.len() - 1] == r);
                }
            }
            if rows.contains(r) && !ids.contains((r.0, r.1)) {
                let k = choose|k: int| 0 <= k < rows.len() && rows[k] == r;
                if k < d.len() {
                    assert(d[k] == r);
                    assert(rest.contains(r));
                    let j = choose|j: int| 0 <= j < rest.len() && rest[j] == r;
                    assert(u[j] == r);
                } else {
                    assert(u[u.len() - 1] == r);
                }
            }
        }
    }
}

/// Law: with a configuration, `--orphans` and `--synced` split the packages
/// `list` would show: each shown package is in exactly one of the two
/// listings, so their sizes add up.
pub proof fn law_orphans_and_synced_split(
    entries: Seq<(String, PackageState)>,
    options: ListOptions,
    ids: Seq<(Seq<char>, Seq<char>)>,
)
    requires
        !options.orphans,
        !options.synced,
    ensures
        shown_rows(entries, ListOptions { orphans: true, ..options }, Some(ids)).len()
            + shown_rows(entries, ListOptions { synced: true, ..options }, Some(ids)).len()
            == shown_rows(entries, options, Some(ids)).len(),
        forall|r: (Seq<char>, Seq<char>, Option<Seq<char>>)|
            shown_rows(entries, ListOptions { orphans: true, ..options }, Some(ids)).contains(r)
                ==> !ids.contains((r.0, r.1)),
        forall|r: (Seq<char>, Seq<char>, Option<Seq<char>>)|
            shown_rows(entries, ListOptions { synced: true, ..options }, Some(ids)).contains(r)
                ==> ids.contains((r.0, r.1)),
    decreases entries.len(),
{
    let o = ListOptions { orphans: true, ..options };
    let y = ListOptions { synced: true, ..options };
    if entries.len() > 0 {
        let d = entries.drop_last();
        law_orphans_and_synced_split(d, options, ids);
        let ro = shown_rows(d, o, Some(ids));
        let ry = shown_rows(d, y, Some(ids));
        let row = state_row(entries.last().1);
        assert forall|r: (Seq<char>, Seq<char>, Option<Seq<char>>)| shown_rows(entries, o, Some(ids)).contains(r) implies !ids.contains((r.0, r.1)) by {
            if r != row || !shown(row, o, Some(ids)) {
                let k = choose|k: int| 0 <= k < shown_rows(entries, o, Some(ids)).len() && shown_rows(entries, o, Some(ids))[k] == r;
                if k < ro.len() {
                    assert(ro[k] == r);
                    assert(ro.contains(r));
                }
            }
        }
        assert forall|r: (Seq<char>, Seq<char>, Option<Seq<char>>)| shown_rows(entries, y, Some(ids)).contains(r) implies ids.contains((r.0, r.1)) by {
            if r != row || !shown(row, y, Some(ids)) {
                let k = choose|k: int| 0 <= k < shown_rows(entries, y, Some(ids)).len() && shown_rows(entries, y, Some(ids))[k] == r;
                if k < ry.len() {
                    assert(ry[k] == r);
                    assert(ry.contains(r));
                }
            }
        }
    }
}

} // verus!
