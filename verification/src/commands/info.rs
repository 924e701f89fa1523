//! The `info` status command's decisions: which recorded packages it
//! reports, how they are counted and laid out.
use vstd::prelude::*;
use crate::model::{PackageMap, PackageState};
use crate::outside::{lowercase, to_lowercase};
use crate::sorting::{keys_of, lemma_sorted_set_of, sorted_set, sorted_unique};
use crate::text::{
    chars_of, has_sub, join, joined, push_str, same_text, split_once, split_once_chars,
    string_of, trim, trim_chars, views,
};

pub mod diagnostics;
pub mod summary;

verus! {

broadcast use vstd::seq_lib::group_to_multiset_ensures;

/// Options of the `info` status command.
#[derive(Clone, Debug)]
pub struct InfoOptions {
    pub doctor: bool,
    pub format: Option<String>,
    pub output_version: Option<String>,
    pub backend: Option<String>,
    pub package: Option<String>,
    pub verbose: bool,
}

/// The package name of a state key: the part after its first `:`, or the
/// whole key.
pub open spec fn package_name_of(key: Seq<char>) -> Seq<char> {
    match split_once(key, ':') {
        Some(p) => p.1,
        None => key,
    }
}

/// The package name of a state key.
pub fn extract_package_name(key: &str) -> (r: String)
    ensures
        r@ == package_name_of(key@),
{
    let c = chars_of(key);
    match split_once_chars(c.as_slice(), ':') {
        Some((_, n)) => string_of(n.as_slice()),
        None => string_of(c.as_slice()),
    }
}

/// Whether a state entry is reported: its key's package name holds the
/// package filter, and its backend is the (lower-cased) backend filter.
pub open spec fn reported(entry: (String, PackageState), backend: Option<Seq<char>>, package: Option<Seq<char>>) -> bool {
    &&& (package matches Some(p) ==> has_sub(package_name_of(entry.0@), p))
    &&& (backend matches Some(b) ==> entry.1.backend@ == lowercase(b))
}

/// The positions, in order, of the reported entries.
pub open spec fn reported_positions(entries: Seq<(String, PackageState)>, backend: Option<Seq<char>>, package: Option<Seq<char>>) -> Seq<int>
    decreases entries.len(),
{
    if entries.len() == 0 {
        Seq::empty()
    } else {
        let rest = reported_positions(entries.drop_last(), backend, package);
        if reported(entries.last(), backend, package) {
            rest.push(entries.len() - 1)
        } else {
            rest
        }
    }
}

/// The view of an optional owned string.
pub open spec fn opt_v(o: Option<String>) -> Option<Seq<char>> {
    match o {
        Some(s) => Some(s@),
        None => None,
    }
}

/// The positions as integers.
pub open spec fn positions(v: Seq<usize>) -> Seq<int> {
    v.map_values(|i: usize| i as int)
}

/// The positions in the state's entries of the packages `info` reports.
pub fn filter_packages(state: &PackageMap, options: &InfoOptions) -> (r: Vec<usize>)
    ensures
        positions(r@) == reported_positions(state@, opt_v(options.backend), opt_v(options.package)),
        forall|j: int| 0 <= j < r@.len() ==> r@[j] < state@.len(),
{
    let entries = state.entries();
    let ghost b = opt_v(options.backend);
    let ghost p = opt_v(options.package);
    let backend = match &options.backend {
        Some(x) => Some(to_lowercase(x.as_str())),
        None => None,
    };
    let needle = match &options.package {
        Some(x) => Some(chars_of(x.as_str())),
        None => None,
    };
    let mut r: Vec<usize> = Vec::new();
    let mut i: usize = 0;
    while i < entries.len()
        invariant
            i <= entries@.len(),
            entries@ == state@,
            b == opt_v(options.backend),
            p == opt_v(options.package),
            match b {
                Some(x) => backend matches Some(y) && y@ == lowercase(x),
                None => backend is None,
            },
            match p {
                Some(x) => needle matches Some(y) && y@ == x,
                None => needle is None,
            },
            positions(r@) == reported_positions(entries@.take(i as int), b, p),
            forall|j: int| 0 <= j < r@.len() ==> r@[j] < i,
        decreases entries.len() - i,
    {
        assert(entries@.take(i + 1).drop_last() =~= entries@.take(i as int));
        assert(entries@.take(i + 1).last() == entries@[i as int]);
        let e = &entries[i];
        let name_ok = match &needle {
            Some(n) => {
                let name = extract_package_name(e.0.as_str());
                let nc = chars_of(name.as_str());
                crate::text::contains_chars(nc.as_slice(), n.as_slice())
            },
            None => true,
        };
        let backend_ok = match &backend {
            Some(x) => same_text(e.1.backend.name(), x.as_str()),
            None => true,
        };
        if name_ok && backend_ok {
            let ghost before = positions(r@);
            r.push(i);
            assert(positions(r@) =~= before.push(i as int));
        }
        i += 1;
    }
    assert(entries@.take(entries.len() as int) =~= entries@);
    r
}

/// How many of the chosen entries have backend `b`.
pub open spec fn backend_count(entries: Seq<(String, PackageState)>, chosen: Seq<int>, b: Seq<char>) -> nat
    decreases chosen.len(),
{
    if chosen.len() == 0 {
        0
    } else {
        backend_count(entries, chosen.drop_last(), b) + if entries[chosen.last()].1.backend@ == b { 1nat } else { 0nat }
    }
}

/// The backends of counted backends.
pub open spec fn count_names(v: Seq<(String, usize)>) -> Seq<Seq<char>> {
    v.map_values(|c: (String, usize)| c.0@)
}

/// Counts the chosen entries per backend: each backend of a chosen entry
/// once, with its count; counts in non-increasing order.
pub fn count_backends_filtered(state: &PackageMap, chosen: &Vec<usize>) -> (r: Vec<(String, usize)>)
    requires
        forall|j: int| 0 <= j < chosen@.len() ==> chosen@[j] < state@.len(),
    ensures
        count_names(r@).to_set() == Set::new(|b: Seq<char>| exists|j: int| 0 <= j < chosen@.len() && state@[chosen@[j] as int].1.backend@ == b),
        count_names(r@).no_duplicates(),
        forall|k: int| 0 <= k < r@.len() ==> #[trigger] r@[k].1 == backend_count(state@, positions(chosen@), r@[k].0@),
        forall|a: int, b: int| 0 <= a < b < r@.len() ==> #[trigger] r@[a].1 >= #[trigger] r@[b].1,
{
    let entries = state.entries();
    let ghost es = entries@;
    let ghost cs = positions(chosen@);
    let mut counts: Vec<(String, usize)> = Vec::new();
    let mut i: usize = 0;
    while i < chosen.len()
        invariant
            i <= chosen@.len(),
            es == entries@,
            es == state@,
            cs == positions(chosen@),
            forall|j: int| 0 <= j < chosen@.len() ==> chosen@[j] < es.len(),
            count_names(counts@).to_set() == Set::new(|b: Seq<char>| exists|j: int| 0 <= j < i && es[chosen@[j] as int].1.backend@ == b),
            count_names(counts@).no_duplicates(),
            forall|k: int| 0 <= k < counts@.len() ==> #[trigger] counts@[k].1 == backend_count(es, cs.take(i as int), counts@[k].0@),
            forall|k: int| 0 <= k < counts@.len() ==> #[trigger] counts@[k].1 <= i,
        decreases chosen.len() - i,
    {
        let ghost old_counts = counts@;
        let ghost names = count_names(old_counts);
        let pos = chosen[i];
        let b = entries[pos].1.backend.name();
        assert(cs.take(i + 1).drop_last() =~= cs.take(i as int));
        assert(cs.take(i + 1).last() == pos as int);
        let mut k: usize = 0;
        while k < counts.len() && !same_text(counts[k].0.as_str(), b)
            invariant
                k <= counts@.len(),
                forall|j: int| 0 <= j < k ==> counts@[j].0@ != b@,
            decreases counts.len() - k,
        {
            k += 1;
        }
        if k < counts.len() {
            let (name, n) = counts.remove(k);
            counts.insert(k, (name, n + 1));
            proof {
                assert(counts@ =~= old_counts.update(k as int, (name, (n + 1) as usize)));
                assert(count_names(counts@) =~= names);
                assert forall|q: int| 0 <= q < counts@.len() implies #[trigger] counts@[q].1 == backend_count(es, cs.take(i + 1), counts@[q].0@) by {
                    if q != k {
                        assert(names[q] != names[k as int]);
                    }
                }
                assert(count_names(counts@).to_set() =~= Set::new(|x: Seq<char>| exists|j: int| 0 <= j < i + 1 && es[chosen@[j] as int].1.backend@ == x)) by {
                    assert(names[k as int] == b@);
                    assert forall|x: Seq<char>| Set::new(|x: Seq<char>| exists|j: int| 0 <= j < i + 1 && es[chosen@[j] as int].1.backend@ == x).contains(x) implies names.to_set().contains(x) by {
                        let j = choose|j: int| 0 <= j < i + 1 && es[chosen@[j] as int].1.backend@ == x;
                        if j < i {
                            assert(Set::new(|x: Seq<char>| exists|j: int| 0 <= j < i && es[chosen@[j] as int].1.backend@ == x).contains(x));
                        } else {
                            assert(names[k as int] == x);
                        }
                    }
                }
            }
        } else {
            counts.push((entries[pos].1.backend.to_string(), 1));
            proof {
                assert(!names.contains(b@)) by {
                    if names.contains(b@) {
                        let j = choose|j: int| 0 <= j < names.len() && names[j] == b@;
                        assert(old_counts[j].0@ == names[j]);
                    }
                }
                assert(count_names(counts@) =~= names.push(b@));
                names.lemma_push_to_set_commute(b@);
                lemma_backend_count_absent(es, cs.take(i as int), b@, names, old_counts, i as int, chosen@);
                assert forall|q: int| 0 <= q < counts@.len() implies #[trigger] counts@[q].1 == backend_count(es, cs.take(i + 1), counts@[q].0@) by {
                    if q < old_counts.len() {
                        assert(names[q] != b@);
                        assert(counts@[q] == old_counts[q]);
                    }
                }
                assert(count_names(counts@).to_set() =~= Set::new(|x: Seq<char>| exists|j: int| 0 <= j < i + 1 && es[chosen@[j] as int].1.backend@ == x)) by {
                    assert forall|x: Seq<char>| Set::new(|x: Seq<char>| exists|j: int| 0 <= j < i + 1 && es[chosen@[j] as int].1.backend@ == x).contains(x) implies names.push(b@).to_set().contains(x) by {
                        let j = choose|j: int| 0 <= j < i + 1 && es[chosen@[j] as int].1.backend@ == x;
                        if j < i {
                            assert(Set::new(|x: Seq<char>| exists|j: int| 0 <= j < i && es[chosen@[j] as int].1.backend@ == x).contains(x));
                        }
                    }
                    assert forall|x: Seq<char>| names.push(b@).to_set().contains(x) implies Set::new(|x: Seq<char>| exists|j: int| 0 <= j < i + 1 && es[chosen@[j] as int].1.backend@ == x).contains(x) by {
                        if x != b@ {
                            assert(names.to_set().contains(x));
                            let j = choose|j: int| 0 <= j < i && es[chosen@[j] as int].1.backend@ == x;
                            assert(0 <= j < i + 1);
                        } else {
                            assert(es[chosen@[i as int] as int].1.backend@ == x);
                        }
                    }
                }
            }
        }
        i += 1;
    }
    assert(cs.take(chosen.len() as int) =~= cs);
    let ghost before_sort = counts@;
    let sorted = sort_by_count(counts);
    proof {
        assert(count_names(sorted@).to_set() =~= count_names(before_sort).to_set()) by {
            assert forall|x: Seq<char>| count_names(sorted@).to_set().contains(x) implies count_names(before_sort).to_set().contains(x) by {
                let j = choose|j: int| 0 <= j < sorted@.len() && count_names(sorted@)[j] == x;
                assert(sorted@.contains(sorted@[j]));
                assert(sorted@.to_multiset().count(sorted@[j]) > 0);
                assert(before_sort.to_multiset().count(sorted@[j]) > 0);
                assert(before_sort.contains(sorted@[j]));
                let m = choose|m: int| 0 <= m < before_sort.len() && before_sort[m] == sorted@[j];
                assert(count_names(before_sort)[m] == x);
            }
            assert forall|x: Seq<char>| count_names(before_sort).to_set().contains(x) implies count_names(sorted@).to_set().contains(x) by {
                let j = choose|j: int| 0 <= j < before_sort.len() && count_names(before_sort)[j] == x;
                assert(before_sort.contains(before_sort[j]));
                assert(before_sort.to_multiset().count(before_sort[j]) > 0);
                assert(sorted@.to_multiset().count(before_sort[j]) > 0);
                assert(sorted@.contains(before_sort[j]));
                let m = choose|m: int| 0 <= m < sorted@.len() && sorted@[m] == before_sort[j];
                assert(count_names(sorted@)[m] == x);
            }
        }
        lemma_permuted_names_unique(before_sort, sorted@);
        assert forall|k: int| 0 <= k < sorted@.len() implies #[trigger] sorted@[k].1 == backend_count(state@, positions(chosen@), sorted@[k].0@) by {
            assert(sorted@.contains(sorted@[k]));
            assert(sorted@.to_multiset().count(sorted@[k]) > 0);
            assert(before_sort.to_multiset().count(sorted@[k]) > 0);
            assert(before_sort.contains(sorted@[k]));
        }
    }
    sorted
}

/// Names of a permutation of pairs with distinct names are distinct.
proof fn lemma_permuted_names_unique(a: Seq<(String, usize)>, b: Seq<(String, usize)>)
    requires
        count_names(a).no_duplicates(),
        a.to_multiset() == b.to_multiset(),
    ensures
        count_names(b).no_duplicates(),
{
    broadcast use vstd::seq_lib::group_to_multiset_ensures;
    let bn = count_names(b);
    let an = count_names(a);
    assert forall|x: int, y: int| 0 <= x < bn.len() && 0 <= y < bn.len() && x != y implies bn[x] != bn[y] by {
        if bn[x] == bn[y] {
            assert(b.contains(b[x]));
            assert(b.to_multiset().count(b[x]) > 0);
            assert(a.to_multiset().count(b[x]) > 0);
            assert(a.contains(b[x]));
            let p = choose|p: int| 0 <= p < a.len() && a[p] == b[x];
            assert(b.contains(b[y]));
            assert(b.to_multiset().count(b[y]) > 0);
            assert(a.to_multiset().count(b[y]) > 0);
            assert(a.contains(b[y]));
            let q = choose|q: int| 0 <= q < a.len() && a[q] == b[y];
            assert(an[p] == an[q]);
            if p == q {
                assert(b[x] == b[y]);
                assert(b.to_multiset().count(b[x]) >= 2) by {
                    lemma_two_occurrences(b, x, y);
                }
                assert(a.to_multiset().count(a[p]) >= 2);
                lemma_single_occurrence(a, p);
            }
        }
    }
}

/// Two positions holding one value count it twice.
proof fn lemma_two_occurrences<A>(s: Seq<A>, x: int, y: int)
    requires
        0 <= x < s.len(),
        0 <= y < s.len(),
        x != y,
        s[x] == s[y],
    ensures
        s.to_multiset().count(s[x]) >= 2,
    decreases s.len(),
{
    broadcast use vstd::seq_lib::group_to_multiset_ensures;
    let last = s.len() - 1;
    if x == last || y == last {
        let other = if x == last { y } else { x };
        assert(s.drop_last()[other] == s[x]);
        assert(s.drop_last().contains(s[x]));
        assert(s =~= s.drop_last().push(s.last()));
    } else {
        lemma_two_occurrences(s.drop_last(), x, y);
        assert(s =~= s.drop_last().push(s.last()));
    }
}

/// A value whose name occurs once in a name-distinct sequence occurs once.
proof fn lemma_single_occurrence(a: Seq<(String, usize)>, p: int)
    requires
        0 <= p < a.len(),
        count_names(a).no_duplicates(),
    ensures
        a.to_multiset().count(a[p]) == 1,
    decreases a.len(),
{
    broadcast use vstd::seq_lib::group_to_multiset_ensures;
    let d = a.drop_last();
    assert(a =~= d.push(a.last()));
    assert(count_names(d) =~= count_names(a).drop_last());
    if p == a.len() - 1 {
        assert(!d.contains(a[p])) by {
            if d.contains(a[p]) {
                let q = choose|q: int| 0 <= q < d.len() && d[q] == a[p];
                assert(count_names(a)[q] == count_names(a)[p]);
            }
        }
        assert(d.to_multiset().count(a[p]) == 0);
    } else {
        lemma_single_occurrence(d, p);
        assert(a.last() != a[p]) by {
            assert(count_names(a)[a.len() - 1] != count_names(a)[p]);
        }
    }
}

/// A backend not yet counted has count zero so far.
proof fn lemma_backend_count_absent(
    es: Seq<(String, PackageState)>,
    cs: Seq<int>,
    b: Seq<char>,
    names: Seq<Seq<char>>,
    counts: Seq<(String, usize)>,
    i: int,
    chosen: Seq<usize>,
)
    requires
        cs.len() == i,
        0 <= i <= chosen.len(),
        forall|j: int| 0 <= j < i ==> cs[j] == chosen[j] as int,
        names == count_names(counts),
        names.to_set() == Set::new(|x: Seq<char>| exists|j: int| 0 <= j < i && es[chosen[j] as int].1.backend@ == x),
        !names.contains(b),
    ensures
        backend_count(es, cs, b) == 0,
    decreases cs.len(),
{
    assert forall|j: int| 0 <= j < i implies es[chosen[j] as int].1.backend@ != b by {
        if es[chosen[j] as int].1.backend@ == b {
            assert(Set::new(|x: Seq<char>| exists|j: int| 0 <= j < i && es[chosen[j] as int].1.backend@ == x).contains(b));
            assert(names.to_set().contains(b));
        }
    }
    lemma_backend_count_prefix(es, cs, b, chosen, i, names);
}

/// Helper: the prefix also has no occurrence of an uncounted backend.
proof fn lemma_backend_count_prefix(
    es: Seq<(String, PackageState)>,
    cs: Seq<int>,
    b: Seq<char>,
    chosen: Seq<usize>,
    n: int,
    names: Seq<Seq<char>>,
)
    requires
        cs.len() == n,
        0 <= n <= chosen.len(),
        forall|j: int| 0 <= j < n ==> cs[j] == chosen[j] as int,
        forall|j: int| 0 <= j < n ==> es[chosen[j] as int].1.backend@ != b,
    ensures
        backend_count(es, cs, b) == 0,
    decreases cs.len(),
{
    if cs.len() > 0 {
        let d = cs.drop_last();
        lemma_backend_count_prefix(es, d, b, chosen, n - 1, names);
    }
}

/// Orders counted backends by count, largest first (stable).
fn sort_by_count(v: Vec<(String, usize)>) -> (r: Vec<(String, usize)>)
    ensures
        r@.to_multiset() == v@.to_multiset(),
        r@.len() == v@.len(),
        forall|a: int, b: int| 0 <= a < b < r@.len() ==> #[trigger] r@[a].1 >= #[trigger] r@[b].1,
{
    broadcast use vstd::seq_lib::group_to_multiset_ensures;
    let ghost orig = v@;
    let mut r: Vec<(String, usize)> = Vec::new();
    let mut rest = v;
    while rest.len() > 0
        invariant
            orig.to_multiset() =~= r@.to_multiset().add(rest@.to_multiset()),
            r@.len() + rest@.len() == orig.len(),
            forall|a: int, b: int| 0 <= a < b < r@.len() ==> #[trigger] r@[a].1 >= #[trigger] r@[b].1,
        decreases rest@.len(),
    {
        let ghost rest_before = rest@;
        let item = rest.remove(0);
        assert(rest_before =~= seq![item].add(rest@));
        assert(rest_before.to_multiset() =~= rest@.to_multiset().insert(item)) by {
            assert(rest_before =~= rest@.insert(0, item));
            crate::sorting::lemma_insert_multiset(rest@, 0, item);
        }
        let mut j: usize = 0;
        while j < r.len() && r[j].1 >= item.1
            invariant
                j <= r@.len(),
                forall|k: int| 0 <= k < j ==> r@[k].1 >= item.1,
            decreases r.len() - j,
        {
            j += 1;
        }
        let ghost before = r@;
        r.insert(j, item);
        proof {
            assert(r@ =~= before.insert(j as int, item));
            assert(r@.to_multiset() =~= before.to_multiset().insert(item)) by {
                crate::sorting::lemma_insert_multiset(before, j as int, item);
            }
            assert forall|a: int, b: int| 0 <= a < b < r@.len() implies #[trigger] r@[a].1 >= #[trigger] r@[b].1 by {
                if a < j && b == j {
                } else if a < j && b > j {
                    assert(before[a].1 >= before[b - 1].1);
                } else if a == j && b > j {
                    assert(before[j as int].1 < item.1);
                    if b - 1 > j {
                        assert(before[j as int].1 >= before[b - 1].1);
                    }
                } else if a > j {
                    assert(before[a - 1].1 >= before[b - 1].1);
                } else {
                    assert(before[a].1 >= before[b].1);
                }
            }
        }
    }
    r
}

/// The UTF-8 length of a text, as `str::len` reports it.
pub open spec fn byte_len(s: Seq<char>) -> usize {
    vstd::utf8::encode_utf8(s).len() as usize
}

/// The state of laying names out in lines: finished lines, the current
/// line, and its length in bytes.
pub type Layout = (Seq<Seq<char>>, Seq<char>, int);

/// Adds one name to a layout of lines at most `avail` bytes wide: a name
/// that does not fit (with its two-space separator) starts a new line,
/// unless the current line is empty.
pub open spec fn layout_step(st: Layout, name: Seq<char>, avail: int) -> Layout {
    let (lines, cur, len) = st;
    let item = byte_len(name) + 2;
    let (lines1, cur1, len1) = if len + item > avail && cur.len() > 0 {
        (lines.push(trim(cur)), Seq::<char>::empty(), 0int)
    } else {
        (lines, cur, len)
    };
    if cur1.len() > 0 {
        (lines1, cur1 + "  "@ + name, len1 + 2 + byte_len(name))
    } else {
        (lines1, cur1 + name, len1 + byte_len(name))
    }
}

/// The layout after all names.
pub open spec fn layout(names: Seq<Seq<char>>, avail: int) -> Layout
    decreases names.len(),
{
    if names.len() == 0 {
        (Seq::empty(), Seq::empty(), 0)
    } else {
        layout_step(layout(names.drop_last(), avail), names.last(), avail)
    }
}

/// The names laid out for a terminal `width` columns wide: on one line
/// separated by spaces when fewer than 20 columns remain after the 14
/// reserved for the backend prefix and indentation; else in lines of at
/// most that many bytes (a longer name gets a line of its own), names two
/// spaces apart, continuation lines indented by five spaces.
pub open spec fn inline_layout(names: Seq<Seq<char>>, width: usize) -> Seq<char> {
    let avail: int = if width >= 14 { width - 14 } else { 0 };
    if avail < 20 {
        joined(names, " "@)
    } else {
        let (lines, cur, _) = layout(names, avail);
        let all = if cur.len() > 0 { lines.push(trim(cur)) } else { lines };
        if all.len() > 1 {
            joined(all, "\n     "@)
        } else {
            joined(all, "\n"@)
        }
    }
}

/// Lays package names out in lines for a terminal of the given width
/// (see `inline_layout`).
pub fn format_packages_inline(pkg_names: &Vec<String>, term_width: usize) -> (r: String)
    ensures
        r@ == inline_layout(views(pkg_names@), term_width),
{
    let available = term_width.saturating_sub(14);
    if available < 20 {
        return join(pkg_names, " ");
    }
    let ghost names = views(pkg_names@);
    let mut lines: Vec<String> = Vec::new();
    let mut current: Vec<char> = Vec::new();
    let mut line_length: usize = 0;
    let mut i: usize = 0;
    while i < pkg_names.len()
        invariant
            i <= pkg_names@.len(),
            names == views(pkg_names@),
            available >= 20,
            layout(names.take(i as int), available as int) == (views(lines@), current@, line_length as int),
            current@.len() == 0 ==> line_length == 0,
        decreases pkg_names.len() - i,
    {
        assert(names.take(i + 1).drop_last() =~= names.take(i as int));
        assert(names.take(i + 1).last() == pkg_names@[i as int]@);
        let name = pkg_names[i].as_str();
        let bl = name.len();
        assert(bl == byte_len(name@));
        let over = line_length > available || available - line_length < 2 || bl > available - line_length - 2;
        if over && current.len() > 0 {
            let t = trim_chars(current.as_slice());
            let ghost before = views(lines@);
            lines.push(string_of(t.as_slice()));
            assert(views(lines@) =~= before.push(t@));
            current = Vec::new();
            line_length = 0;
        }
        if current.len() > 0 {
            push_str(&mut current, "  ");
            push_str(&mut current, name);
            line_length = line_length + 2 + bl;
        } else {
            let ghost empty = current@;
            push_str(&mut current, name);
            assert(current@ =~= empty + name@);
            line_length = line_length + bl;
        }
        i += 1;
    }
    assert(names.take(pkg_names.len() as int) =~= names);
    if current.len() > 0 {
        let t = trim_chars(current.as_slice());
        let ghost before = views(lines@);
        lines.push(string_of(t.as_slice()));
        assert(views(lines@) =~= before.push(t@));
    }
    if lines.len() > 1 {
        join(&lines, "\n     ")
    } else {
        join(&lines, "\n")
    }
}

/// What `info` does.
#[derive(Clone, Debug)]
pub enum InfoRun {
    /// Run the diagnostics.
    Doctor,
    /// Report these entries of the state, and then check for updates when
    /// the output is for people.
    Report { chosen: Vec<usize>, check_updates: bool },
}

/// Whether a format is a machine format (`json` or `yaml`).
pub open spec fn machine_format(f: Option<String>) -> bool {
    f matches Some(x) && (x@ == "json"@ || x@ == "yaml"@)
}

/// Decides what `info` does: diagnostics with `--doctor`, else a report of
/// the filtered packages (see `filter_packages`), followed by the update
/// check unless the format is `json` or `yaml`.
pub fn run(options: &InfoOptions, state: &PackageMap) -> (r: InfoRun)
    ensures
        options.doctor ==> r is Doctor,
        !options.doctor ==> (r matches InfoRun::Report { chosen, check_updates }
            && positions(chosen@) == reported_positions(state@, opt_v(options.backend), opt_v(options.package))
            && check_updates == !machine_format(options.format)),
{
    if options.doctor {
        return InfoRun::Doctor;
    }
    let chosen = filter_packages(state, options);
    let machine = match &options.format {
        Some(f) => same_text(f.as_str(), "json") || same_text(f.as_str(), "yaml"),
        None => false,
    };
    InfoRun::Report { chosen, check_updates: !machine }
}

/// The `(package name of key, configured name)` of the chosen entries of
/// backend `b`, in chosen order.
pub open spec fn group_items(entries: Seq<(String, PackageState)>, chosen: Seq<int>, b: Seq<char>) -> Seq<(Seq<char>, Seq<char>)>
    decreases chosen.len(),
{
    if chosen.len() == 0 {
        Seq::empty()
    } else {
        let rest = group_items(entries, chosen.drop_last(), b);
        let e = entries[chosen.last()];
        if e.1.backend@ == b {
            rest.push((package_name_of(e.0@), e.1.config_name@))
        } else {
            rest
        }
    }
}

/// The backends of the chosen entries.
pub open spec fn chosen_backends(entries: Seq<(String, PackageState)>, chosen: Seq<int>) -> Set<Seq<char>> {
    Set::new(|b: Seq<char>| exists|j: int| 0 <= j < chosen.len() && entries[chosen[j]].1.backend@ == b)
}

/// The views of text pairs.
pub open spec fn pair_views(v: Seq<(String, String)>) -> Seq<(Seq<char>, Seq<char>)> {
    v.map_values(|p: (String, String)| (p.0@, p.1@))
}

/// The views of package groups' backends.
pub open spec fn group_backends(v: Seq<(String, Vec<(String, String)>)>) -> Seq<Seq<char>> {
    v.map_values(|g: (String, Vec<(String, String)>)| g.0@)
}

/// The chosen packages grouped for the status table: backends sorted, each
/// once; in each group the `(package name of key, configured name)` of its
/// packages, ordered by package name.
pub fn package_groups(state: &PackageMap, chosen: &Vec<usize>) -> (r: Vec<(String, Vec<(String, String)>)>)
    requires
        forall|j: int| 0 <= j < chosen@.len() ==> chosen@[j] < state@.len(),
    ensures
        group_backends(r@) == sorted_set(chosen_backends(state@, positions(chosen@))),
        forall|g: int| 0 <= g < r@.len() ==> crate::text::sorted(keys_of(#[trigger] r@[g].1@))
            && pair_views(r@[g].1@).to_multiset() == group_items(state@, positions(chosen@), r@[g].0@).to_multiset(),
{
    let entries = state.entries();
    let ghost cs = positions(chosen@);
    let mut names: Vec<String> = Vec::new();
    let mut i: usize = 0;
    while i < chosen.len()
        invariant
            i <= chosen@.len(),
            entries@ == state@,
            cs == positions(chosen@),
            forall|j: int| 0 <= j < chosen@.len() ==> chosen@[j] < state@.len(),
            views(names@).to_set() == Set::new(|b: Seq<char>| exists|j: int| 0 <= j < i && state@[chosen@[j] as int].1.backend@ == b),
        decreases chosen.len() - i,
    {
        let ghost before = views(names@);
        names.push(entries[chosen[i]].1.backend.to_string());
        proof {
            assert(views(names@) =~= before.push(state@[chosen@[i as int] as int].1.backend@));
            before.lemma_push_to_set_commute(state@[chosen@[i as int] as int].1.backend@);
            assert(views(names@).to_set() =~= Set::new(|b: Seq<char>| exists|j: int| 0 <= j < i + 1 && state@[chosen@[j] as int].1.backend@ == b)) by {
                assert forall|b: Seq<char>| Set::new(|b: Seq<char>| exists|j: int| 0 <= j < i + 1 && state@[chosen@[j] as int].1.backend@ == b).contains(b)
                    implies views(names@).to_set().contains(b) by {
                    let j = choose|j: int| 0 <= j < i + 1 && state@[chosen@[j] as int].1.backend@ == b;
                    if j < i {
                        assert(Set::new(|b: Seq<char>| exists|j: int| 0 <= j < i && state@[chosen@[j] as int].1.backend@ == b).contains(b));
                    }
                }
                assert forall|b: Seq<char>| views(names@).to_set().contains(b)
                    implies Set::new(|b: Seq<char>| exists|j: int| 0 <= j < i + 1 && state@[chosen@[j] as int].1.backend@ == b).contains(b) by {
                    if before.to_set().contains(b) {
                        let j = choose|j: int| 0 <= j < i && state@[chosen@[j] as int].1.backend@ == b;
                        assert(0 <= j < i + 1);
                    }
                }
            }
        }
        i += 1;
    }
    assert(views(names@).to_set() =~= chosen_backends(state@, cs)) by {
        assert forall|b: Seq<char>| views(names@).to_set().contains(b) implies chosen_backends(state@, cs).contains(b) by {
            let j = choose|j: int| 0 <= j < chosen@.len() && state@[chosen@[j] as int].1.backend@ == b;
            assert(cs[j] == chosen@[j] as int);
        }
        assert forall|b: Seq<char>| chosen_backends(state@, cs).contains(b) implies views(names@).to_set().contains(b) by {
            let j = choose|j: int| 0 <= j < cs.len() && state@[cs[j]].1.backend@ == b;
            assert(cs[j] == chosen@[j] as int);
            assert(Set::new(|b: Seq<char>| exists|j: int| 0 <= j < chosen@.len() && state@[chosen@[j] as int].1.backend@ == b).contains(b));
        }
    }
    let backends = sorted_unique(&names);
    proof {
        lemma_sorted_set_of(views(backends@));
    }
    let mut groups: Vec<(String, Vec<(String, String)>)> = Vec::new();
    let mut k: usize = 0;
    while k < backends.len()
        invariant
            k <= backends@.len(),
            entries@ == state@,
            cs == positions(chosen@),
            forall|j: int| 0 <= j < chosen@.len() ==> chosen@[j] < state@.len(),
            group_backends(groups@) == views(backends@).take(k as int),
            forall|g: int| 0 <= g < groups@.len() ==> crate::text::sorted(keys_of(#[trigger] groups@[g].1@))
                && pair_views(groups@[g].1@).to_multiset() == group_items(state@, cs, groups@[g].0@).to_multiset(),
        decreases backends.len() - k,
    {
        let b = backends[k].as_str();
        let mut items: Vec<(String, String)> = Vec::new();
        let mut q: usize = 0;
        while q < chosen.len()
            invariant
                q <= chosen@.len(),
                entries@ == state@,
                cs == positions(chosen@),
                forall|j: int| 0 <= j < chosen@.len() ==> chosen@[j] < state@.len(),
                pair_views(items@) == group_items(state@, cs.take(q as int), b@),
            decreases chosen.len() - q,
        {
            assert(cs.take(q + 1).drop_last() =~= cs.take(q as int));
            assert(cs.take(q + 1).last() == chosen@[q as int] as int);
            let e = &entries[chosen[q]];
            if same_text(e.1.backend.name(), b) {
                let ghost before = pair_views(items@);
                items.push((extract_package_name(e.0.as_str()), e.1.config_name.clone()));
                assert(pair_views(items@) =~= before.push((package_name_of(e.0@), e.1.config_name@)));
            }
            q += 1;
        }
        assert(cs.take(chosen.len() as int) =~= cs);
        let ghost unsorted = items@;
        let sorted_items = crate::sorting::sort_keyed(items);
        proof {
            let f = |p: (String, String)| (p.0@, p.1@);
            crate::sorting::lemma_map_multiset(sorted_items@, unsorted, f);
            assert(pair_views(sorted_items@) =~= sorted_items@.map_values(f));
            assert(pair_views(unsorted) =~= unsorted.map_values(f));
        }
        let ghost before = group_backends(groups@);
        groups.push((backends[k].clone(), sorted_items));
        assert(group_backends(groups@) =~= before.push(backends@[k as int]@));
        assert(views(backends@).take(k + 1) =~= views(backends@).take(k as int).push(backends@[k as int]@));
        k += 1;
    }
    assert(views(backends@).take(backends.len() as int) =~= views(backends@));
    groups
}

/// The names of the groups, in order.
pub open spec fn flatten_groups(gs: Seq<Seq<Seq<char>>>) -> Seq<Seq<char>>
    decreases gs.len(),
{
    if gs.len() == 0 {
        Seq::empty()
    } else {
        flatten_groups(gs.drop_last()) + gs.last()
    }
}

/// The byte length of names written two spaces apart.
pub open spec fn group_len(g: Seq<Seq<char>>) -> int
    decreases g.len(),
{
    if g.len() <= 1 {
        if g.len() == 1 { byte_len(g[0]) as int } else { 0 }
    } else {
        group_len(g.drop_last()) + 2 + byte_len(g.last())
    }
}

/// A line of names: the names two spaces apart, trimmed.
pub open spec fn group_line(g: Seq<Seq<char>>) -> Seq<char> {
    trim(joined(g, "  "@))
}

/// The layout of names is their grouping into lines: the groups hold the
/// names in order; the finished lines are all but the last group's line; the
/// current line is the last group's names two spaces apart, and its length
/// theirs; a group of two or more names fits; a group ends only where the
/// next name would not fit.
proof fn lemma_layout_groups(names: Seq<Seq<char>>, avail: int) -> (gs: Seq<Seq<Seq<char>>>)
    requires
        forall|i: int| 0 <= i < names.len() ==> (#[trigger] names[i]).len() > 0,
    ensures
        flatten_groups(gs) == names,
        forall|j: int| 0 <= j < gs.len() ==> (#[trigger] gs[j]).len() > 0,
        forall|j: int| 0 <= j < gs.len() && gs[j].len() >= 2 ==> group_len(#[trigger] gs[j]) <= avail,
        forall|j: int| 0 <= j < gs.len() - 1 ==> group_len(#[trigger] gs[j]) + 2 + byte_len(gs[j + 1][0]) > avail,
        names.len() == 0 ==> gs.len() == 0 && layout(names, avail) == (Seq::<Seq<char>>::empty(), Seq::<char>::empty(), 0int),
        names.len() > 0 ==> gs.len() > 0
            && layout(names, avail).0 == gs.drop_last().map_values(|g: Seq<Seq<char>>| group_line(g))
            && layout(names, avail).1 == joined(gs.last(), "  "@)
            && layout(names, avail).1.len() > 0
            && layout(names, avail).2 == group_len(gs.last()),
    decreases names.len(),
{
    if names.len() == 0 {
        Seq::empty()
    } else {
        let d = names.drop_last();
        let n = names.last();
        assert(n.len() > 0) by {
            assert(names[names.len() - 1] == n);
        }
        assert forall|i: int| 0 <= i < d.len() implies (#[trigger] d[i]).len() > 0 by {
            assert(d[i] == names[i]);
        }
        let gs0 = lemma_layout_groups(d, avail);
        if d.len() == 0 {
            let gs = seq![seq![n]];
            assert(gs.drop_last() =~= Seq::<Seq<Seq<char>>>::empty());
            assert(flatten_groups(gs.drop_last()) =~= Seq::<Seq<char>>::empty());
            assert(flatten_groups(gs) =~= names);
            assert(gs.drop_last().map_values(|g: Seq<Seq<char>>| group_line(g)) =~= Seq::<Seq<char>>::empty());
            assert(Seq::<char>::empty() + n =~= n);
            gs
        } else {
            let (lines, cur, len) = layout(d, avail);
            let last = gs0.last();
            if len + byte_len(n) + 2 > avail && cur.len() > 0 {
                let gs = gs0.push(seq![n]);
                assert(gs.drop_last() =~= gs0);
                assert(flatten_groups(gs) =~= names);
                assert(gs0.map_values(|g: Seq<Seq<char>>| group_line(g))
                    =~= gs0.drop_last().map_values(|g: Seq<Seq<char>>| group_line(g)).push(group_line(last)));
                assert(trim(cur) == group_line(last));
                assert(Seq::<char>::empty() + n =~= n);
                assert forall|j: int| 0 <= j < gs.len() - 1 implies group_len(#[trigger] gs[j]) + 2 + byte_len(gs[j + 1][0]) > avail by {
                    if j < gs0.len() - 1 {
                        assert(gs[j] == gs0[j] && gs[j + 1] == gs0[j + 1]);
                    } else {
                        assert(gs[j] == last);
                        assert(gs[j + 1] == seq![n]);
                    }
                }
                assert forall|j: int| 0 <= j < gs.len() && gs[j].len() >= 2 implies group_len(#[trigger] gs[j]) <= avail by {
                    if j < gs0.len() {
                        assert(gs[j] == gs0[j]);
                    }
                }
                gs
            } else {
                let g = last.push(n);
                let k = gs0.len() - 1;
                let gs = gs0.update(k, g);
                assert(g.drop_last() =~= last);
                assert(gs.drop_last() =~= gs0.drop_last());
                assert(gs0 =~= gs0.drop_last().push(last));
                assert(flatten_groups(gs) == flatten_groups(gs0.drop_last()) + g);
                assert(flatten_groups(gs0) == flatten_groups(gs0.drop_last()) + last);
                assert(flatten_groups(gs0.drop_last()) + g =~= (flatten_groups(gs0.drop_last()) + last).push(n));
                assert(names =~= d.push(n));
                assert(flatten_groups(gs) =~= names);
                assert(joined(g, "  "@) == joined(last, "  "@) + "  "@ + n);
                assert(group_len(g) == group_len(last) + 2 + byte_len(n));
                assert forall|j: int| 0 <= j < gs.len() - 1 implies group_len(#[trigger] gs[j]) + 2 + byte_len(gs[j + 1][0]) > avail by {
                    assert(gs[j] == gs0[j]);
                    if j + 1 == k {
                        assert(gs[j + 1][0] == g[0]);
                        assert(g[0] == last[0]);
                    } else {
                        assert(gs[j + 1] == gs0[j + 1]);
                    }
                }
                assert forall|j: int| 0 <= j < gs.len() && gs[j].len() >= 2 implies group_len(#[trigger] gs[j]) <= avail by {
                    if j < k {
                        assert(gs[j] == gs0[j]);
                    }
                }
                assert forall|j: int| 0 <= j < gs.len() implies (#[trigger] gs[j]).len() > 0 by {
                    if j < k {
                        assert(gs[j] == gs0[j]);
                    }
                }
                gs
            }
        }
    }
}

/// Law: laid out in lines, package names keep their order and stand two
/// spaces apart on each line; every line of two or more names fits in the
/// width left after the 14 columns of backend prefix and indentation; and a
/// line breaks only where its next name would not fit. (For a terminal
/// wide enough for lines, and names that are not empty.)
pub proof fn law_layout_lines(names: Seq<Seq<char>>, width: int)
    requires
        width >= 34,
        forall|i: int| 0 <= i < names.len() ==> (#[trigger] names[i]).len() > 0,
    ensures
        exists|gs: Seq<Seq<Seq<char>>>| #![trigger flatten_groups(gs)] {
            let (lines, cur, _) = layout(names, width - 14);
            let all = if cur.len() > 0 { lines.push(trim(cur)) } else { lines };
            &&& flatten_groups(gs) == names
            &&& all == gs.map_values(|g: Seq<Seq<char>>| group_line(g))
            &&& forall|j: int| 0 <= j < gs.len() ==> (#[trigger] gs[j]).len() > 0
            &&& forall|j: int| 0 <= j < gs.len() && gs[j].len() >= 2 ==> group_len(#[trigger] gs[j]) <= width - 14
            &&& forall|j: int| 0 <= j < gs.len() - 1 ==> group_len(#[trigger] gs[j]) + 2 + byte_len(gs[j + 1][0]) > width - 14
        },
{
    let avail = width - 14;
    let gs = lemma_layout_groups(names, avail);
    let (lines, cur, _) = layout(names, avail);
    if names.len() == 0 {
        assert(gs.map_values(|g: Seq<Seq<char>>| group_line(g)) =~= Seq::<Seq<char>>::empty());
    } else {
        assert(gs =~= gs.drop_last().push(gs.last()));
        assert(gs.map_values(|g: Seq<Seq<char>>| group_line(g))
            =~= gs.drop_last().map_values(|g: Seq<Seq<char>>| group_line(g)).push(group_line(gs.last())));
    }
}

} // verus!
