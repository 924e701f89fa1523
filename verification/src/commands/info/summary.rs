//! The quick status overview: how far the state has drifted from the
//! configuration.
use vstd::prelude::*;
use crate::model::{MergedConfig, PackageMap, PackageState, declared_ids, package_label};
use crate::sorting::keys_of;
use crate::text::{same_text, views};

verus! {

/// What the overview shows.
#[derive(Clone, Debug)]
pub struct SummaryStats {
    /// Recorded packages.
    pub total: usize,
    /// Declared packages whose `backend:name` is not a state key.
    pub drift_install: usize,
    /// State keys that no declared package's `backend:name` gives.
    pub drift_remove: usize,
    /// For `aur`, `flatpak`, `soar`, `npm`, `cargo`, `pip` in that order,
    /// the number of recorded packages of that backend, when there are any.
    pub backend_lines: Vec<(String, usize)>,
    /// The last sync is more than seven days old.
    pub stale: bool,
}

/// How many labels are not among the keys.
pub open spec fn missing_count(labels: Seq<Seq<char>>, keys: Set<Seq<char>>) -> nat
    decreases labels.len(),
{
    if labels.len() == 0 {
        0
    } else {
        missing_count(labels.drop_last(), keys) + if keys.contains(labels.last()) { 0nat } else { 1nat }
    }
}

/// How many recorded packages have backend `b`.
pub open spec fn state_backend_count(entries: Seq<(String, PackageState)>, b: Seq<char>) -> nat
    decreases entries.len(),
{
    if entries.len() == 0 {
        0
    } else {
        state_backend_count(entries.drop_last(), b) + if entries.last().1.backend@ == b { 1nat } else { 0nat }
    }
}

/// The labels `backend:name` of the declared packages.
pub open spec fn declared_labels(config: MergedConfig) -> Seq<Seq<char>> {
    declared_ids(config.packages@).map_values(|id: (Seq<char>, Seq<char>)| package_label(id))
}

/// The backends the overview lists, in order.
pub open spec fn listed_backends() -> Seq<Seq<char>> {
    seq!["aur"@, "flatpak"@, "soar"@, "npm"@, "cargo"@, "pip"@]
}

/// The backends among `bs` with recorded packages, in order, with their counts.
pub open spec fn backend_lines_of(bs: Seq<Seq<char>>, entries: Seq<(String, PackageState)>) -> Seq<(Seq<char>, nat)>
    decreases bs.len(),
{
    if bs.len() == 0 {
        Seq::empty()
    } else {
        let rest = backend_lines_of(bs.drop_last(), entries);
        let n = state_backend_count(entries, bs.last());
        if n > 0 {
            rest.push((bs.last(), n))
        } else {
            rest
        }
    }
}

/// The views of counted lines.
pub open spec fn count_lines(v: Seq<(String, usize)>) -> Seq<(Seq<char>, nat)> {
    v.map_values(|l: (String, usize)| (l.0@, l.1 as nat))
}

/// Whether a text is among the strings.
fn among(v: &Vec<String>, s: &str) -> (r: bool)
    ensures
        r == views(v@).to_set().contains(s@),
{
    let mut i: usize = 0;
    while i < v.len()
        invariant
            i <= v@.len(),
            forall|j: int| 0 <= j < i ==> v@[j]@ != s@,
        decreases v.len() - i,
    {
        if same_text(v[i].as_str(), s) {
            assert(views(v@)[i as int] == s@);
            return true;
        }
        i += 1;
    }
    assert forall|j: int| 0 <= j < views(v@).len() implies views(v@)[j] != s@ by {
        assert(views(v@)[j] == v@[j]@);
    }
    false
}

/// Counts the recorded packages of a backend.
fn count_backend(entries: &Vec<(String, PackageState)>, b: &str) -> (r: usize)
    ensures
        r == state_backend_count(entries@, b@),
{
    let mut n: usize = 0;
    let mut i: usize = 0;
    while i < entries.len()
        invariant
            i <= entries@.len(),
            n == state_backend_count(entries@.take(i as int), b@),
            n <= i,
        decreases entries.len() - i,
    {
        assert(entries@.take(i + 1).drop_last() =~= entries@.take(i as int));
        if same_text(entries[i].1.backend.name(), b) {
            n += 1;
        }
        i += 1;
    }
    assert(entries@.take(entries.len() as int) =~= entries@);
    n
}

/// What the status overview displays: the state against the configuration
/// (when one loaded), given the whole days since the last sync.
pub fn display_summary(state: &PackageMap, config: Option<&MergedConfig>, days_since_sync: i64) -> (r: SummaryStats)
    ensures
        r.total == state@.len(),
        r.stale == (days_since_sync > 7),
        match config {
            Some(c) => r.drift_install == missing_count(declared_labels(*c), keys_of(state@).to_set())
                && r.drift_remove == missing_count(keys_of(state@), declared_labels(*c).to_set()),
            None => r.drift_install == 0 && r.drift_remove == 0,
        },
        count_lines(r.backend_lines@) == backend_lines_of(listed_backends(), state@),
{
    let entries = state.entries();
    let mut keys: Vec<String> = Vec::new();
    let mut i: usize = 0;
    while i < entries.len()
        invariant
            i <= entries@.len(),
            views(keys@) == keys_of(entries@).take(i as int),
        decreases entries.len() - i,
    {
        let ghost before = views(keys@);
        keys.push(entries[i].0.clone());
        assert(views(keys@) =~= before.push(entries@[i as int].0@));
        assert(keys_of(entries@).take(i + 1) =~= before.push(entries@[i as int].0@));
        i += 1;
    }
    assert(keys_of(entries@).take(entries.len() as int) =~= keys_of(entries@));
    let (drift_install, drift_remove) = match config {
        Some(c) => {
            let ghost dl = declared_labels(*c);
            let mut labels: Vec<String> = Vec::new();
            let mut install: usize = 0;
            let mut k: usize = 0;
            while k < c.packages.len()
                invariant
                    k <= c.packages@.len(),
                    dl == declared_labels(*c),
                    views(keys@) == keys_of(state@),
                    views(labels@) == dl.take(k as int),
                    install == missing_count(dl.take(k as int), keys_of(state@).to_set()),
                    install <= k,
                decreases c.packages.len() - k,
            {
                let label = c.packages[k].id.to_string();
                assert(dl.take(k + 1).drop_last() =~= dl.take(k as int));
                assert(dl[k as int] == label@);
                if !among(&keys, label.as_str()) {
                    install += 1;
                }
                let ghost before = views(labels@);
                labels.push(label);
                assert(views(labels@) =~= before.push(dl[k as int]));
                k += 1;
            }
            assert(dl.take(c.packages.len() as int) =~= dl);
            let ghost ks = keys_of(state@);
            let mut remove: usize = 0;
            let mut q: usize = 0;
            while q < keys.len()
                invariant
                    q <= keys@.len(),
                    views(keys@) == ks,
                    views(labels@) == dl,
                    remove == missing_count(ks.take(q as int), dl.to_set()),
                    remove <= q,
                decreases keys.len() - q,
            {
                assert(ks.take(q + 1).drop_last() =~= ks.take(q as int));
                assert(ks[q as int] == keys@[q as int]@);
                if !among(&labels, keys[q].as_str()) {
                    remove += 1;
                }
                q += 1;
            }
            assert(ks.take(keys.len() as int) =~= ks);
            (install, remove)
        },
        None => (0, 0),
    };
    let names: [&str; 6] = ["aur", "flatpak", "soar", "npm", "cargo", "pip"];
    let mut lines: Vec<(String, usize)> = Vec::new();
    let ghost lb = listed_backends();
    let mut j: usize = 0;
    while j < 6
        invariant
            j <= 6,
            entries@ == state@,
            lb == listed_backends(),
            names@.len() == 6,
            forall|t: int| 0 <= t < 6 ==> #[trigger] names@[t]@ == lb[t],
            count_lines(lines@) == backend_lines_of(lb.take(j as int), state@),
        decreases 6 - j,
    {
        let n = count_backend(entries, names[j]);
        let ghost before = count_lines(lines@);
        assert(lb.take(j + 1).drop_last() =~= lb.take(j as int));
        assert(lb.take(j + 1).last() == lb[j as int]);
        if n > 0 {
            lines.push((crate::text::owned(names[j]), n));
            assert(count_lines(lines@) =~= before.push((lb[j as int], n as nat)));
        }
        j += 1;
    }
    assert(lb.take(6) =~= lb);
    SummaryStats {
        total: entries.len(),
        drift_install,
        drift_remove,
        backend_lines: lines,
        stale: days_since_sync > 7,
    }
}

} // verus!
