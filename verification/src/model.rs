//! The data the commands work on: errors, backends, package identities and
//! the recorded package state.
use vstd::prelude::*;
use crate::outside::{lowercase, to_lowercase};
use crate::sorting::{keys_of, lemma_map_multiset, sort_keyed};
use crate::text::sorted;
use crate::text::{concat2, concat3, owned, same_text, views};

verus! {

broadcast use vstd::seq_lib::group_to_multiset_ensures;

/// Errors reported by the commands.
#[derive(Debug)]
pub enum DeclarchError {
    /// A configuration problem, with its message.
    ConfigError(String),
    /// Any other failure, with its message.
    Other(String),
    /// A query or target that matched nothing.
    TargetNotFound(String),
    /// The root configuration file is missing at the given path.
    ConfigNotFound(String),
}

impl DeclarchError {
    /// The text that describes the error.
    pub open spec fn message(self) -> Seq<char> {
        match self {
            DeclarchError::ConfigError(m) => m@,
            DeclarchError::Other(m) => m@,
            DeclarchError::TargetNotFound(t) => "Target not found: "@ + t@,
            DeclarchError::ConfigNotFound(p) => "Configuration file not found: "@ + p@,
        }
    }

    /// The text that describes the error.
    pub fn to_string(&self) -> (r: String)
        ensures
            r@ == self.message(),
    {
        match self {
            DeclarchError::ConfigError(m) => m.clone(),
            DeclarchError::Other(m) => m.clone(),
            DeclarchError::TargetNotFound(t) => concat2("Target not found: ", t.as_str()),
            DeclarchError::ConfigNotFound(p) => concat2("Configuration file not found: ", p.as_str()),
        }
    }
}

/// A package manager backend, known by its lower-cased name.
#[derive(Clone, Debug)]
pub struct Backend {
    pub name: String,
}

impl View for Backend {
    type V = Seq<char>;

    open spec fn view(&self) -> Seq<char> {
        self.name@
    }
}

impl Backend {
    /// The backend named `s` (names are compared lower-cased).
    pub fn from(s: &str) -> (b: Backend)
        ensures
            b@ == lowercase(s@),
            crate::text::is_ascii_text(s@) ==> b@ == crate::text::ascii_lowered(s@),
    {
        Backend { name: to_lowercase(s) }
    }

    /// The backend's name.
    pub fn name(&self) -> (r: &str)
        ensures
            r@ == self@,
    {
        self.name.as_str()
    }

    /// The backend's name as an owned string.
    pub fn to_string(&self) -> (r: String)
        ensures
            r@ == self@,
    {
        self.name.clone()
    }

    /// A copy of this backend.
    pub fn duplicate(&self) -> (r: Backend)
        ensures
            r@ == self@,
    {
        Backend { name: self.name.clone() }
    }

    /// Whether two backends have the same name.
    pub fn same_as(&self, other: &Backend) -> (r: bool)
        ensures
            r == (self@ == other@),
    {
        same_text(self.name.as_str(), other.name.as_str())
    }
}

/// A declared package: its backend and its name.
#[derive(Clone, Debug)]
pub struct PackageId {
    pub backend: Backend,
    pub name: String,
}

impl View for PackageId {
    type V = (Seq<char>, Seq<char>);

    open spec fn view(&self) -> (Seq<char>, Seq<char>) {
        (self.backend@, self.name@)
    }
}

/// The printed form `backend:name` of a package identity.
pub open spec fn package_label(id: (Seq<char>, Seq<char>)) -> Seq<char> {
    id.0 + ":"@ + id.1
}

impl PackageId {
    /// The package `name` of `backend`.
    pub fn new(backend: &str, name: &str) -> (r: PackageId)
        ensures
            r@ == (lowercase(backend@), name@),
    {
        PackageId { backend: Backend::from(backend), name: owned(name) }
    }

    /// The printed form `backend:name`.
    pub fn to_string(&self) -> (r: String)
        ensures
            r@ == package_label(self@),
    {
        concat3(self.backend.name(), ":", self.name.as_str())
    }

    /// A copy of this identity.
    pub fn duplicate(&self) -> (r: PackageId)
        ensures
            r@ == self@,
    {
        PackageId { backend: self.backend.duplicate(), name: self.name.clone() }
    }

    /// Whether two identities name the same package of the same backend.
    pub fn same_as(&self, other: &PackageId) -> (r: bool)
        ensures
            r == (self@ == other@),
    {
        self.backend.same_as(&other.backend) && same_text(self.name.as_str(), other.name.as_str())
    }
}

/// What the state records about one installed package.
#[derive(Clone, Debug)]
pub struct PackageState {
    pub backend: Backend,
    pub config_name: String,
    pub provides_name: String,
    pub actual_package_name: Option<String>,
    pub version: Option<String>,
    pub install_reason: Option<String>,
    pub source_module: Option<String>,
}

impl PackageState {
    /// A record of `config_name` installed through `backend`, with no other details.
    pub fn new(backend: &str, config_name: &str) -> (r: PackageState)
        ensures
            r.backend@ == lowercase(backend@),
            r.config_name@ == config_name@,
            r.provides_name@ == config_name@,
            r.actual_package_name is None,
            r.version is None,
            r.install_reason is None,
            r.source_module is None,
    {
        PackageState {
            backend: Backend::from(backend),
            config_name: owned(config_name),
            provides_name: owned(config_name),
            actual_package_name: None,
            version: None,
            install_reason: None,
            source_module: None,
        }
    }

    /// The identity `(backend, config name)` this record stands for.
    pub open spec fn id(self) -> (Seq<char>, Seq<char>) {
        (self.backend@, self.config_name@)
    }

    /// The identity `(backend, config name)` this record stands for.
    pub fn package_id(&self) -> (r: PackageId)
        ensures
            r@ == self.id(),
    {
        PackageId { backend: self.backend.duplicate(), name: self.config_name.clone() }
    }
}

/// The state's packages, keyed by their state key; no key occurs twice.
pub struct PackageMap {
    entries: Vec<(String, PackageState)>,
}

impl View for PackageMap {
    type V = Seq<(String, PackageState)>;

    closed spec fn view(&self) -> Seq<(String, PackageState)> {
        self.entries@
    }
}

/// The set of keys of a package map's entries.
pub open spec fn key_set(entries: Seq<(String, PackageState)>) -> Set<Seq<char>> {
    keys_of(entries).to_set()
}

/// The record stored under `key`, if there is one (the last entry with that
/// key; keys of a package map are distinct).
pub open spec fn lookup(entries: Seq<(String, PackageState)>, key: Seq<char>) -> Option<PackageState>
    decreases entries.len(),
{
    if entries.len() == 0 {
        None
    } else if entries.last().0@ == key {
        Some(entries.last().1)
    } else {
        lookup(entries.drop_last(), key)
    }
}

/// Where keys are distinct, the record under an entry's key is that entry's.
pub proof fn lemma_lookup_at(entries: Seq<(String, PackageState)>, k: int)
    requires
        keys_of(entries).no_duplicates(),
        0 <= k < entries.len(),
    ensures
        lookup(entries, entries[k].0@) == Some(entries[k].1),
    decreases entries.len(),
{
    let n = entries.len() - 1;
    if k < n {
        let d = entries.drop_last();
        assert(keys_of(entries)[k] == entries[k].0@);
        assert(keys_of(entries)[n] == entries[n].0@);
        assert(keys_of(d).no_duplicates()) by {
            assert forall|a: int, b: int| 0 <= a < keys_of(d).len() && 0 <= b < keys_of(d).len() && a != b
                implies keys_of(d)[a] != keys_of(d)[b] by {
                assert(keys_of(d)[a] == keys_of(entries)[a] && keys_of(d)[b] == keys_of(entries)[b]);
            }
        }
        lemma_lookup_at(d, k);
        assert(d[k] == entries[k]);
    }
}

/// A key that stores a record is the key of an entry holding it.
pub proof fn lemma_lookup_found(entries: Seq<(String, PackageState)>, key: Seq<char>)
    requires
        lookup(entries, key) is Some,
    ensures
        exists|i: int| 0 <= i < entries.len() && #[trigger] entries[i].0@ == key
            && lookup(entries, key) == Some(entries[i].1),
        key_set(entries).contains(key),
    decreases entries.len(),
{
    let n = entries.len() - 1;
    if entries.last().0@ == key {
        assert(entries[n].0@ == key);
        assert(keys_of(entries)[n] == key);
    } else {
        let d = entries.drop_last();
        lemma_lookup_found(d, key);
        let i = choose|i: int| 0 <= i < d.len() && #[trigger] d[i].0@ == key && lookup(d, key) == Some(d[i].1);
        assert(entries[i] == d[i]);
        assert(keys_of(entries)[i] == key);
    }
}

/// A key that no entry has stores nothing.
pub proof fn lemma_lookup_absent(entries: Seq<(String, PackageState)>, key: Seq<char>)
    requires
        !key_set(entries).contains(key),
    ensures
        lookup(entries, key) is None,
    decreases entries.len(),
{
    if entries.len() > 0 {
        let d = entries.drop_last();
        assert(keys_of(entries)[entries.len() - 1] == entries.last().0@);
        assert(!key_set(d).contains(key)) by {
            if key_set(d).contains(key) {
                let j = choose|j: int| 0 <= j < keys_of(d).len() && keys_of(d)[j] == key;
                assert(keys_of(entries)[j] == key);
            }
        }
        lemma_lookup_absent(d, key);
    }
}

/// The entries whose keys are not among `keys`, in order.
pub open spec fn kept_entries(entries: Seq<(String, PackageState)>, keys: Seq<Seq<char>>) -> Seq<(String, PackageState)>
    decreases entries.len(),
{
    if entries.len() == 0 {
        Seq::empty()
    } else {
        let rest = kept_entries(entries.drop_last(), keys);
        if keys.contains(entries.last().0@) {
            rest
        } else {
            rest.push(entries.last())
        }
    }
}

impl PackageMap {
    #[verifier::type_invariant]
    spec fn keys_unique(self) -> bool {
        keys_of(self.entries@).no_duplicates()
    }

    /// An empty map.
    pub fn new() -> (m: PackageMap)
        ensures
            m@.len() == 0,
    {
        PackageMap { entries: Vec::new() }
    }

    /// The entries in insertion order; their keys are pairwise distinct.
    pub fn entries(&self) -> (r: &Vec<(String, PackageState)>)
        ensures
            r@ == self@,
            keys_of(r@).no_duplicates(),
    {
        proof {
            use_type_invariant(self);
        }
        &self.entries
    }

    /// Number of entries.
    pub fn len(&self) -> (n: usize)
        ensures
            n == self@.len(),
    {
        self.entries.len()
    }

    /// The record under `key`, if there is one.
    pub fn get(&self, key: &str) -> (r: Option<&PackageState>)
        ensures
            match r {
                Some(v) => lookup(self@, key@) == Some(*v),
                None => lookup(self@, key@) is None && !key_set(self@).contains(key@),
            },
    {
        proof {
            use_type_invariant(self);
        }
        let mut i: usize = 0;
        while i < self.entries.len()
            invariant
                i <= self.entries@.len(),
                keys_of(self@).no_duplicates(),
                forall|j: int| 0 <= j < i ==> self.entries@[j].0@ != key@,
            decreases self.entries.len() - i,
        {
            if same_text(self.entries[i].0.as_str(), key) {
                proof {
                    lemma_lookup_at(self@, i as int);
                }
                return Some(&self.entries[i].1);
            }
            i += 1;
        }
        proof {
            if key_set(self@).contains(key@) {
                let j = choose|j: int| 0 <= j < keys_of(self@).len() && keys_of(self@)[j] == key@;
                assert(self.entries@[j].0@ == key@);
            }
            lemma_lookup_absent(self@, key@);
        }
        None
    }

    /// Removes the records under the given keys (keys not recorded are
    /// ignored); the others keep their order. Gives how many were removed.
    pub fn remove_keys(&mut self, keys: &Vec<String>) -> (removed: usize)
        ensures
            final(self)@ == kept_entries(old(self)@, views(keys@)),
            removed == old(self)@.len() - final(self)@.len(),
    {
        proof {
            use_type_invariant(&*self);
        }
        let ghost old_entries = self.entries@;
        let ghost ks = views(keys@);
        let total = self.entries.len();
        let mut rest: Vec<(String, PackageState)> = Vec::new();
        std::mem::swap(&mut rest, &mut self.entries);
        assert(rest@.skip(0) =~= old_entries);
        let mut out: Vec<(String, PackageState)> = Vec::new();
        let mut i: usize = 0;
        while i < total
            invariant
                i <= total,
                total == old_entries.len(),
                rest@ == old_entries.skip(i as int),
                ks == views(keys@),
                keys_of(old_entries).no_duplicates(),
                out@ == kept_entries(old_entries.take(i as int), ks),
                out@.len() <= i,
                keys_of(out@).no_duplicates(),
                forall|j: int| 0 <= j < out@.len() ==> exists|k: int| 0 <= k < i && #[trigger] out@[j] == old_entries[k],
            decreases total - i,
        {
            assert(old_entries.take(i + 1).drop_last() =~= old_entries.take(i as int));
            assert(old_entries.take(i + 1).last() == old_entries[i as int]);
            let e = rest.remove(0);
            assert(e == old_entries[i as int]);
            assert(rest@ =~= old_entries.skip(i + 1));
            let mut drop = false;
            let mut k: usize = 0;
            while k < keys.len()
                invariant
                    k <= keys@.len(),
                    ks == views(keys@),
                    drop == exists|m: int| 0 <= m < k && ks[m] == e.0@,
                decreases keys.len() - k,
            {
                if same_text(keys[k].as_str(), e.0.as_str()) {
                    assert(ks[k as int] == keys@[k as int]@);
                    drop = true;
                }
                k += 1;
            }
            assert(drop == ks.contains(e.0@)) by {
                if ks.contains(e.0@) {
                    let m = choose|m: int| 0 <= m < ks.len() && ks[m] == e.0@;
                }
            }
            if !drop {
                let ghost before = out@;
                out.push(e);
                proof {
                    assert(out@ =~= before.push(old_entries[i as int]));
                    assert(keys_of(out@).no_duplicates()) by {
                        assert forall|a: int, b: int| 0 <= a < keys_of(out@).len() && 0 <= b < keys_of(out@).len() && a != b
                            implies keys_of(out@)[a] != keys_of(out@)[b] by {
                            if a < before.len() && b < before.len() {
                                assert(keys_of(before)[a] != keys_of(before)[b]);
                            } else {
                                let x = if a < before.len() { a } else { b };
                                let k0 = choose|k0: int| 0 <= k0 < i && #[trigger] before[x] == old_entries[k0];
                                assert(keys_of(old_entries)[k0] != keys_of(old_entries)[i as int]);
                            }
                        }
                    }
                    assert forall|j: int| 0 <= j < out@.len() implies exists|k0: int| 0 <= k0 < i + 1 && #[trigger] out@[j] == old_entries[k0] by {
                        if j < before.len() {
                            let k0 = choose|k0: int| 0 <= k0 < i && #[trigger] before[j] == old_entries[k0];
                            assert(out@[j] == old_entries[k0]);
                        } else {
                            assert(out@[j] == old_entries[i as int]);
                        }
                    }
                }
            }
            i += 1;
        }
        assert(old_entries.take(total as int) =~= old_entries);
        let n = total - out.len();
        self.entries = out;
        n
    }

    /// Sets the record under `key`, replacing the one there was.
    pub fn insert(&mut self, key: String, value: PackageState)
        ensures
            key_set(final(self)@) == key_set(old(self)@).insert(key@),
            key_set(old(self)@).contains(key@) ==> exists|i: int|
                0 <= i < old(self)@.len() && #[trigger] old(self)@[i].0@ == key@
                    && final(self)@ == old(self)@.update(i, (key, value)),
            !key_set(old(self)@).contains(key@) ==> final(self)@ == old(self)@.push((key, value)),
    {
        proof {
            use_type_invariant(&*self);
        }
        let ghost old_entries = self.entries@;
        let mut i: usize = 0;
        while i < self.entries.len()
            invariant
                i <= self.entries@.len(),
                self.entries@ == old_entries,
                old(self)@ == old_entries,
                keys_of(old_entries).no_duplicates(),
                forall|j: int| 0 <= j < i ==> self.entries@[j].0@ != key@,
            decreases self.entries@.len() - i,
        {
            if same_text(self.entries[i].0.as_str(), key.as_str()) {
                let ghost k = key@;
                let mut entries = Vec::new();
                std::mem::swap(&mut entries, &mut self.entries);
                entries.set(i, (key, value));
                proof {
                    assert(keys_of(entries@) =~= keys_of(old_entries).update(i as int, k));
                    assert(keys_of(entries@).to_set() =~= keys_of(old_entries).to_set().insert(k))
                        by {
                        assert(keys_of(old_entries)[i as int] == k);
                        assert forall|x: Seq<char>| #[trigger]
                            keys_of(old_entries).to_set().insert(k).contains(
                                x,
                            ) implies keys_of(entries@).to_set().contains(x) by {
                            if x != k {
                                let j = choose|j: int|
                                    0 <= j < keys_of(old_entries).len() && keys_of(
                                        old_entries,
                                    )[j] == x;
                                assert(keys_of(entries@)[j] == x);
                            } else {
                                assert(keys_of(entries@)[i as int] == x);
                            }
                        }
                        assert forall|x: Seq<char>| #[trigger]
                            keys_of(entries@).to_set().contains(
                                x,
                            ) implies keys_of(old_entries).to_set().insert(k).contains(x) by {
                            let j = choose|j: int|
                                0 <= j < keys_of(entries@).len() && keys_of(entries@)[j] == x;
                            if j != i {
                                assert(keys_of(old_entries)[j] == x);
                            }
                        }
                    }
                    assert(keys_of(entries@).no_duplicates()) by {
                        assert forall|a: int, b: int|
                            0 <= a < keys_of(entries@).len() && 0 <= b < keys_of(entries@).len()
                                && a != b implies keys_of(entries@)[a] != keys_of(entries@)[b] by {
                            if a != i && b != i {
                                assert(keys_of(old_entries)[a] != keys_of(old_entries)[b]);
                            } else if a == i {
                                assert(keys_of(old_entries)[a] == k);
                                assert(keys_of(old_entries)[a] != keys_of(old_entries)[b]);
                            } else {
                                assert(keys_of(old_entries)[b] == k);
                                assert(keys_of(old_entries)[a] != keys_of(old_entries)[b]);
                            }
                        }
                    }
                    assert(entries@[i as int].0@ == k);
                    assert(key_set(old_entries).contains(k)) by {
                        assert(keys_of(old_entries)[i as int] == k);
                    }
                }
                self.entries = entries;
                return;
            }
            i += 1;
        }
        let ghost k = key@;
        let mut entries = Vec::new();
        std::mem::swap(&mut entries, &mut self.entries);
        entries.push((key, value));
        proof {
            assert(keys_of(entries@) =~= keys_of(old_entries).push(k));
            keys_of(old_entries).lemma_push_to_set_commute(k);
            assert(keys_of(entries@).no_duplicates()) by {
                assert forall|a: int, b: int|
                    0 <= a < keys_of(entries@).len() && 0 <= b < keys_of(entries@).len() && a
                        != b implies keys_of(entries@)[a] != keys_of(entries@)[b] by {
                    if a < old_entries.len() && b < old_entries.len() {
                        assert(keys_of(old_entries)[a] != keys_of(old_entries)[b]);
                    } else if a < old_entries.len() {
                        assert(old_entries[a].0@ != k);
                    } else {
                        assert(old_entries[b].0@ != k);
                    }
                }
            }
            assert(entries@[entries@.len() - 1].0@ == k);
        }
        self.entries = entries;
    }
}

/// Law: after setting a record under `key`, reading `key` gives that
/// record, reading any other key gives what it gave before, and keys stay
/// distinct. (`before` and `after` are a map's entries around `insert`.)
pub proof fn law_read_after_insert(
    before: Seq<(String, PackageState)>,
    after: Seq<(String, PackageState)>,
    key: String,
    value: PackageState,
)
    requires
        keys_of(before).no_duplicates(),
        key_set(before).contains(key@) ==> exists|i: int|
            0 <= i < before.len() && #[trigger] before[i].0@ == key@ && after == before.update(i, (key, value)),
        !key_set(before).contains(key@) ==> after == before.push((key, value)),
    ensures
        lookup(after, key@) == Some(value),
        forall|k: Seq<char>| k != key@ ==> lookup(after, k) == lookup(before, k),
        keys_of(after).no_duplicates(),
{
    if key_set(before).contains(key@) {
        let i = choose|i: int|
            0 <= i < before.len() && #[trigger] before[i].0@ == key@ && after == before.update(i, (key, value));
        assert(keys_of(after) =~= keys_of(before)) by {
            assert(keys_of(before)[i] == key@);
        }
        lemma_lookup_at(after, i);
        assert forall|k: Seq<char>| k != key@ implies lookup(after, k) == lookup(before, k) by {
            lemma_lookup_same_elsewhere(before, i, (key, value), k);
        }
    } else {
        assert(keys_of(after) =~= keys_of(before).push(key@));
        assert(keys_of(after).no_duplicates()) by {
            assert forall|a: int, b: int| 0 <= a < keys_of(after).len() && 0 <= b < keys_of(after).len() && a != b
                implies keys_of(after)[a] != keys_of(after)[b] by {
                if a < before.len() && b < before.len() {
                    assert(keys_of(before)[a] != keys_of(before)[b]);
                } else if a < before.len() {
                    assert(keys_of(before).to_set().contains(keys_of(before)[a]));
                } else {
                    assert(keys_of(before).to_set().contains(keys_of(before)[b]));
                }
            }
        }
        lemma_lookup_at(after, before.len() as int);
        assert(after.drop_last() =~= before);
    }
}

/// Replacing one entry by another with the same key leaves what other keys
/// store.
proof fn lemma_lookup_same_elsewhere(
    entries: Seq<(String, PackageState)>,
    i: int,
    e: (String, PackageState),
    k: Seq<char>,
)
    requires
        0 <= i < entries.len(),
        entries[i].0@ == e.0@,
        k != e.0@,
    ensures
        lookup(entries.update(i, e), k) == lookup(entries, k),
    decreases entries.len(),
{
    let u = entries.update(i, e);
    let n = entries.len() - 1;
    if i == n {
        assert(u.drop_last() =~= entries.drop_last());
    } else {
        assert(u.drop_last() =~= entries.drop_last().update(i, e));
        lemma_lookup_same_elsewhere(entries.drop_last(), i, e, k);
    }
}

/// A declared package and the configuration files that declare it.
#[derive(Clone, Debug)]
pub struct DeclaredPackage {
    pub id: PackageId,
    pub sources: Vec<String>,
}

/// The merged configuration, as far as the commands read it.
#[derive(Clone, Debug)]
pub struct MergedConfig {
    /// The declared packages with the files declaring them; the loader keeps
    /// each identity once, and functions whose results rely on that say so.
    pub packages: Vec<DeclaredPackage>,
    /// Names of the backends the configuration defines.
    pub backends: Vec<String>,
    /// The policy asks that duplicate declarations be errors.
    pub duplicate_is_error: bool,
    /// The policy asks that cross-backend name conflicts be errors.
    pub conflict_is_error: bool,
    /// The policy asks that every package name its backend.
    pub require_backend: bool,
    /// Lifecycle hooks are configured.
    pub has_hooks: bool,
    /// The `enable-hooks` experiment is switched on.
    pub hooks_experiment_enabled: bool,
}

/// The identities of the declared packages, in order.
pub open spec fn declared_ids(ps: Seq<DeclaredPackage>) -> Seq<(Seq<char>, Seq<char>)> {
    ps.map_values(|p: DeclaredPackage| p.id@)
}

/// The identity views of a sequence of package identities.
pub open spec fn id_views(ids: Seq<PackageId>) -> Seq<(Seq<char>, Seq<char>)> {
    ids.map_values(|p: PackageId| p@)
}

/// The labels of a sequence of identity views.
pub open spec fn labels(ids: Seq<(Seq<char>, Seq<char>)>) -> Seq<Seq<char>> {
    ids.map_values(|p: (Seq<char>, Seq<char>)| package_label(p))
}

/// The identity views of labelled identities.
pub open spec fn pair_ids(s: Seq<(String, PackageId)>) -> Seq<(Seq<char>, Seq<char>)> {
    s.map_values(|p: (String, PackageId)| p.1@)
}

/// The identities ordered by their `backend:name` label (equal labels keep
/// their order).
pub fn sort_ids_by_label(ids: Vec<PackageId>) -> (r: Vec<PackageId>)
    ensures
        sorted(labels(id_views(r@))),
        id_views(r@).to_multiset() == id_views(ids@).to_multiset(),
{
    let ghost orig = ids@;
    let mut pairs: Vec<(String, PackageId)> = Vec::new();
    let mut rest = ids;
    while rest.len() > 0
        invariant
            pair_ids(pairs@) + id_views(rest@) == id_views(orig),
            forall|k: int| 0 <= k < pairs@.len() ==> #[trigger] pairs@[k].0@ == package_label(pairs@[k].1@),
        decreases rest@.len(),
    {
        let ghost before = rest@;
        let id = rest.remove(0);
        let ghost iv = id@;
        let label = id.to_string();
        let ghost pb = pair_ids(pairs@);
        pairs.push((label, id));
        proof {
            assert(before.remove(0) =~= rest@);
            assert(id_views(before) =~= seq![iv] + id_views(rest@));
            assert(pairs@[pairs@.len() - 1].1@ == iv);
            assert(pair_ids(pairs@) =~= pb.push(iv));
        }
    }
    assert(pair_ids(pairs@) =~= id_views(orig));
    let ghost unsorted = pairs@;
    let sorted_pairs = sort_keyed(pairs);
    let ghost sp = sorted_pairs@;
    proof {
        let f = |p: (String, PackageId)| p.1@;
        lemma_map_multiset(sp, unsorted, f);
        assert(pair_ids(sp) =~= sp.map_values(f));
        assert(pair_ids(unsorted) =~= unsorted.map_values(f));
        assert forall|k: int| 0 <= k < sp.len() implies #[trigger] sp[k].0@ == package_label(sp[k].1@) by {
            assert(sp.contains(sp[k]));
            assert(sp.to_multiset().count(sp[k]) > 0);
            assert(unsorted.to_multiset().count(sp[k]) > 0);
            assert(unsorted.contains(sp[k]));
        }
    }
    let mut out: Vec<PackageId> = Vec::new();
    assert(sorted_pairs@.len() == sorted_pairs.len());
    let mut rest2 = sorted_pairs;
    let mut taken: usize = 0;
    while rest2.len() > 0
        invariant
            taken + rest2@.len() == sp.len(),
            sp.len() <= usize::MAX,
            rest2@ == sp.skip(taken as int),
            id_views(out@) == pair_ids(sp.take(taken as int)),
        decreases rest2@.len(),
    {
        let ghost before = rest2@;
        let (_, id) = rest2.remove(0);
        let ghost ob = id_views(out@);
        proof {
            assert(before[0] == sp[taken as int]);
        }
        out.push(id);
        proof {
            assert(before.remove(0) =~= rest2@);
            assert(sp.skip(taken + 1) =~= rest2@);
            assert(pair_ids(sp.take(taken + 1)) =~= pair_ids(sp.take(taken as int)).push(sp[taken as int].1@));
            assert(id_views(out@) =~= ob.push(sp[taken as int].1@));
        }
        taken += 1;
    }
    proof {
        assert(sp.take(taken as int) =~= sp);
        assert(labels(id_views(out@)) =~= crate::sorting::keys_of(sp));
    }
    out
}

} // verus!
