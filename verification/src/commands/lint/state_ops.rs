//! Removing entries from the recorded state: which keys a request names.
use vstd::prelude::*;
use crate::model::{DeclarchError, PackageMap, PackageState};
use crate::outside::{lowercase, to_lowercase};
use crate::sorting::{keys_of, sorted_unique};
use crate::text::{
    chars_of, eq_chars, join, joined, owned, push_str, split_once, split_once_chars,
    starts_with_chars, string_of, strictly_sorted, views,
};

verus! {

/// How one requested id resolves against the state's keys.
pub enum KeyResolution {
    /// The id names exactly this key.
    Found(Seq<char>),
    /// The id names no key.
    Missing,
    /// A plain name that several backends' keys carry (these keys, in map order).
    Ambiguous(Seq<Seq<char>>),
}

/// `key` has the form `backend:name` with this `name` after its first colon.
pub open spec fn key_names(key: Seq<char>, name: Seq<char>) -> bool {
    match split_once(key, ':') {
        Some(parts) => parts.1 == name,
        None => false,
    }
}

/// The keys, in order, whose part after the first colon is `name`.
pub open spec fn plain_matches(keys: Seq<Seq<char>>, name: Seq<char>) -> Seq<Seq<char>>
    decreases keys.len(),
{
    if keys.len() == 0 {
        Seq::empty()
    } else {
        let rest = plain_matches(keys.drop_last(), name);
        if key_names(keys.last(), name) {
            rest.push(keys.last())
        } else {
            rest
        }
    }
}

/// How `id` resolves: `backend:name` ids name the key with the lower-cased
/// backend; with a backend filter a plain name names `filter:name`; otherwise
/// a plain name names the one key that carries it.
pub open spec fn resolve_id(keys: Seq<Seq<char>>, id: Seq<char>, filter: Option<Seq<char>>) -> KeyResolution {
    match split_once(id, ':') {
        Some(parts) => {
            let key = lowercase(parts.0) + ":"@ + parts.1;
            if keys.contains(key) {
                KeyResolution::Found(key)
            } else {
                KeyResolution::Missing
            }
        },
        None => match filter {
            Some(b) => {
                let key = b + ":"@ + id;
                if keys.contains(key) {
                    KeyResolution::Found(key)
                } else {
                    KeyResolution::Missing
                }
            },
            None => {
                let m = plain_matches(keys, id);
                if m.len() == 0 {
                    KeyResolution::Missing
                } else if m.len() == 1 {
                    KeyResolution::Found(m[0])
                } else {
                    KeyResolution::Ambiguous(m)
                }
            },
        },
    }
}

/// The report line for an ambiguous plain name.
pub open spec fn ambiguity_line(name: Seq<char>, candidates: Seq<Seq<char>>) -> Seq<char> {
    name + " matched multiple backends: "@ + joined(candidates, ", "@)
        + ". Use backend:name or --state-rm-backend."@
}

/// The report lines of the ambiguous ids, in request order.
pub open spec fn ambiguity_lines(keys: Seq<Seq<char>>, ids: Seq<Seq<char>>, filter: Option<Seq<char>>) -> Seq<Seq<char>>
    decreases ids.len(),
{
    if ids.len() == 0 {
        Seq::empty()
    } else {
        let rest = ambiguity_lines(keys, ids.drop_last(), filter);
        match resolve_id(keys, ids.last(), filter) {
            KeyResolution::Ambiguous(m) => rest.push(ambiguity_line(ids.last(), m)),
            _ => rest,
        }
    }
}

/// The ids, in request order, that name no key.
pub open spec fn missing_ids(keys: Seq<Seq<char>>, ids: Seq<Seq<char>>, filter: Option<Seq<char>>) -> Seq<Seq<char>>
    decreases ids.len(),
{
    if ids.len() == 0 {
        Seq::empty()
    } else {
        let rest = missing_ids(keys, ids.drop_last(), filter);
        match resolve_id(keys, ids.last(), filter) {
            KeyResolution::Missing => rest.push(ids.last()),
            _ => rest,
        }
    }
}

/// The keys the ids name.
pub open spec fn resolved_keys(keys: Seq<Seq<char>>, ids: Seq<Seq<char>>, filter: Option<Seq<char>>) -> Set<Seq<char>> {
    Set::new(|k: Seq<char>| exists|i: int| 0 <= i < ids.len() && #[trigger] resolve_id(keys, ids[i], filter) == KeyResolution::Found(k))
}

/// The keys of backend `b`: those that begin with `b:`.
pub open spec fn backend_keys(keys: Seq<Seq<char>>, b: Seq<char>) -> Set<Seq<char>> {
    keys.to_set().filter(|k: Seq<char>| (b + ":"@).is_prefix_of(k))
}

/// The lower-cased backend filter.
pub open spec fn lowered(filter: Option<&str>) -> Option<Seq<char>> {
    match filter {
        Some(b) => Some(lowercase(b@)),
        None => None,
    }
}

/// Resolution of one id, in executable form.
enum IdOutcome {
    Found(String),
    Missing,
    Ambiguous(Vec<String>),
}

impl IdOutcome {
    spec fn spec(self) -> KeyResolution {
        match self {
            IdOutcome::Found(k) => KeyResolution::Found(k@),
            IdOutcome::Missing => KeyResolution::Missing,
            IdOutcome::Ambiguous(v) => KeyResolution::Ambiguous(views(v@)),
        }
    }
}

fn has_key(entries: &Vec<(String, PackageState)>, key: &[char]) -> (r: bool)
    ensures
        r == keys_of(entries@).contains(key@),
{
    let mut i: usize = 0;
    while i < entries.len()
        invariant
            i <= entries.len(),
            forall|j: int| 0 <= j < i ==> keys_of(entries@)[j] != key@,
        decreases entries.len() - i,
    {
        let k = chars_of(entries[i].0.as_str());
        if eq_chars(k.as_slice(), key) {
            assert(keys_of(entries@)[i as int] == key@);
            return true;
        }
        i += 1;
    }
    false
}

fn matches_of_name(entries: &Vec<(String, PackageState)>, name: &[char]) -> (r: Vec<String>)
    ensures
        views(r@) == plain_matches(keys_of(entries@), name@),
{
    let mut r: Vec<String> = Vec::new();
    let mut i: usize = 0;
    while i < entries.len()
        invariant
            i <= entries.len(),
            views(r@) == plain_matches(keys_of(entries@).take(i as int), name@),
        decreases entries.len() - i,
    {
        let ghost ks = keys_of(entries@);
        assert(ks.take(i + 1).drop_last() =~= ks.take(i as int));
        assert(ks.take(i + 1).last() == entries@[i as int].0@);
        let k = chars_of(entries[i].0.as_str());
        let named = match split_once_chars(k.as_slice(), ':') {
            Some((_, n)) => eq_chars(n.as_slice(), name),
            None => false,
        };
        if named {
            r.push(entries[i].0.clone());
            assert(views(r@) =~= plain_matches(ks.take(i as int), name@).push(ks[i as int]));
        }
        i += 1;
    }
    assert(keys_of(entries@).take(entries.len() as int) =~= keys_of(entries@));
    r
}

fn resolve_one(entries: &Vec<(String, PackageState)>, id: &str, filter: &Option<String>) -> (r: IdOutcome)
    ensures
        r.spec() == resolve_id(
            keys_of(entries@),
            id@,
            match filter {
                Some(b) => Some(b@),
                None => None,
            },
        ),
{
    let idc = chars_of(id);
    match split_once_chars(idc.as_slice(), ':') {
        Some((b, n)) => {
            let bs = string_of(b.as_slice());
            let mut key = chars_of(to_lowercase(bs.as_str()).as_str());
            key.push(':');
            let ghost lb = key@;
            let mut key2 = key;
            crate::text::push_all(&mut key2, n.as_slice());
            assert(key2@ =~= lowercase(b@) + ":"@ + n@) by {
                reveal_strlit(":");
            }
            if has_key(entries, key2.as_slice()) {
                IdOutcome::Found(string_of(key2.as_slice()))
            } else {
                IdOutcome::Missing
            }
        },
        None => match filter {
            Some(b) => {
                let mut key = chars_of(b.as_str());
                key.push(':');
                push_str(&mut key, id);
                assert(key@ =~= b@ + ":"@ + id@) by {
                    reveal_strlit(":");
                }
                if has_key(entries, key.as_slice()) {
                    IdOutcome::Found(string_of(key.as_slice()))
                } else {
                    IdOutcome::Missing
                }
            },
            None => {
                let m = matches_of_name(entries, idc.as_slice());
                if m.len() == 0 {
                    IdOutcome::Missing
                } else if m.len() == 1 {
                    let k = m[0].clone();
                    IdOutcome::Found(k)
                } else {
                    IdOutcome::Ambiguous(m)
                }
            },
        },
    }
}

/// Which state keys a state-remove request names.
///
/// With `remove_all_for_backend`, every key of the (lower-cased) backend
/// filter, which must then be given. Otherwise each id resolves on its own
/// (`resolve_id`); a plain name that several backends carry makes the whole
/// request fail with one report line per such name. Ids that name nothing are
/// skipped (`unresolved_state_remove_ids` lists them). The keys come back
/// sorted, each once.
pub fn resolve_state_remove_keys(
    packages: &PackageMap,
    ids: &[String],
    backend_filter: Option<&str>,
    remove_all_for_backend: bool,
) -> (r: Result<Vec<String>, DeclarchError>)
    ensures
        remove_all_for_backend && backend_filter is None ==> (r matches Err(DeclarchError::Other(m))
            && m@ == "--state-rm-all requires --state-rm-backend <BACKEND>."@),
        remove_all_for_backend && backend_filter is Some ==> (r matches Ok(keys)
            && strictly_sorted(views(keys@))
            && views(keys@).to_set() == backend_keys(keys_of(packages@), lowercase(backend_filter->0@))),
        !remove_all_for_backend && ambiguity_lines(keys_of(packages@), views(ids@), lowered(backend_filter)).len() > 0
            ==> (r matches Err(DeclarchError::Other(m))
            && m@ == joined(ambiguity_lines(keys_of(packages@), views(ids@), lowered(backend_filter)), "\n"@)),
        !remove_all_for_backend && ambiguity_lines(keys_of(packages@), views(ids@), lowered(backend_filter)).len() == 0
            ==> (r matches Ok(keys)
            && strictly_sorted(views(keys@))
            && views(keys@).to_set() == resolved_keys(keys_of(packages@), views(ids@), lowered(backend_filter))),
{
    let entries = packages.entries();
    let filter: Option<String> = match backend_filter {
        Some(b) => Some(to_lowercase(b)),
        None => None,
    };
    let ghost fv: Option<Seq<char>> = lowered(backend_filter);
    assert(fv == match filter { Some(b) => Some(b@), None => None::<Seq<char>> });
    if remove_all_for_backend {
        match filter {
            None => {
                return Err(DeclarchError::Other(owned("--state-rm-all requires --state-rm-backend <BACKEND>.")));
            },
            Some(b) => {
                let mut prefix = chars_of(b.as_str());
                prefix.push(':');
                assert(prefix@ =~= b@ + ":"@) by {
                    reveal_strlit(":");
                }
                let ghost ks = keys_of(entries@);
                let mut found: Vec<String> = Vec::new();
                let mut i: usize = 0;
                while i < entries.len()
                    invariant
                        i <= entries.len(),
                        ks == keys_of(entries@),
                        views(found@).to_set() == ks.take(i as int).to_set().filter(|k: Seq<char>| prefix@.is_prefix_of(k)),
                    decreases entries.len() - i,
                {
                    let k = chars_of(entries[i].0.as_str());
                    let ghost before = views(found@);
                    assert(ks.take(i + 1) =~= ks.take(i as int).push(ks[i as int]));
                    proof {
                        ks.take(i as int).lemma_push_to_set_commute(ks[i as int]);
                    }
                    if starts_with_chars(k.as_slice(), prefix.as_slice()) {
                        found.push(entries[i].0.clone());
                        proof {
                            assert(views(found@) =~= before.push(ks[i as int]));
                            before.lemma_push_to_set_commute(ks[i as int]);
                        }
                        assert(views(found@).to_set() =~= ks.take(i + 1).to_set().filter(|k: Seq<char>| prefix@.is_prefix_of(k)));
                    } else {
                        assert(views(found@).to_set() =~= ks.take(i + 1).to_set().filter(|k: Seq<char>| prefix@.is_prefix_of(k)));
                    }
                    i += 1;
                }
                assert(ks.take(entries.len() as int) =~= ks);
                let keys = sorted_unique(&found);
                return Ok(keys);
            },
        }
    }
    let ghost ks = keys_of(entries@);
    let ghost idv = views(ids@);
    let mut found: Vec<String> = Vec::new();
    let mut lines: Vec<String> = Vec::new();
    let mut i: usize = 0;
    while i < ids.len()
        invariant
            i <= ids.len(),
            ks == keys_of(entries@),
            idv == views(ids@),
            fv == match filter { Some(b) => Some(b@), None => None::<Seq<char>> },
            views(lines@) == ambiguity_lines(ks, idv.take(i as int), fv),
            views(found@).to_set() == resolved_keys(ks, idv.take(i as int), fv),
        decreases ids.len() - i,
    {
        let ghost prefix_ids = idv.take(i as int);
        assert(idv.take(i + 1).drop_last() =~= prefix_ids);
        assert(idv.take(i + 1).last() == ids@[i as int]@);
        let outcome = resolve_one(entries, ids[i].as_str(), &filter);
        let ghost before = views(found@);
        match outcome {
            IdOutcome::Found(k) => {
                let ghost kv = k@;
                found.push(k);
                proof {
                    assert(views(found@) =~= before.push(kv));
                    before.lemma_push_to_set_commute(kv);
                    assert(views(found@).to_set() =~= resolved_keys(ks, idv.take(i + 1), fv)) by {
                        assert forall|x: Seq<char>| #[trigger] views(found@).to_set().contains(x) implies resolved_keys(ks, idv.take(i + 1), fv).contains(x) by {
                            if x == kv {
                                assert(idv.take(i + 1)[i as int] == idv[i as int]);
                            } else {
                                assert(resolved_keys(ks, prefix_ids, fv).contains(x));
                                let j = choose|j: int| 0 <= j < prefix_ids.len() && #[trigger] resolve_id(ks, prefix_ids[j], fv) == KeyResolution::Found(x);
                                assert(idv.take(i + 1)[j] == prefix_ids[j]);
                            }
                        }
                        assert forall|x: Seq<char>| #[trigger] resolved_keys(ks, idv.take(i + 1), fv).contains(x) implies views(found@).to_set().contains(x) by {
                            let j = choose|j: int| 0 <= j < i + 1 && #[trigger] resolve_id(ks, idv.take(i + 1)[j], fv) == KeyResolution::Found(x);
                            if j < i {
                                assert(idv.take(i + 1)[j] == prefix_ids[j]);
                                assert(resolved_keys(ks, prefix_ids, fv).contains(x));
                            }
                        }
                    }
                }
            },
            IdOutcome::Missing => {
                proof {
                    assert(views(found@).to_set() =~= resolved_keys(ks, idv.take(i + 1), fv)) by {
                        assert forall|x: Seq<char>| #[trigger] views(found@).to_set().contains(x) implies resolved_keys(ks, idv.take(i + 1), fv).contains(x) by {
                            assert(resolved_keys(ks, prefix_ids, fv).contains(x));
                            let j = choose|j: int| 0 <= j < prefix_ids.len() && #[trigger] resolve_id(ks, prefix_ids[j], fv) == KeyResolution::Found(x);
                            assert(idv.take(i + 1)[j] == prefix_ids[j]);
                        }
                        assert forall|x: Seq<char>| #[trigger] resolved_keys(ks, idv.take(i + 1), fv).contains(x) implies views(found@).to_set().contains(x) by {
                            let j = choose|j: int| 0 <= j < i + 1 && #[trigger] resolve_id(ks, idv.take(i + 1)[j], fv) == KeyResolution::Found(x);
                            assert(idv.take(i + 1)[j] == prefix_ids[j]);
                            assert(resolved_keys(ks, prefix_ids, fv).contains(x));
                        }
                    }
                }
            },
            IdOutcome::Ambiguous(m) => {
                let mut line = chars_of(ids[i].as_str());
                push_str(&mut line, " matched multiple backends: ");
                let cands = join(&m, ", ");
                push_str(&mut line, cands.as_str());
                push_str(&mut line, ". Use backend:name or --state-rm-backend.");
                let ghost lv = line@;
                lines.push(string_of(line.as_slice()));
                proof {
                    assert(views(lines@) =~= ambiguity_lines(ks, prefix_ids, fv).push(lv));
                    assert(views(found@).to_set() =~= resolved_keys(ks, idv.take(i + 1), fv)) by {
                        assert forall|x: Seq<char>| #[trigger] views(found@).to_set().contains(x) implies resolved_keys(ks, idv.take(i + 1), fv).contains(x) by {
                            assert(resolved_keys(ks, prefix_ids, fv).contains(x));
                            let j = choose|j: int| 0 <= j < prefix_ids.len() && #[trigger] resolve_id(ks, prefix_ids[j], fv) == KeyResolution::Found(x);
                            assert(idv.take(i + 1)[j] == prefix_ids[j]);
                        }
                        assert forall|x: Seq<char>| #[trigger] resolved_keys(ks, idv.take(i + 1), fv).contains(x) implies views(found@).to_set().contains(x) by {
                            let j = choose|j: int| 0 <= j < i + 1 && #[trigger] resolve_id(ks, idv.take(i + 1)[j], fv) == KeyResolution::Found(x);
                            assert(idv.take(i + 1)[j] == prefix_ids[j]);
                            assert(resolved_keys(ks, prefix_ids, fv).contains(x));
                        }
                    }
                }
            },
        }
        i += 1;
    }
    assert(idv.take(ids.len() as int) =~= idv);
    if lines.len() > 0 {
        return Err(DeclarchError::Other(join(&lines, "\n")));
    }
    Ok(sorted_unique(&found))
}

/// The requested ids that name no state key (reported as skipped), in request order.
pub fn unresolved_state_remove_ids(
    packages: &PackageMap,
    ids: &[String],
    backend_filter: Option<&str>,
) -> (r: Vec<String>)
    ensures
        views(r@) == missing_ids(keys_of(packages@), views(ids@), lowered(backend_filter)),
{
    let entries = packages.entries();
    let filter: Option<String> = match backend_filter {
        Some(b) => Some(to_lowercase(b)),
        None => None,
    };
    let ghost fv: Option<Seq<char>> = lowered(backend_filter);
    let ghost ks = keys_of(entries@);
    let ghost idv = views(ids@);
    let mut missing: Vec<String> = Vec::new();
    let mut i: usize = 0;
    while i < ids.len()
        invariant
            i <= ids.len(),
            ks == keys_of(entries@),
            idv == views(ids@),
            fv == match filter { Some(b) => Some(b@), None => None::<Seq<char>> },
            views(missing@) == missing_ids(ks, idv.take(i as int), fv),
        decreases ids.len() - i,
    {
        assert(idv.take(i + 1).drop_last() =~= idv.take(i as int));
        assert(idv.take(i + 1).last() == ids@[i as int]@);
        let outcome = resolve_one(entries, ids[i].as_str(), &filter);
        if let IdOutcome::Missing = outcome {
            missing.push(ids[i].clone());
            assert(views(missing@) =~= missing_ids(ks, idv.take(i as int), fv).push(ids@[i as int]@));
        }
        i += 1;
    }
    assert(idv.take(ids.len() as int) =~= idv);
    missing
}

/// The keys a plain name matches are keys.
proof fn lemma_plain_matches_are_keys(keys: Seq<Seq<char>>, name: Seq<char>)
    ensures
        forall|i: int| 0 <= i < plain_matches(keys, name).len() ==> keys.contains(#[trigger] plain_matches(keys, name)[i]),
    decreases keys.len(),
{
    if keys.len() > 0 {
        let d = keys.drop_last();
        lemma_plain_matches_are_keys(d, name);
        let rest = plain_matches(d, name);
        assert forall|i: int| 0 <= i < plain_matches(keys, name).len() implies keys.contains(#[trigger] plain_matches(keys, name)[i]) by {
            if i < rest.len() {
                assert(plain_matches(keys, name)[i] == rest[i]);
                let j = choose|j: int| 0 <= j < d.len() && d[j] == rest[i];
                assert(keys[j] == d[j]);
            } else {
                assert(keys[keys.len() - 1] == keys.last());
            }
        }
    }
}

/// Law: state removal only ever names recorded entries: every key an id
/// resolves to, and every key of a backend, is a key of the state.
pub proof fn law_state_removal_names_recorded_keys(keys: Seq<Seq<char>>, ids: Seq<Seq<char>>, filter: Option<Seq<char>>, backend: Seq<char>)
    ensures
        resolved_keys(keys, ids, filter).subset_of(keys.to_set()),
        backend_keys(keys, backend).subset_of(keys.to_set()),
{
    assert forall|k: Seq<char>| resolved_keys(keys, ids, filter).contains(k) implies keys.to_set().contains(k) by {
        let i = choose|i: int| 0 <= i < ids.len() && #[trigger] resolve_id(keys, ids[i], filter) == KeyResolution::Found(k);
        match split_once(ids[i], ':') {
            Some(_) => {},
            None => match filter {
                Some(_) => {},
                None => {
                    lemma_plain_matches_are_keys(keys, ids[i]);
                    assert(keys.contains(plain_matches(keys, ids[i])[0]));
                },
            },
        }
    }
}

/// What state removal does once the keys are resolved.
#[derive(Clone, Copy, Debug, PartialEq, Eq)]
pub enum StateRemoveStep {
    /// No entry matched: warn and stop.
    NothingFound,
    /// Show the plan only.
    DryRun,
    /// Show the plan and ask the user before removing.
    Confirm,
    /// The user declined: stop without changes.
    Cancelled,
    /// Remove the entries (see `PackageMap::remove_keys`) and save the state.
    Remove,
}

/// Decides the next step of state removal after resolving `found` keys,
/// given the user's answer once asked (`None` before): nothing found stops;
/// a dry run only shows the plan; without `--yes` the user is asked, and a
/// refusal cancels; otherwise the entries are removed.
pub fn state_remove_step(found: usize, dry_run: bool, yes: bool, answer: Option<bool>) -> (r: StateRemoveStep)
    ensures
        r == (if found == 0 {
            StateRemoveStep::NothingFound
        } else if dry_run {
            StateRemoveStep::DryRun
        } else if !yes {
            match answer {
                None => StateRemoveStep::Confirm,
                Some(false) => StateRemoveStep::Cancelled,
                Some(true) => StateRemoveStep::Remove,
            }
        } else {
            StateRemoveStep::Remove
        }),
{
    if found == 0 {
        StateRemoveStep::NothingFound
    } else if dry_run {
        StateRemoveStep::DryRun
    } else if !yes {
        match answer {
            None => StateRemoveStep::Confirm,
            Some(false) => StateRemoveStep::Cancelled,
            Some(true) => StateRemoveStep::Remove,
        }
    } else {
        StateRemoveStep::Remove
    }
}

} // verus!
