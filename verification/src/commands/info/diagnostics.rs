//! State checks of `info --doctor`.
use vstd::prelude::*;
use crate::commands::list::declares;
use crate::model::{DeclarchError, MergedConfig, PackageMap, PackageState, declared_ids, package_label};
use crate::sorting::{lemma_sorted_set_of, sorted_set, sorted_unique};
use crate::text::{concat3, same_text, strictly_sorted, text_lt, views};

verus! {

/// The signature of a state record: `backend:name`.
pub open spec fn signature(s: PackageState) -> Seq<char> {
    package_label(s.id())
}

/// The keys, in state order, of the records with signature `sig`.
pub open spec fn keys_with(entries: Seq<(String, PackageState)>, sig: Seq<char>) -> Seq<Seq<char>>
    decreases entries.len(),
{
    if entries.len() == 0 {
        Seq::empty()
    } else {
        let rest = keys_with(entries.drop_last(), sig);
        if signature(entries.last().1) == sig {
            rest.push(entries.last().0@)
        } else {
            rest
        }
    }
}

/// The signatures that more than one record carries.
pub open spec fn duplicate_signatures(entries: Seq<(String, PackageState)>) -> Set<Seq<char>> {
    Set::new(|s: Seq<char>| keys_with(entries, s).len() > 1)
}

/// The signatures of signature groups.
pub open spec fn sig_names(v: Seq<(String, Vec<String>)>) -> Seq<Seq<char>> {
    v.map_values(|d: (String, Vec<String>)| d.0@)
}

/// The keys of the records with one signature, in state order.
fn keys_of_signature(entries: &Vec<(String, PackageState)>, sig: &str) -> (r: Vec<String>)
    ensures
        views(r@) == keys_with(entries@, sig@),
{
    let mut r: Vec<String> = Vec::new();
    let mut i: usize = 0;
    while i < entries.len()
        invariant
            i <= entries@.len(),
            views(r@) == keys_with(entries@.take(i as int), sig@),
        decreases entries.len() - i,
    {
        assert(entries@.take(i + 1).drop_last() =~= entries@.take(i as int));
        assert(entries@.take(i + 1).last() == entries@[i as int]);
        let e = &entries[i];
        let s = concat3(e.1.backend.name(), ":", e.1.config_name.as_str());
        if same_text(s.as_str(), sig) {
            let ghost before = views(r@);
            r.push(e.0.clone());
            assert(views(r@) =~= before.push(e.0@));
        }
        i += 1;
    }
    assert(entries@.take(entries.len() as int) =~= entries@);
    r
}

/// A signature no record carries has no keys.
proof fn lemma_keys_with_absent(entries: Seq<(String, PackageState)>, sig: Seq<char>)
    requires
        forall|j: int| 0 <= j < entries.len() ==> signature(#[trigger] entries[j].1) != sig,
    ensures
        keys_with(entries, sig).len() == 0,
    decreases entries.len(),
{
    if entries.len() > 0 {
        let d = entries.drop_last();
        assert forall|j: int| 0 <= j < d.len() implies signature(#[trigger] d[j].1) != sig by {
            assert(d[j] == entries[j]);
        }
        lemma_keys_with_absent(d, sig);
    }
}

/// The signatures carried by more than one state record, sorted, each with
/// the keys that carry it in state order.
pub fn collect_state_signature_duplicates(state: &PackageMap) -> (r: Vec<(String, Vec<String>)>)
    ensures
        sig_names(r@) == sorted_set(duplicate_signatures(state@)),
        strictly_sorted(sig_names(r@)),
        sig_names(r@).to_set() == duplicate_signatures(state@),
        forall|j: int| 0 <= j < r@.len() ==> views(#[trigger] r@[j].1@) == keys_with(state@, r@[j].0@),
{
    let entries = state.entries();
    let ghost es = entries@;
    let mut sigs: Vec<String> = Vec::new();
    let mut i: usize = 0;
    while i < entries.len()
        invariant
            i <= entries@.len(),
            es == entries@,
            views(sigs@) == es.take(i as int).map_values(|e: (String, PackageState)| signature(e.1)),
        decreases entries.len() - i,
    {
        let e = &entries[i];
        let ghost before = views(sigs@);
        sigs.push(concat3(e.1.backend.name(), ":", e.1.config_name.as_str()));
        assert(views(sigs@) =~= before.push(signature(e.1)));
        assert(es.take(i + 1).map_values(|e: (String, PackageState)| signature(e.1)) =~= before.push(signature(es[i as int].1)));
        i += 1;
    }
    assert(es.take(entries.len() as int) =~= es);
    let ghost all_sigs = es.map_values(|e: (String, PackageState)| signature(e.1));
    let candidates = sorted_unique(&sigs);
    let ghost cv = views(candidates@);
    let mut out: Vec<(String, Vec<String>)> = Vec::new();
    let mut k: usize = 0;
    while k < candidates.len()
        invariant
            k <= candidates@.len(),
            es == entries@,
            es == state@,
            cv == views(candidates@),
            strictly_sorted(cv),
            cv.to_set() == all_sigs.to_set(),
            all_sigs == es.map_values(|e: (String, PackageState)| signature(e.1)),
            strictly_sorted(sig_names(out@)),
            forall|a: int| 0 <= a < out@.len() ==> exists|k0: int| 0 <= k0 < k && #[trigger] out@[a].0@ == cv[k0],
            sig_names(out@).to_set() == cv.take(k as int).to_set().filter(|s: Seq<char>| keys_with(es, s).len() > 1),
            forall|j: int| 0 <= j < out@.len() ==> views(#[trigger] out@[j].1@) == keys_with(es, out@[j].0@),
        decreases candidates.len() - k,
    {
        let keys = keys_of_signature(entries, candidates[k].as_str());
        let ghost old_out = out@;
        let ghost names = sig_names(old_out);
        let ghost c = cv[k as int];
        assert(cv.take(k + 1) =~= cv.take(k as int).push(c));
        proof {
            cv.take(k as int).lemma_push_to_set_commute(c);
        }
        if keys.len() > 1 {
            out.push((candidates[k].clone(), keys));
            proof {
                assert(sig_names(out@) =~= names.push(c));
                names.lemma_push_to_set_commute(c);
                assert forall|a: int, b: int| 0 <= a < b < out@.len() implies text_lt(
                    #[trigger] sig_names(out@)[a],
                    #[trigger] sig_names(out@)[b],
                ) by {
                    if b == old_out.len() {
                        let k0 = choose|k0: int| 0 <= k0 < k && #[trigger] old_out[a].0@ == cv[k0];
                        assert(text_lt(cv[k0], cv[k as int]));
                    } else {
                        assert(text_lt(names[a], names[b]));
                    }
                }
                assert forall|a: int| 0 <= a < out@.len() implies exists|k0: int| 0 <= k0 < k + 1 && #[trigger] out@[a].0@ == cv[k0] by {
                    if a < old_out.len() {
                        let k0 = choose|k0: int| 0 <= k0 < k && #[trigger] old_out[a].0@ == cv[k0];
                        assert(out@[a] == old_out[a]);
                        assert(0 <= k0 < k + 1 && out@[a].0@ == cv[k0]);
                    } else {
                        assert(out@[a].0@ == cv[k as int]);
                    }
                }
                assert(sig_names(out@).to_set() =~= cv.take(k + 1).to_set().filter(|s: Seq<char>| keys_with(es, s).len() > 1));
                assert forall|j: int| 0 <= j < out@.len() implies views(#[trigger] out@[j].1@) == keys_with(es, out@[j].0@) by {
                    if j < old_out.len() {
                        assert(out@[j] == old_out[j]);
                    }
                }
            }
        } else {
            proof {
                assert(sig_names(out@).to_set() =~= cv.take(k + 1).to_set().filter(|s: Seq<char>| keys_with(es, s).len() > 1));
                assert forall|a: int| 0 <= a < out@.len() implies exists|k0: int| 0 <= k0 < k + 1 && #[trigger] out@[a].0@ == cv[k0] by {
                    let k0 = choose|k0: int| 0 <= k0 < k && #[trigger] out@[a].0@ == cv[k0];
                    assert(0 <= k0 < k + 1 && out@[a].0@ == cv[k0]);
                }
            }
        }
        k += 1;
    }
    proof {
        assert(cv.take(candidates.len() as int) =~= cv);
        let outs = sig_names(out@);
        assert(outs.to_set() =~= duplicate_signatures(es)) by {
            assert forall|s: Seq<char>| duplicate_signatures(es).contains(s) implies outs.to_set().contains(s) by {
                if !all_sigs.contains(s) {
                    assert forall|j: int| 0 <= j < es.len() implies signature(#[trigger] es[j].1) != s by {
                        assert(all_sigs[j] == signature(es[j].1));
                    }
                    lemma_keys_with_absent(es, s);
                }
                assert(all_sigs.to_set().contains(s));
                assert(cv.to_set().contains(s));
            }
        }
        lemma_sorted_set_of(outs);
    }
    out
}


/// How many records stand for an identity `(backend, config name)` that the
/// configuration does not declare.
pub open spec fn orphan_count(entries: Seq<(String, PackageState)>, declared: Seq<(Seq<char>, Seq<char>)>) -> nat
    decreases entries.len(),
{
    if entries.len() == 0 {
        0
    } else {
        orphan_count(entries.drop_last(), declared) + if declared.contains(entries.last().1.id()) { 0nat } else { 1nat }
    }
}

/// The number of recorded packages the configuration does not declare,
/// judged by backend and configured name.
pub fn count_orphans(state: &PackageMap, config: &MergedConfig) -> (r: usize)
    ensures
        r == orphan_count(state@, declared_ids(config.packages@)),
{
    let entries = state.entries();
    let ghost ids = declared_ids(config.packages@);
    let mut n: usize = 0;
    let mut i: usize = 0;
    while i < entries.len()
        invariant
            i <= entries@.len(),
            entries@ == state@,
            ids == declared_ids(config.packages@),
            n == orphan_count(entries@.take(i as int), ids),
            n <= i,
        decreases entries.len() - i,
    {
        assert(entries@.take(i + 1).drop_last() =~= entries@.take(i as int));
        assert(entries@.take(i + 1).last() == entries@[i as int]);
        let rec = &entries[i].1;
        if !declares(config, rec.backend.name(), rec.config_name.as_str()) {
            n += 1;
        }
        i += 1;
    }
    assert(entries@.take(entries.len() as int) =~= entries@);
    n
}

/// What `info --doctor` finds about the configuration and the state.
#[derive(Clone, Debug)]
pub struct DoctorReport {
    /// The number of declared packages, when the configuration loaded.
    pub config_packages: Option<usize>,
    /// The number of recorded packages, when the state loaded.
    pub state_packages: Option<usize>,
    /// The recorded packages the configuration does not declare, when both
    /// loaded.
    pub orphans: Option<usize>,
    /// The duplicate signatures of the state (see
    /// `collect_state_signature_duplicates`), when it loaded.
    pub duplicate_signatures: Vec<(String, Vec<String>)>,
    /// The last sync is more than seven days old (the state loaded).
    pub stale: bool,
    /// The state loaded, so the consistency checks and the closing verdict
    /// are shown; without a state file the diagnosis ends after the backends.
    pub finished: bool,
    /// No check failed: the configuration was found and loaded.
    pub all_ok: bool,
}

/// Diagnoses the configuration and the state. Each is `None` when its file
/// is missing, else how loading it went; `days_since_sync` counts whole days
/// since the state's last sync. A state that does not load ends the
/// diagnosis with its error.
pub fn doctor_report(
    config: Option<Result<&MergedConfig, String>>,
    state: Option<Result<&PackageMap, String>>,
    days_since_sync: i64,
) -> (r: Result<DoctorReport, DeclarchError>)
    ensures
        state matches Some(Err(e)) ==> (r matches Err(DeclarchError::Other(x)) && x@ == e@),
        !(state matches Some(Err(_))) ==> (r matches Ok(d) && {
            &&& d.config_packages == match config {
                Some(Ok(c)) => Some(c.packages@.len() as usize),
                _ => None::<usize>,
            }
            &&& d.state_packages == match state {
                Some(Ok(st)) => Some(st@.len() as usize),
                _ => None::<usize>,
            }
            &&& d.orphans == match (config, state) {
                (Some(Ok(c)), Some(Ok(st))) => Some(orphan_count(st@, declared_ids(c.packages@)) as usize),
                _ => None::<usize>,
            }
            &&& match state {
                Some(Ok(st)) => sig_names(d.duplicate_signatures@) == sorted_set(duplicate_signatures(st@))
                    && forall|j: int| 0 <= j < d.duplicate_signatures@.len()
                        ==> views(#[trigger] d.duplicate_signatures@[j].1@) == keys_with(st@, d.duplicate_signatures@[j].0@),
                _ => d.duplicate_signatures@.len() == 0,
            }
            &&& d.stale == (state matches Some(Ok(_)) && days_since_sync > 7)
            &&& d.finished == (state matches Some(Ok(_)))
            &&& d.all_ok == (config matches Some(Ok(_)))
        }),
{
    let config_packages = match config {
        Some(Ok(c)) => Some(c.packages.len()),
        _ => None,
    };
    let config_ok = match config {
        Some(Ok(_)) => true,
        _ => false,
    };
    match state {
        Some(Err(e)) => Err(DeclarchError::Other(e)),
        None => Ok(DoctorReport {
            config_packages,
            state_packages: None,
            orphans: None,
            duplicate_signatures: Vec::new(),
            stale: false,
            finished: false,
            all_ok: config_ok,
        }),
        Some(Ok(st)) => {
            let orphans = match config {
                Some(Ok(c)) => {
                    let n = count_orphans(st, c);
                    Some(n)
                },
                _ => None,
            };
            Ok(DoctorReport {
                config_packages,
                state_packages: Some(st.len()),
                orphans,
                duplicate_signatures: collect_state_signature_duplicates(st),
                stale: days_since_sync > 7,
                finished: true,
                all_ok: config_ok,
            })
        },
    }
}

/// Law: every reported signature is carried by at least two records, and
/// no signature is reported twice.
pub proof fn law_reported_signatures_are_duplicates(entries: Seq<(String, PackageState)>, reported: Seq<Seq<char>>)
    requires
        strictly_sorted(reported),
        reported.to_set() == duplicate_signatures(entries),
    ensures
        forall|j: int| 0 <= j < reported.len() ==> keys_with(entries, #[trigger] reported[j]).len() >= 2,
        reported.no_duplicates(),
{
    assert forall|j: int| 0 <= j < reported.len() implies keys_with(entries, #[trigger] reported[j]).len() >= 2 by {
        assert(reported.to_set().contains(reported[j]));
    }
    assert forall|a: int, b: int| 0 <= a < reported.len() && 0 <= b < reported.len() && a != b implies reported[a] != reported[b] by {
        if a < b {
            assert(text_lt(reported[a], reported[b]));
            crate::text::lemma_text_lt_irreflexive(reported[a]);
        } else {
            assert(text_lt(reported[b], reported[a]));
            crate::text::lemma_text_lt_irreflexive(reported[b]);
        }
    }
}

} // verus!
