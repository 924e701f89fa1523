//! The drift between the declared packages and the recorded state.
use vstd::prelude::*;
use crate::commands::check::{conflict_listing, conflicts_of, duplicate_listing, duplicates_of, listing_views};
use crate::commands::explain::{preview_lines, preview_of};
use crate::commands::lint::first_names;
use crate::model::{MergedConfig, PackageId, PackageMap, PackageState, declared_ids, id_views};

verus! {

/// The identities the state records: `(backend, config name)` of each entry.
pub open spec fn state_ids(entries: Seq<(String, PackageState)>) -> Seq<(Seq<char>, Seq<char>)> {
    entries.map_values(|e: (String, PackageState)| e.1.id())
}

/// What a sync would change: packages declared but not recorded, and packages
/// recorded but no longer declared; each identity once.
#[derive(Clone, Debug)]
pub struct SyncPlan {
    pub to_install: Vec<PackageId>,
    pub to_remove: Vec<PackageId>,
}

fn contains_id(list: &Vec<PackageId>, id: &PackageId) -> (r: bool)
    ensures
        r == id_views(list@).contains(id@),
{
    let mut i: usize = 0;
    while i < list.len()
        invariant
            i <= list.len(),
            forall|j: int| 0 <= j < i ==> id_views(list@)[j] != id@,
        decreases list.len() - i,
    {
        if list[i].same_as(id) {
            assert(id_views(list@)[i as int] == id@);
            return true;
        }
        i += 1;
    }
    false
}

/// Appends to `out` the identities of `from` that are neither in `other` nor
/// already in `out`.
fn add_missing(out: &mut Vec<PackageId>, from: &Vec<PackageId>, other: &Vec<PackageId>)
    requires
        id_views(old(out)@).no_duplicates(),
    ensures
        id_views(final(out)@).no_duplicates(),
        id_views(final(out)@).to_set() == id_views(old(out)@).to_set().union(
            id_views(from@).to_set().difference(id_views(other@).to_set()),
        ),
{
    let ghost start = id_views(out@).to_set();
    let mut i: usize = 0;
    while i < from.len()
        invariant
            i <= from.len(),
            id_views(out@).no_duplicates(),
            id_views(out@).to_set() == start.union(
                id_views(from@).take(i as int).to_set().difference(id_views(other@).to_set()),
            ),
        decreases from.len() - i,
    {
        let id = &from[i];
        let ghost before = id_views(out@);
        assert(id_views(from@).take(i + 1) =~= id_views(from@).take(i as int).push(id@));
        proof {
            id_views(from@).take(i as int).lemma_push_to_set_commute(id@);
        }
        if !contains_id(other, id) && !contains_id(out, id) {
            out.push(id.duplicate());
            proof {
                assert(id_views(out@) =~= before.push(id@));
                before.lemma_push_to_set_commute(id@);
                assert(id_views(out@).no_duplicates()) by {
                    assert forall|a: int, b: int| 0 <= a < b < id_views(out@).len() implies id_views(out@)[a] != id_views(out@)[b] by {
                        if b == before.len() {
                            assert(id_views(out@)[a] == before[a]);
                        }
                    }
                }
            }
        }
        assert(id_views(out@).to_set() =~= start.union(
            id_views(from@).take(i + 1).to_set().difference(id_views(other@).to_set()),
        ));
        i += 1;
    }
    assert(id_views(from@).take(from.len() as int) =~= id_views(from@));
}

/// The packages a sync would install (declared, not recorded) and remove
/// (recorded, not declared), each identity once.
pub fn sync_plan_changes(config: &MergedConfig, state: &PackageMap) -> (r: SyncPlan)
    ensures
        id_views(r.to_install@).no_duplicates(),
        id_views(r.to_remove@).no_duplicates(),
        id_views(r.to_install@).to_set() == declared_ids(config.packages@).to_set().difference(state_ids(state@).to_set()),
        id_views(r.to_remove@).to_set() == state_ids(state@).to_set().difference(declared_ids(config.packages@).to_set()),
{
    let mut declared: Vec<PackageId> = Vec::new();
    let mut i: usize = 0;
    while i < config.packages.len()
        invariant
            i <= config.packages.len(),
            id_views(declared@) == declared_ids(config.packages@).take(i as int),
        decreases config.packages.len() - i,
    {
        let ghost before = id_views(declared@);
        let d = config.packages[i].id.duplicate();
        assert(d@ == declared_ids(config.packages@)[i as int]);
        declared.push(d);
        assert(id_views(declared@) =~= before.push(d@));
        assert(id_views(declared@) =~= declared_ids(config.packages@).take(i + 1));
        i += 1;
    }
    assert(declared_ids(config.packages@).take(config.packages.len() as int) =~= declared_ids(config.packages@));
    let entries = state.entries();
    let mut recorded: Vec<PackageId> = Vec::new();
    let mut j: usize = 0;
    while j < entries.len()
        invariant
            j <= entries.len(),
            entries@ == state@,
            id_views(recorded@) == state_ids(entries@).take(j as int),
        decreases entries.len() - j,
    {
        let ghost before = id_views(recorded@);
        let d = entries[j].1.package_id();
        assert(d@ == state_ids(entries@)[j as int]);
        recorded.push(d);
        assert(id_views(recorded@) =~= before.push(d@));
        assert(id_views(recorded@) =~= state_ids(entries@).take(j + 1));
        j += 1;
    }
    assert(state_ids(entries@).take(entries.len() as int) =~= state_ids(entries@));
    let mut to_install: Vec<PackageId> = Vec::new();
    assert(id_views(to_install@).to_set() =~= Set::<(Seq<char>, Seq<char>)>::empty());
    add_missing(&mut to_install, &declared, &recorded);
    let mut to_remove: Vec<PackageId> = Vec::new();
    assert(id_views(to_remove@).to_set() =~= Set::<(Seq<char>, Seq<char>)>::empty());
    add_missing(&mut to_remove, &recorded, &declared);
    proof {
        assert(id_views(to_install@).to_set() =~= declared_ids(config.packages@).to_set().difference(state_ids(state@).to_set()));
        assert(id_views(to_remove@).to_set() =~= state_ids(state@).to_set().difference(declared_ids(config.packages@).to_set()));
    }
    SyncPlan { to_install, to_remove }
}

/// Law: a sync plan never both installs and removes a package, and carrying
/// it out (dropping what it removes from the recorded packages, adding what
/// it installs) leaves exactly the declared packages.
pub proof fn law_sync_plan_reconciles(config: MergedConfig, state: PackageMap)
    ensures
        ({
            let declared = declared_ids(config.packages@).to_set();
            let recorded = state_ids(state@).to_set();
            let to_install = declared.difference(recorded);
            let to_remove = recorded.difference(declared);
            &&& to_install.disjoint(to_remove)
            &&& recorded.difference(to_remove).union(to_install) == declared
        }),
{
    let declared = declared_ids(config.packages@).to_set();
    let recorded = state_ids(state@).to_set();
    assert(recorded.difference(recorded.difference(declared)).union(declared.difference(recorded)) =~= declared);
}

/// What the sync-plan explanation shows.
#[derive(Clone, Debug)]
pub struct SyncPlanReport {
    pub declared: usize,
    pub recorded: usize,
    pub plan: SyncPlan,
    /// Packages declared in more than one file.
    pub duplicates: usize,
    /// Names declared for more than one backend.
    pub conflicts: usize,
    /// At most 15 `  + backend:name` lines and a count of the rest.
    pub install_lines: Vec<String>,
    /// At most 15 `  - backend:name` lines and a count of the rest.
    pub remove_lines: Vec<String>,
}

/// Explains the sync plan: the numbers of declared and recorded packages,
/// the plan (see `sync_plan_changes`), the numbers of duplicate declarations
/// and of cross-backend name conflicts, and the lines listing the plan.
pub fn sync_plan_report(config: &MergedConfig, state: &PackageMap) -> (r: SyncPlanReport)
    ensures
        r.declared == config.packages@.len(),
        r.recorded == state@.len(),
        id_views(r.plan.to_install@).no_duplicates(),
        id_views(r.plan.to_remove@).no_duplicates(),
        id_views(r.plan.to_install@).to_set() == declared_ids(config.packages@).to_set().difference(state_ids(state@).to_set()),
        id_views(r.plan.to_remove@).to_set() == state_ids(state@).to_set().difference(declared_ids(config.packages@).to_set()),
        r.duplicates == duplicates_of(config.packages@).len(),
        r.conflicts == conflicts_of(first_names(declared_ids(config.packages@)), declared_ids(config.packages@)).len(),
        crate::text::views(r.install_lines@) == preview_of(id_views(r.plan.to_install@), "+"@),
        crate::text::views(r.remove_lines@) == preview_of(id_views(r.plan.to_remove@), "-"@),
{
    let plan = sync_plan_changes(config, state);
    let dups = duplicate_listing(config);
    let confs = conflict_listing(config);
    assert(listing_views(dups@).len() == dups@.len());
    assert(listing_views(confs@).len() == confs@.len());
    let install_lines = preview_lines(&plan.to_install, "+");
    let remove_lines = preview_lines(&plan.to_remove, "-");
    SyncPlanReport {
        declared: config.packages.len(),
        recorded: state.len(),
        plan,
        duplicates: dups.len(),
        conflicts: confs.len(),
        install_lines,
        remove_lines,
    }
}

} // verus!
