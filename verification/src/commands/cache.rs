//! The `cache` command's decisions: which backends to clean, and what
//! becomes of each.
use vstd::prelude::*;
use crate::sorting::{lemma_sorted_set_of, sorted_set, sorted_unique};
use crate::text::{same_text, views};

verus! {

/// Options of the `cache` command.
#[derive(Clone, Debug)]
pub struct CacheOptions {
    /// The backends to clean; all configured ones when absent.
    pub backends: Option<Vec<String>>,
    /// Say more.
    pub verbose: bool,
}

/// The backends chosen for cleaning, and the requested names that are not
/// configured.
#[derive(Clone, Debug)]
pub struct CacheSelection {
    /// Sorted, each once.
    pub selected: Vec<String>,
    /// Sorted, each once.
    pub unknown: Vec<String>,
}

/// Whether a name is among the strings.
fn holds(v: &Vec<String>, s: &str) -> (r: bool)
    ensures
        r == views(v@).contains(s@),
{
    let mut i: usize = 0;
    while i < v.len()
        invariant
            i <= v@.len(),
            forall|j: int| 0 <= j < i ==> v@[j]@ != s@,
        decreases v.len() - i,
    {
        if same_text(v[i].as_str(), s) {
            assert(views(v@)[i as int] == s@);
            return true;
        }
        i += 1;
    }
    assert forall|j: int| 0 <= j < views(v@).len() implies views(v@)[j] != s@ by {
        assert(views(v@)[j] == v@[j]@);
    }
    false
}

/// The strings of `from` that are (`keep_members`) or are not among `among`.
fn filter_by(from: &Vec<String>, among: &Vec<String>, keep_members: bool) -> (r: Vec<String>)
    ensures
        views(r@).to_set() == views(from@).to_set().filter(|x: Seq<char>| views(among@).contains(x) == keep_members),
{
    let ghost f = views(from@);
    let ghost a = views(among@);
    let mut r: Vec<String> = Vec::new();
    let mut i: usize = 0;
    while i < from.len()
        invariant
            i <= from@.len(),
            f == views(from@),
            a == views(among@),
            views(r@).to_set() == f.take(i as int).to_set().filter(|x: Seq<char>| a.contains(x) == keep_members),
        decreases from.len() - i,
    {
        let ghost before = views(r@);
        let ghost pre = f.take(i as int);
        let ghost post = f.take(i + 1);
        assert(post =~= pre.push(from@[i as int]@));
        proof {
            pre.lemma_push_to_set_commute(from@[i as int]@);
        }
        if holds(among, from[i].as_str()) == keep_members {
            r.push(from[i].clone());
            assert(views(r@) =~= before.push(from@[i as int]@));
            proof {
                before.lemma_push_to_set_commute(from@[i as int]@);
            }
        } else {
            assert(views(r@) =~= before);
        }
        assert(views(r@).to_set() =~= post.to_set().filter(|x: Seq<char>| a.contains(x) == keep_members));
        i += 1;
    }
    assert(f.take(from.len() as int) =~= f);
    r
}

/// The configured backends to clean: all of them, or those requested; and
/// the requested names not configured. Both sorted, each name once.
pub fn select_backends(configured: &Vec<String>, requested: Option<&Vec<String>>) -> (r: CacheSelection)
    ensures
        views(r.selected@) == sorted_set(match requested {
            Some(t) => views(configured@).to_set().intersect(views(t@).to_set()),
            None => views(configured@).to_set(),
        }),
        views(r.unknown@) == sorted_set(match requested {
            Some(t) => views(t@).to_set().difference(views(configured@).to_set()),
            None => Set::empty(),
        }),
        views(r.selected@).to_set() == match requested {
            Some(t) => views(configured@).to_set().intersect(views(t@).to_set()),
            None => views(configured@).to_set(),
        },
        views(r.unknown@).to_set() == match requested {
            Some(t) => views(t@).to_set().difference(views(configured@).to_set()),
            None => Set::empty(),
        },
{
    match requested {
        Some(t) => {
            let sel = filter_by(configured, t, true);
            let unk = filter_by(t, configured, false);
            let selected = sorted_unique(&sel);
            let unknown = sorted_unique(&unk);
            proof {
                lemma_sorted_set_of(views(selected@));
                lemma_sorted_set_of(views(unknown@));
                assert(views(sel@).to_set() =~= views(configured@).to_set().intersect(views(t@).to_set()));
                assert(views(unk@).to_set() =~= views(t@).to_set().difference(views(configured@).to_set()));
            }
            CacheSelection { selected, unknown }
        },
        None => {
            let selected = sorted_unique(configured);
            let unknown: Vec<String> = Vec::new();
            proof {
                lemma_sorted_set_of(views(selected@));
                assert(views(unknown@) =~= Seq::<Seq<char>>::empty());
                lemma_sorted_set_of(views(unknown@));
                assert(views(unknown@).to_set() =~= Set::<Seq<char>>::empty());
            }
            CacheSelection { selected, unknown }
        },
    }
}

/// Chooses the backends `cache` cleans among the configured ones (see
/// `select_backends`).
pub fn run(options: &CacheOptions, configured: &Vec<String>) -> (r: CacheSelection)
    ensures
        views(r.selected@) == sorted_set(match options.backends {
            Some(t) => views(configured@).to_set().intersect(views(t@).to_set()),
            None => views(configured@).to_set(),
        }),
        views(r.unknown@) == sorted_set(match options.backends {
            Some(t) => views(t@).to_set().difference(views(configured@).to_set()),
            None => Set::empty(),
        }),
{
    select_backends(configured, options.backends.as_ref())
}

/// What becomes of one selected backend.
#[derive(Clone, Copy, Debug, PartialEq, Eq)]
pub enum CacheClass {
    /// It has no cache-clean command.
    NoCommand,
    /// Its program is not available.
    NotAvailable,
    /// It cannot clean its cache.
    Unsupported,
    /// It is cleaned.
    Cleanable,
}

/// Sorts a backend: no command, else not available, else unsupported, else cleanable.
pub fn cache_class(has_clean_command: bool, available: bool, supports_clean: bool) -> (r: CacheClass)
    ensures
        r == (if !has_clean_command {
            CacheClass::NoCommand
        } else if !available {
            CacheClass::NotAvailable
        } else if !supports_clean {
            CacheClass::Unsupported
        } else {
            CacheClass::Cleanable
        }),
{
    if !has_clean_command {
        CacheClass::NoCommand
    } else if !available {
        CacheClass::NotAvailable
    } else if !supports_clean {
        CacheClass::Unsupported
    } else {
        CacheClass::Cleanable
    }
}

/// How many of the outcomes are successes.
pub open spec fn successes(outcomes: Seq<bool>) -> nat
    decreases outcomes.len(),
{
    if outcomes.len() == 0 {
        0
    } else {
        successes(outcomes.drop_last()) + if outcomes.last() { 1nat } else { 0nat }
    }
}

/// Counts the cleaned and the failed backends.
pub fn clean_counts(outcomes: &Vec<bool>) -> (r: (usize, usize))
    ensures
        r.0 == successes(outcomes@),
        r.0 + r.1 == outcomes@.len(),
{
    let mut ok: usize = 0;
    let mut failed: usize = 0;
    let mut i: usize = 0;
    while i < outcomes.len()
        invariant
            i <= outcomes@.len(),
            ok == successes(outcomes@.take(i as int)),
            ok + failed == i,
        decreases outcomes.len() - i,
    {
        assert(outcomes@.take(i + 1).drop_last() =~= outcomes@.take(i as int));
        if outcomes[i] {
            ok += 1;
        } else {
            failed += 1;
        }
        i += 1;
    }
    assert(outcomes@.take(outcomes.len() as int) =~= outcomes@);
    (ok, failed)
}

/// Law: of the backends requested for cleaning, each is either selected (and
/// then configured) or reported unknown, never both.
pub proof fn law_requested_backends_partition(
    configured: Seq<Seq<char>>,
    requested: Seq<Seq<char>>,
    selected: Seq<Seq<char>>,
    unknown: Seq<Seq<char>>,
)
    requires
        selected.to_set() == configured.to_set().intersect(requested.to_set()),
        unknown.to_set() == requested.to_set().difference(configured.to_set()),
    ensures
        selected.to_set().union(unknown.to_set()) == requested.to_set(),
        selected.to_set().disjoint(unknown.to_set()),
        selected.to_set().subset_of(configured.to_set()),
{
    assert(selected.to_set().union(unknown.to_set()) =~= requested.to_set());
}

} // verus!
