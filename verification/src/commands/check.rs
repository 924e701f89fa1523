//! The `check` command's decisions: what it reports of a loaded
//! configuration.
use vstd::prelude::*;
use crate::commands::edit::{normal_pieces, normal_pieces_of};
use crate::commands::install::backends_declaring;
use crate::commands::lint::{backends_of_name, first_names, names_in_order};
use crate::model::{MergedConfig, declared_ids, package_label};
use crate::outside::{lowercase, to_lowercase};
use crate::text::{chars_of, owned, same_text, split_all, split_all_chars, string_of, views};

verus! {

/// Options of the `check` command.
#[derive(Clone, Debug)]
pub struct CheckOptions {
    pub verbose: bool,
    pub check_duplicates: bool,
    pub check_conflicts: bool,
    pub only_duplicates: bool,
    pub only_conflicts: bool,
    pub backend_filter: Option<String>,
    pub diff: bool,
    pub validate_only: bool,
    pub benchmark: bool,
    pub extra_modules: Vec<String>,
}

/// The file name of a path: its last component, empty when that is `..`
/// or there is none.
pub open spec fn file_name_of(path: Seq<char>) -> Seq<char> {
    let pieces = normal_pieces(split_all(path, '/'));
    if pieces.len() == 0 || pieces.last() == ".."@ {
        Seq::empty()
    } else {
        pieces.last()
    }
}

/// The file name of a path.
pub fn file_name(path: &str) -> (r: String)
    ensures
        r@ == file_name_of(path@),
{
    let c = chars_of(path);
    let parts = split_all_chars(c.as_slice(), '/');
    let pieces = normal_pieces_of(&parts);
    let ghost pv = pieces@.map_values(|l: Vec<char>| l@);
    if pieces.len() == 0 {
        proof {
            reveal_strlit("");
        }
        return owned("");
    }
    let last = &pieces[pieces.len() - 1];
    assert(pv.last() == last@);
    let dots = chars_of("..");
    if crate::text::eq_chars(last.as_slice(), dots.as_slice()) {
        proof {
            reveal_strlit("");
        }
        return owned("");
    }
    string_of(last.as_slice())
}

/// What `check` reports after the configuration loaded.
#[derive(Clone, Debug)]
pub enum CheckReport {
    /// Only validation was asked for.
    Validated,
    /// The backend filter matches no declared package.
    NoPackagesForBackend(String),
    /// Both `--only-duplicates` and `--only-conflicts` were given.
    ConflictingOnlyFlags { package_count: usize },
    /// The counts and the requested listings.
    Checked {
        package_count: usize,
        /// Each package declared in several files, with those files' names.
        duplicates: Option<Vec<(String, Vec<String>)>>,
        /// Each name declared for several backends, with those backends.
        conflicts: Option<Vec<(String, Vec<String>)>>,
    },
}

/// How many declared packages have backend `b`.
pub open spec fn count_for_backend(ids: Seq<(Seq<char>, Seq<char>)>, b: Seq<char>) -> nat
    decreases ids.len(),
{
    if ids.len() == 0 {
        0
    } else {
        count_for_backend(ids.drop_last(), b) + if ids.last().0 == b { 1nat } else { 0nat }
    }
}

/// The packages declared in more than one file, in order, each with the
/// file names of its sources.
pub open spec fn duplicates_of(ps: Seq<crate::model::DeclaredPackage>) -> Seq<(Seq<char>, Seq<Seq<char>>)>
    decreases ps.len(),
{
    if ps.len() == 0 {
        Seq::empty()
    } else {
        let rest = duplicates_of(ps.drop_last());
        let p = ps.last();
        if p.sources@.len() > 1 {
            rest.push((package_label(p.id@), views(p.sources@).map_values(|s: Seq<char>| file_name_of(s))))
        } else {
            rest
        }
    }
}

/// The names declared for more than one backend, in order of first
/// declaration, each with its backends in declaration order.
pub open spec fn conflicts_of(names: Seq<Seq<char>>, ids: Seq<(Seq<char>, Seq<char>)>) -> Seq<(Seq<char>, Seq<Seq<char>>)>
    decreases names.len(),
{
    if names.len() == 0 {
        Seq::empty()
    } else {
        let rest = conflicts_of(names.drop_last(), ids);
        let bs = backends_declaring(ids, names.last());
        if bs.len() > 1 {
            rest.push((names.last(), bs))
        } else {
            rest
        }
    }
}

/// The views of listings.
pub open spec fn listing_views(v: Seq<(String, Vec<String>)>) -> Seq<(Seq<char>, Seq<Seq<char>>)> {
    v.map_values(|x: (String, Vec<String>)| (x.0@, views(x.1@)))
}

/// Lists the packages declared in more than one file.
pub fn duplicate_listing(config: &MergedConfig) -> (r: Vec<(String, Vec<String>)>)
    ensures
        listing_views(r@) == duplicates_of(config.packages@),
{
    let mut out: Vec<(String, Vec<String>)> = Vec::new();
    let mut i: usize = 0;
    while i < config.packages.len()
        invariant
            i <= config.packages@.len(),
            listing_views(out@) == duplicates_of(config.packages@.take(i as int)),
        decreases config.packages.len() - i,
    {
        assert(config.packages@.take(i + 1).drop_last() =~= config.packages@.take(i as int));
        assert(config.packages@.take(i + 1).last() == config.packages@[i as int]);
        let p = &config.packages[i];
        if p.sources.len() > 1 {
            let mut files: Vec<String> = Vec::new();
            let mut k: usize = 0;
            while k < p.sources.len()
                invariant
                    k <= p.sources@.len(),
                    views(files@) == views(p.sources@).take(k as int).map_values(|s: Seq<char>| file_name_of(s)),
                decreases p.sources.len() - k,
            {
                let ghost before = views(files@);
                files.push(file_name(p.sources[k].as_str()));
                assert(views(files@) =~= before.push(file_name_of(p.sources@[k as int]@)));
                assert(views(p.sources@).take(k + 1) =~= views(p.sources@).take(k as int).push(p.sources@[k as int]@));
                k += 1;
            }
            assert(views(p.sources@).take(p.sources.len() as int) =~= views(p.sources@));
            let ghost before = listing_views(out@);
            out.push((p.id.to_string(), files));
            assert(listing_views(out@) =~= before.push((package_label(p.id@), views(p.sources@).map_values(|s: Seq<char>| file_name_of(s)))));
        }
        i += 1;
    }
    assert(config.packages@.take(config.packages.len() as int) =~= config.packages@);
    out
}

/// Lists the names declared for more than one backend.
pub fn conflict_listing(config: &MergedConfig) -> (r: Vec<(String, Vec<String>)>)
    ensures
        listing_views(r@) == conflicts_of(first_names(declared_ids(config.packages@)), declared_ids(config.packages@)),
{
    let ghost ids = declared_ids(config.packages@);
    let names = names_in_order(config);
    let ghost nv = views(names@);
    let mut out: Vec<(String, Vec<String>)> = Vec::new();
    let mut i: usize = 0;
    while i < names.len()
        invariant
            i <= names@.len(),
            nv == views(names@),
            ids == declared_ids(config.packages@),
            listing_views(out@) == conflicts_of(nv.take(i as int), ids),
        decreases names.len() - i,
    {
        assert(nv.take(i + 1).drop_last() =~= nv.take(i as int));
        assert(nv.take(i + 1).last() == names@[i as int]@);
        let bs = backends_of_name(config, names[i].as_str());
        if bs.len() > 1 {
            let ghost before = listing_views(out@);
            out.push((names[i].clone(), bs));
            assert(listing_views(out@) =~= before.push((names@[i as int]@, backends_declaring(ids, names@[i as int]@))));
        }
        i += 1;
    }
    assert(nv.take(names.len() as int) =~= nv);
    out
}

/// Counts the declared packages of a backend.
fn packages_of_backend(config: &MergedConfig, backend: &str) -> (r: usize)
    ensures
        r == count_for_backend(declared_ids(config.packages@), backend@),
{
    let ghost ids = declared_ids(config.packages@);
    let mut n: usize = 0;
    let mut i: usize = 0;
    while i < config.packages.len()
        invariant
            i <= config.packages@.len(),
            ids == declared_ids(config.packages@),
            n == count_for_backend(ids.take(i as int), backend@),
            n <= i,
        decreases config.packages.len() - i,
    {
        assert(ids.take(i + 1).drop_last() =~= ids.take(i as int));
        assert(ids.take(i + 1).last() == config.packages@[i as int].id@);
        if same_text(config.packages[i].id.backend.name(), backend) {
            n += 1;
        }
        i += 1;
    }
    assert(ids.take(config.packages.len() as int) =~= ids);
    n
}

/// Decides what `check` reports: nothing more with `--validate`; with a
/// backend filter, the number of its packages (stopping when none); an
/// objection when both `--only-*` flags are given; else the duplicate
/// listing when asked for (`--duplicates` or `--only-duplicates`) and the
/// conflict listing when asked for and not only duplicates are.
pub fn check_report(config: &MergedConfig, options: &CheckOptions) -> (r: CheckReport)
    ensures
        options.validate_only ==> r is Validated,
        !options.validate_only && (options.backend_filter matches Some(b)
            && count_for_backend(declared_ids(config.packages@), lowercase(b@)) == 0)
            ==> (r matches CheckReport::NoPackagesForBackend(x) && x@ == options.backend_filter->0@),
        !options.validate_only && !(options.backend_filter matches Some(b)
            && count_for_backend(declared_ids(config.packages@), lowercase(b@)) == 0) ==> ({
            let count = match options.backend_filter {
                Some(b) => count_for_backend(declared_ids(config.packages@), lowercase(b@)),
                None => config.packages@.len(),
            };
            if options.only_duplicates && options.only_conflicts {
                r matches CheckReport::ConflictingOnlyFlags { package_count } && package_count == count
            } else {
                r matches CheckReport::Checked { package_count, duplicates, conflicts }
                    && package_count == count
                    && (if options.check_duplicates || options.only_duplicates {
                        duplicates matches Some(d) && listing_views(d@) == duplicates_of(config.packages@)
                    } else {
                        duplicates is None
                    })
                    && (if !options.only_duplicates && (options.check_conflicts || options.only_conflicts) {
                        conflicts matches Some(c) && listing_views(c@) == conflicts_of(first_names(declared_ids(config.packages@)), declared_ids(config.packages@))
                    } else {
                        conflicts is None
                    })
            }
        }),
{
    if options.validate_only {
        return CheckReport::Validated;
    }
    let package_count = match &options.backend_filter {
        Some(b) => {
            let lowered = to_lowercase(b.as_str());
            let n = packages_of_backend(config, lowered.as_str());
            if n == 0 {
                return CheckReport::NoPackagesForBackend(b.clone());
            }
            n
        },
        None => config.packages.len(),
    };
    if options.only_duplicates && options.only_conflicts {
        return CheckReport::ConflictingOnlyFlags { package_count };
    }
    let duplicates = if options.check_duplicates || options.only_duplicates {
        Some(duplicate_listing(config))
    } else {
        None
    };
    let conflicts = if !options.only_duplicates && (options.check_conflicts || options.only_conflicts) {
        Some(conflict_listing(config))
    } else {
        None
    };
    CheckReport::Checked { package_count, duplicates, conflicts }
}

} // verus!
