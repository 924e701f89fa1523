//! The extension protocol placeholder: which executables count as extensions.
use vstd::prelude::*;
use crate::outside::main_separator;
use crate::sorting::sorted_unique;
use crate::text::{chars_of, ends_with_chars, owned, starts_with_chars, string_of, strictly_sorted, views};

verus! {

/// The file-name prefix of extension executables.
pub open spec fn ext_prefix() -> Seq<char> {
    "declarch-ext-"@
}

/// The file-name prefix of extension executables.
pub fn extension_prefix() -> (r: String)
    ensures
        r@ == ext_prefix(),
{
    owned("declarch-ext-")
}

/// `name` without the first Windows executable suffix it ends with
/// (`.exe`, `.cmd`, `.bat`, `.ps1`, tried in that order).
pub open spec fn windows_ext_name(name: Seq<char>) -> Seq<char> {
    if ".exe"@.is_suffix_of(name) || ".cmd"@.is_suffix_of(name) || ".bat"@.is_suffix_of(name)
        || ".ps1"@.is_suffix_of(name) {
        name.take(name.len() - 4)
    } else {
        name
    }
}

/// The extension name of an executable's file name: on Windows without its
/// executable suffix, elsewhere unchanged.
pub fn normalize_ext_name_on(name: &str, windows: bool) -> (r: String)
    ensures
        r@ == (if windows { windows_ext_name(name@) } else { name@ }),
{
    if !windows {
        return owned(name);
    }
    let c = chars_of(name);
    let exe = chars_of(".exe");
    let cmd = chars_of(".cmd");
    let bat = chars_of(".bat");
    let ps1 = chars_of(".ps1");
    if ends_with_chars(c.as_slice(), exe.as_slice()) || ends_with_chars(c.as_slice(), cmd.as_slice())
        || ends_with_chars(c.as_slice(), bat.as_slice()) || ends_with_chars(c.as_slice(), ps1.as_slice()) {
        proof {
            reveal_strlit(".exe");
            reveal_strlit(".cmd");
            reveal_strlit(".bat");
            reveal_strlit(".ps1");
        }
        let mut v: Vec<char> = Vec::new();
        let mut i: usize = 0;
        let n = c.len() - 4;
        while i < n
            invariant
                n == c@.len() - 4,
                i <= n,
                v@ == c@.take(i as int),
            decreases n - i,
        {
            v.push(c[i]);
            i += 1;
            assert(v@ =~= c@.take(i as int));
        }
        string_of(v.as_slice())
    } else {
        owned(name)
    }
}

/// Whether this build targets Windows (its path separator is `\`).
pub fn on_windows() -> bool {
    main_separator() == '\\'
}

/// The extension name of an executable's file name for the platform this
/// crate was built for: unchanged, or without its Windows executable suffix.
pub fn normalize_ext_name(name: &str) -> (r: String)
    ensures
        r@ == name@ || r@ == windows_ext_name(name@),
{
    normalize_ext_name_on(name, on_windows())
}

/// The extension names among normalized file names.
pub open spec fn extension_names(names: Seq<Seq<char>>, windows: bool) -> Set<Seq<char>> {
    Set::new(|e: Seq<char>| exists|i: int| 0 <= i < names.len()
        && e == (if windows { windows_ext_name(#[trigger] names[i]) } else { names[i] })
        && ext_prefix().is_prefix_of(e))
}

/// The extensions found among executable file names, for the platform
/// this crate was built for (see `discovered_extensions_on`).
pub fn discovered_extensions(file_names: &Vec<String>) -> (r: Vec<String>)
    ensures
        strictly_sorted(views(r@)),
        exists|windows: bool| views(r@).to_set() == extension_names(views(file_names@), windows),
{
    discovered_extensions_on(file_names, on_windows())
}

/// The extensions found among executable file names on a platform (Windows
/// or not): their normalized names that carry the extension prefix, sorted,
/// each once.
pub fn discovered_extensions_on(file_names: &Vec<String>, windows: bool) -> (r: Vec<String>)
    ensures
        strictly_sorted(views(r@)),
        views(r@).to_set() == extension_names(views(file_names@), windows),
{
    let prefix = chars_of("declarch-ext-");
    let ghost names = views(file_names@);
    let mut found: Vec<String> = Vec::new();
    let mut i: usize = 0;
    while i < file_names.len()
        invariant
            i <= file_names.len(),
            names == views(file_names@),
            prefix@ == ext_prefix(),
            views(found@).to_set() == extension_names(names.take(i as int), windows),
        decreases file_names.len() - i,
    {
        let n = normalize_ext_name_on(file_names[i].as_str(), windows);
        let nc = chars_of(n.as_str());
        let ghost before = views(found@);
        let ghost pre = names.take(i as int);
        let ghost post = names.take(i + 1);
        assert(post[i as int] == names[i as int]);
        if starts_with_chars(nc.as_slice(), prefix.as_slice()) {
            found.push(n);
            proof {
                assert(views(found@) =~= before.push(nc@));
                before.lemma_push_to_set_commute(nc@);
                assert(views(found@).to_set() =~= extension_names(post, windows)) by {
                    assert forall|e: Seq<char>| extension_names(post, windows).contains(e) implies views(found@).to_set().contains(e) by {
                        let j = choose|j: int| 0 <= j < post.len()
                            && e == (if windows { windows_ext_name(#[trigger] post[j]) } else { post[j] })
                            && ext_prefix().is_prefix_of(e);
                        if j < i {
                            assert(pre[j] == post[j]);
                            assert(extension_names(pre, windows).contains(e));
                        }
                    }
                    assert forall|e: Seq<char>| views(found@).to_set().contains(e) implies extension_names(post, windows).contains(e) by {
                        if e != nc@ {
                            assert(before.to_set().contains(e));
                            let j = choose|j: int| 0 <= j < pre.len()
                                && e == (if windows { windows_ext_name(#[trigger] pre[j]) } else { pre[j] })
                                && ext_prefix().is_prefix_of(e);
                            assert(pre[j] == post[j]);
                        }
                    }
                }
            }
        } else {
            proof {
                assert(views(found@).to_set() =~= extension_names(post, windows)) by {
                    assert forall|e: Seq<char>| extension_names(post, windows).contains(e) implies views(found@).to_set().contains(e) by {
                        let j = choose|j: int| 0 <= j < post.len()
                            && e == (if windows { windows_ext_name(#[trigger] post[j]) } else { post[j] })
                            && ext_prefix().is_prefix_of(e);
                        if j < i {
                            assert(pre[j] == post[j]);
                            assert(extension_names(pre, windows).contains(e));
                        }
                    }
                    assert forall|e: Seq<char>| views(found@).to_set().contains(e) implies extension_names(post, windows).contains(e) by {
                        let j = choose|j: int| 0 <= j < pre.len()
                            && e == (if windows { windows_ext_name(#[trigger] pre[j]) } else { pre[j] })
                            && ext_prefix().is_prefix_of(e);
                        assert(pre[j] == post[j]);
                    }
                }
            }
        }
        i += 1;
    }
    assert(names.take(file_names.len() as int) =~= names);
    sorted_unique(&found)
}

/// The extensions to report: those found among the executable file names
/// on the search path, sorted, each once (see `discovered_extensions`).
pub fn run(executable_names: &Vec<String>) -> (r: Vec<String>)
    ensures
        strictly_sorted(views(r@)),
        exists|windows: bool| views(r@).to_set() == extension_names(views(executable_names@), windows),
{
    discovered_extensions(executable_names)
}

} // verus!
