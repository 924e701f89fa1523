//! The registry catalogue that `init --list` shows, and the grouping it
//! is shown in.
use vstd::prelude::*;
use crate::text::{chars_of, owned, same_text, split_all, split_all_chars, string_of, views};

verus! {

/// A catalogue entry: a backend's or a module's name, description and tags.
#[derive(Clone, Debug)]
pub struct CatalogEntry {
    pub name: String,
    pub description: String,
    pub tags: Vec<String>,
}

impl View for CatalogEntry {
    type V = (Seq<char>, Seq<char>, Seq<Seq<char>>);

    open spec fn view(&self) -> (Seq<char>, Seq<char>, Seq<Seq<char>>) {
        (self.name@, self.description@, views(self.tags@))
    }
}

/// The views of catalogue entries.
pub open spec fn entry_views(v: Seq<CatalogEntry>) -> Seq<(Seq<char>, Seq<char>, Seq<Seq<char>>)> {
    v.map_values(|e: CatalogEntry| e@)
}

/// An entry built from its parts.
fn entry(name: &str, description: &str, tags: Vec<String>) -> (r: CatalogEntry)
    ensures
        r@ == (name@, description@, views(tags@)),
{
    CatalogEntry { name: owned(name), description: owned(description), tags }
}
/// The backends the registry offers, by name.
pub open spec fn backend_catalog() -> Seq<(Seq<char>, Seq<char>, Seq<Seq<char>>)> {
    seq![
        ("apt"@, "Debian/Ubuntu package manager"@, seq!["debian"@, "ubuntu"@, "linux"@]),
        ("aur"@, "Meta backend for AUR (paru→yay→pacman fallback)"@, seq!["arch"@, "linux"@, "meta"@]),
        ("brew"@, "Homebrew for macOS/Linux"@, seq!["macos"@, "linux"@, "homebrew"@]),
        ("bun"@, "Fast JavaScript toolkit"@, seq!["nodejs"@, "javascript"@, "fast"@]),
        ("cargo"@, "Rust package manager"@, seq!["rust"@, "build-system"@]),
        ("dnf"@, "Fedora/RHEL package manager"@, seq!["fedora"@, "rhel"@, "linux"@]),
        ("flatpak"@, "Universal Linux apps"@, seq!["linux"@, "universal"@, "desktop"@]),
        ("gem"@, "Ruby package manager"@, seq!["ruby"@, "gems"@]),
        ("go"@, "Go package installer"@, seq!["go"@, "golang"@]),
        ("nix"@, "Nix functional package manager"@, seq!["nix"@, "nixos"@, "functional"@]),
        ("npm"@, "Node.js package manager"@, seq!["nodejs"@, "javascript"@]),
        ("pacman"@, "Arch Linux native package manager"@, seq!["arch"@, "linux"@, "native"@]),
        ("paru"@, "Feature-packed AUR helper"@, seq!["arch"@, "linux"@, "aur"@, "rust"@]),
        ("pip"@, "Python package installer"@, seq!["python"@, "pypi"@]),
        ("pnpm"@, "Fast, disk space efficient package manager"@, seq!["nodejs"@, "javascript"@, "fast"@]),
        ("snap"@, "Universal packages by Canonical"@, seq!["linux"@, "universal"@, "canonical"@]),
        ("soar"@, "Static binary package manager"@, seq!["linux"@, "static"@, "fast"@]),
        ("yarn"@, "Fast, reliable dependency management"@, seq!["nodejs"@, "javascript"@]),
        ("yay"@, "Yet Another Yogurt AUR helper"@, seq!["arch"@, "linux"@, "aur"@, "go"@]),
    ]
}

/// The modules the registry offers, by path.
pub open spec fn module_catalog() -> Seq<(Seq<char>, Seq<char>, Seq<Seq<char>>)> {
    seq![
        ("system/base"@, "Essential packages for any Linux system"@, seq!["base"@, "essential"@, "core"@]),
        ("desktop/hyprland"@, "Hyprland Wayland compositor setup"@, seq!["desktop"@, "wayland"@, "hyprland"@]),
        ("apps/flatpak-common"@, "Common GUI applications via Flatpak"@, seq!["apps"@, "gui"@, "flatpak"@]),
        ("development/nodejs"@, "Node.js development environment"@, seq!["dev"@, "nodejs"@, "javascript"@]),
        ("dev/rust"@, "Rust development tools"@, seq!["dev"@, "rust"@, "cargo"@]),
        ("apps/multimedia"@, "Multimedia applications"@, seq!["apps"@, "media"@, "audio"@, "video"@]),
    ]
}

/// The backends the registry offers.
pub fn known_backends() -> (r: Vec<CatalogEntry>)
    ensures
        entry_views(r@) == backend_catalog(),
{
    let mut r: Vec<CatalogEntry> = Vec::new();
    let mut tags: Vec<String> = Vec::new();
    tags.push(owned("debian"));
    tags.push(owned("ubuntu"));
    tags.push(owned("linux"));
    assert(views(tags@) =~= seq!["debian"@, "ubuntu"@, "linux"@]);
    r.push(entry("apt", "Debian/Ubuntu package manager", tags));
    let mut tags: Vec<String> = Vec::new();
    tags.push(owned("arch"));
    tags.push(owned("linux"));
    tags.push(owned("meta"));
    assert(views(tags@) =~= seq!["arch"@, "linux"@, "meta"@]);
    r.push(entry("aur", "Meta backend for AUR (paru→yay→pacman fallback)", tags));
    let mut tags: Vec<String> = Vec::new();
    tags.push(owned("macos"));
    tags.push(owned("linux"));
    tags.push(owned("homebrew"));
    assert(views(tags@) =~= seq!["macos"@, "linux"@, "homebrew"@]);
    r.push(entry("brew", "Homebrew for macOS/Linux", tags));
    let mut tags: Vec<String> = Vec::new();
    tags.push(owned("nodejs"));
    tags.push(owned("javascript"));
    tags.push(owned("fast"));
    assert(views(tags@) =~= seq!["nodejs"@, "javascript"@, "fast"@]);
    r.push(entry("bun", "Fast JavaScript toolkit", tags));
    let mut tags: Vec<String> = Vec::new();
    tags.push(owned("rust"));
    tags.push(owned("build-system"));
    assert(views(tags@) =~= seq!["rust"@, "build-system"@]);
    r.push(entry("cargo", "Rust package manager", tags));
    let mut tags: Vec<String> = Vec::new();
    tags.push(owned("fedora"));
    tags.push(owned("rhel"));
    tags.push(owned("linux"));
    assert(views(tags@) =~= seq!["fedora"@, "rhel"@, "linux"@]);
    r.push(entry("dnf", "Fedora/RHEL package manager", tags));
    let mut tags: Vec<String> = Vec::new();
    tags.push(owned("linux"));
    tags.push(owned("universal"));
    tags.push(owned("desktop"));
    assert(views(tags@) =~= seq!["linux"@, "universal"@, "desktop"@]);
    r.push(entry("flatpak", "Universal Linux apps", tags));
    let mut tags: Vec<String> = Vec::new();
    tags.push(owned("ruby"));
    tags.push(owned("gems"));
    assert(views(tags@) =~= seq!["ruby"@, "gems"@]);
    r.push(entry("gem", "Ruby package manager", tags));
    let mut tags: Vec<String> = Vec::new();
    tags.push(owned("go"));
    tags.push(owned("golang"));
    assert(views(tags@) =~= seq!["go"@, "golang"@]);
    r.push(entry("go", "Go package installer", tags));
    let mut tags: Vec<String> = Vec::new();
    tags.push(owned("nix"));
    tags.push(owned("nixos"));
    tags.push(owned("functional"));
    assert(views(tags@) =~= seq!["nix"@, "nixos"@, "functional"@]);
    r.push(entry("nix", "Nix functional package manager", tags));
    let mut tags: Vec<String> = Vec::new();
    tags.push(owned("nodejs"));
    tags.push(owned("javascript"));
    assert(views(tags@) =~= seq!["nodejs"@, "javascript"@]);
    r.push(entry("npm", "Node.js package manager", tags));
    let mut tags: Vec<String> = Vec::new();
    tags.push(owned("arch"));
    tags.push(owned("linux"));
    tags.push(owned("native"));
    assert(views(tags@) =~= seq!["arch"@, "linux"@, "native"@]);
    r.push(entry("pacman", "Arch Linux native package manager", tags));
    let mut tags: Vec<String> = Vec::new();
    tags.push(owned("arch"));
    tags.push(owned("linux"));
    tags.push(owned("aur"));
    tags.push(owned("rust"));
    assert(views(tags@) =~= seq!["arch"@, "linux"@, "aur"@, "rust"@]);
    r.push(entry("paru", "Feature-packed AUR helper", tags));
    let mut tags: Vec<String> = Vec::new();
    tags.push(owned("python"));
    tags.push(owned("pypi"));
    assert(views(tags@) =~= seq!["python"@, "pypi"@]);
    r.push(entry("pip", "Python package installer", tags));
    let mut tags: Vec<String> = Vec::new();
    tags.push(owned("nodejs"));
    tags.push(owned("javascript"));
    tags.push(owned("fast"));
    assert(views(tags@) =~= seq!["nodejs"@, "javascript"@, "fast"@]);
    r.push(entry("pnpm", "Fast, disk space efficient package manager", tags));
    let mut tags: Vec<String> = Vec::new();
    tags.push(owned("linux"));
    tags.push(owned("universal"));
    tags.push(owned("canonical"));
    assert(views(tags@) =~= seq!["linux"@, "universal"@, "canonical"@]);
    r.push(entry("snap", "Universal packages by Canonical", tags));
    let mut tags: Vec<String> = Vec::new();
    tags.push(owned("linux"));
    tags.push(owned("static"));
    tags.push(owned("fast"));
    assert(views(tags@) =~= seq!["linux"@, "static"@, "fast"@]);
    r.push(entry("soar", "Static binary package manager", tags));
    let mut tags: Vec<String> = Vec::new();
    tags.push(owned("nodejs"));
    tags.push(owned("javascript"));
    assert(views(tags@) =~= seq!["nodejs"@, "javascript"@]);
    r.push(entry("yarn", "Fast, reliable dependency management", tags));
    let mut tags: Vec<String> = Vec::new();
    tags.push(owned("arch"));
    tags.push(owned("linux"));
    tags.push(owned("aur"));
    tags.push(owned("go"));
    assert(views(tags@) =~= seq!["arch"@, "linux"@, "aur"@, "go"@]);
    r.push(entry("yay", "Yet Another Yogurt AUR helper", tags));
    assert(entry_views(r@) =~= backend_catalog());
    r
}

/// The modules the registry offers.
pub fn known_modules() -> (r: Vec<CatalogEntry>)
    ensures
        entry_views(r@) == module_catalog(),
{
    let mut r: Vec<CatalogEntry> = Vec::new();
    let mut tags: Vec<String> = Vec::new();
    tags.push(owned("base"));
    tags.push(owned("essential"));
    tags.push(owned("core"));
    assert(views(tags@) =~= seq!["base"@, "essential"@, "core"@]);
    r.push(entry("system/base", "Essential packages for any Linux system", tags));
    let mut tags: Vec<String> = Vec::new();
    tags.push(owned("desktop"));
    tags.push(owned("wayland"));
    tags.push(owned("hyprland"));
    assert(views(tags@) =~= seq!["desktop"@, "wayland"@, "hyprland"@]);
    r.push(entry("desktop/hyprland", "Hyprland Wayland compositor setup", tags));
    let mut tags: Vec<String> = Vec::new();
    tags.push(owned("apps"));
    tags.push(owned("gui"));
    tags.push(owned("flatpak"));
    assert(views(tags@) =~= seq!["apps"@, "gui"@, "flatpak"@]);
    r.push(entry("apps/flatpak-common", "Common GUI applications via Flatpak", tags));
    let mut tags: Vec<String> = Vec::new();
    tags.push(owned("dev"));
    tags.push(owned("nodejs"));
    tags.push(owned("javascript"));
    assert(views(tags@) =~= seq!["dev"@, "nodejs"@, "javascript"@]);
    r.push(entry("development/nodejs", "Node.js development environment", tags));
    let mut tags: Vec<String> = Vec::new();
    tags.push(owned("dev"));
    tags.push(owned("rust"));
    tags.push(owned("cargo"));
    assert(views(tags@) =~= seq!["dev"@, "rust"@, "cargo"@]);
    r.push(entry("dev/rust", "Rust development tools", tags));
    let mut tags: Vec<String> = Vec::new();
    tags.push(owned("apps"));
    tags.push(owned("media"));
    tags.push(owned("audio"));
    tags.push(owned("video"));
    assert(views(tags@) =~= seq!["apps"@, "media"@, "audio"@, "video"@]);
    r.push(entry("apps/multimedia", "Multimedia applications", tags));
    assert(entry_views(r@) =~= module_catalog());
    r
}

/// The backends listed as system package managers.
pub open spec fn system_backend(n: Seq<char>) -> bool {
    n == "apt"@ || n == "aur"@ || n == "dnf"@ || n == "pacman"@ || n == "paru"@ || n == "yay"@ || n == "flatpak"@ || n == "snap"@ || n == "nix"@ || n == "soar"@ || n == "brew"@
}

/// The backends listed as language package managers.
pub open spec fn language_backend(n: Seq<char>) -> bool {
    n == "npm"@ || n == "yarn"@ || n == "pnpm"@ || n == "bun"@ || n == "pip"@ || n == "cargo"@ || n == "gem"@ || n == "go"@
}

/// Whether a backend is a system package manager.
fn is_system_backend(n: &str) -> (r: bool)
    ensures
        r == system_backend(n@),
{
    same_text(n, "apt") || same_text(n, "aur") || same_text(n, "dnf") || same_text(n, "pacman") || same_text(n, "paru") || same_text(n, "yay") || same_text(n, "flatpak") || same_text(n, "snap") || same_text(n, "nix") || same_text(n, "soar") || same_text(n, "brew")
}

/// Whether a backend is a language package manager.
fn is_language_backend(n: &str) -> (r: bool)
    ensures
        r == language_backend(n@),
{
    same_text(n, "npm") || same_text(n, "yarn") || same_text(n, "pnpm") || same_text(n, "bun") || same_text(n, "pip") || same_text(n, "cargo") || same_text(n, "gem") || same_text(n, "go")
}

/// Whether a module path is one the registry offers.
pub open spec fn registry_module(n: Seq<char>) -> bool {
    n == "system/base"@ || n == "desktop/hyprland"@ || n == "apps/flatpak-common"@ || n == "development/nodejs"@ || n == "dev/rust"@ || n == "apps/multimedia"@
}

/// Whether the registry offers a module at this path.
pub fn is_module_available(name: &str) -> (r: bool)
    ensures
        r == registry_module(name@),
{
    same_text(name, "system/base") || same_text(name, "desktop/hyprland") || same_text(name, "apps/flatpak-common") || same_text(name, "development/nodejs") || same_text(name, "dev/rust") || same_text(name, "apps/multimedia")
}

/// The `(name, description)` of the entries, in order, that are system
/// package managers (`system`) or language package managers (otherwise).
pub open spec fn listed(entries: Seq<(Seq<char>, Seq<char>, Seq<Seq<char>>)>, system: bool) -> Seq<(Seq<char>, Seq<char>)>
    decreases entries.len(),
{
    if entries.len() == 0 {
        Seq::empty()
    } else {
        let rest = listed(entries.drop_last(), system);
        let e = entries.last();
        if (system && system_backend(e.0)) || (!system && language_backend(e.0)) {
            rest.push((e.0, e.1))
        } else {
            rest
        }
    }
}

/// The views of `(name, description)` pairs.
pub open spec fn pair_views(v: Seq<(String, String)>) -> Seq<(Seq<char>, Seq<char>)> {
    v.map_values(|p: (String, String)| (p.0@, p.1@))
}

/// The backends `init --list backends` shows, in two groups.
#[derive(Clone, Debug)]
pub struct BackendListing {
    /// System package managers: name and description.
    pub system: Vec<(String, String)>,
    /// Language package managers: name and description.
    pub language: Vec<(String, String)>,
}

/// The entries of one group, in catalogue order.
fn listed_of(entries: &Vec<CatalogEntry>, system: bool) -> (r: Vec<(String, String)>)
    ensures
        pair_views(r@) == listed(entry_views(entries@), system),
{
    let ghost es = entry_views(entries@);
    let mut r: Vec<(String, String)> = Vec::new();
    let mut i: usize = 0;
    while i < entries.len()
        invariant
            i <= entries.len(),
            es == entry_views(entries@),
            pair_views(r@) == listed(es.take(i as int), system),
        decreases entries.len() - i,
    {
        assert(es.take(i + 1).drop_last() =~= es.take(i as int));
        assert(es.take(i + 1).last() == entries@[i as int]@);
        let e = &entries[i];
        let keep = if system {
            is_system_backend(e.name.as_str())
        } else {
            is_language_backend(e.name.as_str())
        };
        if keep {
            let ghost before = pair_views(r@);
            r.push((e.name.clone(), e.description.clone()));
            assert(pair_views(r@) =~= before.push((e.name@, e.description@)));
        }
        i += 1;
    }
    assert(es.take(entries.len() as int) =~= es);
    r
}

/// Splits catalogue entries into the system and the language package
/// managers, each in catalogue order.
pub fn backend_listing(entries: &Vec<CatalogEntry>) -> (r: BackendListing)
    ensures
        pair_views(r.system@) == listed(entry_views(entries@), true),
        pair_views(r.language@) == listed(entry_views(entries@), false),
{
    BackendListing { system: listed_of(entries, true), language: listed_of(entries, false) }
}

/// The category of a module path: its part before the first `/`.
pub open spec fn category_of(path: Seq<char>) -> Seq<char> {
    split_all(path, '/')[0]
}

/// The name of a module inside its category: the part after the first `/`
/// (up to the next one), or the whole path when it has none.
pub open spec fn short_name(path: Seq<char>) -> Seq<char> {
    if split_all(path, '/').len() > 1 {
        split_all(path, '/')[1]
    } else {
        path
    }
}

/// How a module is shown: short name, description and its tags joined by `, `.
pub open spec fn module_line(e: (Seq<char>, Seq<char>, Seq<Seq<char>>)) -> (Seq<char>, Seq<char>, Seq<char>) {
    (short_name(e.0), e.1, crate::text::joined(e.2, ", "@))
}

/// The categories of the entries, each once, in order of first appearance.
pub open spec fn categories(entries: Seq<(Seq<char>, Seq<char>, Seq<Seq<char>>)>) -> Seq<Seq<char>>
    decreases entries.len(),
{
    if entries.len() == 0 {
        Seq::empty()
    } else {
        let rest = categories(entries.drop_last());
        let c = category_of(entries.last().0);
        if rest.contains(c) {
            rest
        } else {
            rest.push(c)
        }
    }
}

/// The lines of the entries of category `c`, in order.
pub open spec fn lines_of(entries: Seq<(Seq<char>, Seq<char>, Seq<Seq<char>>)>, c: Seq<char>) -> Seq<(Seq<char>, Seq<char>, Seq<char>)>
    decreases entries.len(),
{
    if entries.len() == 0 {
        Seq::empty()
    } else {
        let rest = lines_of(entries.drop_last(), c);
        if category_of(entries.last().0) == c {
            rest.push(module_line(entries.last()))
        } else {
            rest
        }
    }
}

/// One category of `init --list modules` and its modules.
#[derive(Clone, Debug)]
pub struct ModuleGroup {
    pub category: String,
    /// Short name, description and joined tags of each module.
    pub modules: Vec<(String, String, String)>,
}

/// The views of a group's module lines.
pub open spec fn line_views(v: Seq<(String, String, String)>) -> Seq<(Seq<char>, Seq<char>, Seq<char>)> {
    v.map_values(|l: (String, String, String)| (l.0@, l.1@, l.2@))
}

/// The line of one entry.
fn line_of(e: &CatalogEntry) -> (r: (String, String, String))
    ensures
        (r.0@, r.1@, r.2@) == module_line(e@),
{
    let c = chars_of(e.name.as_str());
    let parts = split_all_chars(c.as_slice(), '/');
    proof {
        crate::text::lemma_split_all_nonempty(c@, '/');
    }
    let ghost pv = parts@.map_values(|l: Vec<char>| l@);
    let short = if parts.len() > 1 {
        assert(pv[1] == parts@[1]@);
        string_of(parts[1].as_slice())
    } else {
        e.name.clone()
    };
    (short, e.description.clone(), crate::text::join(&e.tags, ", "))
}

/// The category of one entry.
fn category_text(e: &CatalogEntry) -> (r: String)
    ensures
        r@ == category_of(e.name@),
{
    let c = chars_of(e.name.as_str());
    let parts = split_all_chars(c.as_slice(), '/');
    proof {
        crate::text::lemma_split_all_nonempty(c@, '/');
    }
    let ghost pv = parts@.map_values(|l: Vec<char>| l@);
    assert(pv[0] == parts@[0]@);
    string_of(parts[0].as_slice())
}

/// Groups module entries by category: categories in order of first
/// appearance, modules in catalogue order within each.
pub fn module_groups(entries: &Vec<CatalogEntry>) -> (r: Vec<ModuleGroup>)
    ensures
        r@.map_values(|g: ModuleGroup| g.category@) == categories(entry_views(entries@)),
        forall|j: int| 0 <= j < r@.len() ==> line_views(#[trigger] r@[j].modules@) == lines_of(entry_views(entries@), r@[j].category@),
{
    let ghost es = entry_views(entries@);
    let mut groups: Vec<ModuleGroup> = Vec::new();
    let mut i: usize = 0;
    while i < entries.len()
        invariant
            i <= entries.len(),
            es == entry_views(entries@),
            groups@.map_values(|g: ModuleGroup| g.category@) == categories(es.take(i as int)),
            forall|j: int| 0 <= j < groups@.len() ==> line_views(#[trigger] groups@[j].modules@) == lines_of(es.take(i as int), groups@[j].category@),
        decreases entries.len() - i,
    {
        let ghost pre = es.take(i as int);
        let ghost post = es.take(i + 1);
        assert(post.drop_last() =~= pre);
        assert(post.last() == entries@[i as int]@);
        let e = &entries[i];
        let cat = category_text(e);
        let line = line_of(e);
        let ghost cats = groups@.map_values(|g: ModuleGroup| g.category@);
        let mut k: usize = 0;
        while k < groups.len() && !same_text(groups[k].category.as_str(), cat.as_str())
            invariant
                k <= groups@.len(),
                cats == groups@.map_values(|g: ModuleGroup| g.category@),
                forall|j: int| 0 <= j < k ==> groups@[j].category@ != cat@,
            decreases groups.len() - k,
        {
            k += 1;
        }
        if k < groups.len() {
            let ghost old_groups = groups@;
            let mut g = groups.remove(k);
            let ghost gm = line_views(g.modules@);
            g.modules.push(line);
            assert(line_views(g.modules@) =~= gm.push(module_line(entries@[i as int]@)));
            groups.insert(k, g);
            proof {
                assert(groups@ =~= old_groups.update(k as int, g));
                assert(old_groups[k as int].category@ == cat@);
                assert(cats[k as int] == cat@);
                assert(cats.contains(cat@));
                assert(groups@.map_values(|g: ModuleGroup| g.category@) =~= cats);
                lemma_categories_unique(pre);
                assert forall|j: int| 0 <= j < groups@.len() implies line_views(#[trigger] groups@[j].modules@) == lines_of(post, groups@[j].category@) by {
                    if j != k {
                        assert(groups@[j] == old_groups[j]);
                        assert(cats[j] == old_groups[j].category@);
                        assert(cats[j] != cats[k as int]);
                    }
                }
            }
        } else {
            let ghost old_groups = groups@;
            let mut modules: Vec<(String, String, String)> = Vec::new();
            modules.push(line);
            groups.push(ModuleGroup { category: cat, modules });
            proof {
                assert(!cats.contains(category_of(entries@[i as int].name@))) by {
                    if cats.contains(category_of(entries@[i as int].name@)) {
                        let j = choose|j: int| 0 <= j < cats.len() && cats[j] == category_of(entries@[i as int].name@);
                        assert(old_groups[j].category@ == cats[j]);
                    }
                }
                assert(groups@.map_values(|g: ModuleGroup| g.category@) =~= cats.push(category_of(entries@[i as int].name@)));
                assert forall|j: int| 0 <= j < groups@.len() implies line_views(#[trigger] groups@[j].modules@) == lines_of(post, groups@[j].category@) by {
                    if j < old_groups.len() {
                        assert(groups@[j] == old_groups[j]);
                        assert(old_groups[j].category@ == cats[j]);
                    } else {
                        lemma_lines_of_absent(pre, category_of(entries@[i as int].name@));
                        assert(line_views(groups@[j].modules@) =~= seq![module_line(entries@[i as int]@)]);
                    }
                }
            }
        }
        i += 1;
    }
    assert(es.take(entries.len() as int) =~= es);
    groups
}

/// Categories are listed once each.
pub proof fn lemma_categories_unique(entries: Seq<(Seq<char>, Seq<char>, Seq<Seq<char>>)>)
    ensures
        categories(entries).no_duplicates(),
    decreases entries.len(),
{
    if entries.len() > 0 {
        lemma_categories_unique(entries.drop_last());
    }
}

/// A category that no entry has has no lines.
proof fn lemma_lines_of_absent(entries: Seq<(Seq<char>, Seq<char>, Seq<Seq<char>>)>, c: Seq<char>)
    requires
        !categories(entries).contains(c),
    ensures
        lines_of(entries, c) == Seq::<(Seq<char>, Seq<char>, Seq<char>)>::empty(),
    decreases entries.len(),
{
    if entries.len() > 0 {
        let rest = categories(entries.drop_last());
        let d = category_of(entries.last().0);
        if rest.contains(c) {
            let j = choose|j: int| 0 <= j < rest.len() && rest[j] == c;
            if rest.contains(d) {
                assert(categories(entries)[j] == c);
            } else {
                assert(categories(entries)[j] == c);
            }
        }
        if d == c {
            if rest.contains(d) {
                assert(categories(entries) == rest);
            } else {
                assert(categories(entries).last() == c);
            }
        }
        lemma_lines_of_absent(entries.drop_last(), c);
    }
}

/// What `init --list backends` shows: the catalogue's system package
/// managers and its language package managers, each in catalogue order.
pub fn list_available_backends() -> (r: BackendListing)
    ensures
        pair_views(r.system@) == listed(backend_catalog(), true),
        pair_views(r.language@) == listed(backend_catalog(), false),
{
    backend_listing(&known_backends())
}

/// What `init --list modules` shows: the catalogue's modules grouped by
/// category (see `module_groups`).
pub fn list_available_modules() -> (r: Vec<ModuleGroup>)
    ensures
        r@.map_values(|g: ModuleGroup| g.category@) == categories(module_catalog()),
        forall|j: int| 0 <= j < r@.len() ==> line_views(#[trigger] r@[j].modules@) == lines_of(module_catalog(), r@[j].category@),
{
    module_groups(&known_modules())
}

} // verus!
