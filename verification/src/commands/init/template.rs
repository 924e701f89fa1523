//! The backend definitions `init` writes for a backend the registry does
//! not provide.
use vstd::prelude::*;
use crate::outside::local_date;
use crate::text::{owned, push_str, same_text, string_of};

verus! {

/// The definition of the `aur` backend.
pub open spec fn aur_template() -> Seq<char> {
    "// aur - AUR Helper with Fallback Chain\n// \n// This backend provides a complete fallback chain:\n//   aur (alias) → paru → yay → pacman\n//\n// Behavior:\n//   1. If 'paru' is installed, use it (best AUR helper)\n//   2. Else if 'yay' is installed, use it (alternative AUR helper)\n//   3. Else if 'pacman' backend exists, fallback to it (official repos only)\n//\n// Installation:\n//   paru:  pacman -S paru      (or from AUR: paru-bin)\n//   yay:   pacman -S yay       (or from AUR: yay-bin)\n\nbackend \"aur\" {\n    meta {\n        title \"AUR Helper\"\n        description \"Arch User Repository with automatic fallback chain\"\n        kdl-maintainer \"declarch\"\n        tags \"package-manager\" \"aur\" \"arch\" \"fallback\"\n        platforms \"arch\"\n        requires \"paru\" \"yay\" \"pacman\"\n    }\n    \n    // Binary fallback chain: try paru first, then yay\n    binary \"paru\" \"yay\"\n    \n    // List all installed packages (official repo + AUR)\n    // Output format: \"package-name version\"\n    list \"{binary} -Q\" {\n        format \"whitespace\"\n        name_col 0\n        version_col 1\n    }\n    \n    // Install packages (supports both AUR and official repos)\n    install \"{binary} -S --needed {packages}\"\n    \n    // Remove packages\n    remove \"{binary} -R {packages}\"\n    \n    // Search packages in AUR and repos\n    search \"{binary} -Ss {query}\" {\n        format \"whitespace\"\n        name_col 0\n        desc_col 1\n    }\n    \n    // If no AUR helper available, fallback to pacman\n    fallback \"pacman\"\n}\n"@
}

/// The definition of the `pacman` backend.
pub open spec fn pacman_template() -> Seq<char> {
    "// pacman - Arch Linux Native Package Manager\n//\n// This is the ultimate fallback when no AUR helper is available.\n// It only supports official repositories, not AUR.\n\nbackend \"pacman\" {\n    meta {\n        title \"Pacman\"\n        description \"Arch Linux native package manager (official repos only)\"\n        kdl-maintainer \"declarch\"\n        tags \"package-manager\" \"arch\" \"native\" \"official\"\n        platforms \"arch\"\n        requires \"pacman\"\n    }\n    \n    binary \"pacman\"\n    \n    list \"pacman -Q\" {\n        format \"whitespace\"\n        name_col 0\n        version_col 1\n    }\n    \n    install \"pacman -S --needed {packages}\"\n    remove \"pacman -R {packages}\"\n    \n    search \"pacman -Ss {query}\" {\n        format \"whitespace\"\n        name_col 0\n        desc_col 1\n    }\n    \n    needs_sudo \"true\"\n}\n"@
}

/// The definition of the `flatpak` backend.
pub open spec fn flatpak_template() -> Seq<char> {
    "// flatpak - Universal Linux Application Sandboxing\n//\n// Flatpak runs applications in isolated sandboxes with their own dependencies.\n// Applications are identified by reverse DNS: com.vendor.AppName\n\nbackend \"flatpak\" {\n    meta {\n        title \"Flatpak\"\n        description \"Universal Linux application sandboxing\"\n        kdl-maintainer \"declarch\"\n        tags \"package-manager\" \"flatpak\" \"sandbox\" \"universal\" \"gui\"\n        platforms \"linux\"\n        requires \"flatpak\"\n    }\n    \n    binary \"flatpak\"\n    \n    // List installed applications\n    // Output: Application ID    Version    Branch    Installation\n    list \"flatpak list --app --columns=application,version\" {\n        format \"tsv\"\n        name_col 0\n        version_col 1\n    }\n    \n    // Install from flathub (default remote)\n    install \"flatpak install flathub {packages}\"\n    \n    // Remove applications\n    remove \"flatpak uninstall {packages}\"\n    \n    // Search flathub\n    search \"flatpak search {query}\" {\n        format \"tsv\"\n        name_col 2\n        desc_col 1\n    }\n    \n    // Auto-confirm operations\n    noconfirm \"-y\"\n    \n    // Flatpak doesn't need sudo for user installations\n    needs_sudo \"false\"\n}\n"@
}

/// The `aur` backend: an AUR helper with a `paru`, `yay`, `pacman` chain.
pub fn generate_aur_backend_template() -> (r: String)
    ensures
        r@ == aur_template(),
{
    owned("// aur - AUR Helper with Fallback Chain\n// \n// This backend provides a complete fallback chain:\n//   aur (alias) → paru → yay → pacman\n//\n// Behavior:\n//   1. If 'paru' is installed, use it (best AUR helper)\n//   2. Else if 'yay' is installed, use it (alternative AUR helper)\n//   3. Else if 'pacman' backend exists, fallback to it (official repos only)\n//\n// Installation:\n//   paru:  pacman -S paru      (or from AUR: paru-bin)\n//   yay:   pacman -S yay       (or from AUR: yay-bin)\n\nbackend \"aur\" {\n    meta {\n        title \"AUR Helper\"\n        description \"Arch User Repository with automatic fallback chain\"\n        kdl-maintainer \"declarch\"\n        tags \"package-manager\" \"aur\" \"arch\" \"fallback\"\n        platforms \"arch\"\n        requires \"paru\" \"yay\" \"pacman\"\n    }\n    \n    // Binary fallback chain: try paru first, then yay\n    binary \"paru\" \"yay\"\n    \n    // List all installed packages (official repo + AUR)\n    // Output format: \"package-name version\"\n    list \"{binary} -Q\" {\n        format \"whitespace\"\n        name_col 0\n        version_col 1\n    }\n    \n    // Install packages (supports both AUR and official repos)\n    install \"{binary} -S --needed {packages}\"\n    \n    // Remove packages\n    remove \"{binary} -R {packages}\"\n    \n    // Search packages in AUR and repos\n    search \"{binary} -Ss {query}\" {\n        format \"whitespace\"\n        name_col 0\n        desc_col 1\n    }\n    \n    // If no AUR helper available, fallback to pacman\n    fallback \"pacman\"\n}\n")
}

/// The `pacman` backend: official repositories only.
pub fn generate_pacman_backend_template() -> (r: String)
    ensures
        r@ == pacman_template(),
{
    owned("// pacman - Arch Linux Native Package Manager\n//\n// This is the ultimate fallback when no AUR helper is available.\n// It only supports official repositories, not AUR.\n\nbackend \"pacman\" {\n    meta {\n        title \"Pacman\"\n        description \"Arch Linux native package manager (official repos only)\"\n        kdl-maintainer \"declarch\"\n        tags \"package-manager\" \"arch\" \"native\" \"official\"\n        platforms \"arch\"\n        requires \"pacman\"\n    }\n    \n    binary \"pacman\"\n    \n    list \"pacman -Q\" {\n        format \"whitespace\"\n        name_col 0\n        version_col 1\n    }\n    \n    install \"pacman -S --needed {packages}\"\n    remove \"pacman -R {packages}\"\n    \n    search \"pacman -Ss {query}\" {\n        format \"whitespace\"\n        name_col 0\n        desc_col 1\n    }\n    \n    needs_sudo \"true\"\n}\n")
}

/// The `flatpak` backend.
pub fn generate_flatpak_backend_template() -> (r: String)
    ensures
        r@ == flatpak_template(),
{
    owned("// flatpak - Universal Linux Application Sandboxing\n//\n// Flatpak runs applications in isolated sandboxes with their own dependencies.\n// Applications are identified by reverse DNS: com.vendor.AppName\n\nbackend \"flatpak\" {\n    meta {\n        title \"Flatpak\"\n        description \"Universal Linux application sandboxing\"\n        kdl-maintainer \"declarch\"\n        tags \"package-manager\" \"flatpak\" \"sandbox\" \"universal\" \"gui\"\n        platforms \"linux\"\n        requires \"flatpak\"\n    }\n    \n    binary \"flatpak\"\n    \n    // List installed applications\n    // Output: Application ID    Version    Branch    Installation\n    list \"flatpak list --app --columns=application,version\" {\n        format \"tsv\"\n        name_col 0\n        version_col 1\n    }\n    \n    // Install from flathub (default remote)\n    install \"flatpak install flathub {packages}\"\n    \n    // Remove applications\n    remove \"flatpak uninstall {packages}\"\n    \n    // Search flathub\n    search \"flatpak search {query}\" {\n        format \"tsv\"\n        name_col 2\n        desc_col 1\n    }\n    \n    // Auto-confirm operations\n    noconfirm \"-y\"\n    \n    // Flatpak doesn't need sudo for user installations\n    needs_sudo \"false\"\n}\n")
}

/// The definition written for a custom backend `name`, dated `date`.
pub open spec fn generic_template(name: Seq<char>, date: Seq<char>) -> Seq<char> {
    "// "@ + name + " - Custom Backend Configuration\n// \n// This is a template for the '"@ + name + "' package manager.\n// Customize the commands below to match your package manager's syntax.\n//\n// Common placeholders:\n//   {packages}  - Space-separated package names\n//   {query}     - Search query (for search command)\n//\n// Output formats:\n//   - whitespace: Space-separated columns (default)\n//   - tsv:        Tab-separated values\n//   - json:       JSON output with configurable path\n//   - regex:      Regular expression pattern matching\n\nbackend \""@ + name + "\" {\n    meta {\n        title \""@ + name + "\"\n        description \"Custom "@ + name + " backend configuration\"\n        kdl-maintainer \"user\"\n        tags \"package-manager\" \""@ + name + "\"\n        created \""@ + date + "\"\n        platforms \"linux\"\n        requires \""@ + name + "\"\n    }\n    \n    // Binary to use (can specify multiple for fallback)\n    binary \""@ + name + "\"\n    \n    // Command to list installed packages\n    //\n    // Example outputs and formats:\n    // - \"package version\"        → format \"whitespace\", name_col 0, version_col 1\n    // - \"package\\tversion\"       → format \"tsv\", name_col 0, version_col 1\n    // - '{\"packages\":[{\"name\":\"x\"}]}' → format \"json\", json { path \"packages\" name_key \"name\" }\n    list \""@ + name + " list\" {\n        format \"whitespace\"\n        name_col 0\n        // version_col 1  // Uncomment if output includes version\n    }\n    \n    // Install command\n    // {packages} will be replaced with space-separated package names\n    install \""@ + name + " install {packages}\"\n    \n    // Remove/uninstall command\n    remove \""@ + name + " remove {packages}\"\n    \n    // Search command (optional but recommended)\n    // Uncomment and customize if your package manager supports search\n    // search \""@ + name + " search {query}\" {\n    //     format \"whitespace\"\n    //     name_col 0\n    //     desc_col 1\n    // }\n    \n    // Auto-confirmation flag (optional)\n    // Uncomment if your package manager has a \"yes to all\" flag\n    // noconfirm \"-y\"\n    \n    // Whether this backend requires sudo (default: false)\n    // Uncomment if install/remove need root privileges\n    // needs_sudo \"true\"\n    \n    // Fallback backend (optional)\n    // If this backend's binary is not found, use another backend instead\n    // fallback \"alternative-backend\"\n}\n"@
}

/// The definition for a custom backend `name`, dated `date` (`YYYY-MM-DD`).
pub fn generic_backend_template_on(name: &str, date: &str) -> (r: String)
    ensures
        r@ == generic_template(name@, date@),
{
    let mut v: Vec<char> = Vec::new();
    push_str(&mut v, "// ");
    push_str(&mut v, name);
    push_str(&mut v, " - Custom Backend Configuration\n// \n// This is a template for the '");
    push_str(&mut v, name);
    push_str(&mut v, "' package manager.\n// Customize the commands below to match your package manager's syntax.\n//\n// Common placeholders:\n//   {packages}  - Space-separated package names\n//   {query}     - Search query (for search command)\n//\n// Output formats:\n//   - whitespace: Space-separated columns (default)\n//   - tsv:        Tab-separated values\n//   - json:       JSON output with configurable path\n//   - regex:      Regular expression pattern matching\n\nbackend \"");
    push_str(&mut v, name);
    push_str(&mut v, "\" {\n    meta {\n        title \"");
    push_str(&mut v, name);
    push_str(&mut v, "\"\n        description \"Custom ");
    push_str(&mut v, name);
    push_str(&mut v, " backend configuration\"\n        kdl-maintainer \"user\"\n        tags \"package-manager\" \"");
    push_str(&mut v, name);
    push_str(&mut v, "\"\n        created \"");
    push_str(&mut v, date);
    push_str(&mut v, "\"\n        platforms \"linux\"\n        requires \"");
    push_str(&mut v, name);
    push_str(&mut v, "\"\n    }\n    \n    // Binary to use (can specify multiple for fallback)\n    binary \"");
    push_str(&mut v, name);
    push_str(&mut v, "\"\n    \n    // Command to list installed packages\n    //\n    // Example outputs and formats:\n    // - \"package version\"        → format \"whitespace\", name_col 0, version_col 1\n    // - \"package\\tversion\"       → format \"tsv\", name_col 0, version_col 1\n    // - '{\"packages\":[{\"name\":\"x\"}]}' → format \"json\", json { path \"packages\" name_key \"name\" }\n    list \"");
    push_str(&mut v, name);
    push_str(&mut v, " list\" {\n        format \"whitespace\"\n        name_col 0\n        // version_col 1  // Uncomment if output includes version\n    }\n    \n    // Install command\n    // {packages} will be replaced with space-separated package names\n    install \"");
    push_str(&mut v, name);
    push_str(&mut v, " install {packages}\"\n    \n    // Remove/uninstall command\n    remove \"");
    push_str(&mut v, name);
    push_str(&mut v, " remove {packages}\"\n    \n    // Search command (optional but recommended)\n    // Uncomment and customize if your package manager supports search\n    // search \"");
    push_str(&mut v, name);
    push_str(&mut v, " search {query}\" {\n    //     format \"whitespace\"\n    //     name_col 0\n    //     desc_col 1\n    // }\n    \n    // Auto-confirmation flag (optional)\n    // Uncomment if your package manager has a \"yes to all\" flag\n    // noconfirm \"-y\"\n    \n    // Whether this backend requires sudo (default: false)\n    // Uncomment if install/remove need root privileges\n    // needs_sudo \"true\"\n    \n    // Fallback backend (optional)\n    // If this backend's binary is not found, use another backend instead\n    // fallback \"alternative-backend\"\n}\n");
    string_of(v.as_slice())
}

/// The definition for a custom backend `name`, dated today (local time).
pub fn generate_generic_backend_template(name: &str) -> (r: String)
    ensures
        exists|date: Seq<char>| r@ == generic_template(name@, date),
{
    let date = local_date();
    generic_backend_template_on(name, date.as_str())
}

/// The built-in backend names differ from each other.
proof fn lemma_builtin_names_differ()
    ensures
        "aur"@ != "pacman"@,
        "aur"@ != "flatpak"@,
        "pacman"@ != "flatpak"@,
{
    reveal_strlit("aur");
    reveal_strlit("pacman");
    reveal_strlit("flatpak");
    assert("aur"@.len() == 3 && "pacman"@.len() == 6 && "flatpak"@.len() == 7);
}

/// The definition of a backend on a date: the built-in one for `aur`,
/// `pacman` and `flatpak`, else the custom template dated `date`.
pub open spec fn backend_template(name: Seq<char>, date: Seq<char>) -> Seq<char> {
    if name == "aur"@ {
        aur_template()
    } else if name == "pacman"@ {
        pacman_template()
    } else if name == "flatpak"@ {
        flatpak_template()
    } else {
        generic_template(name, date)
    }
}

/// The definition of a backend, a custom one dated `date` (see
/// `backend_template`).
pub fn backend_template_on(name: &str, date: &str) -> (r: String)
    ensures
        r@ == backend_template(name@, date@),
{
    if same_text(name, "aur") {
        generate_aur_backend_template()
    } else if same_text(name, "pacman") {
        generate_pacman_backend_template()
    } else if same_text(name, "flatpak") {
        generate_flatpak_backend_template()
    } else {
        generic_backend_template_on(name, date)
    }
}

/// The definition of a backend: the built-in one for `aur`, `pacman` and
/// `flatpak`, else the custom template dated today (local time).
pub fn generate_backend_template(name: &str) -> (r: String)
    ensures
        exists|date: Seq<char>| r@ == backend_template(name@, date),
        name@ == "aur"@ ==> r@ == aur_template(),
        name@ == "pacman"@ ==> r@ == pacman_template(),
        name@ == "flatpak"@ ==> r@ == flatpak_template(),
        name@ != "aur"@ && name@ != "pacman"@ && name@ != "flatpak"@ ==> exists|date: Seq<char>| r@ == generic_template(name@, date),
{
    proof {
        lemma_builtin_names_differ();
    }
    let date = local_date();
    backend_template_on(name, date.as_str())
}

/// Law: on one day, the template of a backend is the built-in definition
/// for `aur`, `pacman` and `flatpak`, and otherwise the custom template of
/// that day, the same as `generate_generic_backend_template` gives.
pub proof fn law_template_by_name(name: Seq<char>, date: Seq<char>)
    ensures
        name == "aur"@ ==> backend_template(name, date) == aur_template(),
        name == "pacman"@ ==> backend_template(name, date) == pacman_template(),
        name == "flatpak"@ ==> backend_template(name, date) == flatpak_template(),
        name != "aur"@ && name != "pacman"@ && name != "flatpak"@ ==> backend_template(name, date) == generic_template(name, date),
{
    lemma_builtin_names_differ();
}

} // verus!
