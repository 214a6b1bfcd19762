//! Launch at login: the XDG desktop entry written on Linux, the
//! AppleScript run on macOS, the names of the files involved, and the
//! choice of the application bundle to register. Writing files and
//! running scripts is done by the caller.

use crate::text::{concat, contains_seq, contains_str, str_eq};
use vstd::prelude::*;

verus! {

/// The desktop entry that starts `exe` at login under the name `name`.
pub open spec fn desktop_entry_text(name: Seq<char>, exe: Seq<char>) -> Seq<char> {
    "[Desktop Entry]\nType=Application\nName="@ + name + "\nExec=\""@ + exe
        + "\"\nTerminal=false\nX-GNOME-Autostart-enabled=true\n"@
}

/// The desktop entry that starts `exe` at login under the name `name`.
pub fn desktop_entry(name: &str, exe: &str) -> (r: String)
    ensures
        r@ == desktop_entry_text(name@, exe@),
{
    let a = concat("[Desktop Entry]\nType=Application\nName=", name);
    let b = concat(a.as_str(), "\nExec=\"");
    let c = concat(b.as_str(), exe);
    concat(c.as_str(), "\"\nTerminal=false\nX-GNOME-Autostart-enabled=true\n")
}

/// The file name of the desktop entry of a package.
pub fn desktop_file_name(package: &str) -> (r: String)
    ensures
        r@ == package@ + ".desktop"@,
{
    concat(package, ".desktop")
}

/// The file name of the startup shortcut of a package.
pub fn shortcut_file_name(package: &str) -> (r: String)
    ensures
        r@ == package@ + ".lnk"@,
{
    concat(package, ".lnk")
}

/// The script listing the paths of the login items.
pub fn login_items_script() -> (r: String)
    ensures
        r@ == "tell application \"System Events\" to get path of every login item"@,
{
    "tell application \"System Events\" to get path of every login item".to_owned()
}

/// Whether the login items listed in `output` include `needle`.
pub fn is_login_item(output: &str, needle: &str) -> (r: bool)
    ensures
        r == contains_seq(output@, needle@),
{
    contains_str(output, needle)
}

/// The script adding the bundle at `path` as a visible login item named
/// `name` (`App` when the bundle has no name).
pub fn add_login_item_script(path: &str, name: Option<String>) -> (r: String)
    ensures
        r@ == "tell application \"System Events\" to make new login item at end with properties {path:\""@
            + path@ + "\", hidden:false, name:\""@ + match name {
            Some(n) => n@,
            None => "App"@,
        } + "\"}"@,
{
    let n = match name {
        Some(n) => n,
        None => "App".to_owned(),
    };
    let a = concat("tell application \"System Events\" to make new login item at end with properties {path:\"", path);
    let b = concat(a.as_str(), "\", hidden:false, name:\"");
    let c = concat(b.as_str(), n.as_str());
    concat(c.as_str(), "\"}")
}

/// The script deleting every login item whose path contains `needle`,
/// walking the items from the last to the first.
pub open spec fn remove_script_text(needle: Seq<char>) -> Seq<char> {
    "tell application \"System Events\"\n            set theItems to login items\n            repeat with i from (count of theItems) to 1 by -1\n                set thePath to path of item i of theItems\n                if thePath contains \""@
        + needle
        + "\" then\n                    delete item i of theItems\n                end if\n            end repeat\n        end tell"@
}

/// The script deleting every login item whose path contains `needle`.
pub fn remove_login_items_script(needle: &str) -> (r: String)
    ensures
        r@ == remove_script_text(needle@),
{
    let a = concat(
        "tell application \"System Events\"\n            set theItems to login items\n            repeat with i from (count of theItems) to 1 by -1\n                set thePath to path of item i of theItems\n                if thePath contains \"",
        needle,
    );
    concat(
        a.as_str(),
        "\" then\n                    delete item i of theItems\n                end if\n            end repeat\n        end tell",
    )
}

/// The index of the first of the (at most five) nearest parents whose
/// extension is `app`.
pub open spec fn bundle_index(parents: Seq<(String, Option<String>)>) -> Option<int> {
    if exists|i: int| 0 <= i < parents.len() && i < 5 && #[trigger] is_bundle(parents[i]) {
        Some(choose|i: int| 0 <= i < parents.len() && i < 5 && #[trigger] is_bundle(parents[i]) && forall|j: int| 0 <= j < i ==> !#[trigger] is_bundle(parents[j]))
    } else {
        None
    }
}

/// A parent path whose extension is `app`.
pub open spec fn is_bundle(p: (String, Option<String>)) -> bool {
    p.1 matches Some(e) && e@ == "app"@
}

proof fn lemma_bundle_first(parents: Seq<(String, Option<String>)>, i: int)
    requires
        0 <= i < parents.len(),
        i < 5,
        is_bundle(parents[i]),
        forall|j: int| 0 <= j < i ==> !#[trigger] is_bundle(parents[j]),
    ensures
        bundle_index(parents) == Some(i),
{
    assert(exists|i: int| 0 <= i < parents.len() && i < 5 && #[trigger] is_bundle(parents[i]));
    let c = choose|c: int| 0 <= c < parents.len() && c < 5 && #[trigger] is_bundle(parents[c]) && forall|j: int| 0 <= j < c ==> !#[trigger] is_bundle(parents[j]);
    assert(0 <= c < parents.len() && c < 5 && is_bundle(parents[c]) && forall|j: int| 0 <= j < c ==> !#[trigger] is_bundle(parents[j]));
    if c < i {
        assert(!is_bundle(parents[c]));
    } else if i < c {
        assert(!is_bundle(parents[i]));
    }
}

/// The path registered for launch at login on macOS: the nearest of the
/// first five parents of the executable (each given with its extension)
/// that is an `.app` bundle, else the executable itself.
pub fn app_bundle(exe: String, parents: &Vec<(String, Option<String>)>) -> (r: String)
    ensures
        match bundle_index(parents@) {
            Some(i) => r == parents@[i].0,
            None => r == exe,
        },
{
    let n: usize = if parents.len() < 5 { parents.len() } else { 5 };
    let mut i: usize = 0;
    while i < n
        invariant
            i <= n <= parents@.len(),
            n <= 5,
            n == parents@.len() || n == 5,
            forall|j: int| 0 <= j < i ==> !#[trigger] is_bundle(parents@[j]),
        decreases n - i,
    {
        let hit = match &parents[i].1 {
            Some(e) => str_eq(e.as_str(), "app"),
            None => false,
        };
        if hit {
            proof {
                lemma_bundle_first(parents@, i as int);
            }
            return parents[i].0.clone();
        }
        i = i + 1;
    }
    exe
}

} // verus!
