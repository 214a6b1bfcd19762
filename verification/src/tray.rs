//! The system tray menu: which entries it shows for a configuration, and
//! what a click on an entry asks the shell to do.

use crate::text::{chars_of, concat, str_eq, string_of};
use vstd::prelude::*;

verus! {

/// A navigation entry: clicking it sends the renderer to `route`.
#[derive(Debug, Clone)]
pub struct TrayNavItem {
    pub id: String,
    pub label: String,
    pub route: String,
}

/// What the tray menu shows.
#[derive(Debug, Clone)]
pub struct TrayConfig {
    pub tooltip: String,
    /// Navigation entries, shown after "Open Window".
    pub nav_items: Vec<TrayNavItem>,
    /// Show the "Start at Login" check entry.
    pub show_autostart_toggle: bool,
    /// Show "Check for Updates".
    pub show_updater: bool,
    /// Show "Uninstall".
    pub show_uninstall: bool,
}

impl Default for TrayConfig {
    /// Tooltip "Tauri Shell", no navigation entries, the autostart toggle
    /// and the updater shown, uninstall hidden.
    fn default() -> (r: Self)
        ensures
            r.tooltip@ == "Tauri Shell"@,
            r.nav_items@.len() == 0,
            r.show_autostart_toggle,
            r.show_updater,
            !r.show_uninstall,
    {
        TrayConfig {
            tooltip: "Tauri Shell".to_owned(),
            nav_items: Vec::new(),
            show_autostart_toggle: true,
            show_updater: true,
            show_uninstall: false,
        }
    }
}

/// An entry of the menu.
#[derive(Debug)]
pub enum MenuEntry {
    Item { id: String, label: String },
    Check { id: String, label: String, checked: bool },
    Separator,
}

/// An entry as plain text values.
pub enum EntryView {
    Item(Seq<char>, Seq<char>),
    Check(Seq<char>, Seq<char>, bool),
    Separator,
}

impl View for MenuEntry {
    type V = EntryView;

    open spec fn view(&self) -> EntryView {
        match self {
            MenuEntry::Item { id, label } => EntryView::Item(id@, label@),
            MenuEntry::Check { id, label, checked } => EntryView::Check(id@, label@, *checked),
            MenuEntry::Separator => EntryView::Separator,
        }
    }
}

pub open spec fn entry_views(v: Seq<MenuEntry>) -> Seq<EntryView> {
    v.map_values(|e: MenuEntry| e@)
}

/// The entries of the navigation items, id `tray:nav:<id>`.
pub open spec fn nav_entries(navs: Seq<TrayNavItem>) -> Seq<EntryView> {
    navs.map_values(|n: TrayNavItem| EntryView::Item("tray:nav:"@ + n.id@, n.label@))
}

/// The menu for `c`, the autostart entry checked when `enabled`: "Open
/// Window"; the navigation entries after a separator; "Start at Login"
/// after a separator; "Check for Updates" after a separator; "Uninstall";
/// and "Quit" after a separator; each optional part as `c` asks.
pub open spec fn menu_layout(c: TrayConfig, enabled: bool) -> Seq<EntryView> {
    seq![EntryView::Item("tray:open"@, "Open Window"@)] + (if c.nav_items@.len() == 0 {
        Seq::empty()
    } else {
        seq![EntryView::Separator] + nav_entries(c.nav_items@)
    }) + (if c.show_autostart_toggle {
        seq![EntryView::Separator, EntryView::Check("tray:autostart"@, "Start at Login"@, enabled)]
    } else {
        Seq::empty()
    }) + (if c.show_updater {
        seq![EntryView::Separator, EntryView::Item("tray:updater"@, "Check for Updates"@)]
    } else {
        Seq::empty()
    }) + (if c.show_uninstall {
        seq![EntryView::Item("tray:uninstall"@, "Uninstall"@)]
    } else {
        Seq::empty()
    }) + seq![EntryView::Separator, EntryView::Item("tray:quit"@, "Quit"@)]
}

fn item(id: &str, label: &str) -> (r: MenuEntry)
    ensures
        r@ == EntryView::Item(id@, label@),
{
    MenuEntry::Item { id: id.to_owned(), label: label.to_owned() }
}

/// The entries of the tray menu for `config`; the autostart entry is
/// checked when `autostart_enabled`.
pub fn menu_entries(config: &TrayConfig, autostart_enabled: bool) -> (r: Vec<MenuEntry>)
    ensures
        entry_views(r@) == menu_layout(*config, autostart_enabled),
{
    let mut out: Vec<MenuEntry> = Vec::new();
    out.push(item("tray:open", "Open Window"));
    let ghost mut want: Seq<EntryView> = seq![EntryView::Item("tray:open"@, "Open Window"@)];
    assert(entry_views(out@) =~= want);
    if config.nav_items.len() > 0 {
        out.push(MenuEntry::Separator);
        proof {
            want = want.push(EntryView::Separator);
        }
        assert(entry_views(out@) =~= want);
        let ghost base = want;
        let n: usize = config.nav_items.len();
        let mut i: usize = 0;
        while i < n
            invariant
                i <= n == config.nav_items@.len(),
                entry_views(out@) == base + nav_entries(config.nav_items@.take(i as int)),
            decreases n - i,
        {
            let nav = &config.nav_items[i];
            let id = concat("tray:nav:", nav.id.as_str());
            let ghost before = out@;
            out.push(MenuEntry::Item { id, label: nav.label.clone() });
            proof {
                let x = EntryView::Item("tray:nav:"@ + nav.id@, nav.label@);
                assert(entry_views(out@) =~= entry_views(before).push(x));
                assert(nav_entries(config.nav_items@.take(i + 1)) =~= nav_entries(config.nav_items@.take(i as int)).push(x));
                assert((base + nav_entries(config.nav_items@.take(i as int))).push(x) =~= base + nav_entries(config.nav_items@.take(i as int)).push(x));
            }
            i = i + 1;
        }
        assert(config.nav_items@.take(n as int) =~= config.nav_items@);
        proof {
            want = base + nav_entries(config.nav_items@);
        }
    }
    if config.show_autostart_toggle {
        out.push(MenuEntry::Separator);
        out.push(MenuEntry::Check { id: "tray:autostart".to_owned(), label: "Start at Login".to_owned(), checked: autostart_enabled });
        proof {
            want = want + seq![EntryView::Separator, EntryView::Check("tray:autostart"@, "Start at Login"@, autostart_enabled)];
        }
        assert(entry_views(out@) =~= want);
    }
    if config.show_updater {
        out.push(MenuEntry::Separator);
        out.push(item("tray:updater", "Check for Updates"));
        proof {
            want = want + seq![EntryView::Separator, EntryView::Item("tray:updater"@, "Check for Updates"@)];
        }
        assert(entry_views(out@) =~= want);
    }
    if config.show_uninstall {
        out.push(item("tray:uninstall", "Uninstall"));
        proof {
            want = want + seq![EntryView::Item("tray:uninstall"@, "Uninstall"@)];
        }
        assert(entry_views(out@) =~= want);
    }
    out.push(MenuEntry::Separator);
    out.push(item("tray:quit", "Quit"));
    proof {
        want = want + seq![EntryView::Separator, EntryView::Item("tray:quit"@, "Quit"@)];
    }
    assert(entry_views(out@) =~= want);
    assert(want =~= menu_layout(*config, autostart_enabled));
    out
}

/// What a click on a tray entry asks for.
#[derive(Debug, PartialEq, Eq)]
pub enum TrayAction {
    /// Show and focus the main window.
    ShowMainWindow,
    /// Run the cleanup cascade, then exit.
    Quit,
    /// Check for updates.
    CheckForUpdates,
    /// Turn launch at login on when it is off, and off when it is on.
    ToggleAutostart,
    /// Show the main window and send the renderer to this route.
    Navigate(String),
    /// Nothing.
    Ignore,
}

/// `s` with every leading repetition of `p` removed.
pub open spec fn strip_all(s: Seq<char>, p: Seq<char>) -> Seq<char>
    decreases s.len(),
{
    if p.len() > 0 && p.len() <= s.len() && s.subrange(0, p.len() as int) == p {
        strip_all(s.subrange(p.len() as int, s.len() as int), p)
    } else {
        s
    }
}

/// `p` is a prefix of `s`.
pub open spec fn has_prefix(s: Seq<char>, p: Seq<char>) -> bool {
    p.len() <= s.len() && s.subrange(0, p.len() as int) == p
}

/// Index of the first navigation entry whose id is `key`.
pub open spec fn nav_index(navs: Seq<TrayNavItem>, key: Seq<char>) -> Option<int> {
    if exists|i: int| 0 <= i < navs.len() && (#[trigger] navs[i]).id@ == key {
        Some(choose|i: int| 0 <= i < navs.len() && (#[trigger] navs[i]).id@ == key && forall|j: int| 0 <= j < i ==> (#[trigger] navs[j]).id@ != key)
    } else {
        None
    }
}

proof fn lemma_nav_first(navs: Seq<TrayNavItem>, key: Seq<char>, i: int)
    requires
        0 <= i < navs.len(),
        navs[i].id@ == key,
        forall|j: int| 0 <= j < i ==> (#[trigger] navs[j]).id@ != key,
    ensures
        nav_index(navs, key) == Some(i),
{
    assert(exists|i: int| 0 <= i < navs.len() && (#[trigger] navs[i]).id@ == key);
    let c = choose|c: int| 0 <= c < navs.len() && (#[trigger] navs[c]).id@ == key && forall|j: int| 0 <= j < c ==> (#[trigger] navs[j]).id@ != key;
    assert(0 <= c < navs.len() && navs[c].id@ == key && forall|j: int| 0 <= j < c ==> (#[trigger] navs[j]).id@ != key);
    if c < i {
        assert(navs[c].id@ != key);
    } else if i < c {
        assert(navs[i].id@ != key);
    }
}

fn find_nav(navs: &Vec<TrayNavItem>, key: &String) -> (r: Option<usize>)
    ensures
        match r {
            Some(i) => i < navs@.len() && nav_index(navs@, key@) == Some(i as int),
            None => nav_index(navs@, key@) is None,
        },
{
    let n: usize = navs.len();
    let mut i: usize = 0;
    while i < n
        invariant
            i <= n == navs@.len(),
            forall|j: int| 0 <= j < i ==> (#[trigger] navs@[j]).id@ != key@,
        decreases n - i,
    {
        if navs[i].id == *key {
            proof {
                lemma_nav_first(navs@, key@, i as int);
            }
            return Some(i);
        }
        i = i + 1;
    }
    None
}

fn starts_with(cs: &Vec<char>, p: &Vec<char>, at: usize) -> (r: bool)
    requires
        at <= cs@.len(),
    ensures
        r == has_prefix(cs@.subrange(at as int, cs@.len() as int), p@),
{
    if p.len() > cs.len() - at {
        return false;
    }
    let mut k: usize = 0;
    while k < p.len()
        invariant
            k <= p@.len(),
            at + p@.len() <= cs@.len() <= usize::MAX,
            forall|j: int| 0 <= j < k ==> cs@[at + j] == p@[j],
        decreases p@.len() - k,
    {
        if cs[at + k] != p[k] {
            assert(cs@.subrange(at as int, cs@.len() as int).subrange(0, p@.len() as int)[k as int] != p@[k as int]);
            return false;
        }
        k = k + 1;
    }
    assert(cs@.subrange(at as int, cs@.len() as int).subrange(0, p@.len() as int) =~= p@);
    true
}

fn strip_prefixes(s: &str, p: &str) -> (r: String)
    ensures
        r@ == strip_all(s@, p@),
{
    let cs = chars_of(s);
    let ps = chars_of(p);
    let mut at: usize = 0;
    if ps.len() == 0 {
        return s.to_owned();
    }
    assert(s@.subrange(0, s@.len() as int) =~= s@);
    while at <= cs.len() && starts_with(&cs, &ps, at)
        invariant
            at <= cs@.len(),
            ps@.len() > 0,
            cs@ == s@,
            ps@ == p@,
            strip_all(s@, p@) == strip_all(s@.subrange(at as int, s@.len() as int), p@),
        decreases cs@.len() - at,
    {
        let ghost rest = s@.subrange(at as int, s@.len() as int);
        at = at + ps.len();
        assert(rest.subrange(p@.len() as int, rest.len() as int) =~= s@.subrange(at as int, s@.len() as int));
    }
    string_of(&cs, at, cs.len())
}

/// What a click on the entry with id `id` asks for: the fixed entries
/// their action; a `tray:nav:` entry (its id with every leading
/// `tray:nav:` removed) the route of the first navigation item with that
/// id, or nothing when none has it; any other id nothing.
pub fn tray_action(config: &TrayConfig, id: &str) -> (r: TrayAction)
    ensures
        id@ == "tray:open"@ ==> r == TrayAction::ShowMainWindow,
        id@ == "tray:quit"@ ==> r == TrayAction::Quit,
        id@ == "tray:updater"@ ==> r == TrayAction::CheckForUpdates,
        id@ == "tray:autostart"@ ==> r == TrayAction::ToggleAutostart,
        id@ == "tray:uninstall"@ ==> (r matches TrayAction::Navigate(p) && p@ == "/uninstall"@),
        has_prefix(id@, "tray:nav:"@) ==> match nav_index(config.nav_items@, strip_all(id@, "tray:nav:"@)) {
            Some(i) => r matches TrayAction::Navigate(p) && p@ == config.nav_items@[i].route@,
            None => r == TrayAction::Ignore,
        },
        id@ != "tray:open"@ && id@ != "tray:quit"@ && id@ != "tray:updater"@ && id@ != "tray:autostart"@
            && id@ != "tray:uninstall"@ && !has_prefix(id@, "tray:nav:"@) ==> r == TrayAction::Ignore,
{
    proof {
        reveal_strlit("tray:open");
        reveal_strlit("tray:quit");
        reveal_strlit("tray:updater");
        reveal_strlit("tray:autostart");
        reveal_strlit("tray:uninstall");
        reveal_strlit("tray:nav:");
        assert("tray:open"@[5] != "tray:quit"@[5]);
        assert("tray:autostart"@[5] != "tray:uninstall"@[5]);
        assert(!has_prefix("tray:open"@, "tray:nav:"@)) by {
            assert("tray:open"@.subrange(0, 9)[5] != "tray:nav:"@[5]);
        }
        assert(!has_prefix("tray:quit"@, "tray:nav:"@)) by {
            assert("tray:quit"@.subrange(0, 9)[5] != "tray:nav:"@[5]);
        }
        assert(!has_prefix("tray:updater"@, "tray:nav:"@)) by {
            assert("tray:updater"@.subrange(0, 9)[5] != "tray:nav:"@[5]);
        }
        assert(!has_prefix("tray:autostart"@, "tray:nav:"@)) by {
            assert("tray:autostart"@.subrange(0, 9)[5] != "tray:nav:"@[5]);
        }
        assert(!has_prefix("tray:uninstall"@, "tray:nav:"@)) by {
            assert("tray:uninstall"@.subrange(0, 9)[5] != "tray:nav:"@[5]);
        }
    }
    let cs = chars_of(id);
    let ps = chars_of("tray:nav:");
    let nav = starts_with(&cs, &ps, 0);
    assert(cs@.subrange(0, cs@.len() as int) =~= id@);
    if str_eq(id, "tray:open") {
        TrayAction::ShowMainWindow
    } else if str_eq(id, "tray:quit") {
        TrayAction::Quit
    } else if str_eq(id, "tray:updater") {
        TrayAction::CheckForUpdates
    } else if str_eq(id, "tray:autostart") {
        TrayAction::ToggleAutostart
    } else if str_eq(id, "tray:uninstall") {
        TrayAction::Navigate("/uninstall".to_owned())
    } else if nav {
        let key = strip_prefixes(id, "tray:nav:");
        match find_nav(&config.nav_items, &key) {
            Some(i) => TrayAction::Navigate(config.nav_items[i].route.clone()),
            None => TrayAction::Ignore,
        }
    } else {
        TrayAction::Ignore
    }
}

/// `e` is a navigation entry: an item whose id starts with `tray:nav:`.
pub open spec fn is_nav_entry(e: EntryView) -> bool {
    match e {
        EntryView::Item(id, _) => has_prefix(id, "tray:nav:"@),
        _ => false,
    }
}

/// Every navigation item of the configuration has its entry in the menu,
/// in the configuration's order, right after "Open Window" and a
/// separator: item `i` gives entry `i + 2`, with id `tray:nav:<id>` and
/// the item's label. No other entry of the menu is a navigation entry, so
/// the menu holds exactly one navigation entry per item.
pub proof fn lemma_menu_lists_every_nav_item(c: TrayConfig, enabled: bool)
    ensures
        menu_layout(c, enabled).len() >= c.nav_items@.len() + 2,
        forall|i: int|
            0 <= i < c.nav_items@.len() ==> #[trigger] menu_layout(c, enabled)[i + 2] == EntryView::Item(
                "tray:nav:"@ + c.nav_items@[i].id@,
                c.nav_items@[i].label@,
            ),
        forall|k: int|
            0 <= k < menu_layout(c, enabled).len() && is_nav_entry(#[trigger] menu_layout(c, enabled)[k])
                ==> 2 <= k < 2 + c.nav_items@.len(),
{
    reveal_strlit("tray:nav:");
    reveal_strlit("tray:open");
    reveal_strlit("tray:autostart");
    reveal_strlit("tray:updater");
    reveal_strlit("tray:uninstall");
    reveal_strlit("tray:quit");
    let m = menu_layout(c, enabled);
    let n = c.nav_items@.len();
    let head = seq![EntryView::Item("tray:open"@, "Open Window"@)];
    let sep = seq![EntryView::Separator];
    let navs = if n == 0 {
        Seq::<EntryView>::empty()
    } else {
        sep + nav_entries(c.nav_items@)
    };
    let tail = m.subrange((1 + navs.len()) as int, m.len() as int);
    assert(m =~= head + navs + tail);
    assert(!has_prefix("tray:open"@, "tray:nav:"@)) by {
        assert("tray:open"@.subrange(0, 9)[5] != "tray:nav:"@[5]);
    }
    assert(!has_prefix("tray:autostart"@, "tray:nav:"@)) by {
        assert("tray:autostart"@.subrange(0, 9)[5] != "tray:nav:"@[5]);
    }
    assert(!has_prefix("tray:updater"@, "tray:nav:"@)) by {
        assert("tray:updater"@.subrange(0, 9)[5] != "tray:nav:"@[5]);
    }
    assert(!has_prefix("tray:uninstall"@, "tray:nav:"@)) by {
        assert("tray:uninstall"@.subrange(0, 9)[5] != "tray:nav:"@[5]);
    }
    assert(!has_prefix("tray:quit"@, "tray:nav:"@)) by {
        assert("tray:quit"@.subrange(0, 9)[5] != "tray:nav:"@[5]);
    }
    assert forall|k: int| 0 <= k < tail.len() implies !is_nav_entry(#[trigger] tail[k]) by {
        let t1 = if c.show_autostart_toggle {
            seq![EntryView::Separator, EntryView::Check("tray:autostart"@, "Start at Login"@, enabled)]
        } else {
            Seq::empty()
        };
        let t2 = if c.show_updater {
            seq![EntryView::Separator, EntryView::Item("tray:updater"@, "Check for Updates"@)]
        } else {
            Seq::empty()
        };
        let t3 = if c.show_uninstall {
            seq![EntryView::Item("tray:uninstall"@, "Uninstall"@)]
        } else {
            Seq::empty()
        };
        let t4 = seq![EntryView::Separator, EntryView::Item("tray:quit"@, "Quit"@)];
        assert(tail =~= t1 + t2 + t3 + t4);
    }
    assert forall|i: int| 0 <= i < n implies #[trigger] m[i + 2] == EntryView::Item(
        "tray:nav:"@ + c.nav_items@[i].id@,
        c.nav_items@[i].label@,
    ) by {
        assert(m[i + 2] == navs[i + 1]);
    }
    assert forall|k: int| 0 <= k < m.len() && is_nav_entry(#[trigger] m[k]) implies 2 <= k < 2 + n by {
        if k >= 1 + navs.len() {
            assert(m[k] == tail[k - 1 - navs.len()]);
        } else if k == 1 && n > 0 {
            assert(m[k] == navs[0]);
        }
    }
}

} // verus!
