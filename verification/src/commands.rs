//! What the pages ask for: which entry a menu or a folder belongs to, and what
//! is done with what they send.

use vstd::prelude::*;
use vstd::string::*;
use crate::apps;
use crate::apps::{entry_index, recycle_bin};
use crate::menu::Target;
use crate::model::{app_views, lemma_entry_views, pinned_views, AppEntry, AppView, PinnedApp};
use crate::store::Preferences;
use crate::text;
use crate::text::{opt_view, upper_hex};

verus! {

// ---------------------------------------------------------------- reports

/// The report of a page to a self-test that waits for it.
#[derive(Debug)]
pub struct TestReport {
    pub msg: String,
}

impl TestReport {
    /// Without a report.
    pub fn new() -> (r: Self)
        ensures
            r.msg@ == Seq::<char>::empty(),
    {
        TestReport { msg: String::new() }
    }
}

/// Keeps a report; one that was not taken is lost.
pub fn selftest_report(report: &mut TestReport, msg: String)
    ensures
        final(report).msg@ == msg@,
{
    report.msg = msg;
}

/// Takes the report; nothing is left of it.
pub fn take_test_report(report: &mut TestReport) -> (r: String)
    ensures
        r@ == old(report).msg@,
        final(report).msg@ == Seq::<char>::empty(),
{
    let mut r = String::new();
    std::mem::swap(&mut r, &mut report.msg);
    r
}

// ---------------------------------------------------------------- preferences

/// The preferences that a page sent, with the list as it is: pages do not change
/// the list this way.
pub fn set_preferences(sent: Preferences, pinned: Vec<PinnedApp>) -> (r: Preferences)
    ensures
        r == (Preferences { pinned, ..sent }),
{
    Preferences {
        auto_hide: sent.auto_hide,
        hide_delay_ms: sent.hide_delay_ms,
        icon_size: sent.icon_size,
        panel_height: sent.panel_height,
        icon_gap: sent.icon_gap,
        show_running_indicators: sent.show_running_indicators,
        reserve_taskbar: sent.reserve_taskbar,
        bottom_offset: sent.bottom_offset,
        launch_at_login: sent.launch_at_login,
        glass_alpha: sent.glass_alpha,
        glass_rgb: sent.glass_rgb,
        pinned,
    }
}

/// What is to be changed about starting with the system; nothing where it is
/// as wanted.
pub fn login_change(wanted: bool, enabled: bool) -> (r: Option<bool>)
    ensures
        r == if wanted != enabled {
            Some(wanted)
        } else {
            None
        },
{
    if wanted != enabled {
        Some(wanted)
    } else {
        None
    }
}

/// How many entries and how many separators the dock has.
pub fn entry_counts(pinned: &Vec<PinnedApp>) -> (r: (usize, usize))
    ensures
        r.1 == crate::selftest::separator_count(pinned_views(pinned@)),
        r.0 + r.1 == pinned@.len(),
{
    let n = crate::selftest::count_separators(pinned);
    (pinned.len() - n, n)
}

/// A window's handle as it is shown; there may be no window.
pub fn handle_text(hwnd: Option<u64>) -> (r: String)
    ensures
        r@ == match hwnd {
            Some(h) => "0x"@ + upper_hex(h as nat, 1),
            None => "(无)"@,
        },
{
    match hwnd {
        Some(h) => text::concat("0x", text::upper_hex_string(h, 1).as_str()),
        None => "(无)".to_owned(),
    }
}

// ---------------------------------------------------------------- entries

/// The position of the first folder that holds an entry with that identity, or
/// the length.
pub open spec fn holder(all: Seq<AppView>, id: Seq<char>) -> int
    decreases all.len(),
{
    if all.len() == 0 {
        0
    } else if all[0].is_folder && entry_index(all[0].children, id) < all[0].children.len() {
        0
    } else {
        1 + holder(all.skip(1), id)
    }
}

/// The entry with an identity, and whether it is inside a folder: one at the
/// top comes first.
pub open spec fn found(all: Seq<AppView>, id: Seq<char>) -> Option<(AppView, bool)> {
    let i = entry_index(all, id);
    let f = holder(all, id);
    if i < all.len() {
        Some((all[i], false))
    } else if f < all.len() {
        Some((all[f].children[entry_index(all[f].children, id)], true))
    } else {
        None
    }
}

/// A menu's target says what an entry is.
pub open spec fn stands_for(t: Target, e: AppView, in_folder: bool) -> bool {
    &&& t.app_id@ == e.id
    &&& t.target@ == e.target
    &&& t.hwnd == if e.windows.len() > 0 {
        e.windows[0].hwnd
    } else {
        0
    }
    &&& t.running == e.running
    &&& t.is_elevated == e.is_elevated
    &&& t.separator == e.separator
    &&& t.is_folder == e.is_folder
    &&& t.in_folder == in_folder
    &&& t.children_count == e.children.len()
    &&& !t.is_dir
    &&& t.bin_items == 0
}

fn target_of(e: &AppEntry, in_folder: bool) -> (r: Target)
    ensures
        stands_for(r, e@, in_folder),
{
    proof {
        lemma_entry_views(*e);
    }
    assert(e@.windows.len() == e.windows@.len());
    Target {
        app_id: e.id.clone(),
        target: e.target.clone(),
        hwnd: if e.windows.len() > 0 {
            e.windows[0].hwnd
        } else {
            0
        },
        running: e.running,
        is_elevated: e.is_elevated,
        separator: e.separator,
        is_folder: e.is_folder,
        in_folder,
        children_count: e.children.len(),
        is_dir: false,
        bin_items: 0,
    }
}

/// The target of a menu on an entry, at the top or inside a folder. Whether it
/// is a directory, and what the recycle bin holds, is not known yet.
pub fn menu_target(all: &Vec<AppEntry>, id: &str) -> (r: Result<Target, String>)
    ensures
        match found(app_views(all@), id@) {
            Some((e, in_folder)) => r is Ok && stands_for(r->Ok_0, e, in_folder),
            None => r is Err && r->Err_0@ == "Dock 上没有这个条目: "@ + id@,
        },
{
    let ghost views = app_views(all@);
    let i = apps::find_entry(all, id);
    if i < all.len() {
        assert(views[i as int] == all@[i as int]@);
        return Ok(target_of(&all[i], false));
    }
    let mut f: usize = 0;
    assert(views.skip(0) =~= views);
    while f < all.len()
        invariant
            f <= all@.len(),
            views == app_views(all@),
            holder(views, id@) == f + holder(views.skip(f as int), id@),
            entry_index(views, id@) >= views.len(),
        decreases all@.len() - f,
    {
        assert(views.skip(f as int)[0] == all@[f as int]@);
        assert(views.skip(f as int).skip(1) =~= views.skip(f + 1));
        if all[f].is_folder {
            proof {
                lemma_entry_views(all@[f as int]);
            }
            let c = apps::find_entry(&all[f].children, id);
            if c < all[f].children.len() {
                assert(app_views(all@[f as int].children@)[c as int]
                    == all@[f as int].children@[c as int]@);
                return Ok(target_of(&all[f].children[c], true));
            }
        }
        f += 1;
    }
    assert(views.skip(f as int).len() == 0);
    Err(text::concat("Dock 上没有这个条目: ", id))
}

/// Adds to a target what only the system knows: whether it is a directory, and
/// for the recycle bin how much it holds.
pub fn complete_target(t: Target, is_dir: bool, bin_items: u32) -> (r: Target)
    ensures
        r == (Target {
            is_dir,
            bin_items: if recycle_bin(t.target@) {
                bin_items
            } else {
                0
            },
            ..t
        }),
{
    let bin = apps::is_recycle_bin(t.target.as_str());
    let mut r = t;
    r.is_dir = is_dir;
    r.bin_items = if bin {
        bin_items
    } else {
        0
    };
    r
}

/// The folder with an identity.
pub fn folder_entry(all: &Vec<AppEntry>, id: &str) -> (r: Result<usize, String>)
    ensures
        ({
            let i = entry_index(app_views(all@), id@);
            if i < all@.len() {
                r is Ok && r->Ok_0 == i
            } else {
                r is Err && r->Err_0@ == "Dock 上没有这个文件夹: "@ + id@
            }
        }),
{
    let i = apps::find_entry(all, id);
    if i < all.len() {
        Ok(i)
    } else {
        Err(text::concat("Dock 上没有这个文件夹: ", id))
    }
}

/// The folder to be opened. An entry that is none is refused.
pub fn show_panel_folder(all: &Vec<AppEntry>, id: &str) -> (r: Result<usize, String>)
    ensures
        ({
            let views = app_views(all@);
            let i = entry_index(views, id@);
            if i >= views.len() {
                r is Err && r->Err_0@ == "Dock 上没有这个文件夹: "@ + id@
            } else if !views[i].is_folder {
                r is Err && r->Err_0@ == "它不是文件夹"@
            } else {
                r is Ok && r->Ok_0 == i
            }
        }),
{
    match folder_entry(all, id) {
        Ok(i) => {
            assert(app_views(all@)[i as int] == all@[i as int]@);
            if all[i].is_folder {
                Ok(i)
            } else {
                Err("它不是文件夹".to_owned())
            }
        },
        Err(e) => Err(e),
    }
}

/// What is done about an open folder once the list changed.
#[derive(Debug, Clone, Copy, PartialEq, Eq, Structural)]
pub enum FolderRefresh {
    Nothing,
    Close,
    /// Its cells are presented anew, in place: the entry at this position.
    Show(usize),
}

/// What is done about an open folder once the list changed: one that is gone is
/// closed, any other stays open and is refreshed.
pub fn refresh_open_folder(
    visible: bool,
    folder_id: &Option<String>,
    dock_hwnd: u64,
    all: &Vec<AppEntry>,
) -> (r: FolderRefresh)
    ensures
        r == if !visible || *folder_id is None || dock_hwnd == 0 {
            FolderRefresh::Nothing
        } else {
            let i = entry_index(app_views(all@), folder_id->0@);
            if i < all@.len() {
                FolderRefresh::Show(i as usize)
            } else {
                FolderRefresh::Close
            }
        },
{
    if !visible || dock_hwnd == 0 {
        return FolderRefresh::Nothing;
    }
    match folder_id {
        Some(id) => match folder_entry(all, id.as_str()) {
            Ok(i) => FolderRefresh::Show(i),
            Err(_) => FolderRefresh::Close,
        },
        None => FolderRefresh::Nothing,
    }
}

/// The target of what was picked in a panel; nothing where the panel is gone or
/// the entry is.
pub fn panel_target(current: &Option<String>, all: &Vec<AppEntry>) -> (r: Option<Target>)
    ensures
        match opt_view(*current) {
            None => r is None,
            Some(id) => match found(app_views(all@), id) {
                Some((e, in_folder)) => r is Some && stands_for(r->0, e, in_folder),
                None => r is None,
            },
        },
{
    match current {
        Some(id) => match menu_target(all, id.as_str()) {
            Ok(t) => Some(t),
            Err(_) => None,
        },
        None => None,
    }
}

/// Whether the open folder stays where a menu is asked for: it does where the
/// request comes out of it, which gives no place on the dock.
pub fn keeps_folder(has_anchor: bool) -> (r: bool)
    ensures
        r == !has_anchor,
{
    !has_anchor
}

/// An entry that the dock shows has a menu: looking it up by its identity finds
/// an entry of that identity, the one at the top where there are two.
pub proof fn law_shown_entries_have_targets(all: Seq<AppView>, i: int, c: int)
    requires
        0 <= i < all.len(),
    ensures
        match found(all, all[i].id) {
            Some((e, in_folder)) => e.id == all[i].id && !in_folder,
            None => false,
        },
        all[i].is_folder && 0 <= c < all[i].children.len() ==> match found(
            all,
            all[i].children[c].id,
        ) {
            Some((e, _)) => e.id == all[i].children[c].id,
            None => false,
        },
{
    apps::lemma_entry_index(all, all[i].id);
    lemma_index_bound(all, i, all[i].id);
    if all[i].is_folder && 0 <= c < all[i].children.len() {
        let id = all[i].children[c].id;
        apps::lemma_entry_index(all, id);
        lemma_index_bound(all[i].children, c, id);
        lemma_holder(all, i, id);
        let f = holder(all, id);
        apps::lemma_entry_index(all[f].children, id);
    }
}

proof fn lemma_index_bound(g: Seq<AppView>, i: int, id: Seq<char>)
    requires
        0 <= i < g.len(),
        g[i].id == id,
    ensures
        entry_index(g, id) <= i,
    decreases i,
{
    if i > 0 && g[0].id != id {
        assert(g.skip(1)[i - 1] == g[i]);
        lemma_index_bound(g.skip(1), i - 1, id);
    }
}

proof fn lemma_holder(all: Seq<AppView>, i: int, id: Seq<char>)
    requires
        0 <= i < all.len(),
        all[i].is_folder,
        entry_index(all[i].children, id) < all[i].children.len(),
    ensures
        0 <= holder(all, id) <= i,
        all[holder(all, id)].is_folder,
        entry_index(all[holder(all, id)].children, id) < all[holder(all, id)].children.len(),
    decreases i,
{
    if !(all[0].is_folder && entry_index(all[0].children, id) < all[0].children.len()) {
        assert(all.skip(1)[i - 1] == all[i]);
        lemma_holder(all.skip(1), i - 1, id);
        assert(all[holder(all, id)] == all.skip(1)[holder(all.skip(1), id)]);
    }
}

/// What is found at the top is the first entry with the identity there; only
/// where none is at the top, folders are looked into, the first that holds it
/// and there the first with it. Nothing is found only where it is nowhere.
pub proof fn law_where_an_entry_is_found(all: Seq<AppView>, id: Seq<char>, i: int, c: int)
    ensures
        match found(all, id) {
            Some((e, in_folder)) => {
                &&& e.id == id
                &&& !in_folder ==> exists|k: int|
                    0 <= k < all.len() && e == #[trigger] all[k] && (0 <= i < k ==> all[i].id != id)
                &&& in_folder ==> {
                    &&& 0 <= i < all.len() ==> all[i].id != id
                    &&& exists|f: int, k: int|
                        0 <= f < all.len() && all[f].is_folder && 0 <= k < all[f].children.len()
                            && e == #[trigger] all[f].children[k] && (0 <= c < k
                            ==> all[f].children[c].id != id) && (0 <= i < f && all[i].is_folder
                            && 0 <= c < all[i].children.len() ==> all[i].children[c].id != id)
                }
            },
            None => {
                &&& 0 <= i < all.len() ==> all[i].id != id
                &&& 0 <= i < all.len() && all[i].is_folder && 0 <= c < all[i].children.len()
                    ==> all[i].children[c].id != id
            },
        },
{
    apps::lemma_entry_index(all, id);
    let k = entry_index(all, id);
    if 0 <= i < all.len() && all[i].id == id {
        lemma_index_bound(all, i, id);
    }
    if k < all.len() {
        assert(found(all, id) == Some((all[k], false)));
        assert(all[k].id == id);
    } else {
        let f = holder(all, id);
        lemma_holder_first(all, id, i);
        if 0 <= i < all.len() && all[i].is_folder && 0 <= c < all[i].children.len()
            && all[i].children[c].id == id {
            lemma_index_bound(all[i].children, c, id);
        }
        if f < all.len() {
            let g = all[f].children;
            apps::lemma_entry_index(g, id);
            let n = entry_index(g, id);
            assert(found(all, id) == Some((g[n], true)));
            assert(g[n] == all[f].children[n]);
            if 0 <= c < n && g[c].id == id {
                lemma_index_bound(g, c, id);
            }
        }
    }
}

proof fn lemma_holder_first(all: Seq<AppView>, id: Seq<char>, i: int)
    ensures
        0 <= holder(all, id) <= all.len(),
        holder(all, id) < all.len() ==> all[holder(all, id)].is_folder && entry_index(
            all[holder(all, id)].children,
            id,
        ) < all[holder(all, id)].children.len(),
        0 <= i < holder(all, id) ==> !(all[i].is_folder && entry_index(all[i].children, id)
            < all[i].children.len()),
    decreases all.len(),
{
    if all.len() > 0 && !(all[0].is_folder && entry_index(all[0].children, id)
        < all[0].children.len()) {
        lemma_holder_first(all.skip(1), id, i - 1);
        let h = holder(all.skip(1), id);
        if h < all.skip(1).len() {
            assert(all[h + 1] == all.skip(1)[h]);
        }
        if 0 < i < holder(all, id) {
            assert(all[i] == all.skip(1)[i - 1]);
        }
    }
}

/// The menu on an entry is for that entry: its target says what the entry is, its
/// first window and where it stands, and leaves open what only the system knows.
pub proof fn law_menu_is_for_the_entry(
    all: Vec<AppEntry>,
    id: &str,
    k: int,
    r: Result<Target, String>,
)
    requires
        0 <= k < all@.len(),
        all@[k].id@ == id@,
        forall|j: int| 0 <= j < k ==> (#[trigger] all@[j]).id@ != id@,
        call_ensures(menu_target, (&all, id), r),
    ensures
        r is Ok,
        r->Ok_0.app_id@ == id@,
        r->Ok_0.target@ == all@[k].target@,
        r->Ok_0.running == all@[k].running,
        r->Ok_0.is_elevated == all@[k].is_elevated,
        r->Ok_0.separator == all@[k].separator,
        r->Ok_0.is_folder == all@[k].is_folder,
        r->Ok_0.children_count == all@[k].children@.len(),
        !r->Ok_0.in_folder,
        !r->Ok_0.is_dir,
        r->Ok_0.bin_items == 0,
        all@[k].windows@.len() > 0 ==> r->Ok_0.hwnd == all@[k].windows@[0].hwnd,
        all@[k].windows@.len() == 0 ==> r->Ok_0.hwnd == 0,
{
    let views = app_views(all@);
    let i = entry_index(views, id@);
    assert(views[k] == all@[k]@);
    lemma_index_bound(views, k, id@);
    apps::lemma_entry_index(views, id@);
    if i < k {
        assert(views[i] == all@[i]@);
        assert(all@[i].id@ == id@);
    }
    lemma_entry_views(all@[k]);
    if all@[k].windows@.len() > 0 {
        assert(all@[k]@.windows[0] == all@[k].windows@[0]@);
    }
}

/// Where no entry has the identity, at the top or in a folder, it is told; a
/// panel then has no target.
pub proof fn law_no_menu_for_nothing(
    all: Vec<AppEntry>,
    id: &str,
    current: Option<String>,
    r: Result<Target, String>,
    t: Option<Target>,
)
    requires
        forall|k: int| 0 <= k < all@.len() ==> (#[trigger] all@[k]).id@ != id@,
        forall|k: int, c: int|
            0 <= k < all@.len() && 0 <= c < all@[k].children@.len() ==> (
            #[trigger] all@[k].children@[c]).id@ != id@,
        call_ensures(menu_target, (&all, id), r),
        call_ensures(panel_target, (&current, &all), t),
    ensures
        r is Err,
        r->Err_0@ == "Dock 上没有这个条目: "@ + id@,
        current is None || current->0@ == id@ ==> t is None,
{
    let views = app_views(all@);
    let i = entry_index(views, id@);
    apps::lemma_entry_index(views, id@);
    if i < views.len() {
        assert(views[i] == all@[i]@);
    }
    let f = holder(views, id@);
    lemma_holder_first(views, id@, 0);
    if f < views.len() {
        assert(views[f] == all@[f]@);
        lemma_entry_views(all@[f]);
        let n = entry_index(views[f].children, id@);
        apps::lemma_entry_index(views[f].children, id@);
        assert(views[f].children[n] == all@[f].children@[n]@);
    }
}

/// What the system knows is added, and nothing else changes; what the recycle bin
/// holds is told of nothing but the recycle bin.
pub proof fn law_completed_target(t: Target, is_dir: bool, bin_items: u32, r: Target)
    requires
        call_ensures(complete_target, (t, is_dir, bin_items), r),
    ensures
        r.is_dir == is_dir,
        recycle_bin(t.target@) ==> r.bin_items == bin_items,
        !recycle_bin(t.target@) ==> r.bin_items == 0,
        r.app_id == t.app_id,
        r.target == t.target,
        r.hwnd == t.hwnd,
        r.running == t.running,
        r.is_elevated == t.is_elevated,
        r.separator == t.separator,
        r.is_folder == t.is_folder,
        r.in_folder == t.in_folder,
        r.children_count == t.children_count,
{
}

/// A folder is opened where the first entry with the identity is one. Any other
/// entry is refused, and so is what is not there. An open folder follows its
/// entry: it is closed where the entry is gone, and left alone where nothing is
/// open.
pub proof fn law_folder_to_open(
    all: Vec<AppEntry>,
    id: &str,
    k: int,
    visible: bool,
    folder_id: Option<String>,
    dock_hwnd: u64,
    r: Result<usize, String>,
    entry: Result<usize, String>,
    refreshed: FolderRefresh,
)
    requires
        0 <= k <= all@.len(),
        k < all@.len() ==> all@[k].id@ == id@,
        forall|j: int| 0 <= j < k ==> (#[trigger] all@[j]).id@ != id@,
        call_ensures(show_panel_folder, (&all, id), r),
        call_ensures(folder_entry, (&all, id), entry),
        call_ensures(refresh_open_folder, (visible, &folder_id, dock_hwnd, &all), refreshed),
    ensures
        k < all@.len() ==> entry == Ok::<usize, String>(k as usize),
        k < all@.len() && all@[k].is_folder ==> r == Ok::<usize, String>(k as usize),
        k < all@.len() && !all@[k].is_folder ==> r is Err && r->Err_0@ == "它不是文件夹"@,
        k == all@.len() ==> entry is Err && r is Err && r->Err_0@ == "Dock 上没有这个文件夹: "@
            + id@ && entry->Err_0@ == r->Err_0@,
        !visible || dock_hwnd == 0 || folder_id is None ==> refreshed == FolderRefresh::Nothing,
        visible && dock_hwnd != 0 && folder_id is Some && folder_id->0@ == id@ ==> refreshed
            == if k < all@.len() {
            FolderRefresh::Show(k as usize)
        } else {
            FolderRefresh::Close
        },
{
    let views = app_views(all@);
    let i = entry_index(views, id@);
    apps::lemma_entry_index(views, id@);
    if k < all@.len() {
        assert(views[k] == all@[k]@);
        lemma_index_bound(views, k, id@);
        lemma_entry_views(all@[k]);
    }
    if i < k {
        assert(views[i] == all@[i]@);
    }
    assert(i == k);
}

/// The report that came last is the one that is kept.
pub proof fn law_last_report_is_kept(report: &mut TestReport, msg: String, kept: ())
    requires
        call_ensures(selftest_report, (report, msg), kept),
    ensures
        final(report).msg@ == msg@,
{
}

/// Taking a report gives all of it and leaves none.
pub proof fn law_nothing_is_left_of_a_report(report: &mut TestReport, r: String)
    requires
        call_ensures(take_test_report, (report,), r),
    ensures
        r@ == old(report).msg@,
        final(report).msg@.len() == 0,
{
}

/// Pages change every preference but the list.
pub proof fn law_pages_do_not_change_the_list(
    sent: Preferences,
    pinned: Vec<PinnedApp>,
    r: Preferences,
)
    requires
        call_ensures(set_preferences, (sent, pinned), r),
    ensures
        r.pinned == pinned,
        r.auto_hide == sent.auto_hide,
        r.hide_delay_ms == sent.hide_delay_ms,
        r.icon_size == sent.icon_size,
        r.panel_height == sent.panel_height,
        r.icon_gap == sent.icon_gap,
        r.show_running_indicators == sent.show_running_indicators,
        r.reserve_taskbar == sent.reserve_taskbar,
        r.bottom_offset == sent.bottom_offset,
        r.launch_at_login == sent.launch_at_login,
        r.glass_alpha == sent.glass_alpha,
        r.glass_rgb == sent.glass_rgb,
{
}

/// Starting with the system is changed to what is wanted, and only where it is
/// not so already. The open folder stays where the menu has no place on the dock.
pub proof fn law_login_changes(
    wanted: bool,
    enabled: bool,
    r: Option<bool>,
    anchor: bool,
    stays: bool,
)
    requires
        call_ensures(login_change, (wanted, enabled), r),
        call_ensures(keeps_folder, (anchor,), stays),
    ensures
        r is Some <==> wanted != enabled,
        r is Some ==> r->0 == wanted,
        stays <==> !anchor,
{
}

/// Entries and separators are counted apart, and together they are all: one more
/// entry at the end is one more of its kind.
pub proof fn law_entries_are_counted(
    pinned: Vec<PinnedApp>,
    more: Vec<PinnedApp>,
    r: (usize, usize),
    s: (usize, usize),
)
    requires
        more@.len() == pinned@.len() + 1,
        more@.drop_last() == pinned@,
        call_ensures(entry_counts, (&pinned,), r),
        call_ensures(entry_counts, (&more,), s),
    ensures
        more@.last().separator ==> s.0 == r.0 && s.1 == r.1 + 1,
        !more@.last().separator ==> s.0 == r.0 + 1 && s.1 == r.1,
        pinned@.len() == 0 ==> r.0 == 0 && r.1 == 0,
{
    let a = pinned_views(pinned@);
    let b = pinned_views(more@);
    assert(b.drop_last() =~= a);
    assert(b.last() == more@.last()@);
}

/// A handle is shown in hexadecimal behind `0x`; no window is shown as none.
pub proof fn law_handles(hwnd: Option<u64>, r: String)
    requires
        call_ensures(handle_text, (hwnd,), r),
    ensures
        hwnd is None ==> r@ == "(无)"@,
        hwnd is Some ==> {
            &&& r@.len() >= 3
            &&& r@[0] == '0' && r@[1] == 'x'
            &&& r@.last() == "0123456789ABCDEF"@[(hwnd->0 % 16) as int]
            &&& hwnd->0 < 16 ==> r@.len() == 3
            &&& hwnd->0 >= 16 ==> r@ == "0x"@ + upper_hex((hwnd->0 / 16) as nat, 1).push(
                "0123456789ABCDEF"@[(hwnd->0 % 16) as int],
            )
        },
{
    reveal_strlit("0x");
    if let Some(h) = hwnd {
        let n = h as nat;
        text::law_upper_hexadecimal(n, 1);
        if n >= 16 {
            text::law_upper_hexadecimal(n / 16, 1);
            text::law_upper_hexadecimal(n / 16, 0);
            let u = upper_hex(n, 1);
            assert(upper_hex(n / 16, 0) =~= upper_hex(n / 16, 1));
            assert(u =~= u.drop_last().push(u.last()));
        }
    }
}

} // verus!
