//! The menu of the tray: what its items do.

use vstd::prelude::*;
use vstd::string::*;
use crate::apps;
use crate::apps::target_id;
use crate::store::Preferences;
use crate::text;
use crate::text::lowercase;

verus! {

/// A place of the system that can be put on the dock.
#[derive(Debug, Clone, Copy, PartialEq, Eq, Structural)]
pub enum Location {
    Computer,
    RecycleBin,
}

/// What opening a place opens.
pub open spec fn location_target(l: Location) -> Seq<char> {
    match l {
        Location::Computer => "shell:MyComputerFolder"@,
        Location::RecycleBin => "shell:RecycleBinFolder"@,
    }
}

impl Location {
    /// What opening the place opens.
    pub fn target(self) -> (r: &'static str)
        ensures
            r@ == location_target(self),
    {
        match self {
            Location::Computer => "shell:MyComputerFolder",
            Location::RecycleBin => "shell:RecycleBinFolder",
        }
    }

    /// Its name where the system gives none.
    pub fn fallback(self) -> (r: &'static str)
        ensures
            r@ == match self {
                Location::Computer => "此电脑"@,
                Location::RecycleBin => "回收站"@,
            },
    {
        match self {
            Location::Computer => "此电脑",
            Location::RecycleBin => "回收站",
        }
    }
}

/// The identity of the item for a place.
pub open spec fn location_item(l: Location) -> Seq<char> {
    "loc:"@ + target_id(location_target(l))
}

/// The identity of the item for a place.
pub fn location_id(l: Location) -> (r: String)
    ensures
        r@ == location_item(l),
{
    text::concat("loc:", apps::id_for_target(l.target()).as_str())
}

/// The text of the item for a place: what the system calls it, else a fixed
/// name.
pub fn location_text(l: Location, shell_name: Option<String>) -> (r: String)
    ensures
        match shell_name {
            Some(n) => r@ == n@,
            None => r@ == match l {
                Location::Computer => "此电脑"@,
                Location::RecycleBin => "回收站"@,
            },
        },
{
    match shell_name {
        Some(n) => n,
        None => l.fallback().to_owned(),
    }
}

/// What an item of the menu does.
#[derive(Debug, Clone, Copy, PartialEq, Eq, Structural)]
pub enum TrayAction {
    AddLocation(Location),
    /// The item is for a place that is not known.
    UnknownLocation,
    Quit,
    Settings,
    OpenLogs,
    OpenConfig,
    AddTempFolder,
    AddApp,
    ToggleAutoHide,
    ToggleAutostart,
    Nothing,
}

/// What an item of the menu does.
pub open spec fn action_of(id: Seq<char>) -> TrayAction {
    if "loc:"@.is_prefix_of(id) {
        let rest = id.skip(4);
        if rest == target_id(location_target(Location::Computer)) {
            TrayAction::AddLocation(Location::Computer)
        } else if rest == target_id(location_target(Location::RecycleBin)) {
            TrayAction::AddLocation(Location::RecycleBin)
        } else {
            TrayAction::UnknownLocation
        }
    } else if id == "quit"@ {
        TrayAction::Quit
    } else if id == "settings"@ {
        TrayAction::Settings
    } else if id == "open-logs"@ {
        TrayAction::OpenLogs
    } else if id == "open-config"@ {
        TrayAction::OpenConfig
    } else if id == "add-temp"@ {
        TrayAction::AddTempFolder
    } else if id == "add-app"@ {
        TrayAction::AddApp
    } else if id == "autohide"@ {
        TrayAction::ToggleAutoHide
    } else if id == "autostart"@ {
        TrayAction::ToggleAutostart
    } else {
        TrayAction::Nothing
    }
}

/// What an item of the menu does.
pub fn on_menu(id: &str) -> (r: TrayAction)
    ensures
        r == action_of(id@),
{
    if text::starts_with(id, "loc:") {
        proof {
            reveal_strlit("loc:");
        }
        let v = text::chars_of(id);
        let n: usize = v.len();
        let rest = text::string_of(&v, 4, n);
        assert(rest@ =~= id@.skip(4));
        let computer = apps::id_for_target(Location::Computer.target());
        let bin = apps::id_for_target(Location::RecycleBin.target());
        if text::same(rest.as_str(), computer.as_str()) {
            TrayAction::AddLocation(Location::Computer)
        } else if text::same(rest.as_str(), bin.as_str()) {
            TrayAction::AddLocation(Location::RecycleBin)
        } else {
            TrayAction::UnknownLocation
        }
    } else if text::same(id, "quit") {
        TrayAction::Quit
    } else if text::same(id, "settings") {
        TrayAction::Settings
    } else if text::same(id, "open-logs") {
        TrayAction::OpenLogs
    } else if text::same(id, "open-config") {
        TrayAction::OpenConfig
    } else if text::same(id, "add-temp") {
        TrayAction::AddTempFolder
    } else if text::same(id, "add-app") {
        TrayAction::AddApp
    } else if text::same(id, "autohide") {
        TrayAction::ToggleAutoHide
    } else if text::same(id, "autostart") {
        TrayAction::ToggleAutostart
    } else {
        TrayAction::Nothing
    }
}

/// Switches hiding on or off. Gives how it is now.
pub fn toggle_auto_hide(p: &mut Preferences) -> (r: bool)
    ensures
        *final(p) == (Preferences { auto_hide: !old(p).auto_hide, ..*old(p) }),
        r == final(p).auto_hide,
{
    p.auto_hide = !p.auto_hide;
    p.auto_hide
}

/// How starting with the system is switched.
#[derive(Debug)]
pub enum AutostartStep {
    /// It is registered for this program.
    Enable(String),
    Disable,
    /// The program does not know where it is.
    Fail(String),
}

/// How starting with the system is switched: to the other of what it is.
pub fn autostart_step(enabled: bool, exe: Option<String>) -> (r: AutostartStep)
    ensures
        if enabled {
            r is Disable
        } else {
            match exe {
                Some(p) => r is Enable && r->Enable_0@ == p@,
                None => r is Fail && r->Fail_0@ == "无法取得自身路径"@,
            }
        },
{
    if enabled {
        AutostartStep::Disable
    } else {
        match exe {
            Some(p) => AutostartStep::Enable(p),
            None => AutostartStep::Fail("无法取得自身路径".to_owned()),
        }
    }
}

/// Keeps what was switched, where that worked.
pub fn autostart_done(p: &mut Preferences, wanted: bool, worked: bool)
    ensures
        *final(p) == if worked {
            Preferences { launch_at_login: wanted, ..*old(p) }
        } else {
            *old(p)
        },
{
    if worked {
        p.launch_at_login = wanted;
    }
}

proof fn lemma_places_differ()
    ensures
        target_id(location_target(Location::Computer)) != target_id(
            location_target(Location::RecycleBin),
        ),
{
    reveal_strlit("shell:MyComputerFolder");
    reveal_strlit("shell:RecycleBinFolder");
    reveal_strlit("shell:AppsFolder\\");
    let a = location_target(Location::Computer);
    let b = location_target(Location::RecycleBin);
    let p = apps::APPS_FOLDER_PREFIX@;
    assert(a[6] == 'M' && b[6] == 'R' && p[6] == 'A');
    if p.is_prefix_of(a) {
        assert(p[6] == a.subrange(0, p.len() as int)[6]);
    }
    if p.is_prefix_of(b) {
        assert(p[6] == b.subrange(0, p.len() as int)[6]);
    }
    assert(lowercase(a)[6] == 'm');
    assert(lowercase(b)[6] == 'r');
}

/// The item for a place leads to that place.
pub proof fn law_location_items_lead_back(l: Location)
    ensures
        action_of(location_item(l)) == TrayAction::AddLocation(l),
{
    reveal_strlit("loc:");
    let id = location_item(l);
    assert(id.subrange(0, 4) =~= "loc:"@);
    assert(id.skip(4) =~= target_id(location_target(l)));
    lemma_places_differ();
}

/// Each item does what it is named after, and nothing else does it: every action
/// has one item, and an item that is not known does nothing.
pub proof fn law_items_do_what_they_name(id: Seq<char>)
    ensures
        action_of(id) == TrayAction::Quit <==> id == "quit"@,
        action_of(id) == TrayAction::Settings <==> id == "settings"@,
        action_of(id) == TrayAction::OpenLogs <==> id == "open-logs"@,
        action_of(id) == TrayAction::OpenConfig <==> id == "open-config"@,
        action_of(id) == TrayAction::AddTempFolder <==> id == "add-temp"@,
        action_of(id) == TrayAction::AddApp <==> id == "add-app"@,
        action_of(id) == TrayAction::ToggleAutoHide <==> id == "autohide"@,
        action_of(id) == TrayAction::ToggleAutostart <==> id == "autostart"@,
        action_of(id) == TrayAction::AddLocation(Location::Computer) <==> id
            == "loc:shell:mycomputerfolder"@,
        action_of(id) == TrayAction::AddLocation(Location::RecycleBin) <==> id
            == "loc:shell:recyclebinfolder"@,
        action_of(id) == TrayAction::UnknownLocation ==> "loc:"@.is_prefix_of(id),
        "loc:"@.is_prefix_of(id) ==> action_of(id) is AddLocation || action_of(id)
            == TrayAction::UnknownLocation,
{
    reveal_strlit("loc:");
    reveal_strlit("quit");
    reveal_strlit("settings");
    reveal_strlit("open-logs");
    reveal_strlit("open-config");
    reveal_strlit("add-temp");
    reveal_strlit("add-app");
    reveal_strlit("autohide");
    reveal_strlit("autostart");
    lemma_location_items();
    lemma_places_differ();
    assert("quit"@[0] == 'q' && "settings"@[0] == 's' && "open-logs"@[5] == 'l'
        && "open-config"@[5] == 'c' && "add-temp"@[4] == 't' && "add-app"@[4] == 'a'
        && "autohide"@[4] == 'h' && "autostart"@[4] == 's');
    if "loc:"@.is_prefix_of(id) {
        assert(id[0] == id.subrange(0, 4)[0]);
        assert(id =~= "loc:"@ + id.skip(4));
    }
    law_location_items_lead_back(Location::Computer);
    law_location_items_lead_back(Location::RecycleBin);
}

proof fn lemma_location_items()
    ensures
        location_item(Location::Computer) == "loc:shell:mycomputerfolder"@,
        location_item(Location::RecycleBin) == "loc:shell:recyclebinfolder"@,
{
    reveal_strlit("loc:");
    reveal_strlit("shell:MyComputerFolder");
    reveal_strlit("shell:RecycleBinFolder");
    reveal_strlit("loc:shell:mycomputerfolder");
    reveal_strlit("loc:shell:recyclebinfolder");
    reveal_strlit("shell:AppsFolder\\");
    let a = location_target(Location::Computer);
    let b = location_target(Location::RecycleBin);
    let p = apps::APPS_FOLDER_PREFIX@;
    if p.is_prefix_of(a) {
        assert(p[6] == a.subrange(0, p.len() as int)[6]);
    }
    if p.is_prefix_of(b) {
        assert(p[6] == b.subrange(0, p.len() as int)[6]);
    }
    assert("loc:"@ + lowercase(a) =~= "loc:shell:mycomputerfolder"@);
    assert("loc:"@ + lowercase(b) =~= "loc:shell:recyclebinfolder"@);
}

/// What the system calls a place is what the menu calls it; only where it has no
/// name a fixed one is shown. What is opened is the place itself.
pub proof fn law_places(
    l: Location,
    shell_name: Option<String>,
    name: String,
    target: &'static str,
    id: String,
)
    requires
        call_ensures(location_text, (l, shell_name), name),
        call_ensures(Location::target, (l,), target),
        call_ensures(location_id, (l,), id),
    ensures
        shell_name is Some ==> name@ == shell_name->0@,
        shell_name is None && l is Computer ==> name@ == "此电脑"@,
        shell_name is None && l is RecycleBin ==> name@ == "回收站"@,
        l is Computer ==> target@ == "shell:MyComputerFolder"@ && id@
            == "loc:shell:mycomputerfolder"@,
        l is RecycleBin ==> target@ == "shell:RecycleBinFolder"@ && id@
            == "loc:shell:recyclebinfolder"@,
{
    lemma_location_items();
}

/// Switching changes one preference to its opposite and no other, and says how it
/// is now.
pub proof fn law_hiding_is_switched(p: &mut Preferences, r: bool)
    requires
        call_ensures(toggle_auto_hide, (p,), r),
    ensures
        final(p).auto_hide == !old(p).auto_hide,
        r == final(p).auto_hide,
        final(p).launch_at_login == old(p).launch_at_login,
        final(p).pinned == old(p).pinned,
        final(p).icon_size == old(p).icon_size,
        final(p).hide_delay_ms == old(p).hide_delay_ms,
        final(p).bottom_offset == old(p).bottom_offset,
        final(p).reserve_taskbar == old(p).reserve_taskbar,
        final(p).panel_height == old(p).panel_height,
        final(p).icon_gap == old(p).icon_gap,
        final(p).show_running_indicators == old(p).show_running_indicators,
        final(p).glass_alpha == old(p).glass_alpha,
        final(p).glass_rgb == old(p).glass_rgb,
{
}

/// Starting with the system is switched off where it is on, whether or not the
/// program knows where it is; it is switched on for the program itself.
pub proof fn law_autostart_is_switched(enabled: bool, exe: Option<String>, r: AutostartStep)
    requires
        call_ensures(autostart_step, (enabled, exe), r),
    ensures
        r is Disable <==> enabled,
        r is Enable <==> !enabled && exe is Some,
        r is Enable ==> r->Enable_0@ == exe->0@,
        r is Fail ==> r->Fail_0@ == "无法取得自身路径"@,
{
}

/// What was switched is kept only where it worked, and nothing else changes.
pub proof fn law_autostart_is_kept(p: &mut Preferences, wanted: bool, worked: bool, r: ())
    requires
        call_ensures(autostart_done, (p, wanted, worked), r),
    ensures
        worked ==> final(p).launch_at_login == wanted,
        !worked ==> *final(p) == *old(p),
        final(p).auto_hide == old(p).auto_hide,
        final(p).pinned == old(p).pinned,
        final(p).icon_size == old(p).icon_size,
{
}

} // verus!
