use dock_app::autostart;
use dock_app::commands::{
    complete_target, entry_counts, folder_entry, handle_text, keeps_folder, login_change, menu_target,
    panel_target, refresh_open_folder, selftest_report, set_preferences, show_panel_folder,
    take_test_report, FolderRefresh, TestReport,
};
use dock_app::geometry::Rect;
use dock_app::model::{AppEntry, AppKind, PinnedApp, WindowRef};
use dock_app::startup::{
    after_look, after_set_up, holds_window, hooks_changed, is_placed, may_run, next_setup_step,
    takes_drops, SetupStep, Supervision, WINDOW_TRIES,
};
use dock_app::store::Preferences;
use dock_app::tray::{
    autostart_done, autostart_step, location_id, location_text, on_menu, toggle_auto_hide,
    AutostartStep, Location, TrayAction,
};

fn entry(id: &str, children: Vec<AppEntry>) -> AppEntry {
    AppEntry {
        id: id.into(),
        display_name: id.into(),
        kind: AppKind::Win32,
        target: format!("C:\\{id}.exe"),
        is_elevated: false,
        has_foreground: false,
        running: true,
        windows: vec![WindowRef { hwnd: 9, title: "t".into(), minimized: false }],
        separator: false,
        is_folder: !children.is_empty(),
        children,
    }
}

#[test]
fn a_report_is_taken_once() {
    let mut r = TestReport::new();
    assert_eq!(take_test_report(&mut r), "");
    selftest_report(&mut r, "old".into());
    selftest_report(&mut r, "new".into());
    assert_eq!(take_test_report(&mut r), "new");
    assert_eq!(take_test_report(&mut r), "");
}

#[test]
fn a_page_cannot_change_the_list() {
    let mut sent = Preferences::default();
    sent.icon_size = 50;
    let pinned = vec![PinnedApp {
        id: "a".into(),
        display_name: "a".into(),
        target: "a".into(),
        separator: false,
        is_folder: false,
        children: Vec::new(),
    }];
    let r = set_preferences(sent, pinned);
    assert_eq!(r.icon_size, 50);
    assert_eq!(r.pinned.len(), 1);
    assert_eq!(entry_counts(&r.pinned), (1, 0));
    assert_eq!(login_change(true, false), Some(true));
    assert_eq!(login_change(true, true), None);
    assert_eq!(handle_text(Some(0xab)), "0xAB");
    assert_eq!(handle_text(None), "(无)");
}

#[test]
fn menus_find_their_entries() {
    let all = vec![entry("a", Vec::new()), entry("f", vec![entry("c", Vec::new())])];
    let t = menu_target(&all, "a").unwrap();
    assert!(!t.in_folder && t.hwnd == 9 && t.running);
    let t = menu_target(&all, "c").unwrap();
    assert!(t.in_folder);
    let t = menu_target(&all, "f").unwrap();
    assert_eq!(t.children_count, 1);
    assert_eq!(menu_target(&all, "z").unwrap_err(), "Dock 上没有这个条目: z");
    assert!(panel_target(&None, &all).is_none());
    assert!(panel_target(&Some("z".into()), &all).is_none());
    assert!(panel_target(&Some("c".into()), &all).unwrap().in_folder);
    let mut t = menu_target(&all, "a").unwrap();
    t.target = "shell:RecycleBinFolder".into();
    let t = complete_target(t, true, 4);
    assert!(t.is_dir && t.bin_items == 4);
    let t = complete_target(menu_target(&all, "a").unwrap(), false, 4);
    assert_eq!(t.bin_items, 0);
}

#[test]
fn folders_are_opened_and_refreshed() {
    let all = vec![entry("a", Vec::new()), entry("f", vec![entry("c", Vec::new())])];
    assert_eq!(show_panel_folder(&all, "f"), Ok(1));
    assert_eq!(show_panel_folder(&all, "a").unwrap_err(), "它不是文件夹");
    assert_eq!(folder_entry(&all, "z").unwrap_err(), "Dock 上没有这个文件夹: z");
    let f = Some("f".to_string());
    assert_eq!(refresh_open_folder(true, &f, 1, &all), FolderRefresh::Show(1));
    assert_eq!(refresh_open_folder(true, &Some("z".into()), 1, &all), FolderRefresh::Close);
    assert_eq!(refresh_open_folder(false, &f, 1, &all), FolderRefresh::Nothing);
    assert_eq!(refresh_open_folder(true, &None, 1, &all), FolderRefresh::Nothing);
    assert_eq!(refresh_open_folder(true, &f, 0, &all), FolderRefresh::Nothing);
    assert!(keeps_folder(false) && !keeps_folder(true));
}

#[test]
fn the_tray_knows_its_items() {
    for l in [Location::Computer, Location::RecycleBin] {
        assert_eq!(on_menu(&location_id(l)), TrayAction::AddLocation(l));
    }
    assert_eq!(location_id(Location::Computer), "loc:shell:mycomputerfolder");
    assert_eq!(on_menu("loc:else"), TrayAction::UnknownLocation);
    assert_eq!(on_menu("quit"), TrayAction::Quit);
    assert_eq!(on_menu("settings"), TrayAction::Settings);
    assert_eq!(on_menu("open-logs"), TrayAction::OpenLogs);
    assert_eq!(on_menu("open-config"), TrayAction::OpenConfig);
    assert_eq!(on_menu("add-temp"), TrayAction::AddTempFolder);
    assert_eq!(on_menu("add-app"), TrayAction::AddApp);
    assert_eq!(on_menu("autohide"), TrayAction::ToggleAutoHide);
    assert_eq!(on_menu("autostart"), TrayAction::ToggleAutostart);
    assert_eq!(on_menu("?"), TrayAction::Nothing);
    assert_eq!(location_text(Location::RecycleBin, None), "回收站");
    assert_eq!(location_text(Location::RecycleBin, Some("Bin".into())), "Bin");
}

#[test]
fn switches_are_switched() {
    let mut p = Preferences::default();
    assert!(toggle_auto_hide(&mut p));
    assert!(!toggle_auto_hide(&mut p));
    assert!(matches!(autostart_step(true, None), AutostartStep::Disable));
    assert!(matches!(autostart_step(false, Some("x".into())), AutostartStep::Enable(e) if e == "x"));
    assert!(matches!(autostart_step(false, None), AutostartStep::Fail(e) if e == "无法取得自身路径"));
    autostart_done(&mut p, true, false);
    assert!(!p.launch_at_login);
    autostart_done(&mut p, true, true);
    assert!(p.launch_at_login);
}

#[test]
fn the_registration_reads_back() {
    let v = autostart::entry_value(r"C:\a b\dock.exe");
    assert_eq!(v, "\"C:\\a b\\dock.exe\"");
    assert_eq!(autostart::current_entry(&format!("{v}\0\0")), v);
    assert!(autostart::enable(true, 0).is_ok());
    assert_eq!(autostart::enable(true, 5).unwrap_err(), "写入注册表失败 (code=5)");
    assert_eq!(autostart::enable(false, 0).unwrap_err(), "无法打开 HKCU Run 注册表项");
    assert!(autostart::disable(false, 9).is_ok());
    assert!(autostart::disable(true, 2).is_ok());
    assert_eq!(autostart::disable(true, 5).unwrap_err(), "删除注册表值失败 (code=5)");
}

#[test]
fn the_window_is_sunk_before_it_is_fixed() {
    let mut steps = vec![SetupStep::Style];
    while let Some(s) = next_setup_step(*steps.last().unwrap(), false) {
        steps.push(s);
    }
    let at = |s: SetupStep| steps.iter().position(|x| *x == s);
    assert!(at(SetupStep::Sink).unwrap() < at(SetupStep::Hooks).unwrap());
    assert!(at(SetupStep::Place).is_some() && at(SetupStep::Keep).is_none());
    assert_eq!(steps.last(), Some(&SetupStep::Reveal));
    assert_eq!(next_setup_step(SetupStep::Material, true), Some(SetupStep::Keep));
    assert_eq!(next_setup_step(SetupStep::Keep, true), Some(SetupStep::Reveal));
    let r = Rect { left: 1, top: 2, right: 3, bottom: 4 };
    assert!(is_placed(&r, &Rect { right: 9, ..r }) && !is_placed(&r, &Rect { top: 9, ..r }));
}

#[test]
fn the_supervisor_gives_up_in_the_end() {
    assert_eq!(after_look(0, Some(7)), Supervision::SetUp(7));
    assert_eq!(after_look(0, Some(0)), Supervision::FindWindow(1));
    assert_eq!(after_look(WINDOW_TRIES - 1, None), Supervision::NoWindow);
    assert_eq!(after_set_up(7, true), Supervision::Run(7));
    assert_eq!(after_set_up(7, false), Supervision::NoMainThread);
    assert!(hooks_changed((0, 0), (1, 2)) && !hooks_changed((1, 2), (1, 2)) && !hooks_changed((1, 2), (0, 0)));
    assert!(may_run(true, false) && may_run(false, true) && !may_run(true, true));
    assert!(takes_drops("dock") && !takes_drops("settings"));
    assert!(holds_window(&Some("holdwin".into())) && !holds_window(&None));
}
