use dock_app::menu::id;
use dock_app::menu::{build, menu_width, reveal_in_explorer, run, MenuAction, MenuItem, Target};

fn target(running: bool, separator: bool) -> Target {
    Target {
        app_id: "c:\\windows\\notepad.exe".into(),
        target: r"C:\Windows\notepad.exe".into(),
        hwnd: 0x1234,
        running,
        is_elevated: false,
        separator,
        is_folder: false,
        in_folder: false,
        children_count: 0,
        is_dir: false,
        bin_items: 0,
    }
}

#[test]
fn separator_menu_only_has_remove() {
    let v = build(&target(false, true));
    assert_eq!(v.len(), 1);
    assert_eq!(v[0].id, id::REMOVE);
    assert!(v[0].danger && v[0].enabled);
}

#[test]
fn not_running_offers_launch_and_runas() {
    let v = build(&target(false, false));
    assert_eq!(v[0].label, "启动");
    assert!(v.iter().any(|i| i.id == id::RUNAS && i.enabled));
    assert!(v.iter().any(|i| i.id == id::ADD_SEP));
    assert!(v.iter().any(|i| i.id == id::REVEAL && i.enabled));
}

#[test]
fn running_offers_window_ops() {
    let v = build(&target(true, false));
    let ids: Vec<&str> = v.iter().map(|i| i.id.as_str()).collect();
    assert!(ids.contains(&id::ACTIVATE));
    assert!(ids.contains(&id::MINIMIZE));
    assert!(ids.contains(&id::CLOSE));
    assert_eq!(ids[0], id::ACTIVATE);
}

#[test]
fn elevated_console_is_greyed_out() {
    let mut t = target(false, false);
    t.is_elevated = true;
    let v = build(&t);
    let ras = v.iter().find(|i| i.id == id::RUNAS).unwrap();
    assert!(!ras.enabled, "已提权时「以管理员身份运行」必须置灰");
}

#[test]
fn uwp_cannot_reveal() {
    let mut t = target(false, false);
    t.target = "shell:AppsFolder\\Microsoft.WindowsCalculator_8wekyb3d8bbwe!App".into();
    let v = build(&t);
    let r = v.iter().find(|i| i.id == id::REVEAL).unwrap();
    assert!(!r.enabled, "打包应用没有文件位置可打开");
}

#[test]
fn system_location_says_open_and_cannot_run_as_admin() {
    let mut t = target(false, false);
    t.target = "shell:MyComputerFolder".into();
    let v = build(&t);
    let first = &v[0];
    assert_eq!(first.id, id::ACTIVATE);
    assert_eq!(first.label, "打开", "系统位置不是程序，该说「打开」");
    let ras = v.iter().find(|i| i.id == id::RUNAS).unwrap();
    assert!(!ras.enabled, "系统位置没有「以管理员身份打开」这回事");
    let located = v.iter().find(|i| i.id == id::REVEAL).unwrap();
    assert!(!located.enabled, "系统位置没有文件所在位置可打开");
}

#[test]
fn packaged_app_still_says_launch() {
    let mut t = target(false, false);
    t.target = "shell:AppsFolder\\Microsoft.WindowsCalculator_8wekyb3d8bbwe!App".into();
    let v = build(&t);
    assert_eq!(v[0].label, "启动");
}

#[test]
fn folder_menu_offers_rename_dissolve_and_remove_only() {
    let mut t = target(false, false);
    t.is_folder = true;
    t.children_count = 3;
    let v = build(&t);
    let ids: Vec<&str> = v.iter().map(|i| i.id.as_str()).collect();
    assert_eq!(ids, vec![id::RENAME, "", id::DISSOLVE, "", id::REMOVE]);
    assert!(v[0].label.ends_with('…'), "会弹输入框的项要带省略号（Windows 约定）");
    assert!(v[4].danger, "移出 Dock 是危险操作");
    assert!(v[4].label.contains("3"), "「移出 Dock」要写明里面有几项，实得 {:?}", v[4].label);
    assert!(!ids.contains(&id::ACTIVATE));
    assert!(!ids.contains(&id::REVEAL));
}

#[test]
fn recycle_bin_offers_empty_and_greys_it_when_empty() {
    let mut t = target(false, false);
    t.target = "shell:RecycleBinFolder".into();
    t.bin_items = 4;
    let v = build(&t);
    let empty = v.iter().find(|i| i.id == id::EMPTY_BIN).expect("要有清空回收站");
    assert!(empty.enabled, "回收站里有东西时应该可点");
    assert!(empty.danger, "不可撤销的破坏性操作要红字");
    assert_eq!(empty.label, "清空回收站");
    assert_eq!(v[0].label, "打开");
    assert!(!v.iter().find(|i| i.id == id::RUNAS).unwrap().enabled);

    t.bin_items = 0;
    let v2 = build(&t);
    assert!(!v2.iter().find(|i| i.id == id::EMPTY_BIN).unwrap().enabled);
    let t3 = target(false, false);
    assert!(!build(&t3).iter().any(|i| i.id == id::EMPTY_BIN));
}

#[test]
fn directory_target_says_open_and_cannot_run_as_admin() {
    let mut t = target(false, false);
    t.target = r"C:\Users\x\AppData\Local\dev.local.dock\临时文件".into();
    t.is_dir = true;
    let v = build(&t);
    assert_eq!(v[0].id, id::ACTIVATE);
    assert_eq!(v[0].label, "打开", "目录不是程序，说「打开」才准确");
    assert!(!v.iter().find(|i| i.id == id::RUNAS).unwrap().enabled);
    assert!(
        v.iter().find(|i| i.id == id::REVEAL).unwrap().enabled,
        "它是真实路径，「打开文件所在位置」有意义"
    );
}

#[test]
fn child_inside_folder_moves_out_instead_of_being_deleted() {
    let mut t = target(false, false);
    t.in_folder = true;
    let v = build(&t);
    let ids: Vec<&str> = v.iter().map(|i| i.id.as_str()).collect();
    assert!(ids.contains(&id::MOVE_OUT), "文件夹里的条目要有「移出文件夹」，实得 {ids:?}");
    assert!(
        !ids.contains(&id::REMOVE),
        "文件夹里**不该**出现「移出 Dock」（那是删掉，得先移出来再做）"
    );
    let mv = v.iter().find(|i| i.id == id::MOVE_OUT).unwrap();
    assert_eq!(mv.label, "移出文件夹");
    assert!(mv.danger);
    assert!(
        !v.iter().any(|i| i.id == id::MAKE_FOLDER),
        "不支持嵌套文件夹，所以文件夹里的条目没有「新建文件夹」"
    );
}

#[test]
fn top_level_app_can_become_folder() {
    let v = build(&target(false, false));
    assert!(v.iter().any(|i| i.id == id::MAKE_FOLDER));
}

#[test]
fn width_is_clamped_and_grows_with_labels() {
    let short = vec![MenuItem::new("a", "启动")];
    let long = vec![MenuItem::new("a", "以管理员身份运行并以极高的权限打开这个程序")];
    assert!(menu_width(&short) >= 168);
    assert!(menu_width(&long) <= 300);
    assert!(menu_width(&long) > menu_width(&short));
}

#[test]
fn every_offered_item_is_handled_by_run() {
    let all = build(&target(true, false));
    let known = [
        id::ACTIVATE,
        id::MINIMIZE,
        id::CLOSE,
        id::RUNAS,
        id::ADD_SEP,
        id::REMOVE,
        id::REVEAL,
        id::MAKE_FOLDER,
        id::DISSOLVE,
    ];
    for i in all.iter().filter(|i| !i.divider) {
        assert!(known.contains(&i.id.as_str()), "未处理的菜单项 {}", i.id);
        assert!(run(&target(true, false), &i.id).is_ok());
    }
}

#[test]
fn items_lead_to_their_actions() {
    let t = target(true, false);
    assert!(matches!(run(&t, id::ACTIVATE), Ok(MenuAction::Activate)));
    assert!(matches!(run(&target(false, false), id::ACTIVATE), Ok(MenuAction::Launch)));
    assert!(matches!(run(&t, id::RUNAS), Ok(MenuAction::LaunchAsAdmin)));
    assert!(matches!(run(&t, id::MINIMIZE), Ok(MenuAction::Minimize)));
    assert!(matches!(run(&t, id::CLOSE), Ok(MenuAction::Close)));
    assert!(matches!(run(&t, id::MOVE_OUT), Ok(MenuAction::MoveOut)));
    assert!(matches!(run(&t, id::RENAME), Ok(MenuAction::Rename)));
    assert!(run(&t, "no-such-item").is_err());
}

#[test]
fn a_file_is_shown_in_its_directory() {
    assert!(reveal_in_explorer("").is_none());
    assert!(reveal_in_explorer(r"C:\Windows\notepad.exe").unwrap().contains(r"C:\Windows\notepad.exe"));
}

#[test]
fn items_are_built_in_steps() {
    let i = MenuItem::new("x", "标题").danger().disabled();
    assert_eq!(i.id, "x");
    assert_eq!(i.label, "标题");
    assert!(i.danger && !i.enabled && !i.divider);
    let d = MenuItem::divider();
    assert!(d.divider && d.id.is_empty() && d.label.is_empty());
    let t = Target::default();
    assert!(t.app_id.is_empty() && t.hwnd == 0 && !t.running);
}
