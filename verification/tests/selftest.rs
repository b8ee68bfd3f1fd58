use dock_app::drop::Outcome;
use dock_app::geometry::Rect;
use dock_app::menu::{id, MenuItem};
use dock_app::model::{AppEntry, AppKind, PinnedApp, WindowRef};
use dock_app::selftest::{
    above_dock, added_last, all_closed, bin_item_ok, can_be_dropped, centred, changed_by, check_line,
    children_of, click_proven, close_above, count_separators, describe_outcome, directory_menu_ok,
    dissolved_ok, dots_ok, dragged_in, explorer_windows, first_folder, focus_verdict, folder_made,
    folder_menu_ok, fresh_windows, has_label, hint_ok, icon_width_ok, ids_of, ipc_verdict,
    is_plain_window, item_index, link_target_ok, ma_name, menu_counts, middle, moved_out_behind,
    one_gone, only_removal, order_after, other_file_rejected, other_icon_size, other_separator_second,
    phases, pick_draggable, pick_seed, plan_drag, removal_counts, require_temp_config,
    restore_separators, run_if_enabled, same_texts, separator_second, something_opened, to_absolute,
    windows_below, ClickTarget, Layered, SettleStep, Settling, Switches, Tally,
};
use dock_app::selftest_replies::{
    center_tokens, drag_reach, eval_script, icon_dot_expr, item_center_expr, menu_counts_ok, menu_fits,
    menu_labels, name_prompt_script, no_folder_dot, point_tokens, read_document, read_flags,
    reply_text, separator_expr, separator_line_ok, separator_ok, set_preference_script,
    settings_report_ok, tagged_text, DragReach, DRAG_PROBE_SCRIPT, ICON_WIDTH_EXPR, MENU_EXPR,
};
use dock_app::store::{add_separator, create_folder, dissolve_folder, move_out_of_folder_in};

fn app(id: &str) -> PinnedApp {
    PinnedApp {
        id: id.into(),
        display_name: id.into(),
        target: format!("C:\\{id}.exe"),
        separator: false,
        is_folder: false,
        children: Vec::new(),
    }
}

fn texts(v: &[&str]) -> Vec<String> {
    v.iter().map(|s| s.to_string()).collect()
}

fn off() -> Switches {
    Switches {
        layer_test: None,
        self_test: None,
        drag_probe: None,
        drag_test: None,
        menu_test: None,
        location_test: None,
        operation_test: None,
        dump_apps: None,
        icon_boxes: None,
        menu_shot: None,
    }
}

#[test]
fn switches_choose_the_tests() {
    let p = run_if_enabled(&off());
    assert!(p.layering && p.focus && !p.menus && p.menu_shot.is_none());
    let mut s = off();
    s.menu_test = Some("1".into());
    s.menu_shot = Some("7".into());
    let p = run_if_enabled(&s);
    assert!(p.menus && p.menu_shot == Some(7));
    s.self_test = Some("0".into());
    s.menu_shot = Some("x".into());
    let p = run_if_enabled(&s);
    assert!(!p.menus && !p.focus && p.menu_shot == Some(20));
    assert!(require_temp_config(&Some("d".into())));
    assert!(!require_temp_config(&Some("  ".into())) && !require_temp_config(&None));
}

#[test]
fn checks_are_counted() {
    let mut t = Tally::new();
    t.count(true);
    t.count(true);
    t.count(false);
    assert_eq!(t.summary(), "  小结：2 项通过，1 项失败");
    assert_eq!(check_line(true, "a", "b"), "  [PASS] a  b");
    assert_eq!(check_line(false, "a", "b"), "  [FAIL] a  b");
}

#[test]
fn the_pointer_is_counted_between_the_edges() {
    assert_eq!(to_absolute(0, 1920), 0);
    assert_eq!(to_absolute(1919, 1920), 65535);
    assert_eq!(to_absolute(960, 1920), 32784);
    assert_eq!(to_absolute(-1, 1920), -34);
    assert_eq!(to_absolute(1, 0), 65535);
}

#[test]
fn clicks_are_judged() {
    assert_eq!(phases(false).len(), 3);
    let p = phases(true);
    assert_eq!(p.len(), 6);
    assert!(p[4].expect_steal && !p[3].expect_steal);
    assert!(click_proven(ClickTarget::Dock, 0, true) && !click_proven(ClickTarget::Shielded, 0, true));
    assert_eq!(focus_verdict(false, 3, true, false, false), "INVALID（焦点未就位）");
    assert_eq!(focus_verdict(true, 2, true, false, false), "INVALID（SendInput 未注入）");
    assert_eq!(focus_verdict(true, 3, false, false, false), "INVALID（无法确认点击送达）");
    assert_eq!(focus_verdict(true, 3, true, false, false), "焦点**未**被夺 ✅（符合预期）");
    assert_eq!(focus_verdict(true, 3, true, true, true), "焦点被夺（符合预期）");
    assert_eq!(focus_verdict(true, 3, true, true, false), "焦点被夺 ⚠️ **不符合预期**");
    assert_eq!(focus_verdict(true, 3, true, false, true), "焦点未被夺 ⚠️ **不符合预期**");
    assert_eq!(ma_name(3), "MA_NOACTIVATE（不夺焦点）✅");
    assert_eq!(ma_name(9), "未知");
    assert!(ipc_verdict("activate_app:ok", true).starts_with("链路完整"));
    assert!(ipc_verdict("activate_app:ok", false).starts_with("命令调用成功"));
    assert!(ipc_verdict("", true).starts_with("链路有问题"));
    assert!(is_plain_window(0) && !is_plain_window(0x80) && !is_plain_window(0x0800_0000));
}

#[test]
fn a_page_settles_after_three_equal_looks() {
    let mut s = Settling::new();
    assert_eq!(s.look(" 4 ", 4, 100, false), SettleStep::Again);
    assert_eq!(s.look("4", 4, 100, false), SettleStep::Again);
    assert_eq!(s.look("4", 4, 100, false), SettleStep::Again);
    assert_eq!(s.look("4", 4, 100, true), SettleStep::Settled);
    let mut s = Settling::new();
    assert_eq!(s.look("3", 4, 100, true), SettleStep::TimedOut);
    let mut s = Settling::new();
    for (count, width) in [("4", 100), ("4", 100), ("4", 100), ("4", 101), ("4", 101), ("4", 101)] {
        assert_eq!(s.look(count, 4, width, false), SettleStep::Again);
    }
    assert_eq!(s.look("4", 4, 101, false), SettleStep::Settled);
}

#[test]
fn dragging_is_planned_and_checked() {
    let ids = texts(&["a", "b", "c", "d", "e"]);
    let p = plan_drag(&ids, &texts(&["a"]));
    assert_eq!((p.from, p.to, p.idle), (1, 4, true));
    let p = plan_drag(&ids, &ids);
    assert_eq!((p.from, p.to, p.idle), (0, 3, false));
    assert_eq!(order_after(&ids, 1, 4), texts(&["a", "c", "d", "e", "b"]));
    let list = vec![app("a"), app("b")];
    assert!(same_texts(&ids_of(&list), &texts(&["a", "b"])));
    assert!(!same_texts(&ids_of(&list), &texts(&["a"])));
    assert!(one_gone(3, &list, "c") && !one_gone(3, &list, "b"));
    assert!(added_last(1, &texts(&["a", "b"]), "b") && !added_last(2, &texts(&["a", "b"]), "b"));
}

#[test]
fn separators_are_checked() {
    let mut list = vec![app("a"), app("b")];
    let id = add_separator(&mut list, &Some("a".into()), 1);
    assert!(separator_second(2, &list, &id) && !other_separator_second(2, &list, &id));
    let _ = add_separator(&mut list, &Some("a".into()), 1);
    assert!(other_separator_second(3, &list, &id));
    assert_eq!(count_separators(&list), 2);
}

#[test]
fn folders_are_checked() {
    let mut list = vec![app("a"), app("b"), app("c")];
    list[1].target = "shell:RecycleBinFolder".into();
    assert_eq!(pick_seed(&list), Some(1));
    let f = create_folder(&mut list, "b", &None, 1).unwrap();
    assert_eq!(first_folder(&list), Some(1));
    assert!(folder_made(&list, "b") && !folder_made(&list, "a"));
    assert_eq!(pick_draggable(&list, &f, &texts(&["c"])), Some(2));
    assert_eq!(pick_draggable(&list, &f, &Vec::new()), Some(0));
    let before = dock_app::model::clone_pinned(&list);
    dock_app::store::add_to_folder(&mut list, &f, "c").unwrap();
    assert!(dragged_in(&before, &list, &f));
    assert_eq!(children_of(&list, &f), 2);
    let before = dock_app::model::clone_pinned(&list);
    move_out_of_folder_in(&mut list, "c").unwrap();
    assert!(moved_out_behind(&before, &list, &f, "c"));
    let before = dock_app::model::clone_pinned(&list);
    dissolve_folder(&mut list, &f).unwrap();
    assert!(dissolved_ok(&before, &list, &f) && !dissolved_ok(&before, &before, &f));
    assert!(dots_ok(&vec![true], &vec![true], true) && !dots_ok(&vec![false], &vec![false], true));
    assert!(!dots_ok(&vec![], &vec![], false) && !dots_ok(&vec![true], &vec![false], false));
}

#[test]
fn menus_are_checked() {
    let items = vec![
        MenuItem::new(id::ACTIVATE, "打开"),
        MenuItem::divider(),
        MenuItem::new(id::RUNAS, "管理员").disabled(),
        MenuItem::new(id::EMPTY_BIN, "清空"),
    ];
    assert_eq!(menu_counts(&items), (3, 1));
    assert_eq!(item_index(&items, id::RUNAS), Some(1));
    assert_eq!(item_index(&items, "nope"), None);
    assert!(directory_menu_ok(&items));
    assert!(bin_item_ok(&items, 2) && !bin_item_ok(&items, 0));
    assert!(has_label(&items, "清空") && !has_label(&items, "清"));
    assert!(only_removal(&vec![MenuItem::new(id::REMOVE, "x")]) && !only_removal(&items));
    let folder = vec![MenuItem::new("d", "解散文件夹（3 项）"), MenuItem::new("r", "移出 Dock（含 3 项）")];
    assert!(folder_menu_ok(&folder) && !folder_menu_ok(&items));
    assert!(removal_counts(&folder, 3) && !removal_counts(&folder, 4));
}

#[test]
fn places_are_checked() {
    let dock = Rect { left: 0, top: 1000, right: 100, bottom: 1080 };
    let area = Rect { left: 0, top: 0, right: 1920, bottom: 1080 };
    let menu = Rect { left: 10, top: 900, right: 30, bottom: 992 };
    assert!(above_dock(&menu, &dock, &area) && close_above(&menu, &dock));
    assert!(!close_above(&Rect { bottom: 950, ..menu }, &dock));
    assert!(centred(&menu, 22, 2) && !centred(&menu, 25, 2));
    assert_eq!(middle(-3, 0), -1);
    assert_eq!(middle(i32::MAX, i32::MAX), i32::MAX);
    assert!(changed_by(61, 60) && !changed_by(63, 60));
    assert!(!changed_by(i64::MIN, i64::MAX) && changed_by(i64::MAX, i64::MAX - 2));
    assert_eq!(other_icon_size(56), 48);
    assert_eq!(other_icon_size(44), 56);
    assert!(icon_width_ok(" 56px ", 56) && !icon_width_ok("56", 56));
}

fn window(hwnd: u64, title: &str) -> WindowRef {
    WindowRef { hwnd, title: title.into(), minimized: false }
}

#[test]
fn windows_are_told_apart() {
    let before = vec![window(1, "a")];
    let after = vec![window(1, "a"), window(2, "回收站")];
    let new = fresh_windows(&before, &after);
    assert_eq!(new.len(), 1);
    assert_eq!(new[0].hwnd, 2);
    assert!(all_closed(&new, &before) && !all_closed(&new, &after));
    assert!(something_opened(1, &after, "zzz") && something_opened(2, &after, "回收"));
    assert!(!something_opened(2, &after, "zzz"));
    let e = AppEntry {
        id: r"c:\windows\explorer.exe".into(),
        display_name: "e".into(),
        kind: AppKind::Win32,
        target: r"C:\Windows\explorer.EXE".into(),
        is_elevated: false,
        has_foreground: false,
        running: true,
        windows: after,
        separator: false,
        is_folder: false,
        children: Vec::new(),
    };
    assert!(can_be_dropped(&e, true, &Vec::new()) && !can_be_dropped(&e, false, &Vec::new()));
    assert_eq!(explorer_windows(&vec![e]).len(), 2);
    assert_eq!(explorer_windows(&Vec::new()).len(), 0);
}

#[test]
fn nothing_may_lie_below_the_dock() {
    let r = Rect { left: 0, top: 0, right: 10, bottom: 10 };
    let w = |hwnd: u64, class: &str| Layered { hwnd, visible: true, iconic: false, rect: r, class: class.into() };
    let stack = vec![w(1, "A"), w(9, "Dock"), w(2, "B"), w(3, "Progman"), w(4, "C")];
    assert_eq!(windows_below(&stack, 9, &r), vec![2, 4]);
    assert_eq!(windows_below(&stack, 77, &r), Vec::<usize>::new());
    let far = Rect { left: 100, top: 100, right: 110, bottom: 110 };
    assert_eq!(windows_below(&stack, 9, &far), Vec::<usize>::new());
}

#[test]
fn drops_are_judged() {
    assert_eq!(describe_outcome(&Outcome::Added { name: "x".into(), running: true }), "意外地被接受: x running=true");
    assert_eq!(describe_outcome(&Outcome::Already { name: "x".into() }), "意外地判定为已在: x");
    assert_eq!(describe_outcome(&Outcome::Rejected { name: "x".into(), why: "w".into() }), "意外地被拒绝: w");
    assert!(other_file_rejected("a.txt", "只接受 .exe") && !other_file_rejected("a", "只接受"));
    assert!(link_target_ok(r"C:\A.EXE") && link_target_ok("shell:x") && !link_target_ok("a.txt"));
    assert!(hint_ok("松开即移除 Edge", "Edge") && !hint_ok("Edge", "Edge"));
}

#[test]
fn the_list_is_put_back() {
    let original = vec![app("a"), app("b"), app("c")];
    let mut list = dock_app::model::clone_pinned(&original);
    let _ = add_separator(&mut list, &Some("a".into()), 1);
    let _ = create_folder(&mut list, "b", &None, 2).unwrap();
    let _ = dock_app::store::remove(&mut list, "c");
    restore_separators(&mut list, &original);
    assert_eq!(ids_of(&list), ids_of(&original));
}

#[test]
fn scripts_ask_and_replies_answer() {
    assert!(eval_script("1 + 1").contains("const v = (1 + 1);"));
    assert!(item_center_expr(".menu-item", 3).contains("querySelectorAll('.menu-item')[3]"));
    let s = set_preference_script("iconSize", 56, &Some("icon-set".into()));
    assert!(s.contains("p.iconSize = 56;") && s.contains("msg: 'icon-set'"));
    assert!(!set_preference_script("iconSize", 56, &None).contains("selftest_report"));
    assert!(name_prompt_script("a\"b").contains("set.call(el, \"a\\\"b\");"));
    assert_eq!(
        icon_dot_expr(2),
        "JSON.stringify((function () {\n  const el = [...document.querySelectorAll('.dock-icon')][2];\n  return { folderDot: !!(el && el.querySelector('.dock-dot')) };\n})())"
    );
    assert!(separator_expr(1).contains("const s = all[1];"));
    assert!(separator_expr(1).contains("lineW: lb ? Math.round(lb.width * 100) / 100 : -1,"));
    assert!(MENU_EXPR.contains("labels: [") && MENU_EXPR.contains("w: Math.round("));
    assert!(ICON_WIDTH_EXPR.ends_with("|| '<无图标>'"));
    assert!(DRAG_PROBE_SCRIPT.contains("row.removeEventListener('pointermove', mv);"));
    assert!(DRAG_PROBE_SCRIPT.contains("log.push('cancel'); rep('cancel '"));
    assert_eq!(reply_text("v:42", "v:"), "42");
    assert_eq!(reply_text("42", "v:"), "42");
    assert_eq!(tagged_text("42", "v:"), None);
    assert_eq!(point_tokens("10:20"), Some(("10".into(), "20".into())));
    assert_eq!(point_tokens("<none>"), None);
    assert_eq!(
        center_tokens("centers 1:2  3:4"),
        Some(vec![("1".into(), "2".into()), ("3".into(), "4".into())])
    );
    assert_eq!(center_tokens("centers 1:2 x"), None);
    assert_eq!(center_tokens("other"), None);
}

#[test]
fn moves_above_the_window_are_seen() {
    assert_eq!(drag_reach("ok down 5,40 | mv 5,30 | mv 5,-12 | up 5,-12"), DragReach::Outside(-12));
    assert_eq!(drag_reach("ok mv 5,30 | mv 5,7"), DragReach::Inside(7));
    assert_eq!(drag_reach("ok mv 5"), DragReach::Unknown);
    assert_eq!(drag_reach(""), DragReach::Unknown);
    assert_eq!(drag_reach("mv 1,99999999999 | mv 1,3"), DragReach::Inside(3));
}

#[test]
fn the_settings_page_is_judged() {
    let good = "ok sections=4 textLen=9 | color [1,2,3]@4 -> [200,60,60]@200";
    assert!(settings_report_ok(good));
    assert!(!settings_report_ok(&good.replace("sections=4", "sections=1")));
    assert!(!settings_report_ok(&good.replace("sections=4", "sections=x")));
    assert!(!settings_report_ok(&good.replace("ok ", "err ")));
    assert!(!settings_report_ok(&good.replace("@200", "@100")));
}

#[test]
fn drawn_pages_are_judged() {
    let j = read_document(
        r#"{"n":2,"isSep":true,"w":9,"line":true,"dot":false,"img":false,"lineW":1,"lineH":30,"lineBg":"rgba(255, 255, 255, 0.5)"}"#,
    );
    assert!(separator_ok(&j, 2) && !separator_ok(&j, 3));
    assert!(separator_line_ok(&j));
    let line = |w: &str, h: &str, bg: &str| {
        separator_line_ok(&read_document(&format!(
            r#"{{"lineW":{w},"lineH":{h},"lineBg":"rgba({bg}, 0.5)"}}"#
        )))
    };
    assert!(line("1", "10", "255, 255, 255") && line("1.0", "10", "255, 255, 255"));
    assert!(line("1e0", "10", "255, 255, 255"));
    assert!(!line("2", "10", "255, 255, 255") && !line("1.5", "10", "255, 255, 255"));
    assert!(!line("\"1\"", "10", "255, 255, 255") && !line("-1", "10", "255, 255, 255"));
    assert!(!line("1", "9", "255, 255, 255") && !line("1", "10", "120, 120, 128"));
    assert!(no_folder_dot(&read_document(r#"{"folderDot":false}"#)));
    assert!(!no_folder_dot(&read_document(r#"{"folderDot":true}"#)));
    assert!(!no_folder_dot(&read_document("{}")));
    let m = read_document(
        r#"{"n":5,"div":2,"labels":["打开",7,"移出"],"scroll":100,"client":100,"w":180}"#,
    );
    assert_eq!(menu_labels(&m), texts(&["打开", "", "移出"]));
    assert_eq!(menu_labels(&read_document(r#"{"labels":1}"#)), Vec::<String>::new());
    assert!(menu_counts_ok(&m, 5, 2) && !menu_counts_ok(&m, 5, 1));
    assert!(menu_fits(&m));
    let none = read_document("nonsense");
    assert!(!separator_ok(&none, 0) && !separator_line_ok(&none) && !menu_fits(&none));
    assert_eq!(read_flags(&read_document("[true,false]")), vec![true, false]);
    assert_eq!(read_flags(&read_document("[true,1]")), Vec::<bool>::new());
}
