use dock_app::autohide::{
    frame, guard, hidden_top, how_found, next_tick, report_counters, restored, slid, sunk, target_of,
    Counters, GuardSigns, Pauses, Placement, RevealParams, RevealState, Trigger,
};
use dock_app::geometry::{Point, Rect};
use dock_app::menu::{MenuItem, Target};
use dock_app::model::{AppEntry, AppKind};
use dock_app::panel_window::{
    brighten, folder_cell, folder_items, folder_size, label_size, menu_height, panel_alpha, panel_tint,
    place, slot_for_label, watch, Buttons, FolderStep, KeyState, LabelStep, Layer, MenuStep, PanelContent,
    Panels, Scene, Slot, WatchStep, LABEL_BRIGHTEN,
};
use dock_app::prompt_window::{cancel, open_question, payload, place_prompt, ready, submit, Prompt};

fn is_dark(rgb: [u8; 3]) -> bool {
    let lin = |c: u8| {
        let v = c as f64 / 255.0;
        if v <= 0.03928 {
            v / 12.92
        } else {
            ((v + 0.055) / 1.055).powf(2.4)
        }
    };
    0.2126 * lin(rgb[0]) + 0.7152 * lin(rgb[1]) + 0.0722 * lin(rgb[2]) < 0.18
}

#[test]
fn label_tint_is_bright_enough_to_flip_text_color() {
    let dock_tint = [24u8, 24, 28];
    assert!(is_dark(dock_tint), "前提：深色 Dock 着色被判为暗");
    let label = brighten(dock_tint, LABEL_BRIGHTEN);
    assert!(!is_dark(label), "标签底色 {label:?} 还在深色区 → 页面会用白字，对比不足");
    assert!(
        label[0] > dock_tint[0] + 100,
        "提亮幅度太小：{dock_tint:?} → {label:?}（用户要的是「明显亮一点」）"
    );
    assert_eq!(brighten([255, 255, 255], 50), [255, 255, 255]);
    assert_eq!(brighten([0, 0, 0], 0), [0, 0, 0]);
}

fn entry(id: &str) -> AppEntry {
    AppEntry {
        id: id.into(),
        display_name: id.into(),
        kind: AppKind::Win32,
        target: id.into(),
        is_elevated: false,
        has_foreground: false,
        running: true,
        windows: Vec::new(),
        separator: false,
        is_folder: false,
        children: Vec::new(),
    }
}

fn rect(left: i32, top: i32, right: i32, bottom: i32) -> Rect {
    Rect { left, top, right, bottom }
}

fn label(text: &str) -> PanelContent {
    PanelContent::Label { text: text.into() }
}

#[test]
fn sizes_follow_the_contents() {
    let items = vec![MenuItem::new("a", "x"), MenuItem::divider(), MenuItem::new("b", "y")];
    assert_eq!(menu_height(&items), 26 + 9 + 26 + 10);
    assert!(folder_cell(44) >= 44);
    let area = rect(0, 0, 1920, 1040);
    let (w1, h1) = folder_size(44, 1, &area, 96, 72);
    let (w2, h2) = folder_size(44, 9, &area, 96, 72);
    assert!(w1 <= w2 && h1 < h2);
    let (short, _) = label_size("ab");
    let (long, _) = label_size("一个长名字");
    assert!(short < long);
    assert_eq!(folder_items(&vec![entry("a")])[0].label, "a");
}

#[test]
fn panels_stay_in_the_work_area() {
    let area = rect(0, 0, 1000, 700);
    let base = rect(400, 640, 600, 700);
    let r = place(&base, 500, &area, 8, 200, 100);
    assert_eq!((r.left, r.right, r.bottom), (400, 600, 632));
    let r = place(&base, 10, &area, 8, 200, 100);
    assert!(r.left >= area.left);
    let r = place(&base, 990, &area, 8, 200, 100);
    assert!(r.right <= area.right);
    let r = place(&base, i32::MAX, &area, 8, 200, 100);
    assert_eq!(r, rect(796, 532, 996, 632));
    let r = place(&base, i32::MIN, &area, 8, 200, 100);
    assert_eq!(r, rect(4, 532, 204, 632));
}

#[test]
fn tints_and_alphas_are_bounded() {
    assert_eq!(panel_alpha(0), 150);
    assert_eq!(panel_alpha(255), 200);
    assert_eq!(panel_alpha(170), 170);
    assert_eq!(panel_tint(&PanelContent::Menu { items: Vec::new() }, [1, 2, 3]), [1, 2, 3]);
    assert_ne!(panel_tint(&label("x"), [1, 2, 3]), [1, 2, 3]);
}

#[test]
fn a_slot_shows_what_is_ready() {
    let mut s = Slot::new();
    assert!(s.check_present("menu", false, 1).is_err());
    s.hwnd = 5;
    assert!(s.check_present("menu", true, 1).is_ok());
    let seq = s.present("a", label("x"), rect(0, 0, 1, 1));
    assert!(s.ready(seq + 1).is_none());
    let shown = s.ready(seq).unwrap();
    assert!(shown.newly && s.visible);
    assert!(s.has_label());
    assert_eq!(s.current_target_id().as_deref(), Some("a"));
    assert!(s.ready(seq).is_none());
    assert!(s.dismiss());
    assert!(!s.visible && !s.dismiss());
    let seq = s.present("a", label("x"), rect(0, 0, 1, 1));
    s.abandon();
    assert!(s.ready(seq).is_none());
}

#[test]
fn layers_close_from_the_top() {
    let mut p = Panels::new();
    p.folder.hwnd = 1;
    p.menu.hwnd = 2;
    assert_eq!(p.top_slot(), None);
    let (step, _) = p.show_folder("f", &vec![entry("a")]);
    assert!(matches!(step, Ok(FolderStep::Present(_))));
    let seq = p.folder.present("f", label("f"), rect(0, 0, 1, 1));
    assert!(p.ready(Layer::Folder, seq).is_some());
    let t = Target { app_id: "a".into(), target: "a".into(), ..Target::default() };
    let (step, hidden) = p.show_menu(&t, true);
    assert!(matches!(step, MenuStep::Present(_)) && !hidden.folder);
    let seq = p.menu.present("a", PanelContent::Menu { items: Vec::new() }, rect(0, 0, 1, 1));
    assert!(p.ready(Layer::Menu, seq).is_some());
    assert_eq!(p.top_slot(), Some(Layer::Menu));
    assert!(p.dismiss(Layer::Menu));
    assert_eq!(p.top_slot(), Some(Layer::Folder));
    let h = p.hide_all();
    assert!(h.folder && !h.menu);
    assert_eq!(p.top_slot(), None);
    assert_eq!(slot_for_label("menu"), Some(Layer::Menu));
    assert_eq!(slot_for_label("panel"), Some(Layer::Folder));
    assert_eq!(slot_for_label("x"), None);
    assert!(matches!(p.show_label(7, "a", false), LabelStep::Present(7)));
}

#[test]
fn open_panels_say_what_they_show() {
    let mut p = Panels::new();
    p.folder.hwnd = 1;
    p.menu.hwnd = 2;
    let step = p.show_folder_keep_menu("f", &vec![entry("a")]);
    let Ok(FolderStep::Present(cells)) = step else {
        panic!("the folder is not shown");
    };
    let shown = PanelContent::Folder { title: "f".into(), cells };
    let seq = p.folder.present("f", shown, rect(0, 0, 1, 1));
    assert!(p.ready(Layer::Folder, seq).is_some());
    assert_eq!(p.folder.current_target_id().as_deref(), Some("f"));
    assert_eq!(p.folder.current_folder_items().map(|c| c.len()), Some(1));
    assert!(p.folder.current_menu_items().is_none());
    let Ok(FolderStep::Present(cells)) = p.refresh_folder(&vec![entry("b"), entry("c")]) else {
        panic!("the folder is not refreshed");
    };
    assert!(p.folder.visible);
    let shown = PanelContent::Folder { title: "f".into(), cells };
    let seq = p.folder.present("f", shown, rect(0, 0, 2, 2));
    assert!(p.folder.visible);
    let again = p.ready(Layer::Folder, seq).unwrap();
    assert!(!again.newly && again.rect == rect(0, 0, 2, 2));
    assert_eq!(p.folder.current_target_id().as_deref(), Some("f"));
    assert_eq!(p.folder.current_folder_items().map(|c| c.len()), Some(2));
    assert!(matches!(p.refresh_folder(&Vec::new()), Err(why) if why == "这个文件夹是空的"));
    assert!(p.folder.visible);
    assert!(matches!(p.show_folder_keep_menu("f", &vec![entry("a")]), Ok(FolderStep::Closed)));
    let empty = p.show_folder_keep_menu("f", &Vec::new());
    assert!(matches!(empty, Err(why) if why == "这个文件夹是空的"));
    let seq = p.menu.present("a", label("a"), rect(0, 0, 1, 1));
    assert!(!p.label_visible());
    assert!(p.ready(Layer::Menu, seq).is_some());
    assert!(p.label_visible());
    assert!(matches!(p.show_label(7, "a", false), LabelStep::AlreadyShown));
    assert!(p.hide_label());
    assert!(!p.label_visible());
    let items = vec![MenuItem::new("remove", "移出 Dock")];
    let seq = p.menu.present("a", PanelContent::Menu { items }, rect(0, 0, 1, 1));
    assert!(p.ready(Layer::Menu, seq).is_some());
    assert!(matches!(p.show_label(7, "b", false), LabelStep::Refused));
    assert!(!p.hide_label());
    assert_eq!(p.menu.current_menu_items().map(|i| i[0].id.clone()).as_deref(), Some("remove"));
}

#[test]
fn keys_and_clicks_close_one_layer() {
    let mut p = Panels::new();
    p.menu.hwnd = 2;
    let idle = KeyState { down: false, pressed_since: false };
    let hit = KeyState::from_bits(0x8001);
    assert!(hit.down && hit.fresh(false));
    let quiet = Buttons { left: idle, right: idle, escape: idle };
    let scene = Scene {
        folder: rect(0, 0, 10, 10),
        menu: rect(20, 0, 30, 10),
        dock: Some(rect(0, 50, 100, 60)),
        cursor: Point { x: 500, y: 500 },
    };
    assert!(matches!(watch(&p, &quiet, &quiet, &scene), WatchStep::Retire));
    let seq = p.menu.present("a", label("x"), rect(20, 0, 30, 10));
    let _ = p.ready(Layer::Menu, seq);
    assert!(matches!(watch(&p, &quiet, &quiet, &scene), WatchStep::Nothing));
    let esc = Buttons { left: idle, right: idle, escape: hit };
    assert!(matches!(watch(&p, &esc, &quiet, &scene), WatchStep::Close(Layer::Menu)));
    let click = Buttons { left: hit, right: idle, escape: idle };
    assert!(matches!(watch(&p, &click, &quiet, &scene), WatchStep::Close(Layer::Menu)));
}

#[test]
fn a_question_is_answered_once() {
    let mut p = Prompt::new();
    assert!(payload(&p).is_none());
    let q = open_question(&mut p, "标题", "说明", "默认", 40).unwrap();
    assert_eq!(payload(&p).unwrap().value, "默认");
    assert!(ready(&p, q.seq) && !ready(&p, q.seq + 1));
    assert_eq!(submit(&mut p, "名字".into()), Some(Some("名字".into())));
    assert_eq!(submit(&mut p, "again".into()), None);
    assert_eq!(cancel(&mut p), None);
    let _ = open_question(&mut p, "t", "l", "d", 4);
    assert_eq!(cancel(&mut p), Some(None));
    let (x, y) = place_prompt(&rect(400, 640, 600, 700), &rect(0, 0, 1000, 700), 8, 300, 100);
    assert_eq!((x, y), (350, 532));
}

fn target() -> Placement {
    Placement { x: 100, y: 900, w: 300, h: 72 }
}

#[test]
fn the_dock_comes_and_goes() {
    let p = RevealParams::default();
    let mut s = RevealState::new(1080, 0);
    let below = Point { x: 200, y: 1079 };
    let away = Point { x: 0, y: 0 };
    let f = frame(&mut s, target(), 1080, true, away, 0, &p);
    assert!(f.put.is_some() || f.slide.is_some() || s.visible);
    let mut s = RevealState::new(1080, 0);
    let f = frame(&mut s, target(), 1080, false, below, 10_000, &p);
    let slide = f.slide.unwrap();
    assert!(slide.up);
    slid(&mut s, &slide, 10_500, &p);
    assert!(s.visible);
    let f = frame(&mut s, target(), 1080, false, away, 10_600, &p);
    assert!(f.slide.is_none());
    let f = frame(&mut s, target(), 1080, false, away, 20_000, &p);
    assert!(!f.slide.unwrap().up);
}

#[test]
fn pauses_nest() {
    let mut p = Pauses::new();
    p.pause();
    p.pause();
    p.unpause();
    assert!(p.is_paused());
    p.unpause();
    p.unpause();
    assert!(!p.is_paused());
    let t = target_of(&rect(1, 2, 11, 22));
    assert_eq!((t.x, t.y, t.w, t.h), (1, 2, 10, 20));
    assert!(hidden_top(&rect(0, 0, 100, 1040)) >= 1040);
}

#[test]
fn the_guard_sees_the_desktop_come_forward() {
    let mut s = RevealState::new(1080, 0);
    let quiet = GuardSigns {
        covered: false,
        foreground: 5,
        foreground_is_desktop: false,
        suspected: false,
        event: 0,
        event_count: 0,
    };
    assert!(!guard(&mut s, &quiet, false));
    let covered = GuardSigns { covered: true, ..quiet };
    assert!(guard(&mut s, &covered, false));
    assert_eq!(s.trigger, Trigger::Covered);
    assert!(sunk(&mut s, 10, false));
    assert!(!sunk(&mut s, 20, false));
    assert!(sunk(&mut s, 20, true));
    assert!(!how_found(Trigger::Foreground, 3).is_empty());
    let due = next_tick(&mut s);
    assert!(!due.heartbeat);
    let r = report_counters(&mut s, Counters { zorder: 1, style: 0, events: 0, sinks: 0 });
    assert!(r.any && !r.events);
    restored(&mut s, 1080);
    assert!(!s.visible);
}
