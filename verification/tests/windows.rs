use dock_app::geometry::{Point, Rect};
use dock_app::glass::gradient_color;
use dock_app::icons::{alpha_bbox, alpha_stats, icon_bytes, icon_side, normalize_alpha, IconData};
use dock_app::migration::{fix_targets, rewrite_old_paths, Rewrite};
use dock_app::selftest_replies::read_document;
use dock_app::win_layer::{
    apply_dock_ex_style, describe_ex_style, describe_style, dock_center, dock_rect_for_size,
    dpi_or_default, has_room, is_desktop_class, is_desktop_event, judge, point_in, taskbar_info,
    visible_desktops_above, Message, Stacked, TaskbarInfo, EVENT_SYSTEM_MINIMIZESTART, MA_NOACTIVATE,
    SC_MINIMIZE, SWP_NOZORDER, WM_MOUSEACTIVATE, WM_STYLECHANGING, WM_SYSCOMMAND,
    WM_WINDOWPOSCHANGING, WS_EX_APPWINDOW, WS_EX_LAYERED, WS_EX_NOACTIVATE, WS_EX_TOOLWINDOW,
    WS_EX_TOPMOST,
};

fn rect(left: i32, top: i32, right: i32, bottom: i32) -> Rect {
    Rect { left, top, right, bottom }
}

fn message(msg: u32) -> Message {
    Message { msg, wparam: 0, pos_flags: None, new_style: None }
}

#[test]
fn the_dock_is_never_raised_or_activated() {
    let v = judge(&message(WM_MOUSEACTIVATE), true, true);
    assert_eq!(v.answer, Some(MA_NOACTIVATE));
    assert_eq!(judge(&message(WM_MOUSEACTIVATE), true, false).answer, None);
    let mut m = message(WM_WINDOWPOSCHANGING);
    m.pos_flags = Some(0);
    assert_eq!(judge(&m, true, true).pos_flags, Some(SWP_NOZORDER));
    let mut m = message(WM_STYLECHANGING);
    m.wparam = 0xffff_ffec;
    m.new_style = Some(WS_EX_TOPMOST | WS_EX_TOOLWINDOW);
    let v = judge(&m, true, true);
    assert_eq!(v.new_style, Some(WS_EX_TOOLWINDOW));
    assert!(v.topmost_refused);
    let mut m = message(WM_SYSCOMMAND);
    m.wparam = SC_MINIMIZE;
    assert!(judge(&m, true, true).minimize_refused);
}

#[test]
fn the_style_of_the_dock() {
    let s = apply_dock_ex_style(WS_EX_APPWINDOW | WS_EX_LAYERED);
    assert_eq!(s & WS_EX_APPWINDOW, 0);
    assert_eq!(s & WS_EX_LAYERED, 0);
    assert_ne!(s & WS_EX_NOACTIVATE, 0);
    assert_ne!(s & WS_EX_TOOLWINDOW, 0);
    assert!(describe_ex_style(WS_EX_TOPMOST).contains("TOPMOST"));
    assert!(describe_style(0x8000_0000).contains("POPUP"));
}

#[test]
fn desktops_above_the_dock_are_found() {
    let w = |hwnd: u64, visible: bool, class: &str| Stacked { hwnd, visible, class: class.into() };
    let stack = vec![w(1, true, "Progman"), w(2, false, "WorkerW"), w(3, true, "X"), w(9, true, "Dock"), w(4, true, "WorkerW")];
    assert_eq!(visible_desktops_above(&stack, 9), vec![1]);
    assert!(is_desktop_class(1, "Progman") && !is_desktop_class(0, "Progman"));
    assert!(is_desktop_event(EVENT_SYSTEM_MINIMIZESTART, false) && !is_desktop_event(0x7777, true));
}

#[test]
fn the_dock_stands_at_the_bottom() {
    let area = rect(0, 0, 1920, 1040);
    let r = dock_rect_for_size(&area, 520, 72, false, None, 1080, 0);
    assert_eq!(r.right - r.left, 520);
    assert_eq!(r.bottom - r.top, 72);
    assert_eq!(r.left, 700);
    let up = dock_rect_for_size(&area, 520, 72, false, None, 1080, 10);
    assert_eq!(r.top - up.top, 10);
    let t = TaskbarInfo { height: 40, auto_hidden: true, at_bottom: true };
    let kept = dock_rect_for_size(&area, 520, 72, true, Some(t), 1080, 0);
    assert!(kept.bottom <= 1080);
    let kept = dock_rect_for_size(&area, 520, 72, true, Some(t), 1040, 0);
    assert_eq!(kept, rect(700, 928, 1220, 1000));
    assert!(has_room(&area, 520, 1040, false, None, 1080, 0));
    assert!(!has_room(&area, 520, 1041, false, None, 1080, 0));
    assert!(has_room(&area, 520, 1041, true, Some(t), 1040, 0));
    assert!(taskbar_info(false, 0, None, &area).is_none());
    assert_eq!(dpi_or_default(0), 96);
    assert_eq!(dpi_or_default(144), 144);
    assert_eq!(dock_center(&rect(0, 0, 10, 20)), Some(Point { x: 5, y: 10 }));
    assert!(point_in(&rect(0, 0, 10, 10), Point { x: 9, y: 9 }));
    assert!(!point_in(&rect(0, 0, 10, 10), Point { x: 10, y: 9 }));
}

#[test]
fn the_dock_goes_no_higher_than_the_work_area() {
    let area = rect(0, 20, 1920, 1040);
    for offset in [968, 5_000, 0x0800_0001, 2_000_000_000, i32::MAX] {
        assert!(has_room(&area, 520, 72, false, None, 1080, offset));
        let r = dock_rect_for_size(&area, 520, 72, false, None, 1080, offset);
        assert_eq!(r, rect(700, 20, 1220, 92));
    }
    let r = dock_rect_for_size(&area, 520, 72, false, None, 1080, -50);
    assert_eq!(r, rect(700, 968, 1220, 1040));
    let r = dock_rect_for_size(&area, 3000, 72, false, None, 1080, 0);
    assert_eq!((r.left, r.right), (0, 3000));
    let far = rect(1_900_000_000, 1_900_000_000, 1_900_001_000, 1_900_001_000);
    let r = dock_rect_for_size(&far, 500, 72, false, None, 0, 28);
    assert_eq!(r, rect(1_900_000_250, 1_900_000_900, 1_900_000_750, 1_900_000_972));
    assert!(!has_room(&far, i32::MAX, 72, false, None, 0, 0));
    let wide = rect(i32::MIN, i32::MIN, i32::MAX, i32::MAX);
    assert_eq!(dock_center(&wide), Some(Point { x: 0, y: 0 }));
    assert_eq!(dock_center(&far), Some(Point { x: 1_900_000_500, y: 1_900_000_500 }));
}

#[test]
fn icons_are_straightened_and_framed() {
    let mut b = vec![50u8, 0, 0, 100, 0, 0, 0, 0];
    normalize_alpha(&mut b);
    assert_eq!(b, vec![128, 0, 0, 100, 0, 0, 0, 0]);
    let mut straight = vec![200u8, 0, 0, 100];
    normalize_alpha(&mut straight);
    assert_eq!(straight, vec![200, 0, 0, 100]);
    let d = IconData { width: 2, height: 1, bgra: b };
    assert_eq!(alpha_bbox(&d, 8), Some((0, 0, 0, 0)));
    let s = alpha_stats(&d);
    assert_eq!((s.min, s.max, s.transparent, s.opaque, s.total), (0, 100, 1, 0, 2));
    let f = icon_bytes(&d);
    assert_eq!(&f[..8], &[2, 0, 0, 0, 1, 0, 0, 0]);
    assert_eq!(f.len(), 16);
    assert!(icon_side(0) > 0);
    assert_eq!(gradient_color(1, 2, 3, 4), 0x04030201);
}

#[test]
fn old_paths_are_rewritten() {
    let old = r"C:\Users\x\AppData\Local\dev.local.dock\临时文件";
    let new = r"C:\Users\x\AppData\Local\io.github.evanlofton.mydock\临时文件";
    let config = format!(
        r#"{{"pinned":[{{"id":{},"target":{},"children":[]}}],"iconSize":44}}"#,
        serde_json::to_string(&old.to_lowercase()).unwrap(),
        serde_json::to_string(old).unwrap()
    );
    match rewrite_old_paths(&config, old, new) {
        Rewrite::Changed(text, n) => {
            assert_eq!(n, 1);
            let v: serde_json::Value = serde_json::from_str(&text).unwrap();
            assert_eq!(v["pinned"][0]["target"], new);
            assert_eq!(v["iconSize"], 44);
            assert!(matches!(rewrite_old_paths(&text, old, new), Rewrite::Unchanged));
        }
        _ => panic!("expected a change"),
    }
    assert!(matches!(rewrite_old_paths("{", old, new), Rewrite::Unchanged));
    let (_, n) = fix_targets(read_document(&config), old, new);
    assert_eq!(n, 1);
    let exact = config.replacen('{', "{\"scale\": 0.99622830388368595, \"far\": 1e2, ", 1);
    let Rewrite::Changed(text, _) = rewrite_old_paths(&exact, old, new) else {
        panic!("expected a change");
    };
    let before: serde_json::Value = serde_json::from_str(&exact).unwrap();
    assert!(text.contains(&format!("\"scale\": {}", before["scale"])));
    assert!(text.contains("\"scale\": 0.9962283038836859\n"));
    assert!(text.contains("\"far\": 100.0,"));
}
