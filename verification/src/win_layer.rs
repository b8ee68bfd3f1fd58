//! The window layer of the dock: style bits, stacking, and where the dock stands.

use vstd::prelude::*;
use vstd::string::*;
use crate::geometry::{
    between, fits, half, halved, is_fitting, max_i64, max_of, min_i64, Point, Rect,
};
use crate::text;

verus! {

/// Extended style: a tool window, kept out of the task bar.
pub const WS_EX_TOOLWINDOW: u32 = 0x0000_0080;

/// Extended style: a window that belongs into the task bar.
pub const WS_EX_APPWINDOW: u32 = 0x0004_0000;

/// Whether a point lies inside a rectangle.
pub fn point_in(r: &Rect, p: Point) -> (b: bool)
    ensures
        b == r.holds(p),
{
    p.x >= r.left && p.x < r.right && p.y >= r.top && p.y < r.bottom
}

/// Extended styles.
pub const WS_EX_NOACTIVATE: u32 = 0x0800_0000;

pub const WS_EX_LAYERED: u32 = 0x0008_0000;

pub const WS_EX_NOREDIRECTIONBITMAP: u32 = 0x0020_0000;

pub const WS_EX_TOPMOST: u32 = 0x0000_0008;

pub const WS_EX_TRANSPARENT: u32 = 0x0000_0020;

pub const WS_EX_ACCEPTFILES: u32 = 0x0000_0010;

pub const WS_EX_WINDOWEDGE: u32 = 0x0000_0100;

/// Styles.
pub const WS_POPUP: u32 = 0x8000_0000;

pub const WS_CAPTION: u32 = 0x00c0_0000;

pub const WS_THICKFRAME: u32 = 0x0004_0000;

pub const WS_SYSMENU: u32 = 0x0008_0000;

pub const WS_MINIMIZEBOX: u32 = 0x0002_0000;

pub const WS_VISIBLE: u32 = 0x1000_0000;

/// Window messages.
pub const WM_MOUSEACTIVATE: u32 = 0x0021;

pub const WM_WINDOWPOSCHANGING: u32 = 0x0046;

pub const WM_STYLECHANGING: u32 = 0x007c;

pub const WM_SYSCOMMAND: u32 = 0x0112;

pub const WM_LBUTTONDOWN: u32 = 0x0201;

/// The answer that keeps a window from being activated by a click.
pub const MA_NOACTIVATE: i64 = 3;

/// Leaves the stacking order alone.
pub const SWP_NOZORDER: u32 = 0x0004;

/// The low half of the index of the extended style.
pub const GWL_EXSTYLE_LOW: u32 = 0xffff_ffec;

/// The system command that minimises a window.
pub const SC_MINIMIZE: u32 = 0xf020;

/// Window events.
pub const EVENT_SYSTEM_FOREGROUND: u32 = 0x0003;

pub const EVENT_SYSTEM_MINIMIZESTART: u32 = 0x0016;

pub const EVENT_SYSTEM_MINIMIZEEND: u32 = 0x0017;

/// The task bar hides itself.
pub const ABS_AUTOHIDE: u32 = 1;

/// The task bar is at the lower edge.
pub const ABE_BOTTOM: u32 = 3;

// ---------------------------------------------------------------- messages

/// A message to a window of the dock, with what it carries.
#[derive(Debug, Clone, Copy, PartialEq, Eq, Structural)]
pub struct Message {
    pub msg: u32,
    /// The low half of its first parameter.
    pub wparam: u32,
    /// The flags of the change of position that it announces.
    pub pos_flags: Option<u32>,
    /// The style that it announces.
    pub new_style: Option<u32>,
}

/// What becomes of a message.
#[derive(Debug, Clone, Copy, PartialEq, Eq, Structural)]
pub struct Verdict {
    /// It is answered so, and not passed on.
    pub answer: Option<i64>,
    /// The flags that it carries on.
    pub pos_flags: Option<u32>,
    /// The style that it carries on.
    pub new_style: Option<u32>,
    /// It counts as a click.
    pub click: bool,
    /// It counts as a question about activation.
    pub activation: bool,
    /// A change of the stacking order was refused.
    pub zorder_refused: bool,
    /// A topmost style was refused.
    pub topmost_refused: bool,
    /// Minimising was refused.
    pub minimize_refused: bool,
}

/// What becomes of a message. `top` says that the window is the dock itself and
/// none of its children; `block` says that clicks must not activate it.
pub open spec fn judged(m: Message, top: bool, block: bool) -> Verdict {
    let pass = Verdict {
        answer: None,
        pos_flags: m.pos_flags,
        new_style: m.new_style,
        click: false,
        activation: false,
        zorder_refused: false,
        topmost_refused: false,
        minimize_refused: false,
    };
    if m.msg == WM_LBUTTONDOWN {
        Verdict { click: true, ..pass }
    } else if m.msg == WM_MOUSEACTIVATE {
        Verdict {
            activation: true,
            answer: if block {
                Some(MA_NOACTIVATE)
            } else {
                None
            },
            ..pass
        }
    } else if m.msg == WM_WINDOWPOSCHANGING && top {
        match m.pos_flags {
            Some(f) => if f & SWP_NOZORDER == 0 {
                Verdict { pos_flags: Some(f | SWP_NOZORDER), zorder_refused: true, ..pass }
            } else {
                pass
            },
            None => pass,
        }
    } else if m.msg == WM_STYLECHANGING && top && m.wparam == GWL_EXSTYLE_LOW {
        match m.new_style {
            Some(s) => if s & WS_EX_TOPMOST != 0 {
                Verdict { new_style: Some(s & !WS_EX_TOPMOST), topmost_refused: true, ..pass }
            } else {
                pass
            },
            None => pass,
        }
    } else if m.msg == WM_SYSCOMMAND && top && m.wparam & 0xfff0 == SC_MINIMIZE {
        Verdict { answer: Some(0), minimize_refused: true, ..pass }
    } else {
        pass
    }
}

/// What becomes of a message to a window of the dock: clicks do not activate it,
/// and the dock itself is neither raised nor minimised.
pub fn judge(m: &Message, top: bool, block: bool) -> (r: Verdict)
    ensures
        r == judged(*m, top, block),
{
    let mut r = Verdict {
        answer: None,
        pos_flags: m.pos_flags,
        new_style: m.new_style,
        click: false,
        activation: false,
        zorder_refused: false,
        topmost_refused: false,
        minimize_refused: false,
    };
    if m.msg == WM_LBUTTONDOWN {
        r.click = true;
    } else if m.msg == WM_MOUSEACTIVATE {
        r.activation = true;
        if block {
            r.answer = Some(MA_NOACTIVATE);
        }
    } else if m.msg == WM_WINDOWPOSCHANGING && top {
        if let Some(f) = m.pos_flags {
            if f & SWP_NOZORDER == 0 {
                r.pos_flags = Some(f | SWP_NOZORDER);
                r.zorder_refused = true;
            }
        }
    } else if m.msg == WM_STYLECHANGING && top && m.wparam == GWL_EXSTYLE_LOW {
        if let Some(s) = m.new_style {
            if s & WS_EX_TOPMOST != 0 {
                r.new_style = Some(s & !WS_EX_TOPMOST);
                r.topmost_refused = true;
            }
        }
    } else if m.msg == WM_SYSCOMMAND && top && m.wparam & 0xfff0 == SC_MINIMIZE {
        r.answer = Some(0);
        r.minimize_refused = true;
    }
    r
}

/// The dock is never raised: a change of its position never changes the stacking
/// order, a change of its extended style never makes it topmost, and it is never
/// minimised.
pub proof fn law_never_raised(m: Message, block: bool)
    ensures
        m.msg == WM_WINDOWPOSCHANGING && m.pos_flags is Some ==> judged(
            m,
            true,
            block,
        ).pos_flags->0 & SWP_NOZORDER != 0,
        m.msg == WM_STYLECHANGING && m.wparam == GWL_EXSTYLE_LOW && m.new_style is Some ==> judged(
            m,
            true,
            block,
        ).new_style->0 & WS_EX_TOPMOST == 0,
        m.msg == WM_SYSCOMMAND && m.wparam & 0xfff0 == SC_MINIMIZE ==> judged(
            m,
            true,
            block,
        ).answer == Some(0i64),
{
    if let Some(f) = m.pos_flags {
        assert((f | 0x0004u32) & 0x0004u32 != 0) by (bit_vector);
    }
    if let Some(s) = m.new_style {
        assert((s & !0x0000_0008u32) & 0x0000_0008u32 == 0) by (bit_vector);
    }
}

/// The children of the dock keep their stacking order and styles, and no click
/// on any of them activates the dock.
pub proof fn law_children_left_alone(m: Message, top: bool)
    ensures
        judged(m, false, true).pos_flags == m.pos_flags,
        judged(m, false, true).new_style == m.new_style,
        m.msg == WM_MOUSEACTIVATE ==> judged(m, top, true).answer == Some(MA_NOACTIVATE),
{
}

// ---------------------------------------------------------------- styles

/// The extended style of the dock: never activated, out of the task bar, and
/// not layered.
pub open spec fn dock_style(before: u32) -> u32 {
    (before | (WS_EX_NOACTIVATE | WS_EX_TOOLWINDOW)) & !WS_EX_APPWINDOW & !WS_EX_LAYERED
}

/// The extended style of the dock.
pub fn apply_dock_ex_style(before: u32) -> (r: u32)
    ensures
        r == dock_style(before),
{
    (before | (WS_EX_NOACTIVATE | WS_EX_TOOLWINDOW)) & !WS_EX_APPWINDOW & !WS_EX_LAYERED
}

/// The style of the dock has and lacks the bits that it should, keeps every
/// other, and applying it again changes nothing.
pub proof fn law_dock_style(before: u32)
    ensures
        dock_style(before) & WS_EX_NOACTIVATE != 0,
        dock_style(before) & WS_EX_TOOLWINDOW != 0,
        dock_style(before) & WS_EX_APPWINDOW == 0,
        dock_style(before) & WS_EX_LAYERED == 0,
        dock_style(before) & !0x080c_0080u32 == before & !0x080c_0080u32,
        dock_style(dock_style(before)) == dock_style(before),
{
    let a: u32 = (before | (0x0800_0000u32 | 0x0000_0080u32)) & !0x0004_0000u32 & !0x0008_0000u32;
    assert(a == dock_style(before));
    assert(a & 0x0800_0000u32 != 0 && a & 0x0000_0080u32 != 0 && a & 0x0004_0000u32 == 0 && a
        & 0x0008_0000u32 == 0 && a & !0x080c_0080u32 == before & !0x080c_0080u32 && (a | (
    0x0800_0000u32 | 0x0000_0080u32)) & !0x0004_0000u32 & !0x0008_0000u32 == a) by (bit_vector)
        requires
            a == (before | (0x0800_0000u32 | 0x0000_0080u32)) & !0x0004_0000u32 & !0x0008_0000u32,
    ;
}

/// The names of the bits that are set, with bars between them.
pub open spec fn bit_names(v: u32, known: Seq<(u32, Seq<char>)>) -> Seq<char>
    decreases known.len(),
{
    if known.len() == 0 {
        Seq::empty()
    } else {
        let before = bit_names(v, known.drop_last());
        let (bit, name) = known.last();
        if v & bit == 0 {
            before
        } else if before.len() == 0 {
            name
        } else {
            before + "|"@ + name
        }
    }
}

/// The names of the bits that are set, or a mark where none is.
pub open spec fn bits_described(v: u32, known: Seq<(u32, Seq<char>)>) -> Seq<char> {
    if bit_names(v, known).len() == 0 {
        "<none>"@
    } else {
        bit_names(v, known)
    }
}

/// The names of the extended styles.
pub open spec fn ex_style_names() -> Seq<(u32, Seq<char>)> {
    seq![
        (WS_EX_NOACTIVATE, "NOACTIVATE"@),
        (WS_EX_LAYERED, "LAYERED"@),
        (WS_EX_NOREDIRECTIONBITMAP, "NOREDIRECTIONBITMAP"@),
        (WS_EX_TOOLWINDOW, "TOOLWINDOW"@),
        (WS_EX_TOPMOST, "TOPMOST"@),
        (WS_EX_APPWINDOW, "APPWINDOW"@),
        (WS_EX_TRANSPARENT, "TRANSPARENT"@),
        (WS_EX_ACCEPTFILES, "ACCEPTFILES"@),
        (WS_EX_WINDOWEDGE, "WINDOWEDGE"@),
    ]
}

/// The names of the styles.
pub open spec fn style_names() -> Seq<(u32, Seq<char>)> {
    seq![
        (WS_POPUP, "POPUP"@),
        (WS_CAPTION, "CAPTION"@),
        (WS_THICKFRAME, "THICKFRAME"@),
        (WS_SYSMENU, "SYSMENU"@),
        (WS_MINIMIZEBOX, "MINBOX"@),
        (WS_VISIBLE, "VISIBLE"@),
    ]
}

fn push_name(out: &mut String, v: u32, bit: u32, name: &str, Ghost(known): Ghost<
    Seq<(u32, Seq<char>)>,
>)
    requires
        old(out)@ == bit_names(v, known),
    ensures
        final(out)@ == bit_names(v, known.push((bit, name@))),
{
    assert(known.push((bit, name@)).drop_last() =~= known);
    if v & bit != 0 {
        if !out.as_str().is_empty() {
            out.append("|");
        }
        out.append(name);
        assert(old(out)@.len() == 0 ==> out@ =~= name@);
    }
}

/// The names of the extended styles that are set.
pub fn describe_ex_style(ex: u32) -> (r: String)
    ensures
        r@ == bits_described(ex, ex_style_names()),
{
    let ghost k = ex_style_names();
    let mut out = String::new();
    assert(k.take(0) =~= Seq::empty());
    push_name(&mut out, ex, WS_EX_NOACTIVATE, "NOACTIVATE", Ghost(k.take(0)));
    assert(k.take(1) =~= k.take(0).push(k[0]));
    push_name(&mut out, ex, WS_EX_LAYERED, "LAYERED", Ghost(k.take(1)));
    assert(k.take(2) =~= k.take(1).push(k[1]));
    push_name(&mut out, ex, WS_EX_NOREDIRECTIONBITMAP, "NOREDIRECTIONBITMAP", Ghost(k.take(2)));
    assert(k.take(3) =~= k.take(2).push(k[2]));
    push_name(&mut out, ex, WS_EX_TOOLWINDOW, "TOOLWINDOW", Ghost(k.take(3)));
    assert(k.take(4) =~= k.take(3).push(k[3]));
    push_name(&mut out, ex, WS_EX_TOPMOST, "TOPMOST", Ghost(k.take(4)));
    assert(k.take(5) =~= k.take(4).push(k[4]));
    push_name(&mut out, ex, WS_EX_APPWINDOW, "APPWINDOW", Ghost(k.take(5)));
    assert(k.take(6) =~= k.take(5).push(k[5]));
    push_name(&mut out, ex, WS_EX_TRANSPARENT, "TRANSPARENT", Ghost(k.take(6)));
    assert(k.take(7) =~= k.take(6).push(k[6]));
    push_name(&mut out, ex, WS_EX_ACCEPTFILES, "ACCEPTFILES", Ghost(k.take(7)));
    assert(k.take(8) =~= k.take(7).push(k[7]));
    push_name(&mut out, ex, WS_EX_WINDOWEDGE, "WINDOWEDGE", Ghost(k.take(8)));
    assert(k.take(8).push(k[8]) =~= k);
    if out.as_str().is_empty() {
        "<none>".to_owned()
    } else {
        out
    }
}

/// The names of the styles that are set.
pub fn describe_style(st: u32) -> (r: String)
    ensures
        r@ == bits_described(st, style_names()),
{
    let ghost k = style_names();
    let mut out = String::new();
    assert(k.take(0) =~= Seq::empty());
    push_name(&mut out, st, WS_POPUP, "POPUP", Ghost(k.take(0)));
    assert(k.take(1) =~= k.take(0).push(k[0]));
    push_name(&mut out, st, WS_CAPTION, "CAPTION", Ghost(k.take(1)));
    assert(k.take(2) =~= k.take(1).push(k[1]));
    push_name(&mut out, st, WS_THICKFRAME, "THICKFRAME", Ghost(k.take(2)));
    assert(k.take(3) =~= k.take(2).push(k[2]));
    push_name(&mut out, st, WS_SYSMENU, "SYSMENU", Ghost(k.take(3)));
    assert(k.take(4) =~= k.take(3).push(k[3]));
    push_name(&mut out, st, WS_MINIMIZEBOX, "MINBOX", Ghost(k.take(4)));
    assert(k.take(5) =~= k.take(4).push(k[4]));
    push_name(&mut out, st, WS_VISIBLE, "VISIBLE", Ghost(k.take(5)));
    assert(k.take(5).push(k[5]) =~= k);
    if out.as_str().is_empty() {
        "<none>".to_owned()
    } else {
        out
    }
}

// ---------------------------------------------------------------- the desktop

/// The class of a window of the desktop.
pub open spec fn desktop_class(class: Seq<char>) -> bool {
    class == "Progman"@ || class == "WorkerW"@ || class == "SHELLDLL_DefView"@
}

/// Whether a window belongs to the desktop.
pub fn is_desktop_class(hwnd: u64, class: &str) -> (r: bool)
    ensures
        r == (hwnd != 0 && desktop_class(class@)),
{
    hwnd != 0 && (text::same(class, "Progman") || text::same(class, "WorkerW") || text::same(
        class,
        "SHELLDLL_DefView",
    ))
}

/// Whether a window event says that the desktop may have been raised: windows
/// begin or end to be minimised, or the desktop came to the foreground.
pub fn is_desktop_event(event: u32, on_desktop: bool) -> (r: bool)
    ensures
        r == (event == EVENT_SYSTEM_MINIMIZESTART || event == EVENT_SYSTEM_MINIMIZEEND || (event
            == EVENT_SYSTEM_FOREGROUND && on_desktop)),
{
    event == EVENT_SYSTEM_MINIMIZESTART || event == EVENT_SYSTEM_MINIMIZEEND || (event
        == EVENT_SYSTEM_FOREGROUND && on_desktop)
}

/// A top-level window in the stacking order.
#[derive(Debug)]
pub struct Stacked {
    pub hwnd: u64,
    pub visible: bool,
    pub class: String,
}

/// The visible windows of the desktop that stand before the dock, where the
/// windows are listed from the top down.
pub open spec fn desktops_above(stack: Seq<Stacked>, dock: u64) -> Seq<u64>
    decreases stack.len(),
{
    if stack.len() == 0 || stack[0].hwnd == dock {
        Seq::empty()
    } else {
        let rest = desktops_above(stack.skip(1), dock);
        let w = stack[0];
        if w.visible && w.hwnd != 0 && desktop_class(w.class@) {
            seq![w.hwnd] + rest
        } else {
            rest
        }
    }
}

/// The visible windows of the desktop that stand above the dock. `stack` lists
/// the top-level windows from the top down.
pub fn visible_desktops_above(stack: &Vec<Stacked>, dock: u64) -> (r: Vec<u64>)
    ensures
        r@ == desktops_above(stack@, dock),
{
    let mut r: Vec<u64> = Vec::new();
    let mut i: usize = 0;
    assert(stack@.skip(0) =~= stack@);
    assert(r@ + desktops_above(stack@, dock) =~= desktops_above(stack@, dock));
    while i < stack.len()
        invariant
            i <= stack@.len(),
            r@ + desktops_above(stack@.skip(i as int), dock) == desktops_above(stack@, dock),
        decreases stack@.len() - i,
    {
        let w = &stack[i];
        let ghost before = r@;
        let ghost rest = desktops_above(stack@.skip(i + 1), dock);
        assert(stack@.skip(i as int)[0] == w);
        assert(stack@.skip(i as int).skip(1) =~= stack@.skip(i + 1));
        if w.hwnd == dock {
            assert(r@ =~= desktops_above(stack@, dock));
            return r;
        }
        if w.visible && is_desktop_class(w.hwnd, w.class.as_str()) {
            r.push(w.hwnd);
            assert(r@ + rest =~= before + (seq![w.hwnd] + rest));
        }
        i += 1;
    }
    assert(r@ =~= desktops_above(stack@, dock));
    r
}

/// What stands below the dock never counts, and the dock itself never does.
pub proof fn law_only_above(stack: Seq<Stacked>, dock: u64, k: int)
    requires
        0 <= k < stack.len(),
        stack[k].hwnd == dock,
    ensures
        desktops_above(stack, dock) == desktops_above(stack.take(k), dock),
        !desktops_above(stack, dock).contains(dock),
    decreases k,
{
    if stack[0].hwnd == dock {
        if k > 0 {
            assert(stack.take(k)[0] == stack[0]);
        }
    } else {
        assert(k > 0);
        law_only_above(stack.skip(1), dock, k - 1);
        assert(stack.take(k)[0] == stack[0]);
        assert(stack.take(k).skip(1) =~= stack.skip(1).take(k - 1));
    }
}

/// The middle of the dock, where it has any extent.
pub fn dock_center(r: &Rect) -> (c: Option<Point>)
    ensures
        r.right <= r.left || r.bottom <= r.top ==> c is None,
        !(r.right <= r.left || r.bottom <= r.top) ==> {
            &&& c is Some
            &&& c->0.x == half(r.left + r.right)
            &&& c->0.y == half(r.top + r.bottom)
        },
{
    if r.right <= r.left || r.bottom <= r.top {
        return None;
    }
    Some(
        Point {
            x: halved(r.left as i64 + r.right as i64) as i32,
            y: halved(r.top as i64 + r.bottom as i64) as i32,
        },
    )
}

// ---------------------------------------------------------------- where the dock stands

/// The task bar.
#[derive(Debug, Clone, Copy, PartialEq, Eq, Structural)]
pub struct TaskbarInfo {
    /// Its height when it is docked, in physical pixels.
    pub height: i32,
    /// It is set to hide itself.
    pub auto_hidden: bool,
    /// It is at the lower edge of the screen.
    pub at_bottom: bool,
}

/// What is known of the task bar. `docked` is the rectangle and the edge that
/// the shell reports, `window` its window's rectangle. One without height does
/// not count.
pub fn taskbar_info(
    present: bool,
    state: u32,
    docked: Option<(Rect, u32)>,
    window: &Rect,
) -> (r: Option<TaskbarInfo>)
    requires
        present ==> fits(
            match docked {
                Some((d, _)) => d.bottom - d.top,
                None => window.bottom - window.top,
            },
        ),
    ensures
        ({
            let height = match docked {
                Some((d, _)) => d.bottom - d.top,
                None => window.bottom - window.top,
            };
            if !present || height <= 0 {
                r is None
            } else {
                &&& r is Some
                &&& r->0.height == height
                &&& r->0.auto_hidden == (state & ABS_AUTOHIDE != 0)
                &&& r->0.at_bottom == (docked is None || (docked->0).1 == ABE_BOTTOM)
            }
        }),
{
    if !present {
        return None;
    }
    let auto_hidden = state & ABS_AUTOHIDE != 0;
    let height: i32;
    let at_bottom: bool;
    match docked {
        Some((d, edge)) => {
            height = d.bottom - d.top;
            at_bottom = edge == ABE_BOTTOM;
        },
        None => {
            height = window.bottom - window.top;
            at_bottom = true;
        },
    }
    if height <= 0 {
        None
    } else {
        Some(TaskbarInfo { height, auto_hidden, at_bottom })
    }
}

/// Room has to be kept for a task bar that hides itself and would come up over
/// the dock.
pub open spec fn keeps_room(
    area: Rect,
    reserve: bool,
    taskbar: Option<TaskbarInfo>,
    screen_bottom: i32,
) -> bool {
    reserve && taskbar is Some && taskbar->0.auto_hidden && taskbar->0.at_bottom && area.bottom
        >= screen_bottom
}

/// The lower edge from which the dock is placed.
pub open spec fn base_bottom(
    area: Rect,
    h: i32,
    reserve: bool,
    taskbar: Option<TaskbarInfo>,
    screen_bottom: i32,
) -> int {
    if keeps_room(area, reserve, taskbar, screen_bottom) {
        max_of(area.bottom - taskbar->0.height, area.top + h)
    } else {
        area.bottom as int
    }
}

/// The left edge of a dock of a given width: centred, and within the work area
/// as far as it fits.
pub open spec fn dock_left(area: Rect, w: i32) -> int {
    between(
        area.left + half(area.right - area.left - w),
        area.left as int,
        max_of(area.right - w, area.left as int),
    )
}

/// The upper edge of a dock of a given height: so far above its base as the user
/// wants, and not above the work area.
pub open spec fn dock_top(
    area: Rect,
    h: i32,
    reserve: bool,
    taskbar: Option<TaskbarInfo>,
    screen_bottom: i32,
    bottom_offset: i32,
) -> int {
    let bottom = base_bottom(area, h, reserve, taskbar, screen_bottom);
    between(bottom - h - max_of(bottom_offset as int, 0), area.top as int, bottom - h)
}

/// A dock of a given size has a place: it is not too high to stand between the
/// upper edge of the work area and its base, and the edges of the place are
/// coordinates.
pub open spec fn has_place(
    area: Rect,
    w: i32,
    h: i32,
    reserve: bool,
    taskbar: Option<TaskbarInfo>,
    screen_bottom: i32,
    bottom_offset: i32,
) -> bool {
    let left = dock_left(area, w);
    let top = dock_top(area, h, reserve, taskbar, screen_bottom, bottom_offset);
    &&& area.top + h <= base_bottom(area, h, reserve, taskbar, screen_bottom)
    &&& fits(left) && fits(left + w)
    &&& fits(top) && fits(top + h)
}

fn lower_edge(
    area: &Rect,
    h: i32,
    reserve: bool,
    taskbar: Option<TaskbarInfo>,
    screen_bottom: i32,
) -> (r: i64)
    ensures
        r == base_bottom(*area, h, reserve, taskbar, screen_bottom),
        -0x2_0000_0000 <= r <= 0x2_0000_0000,
{
    if reserve {
        if let Some(tb) = taskbar {
            if tb.auto_hidden && tb.at_bottom && area.bottom >= screen_bottom {
                return max_i64(area.bottom as i64 - tb.height as i64, area.top as i64 + h as i64);
            }
        }
    }
    area.bottom as i64
}

fn left_edge(area: &Rect, w: i32) -> (r: i64)
    ensures
        r == dock_left(*area, w),
        -0x4_0000_0000 <= r <= 0x4_0000_0000,
{
    let (left, right, wide): (i64, i64, i64) = (area.left as i64, area.right as i64, w as i64);
    let x: i64 = left + halved(right - left - wide);
    min_i64(max_i64(x, left), max_i64(right - wide, left))
}

fn top_edge(
    area: &Rect,
    h: i32,
    reserve: bool,
    taskbar: Option<TaskbarInfo>,
    screen_bottom: i32,
    bottom_offset: i32,
) -> (r: i64)
    ensures
        r == dock_top(*area, h, reserve, taskbar, screen_bottom, bottom_offset),
        -0x4_0000_0000 <= r <= 0x4_0000_0000,
{
    let lowest: i64 = lower_edge(area, h, reserve, taskbar, screen_bottom) - h as i64;
    let y: i64 = lowest - max_i64(bottom_offset as i64, 0);
    min_i64(max_i64(y, area.top as i64), lowest)
}

/// Whether a dock of a given size has a place.
pub fn has_room(
    area: &Rect,
    w: i32,
    h: i32,
    reserve: bool,
    taskbar: Option<TaskbarInfo>,
    screen_bottom: i32,
    bottom_offset: i32,
) -> (r: bool)
    ensures
        r == has_place(*area, w, h, reserve, taskbar, screen_bottom, bottom_offset),
{
    let left: i64 = left_edge(area, w);
    let top: i64 = top_edge(area, h, reserve, taskbar, screen_bottom, bottom_offset);
    area.top as i64 + h as i64 <= lower_edge(area, h, reserve, taskbar, screen_bottom)
        && is_fitting(left) && is_fitting(left + w as i64) && is_fitting(top) && is_fitting(
        top + h as i64,
    )
}

/// Where a dock of a given size stands, in physical pixels: centred, at the
/// bottom of the work area or so far above it as the user wants, with room for
/// the task bar, and within the work area.
pub fn dock_rect_for_size(
    area: &Rect,
    w: i32,
    h: i32,
    reserve: bool,
    taskbar: Option<TaskbarInfo>,
    screen_bottom: i32,
    bottom_offset: i32,
) -> (r: Rect)
    requires
        has_place(*area, w, h, reserve, taskbar, screen_bottom, bottom_offset),
    ensures
        r.left == dock_left(*area, w),
        r.top == dock_top(*area, h, reserve, taskbar, screen_bottom, bottom_offset),
        r.right == r.left + w,
        r.bottom == r.top + h,
{
    let left: i64 = left_edge(area, w);
    let top: i64 = top_edge(area, h, reserve, taskbar, screen_bottom, bottom_offset);
    Rect {
        left: left as i32,
        top: top as i32,
        right: (left + w as i64) as i32,
        bottom: (top + h as i64) as i32,
    }
}

/// The dock stays within the work area: it never reaches above it, however far
/// up the user wants it, nor below its base, and where it is not too wide it
/// never leaves it sideways. It keeps clear of a task bar that hides itself, as
/// far as there is room. A dock that is not larger than the work area always has
/// a place.
pub proof fn law_dock_within_work_area(
    area: Rect,
    w: i32,
    h: i32,
    reserve: bool,
    taskbar: Option<TaskbarInfo>,
    screen_bottom: i32,
    bottom_offset: i32,
)
    requires
        0 <= w,
        0 <= h <= area.bottom - area.top,
        taskbar is Some ==> taskbar->0.height > 0,
    ensures
        ({
            let left = dock_left(area, w);
            let top = dock_top(area, h, reserve, taskbar, screen_bottom, bottom_offset);
            let bottom = base_bottom(area, h, reserve, taskbar, screen_bottom);
            &&& area.left <= left
            &&& w <= area.right - area.left ==> {
                &&& has_place(area, w, h, reserve, taskbar, screen_bottom, bottom_offset)
                &&& left == area.left + (area.right - area.left - w) / 2
                &&& left + w <= area.right
            }
            &&& area.top <= top && top + h <= bottom && bottom <= area.bottom
            &&& top + h == max_of(bottom - max_of(bottom_offset as int, 0), area.top + h)
            &&& keeps_room(area, reserve, taskbar, screen_bottom) && area.top + h <= area.bottom
                - taskbar->0.height ==> top + h <= area.bottom - taskbar->0.height
        }),
{
}

/// The resolution of a window: the usual one where the system gives none.
pub fn dpi_or_default(dpi: u32) -> (r: u32)
    ensures
        r == if dpi == 0 {
            96
        } else {
            dpi
        },
{
    if dpi == 0 {
        96
    } else {
        dpi
    }
}

// ---------------------------------------------------------------- what holds of the layer

/// What each message comes to: a press of the left button counts as a click, a
/// question about activation is answered with "do not" where clicks must not
/// activate; of the dock itself, a move keeps the stacking order, a change of the
/// extended style loses the topmost bit, and minimising is answered and not
/// passed on. Nothing else is answered, counted or changed.
pub proof fn law_messages(m: Message, top: bool, block: bool)
    ensures
        ({
            let v = judged(m, top, block);
            let moves = m.msg == 0x46 && top;
            let styles = m.msg == 0x7c && top && m.wparam == 0xffff_ffec;
            let minimises = m.msg == 0x112 && top && m.wparam & 0xfff0 == 0xf020;
            &&& v.click <==> m.msg == 0x201
            &&& v.activation <==> m.msg == 0x21
            &&& m.msg == 0x21 ==> v.answer == if block {
                Some(3i64)
            } else {
                None
            }
            &&& minimises ==> v.answer == Some(0i64)
            &&& v.minimize_refused <==> minimises
            &&& m.msg != 0x21 && !minimises ==> v.answer is None
            &&& v.zorder_refused <==> moves && m.pos_flags is Some && m.pos_flags->0 & 4 == 0
            &&& v.topmost_refused <==> styles && m.new_style is Some && m.new_style->0 & 8 != 0
            &&& v.pos_flags is Some <==> m.pos_flags is Some
            &&& v.new_style is Some <==> m.new_style is Some
            &&& m.pos_flags is Some ==> v.pos_flags->0 == if moves {
                m.pos_flags->0 | 4
            } else {
                m.pos_flags->0
            }
            &&& m.new_style is Some ==> v.new_style->0 == if styles {
                m.new_style->0 & 0xffff_fff7
            } else {
                m.new_style->0
            }
        }),
{
    if let Some(f) = m.pos_flags {
        assert(f & 4u32 != 0 ==> f | 4u32 == f) by (bit_vector);
    }
    if let Some(s) = m.new_style {
        assert(s & !8u32 == s & 0xffff_fff7u32 && (s & 8u32 == 0 ==> s & 0xffff_fff7u32 == s))
            by (bit_vector);
    }
}

/// Where the dock stands, by its distances: as far from the left edge of the work
/// area as from the right, and from the lower edge by the height of a task bar
/// that hides itself there, where room is kept for it, and by what the user
/// wants, but never above the upper edge.
pub proof fn law_placed_by_distances(
    area: Rect,
    w: i32,
    h: i32,
    reserve: bool,
    taskbar: Option<TaskbarInfo>,
    screen_bottom: i32,
    bottom_offset: i32,
    r: Rect,
)
    requires
        0 <= w <= area.right - area.left,
        0 <= h <= area.bottom - area.top,
        taskbar is Some ==> taskbar->0.height > 0,
        call_ensures(
            dock_rect_for_size,
            (&area, w, h, reserve, taskbar, screen_bottom, bottom_offset),
            r,
        ),
    ensures
        r.right - r.left == w,
        r.bottom - r.top == h,
        r.left - area.left <= area.right - r.right <= r.left - area.left + 1,
        ({
            let room = if reserve && taskbar is Some && taskbar->0.auto_hidden
                && taskbar->0.at_bottom && area.bottom >= screen_bottom {
                taskbar->0.height as int
            } else {
                0
            };
            let wanted = room + if bottom_offset > 0 {
                bottom_offset as int
            } else {
                0
            };
            let most = area.bottom - area.top - h;
            area.bottom - r.bottom == if wanted <= most {
                wanted
            } else {
                most
            }
        }),
{
}

/// A dock that is not larger than the work area has a place; one that is higher
/// has none, unless room is kept for the task bar.
pub proof fn law_room(
    area: Rect,
    w: i32,
    h: i32,
    reserve: bool,
    taskbar: Option<TaskbarInfo>,
    screen_bottom: i32,
    bottom_offset: i32,
    r: bool,
)
    requires
        0 <= w,
        0 <= h,
        taskbar is Some ==> taskbar->0.height > 0,
        call_ensures(
            has_room,
            (&area, w, h, reserve, taskbar, screen_bottom, bottom_offset),
            r,
        ),
    ensures
        w <= area.right - area.left && h <= area.bottom - area.top ==> r,
        h > area.bottom - area.top && (!reserve || taskbar is None) ==> !r,
{
    if h <= area.bottom - area.top {
        law_dock_within_work_area(area, w, h, reserve, taskbar, screen_bottom, bottom_offset);
    }
}

/// The middle is as far from one edge of the dock as from the other, but for one
/// pixel.
pub proof fn law_middle_of_the_dock(r: Rect, c: Option<Point>)
    requires
        call_ensures(dock_center, (&r,), c),
    ensures
        c is Some <==> r.left < r.right && r.top < r.bottom,
        c is Some ==> {
            &&& r.left <= c->0.x <= r.right
            &&& r.top <= c->0.y <= r.bottom
            &&& -1 <= (r.right - c->0.x) - (c->0.x - r.left) <= 1
            &&& -1 <= (r.bottom - c->0.y) - (c->0.y - r.top) <= 1
        },
{
}

/// A task bar that is not there, or has no height, does not count. Of one that
/// does, its first bit of state says whether it hides itself, and the third edge
/// is the lower one; where the shell reports no place it is at the lower edge.
pub proof fn law_task_bar(
    present: bool,
    state: u32,
    docked: Option<(Rect, u32)>,
    window: Rect,
    r: Option<TaskbarInfo>,
)
    requires
        call_ensures(taskbar_info, (present, state, docked, &window), r),
    ensures
        !present ==> r is None,
        r is Some ==> r->0.height > 0,
        present && docked is None && window.top < window.bottom ==> r is Some && r->0.height
            == window.bottom - window.top && r->0.at_bottom,
        present && docked is Some && (docked->0).0.top < (docked->0).0.bottom ==> r is Some
            && r->0.height == (docked->0).0.bottom - (docked->0).0.top && (r->0.at_bottom <==> (
        docked->0).1 == 3),
        r is Some ==> (r->0.auto_hidden <==> state % 2 == 1),
{
    assert(state & 1u32 != 0 <==> state % 2 == 1) by (bit_vector);
}

/// A point lies inside a rectangle from its left and upper edge on, up to its
/// right and lower edge, which do not belong to it.
pub proof fn law_inside(r: Rect, p: Point, b: bool)
    requires
        call_ensures(point_in, (&r, p), b),
    ensures
        b <==> r.left <= p.x < r.right && r.top <= p.y < r.bottom,
{
}

/// Three classes are the desktop's, and a window that is none is not.
pub proof fn law_windows_of_the_desktop(
    hwnd: u64,
    class: &str,
    event: u32,
    on_desktop: bool,
    is_desktop: bool,
    raised: bool,
)
    requires
        call_ensures(is_desktop_class, (hwnd, class), is_desktop),
        call_ensures(is_desktop_event, (event, on_desktop), raised),
    ensures
        is_desktop ==> hwnd != 0,
        hwnd != 0 ==> (is_desktop <==> class@ == "Progman"@ || class@ == "WorkerW"@ || class@
            == "SHELLDLL_DefView"@),
        event == 0x16 || event == 0x17 ==> raised,
        event == 0x3 ==> (raised <==> on_desktop),
        event != 0x3 && event != 0x16 && event != 0x17 ==> !raised,
{
}

/// The desktop's windows above the dock come from the top down: what stands above
/// any window comes before it, and of one window alone it counts where it is
/// visible, a window at all and of the desktop.
pub proof fn law_desktops_from_the_top_down(a: Seq<Stacked>, w: Stacked, b: Seq<Stacked>, dock: u64)
    requires
        forall|i: int| 0 <= i < a.len() ==> #[trigger] a[i].hwnd != dock,
    ensures
        desktops_above(a + b, dock) == desktops_above(a, dock) + desktops_above(b, dock),
        w.hwnd == dock ==> desktops_above(seq![w] + b, dock) == Seq::<u64>::empty(),
        w.hwnd != dock ==> desktops_above(seq![w], dock) == if w.visible && w.hwnd != 0 && (w.class@
            == "Progman"@ || w.class@ == "WorkerW"@ || w.class@ == "SHELLDLL_DefView"@) {
            seq![w.hwnd]
        } else {
            Seq::empty()
        },
    decreases a.len(),
{
    assert((seq![w] + b)[0] == w);
    assert(seq![w].skip(1) =~= Seq::empty());
    assert(desktops_above(Seq::empty(), dock) =~= Seq::<u64>::empty());
    if w.hwnd != dock {
        assert(desktops_above(seq![w], dock) =~= if w.visible && w.hwnd != 0 && desktop_class(
            w.class@,
        ) {
            seq![w.hwnd]
        } else {
            Seq::empty()
        });
    }
    if a.len() == 0 {
        assert(a + b =~= b);
        assert(desktops_above(a, dock) + desktops_above(b, dock) =~= desktops_above(b, dock));
    } else {
        assert((a + b)[0] == a[0]);
        assert((a + b).skip(1) =~= a.skip(1) + b);
        assert forall|i: int| 0 <= i < a.skip(1).len() implies #[trigger] a.skip(1)[i].hwnd
            != dock by {
            assert(a.skip(1)[i] == a[i + 1]);
        }
        law_desktops_from_the_top_down(a.skip(1), w, b, dock);
        assert(desktops_above(a + b, dock) =~= desktops_above(a, dock) + desktops_above(b, dock));
    }
}

/// The names of those bits that are set, in the order of the list.
pub open spec fn set_names(v: u32, known: Seq<(u32, Seq<char>)>) -> Seq<Seq<char>> {
    known.filter(|k: (u32, Seq<char>)| v & k.0 != 0).map_values(|k: (u32, Seq<char>)| k.1)
}

proof fn lemma_joined_push(t: Seq<Seq<char>>, p: Seq<char>, x: Seq<char>)
    ensures
        text::joined(t.push(x), p) == if t.len() == 0 {
            x
        } else {
            text::joined(t, p) + p + x
        },
    decreases t.len(),
{
    let u = t.push(x);
    if t.len() > 0 {
        assert(u.skip(1) =~= t.skip(1).push(x));
        lemma_joined_push(t.skip(1), p, x);
        assert(u[0] == t[0]);
        if t.len() == 1 {
            assert(t.skip(1).len() == 0);
            assert(text::joined(u, p) =~= text::joined(t, p) + p + x);
        } else {
            assert(text::joined(u, p) =~= text::joined(t, p) + p + x);
        }
    }
}

/// A style is described by the names of its bits, each once and in the order of
/// the list, with bars between them.
pub proof fn law_styles_are_named(v: u32, known: Seq<(u32, Seq<char>)>)
    requires
        forall|i: int| 0 <= i < known.len() ==> (#[trigger] known[i]).1.len() > 0,
    ensures
        bit_names(v, known) == text::joined(set_names(v, known), "|"@),
        set_names(v, known).len() == 0 <==> bit_names(v, known).len() == 0,
        set_names(v, known).len() == 0 ==> bits_described(v, known) == "<none>"@,
        set_names(v, known).len() > 0 ==> bits_described(v, known) == text::joined(
            set_names(v, known),
            "|"@,
        ),
    decreases known.len(),
{
    reveal(Seq::filter);
    let f = |k: (u32, Seq<char>)| v & k.0 != 0;
    let g = |k: (u32, Seq<char>)| k.1;
    if known.len() > 0 {
        let front = known.drop_last();
        assert forall|i: int| 0 <= i < front.len() implies (#[trigger] front[i]).1.len() > 0 by {
            assert(front[i] == known[i]);
        }
        law_styles_are_named(v, front);
        let t = set_names(v, front);
        if v & known.last().0 != 0 {
            assert(known.filter(f) =~= front.filter(f).push(known.last()));
            assert(set_names(v, known) =~= t.push(known.last().1));
            lemma_joined_push(t, "|"@, known.last().1);
        } else {
            assert(known.filter(f) =~= front.filter(f));
            assert(set_names(v, known) =~= t);
        }
    } else {
        assert(known.filter(f) =~= Seq::empty());
        assert(set_names(v, known) =~= Seq::empty());
    }
}

/// Which bit has which name.
pub proof fn law_names_of_bits(ex: u32, st: u32, ex_text: String, st_text: String)
    requires
        call_ensures(describe_ex_style, (ex,), ex_text),
        call_ensures(describe_style, (st,), st_text),
    ensures
        ex_text@ == bits_described(
            ex,
            seq![
                (0x0800_0000u32, "NOACTIVATE"@),
                (0x0008_0000u32, "LAYERED"@),
                (0x0020_0000u32, "NOREDIRECTIONBITMAP"@),
                (0x0000_0080u32, "TOOLWINDOW"@),
                (0x0000_0008u32, "TOPMOST"@),
                (0x0004_0000u32, "APPWINDOW"@),
                (0x0000_0020u32, "TRANSPARENT"@),
                (0x0000_0010u32, "ACCEPTFILES"@),
                (0x0000_0100u32, "WINDOWEDGE"@),
            ],
        ),
        st_text@ == bits_described(
            st,
            seq![
                (0x8000_0000u32, "POPUP"@),
                (0x00c0_0000u32, "CAPTION"@),
                (0x0004_0000u32, "THICKFRAME"@),
                (0x0008_0000u32, "SYSMENU"@),
                (0x0002_0000u32, "MINBOX"@),
                (0x1000_0000u32, "VISIBLE"@),
            ],
        ),
{
}

/// The bits of the dock's own style, by their numbers.
pub proof fn law_bits_of_the_dock(before: u32, bit: u32)
    requires
        bit < 32,
    ensures
        dock_style(before) & (1u32 << bit) == if bit == 27 || bit == 7 {
            1u32 << bit
        } else if bit == 18 || bit == 19 {
            0
        } else {
            before & (1u32 << bit)
        },
{
    let a: u32 = (before | (0x0800_0000u32 | 0x0000_0080u32)) & !0x0004_0000u32 & !0x0008_0000u32;
    assert(a == dock_style(before));
    assert(a & (1u32 << bit) == if bit == 27 || bit == 7 {
        1u32 << bit
    } else if bit == 18 || bit == 19 {
        0
    } else {
        before & (1u32 << bit)
    }) by (bit_vector)
        requires
            bit < 32,
            a == (before | (0x0800_0000u32 | 0x0000_0080u32)) & !0x0004_0000u32 & !0x0008_0000u32,
    ;
}

/// A resolution that the system gives is kept; only where it gives none it is 96.
pub proof fn law_resolution(dpi: u32, r: u32)
    requires
        call_ensures(dpi_or_default, (dpi,), r),
    ensures
        dpi > 0 ==> r == dpi,
        dpi == 0 ==> r == 96,
{
}

} // verus!
