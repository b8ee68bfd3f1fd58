//! The panels above the dock: a folder, and above it a menu or a label. What is
//! open, what waits to be shown, and what a click or a key closes.

use vstd::prelude::*;
use vstd::string::*;
use crate::geometry::{between, fits, half, halved, max_i64, max_of, min_i64, min_of, Point, Rect};
use crate::menu::{item_views, ItemView, MenuItem, Target};
use crate::menu;
use crate::model::{app_views, AppEntry, AppView};
use crate::text;
use crate::text::opt_view;
use crate::win_layer::point_in;

verus! {

/// The height of one menu item, in logical pixels.
pub const ROW_H: u32 = 26;

/// The height of a line between menu items.
pub const DIVIDER_H: u32 = 9;

/// The padding of a panel.
pub const PAD: u32 = 5;

/// How many columns a folder has.
pub const FOLDER_COLS: u32 = 4;

/// The gap between the cells of a folder.
pub const FOLDER_GAP: u32 = 6;

/// The padding of a folder.
pub const FOLDER_PAD: u32 = 12;

/// How many rows of a folder are shown at most.
pub const FOLDER_MAX_ROWS: u32 = 5;

/// The gap between a panel and the dock.
pub const GAP_ABOVE_DOCK: u32 = 8;

/// The size of the letters of a label.
pub const LABEL_FONT: u32 = 13;

/// The padding of a label.
pub const LABEL_PAD_X: u32 = 10;

pub const LABEL_PAD_Y: u32 = 5;

/// The opacity of a panel stays within these bounds.
pub const PANEL_ACRYLIC_MIN: u8 = 150;

pub const PANEL_ACRYLIC_MAX: u8 = 200;

/// How far the tint of a label is moved towards white, in percent.
pub const LABEL_BRIGHTEN: u32 = 62;

// ---------------------------------------------------------------- what is shown

/// One cell of a folder.
#[derive(Debug)]
pub struct FolderItem {
    pub id: String,
    pub label: String,
    pub target: String,
    /// Whether it runs.
    pub running: bool,
}

/// The contents of a `FolderItem`.
#[verifier::ext_equal]
pub struct FolderItemView {
    pub id: Seq<char>,
    pub label: Seq<char>,
    pub target: Seq<char>,
    pub running: bool,
}

impl View for FolderItem {
    type V = FolderItemView;

    open spec fn view(&self) -> FolderItemView {
        FolderItemView {
            id: self.id@,
            label: self.label@,
            target: self.target@,
            running: self.running,
        }
    }
}

/// The contents of a list of cells.
pub open spec fn cell_views(s: Seq<FolderItem>) -> Seq<FolderItemView> {
    Seq::new(s.len(), |i: int| s[i]@)
}

impl Clone for FolderItem {
    fn clone(&self) -> (r: Self)
        ensures
            r == *self,
    {
        FolderItem {
            id: self.id.clone(),
            label: self.label.clone(),
            target: self.target.clone(),
            running: self.running,
        }
    }
}

/// What a panel shows.
#[derive(Debug)]
pub enum PanelContent {
    Menu { items: Vec<MenuItem> },
    Folder { title: String, cells: Vec<FolderItem> },
    Label { text: String },
}

/// The cells of a folder: what it holds, without separators.
pub open spec fn cells_of(children: Seq<AppView>) -> Seq<FolderItemView>
    decreases children.len(),
{
    if children.len() == 0 {
        Seq::empty()
    } else {
        let before = cells_of(children.drop_last());
        let c = children.last();
        if c.separator {
            before
        } else {
            before.push(
                FolderItemView {
                    id: c.id,
                    label: c.display_name,
                    target: c.target,
                    running: c.running,
                },
            )
        }
    }
}

/// The cells of a folder: what it holds, without separators.
pub fn folder_items(children: &Vec<AppEntry>) -> (r: Vec<FolderItem>)
    ensures
        cell_views(r@) == cells_of(app_views(children@)),
{
    let ghost all = app_views(children@);
    let mut r: Vec<FolderItem> = Vec::new();
    let mut i: usize = 0;
    assert(all.take(0) =~= Seq::empty());
    assert(cell_views(r@) =~= Seq::empty());
    while i < children.len()
        invariant
            i <= children@.len(),
            all == app_views(children@),
            cell_views(r@) == cells_of(all.take(i as int)),
        decreases children@.len() - i,
    {
        let c = &children[i];
        let ghost before = cell_views(r@);
        proof {
            assert(all.take(i + 1).drop_last() =~= all.take(i as int));
            assert(all.take(i + 1).last() == c@);
        }
        if !c.separator {
            r.push(
                FolderItem {
                    id: c.id.clone(),
                    label: c.display_name.clone(),
                    target: c.target.clone(),
                    running: c.running,
                },
            );
            assert(cell_views(r@) =~= before.push(r@[r@.len() - 1]@));
        }
        i += 1;
    }
    assert(all.take(i as int) =~= all);
    r
}

// ---------------------------------------------------------------- sizes

/// The height of a menu, in logical pixels.
pub open spec fn menu_rows(items: Seq<ItemView>) -> int
    decreases items.len(),
{
    if items.len() == 0 {
        0
    } else {
        menu_rows(items.drop_last()) + if items.last().divider {
            DIVIDER_H as int
        } else {
            ROW_H as int
        }
    }
}

/// The height of a menu, in logical pixels.
pub fn menu_height(items: &Vec<MenuItem>) -> (r: u32)
    requires
        ROW_H * items@.len() + 2 * PAD <= u32::MAX,
    ensures
        r == menu_rows(item_views(items@)) + 2 * PAD,
{
    let ghost all = item_views(items@);
    let mut h: u32 = 0;
    let mut i: usize = 0;
    assert(all.take(0) =~= Seq::empty());
    while i < items.len()
        invariant
            i <= items@.len(),
            26 * items@.len() + 10 <= u32::MAX,
            all == item_views(items@),
            h == menu_rows(all.take(i as int)),
            h <= 26 * i,
        decreases items@.len() - i,
    {
        proof {
            assert(all.take(i + 1).drop_last() =~= all.take(i as int));
            assert(all.take(i + 1).last() == items@[i as int]@);
        }
        if items[i].divider {
            h += DIVIDER_H;
        } else {
            h += ROW_H;
        }
        i += 1;
    }
    assert(all.take(i as int) =~= all);
    h + 2 * PAD
}

/// The side of a cell of a folder: it follows the icons, within bounds.
pub open spec fn cell_side(icon_size: u32) -> int {
    between(icon_size + 14, 40, 72)
}

/// The side of a cell of a folder, in logical pixels.
pub fn folder_cell(icon_size: u32) -> (r: u32)
    ensures
        r == cell_side(icon_size),
{
    if icon_size <= 26 {
        40
    } else if icon_size >= 58 {
        72
    } else {
        icon_size + 14
    }
}

/// How many rows fit above the dock. `height` is the height of the work area in
/// physical pixels.
pub open spec fn rows_that_fit(icon_size: u32, height: int, dpi: u32, panel_height: u32) -> int {
    let room = height * 96 - (panel_height + GAP_ABOVE_DOCK + 24 + 2 * FOLDER_PAD - FOLDER_GAP)
        * dpi;
    between(room / (dpi * (cell_side(icon_size) + FOLDER_GAP)), 1, FOLDER_MAX_ROWS as int)
}

/// How many rows `n` cells need.
pub open spec fn rows_wanted(n: nat) -> int {
    max_of((n + FOLDER_COLS - 1) / FOLDER_COLS as int, 1)
}

/// The size of a folder in logical pixels: as many rows as its cells need, at
/// most as many as fit above the dock.
pub fn folder_size(
    icon_size: u32,
    n: usize,
    work_area: &Rect,
    dpi: u32,
    panel_height: u32,
) -> (r: (u32, u32))
    requires
        0 < dpi,
    ensures
        r.0 == FOLDER_COLS * cell_side(icon_size) + (FOLDER_COLS - 1) * FOLDER_GAP + 2
            * FOLDER_PAD,
        ({
            let rows = min_of(
                rows_wanted(n as nat),
                rows_that_fit(icon_size, work_area.bottom - work_area.top, dpi, panel_height),
            );
            r.1 == rows * cell_side(icon_size) + (rows - 1) * FOLDER_GAP + 2 * FOLDER_PAD
        }),
{
    let cell = folder_cell(icon_size);
    let width: u32 = 4 * cell + 3 * 6 + 2 * 12;
    let height: i128 = work_area.bottom as i128 - work_area.top as i128;
    assert(-0x1_0000_0000_0000_0000 * 0x1_0000_0000 <= (panel_height + 50) * dpi
        <= 0x1_0000_0000_0000_0000 * 0x1_0000_0000) by (nonlinear_arith);
    let room: i128 = height * 96 - (panel_height as i128 + 50) * (dpi as i128);
    assert(0 < dpi * (cell + 6) <= 0x1_0000_0000 * 78) by (nonlinear_arith)
        requires
            0 < dpi,
            40 <= cell <= 72,
    ;
    let step: i128 = (dpi as i128) * (cell as i128 + 6);
    let fit: u32;
    if room < step {
        proof {
            assert(room / step <= 0) by (nonlinear_arith)
                requires
                    room < step,
                    step > 0,
            ;
        }
        fit = 1;
    } else {
        let q: i128 = room / step;
        proof {
            assert(q >= 1) by (nonlinear_arith)
                requires
                    room >= step,
                    step > 0,
                    q == room / step,
            ;
        }
        if q >= 5 {
            fit = 5;
        } else {
            fit = q as u32;
        }
    }
    let wanted: u32;
    if n == 0 {
        wanted = 1;
    } else if n > 16 {
        wanted = 5;
    } else {
        wanted = ((n as u32) + 3) / 4;
    }
    let rows: u32 = if wanted < fit {
        wanted
    } else {
        fit
    };
    proof {
        let exact = min_of(
            rows_wanted(n as nat),
            rows_that_fit(icon_size, work_area.bottom - work_area.top, dpi, panel_height),
        );
        assert(rows == exact);
        assert(rows * cell <= 5 * 72) by (nonlinear_arith)
            requires
                1 <= rows <= 5,
                40 <= cell <= 72,
        ;
    }
    (width, rows * cell + (rows - 1) * 6 + 2 * 12)
}

/// The width of a label's text in hundredths of a logical pixel.
pub open spec fn label_text_width(s: Seq<char>) -> nat
    decreases s.len(),
{
    if s.len() == 0 {
        0
    } else {
        label_text_width(s.drop_last()) + if (s.last() as u32) >= 0x2e80 {
            1300nat
        } else {
            754nat
        }
    }
}

/// The size of a label: its width in hundredths of a logical pixel, its height
/// in logical pixels.
pub fn label_size(s: &str) -> (r: (u64, u32))
    requires
        1300 * s@.len() + 2000 <= u64::MAX,
    ensures
        r.0 == label_text_width(s@) + 2 * 100 * LABEL_PAD_X,
        r.1 == LABEL_FONT + 2 * LABEL_PAD_Y,
{
    let v = text::chars_of(s);
    let mut w: u64 = 0;
    let mut i: usize = 0;
    assert(s@.take(0) =~= Seq::empty());
    while i < v.len()
        invariant
            i <= v@.len(),
            1300 * v@.len() + 2000 <= u64::MAX,
            v@ == s@,
            w == label_text_width(s@.take(i as int)),
            w <= 1300 * i,
        decreases v@.len() - i,
    {
        assert(s@.take(i + 1).drop_last() =~= s@.take(i as int));
        if (v[i] as u32) >= 0x2e80 {
            w += 1300;
        } else {
            w += 754;
        }
        i += 1;
    }
    assert(s@.take(i as int) =~= s@);
    (w + 2000, 23)
}

/// Where a panel stands. `anchor_x` is the point under which it is centred.
pub open spec fn placed(base: Rect, anchor_x: i32, area: Rect, gap: i32, w: i32, h: i32) -> (
    int,
    int,
) {
    let x = between(
        anchor_x - half(w as int),
        area.left + 4,
        max_of(area.right - w - 4, area.left + 4),
    );
    let above = base.top - h - gap;
    let y = if above < area.top + 4 {
        min_of(base.bottom + gap, max_of(area.bottom - h - 4, area.top + 4))
    } else {
        above
    };
    (x, y)
}

/// Where a panel of a given size stands: centred under the anchor, above its
/// base where there is room, else below, within the work area.
pub fn place(base: &Rect, anchor_x: i32, area: &Rect, gap: i32, w: i32, h: i32) -> (r: Rect)
    requires
        ({
            let (x, y) = placed(*base, anchor_x, *area, gap, w, h);
            fits(x) && fits(y) && fits(x + w) && fits(y + h)
        }),
    ensures
        (r.left as int, r.top as int) == placed(*base, anchor_x, *area, gap, w, h),
        r.right == r.left + w,
        r.bottom == r.top + h,
{
    let (wide, high): (i64, i64) = (w as i64, h as i64);
    let lo: i64 = area.left as i64 + 4;
    let hi: i64 = max_i64(area.right as i64 - wide - 4, lo);
    let x: i64 = min_i64(max_i64(anchor_x as i64 - halved(wide), lo), hi);
    let highest: i64 = area.top as i64 + 4;
    let mut y: i64 = base.top as i64 - high - gap as i64;
    if y < highest {
        y = min_i64(
            base.bottom as i64 + gap as i64,
            max_i64(area.bottom as i64 - high - 4, highest),
        );
    }
    Rect {
        left: x as i32,
        top: y as i32,
        right: (x + wide) as i32,
        bottom: (y + high) as i32,
    }
}

/// A panel never leaves the work area sideways where it fits, and where it
/// stands above its base it keeps the gap and stays below the upper edge.
pub proof fn law_placed_in_work_area(
    base: Rect,
    anchor_x: i32,
    area: Rect,
    gap: i32,
    w: i32,
    h: i32,
)
    requires
        0 <= w,
        0 <= h,
    ensures
        ({
            let (x, y) = placed(base, anchor_x, area, gap, w, h);
            &&& area.left + 4 <= x
            &&& area.left + 4 <= area.right - w - 4 ==> x + w <= area.right - 4
            &&& base.top - h - gap >= area.top + 4 ==> y + h == base.top - gap && y >= area.top + 4
            &&& base.top - h - gap < area.top + 4 && area.top + 4 <= area.bottom - h - 4 ==> y + h
                <= area.bottom - 4
        }),
{
}

/// The opacity of a panel, within its bounds.
pub fn panel_alpha(glass_alpha: u8) -> (r: u8)
    ensures
        r == between(glass_alpha as int, PANEL_ACRYLIC_MIN as int, PANEL_ACRYLIC_MAX as int),
{
    if glass_alpha < PANEL_ACRYLIC_MIN {
        PANEL_ACRYLIC_MIN
    } else if glass_alpha > PANEL_ACRYLIC_MAX {
        PANEL_ACRYLIC_MAX
    } else {
        glass_alpha
    }
}

/// One channel moved towards white by so many percent, rounded.
pub open spec fn lightened(c: u8, percent: int) -> int {
    (c * (100 - percent) + 255 * percent + 50) / 100
}

fn lighten(c: u8, percent: u32) -> (r: u8)
    requires
        percent <= 100,
    ensures
        r == lightened(c, percent as int),
        r >= c,
{
    assert(0 <= c * (100 - percent) <= 255 * (100 - percent)) by (nonlinear_arith)
        requires
            percent <= 100,
            c <= 255,
    ;
    assert(c * (100 - percent) + 255 * percent >= 100 * c) by (nonlinear_arith)
        requires
            percent <= 100,
            c <= 255,
    ;
    (((c as u32) * (100 - percent) + 255 * percent + 50) / 100) as u8
}

/// A colour moved towards white by so many percent; more than a hundred counts
/// as a hundred. A grey stays a grey.
pub fn brighten(rgb: [u8; 3], percent: u32) -> (r: [u8; 3])
    ensures
        ({
            let p = min_of(percent as int, 100);
            &&& r[0] == lightened(rgb[0], p)
            &&& r[1] == lightened(rgb[1], p)
            &&& r[2] == lightened(rgb[2], p)
        }),
{
    let p: u32 = if percent > 100 {
        100
    } else {
        percent
    };
    [lighten(rgb[0], p), lighten(rgb[1], p), lighten(rgb[2], p)]
}

/// The tint of a panel: a label is moved towards white, the rest follows the
/// dock.
pub fn panel_tint(content: &PanelContent, glass_rgb: [u8; 3]) -> (r: [u8; 3])
    ensures
        content is Label ==> forall|i: int|
            0 <= i < 3 ==> (#[trigger] r[i]) == lightened(glass_rgb[i], LABEL_BRIGHTEN as int),
        !(content is Label) ==> r == glass_rgb,
{
    match content {
        PanelContent::Label { .. } => brighten(glass_rgb, LABEL_BRIGHTEN),
        _ => glass_rgb,
    }
}

// ---------------------------------------------------------------- one layer

/// What a layer has open.
#[derive(Debug)]
pub struct Open {
    /// The entry that it belongs to.
    pub target_id: String,
    /// The number of the presentation.
    pub seq: u64,
    pub content: PanelContent,
}

/// The state of one layer.
#[derive(Debug)]
pub struct Slot {
    /// Its window; 0 where there is none.
    pub hwnd: u64,
    pub visible: bool,
    /// How often it was hidden.
    pub gen: u64,
    /// The number of the last presentation.
    pub seq: u64,
    /// What it has open.
    pub cur: Option<Open>,
    /// What is laid out and waits for its page to be drawn.
    pub pending: Option<(u64, Rect)>,
}

/// What the window system has to do to show a layer.
#[derive(Debug, Clone, Copy, PartialEq, Eq, Structural)]
pub struct Shown {
    pub rect: Rect,
    /// It was not visible before: hiding the dock has to be suspended and the
    /// watch over clicks has to run.
    pub newly: bool,
}

/// A layer after it was hidden.
pub open spec fn slot_hidden(s: Slot) -> Slot {
    Slot {
        hwnd: s.hwnd,
        visible: false,
        gen: s.gen.wrapping_add(1),
        seq: s.seq,
        cur: None,
        pending: None,
    }
}

/// A layer before and after a presentation is laid out: it waits under the next
/// number, and what is visible stays.
pub open spec fn slot_laid_out(
    before: Slot,
    after: Slot,
    id: Seq<char>,
    content: PanelContent,
    rect: Rect,
) -> bool {
    &&& after.seq == before.seq.wrapping_add(1)
    &&& after.hwnd == before.hwnd && after.visible == before.visible && after.gen == before.gen
    &&& after.pending == Some((after.seq, rect))
    &&& after.cur is Some
    &&& after.cur->0.target_id@ == id
    &&& after.cur->0.seq == after.seq
    &&& after.cur->0.content == content
}

/// A layer after its page reported that presentation `seq` is drawn, and what is
/// shown for it.
pub open spec fn slot_ready(s: Slot, seq: u64) -> (Slot, Option<Shown>) {
    match s.pending {
        Some((n, rect)) => if n == seq {
            if s.hwnd == 0 {
                (Slot { pending: None, ..s }, None)
            } else {
                (
                    Slot { pending: None, visible: true, ..s },
                    Some(Shown { rect, newly: !s.visible }),
                )
            }
        } else {
            (s, None)
        },
        None => (s, None),
    }
}

/// The layer is visible and belongs to that entry.
pub open spec fn open_for(s: Slot, id: Seq<char>) -> bool {
    s.visible && s.cur is Some && s.cur->0.target_id@ == id
}

/// The layer holds a label.
pub open spec fn holds_label(s: Slot) -> bool {
    s.cur is Some && s.cur->0.content is Label
}

/// The layer shows the menu of that entry.
pub open spec fn menu_open_for(s: Slot, id: Seq<char>) -> bool {
    open_for(s, id) && s.cur->0.content is Menu
}

impl Slot {
    /// A layer without a window.
    pub fn new() -> (r: Self)
        ensures
            r.hwnd == 0 && !r.visible && r.gen == 0 && r.seq == 0,
            r.cur is None,
            r.pending is None,
    {
        Slot { hwnd: 0, visible: false, gen: 0, seq: 0, cur: None, pending: None }
    }

    /// Hides the layer. Gives whether it was visible, and so whether its window
    /// has to be hidden and the suspension given back.
    pub fn dismiss(&mut self) -> (r: bool)
        ensures
            *final(self) == slot_hidden(*old(self)),
            r == old(self).visible,
    {
        let was = self.visible;
        self.pending = None;
        self.cur = None;
        self.visible = false;
        self.gen = self.gen.wrapping_add(1);
        was
    }

    /// Whether the layer can be presented above a window.
    pub fn check_present(&self, label: &str, window_exists: bool, base: u64) -> (r: Result<
        (),
        String,
    >)
        ensures
            if !window_exists {
                r is Err && r->Err_0@ == "浮层窗口 "@ + label@ + " 不存在（启动时创建失败？）"@
            } else if self.hwnd == 0 {
                r is Err && r->Err_0@ == "浮层窗口句柄无效"@
            } else if base == 0 {
                r is Err && r->Err_0@ == "浮层要贴的那个窗口句柄无效"@
            } else {
                r is Ok
            },
    {
        if !window_exists {
            Err(text::concat3("浮层窗口 ", label, " 不存在（启动时创建失败？）"))
        } else if self.hwnd == 0 {
            Err("浮层窗口句柄无效".to_owned())
        } else if base == 0 {
            Err("浮层要贴的那个窗口句柄无效".to_owned())
        } else {
            Ok(())
        }
    }

    /// Lays out a presentation, to be shown when its page is drawn. Gives its
    /// number.
    pub fn present(&mut self, target_id: &str, content: PanelContent, rect: Rect) -> (r: u64)
        ensures
            slot_laid_out(*old(self), *final(self), target_id@, content, rect),
            r == final(self).seq,
    {
        let seq: u64 = self.seq.wrapping_add(1);
        self.seq = seq;
        self.cur = Some(Open { target_id: target_id.to_owned(), seq, content });
        self.pending = Some((seq, rect));
        seq
    }

    /// Takes a presentation back whose page could not be told.
    pub fn abandon(&mut self)
        ensures
            *final(self) == (Slot { cur: None, pending: None, ..*old(self) }),
    {
        self.pending = None;
        self.cur = None;
    }

    /// Takes what waits under a number.
    pub fn take_pending(&mut self, seq: u64) -> (r: Option<Rect>)
        ensures
            match old(self).pending {
                Some((n, rect)) => if n == seq {
                    r == Some(rect) && *final(self) == (Slot { pending: None, ..*old(self) })
                } else {
                    r is None && *final(self) == *old(self)
                },
                None => r is None && *final(self) == *old(self),
            },
    {
        match self.pending {
            Some((n, rect)) => if n == seq {
                self.pending = None;
                Some(rect)
            } else {
                None
            },
            None => None,
        }
    }

    /// Reports that the page of a presentation is drawn, or that it was waited
    /// for long enough. Only what waits under that number is shown.
    pub fn ready(&mut self, seq: u64) -> (r: Option<Shown>)
        ensures
            (*final(self), r) == slot_ready(*old(self), seq),
    {
        match self.take_pending(seq) {
            None => None,
            Some(rect) => {
                if self.hwnd == 0 {
                    return None;
                }
                let newly = !self.visible;
                self.visible = true;
                Some(Shown { rect, newly })
            },
        }
    }

    /// Hides the layer where it is visible and belongs to that entry. Gives
    /// whether it did.
    pub fn toggle_off_if_same(&mut self, id: &str) -> (r: bool)
        ensures
            r == open_for(*old(self), id@),
            *final(self) == if open_for(*old(self), id@) {
                slot_hidden(*old(self))
            } else {
                *old(self)
            },
    {
        if !self.visible {
            return false;
        }
        let same = match &self.cur {
            Some(o) => text::same(o.target_id.as_str(), id),
            None => false,
        };
        if same {
            let _ = self.dismiss();
        }
        same
    }

    /// Whether the layer shows the menu of that entry. A label does not count.
    pub fn same_menu_open(&self, id: &str) -> (r: bool)
        ensures
            r == menu_open_for(*self, id@),
    {
        if !self.visible {
            return false;
        }
        match &self.cur {
            Some(o) => match &o.content {
                PanelContent::Menu { .. } => text::same(o.target_id.as_str(), id),
                _ => false,
            },
            None => false,
        }
    }

    /// Whether the layer holds a label.
    pub fn has_label(&self) -> (r: bool)
        ensures
            r == holds_label(*self),
    {
        match &self.cur {
            Some(o) => match &o.content {
                PanelContent::Label { .. } => true,
                _ => false,
            },
            None => false,
        }
    }

    /// The entry that the layer belongs to.
    pub fn current_target_id(&self) -> (r: Option<String>)
        ensures
            opt_view(r) == match self.cur {
                Some(o) => Some(o.target_id@),
                None => None,
            },
    {
        match &self.cur {
            Some(o) => Some(o.target_id.clone()),
            None => None,
        }
    }

    /// The items of the menu that the layer holds.
    pub fn current_menu_items(&self) -> (r: Option<Vec<MenuItem>>)
        ensures
            self.cur is Some && self.cur->0.content is Menu ==> r is Some && r->0@
                == self.cur->0.content->items@,
            !(self.cur is Some && self.cur->0.content is Menu) ==> r is None,
    {
        match &self.cur {
            Some(o) => match &o.content {
                PanelContent::Menu { items } => {
                    let mut v: Vec<MenuItem> = Vec::new();
                    let mut i: usize = 0;
                    while i < items.len()
                        invariant
                            i <= items@.len(),
                            v@.len() == i,
                            forall|k: int| 0 <= k < i ==> v@[k] == items@[k],
                        decreases items@.len() - i,
                    {
                        v.push(items[i].clone());
                        i += 1;
                    }
                    assert(v@ =~= items@);
                    Some(v)
                },
                _ => None,
            },
            None => None,
        }
    }

    /// The cells of the folder that the layer holds.
    pub fn current_folder_items(&self) -> (r: Option<Vec<FolderItem>>)
        ensures
            self.cur is Some && self.cur->0.content is Folder ==> r is Some && r->0@
                == self.cur->0.content->cells@,
            !(self.cur is Some && self.cur->0.content is Folder) ==> r is None,
    {
        match &self.cur {
            Some(o) => match &o.content {
                PanelContent::Folder { title: _, cells } => {
                    let mut v: Vec<FolderItem> = Vec::new();
                    let mut i: usize = 0;
                    while i < cells.len()
                        invariant
                            i <= cells@.len(),
                            v@.len() == i,
                            forall|k: int| 0 <= k < i ==> v@[k] == cells@[k],
                        decreases cells@.len() - i,
                    {
                        v.push(cells[i].clone());
                        i += 1;
                    }
                    assert(v@ =~= cells@);
                    Some(v)
                },
                _ => None,
            },
            None => None,
        }
    }
}

/// Hiding twice changes only how often the layer was hidden, and once hidden no
/// late report of a page brings it back.
pub proof fn law_hidden_stays_hidden(s: Slot, seq: u64)
    ensures
        slot_hidden(slot_hidden(s)) == (Slot {
            gen: slot_hidden(s).gen.wrapping_add(1),
            ..slot_hidden(s)
        }),
        slot_ready(slot_hidden(s), seq) == (slot_hidden(s), None::<Shown>),
{
}

/// A report shows only the presentation that waits under its number, and shows
/// it once.
pub proof fn law_shown_once(s: Slot, seq: u64)
    ensures
        slot_ready(s, seq).1 is Some ==> s.pending is Some && (s.pending->0).0 == seq
            && slot_ready(s, seq).1->0.rect == (s.pending->0).1,
        slot_ready(slot_ready(s, seq).0, seq).1 is None,
{
}

// ---------------------------------------------------------------- both layers

/// One of the two layers.
#[derive(Debug, Clone, Copy, PartialEq, Eq, Structural)]
pub enum Layer {
    Folder,
    /// Above the folder; it holds menus and labels.
    Menu,
}

/// Both layers.
#[derive(Debug)]
pub struct Panels {
    pub folder: Slot,
    pub menu: Slot,
}

/// The layer that closes first.
pub open spec fn top_layer(p: Panels) -> Option<Layer> {
    if p.menu.visible {
        Some(Layer::Menu)
    } else if p.folder.visible {
        Some(Layer::Folder)
    } else {
        None
    }
}

/// How many layers are visible.
pub open spec fn visible_layers(p: Panels) -> int {
    (if p.menu.visible {
        1int
    } else {
        0
    }) + (if p.folder.visible {
        1int
    } else {
        0
    })
}

/// The layer of a window.
pub fn slot_for_label(label: &str) -> (r: Option<Layer>)
    ensures
        label@ == "panel"@ ==> r == Some(Layer::Folder),
        label@ == "menu"@ ==> r == Some(Layer::Menu),
        label@ != "panel"@ && label@ != "menu"@ ==> r is None,
{
    proof {
        reveal_strlit("panel");
        reveal_strlit("menu");
        assert("panel"@.len() == 5);
        assert("menu"@.len() == 4);
    }
    if text::same(label, "panel") {
        Some(Layer::Folder)
    } else if text::same(label, "menu") {
        Some(Layer::Menu)
    } else {
        None
    }
}

/// What showing a label comes to.
#[derive(Debug, Clone, Copy, PartialEq, Eq, Structural)]
pub enum LabelStep {
    /// A menu is open in the same window.
    Refused,
    /// It is shown already.
    AlreadyShown,
    /// To be presented above this window.
    Present(u64),
}

/// What showing a menu comes to.
#[derive(Debug)]
pub enum MenuStep {
    /// The same menu was open and is closed now.
    Closed,
    /// To be presented with these items.
    Present(Vec<MenuItem>),
}

/// What showing a folder comes to.
#[derive(Debug)]
pub enum FolderStep {
    /// The same folder was open and is closed now.
    Closed,
    /// To be presented with these cells.
    Present(Vec<FolderItem>),
}

/// Which windows have to be hidden; for each, one suspension is given back.
#[derive(Debug, Clone, Copy, PartialEq, Eq, Structural)]
pub struct Hidden {
    pub folder: bool,
    pub menu: bool,
}

/// How many windows have to be hidden.
pub open spec fn hidden_count(h: Hidden) -> int {
    (if h.folder {
        1int
    } else {
        0
    }) + (if h.menu {
        1int
    } else {
        0
    })
}

impl Panels {
    /// Both layers without windows.
    pub fn new() -> (r: Self)
        ensures
            visible_layers(r) == 0,
            r.menu.cur is None && r.folder.cur is None,
            r.menu.pending is None && r.folder.pending is None,
            r.menu.hwnd == 0 && r.folder.hwnd == 0,
    {
        Panels { folder: Slot::new(), menu: Slot::new() }
    }

    /// The layer that closes first: the menu, then the folder.
    pub fn top_slot(&self) -> (r: Option<Layer>)
        ensures
            r == top_layer(*self),
    {
        if self.menu.visible {
            Some(Layer::Menu)
        } else if self.folder.visible {
            Some(Layer::Folder)
        } else {
            None
        }
    }

    /// Hides one layer. Gives whether it was visible.
    pub fn dismiss(&mut self, layer: Layer) -> (r: bool)
        ensures
            layer is Menu ==> r == old(self).menu.visible && *final(self) == (Panels {
                menu: slot_hidden(old(self).menu),
                ..*old(self)
            }),
            layer is Folder ==> r == old(self).folder.visible && *final(self) == (Panels {
                folder: slot_hidden(old(self).folder),
                ..*old(self)
            }),
            visible_layers(*old(self)) - visible_layers(*final(self)) == if r {
                1int
            } else {
                0
            },
    {
        match layer {
            Layer::Menu => self.menu.dismiss(),
            Layer::Folder => self.folder.dismiss(),
        }
    }

    /// Hides both layers.
    pub fn hide_all(&mut self) -> (r: Hidden)
        ensures
            final(self).menu == slot_hidden(old(self).menu),
            final(self).folder == slot_hidden(old(self).folder),
            r == (Hidden { folder: old(self).folder.visible, menu: old(self).menu.visible }),
            visible_layers(*final(self)) == 0,
            hidden_count(r) == visible_layers(*old(self)),
    {
        let menu = self.menu.dismiss();
        let folder = self.folder.dismiss();
        Hidden { folder, menu }
    }

    /// Reports that the page of a presentation is drawn.
    pub fn ready(&mut self, layer: Layer, seq: u64) -> (r: Option<Shown>)
        ensures
            layer is Menu ==> (final(self).menu, r) == slot_ready(old(self).menu, seq)
                && final(self).folder == old(self).folder,
            layer is Folder ==> (final(self).folder, r) == slot_ready(old(self).folder, seq)
                && final(self).menu == old(self).menu,
            visible_layers(*final(self)) - visible_layers(*old(self)) == if r is Some && r->0.newly {
                1int
            } else {
                0
            },
    {
        match layer {
            Layer::Menu => self.menu.ready(seq),
            Layer::Folder => self.folder.ready(seq),
        }
    }

    /// What showing a label for an entry comes to. It is refused while a menu is
    /// open, and goes above the folder where the entry is inside one.
    pub fn show_label(&self, dock: u64, target_id: &str, above_folder: bool) -> (r: LabelStep)
        ensures
            r == if self.menu.visible && self.menu.cur is Some && !holds_label(self.menu) {
                LabelStep::Refused
            } else if open_for(self.menu, target_id@) {
                LabelStep::AlreadyShown
            } else if above_folder && self.folder.hwnd != 0 {
                LabelStep::Present(self.folder.hwnd)
            } else {
                LabelStep::Present(dock)
            },
    {
        if self.menu.visible {
            match &self.menu.cur {
                Some(o) => {
                    if !self.menu.has_label() {
                        return LabelStep::Refused;
                    }
                    if text::same(o.target_id.as_str(), target_id) {
                        return LabelStep::AlreadyShown;
                    }
                },
                None => {},
            }
        }
        if above_folder && self.folder.hwnd != 0 {
            LabelStep::Present(self.folder.hwnd)
        } else {
            LabelStep::Present(dock)
        }
    }

    /// Hides the label, and leaves a menu alone. Gives whether a window has to
    /// be hidden.
    pub fn hide_label(&mut self) -> (r: bool)
        ensures
            final(self).folder == old(self).folder,
            holds_label(old(self).menu) ==> r == old(self).menu.visible && final(self).menu
                == slot_hidden(old(self).menu),
            !holds_label(old(self).menu) ==> !r && final(self).menu == old(self).menu,
            visible_layers(*old(self)) - visible_layers(*final(self)) == if r {
                1int
            } else {
                0
            },
    {
        if self.menu.has_label() {
            self.menu.dismiss()
        } else {
            false
        }
    }

    /// What showing the menu of an entry comes to. Asking for the menu that is
    /// open closes it; a folder closes unless it is kept.
    pub fn show_menu(&mut self, target: &Target, keep_folder: bool) -> (r: (MenuStep, Hidden))
        ensures
            final(self).folder == if keep_folder {
                old(self).folder
            } else {
                slot_hidden(old(self).folder)
            },
            r.1.folder == (!keep_folder && old(self).folder.visible),
            menu_open_for(old(self).menu, target.app_id@) ==> {
                &&& r.0 is Closed
                &&& r.1.menu
                &&& final(self).menu == slot_hidden(old(self).menu)
            },
            !menu_open_for(old(self).menu, target.app_id@) ==> {
                &&& r.0 is Present
                &&& item_views(r.0->Present_0@) == menu::menu_of(*target)
                &&& r.0->Present_0@.len() > 0
                &&& !r.1.menu
                &&& final(self).menu == old(self).menu
            },
            visible_layers(*old(self)) - visible_layers(*final(self)) == hidden_count(r.1),
    {
        let mut folder = false;
        if !keep_folder {
            folder = self.folder.dismiss();
        }
        if self.menu.same_menu_open(target.app_id.as_str()) {
            let menu = self.menu.dismiss();
            return (MenuStep::Closed, Hidden { folder, menu });
        }
        let items = menu::build(target);
        assert(item_views(items@).len() == items@.len());
        (MenuStep::Present(items), Hidden { folder, menu: false })
    }

    /// What showing a folder comes to, leaving the menu alone. Asking for the
    /// folder that is open closes it; one without cells is refused.
    pub fn show_folder_keep_menu(&mut self, folder_id: &str, children: &Vec<AppEntry>) -> (r: Result<
        FolderStep,
        String,
    >)
        ensures
            final(self).menu == old(self).menu,
            cells_of(app_views(children@)).len() == 0 ==> {
                &&& r is Err
                &&& r->Err_0@ == "这个文件夹是空的"@
                &&& final(self).folder == old(self).folder
            },
            cells_of(app_views(children@)).len() > 0 && open_for(
                old(self).folder,
                folder_id@,
            ) ==> {
                &&& r is Ok && r->Ok_0 is Closed
                &&& final(self).folder == slot_hidden(old(self).folder)
            },
            cells_of(app_views(children@)).len() > 0 && !open_for(
                old(self).folder,
                folder_id@,
            ) ==> {
                &&& r is Ok && r->Ok_0 is Present
                &&& cell_views(r->Ok_0->Present_0@) == cells_of(app_views(children@))
                &&& final(self).folder == old(self).folder
            },
    {
        match self.refresh_folder(children) {
            Err(why) => Err(why),
            Ok(step) => {
                if self.folder.toggle_off_if_same(folder_id) {
                    Ok(FolderStep::Closed)
                } else {
                    Ok(step)
                }
            },
        }
    }

    /// What refreshing the open folder in place comes to, once its entries
    /// changed: its cells are presented anew and nothing closes. One without
    /// cells is refused.
    pub fn refresh_folder(&self, children: &Vec<AppEntry>) -> (r: Result<FolderStep, String>)
        ensures
            cells_of(app_views(children@)).len() == 0 ==> r is Err && r->Err_0@
                == "这个文件夹是空的"@,
            cells_of(app_views(children@)).len() > 0 ==> {
                &&& r is Ok && r->Ok_0 is Present
                &&& cell_views(r->Ok_0->Present_0@) == cells_of(app_views(children@))
            },
    {
        let items = folder_items(children);
        assert(cell_views(items@).len() == items@.len());
        if items.len() == 0 {
            return Err("这个文件夹是空的".to_owned());
        }
        Ok(FolderStep::Present(items))
    }

    /// What showing a folder comes to. A menu closes first. Gives as well
    /// whether the menu's window has to be hidden.
    pub fn show_folder(&mut self, folder_id: &str, children: &Vec<AppEntry>) -> (r: (
        Result<FolderStep, String>,
        bool,
    ))
        ensures
            r.1 == old(self).menu.visible,
            final(self).menu == slot_hidden(old(self).menu),
            cells_of(app_views(children@)).len() == 0 ==> {
                &&& r.0 is Err
                &&& r.0->Err_0@ == "这个文件夹是空的"@
                &&& final(self).folder == old(self).folder
            },
            cells_of(app_views(children@)).len() > 0 && open_for(
                old(self).folder,
                folder_id@,
            ) ==> {
                &&& r.0 is Ok && r.0->Ok_0 is Closed
                &&& final(self).folder == slot_hidden(old(self).folder)
            },
            cells_of(app_views(children@)).len() > 0 && !open_for(
                old(self).folder,
                folder_id@,
            ) ==> {
                &&& r.0 is Ok && r.0->Ok_0 is Present
                &&& cell_views(r.0->Ok_0->Present_0@) == cells_of(app_views(children@))
                &&& final(self).folder == old(self).folder
            },
    {
        let hidden = self.menu.dismiss();
        (self.show_folder_keep_menu(folder_id, children), hidden)
    }

    /// Whether a label is visible.
    pub fn label_visible(&self) -> (r: bool)
        ensures
            r == (self.menu.visible && holds_label(self.menu)),
    {
        self.menu.visible && self.menu.has_label()
    }
}

/// A folder that is refreshed stays open: while the new presentation waits for
/// its page, and once it is drawn. It is shown at its new place, and nothing has
/// to be suspended again.
pub proof fn law_refreshed_folder_stays_open(
    before: Slot,
    after: Slot,
    id: Seq<char>,
    content: PanelContent,
    rect: Rect,
)
    requires
        open_for(before, id),
        slot_laid_out(before, after, id, content, rect),
    ensures
        open_for(after, id),
        ({
            let (s, shown) = slot_ready(after, after.seq);
            &&& open_for(s, id)
            &&& s.cur->0.content == content
            &&& s.gen == before.gen
            &&& before.hwnd != 0 ==> shown == Some(Shown { rect, newly: false })
        }),
{
}

// ---------------------------------------------------------------- clicks and keys

/// A key or a mouse button.
#[derive(Debug, Clone, Copy, PartialEq, Eq, Structural)]
pub struct KeyState {
    /// It is down.
    pub down: bool,
    /// It was pressed since the last query.
    pub pressed_since: bool,
}

impl KeyState {
    /// The state out of the bits of a query: the highest says that it is down,
    /// the lowest that it was pressed since.
    pub fn from_bits(bits: u16) -> (r: Self)
        ensures
            r.down == (bits & 0x8000 != 0),
            r.pressed_since == (bits & 0x0001 != 0),
    {
        KeyState { down: bits & 0x8000 != 0, pressed_since: bits & 0x0001 != 0 }
    }

    /// It was just pressed, where it was down or not at the last query.
    pub open spec fn is_fresh(self, prev_down: bool) -> bool {
        self.pressed_since || (self.down && !prev_down)
    }

    /// Whether it was just pressed. A press that is shorter than the interval
    /// between two queries counts too.
    pub fn fresh(&self, prev_down: bool) -> (r: bool)
        ensures
            r == self.is_fresh(prev_down),
    {
        self.pressed_since || (self.down && !prev_down)
    }
}

/// What one look at the buttons comes to.
#[derive(Debug, Clone, Copy, PartialEq, Eq, Structural)]
pub enum WatchStep {
    /// No layer is visible: the watch ends.
    Retire,
    /// This layer closes.
    Close(Layer),
    Nothing,
}

/// The buttons at one query.
#[derive(Debug, Clone, Copy, PartialEq, Eq, Structural)]
pub struct Buttons {
    pub left: KeyState,
    pub right: KeyState,
    pub escape: KeyState,
}

/// Where the visible things are at one query.
#[derive(Debug, Clone, Copy, PartialEq, Eq, Structural)]
pub struct Scene {
    pub folder: Rect,
    pub menu: Rect,
    /// The dock, where it has a window.
    pub dock: Option<Rect>,
    pub cursor: Point,
}

/// The cursor is on a visible layer or on the dock.
pub open spec fn on_surface(p: Panels, s: Scene) -> bool {
    ||| p.folder.visible && s.folder.holds(s.cursor)
    ||| p.menu.visible && s.menu.holds(s.cursor)
    ||| s.dock is Some && s.dock->0.holds(s.cursor)
}

/// What a look at the buttons comes to: the escape key, or a click elsewhere,
/// closes the layer at the top and no other.
pub open spec fn watched(p: Panels, now: Buttons, before: Buttons, s: Scene) -> WatchStep {
    match top_layer(p) {
        None => WatchStep::Retire,
        Some(top) => if now.escape.is_fresh(before.escape.down) {
            WatchStep::Close(top)
        } else if (now.left.is_fresh(before.left.down) || now.right.is_fresh(before.right.down))
            && !on_surface(p, s) {
            WatchStep::Close(top)
        } else {
            WatchStep::Nothing
        },
    }
}

/// What a look at the buttons comes to.
pub fn watch(p: &Panels, now: &Buttons, before: &Buttons, s: &Scene) -> (r: WatchStep)
    ensures
        r == watched(*p, *now, *before, *s),
{
    match p.top_slot() {
        None => WatchStep::Retire,
        Some(top) => {
            if now.escape.fresh(before.escape.down) {
                return WatchStep::Close(top);
            }
            if now.left.fresh(before.left.down) || now.right.fresh(before.right.down) {
                let in_panel = (p.folder.visible && point_in(&s.folder, s.cursor)) || (
                p.menu.visible && point_in(&s.menu, s.cursor));
                let in_dock = match &s.dock {
                    Some(d) => point_in(d, s.cursor),
                    None => false,
                };
                if !in_panel && !in_dock {
                    return WatchStep::Close(top);
                }
            }
            WatchStep::Nothing
        },
    }
}

/// Layers close one at a time: with a menu above a folder, the first click
/// elsewhere closes the menu and leaves the folder, the next one the folder.
pub proof fn law_layers_close_in_order(p: Panels, now: Buttons, before: Buttons, s: Scene)
    requires
        p.menu.visible,
        p.folder.visible,
        watched(p, now, before, s) is Close,
    ensures
        watched(p, now, before, s) == WatchStep::Close(Layer::Menu),
        top_layer(Panels { menu: slot_hidden(p.menu), ..p }) == Some(Layer::Folder),
{
}

// ---------------------------------------------------------------- what panels are for

/// A folder shows a cell for each entry that is no separator, in their order,
/// with its identity, its name, its target and whether it runs.
pub proof fn law_a_cell_for_each_entry(children: Seq<AppView>, c: AppView)
    ensures
        cells_of(Seq::empty()).len() == 0,
        c.separator ==> cells_of(children.push(c)) == cells_of(children),
        !c.separator ==> {
            let l = cells_of(children.push(c));
            let n = cells_of(children).len() as int;
            &&& l.len() == n + 1
            &&& l.drop_last() == cells_of(children)
            &&& l[n].id == c.id && l[n].label == c.display_name
            &&& l[n].target == c.target && l[n].running == c.running
        },
{
    assert(children.push(c).drop_last() =~= children);
    if !c.separator {
        assert(cells_of(children.push(c)).drop_last() =~= cells_of(children));
    }
}

/// A menu is as high as its items together, twenty-six pixels each and nine for
/// a line, and ten pixels more.
pub proof fn law_menu_height(items: Seq<ItemView>, i: ItemView, v: Vec<MenuItem>, r: u32)
    requires
        call_ensures(menu_height, (&v,), r),
    ensures
        menu_rows(Seq::empty()) == 0,
        menu_rows(items.push(i)) == menu_rows(items) + if i.divider {
            9int
        } else {
            26int
        },
        r == menu_rows(item_views(v@)) + 10,
{
    assert(items.push(i).drop_last() =~= items);
}

/// A cell is fourteen pixels larger than an icon, and between 40 and 72 pixels.
/// There are rows enough for the cells and no row too many; at most five, and no
/// more than fit above the dock, but always one.
pub proof fn law_folder_rows(icon_size: u32, n: nat, height: int, dpi: u32, panel_height: u32)
    requires
        dpi > 0,
    ensures
        40 <= cell_side(icon_size) <= 72,
        26 <= icon_size <= 58 ==> cell_side(icon_size) == icon_size + 14,
        rows_wanted(n) * 4 >= n,
        n > 0 ==> (rows_wanted(n) - 1) * 4 < n,
        n == 0 ==> rows_wanted(n) == 1,
        1 <= rows_that_fit(icon_size, height, dpi, panel_height) <= 5,
        ({
            let k = rows_that_fit(icon_size, height, dpi, panel_height);
            let step = dpi * (cell_side(icon_size) + 6);
            let room = height * 96 - (panel_height + 50) * dpi;
            &&& k > 1 ==> k * step <= room
            &&& k < 5 ==> room < (k + 1) * step
        }),
{
    let step = dpi * (cell_side(icon_size) + 6);
    let room = height * 96 - (panel_height + 50) * dpi;
    let k = rows_that_fit(icon_size, height, dpi, panel_height);
    assert(step > 0) by (nonlinear_arith)
        requires
            dpi > 0,
            cell_side(icon_size) + 6 > 0,
            step == dpi * (cell_side(icon_size) + 6),
    ;
    let q = room / step;
    assert(q * step <= room < (q + 1) * step) by (nonlinear_arith)
        requires
            step > 0,
            q == room / step,
    ;
    if k > 1 {
        assert(k * step <= q * step) by (nonlinear_arith)
            requires
                k <= q,
                step > 0,
        ;
    }
    if k < 5 {
        assert((q + 1) * step <= (k + 1) * step) by (nonlinear_arith)
            requires
                q <= k,
                step > 0,
        ;
    }
}

/// A folder is four cells wide with the gaps and the padding, and as high as its
/// rows with theirs.
pub proof fn law_folder_size(
    icon_size: u32,
    n: usize,
    area: Rect,
    dpi: u32,
    panel_height: u32,
    r: (u32, u32),
)
    requires
        call_ensures(folder_size, (icon_size, n, &area, dpi, panel_height), r),
    ensures
        r.0 == 4 * cell_side(icon_size) + 42,
        exists|rows: int|
            1 <= rows <= rows_wanted(n as nat) && rows <= rows_that_fit(
                icon_size,
                area.bottom - area.top,
                dpi,
                panel_height,
            ) && (rows == rows_wanted(n as nat) || rows == rows_that_fit(
                icon_size,
                area.bottom - area.top,
                dpi,
                panel_height,
            )) && r.1 == #[trigger] (rows * (cell_side(icon_size) + 6)) + 18,
{
    let rows = min_of(
        rows_wanted(n as nat),
        rows_that_fit(icon_size, area.bottom - area.top, dpi, panel_height),
    );
    assert(rows * (cell_side(icon_size) + 6) == rows * cell_side(icon_size) + rows * 6)
        by (nonlinear_arith);
    assert((rows - 1) * FOLDER_GAP == rows * 6 - 6) by (nonlinear_arith)
        requires
            FOLDER_GAP == 6,
    ;
    assert(r.1 == (rows * (cell_side(icon_size) + 6)) + 18);
}

/// A label is as wide as its characters together, thirteen pixels for each that
/// is written in full width and seven and a half for any other, with ten pixels
/// on each side, and twenty-three pixels high.
pub proof fn law_label_size(s: Seq<char>, c: char, text: &str, r: (u64, u32))
    requires
        call_ensures(label_size, (text,), r),
    ensures
        label_text_width(Seq::empty()) == 0,
        label_text_width(s.push(c)) == label_text_width(s) + if (c as u32) >= 0x2e80 {
            1300nat
        } else {
            754nat
        },
        r.0 == label_text_width(text@) + 2000,
        r.1 == 23,
{
    assert(s.push(c).drop_last() =~= s);
}

/// A panel stands with its middle under its anchor where the work area has room
/// for that, else as near to that as it has. It stands above its base with the
/// gap between, where there is room, else below it or at the lower end.
pub proof fn law_placed_at_its_anchor(
    base: Rect,
    anchor_x: i32,
    area: Rect,
    gap: i32,
    w: i32,
    h: i32,
)
    requires
        0 <= w,
    ensures
        ({
            let (x, y) = placed(base, anchor_x, area, gap, w, h);
            let wish = anchor_x - w / 2;
            &&& area.left + 4 <= wish && wish + w <= area.right - 4 ==> x == wish
            &&& wish < area.left + 4 ==> x == area.left + 4
            &&& wish + w > area.right - 4 && area.left + 4 <= area.right - w - 4 ==> x + w
                == area.right - 4
            &&& area.right - w - 4 < area.left + 4 ==> x == area.left + 4
            &&& base.top - h - gap >= area.top + 4 ==> y == base.top - h - gap
            &&& base.top - h - gap < area.top + 4 && base.bottom + gap + h <= area.bottom - 4 ==> y
                == base.bottom + gap
            &&& base.top - h - gap < area.top + 4 ==> y <= base.bottom + gap
        }),
{
}

/// The opacity of a panel is that of the dock, as far as it is between 150 and
/// 200.
pub proof fn law_panel_alpha(a: u8, r: u8)
    requires
        call_ensures(panel_alpha, (a,), r),
    ensures
        150 <= r <= 200,
        150 <= a <= 200 ==> r == a,
        a < 150 ==> r == 150,
        a > 200 ==> r == 200,
{
}

/// A channel that is moved towards white lies between itself and white: so much
/// nearer to white as was asked for, up to rounding. Nothing moves by nothing,
/// everything becomes white by a hundred percent, and the order of two channels
/// stays.
pub proof fn law_lightened(c: u8, d: u8, percent: int)
    requires
        0 <= percent <= 100,
    ensures
        c <= lightened(c, percent) <= 255,
        -50 <= 100 * (lightened(c, percent) - c) - (255 - c) * percent <= 50,
        lightened(c, 0) == c,
        lightened(c, 100) == 255,
        c <= d ==> lightened(c, percent) <= lightened(d, percent),
{
    let a: int = (255 - c) * percent;
    let n: int = c * (100 - percent) + 255 * percent;
    let m: int = d * (100 - percent) + 255 * percent;
    assert(0 <= a <= (255 - c) * 100) by (nonlinear_arith)
        requires
            a == (255 - c) * percent,
            0 <= percent <= 100,
            0 <= c <= 255,
    ;
    assert(n == 100 * c + a) by (nonlinear_arith)
        requires
            n == c * (100 - percent) + 255 * percent,
            a == (255 - c) * percent,
    ;
    assert(c <= d ==> n <= m) by (nonlinear_arith)
        requires
            n == c * (100 - percent) + 255 * percent,
            m == d * (100 - percent) + 255 * percent,
            percent <= 100,
    ;
    assert(lightened(c, percent) == (n + 50) / 100);
    assert(lightened(d, percent) == (m + 50) / 100);
    assert(c * (100 - 0) + 255 * 0 == 100 * c && c * (100 - 100) + 255 * 100 == 25500)
        by (nonlinear_arith);
}

/// The tint of a label is that of the dock moved sixty-two percent towards white
/// in each channel; any other panel has the tint of the dock.
pub proof fn law_panel_tint(content: PanelContent, rgb: [u8; 3], r: [u8; 3], i: int)
    requires
        call_ensures(panel_tint, (&content, rgb), r),
        0 <= i < 3,
    ensures
        content is Label ==> r[i] == lightened(rgb[i], 62),
        !(content is Label) ==> r[i] == rgb[i],
{
}

/// A hidden layer shows nothing and waits for nothing; it keeps its window and
/// the number of its last presentation, and counts that it was hidden.
pub proof fn law_hidden(s: Slot)
    ensures
        !slot_hidden(s).visible,
        slot_hidden(s).cur is None,
        slot_hidden(s).pending is None,
        slot_hidden(s).hwnd == s.hwnd,
        slot_hidden(s).seq == s.seq,
        s.gen < u64::MAX ==> slot_hidden(s).gen == s.gen + 1,
{
}

/// A page that is drawn makes its layer visible where its presentation waits and
/// there is a window: at the place that was laid out, and as new exactly where
/// the layer was not visible. Any other report changes nothing that is shown.
pub proof fn law_ready_shows(s: Slot, seq: u64)
    ensures
        ({
            let (n, shown) = slot_ready(s, seq);
            let waits = s.pending is Some && (s.pending->0).0 == seq;
            &&& waits && s.hwnd != 0 ==> {
                &&& n.visible
                &&& n.pending is None
                &&& shown is Some
                &&& shown->0.rect == (s.pending->0).1
                &&& shown->0.newly == !s.visible
            }
            &&& !waits || s.hwnd == 0 ==> shown is None && n.visible == s.visible
            &&& n.hwnd == s.hwnd && n.seq == s.seq && n.gen == s.gen && n.cur == s.cur
        }),
{
}

/// A presentation that is laid out gets the next number and waits under it; what
/// is visible stays visible until its page is drawn.
pub proof fn law_laid_out(s: &mut Slot, id: &str, content: PanelContent, rect: Rect, r: u64)
    requires
        call_ensures(Slot::present, (s, id, content, rect), r),
    ensures
        old(s).seq < u64::MAX ==> r == old(s).seq + 1,
        final(s).seq == r,
        final(s).pending == Some((r, rect)),
        final(s).visible == old(s).visible,
        final(s).hwnd == old(s).hwnd,
        final(s).cur is Some && final(s).cur->0.target_id@ == id@ && final(s).cur->0.content
            == content && final(s).cur->0.seq == r,
{
}

/// Asking for the menu that is open closes it; asking for any other presents its
/// items. A folder closes unless it is kept.
pub proof fn law_menu_toggles(
    p: &mut Panels,
    t: Target,
    keep: bool,
    r: (MenuStep, Hidden),
)
    requires
        call_ensures(Panels::show_menu, (p, &t, keep), r),
    ensures
        ({
            let m = old(p).menu;
            let open = m.visible && m.cur is Some && m.cur->0.target_id@ == t.app_id@
                && m.cur->0.content is Menu;
            &&& open ==> r.0 is Closed && !final(p).menu.visible && r.1.menu
            &&& !open ==> r.0 is Present && item_views(r.0->Present_0@) == menu::menu_of(t)
                && final(p).menu == m && !r.1.menu
            &&& keep ==> final(p).folder == old(p).folder && !r.1.folder
            &&& !keep ==> !final(p).folder.visible && r.1.folder == old(p).folder.visible
        }),
{
}

/// Asking for the folder that is open closes it; asking for any other presents
/// its cells. One that shows no cell is refused and closes nothing of its layer.
/// The menu closes in any case.
pub proof fn law_folder_toggles(
    p: &mut Panels,
    id: &str,
    children: Vec<AppEntry>,
    r: (Result<FolderStep, String>, bool),
)
    requires
        call_ensures(Panels::show_folder, (p, id, &children), r),
    ensures
        ({
            let f = old(p).folder;
            let open = f.visible && f.cur is Some && f.cur->0.target_id@ == id@;
            let cells = cells_of(app_views(children@));
            &&& cells.len() == 0 ==> r.0 is Err && final(p).folder == f
            &&& cells.len() > 0 && open ==> r.0 is Ok && r.0->Ok_0 is Closed
                && !final(p).folder.visible
            &&& cells.len() > 0 && !open ==> r.0 is Ok && r.0->Ok_0 is Present && cell_views(
                r.0->Ok_0->Present_0@,
            ) == cells && final(p).folder == f
            &&& !final(p).menu.visible && r.1 == old(p).menu.visible
        }),
{
}

/// A label never takes the place of a menu that is open. It is not shown twice
/// for the same entry, and goes above the folder for an entry in it.
pub proof fn law_label_gives_way(
    p: Panels,
    dock: u64,
    id: &str,
    above_folder: bool,
    r: LabelStep,
)
    requires
        call_ensures(Panels::show_label, (&p, dock, id, above_folder), r),
    ensures
        p.menu.visible && p.menu.cur is Some && p.menu.cur->0.content is Menu ==> r is Refused,
        p.menu.visible && p.menu.cur is Some && p.menu.cur->0.content is Label
            && p.menu.cur->0.target_id@ == id@ ==> r is AlreadyShown,
        !p.menu.visible && above_folder && p.folder.hwnd != 0 ==> r == LabelStep::Present(
            p.folder.hwnd,
        ),
        !p.menu.visible && !above_folder ==> r == LabelStep::Present(dock),
{
}

/// Hiding the label leaves a menu alone, and the folder in any case.
pub proof fn law_hiding_the_label(p: &mut Panels, r: bool)
    requires
        call_ensures(Panels::hide_label, (p,), r),
    ensures
        final(p).folder == old(p).folder,
        old(p).menu.cur is Some && old(p).menu.cur->0.content is Menu ==> final(p).menu
            == old(p).menu && !r,
        old(p).menu.cur is Some && old(p).menu.cur->0.content is Label ==> !final(p).menu.visible
            && final(p).menu.cur is None && r == old(p).menu.visible,
{
}

/// Hiding one layer leaves the other alone; hiding all hides both, and says
/// which were visible.
pub proof fn law_dismissing(p: &mut Panels, layer: Layer, r: bool)
    requires
        call_ensures(Panels::dismiss, (p, layer), r),
    ensures
        layer is Menu ==> !final(p).menu.visible && final(p).folder == old(p).folder && r
            == old(p).menu.visible,
        layer is Folder ==> !final(p).folder.visible && final(p).menu == old(p).menu && r
            == old(p).folder.visible,
{
}

/// A press is new where it happened since the last look, or where the button is
/// down and was not. The escape key closes the layer at the top, the menu before
/// the folder, wherever the mouse is. A click does so exactly where it is neither
/// on a visible layer nor on the dock. Nothing else closes anything, and the
/// watch ends where no layer is visible.
pub proof fn law_what_closes_a_layer(p: Panels, now: Buttons, before: Buttons, s: Scene)
    ensures
        ({
            let r = watched(p, now, before, s);
            let top = if p.menu.visible {
                Layer::Menu
            } else {
                Layer::Folder
            };
            let any = p.menu.visible || p.folder.visible;
            let escape = now.escape.pressed_since || (now.escape.down && !before.escape.down);
            let click = now.left.pressed_since || (now.left.down && !before.left.down)
                || now.right.pressed_since || (now.right.down && !before.right.down);
            let c = s.cursor;
            let on_folder = p.folder.visible && s.folder.left <= c.x < s.folder.right
                && s.folder.top <= c.y < s.folder.bottom;
            let on_menu = p.menu.visible && s.menu.left <= c.x < s.menu.right && s.menu.top <= c.y
                < s.menu.bottom;
            let on_dock = s.dock is Some && s.dock->0.left <= c.x < s.dock->0.right
                && s.dock->0.top <= c.y < s.dock->0.bottom;
            let away = !on_folder && !on_menu && !on_dock;
            &&& !any ==> r == WatchStep::Retire
            &&& any && (escape || (click && away)) ==> r == WatchStep::Close(top)
            &&& any && !escape && !(click && away) ==> r == WatchStep::Nothing
        }),
{
}

/// The bits of a query say whether a button is down and whether it was pressed
/// since.
pub proof fn law_button_bits(bits: u16, r: KeyState)
    requires
        call_ensures(KeyState::from_bits, (bits,), r),
    ensures
        r.down <==> bits >= 0x8000,
        r.pressed_since <==> bits % 2 == 1,
{
    assert((bits & 0x8000 != 0) == (bits >= 0x8000)) by (bit_vector);
    assert((bits & 0x0001 != 0) == (bits % 2 == 1)) by (bit_vector);
}

/// A layer without a window, over nothing or of a window that is none is not
/// presented, and it is told why.
pub proof fn law_what_can_be_presented(
    s: Slot,
    label: &str,
    window_exists: bool,
    base: u64,
    r: Result<(), String>,
)
    requires
        call_ensures(Slot::check_present, (&s, label, window_exists, base), r),
    ensures
        r is Ok <==> window_exists && s.hwnd != 0 && base != 0,
        !window_exists ==> r->Err_0@ == "浮层窗口 "@ + label@ + " 不存在（启动时创建失败？）"@,
        window_exists && s.hwnd == 0 ==> r->Err_0@ == "浮层窗口句柄无效"@,
        window_exists && s.hwnd != 0 && base == 0 ==> r->Err_0@ == "浮层要贴的那个窗口句柄无效"@,
{
}

/// A presentation that is taken back leaves nothing behind, and whether the layer
/// is visible stays.
pub proof fn law_abandoned(s: &mut Slot, r: ())
    requires
        call_ensures(Slot::abandon, (s,), r),
    ensures
        final(s).cur is None && final(s).pending is None,
        final(s).hwnd == old(s).hwnd && final(s).visible == old(s).visible,
        final(s).gen == old(s).gen && final(s).seq == old(s).seq,
{
}

/// What waits is taken once, and only under its own number.
pub proof fn law_what_waits_is_taken_once(s: &mut Slot, seq: u64, r: Option<Rect>)
    requires
        call_ensures(Slot::take_pending, (s, seq), r),
    ensures
        r is Some <==> old(s).pending is Some && (old(s).pending->0).0 == seq,
        r is Some ==> r->0 == (old(s).pending->0).1 && final(s).pending is None,
        r is None ==> final(s).pending == old(s).pending,
        final(s).cur == old(s).cur && final(s).visible == old(s).visible,
        final(s).hwnd == old(s).hwnd && final(s).seq == old(s).seq,
{
}

/// What a layer says that it holds is what it holds: the entry that it belongs
/// to, the items of a menu, the cells of a folder, or a label.
pub proof fn law_what_a_layer_holds(
    s: Slot,
    id: &str,
    owner: Option<String>,
    menu: Option<Vec<MenuItem>>,
    folder: Option<Vec<FolderItem>>,
    is_label: bool,
    is_menu: bool,
)
    requires
        call_ensures(Slot::current_target_id, (&s,), owner),
        call_ensures(Slot::current_menu_items, (&s,), menu),
        call_ensures(Slot::current_folder_items, (&s,), folder),
        call_ensures(Slot::has_label, (&s,), is_label),
        call_ensures(Slot::same_menu_open, (&s, id), is_menu),
    ensures
        s.cur is None ==> owner is None && menu is None && folder is None && !is_label && !is_menu,
        s.cur is Some ==> owner is Some && owner->0@ == s.cur->0.target_id@,
        menu is Some <==> s.cur is Some && s.cur->0.content is Menu,
        menu is Some ==> menu->0@ == s.cur->0.content->items@,
        folder is Some <==> s.cur is Some && s.cur->0.content is Folder,
        folder is Some ==> folder->0@ == s.cur->0.content->cells@,
        is_label <==> s.cur is Some && s.cur->0.content is Label,
        is_menu <==> s.visible && s.cur is Some && s.cur->0.content is Menu
            && s.cur->0.target_id@ == id@,
{
}

/// Hiding both layers hides both, and says which were visible.
pub proof fn law_both_are_hidden(p: &mut Panels, r: Hidden)
    requires
        call_ensures(Panels::hide_all, (p,), r),
    ensures
        !final(p).menu.visible && !final(p).folder.visible,
        r.menu == old(p).menu.visible,
        r.folder == old(p).folder.visible,
{
}

/// Menus have their own window and folders have theirs. A label is seen where the
/// window of menus is visible and holds one.
pub proof fn law_windows_of_layers(p: Panels, label: &str, layer: Option<Layer>, seen: bool)
    requires
        call_ensures(slot_for_label, (label,), layer),
        call_ensures(Panels::label_visible, (&p,), seen),
    ensures
        layer == Some(Layer::Folder) <==> label@ == "panel"@,
        layer == Some(Layer::Menu) <==> label@ == "menu"@,
        seen <==> p.menu.visible && p.menu.cur is Some && p.menu.cur->0.content is Label,
{
    reveal_strlit("panel");
    reveal_strlit("menu");
    assert("panel"@.len() == 5 && "menu"@.len() == 4);
}

/// Visible layers are counted one by one, and so are those that were hidden.
pub proof fn law_layers_are_counted(p: Panels, h: Hidden)
    ensures
        visible_layers(p) == 0 <==> !p.menu.visible && !p.folder.visible,
        visible_layers(p) == 2 <==> p.menu.visible && p.folder.visible,
        0 <= visible_layers(p) <= 2,
        hidden_count(h) == 0 <==> !h.menu && !h.folder,
        hidden_count(h) == 2 <==> h.menu && h.folder,
        0 <= hidden_count(h) <= 2,
{
}

} // verus!
