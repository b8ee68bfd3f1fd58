//! What the self-tests expect: which of them run, what they look for, and how
//! they judge what they see.

use vstd::prelude::*;
use vstd::string::*;
use crate::apps;
use crate::apps::shell_location;
use crate::drop::{Outcome, OutcomeView};
use crate::geometry::{half, Rect};
use crate::logging::quotient;
use crate::menu::{item_views, ItemView, MenuItem};
use crate::model::{
    app_views, lemma_children_views, pinned_views, window_views, AppEntry, AppView, PinnedApp,
    PinnedView, WindowRef, WindowView,
};
use crate::store;
use crate::store::{dissolved, has_id, pin_index, pinned_with, removed, reordered};
use crate::text;
use crate::text::{decimal, lowercase, occurs, opt_view, text_views, trimmed, unsigned_value};
use crate::win_layer::{WS_EX_NOACTIVATE, WS_EX_TOOLWINDOW};

verus! {

// ---------------------------------------------------------------- which tests run

/// The switches in the environment.
#[derive(Debug)]
pub struct Switches {
    pub layer_test: Option<String>,
    pub self_test: Option<String>,
    pub drag_probe: Option<String>,
    pub drag_test: Option<String>,
    pub menu_test: Option<String>,
    pub location_test: Option<String>,
    pub operation_test: Option<String>,
    pub dump_apps: Option<String>,
    pub icon_boxes: Option<String>,
    pub menu_shot: Option<String>,
}

/// Which self-tests run.
#[derive(Debug, Clone, Copy, PartialEq, Eq, Structural)]
pub struct Plan {
    pub layering: bool,
    /// Whether clicks take the focus, and with it those that follow.
    pub focus: bool,
    pub drag_probe: bool,
    pub dragging: bool,
    pub menus: bool,
    pub locations: bool,
    pub operations: bool,
    pub dump_apps: bool,
    pub icon_boxes: bool,
    /// For how many seconds a menu stays open to be looked at.
    pub menu_shot: Option<u64>,
}

/// A switch has this value.
pub open spec fn says(o: Option<String>, v: Seq<char>) -> bool {
    opt_view(o) == Some(v)
}

fn is_set_to(o: &Option<String>, v: &str) -> (r: bool)
    ensures
        r == says(*o, v@),
{
    match o {
        Some(s) => text::same(s.as_str(), v),
        None => false,
    }
}

/// For how long a menu is to stay open, where that is asked for.
pub open spec fn shot_seconds(o: Option<Seq<char>>) -> Option<u64> {
    match o {
        Some(s) => match unsigned_value(s) {
            Some(n) => if n <= u64::MAX {
                Some(n as u64)
            } else {
                Some(20u64)
            },
            None => Some(20u64),
        },
        None => None,
    }
}

/// Which self-tests run: those on layering and focus unless they are switched
/// off, the others where they are switched on and the focus test runs.
pub fn run_if_enabled(s: &Switches) -> (r: Plan)
    ensures
        r.layering == !says(s.layer_test, "0"@),
        r.focus == !says(s.self_test, "0"@),
        r.drag_probe == (r.focus && says(s.drag_probe, "1"@)),
        r.dragging == (r.focus && says(s.drag_test, "1"@)),
        r.menus == (r.focus && says(s.menu_test, "1"@)),
        r.locations == (r.focus && says(s.location_test, "1"@)),
        r.operations == (r.focus && says(s.operation_test, "1"@)),
        r.dump_apps == says(s.dump_apps, "1"@),
        r.icon_boxes == says(s.icon_boxes, "1"@),
        r.menu_shot == shot_seconds(opt_view(s.menu_shot)),
{
    let focus = !is_set_to(&s.self_test, "0");
    Plan {
        layering: !is_set_to(&s.layer_test, "0"),
        focus,
        drag_probe: focus && is_set_to(&s.drag_probe, "1"),
        dragging: focus && is_set_to(&s.drag_test, "1"),
        menus: focus && is_set_to(&s.menu_test, "1"),
        locations: focus && is_set_to(&s.location_test, "1"),
        operations: focus && is_set_to(&s.operation_test, "1"),
        dump_apps: is_set_to(&s.dump_apps, "1"),
        icon_boxes: is_set_to(&s.icon_boxes, "1"),
        menu_shot: match &s.menu_shot {
            Some(v) => match text::parse_unsigned(v.as_str()) {
                Some(n) => Some(n),
                None => Some(20),
            },
            None => None,
        },
    }
}

/// Whether a test that changes the list may run: only where the configuration
/// was redirected.
pub fn require_temp_config(redirected: &Option<String>) -> (r: bool)
    ensures
        r == (match opt_view(*redirected) {
            Some(d) => trimmed(d).len() > 0,
            None => false,
        }),
{
    match redirected {
        Some(d) => !text::trim(d.as_str()).as_str().is_empty(),
        None => false,
    }
}

// ---------------------------------------------------------------- counting

/// How many checks passed and failed.
#[derive(Debug, Clone, Copy, PartialEq, Eq, Structural)]
pub struct Tally {
    pub pass: u32,
    pub fail: u32,
}

impl Tally {
    /// Before the first check.
    pub fn new() -> (r: Self)
        ensures
            r == (Tally { pass: 0, fail: 0 }),
    {
        Tally { pass: 0, fail: 0 }
    }

    /// Counts a check; a count that is full stays so.
    pub fn count(&mut self, ok: bool)
        ensures
            final(self).pass == old(self).pass + (if ok && old(self).pass < u32::MAX {
                1int
            } else {
                0
            }),
            final(self).fail == old(self).fail + (if !ok && old(self).fail < u32::MAX {
                1int
            } else {
                0
            }),
    {
        if ok {
            self.pass = self.pass.saturating_add(1);
        } else {
            self.fail = self.fail.saturating_add(1);
        }
    }

    /// The line that sums up.
    pub fn summary(&self) -> (r: String)
        ensures
            r@ == "  小结："@ + decimal(self.pass as nat) + " 项通过，"@ + decimal(
                self.fail as nat,
            ) + " 项失败"@,
    {
        let mut r = text::concat3(
            "  小结：",
            text::decimal_string(self.pass as u64).as_str(),
            " 项通过，",
        );
        r.append(text::decimal_string(self.fail as u64).as_str());
        r.append(" 项失败");
        r
    }
}

/// The line that reports a check.
pub fn check_line(ok: bool, what: &str, detail: &str) -> (r: String)
    ensures
        r@ == (if ok {
            "  [PASS] "@
        } else {
            "  [FAIL] "@
        }) + what@ + "  "@ + detail@,
{
    let head = if ok {
        "  [PASS] "
    } else {
        "  [FAIL] "
    };
    let mut r = text::concat3(head, what, "  ");
    r.append(detail);
    r
}

// ---------------------------------------------------------------- the pointer

/// A distance from the edge of the screens as the system counts it: in parts of
/// 65535 of their extent.
pub open spec fn pointer_units(offset: int, extent: int) -> int {
    quotient(
        offset * 65535,
        (if extent < 2 {
            2
        } else {
            extent
        }) - 1,
    )
}

/// A distance from the edge of the screens as the system counts it.
pub fn to_absolute(offset: i32, extent: i32) -> (r: i32)
    ensures
        r == pointer_units(offset as int, extent as int) as i32,
{
    let span: i64 = if extent < 2 {
        1
    } else {
        extent as i64 - 1
    };
    let scaled: i64 = offset as i64 * 65535;
    let units: i64 = if scaled >= 0 {
        scaled / span
    } else {
        -((-scaled) / span)
    };
    assert(units == pointer_units(offset as int, extent as int));
    units as i32
}

/// A point on the screens is counted between both edges, the edges themselves
/// are counted as such, and a point further on is counted no lower.
pub proof fn law_pointer_stays_on_screen(a: int, b: int, extent: int)
    requires
        0 <= a <= b < extent,
        extent >= 2,
    ensures
        0 <= pointer_units(a, extent) <= pointer_units(b, extent) <= 65535,
        pointer_units(0, extent) == 0,
        pointer_units(extent - 1, extent) == 65535,
{
    let span = extent - 1;
    vstd::arithmetic::div_mod::lemma_div_is_ordered(a * 65535, b * 65535, span);
    vstd::arithmetic::div_mod::lemma_div_is_ordered(b * 65535, span * 65535, span);
    vstd::arithmetic::div_mod::lemma_div_multiples_vanish(65535, span);
    vstd::arithmetic::div_mod::lemma_div_pos_is_pos(a * 65535, span);
    assert(span * 65535 == 65535 * span) by (nonlinear_arith);
    assert(0int / span == 0) by (nonlinear_arith)
        requires
            span > 0,
    ;
}

// ---------------------------------------------------------------- taking the focus

/// What is clicked.
#[derive(Debug, Clone, Copy, PartialEq, Eq, Structural)]
pub enum ClickTarget {
    Dock,
    /// A window that never takes the focus.
    Shielded,
    /// A window without any protection.
    Unshielded,
}

/// Which window has the focus before the click.
#[derive(Debug, Clone, Copy, PartialEq, Eq, Structural)]
pub enum FocusHolder {
    SameProcess,
    OtherProcess,
}

/// One click that is tried.
#[derive(Debug)]
pub struct Phase {
    pub label: String,
    pub target: ClickTarget,
    pub holder: FocusHolder,
    /// The dock refuses to be activated.
    pub block: bool,
    /// The click is expected to take the focus.
    pub expect_steal: bool,
}

/// The contents of a `Phase`.
#[verifier::ext_equal]
pub struct PhaseView {
    pub label: Seq<char>,
    pub target: ClickTarget,
    pub holder: FocusHolder,
    pub block: bool,
    pub expect_steal: bool,
}

impl View for Phase {
    type V = PhaseView;

    open spec fn view(&self) -> PhaseView {
        PhaseView {
            label: self.label@,
            target: self.target,
            holder: self.holder,
            block: self.block,
            expect_steal: self.expect_steal,
        }
    }
}

/// The contents of a list of phases.
pub open spec fn phase_views(s: Seq<Phase>) -> Seq<PhaseView> {
    Seq::new(s.len(), |i: int| s[i]@)
}

/// One click that is tried.
pub open spec fn phase(
    label: Seq<char>,
    target: ClickTarget,
    holder: FocusHolder,
    block: bool,
    expect_steal: bool,
) -> PhaseView {
    PhaseView { label, target, holder, block, expect_steal }
}

/// The clicks that are tried within the process.
pub open spec fn inner_phases() -> Seq<PhaseView> {
    let here = FocusHolder::SameProcess;
    seq![
        phase(
            "[P0] 同进程 无保护假Dock（阳性对照，期望夺焦点）"@,
            ClickTarget::Unshielded,
            here,
            true,
            true,
        ),
        phase("[A]  同进程 真 Dock（已装钩子）"@, ClickTarget::Dock, here, true, false),
        phase("[B]  同进程 真 Dock（未装钩子）"@, ClickTarget::Dock, here, false, false),
    ]
}

/// The clicks that are tried while another process has the focus.
pub open spec fn outer_phases() -> Seq<PhaseView> {
    let there = FocusHolder::OtherProcess;
    seq![
        phase(
            "[C]  跨进程 真 Dock（真实工况，期望不夺）"@,
            ClickTarget::Dock,
            there,
            true,
            false,
        ),
        phase(
            "[D]  跨进程 无保护假Dock（阳性对照，期望夺焦点）"@,
            ClickTarget::Unshielded,
            there,
            true,
            true,
        ),
        phase(
            "[E]  跨进程 带NOACTIVATE假Dock（期望不夺）"@,
            ClickTarget::Shielded,
            there,
            true,
            false,
        ),
    ]
}

fn make_phase(
    label: &str,
    target: ClickTarget,
    holder: FocusHolder,
    block: bool,
    expect_steal: bool,
) -> (r: Phase)
    ensures
        r@ == phase(label@, target, holder, block, expect_steal),
{
    Phase { label: label.to_owned(), target, holder, block, expect_steal }
}

/// The clicks that are tried; some need a window of another process.
pub fn phases(other_process: bool) -> (r: Vec<Phase>)
    ensures
        phase_views(r@) == if other_process {
            inner_phases() + outer_phases()
        } else {
            inner_phases()
        },
{
    let here = FocusHolder::SameProcess;
    let there = FocusHolder::OtherProcess;
    let mut r: Vec<Phase> = Vec::new();
    r.push(
        make_phase(
            "[P0] 同进程 无保护假Dock（阳性对照，期望夺焦点）",
            ClickTarget::Unshielded,
            here,
            true,
            true,
        ),
    );
    r.push(make_phase("[A]  同进程 真 Dock（已装钩子）", ClickTarget::Dock, here, true, false));
    r.push(make_phase("[B]  同进程 真 Dock（未装钩子）", ClickTarget::Dock, here, false, false));
    assert(phase_views(r@) =~= inner_phases());
    if other_process {
        r.push(
            make_phase(
                "[C]  跨进程 真 Dock（真实工况，期望不夺）",
                ClickTarget::Dock,
                there,
                true,
                false,
            ),
        );
        r.push(
            make_phase(
                "[D]  跨进程 无保护假Dock（阳性对照，期望夺焦点）",
                ClickTarget::Unshielded,
                there,
                true,
                true,
            ),
        );
        r.push(
            make_phase(
                "[E]  跨进程 带NOACTIVATE假Dock（期望不夺）",
                ClickTarget::Shielded,
                there,
                true,
                false,
            ),
        );
        assert(phase_views(r@) =~= inner_phases() + outer_phases());
    }
    r
}

/// Whether a click is known to have arrived: a window of the test counts its
/// clicks, and for the dock it has to lie under the pointer.
pub fn click_proven(target: ClickTarget, clicks: u32, on_target: bool) -> (r: bool)
    ensures
        r == if target == ClickTarget::Dock {
            on_target
        } else {
            clicks > 0
        },
{
    if target == ClickTarget::Dock {
        on_target
    } else {
        clicks > 0
    }
}

/// What a click showed.
pub open spec fn focus_text(
    focus_ready: bool,
    injected: u32,
    proven: bool,
    stolen: bool,
    expect_steal: bool,
) -> Seq<char> {
    if !focus_ready {
        "INVALID（焦点未就位）"@
    } else if injected < 3 {
        "INVALID（SendInput 未注入）"@
    } else if !proven {
        "INVALID（无法确认点击送达）"@
    } else if stolen == expect_steal {
        if stolen {
            "焦点被夺（符合预期）"@
        } else {
            "焦点**未**被夺 ✅（符合预期）"@
        }
    } else if stolen {
        "焦点被夺 ⚠️ **不符合预期**"@
    } else {
        "焦点未被夺 ⚠️ **不符合预期**"@
    }
}

/// What a click showed: nothing where it was not tried properly.
pub fn focus_verdict(
    focus_ready: bool,
    injected: u32,
    proven: bool,
    stolen: bool,
    expect_steal: bool,
) -> (r: &'static str)
    ensures
        r@ == focus_text(focus_ready, injected, proven, stolen, expect_steal),
{
    if !focus_ready {
        "INVALID（焦点未就位）"
    } else if injected < 3 {
        "INVALID（SendInput 未注入）"
    } else if !proven {
        "INVALID（无法确认点击送达）"
    } else if stolen == expect_steal {
        if stolen {
            "焦点被夺（符合预期）"
        } else {
            "焦点**未**被夺 ✅（符合预期）"
        }
    } else if stolen {
        "焦点被夺 ⚠️ **不符合预期**"
    } else {
        "焦点未被夺 ⚠️ **不符合预期**"
    }
}

/// The name of an answer to a click on an inactive window.
pub fn ma_name(v: i64) -> (r: &'static str)
    ensures
        r@ == if v == 1 {
            "MA_ACTIVATE（会夺焦点）"@
        } else if v == 2 {
            "MA_ACTIVATEANDEAT（会夺焦点）"@
        } else if v == 3 {
            "MA_NOACTIVATE（不夺焦点）✅"@
        } else if v == 4 {
            "MA_NOACTIVATEANDEAT（不夺焦点）✅"@
        } else {
            "未知"@
        },
{
    if v == 1 {
        "MA_ACTIVATE（会夺焦点）"
    } else if v == 2 {
        "MA_ACTIVATEANDEAT（会夺焦点）"
    } else if v == 3 {
        "MA_NOACTIVATE（不夺焦点）✅"
    } else if v == 4 {
        "MA_NOACTIVATEANDEAT（不夺焦点）✅"
    } else {
        "未知"
    }
}

/// What the calls from a page showed.
pub fn ipc_verdict(report: &str, in_front: bool) -> (r: &'static str)
    ensures
        r@ == if report@ == "activate_app:ok"@ && in_front {
            "链路完整 ✅（前端成功调用命令且窗口行为正确）"@
        } else if report@ == "activate_app:ok"@ {
            "命令调用成功，但窗口未见激活 ⚠️"@
        } else {
            "链路有问题 ❌"@
        },
{
    let ok = text::same(report, "activate_app:ok");
    if ok && in_front {
        "链路完整 ✅（前端成功调用命令且窗口行为正确）"
    } else if ok {
        "命令调用成功，但窗口未见激活 ⚠️"
    } else {
        "链路有问题 ❌"
    }
}

/// Whether a window can have the focus and stands in the taskbar.
pub fn is_plain_window(ex_style: u32) -> (r: bool)
    ensures
        r == (ex_style & WS_EX_NOACTIVATE == 0 && ex_style & WS_EX_TOOLWINDOW == 0),
{
    ex_style & WS_EX_NOACTIVATE == 0 && ex_style & WS_EX_TOOLWINDOW == 0
}

// ---------------------------------------------------------------- waiting for the page

/// How often the page has to look the same.
pub const STABLE: u32 = 3;

/// A page that is watched until it stops changing.
#[derive(Debug, Clone, Copy, PartialEq, Eq, Structural)]
pub struct Settling {
    pub same: u32,
    pub last_width: i32,
}

/// What a look at the page showed.
#[derive(Debug, Clone, Copy, PartialEq, Eq, Structural)]
pub enum SettleStep {
    Settled,
    TimedOut,
    Again,
}

/// The state after a look: `right` says that the number of icons was right. A
/// look counts where also the width is that of the look before.
pub open spec fn looked(s: Settling, right: bool, width: i32) -> Settling {
    Settling {
        same: if right && width == s.last_width {
            (s.same + 1) as u32
        } else {
            0
        },
        last_width: width,
    }
}

/// The state after some looks from the first one on.
pub open spec fn watched(looks: Seq<(bool, i32)>) -> Settling
    decreases looks.len(),
{
    if looks.len() == 0 {
        Settling { same: 0, last_width: (-1int) as i32 }
    } else {
        looked(watched(looks.drop_last()), looks.last().0, looks.last().1)
    }
}

impl Settling {
    /// Before the first look.
    pub fn new() -> (r: Self)
        ensures
            r == watched(Seq::empty()),
    {
        Settling { same: 0, last_width: -1 }
    }

    /// Takes a look: `count` is the number of icons as the page reports it.
    pub fn look(&mut self, count: &str, want: usize, width: i32, timed_out: bool) -> (r: SettleStep)
        requires
            old(self).same < STABLE,
        ensures
            *final(self) == looked(*old(self), trimmed(count@) == decimal(want as nat), width),
            r == if final(self).same >= STABLE {
                SettleStep::Settled
            } else if timed_out {
                SettleStep::TimedOut
            } else {
                SettleStep::Again
            },
    {
        let t = text::trim(count);
        let d = text::decimal_string(want as u64);
        let ok = text::same(t.as_str(), d.as_str()) && width == self.last_width;
        if ok {
            self.same = self.same + 1;
        } else {
            self.same = 0;
        }
        self.last_width = width;
        if ok && self.same >= STABLE {
            SettleStep::Settled
        } else if timed_out {
            SettleStep::TimedOut
        } else {
            SettleStep::Again
        }
    }
}

/// A page counts as settled only after it looked the same, and right, three
/// times in a row, with the width of the look before those. `looks` are the
/// looks at a page, each with whether the number of icons was right, and the
/// width, of which only the last settles it.
pub proof fn law_settled_is_stable(looks: Seq<(bool, i32)>)
    requires
        forall|k: int| 0 <= k < looks.len() ==> (#[trigger] watched(looks.take(k))).same < STABLE,
        watched(looks).same >= STABLE,
    ensures
        looks.len() >= STABLE,
        forall|k: int|
            looks.len() - STABLE <= k < looks.len() ==> (#[trigger] looks[k]).0 && looks[k].1
                == watched(looks.take(looks.len() - STABLE)).last_width,
        looks.len() > STABLE ==> watched(looks.take(looks.len() - STABLE)).last_width
            == looks[looks.len() - STABLE - 1].1,
{
    reveal_with_fuel(watched, 2);
    let n = looks.len();
    assert(looks.drop_last() =~= looks.take(n - 1));
    assert(watched(looks.take(n - 1)).same == 2);
    assert(looks.take(n - 1).drop_last() =~= looks.take(n - 2));
    assert(looks.take(n - 1).last() == looks[n - 2]);
    assert(watched(looks.take(n - 2)).same == 1);
    assert(looks.take(n - 2).drop_last() =~= looks.take(n - 3));
    assert(looks.take(n - 2).last() == looks[n - 3]);
    if n > 3 {
        assert(looks.take(n - 3).last() == looks[n - 4]);
    }
    assert forall|k: int| n - 3 <= k < n implies (#[trigger] looks[k]).0 && looks[k].1 == watched(
        looks.take(n - 3),
    ).last_width by {
        assert(k == n - 1 || k == n - 2 || k == n - 3);
    }
}

// ---------------------------------------------------------------- lists

/// The identities of the entries.
pub open spec fn id_list(s: Seq<PinnedView>) -> Seq<Seq<char>> {
    Seq::new(s.len(), |i: int| s[i].id)
}

/// The identities of the entries.
pub fn ids_of(list: &Vec<PinnedApp>) -> (r: Vec<String>)
    ensures
        text_views(r@) == id_list(pinned_views(list@)),
{
    let mut r: Vec<String> = Vec::new();
    let mut i: usize = 0;
    while i < list.len()
        invariant
            i <= list@.len(),
            r@.len() == i,
            forall|k: int| 0 <= k < i ==> (#[trigger] r@[k])@ == list@[k]@.id,
        decreases list@.len() - i,
    {
        r.push(list[i].id.clone());
        i += 1;
    }
    assert(text_views(r@) =~= id_list(pinned_views(list@)));
    r
}

/// Whether two lists of texts are the same.
pub fn same_texts(a: &Vec<String>, b: &Vec<String>) -> (r: bool)
    ensures
        r == (text_views(a@) == text_views(b@)),
{
    if a.len() != b.len() {
        assert(text_views(a@).len() != text_views(b@).len());
        return false;
    }
    let mut i: usize = 0;
    while i < a.len()
        invariant
            i <= a@.len() == b@.len(),
            forall|k: int| 0 <= k < i ==> (#[trigger] a@[k])@ == b@[k]@,
        decreases a@.len() - i,
    {
        if !text::same(a[i].as_str(), b[i].as_str()) {
            assert(text_views(a@)[i as int] != text_views(b@)[i as int]);
            return false;
        }
        i += 1;
    }
    assert(text_views(a@) =~= text_views(b@));
    true
}

/// Whether a text stands in a list.
pub fn has_text(list: &Vec<String>, s: &str) -> (r: bool)
    ensures
        r == text_views(list@).contains(s@),
{
    let mut i: usize = 0;
    while i < list.len()
        invariant
            i <= list@.len(),
            forall|k: int| 0 <= k < i ==> (#[trigger] list@[k])@ != s@,
        decreases list@.len() - i,
    {
        if text::same(list[i].as_str(), s) {
            assert(text_views(list@)[i as int] == s@);
            return true;
        }
        i += 1;
    }
    false
}

/// The position of the first identity that is not among those, or the length.
pub open spec fn first_idle(ids: Seq<Seq<char>>, running: Seq<Seq<char>>) -> int
    decreases ids.len(),
{
    if ids.len() == 0 || !running.contains(ids[0]) {
        0
    } else {
        1 + first_idle(ids.skip(1), running)
    }
}

/// Which icon is dragged where.
#[derive(Debug, Clone, Copy, PartialEq, Eq, Structural)]
pub struct DragPlan {
    pub from: usize,
    pub to: usize,
    /// The application was not running, so that starting it would show.
    pub idle: bool,
}

/// Which icon is dragged where: the first whose application is not running,
/// else the first, three places on or to the front.
pub fn plan_drag(ids: &Vec<String>, running: &Vec<String>) -> (r: DragPlan)
    requires
        ids@.len() >= 4,
    ensures
        ({
            let n = ids@.len();
            let i = first_idle(text_views(ids@), text_views(running@));
            &&& r.idle == (i < n)
            &&& r.from == if i < n {
                i
            } else {
                0
            }
            &&& r.to == if r.from + 3 < n {
                r.from + 3
            } else {
                0
            }
            &&& r.from < n
            &&& r.to < n
        }),
{
    let n: usize = ids.len();
    let ghost all = text_views(ids@);
    let ghost busy = text_views(running@);
    let mut i: usize = 0;
    assert(all.skip(0) =~= all);
    while i < n && has_text(running, ids[i].as_str())
        invariant
            i <= n == ids@.len(),
            all == text_views(ids@),
            busy == text_views(running@),
            first_idle(all, busy) == i + first_idle(all.skip(i as int), busy),
        decreases n - i,
    {
        assert(all.skip(i as int)[0] == ids@[i as int]@);
        assert(all.skip(i as int).skip(1) =~= all.skip(i + 1));
        i += 1;
    }
    proof {
        if i < n {
            assert(all.skip(i as int)[0] == ids@[i as int]@);
        }
    }
    let idle = i < n;
    let from: usize = if idle {
        i
    } else {
        0
    };
    let to: usize = if n - from > 3 {
        from + 3
    } else {
        0
    };
    DragPlan { from, to, idle }
}

/// A list with one item moved to another place.
pub open spec fn moved<T>(s: Seq<T>, from: int, to: int) -> Seq<T> {
    s.remove(from).insert(to, s[from])
}

/// The order that is expected after dragging.
pub fn order_after(ids: &Vec<String>, from: usize, to: usize) -> (r: Vec<String>)
    requires
        from < ids@.len(),
        to < ids@.len(),
    ensures
        text_views(r@) == moved(text_views(ids@), from as int, to as int),
{
    let mut r: Vec<String> = Vec::new();
    let mut i: usize = 0;
    while i < ids.len()
        invariant
            i <= ids@.len(),
            r@.len() == i,
            forall|k: int| 0 <= k < i ==> (#[trigger] r@[k])@ == ids@[k]@,
        decreases ids@.len() - i,
    {
        r.push(ids[i].clone());
        i += 1;
    }
    assert(text_views(r@) =~= text_views(ids@));
    let ghost before = text_views(r@);
    let one = r.remove(from);
    r.insert(to, one);
    assert(text_views(r@) =~= before.remove(from as int).insert(to as int, before[from as int]));
    r
}

/// Whether one entry, and only that, is gone.
pub fn one_gone(before: usize, after: &Vec<PinnedApp>, id: &str) -> (r: bool)
    ensures
        r == (after@.len() + 1 == before && !has_id(pinned_views(after@), id@)),
{
    let i = store::find_pin(after, id);
    proof {
        store::lemma_pin_index(pinned_views(after@), id@);
    }
    before > 0 && after.len() == before - 1 && i >= after.len()
}

/// Whether one identity was added, at the end.
pub fn added_last(before: usize, now: &Vec<String>, id: &str) -> (r: bool)
    ensures
        r == (now@.len() == before + 1 && text_views(now@).last() == id@),
{
    let n: usize = now.len();
    if n == 0 || n - 1 != before {
        return false;
    }
    assert(text_views(now@).last() == now@[n - 1]@);
    text::same(now[n - 1].as_str(), id)
}

/// Whether a separator with that identity was put in second.
pub fn separator_second(before: usize, list: &Vec<PinnedApp>, id: &str) -> (r: bool)
    ensures
        r == (list@.len() == before + 1 && list@.len() > 1 && list@[1]@.id == id@
            && list@[1]@.separator),
{
    let n: usize = list.len();
    n > 1 && n - 1 == before && text::same(list[1].id.as_str(), id) && list[1].separator
}

/// Whether another separator than that one was put in second.
pub fn other_separator_second(before: usize, list: &Vec<PinnedApp>, id: &str) -> (r: bool)
    ensures
        r == (list@.len() == before + 1 && list@.len() > 1 && list@[1]@.id != id@
            && list@[1]@.separator),
{
    let n: usize = list.len();
    n > 1 && n - 1 == before && !text::same(list[1].id.as_str(), id) && list[1].separator
}

/// How many entries are separators.
pub open spec fn separator_count(s: Seq<PinnedView>) -> nat
    decreases s.len(),
{
    if s.len() == 0 {
        0
    } else {
        separator_count(s.drop_last()) + if s.last().separator {
            1nat
        } else {
            0nat
        }
    }
}

/// How many entries are separators.
pub fn count_separators(list: &Vec<PinnedApp>) -> (r: usize)
    ensures
        r == separator_count(pinned_views(list@)),
        r <= list@.len(),
{
    let ghost all = pinned_views(list@);
    let mut n: usize = 0;
    let mut i: usize = 0;
    assert(all.take(0) =~= Seq::empty());
    while i < list.len()
        invariant
            i <= list@.len(),
            n <= i,
            all == pinned_views(list@),
            n == separator_count(all.take(i as int)),
        decreases list@.len() - i,
    {
        assert(all.take(i + 1).drop_last() =~= all.take(i as int));
        assert(all.take(i + 1).last() == list@[i as int]@);
        if list[i].separator {
            n += 1;
        }
        i += 1;
    }
    assert(all.take(list@.len() as int) =~= all);
    n
}

// ---------------------------------------------------------------- folders

/// The position of the first entry that passes a test, or the length.
pub open spec fn first_where(s: Seq<PinnedView>, f: spec_fn(PinnedView) -> bool) -> int
    decreases s.len(),
{
    if s.len() == 0 || f(s[0]) {
        0
    } else {
        1 + first_where(s.skip(1), f)
    }
}

/// An entry that can be made a folder; `place` asks for a place of the system.
pub open spec fn seed_rule(place: bool) -> spec_fn(PinnedView) -> bool {
    |p: PinnedView|
        !p.separator && !p.is_folder && if place {
            shell_location(p.target)
        } else {
            p.target.len() > 0
        }
}

fn first_seed(list: &Vec<PinnedApp>, place: bool) -> (r: usize)
    ensures
        r == first_where(pinned_views(list@), seed_rule(place)),
        r <= list@.len(),
{
    let ghost all = pinned_views(list@);
    let ghost rule = seed_rule(place);
    let mut i: usize = 0;
    assert(all.skip(0) =~= all);
    while i < list.len()
        invariant
            i <= list@.len(),
            all == pinned_views(list@),
            rule == seed_rule(place),
            first_where(all, rule) == i + first_where(all.skip(i as int), rule),
        decreases list@.len() - i,
    {
        assert(all.skip(i as int)[0] == list@[i as int]@);
        assert(all.skip(i as int).skip(1) =~= all.skip(i + 1));
        let good = if place {
            apps::is_shell_location(list[i].target.as_str())
        } else {
            !list[i].target.as_str().is_empty()
        };
        if !list[i].separator && !list[i].is_folder && good {
            return i;
        }
        i += 1;
    }
    assert(all.skip(i as int).len() == 0);
    i
}

/// The entry that is made a folder: a place of the system where there is one,
/// else any application.
pub fn pick_seed(list: &Vec<PinnedApp>) -> (r: Option<usize>)
    ensures
        ({
            let s = pinned_views(list@);
            let a = first_where(s, seed_rule(true));
            let b = first_where(s, seed_rule(false));
            match r {
                Some(i) => i < s.len() && i == if a < s.len() {
                    a
                } else {
                    b
                },
                None => a >= s.len() && b >= s.len(),
            }
        }),
{
    let a = first_seed(list, true);
    if a < list.len() {
        return Some(a);
    }
    let b = first_seed(list, false);
    if b < list.len() {
        Some(b)
    } else {
        None
    }
}

/// An entry is a folder.
pub open spec fn folder_rule() -> spec_fn(PinnedView) -> bool {
    |p: PinnedView| p.is_folder
}

/// The position of the first folder.
pub fn first_folder(list: &Vec<PinnedApp>) -> (r: Option<usize>)
    ensures
        ({
            let i = first_where(pinned_views(list@), folder_rule());
            match r {
                Some(k) => k == i && k < list@.len(),
                None => i >= list@.len(),
            }
        }),
{
    let ghost all = pinned_views(list@);
    let ghost rule = folder_rule();
    let mut i: usize = 0;
    assert(all.skip(0) =~= all);
    while i < list.len()
        invariant
            i <= list@.len(),
            all == pinned_views(list@),
            rule == folder_rule(),
            first_where(all, rule) == i + first_where(all.skip(i as int), rule),
        decreases list@.len() - i,
    {
        assert(all.skip(i as int)[0] == list@[i as int]@);
        assert(all.skip(i as int).skip(1) =~= all.skip(i + 1));
        if list[i].is_folder {
            return Some(i);
        }
        i += 1;
    }
    assert(all.skip(i as int).len() == 0);
    None
}

/// Whether the first folder holds exactly that entry.
pub fn folder_made(list: &Vec<PinnedApp>, seed: &str) -> (r: bool)
    ensures
        ({
            let s = pinned_views(list@);
            let i = first_where(s, folder_rule());
            r == (i < s.len() && s[i].children.len() == 1 && s[i].children[0].id == seed@)
        }),
{
    match first_folder(list) {
        Some(i) => {
            proof {
                lemma_children_views(list@[i as int]);
            }
            let c = &list[i].children;
            c.len() == 1 && text::same(c[0].id.as_str(), seed)
        },
        None => false,
    }
}

/// How many entries the folder with that identity holds; none where there is no
/// such.
pub open spec fn held(s: Seq<PinnedView>, id: Seq<char>) -> nat {
    let i = pin_index(s, id);
    if i < s.len() {
        s[i].children.len()
    } else {
        0
    }
}

/// How many entries the folder with that identity holds.
pub fn children_of(list: &Vec<PinnedApp>, id: &str) -> (r: usize)
    ensures
        r == held(pinned_views(list@), id@),
{
    let i = store::find_pin(list, id);
    if i < list.len() {
        proof {
            lemma_children_views(list@[i as int]);
        }
        list[i].children.len()
    } else {
        0
    }
}

/// An entry that can be dragged into a folder; `running` gives the identities
/// of which it has to be one, where that is asked for.
pub open spec fn drag_rule(folder_id: Seq<char>, running: Option<Seq<Seq<char>>>) -> spec_fn(
    PinnedView,
) -> bool {
    |p: PinnedView|
        !p.separator && !p.is_folder && p.target.len() > 0 && p.id != folder_id && match running {
            Some(ids) => ids.contains(p.id),
            None => true,
        }
}

fn first_draggable(
    list: &Vec<PinnedApp>,
    folder_id: &str,
    running: &Vec<String>,
    only_running: bool,
) -> (r: usize)
    ensures
        r == first_where(
            pinned_views(list@),
            drag_rule(
                folder_id@,
                if only_running {
                    Some(text_views(running@))
                } else {
                    None
                },
            ),
        ),
        r <= list@.len(),
{
    let ghost all = pinned_views(list@);
    let ghost rule = drag_rule(
        folder_id@,
        if only_running {
            Some(text_views(running@))
        } else {
            None
        },
    );
    let mut i: usize = 0;
    assert(all.skip(0) =~= all);
    while i < list.len()
        invariant
            i <= list@.len(),
            all == pinned_views(list@),
            rule == drag_rule(
                folder_id@,
                if only_running {
                    Some(text_views(running@))
                } else {
                    None
                },
            ),
            first_where(all, rule) == i + first_where(all.skip(i as int), rule),
        decreases list@.len() - i,
    {
        assert(all.skip(i as int)[0] == list@[i as int]@);
        assert(all.skip(i as int).skip(1) =~= all.skip(i + 1));
        let p = &list[i];
        if !p.separator && !p.is_folder && !p.target.as_str().is_empty() && !text::same(
            p.id.as_str(),
            folder_id,
        ) && (!only_running || has_text(running, p.id.as_str())) {
            return i;
        }
        i += 1;
    }
    assert(all.skip(i as int).len() == 0);
    i
}

/// The entry that is dragged into a folder: one that is running where there is
/// one, else any.
pub fn pick_draggable(list: &Vec<PinnedApp>, folder_id: &str, running: &Vec<String>) -> (r: Option<
    usize,
>)
    ensures
        ({
            let s = pinned_views(list@);
            let a = first_where(s, drag_rule(folder_id@, Some(text_views(running@))));
            let b = first_where(s, drag_rule(folder_id@, None));
            match r {
                Some(i) => i < s.len() && i == if a < s.len() {
                    a
                } else {
                    b
                },
                None => a >= s.len() && b >= s.len(),
            }
        }),
{
    let a = first_draggable(list, folder_id, running, true);
    if a < list.len() {
        return Some(a);
    }
    let b = first_draggable(list, folder_id, running, false);
    if b < list.len() {
        Some(b)
    } else {
        None
    }
}

/// Whether an entry went into a folder: one fewer outside, two inside.
pub fn dragged_in(before: &Vec<PinnedApp>, after: &Vec<PinnedApp>, folder_id: &str) -> (r: bool)
    ensures
        ({
            let a = pinned_views(before@);
            let b = pinned_views(after@);
            r == (b.len() - separator_count(b) + 1 == a.len() - separator_count(a) && held(
                b,
                folder_id@,
            ) == 2)
        }),
{
    let a: usize = before.len() - count_separators(before);
    let b: usize = after.len() - count_separators(after);
    a > 0 && b == a - 1 && children_of(after, folder_id) == 2
}

/// Whether an entry was moved out of its folder, to the place behind it.
pub fn moved_out_behind(
    before: &Vec<PinnedApp>,
    after: &Vec<PinnedApp>,
    folder_id: &str,
    child: &str,
) -> (r: bool)
    ensures
        ({
            let a = pinned_views(before@);
            let b = pinned_views(after@);
            let at = pin_index(b, child@);
            let folder = pin_index(b, folder_id@);
            r == (held(b, folder_id@) + 1 == held(a, folder_id@) && at < b.len() && folder < b.len()
                && at == folder + 1)
        }),
{
    let n_before = children_of(before, folder_id);
    let n_after = children_of(after, folder_id);
    let at = store::find_pin(after, child);
    let folder = store::find_pin(after, folder_id);
    n_before > 0 && n_after == n_before - 1 && at < after.len() && folder < after.len() && at > 0
        && at - 1 == folder
}

/// Whether a folder is gone and what it held is outside.
pub fn dissolved_ok(before: &Vec<PinnedApp>, after: &Vec<PinnedApp>, folder_id: &str) -> (r: bool)
    ensures
        ({
            let a = pinned_views(before@);
            let b = pinned_views(after@);
            r == (!has_id(b, folder_id@) && b.len() + 1 == a.len() + held(a, folder_id@))
        }),
{
    let i = store::find_pin(after, folder_id);
    proof {
        store::lemma_pin_index(pinned_views(after@), folder_id@);
    }
    if i < after.len() {
        return false;
    }
    let n = children_of(before, folder_id);
    after.len() as u128 + 1 == before.len() as u128 + n as u128
}

/// Whether two lists of flags are the same.
pub fn same_flags(a: &Vec<bool>, b: &Vec<bool>) -> (r: bool)
    ensures
        r == (a@ == b@),
{
    if a.len() != b.len() {
        return false;
    }
    let mut i: usize = 0;
    while i < a.len()
        invariant
            i <= a@.len() == b@.len(),
            forall|k: int| 0 <= k < i ==> a@[k] == b@[k],
        decreases a@.len() - i,
    {
        if a[i] != b[i] {
            return false;
        }
        i += 1;
    }
    assert(a@ =~= b@);
    true
}

/// Whether the page marks exactly the running applications of a folder. Where a
/// running one was put in, one has to be marked.
pub fn dots_ok(want: &Vec<bool>, got: &Vec<bool>, put_in_running: bool) -> (r: bool)
    ensures
        r == (want@.len() > 0 && got@ == want@ && (want@.contains(true) || !put_in_running)),
{
    let same = same_flags(want, got);
    let mut any = false;
    let mut i: usize = 0;
    while i < want.len()
        invariant
            i <= want@.len(),
            any ==> want@.contains(true),
            !any ==> forall|k: int| 0 <= k < i ==> !want@[k],
        decreases want@.len() - i,
    {
        if want[i] {
            assert(want@[i as int]);
            any = true;
        }
        i += 1;
    }
    want.len() > 0 && same && (any || !put_in_running)
}

// ---------------------------------------------------------------- menus

/// The position of an item among those that are no dividers, or their number.
pub open spec fn item_position(s: Seq<ItemView>, id: Seq<char>) -> int
    decreases s.len(),
{
    if s.len() == 0 {
        0
    } else if s[0].divider {
        item_position(s.skip(1), id)
    } else if s[0].id == id {
        0
    } else {
        1 + item_position(s.skip(1), id)
    }
}

/// How many items are dividers.
pub open spec fn divider_count(s: Seq<ItemView>) -> nat
    decreases s.len(),
{
    if s.len() == 0 {
        0
    } else {
        divider_count(s.skip(1)) + if s[0].divider {
            1nat
        } else {
            0nat
        }
    }
}

/// How many items and how many dividers a menu has.
pub fn menu_counts(items: &Vec<MenuItem>) -> (r: (usize, usize))
    ensures
        r.1 == divider_count(item_views(items@)),
        r.0 + r.1 == items@.len(),
{
    let ghost all = item_views(items@);
    let mut n: usize = 0;
    let mut i: usize = 0;
    assert(all.skip(0) =~= all);
    while i < items.len()
        invariant
            i <= items@.len(),
            n <= i,
            all == item_views(items@),
            divider_count(all) == n + divider_count(all.skip(i as int)),
        decreases items@.len() - i,
    {
        assert(all.skip(i as int)[0] == items@[i as int]@);
        assert(all.skip(i as int).skip(1) =~= all.skip(i + 1));
        if items[i].divider {
            n += 1;
        }
        i += 1;
    }
    assert(all.skip(i as int).len() == 0);
    (items.len() - n, n)
}

/// The position of an item among those that are no dividers.
pub fn item_index(items: &Vec<MenuItem>, id: &str) -> (r: Option<usize>)
    ensures
        ({
            let s = item_views(items@);
            let i = item_position(s, id@);
            match r {
                Some(k) => k == i && i < s.len() - divider_count(s),
                None => i >= s.len() - divider_count(s),
            }
        }),
{
    let ghost all = item_views(items@);
    let mut n: usize = 0;
    let mut i: usize = 0;
    assert(all.skip(0) =~= all);
    while i < items.len()
        invariant
            i <= items@.len(),
            n <= i,
            all == item_views(items@),
            item_position(all, id@) == n + item_position(all.skip(i as int), id@),
            all.len() - divider_count(all) == n + (all.skip(i as int).len() - divider_count(
                all.skip(i as int),
            )),
        decreases items@.len() - i,
    {
        let ghost rest = all.skip(i as int);
        assert(rest[0] == items@[i as int]@);
        assert(rest.skip(1) =~= all.skip(i + 1));
        if !items[i].divider {
            if text::same(items[i].id.as_str(), id) {
                proof {
                    lemma_divider_count(rest.skip(1));
                }
                return Some(n);
            }
            n += 1;
        }
        i += 1;
    }
    assert(all.skip(i as int).len() == 0);
    None
}

proof fn lemma_divider_count(s: Seq<ItemView>)
    ensures
        divider_count(s) <= s.len(),
    decreases s.len(),
{
    if s.len() > 0 {
        lemma_divider_count(s.skip(1));
    }
}

/// Whether a menu offers nothing but to remove the entry.
pub fn only_removal(items: &Vec<MenuItem>) -> (r: bool)
    ensures
        r == (items@.len() == 1 && items@[0]@.id == crate::menu::id::REMOVE@),
{
    items.len() == 1 && text::same(items[0].id.as_str(), crate::menu::id::REMOVE)
}

/// The position of the first item with that identity, or the length.
pub open spec fn item_at(s: Seq<ItemView>, id: Seq<char>) -> int
    decreases s.len(),
{
    if s.len() == 0 || s[0].id == id {
        0
    } else {
        1 + item_at(s.skip(1), id)
    }
}

fn find_item(items: &Vec<MenuItem>, id: &str) -> (r: usize)
    ensures
        r == item_at(item_views(items@), id@),
        r <= items@.len(),
{
    let ghost all = item_views(items@);
    let mut i: usize = 0;
    assert(all.skip(0) =~= all);
    while i < items.len()
        invariant
            i <= items@.len(),
            all == item_views(items@),
            item_at(all, id@) == i + item_at(all.skip(i as int), id@),
        decreases items@.len() - i,
    {
        assert(all.skip(i as int)[0] == items@[i as int]@);
        assert(all.skip(i as int).skip(1) =~= all.skip(i + 1));
        if text::same(items[i].id.as_str(), id) {
            return i;
        }
        i += 1;
    }
    assert(all.skip(i as int).len() == 0);
    i
}

/// Whether a menu offers to empty the recycle bin, greyed where it is empty.
pub fn bin_item_ok(items: &Vec<MenuItem>, bin_items: u32) -> (r: bool)
    ensures
        ({
            let s = item_views(items@);
            let i = item_at(s, crate::menu::id::EMPTY_BIN@);
            r == (i < s.len() && s[i].enabled == (bin_items > 0))
        }),
{
    let i = find_item(items, crate::menu::id::EMPTY_BIN);
    i < items.len() && items[i].enabled == (bin_items > 0)
}

/// Whether the menu of a directory begins with opening it and offers no
/// administrator rights.
pub fn directory_menu_ok(items: &Vec<MenuItem>) -> (r: bool)
    ensures
        ({
            let s = item_views(items@);
            let i = item_at(s, crate::menu::id::RUNAS@);
            r == (s.len() > 0 && s[0].label == "打开"@ && i < s.len() && !s[i].enabled)
        }),
{
    let i = find_item(items, crate::menu::id::RUNAS);
    items.len() > 0 && text::same(items[0].label.as_str(), "打开") && i < items.len()
        && !items[i].enabled
}

/// The position of the first item whose label begins so, or the length.
pub open spec fn label_at(s: Seq<ItemView>, head: Seq<char>) -> int
    decreases s.len(),
{
    if s.len() == 0 || head.is_prefix_of(s[0].label) {
        0
    } else {
        1 + label_at(s.skip(1), head)
    }
}

/// The position of the first item whose label begins so.
pub fn find_label(items: &Vec<MenuItem>, head: &str) -> (r: Option<usize>)
    ensures
        ({
            let i = label_at(item_views(items@), head@);
            match r {
                Some(k) => k == i && k < items@.len(),
                None => i >= items@.len(),
            }
        }),
{
    let ghost all = item_views(items@);
    let mut i: usize = 0;
    assert(all.skip(0) =~= all);
    while i < items.len()
        invariant
            i <= items@.len(),
            all == item_views(items@),
            label_at(all, head@) == i + label_at(all.skip(i as int), head@),
        decreases items@.len() - i,
    {
        assert(all.skip(i as int)[0] == items@[i as int]@);
        assert(all.skip(i as int).skip(1) =~= all.skip(i + 1));
        if text::starts_with(items[i].label.as_str(), head) {
            return Some(i);
        }
        i += 1;
    }
    assert(all.skip(i as int).len() == 0);
    None
}

/// Whether the menu of a folder offers to dissolve and to remove it.
pub fn folder_menu_ok(items: &Vec<MenuItem>) -> (r: bool)
    ensures
        ({
            let s = item_views(items@);
            r == (label_at(s, "解散文件夹"@) < s.len() && label_at(s, "移出 Dock"@) < s.len())
        }),
{
    let a = find_label(items, "解散文件夹");
    let b = find_label(items, "移出 Dock");
    match (a, b) {
        (Some(_), Some(_)) => true,
        _ => false,
    }
}

/// Whether removing a folder says how many entries go with it.
pub fn removal_counts(items: &Vec<MenuItem>, children: usize) -> (r: bool)
    ensures
        ({
            let s = item_views(items@);
            let i = label_at(s, "移出 Dock"@);
            r == (i < s.len() && occurs(s[i].label, decimal(children as nat)))
        }),
{
    match find_label(items, "移出 Dock") {
        Some(i) => {
            let d = text::decimal_string(children as u64);
            text::contains(items[i].label.as_str(), d.as_str())
        },
        None => false,
    }
}

/// Whether an item has exactly that label.
pub fn has_label(items: &Vec<MenuItem>, label: &str) -> (r: bool)
    ensures
        r == (exists|i: int| 0 <= i < items@.len() && (#[trigger] items@[i])@.label == label@),
{
    let mut i: usize = 0;
    while i < items.len()
        invariant
            i <= items@.len(),
            forall|k: int| 0 <= k < i ==> (#[trigger] items@[k])@.label != label@,
        decreases items@.len() - i,
    {
        if text::same(items[i].label.as_str(), label) {
            assert(items@[i as int]@.label == label@);
            return true;
        }
        i += 1;
    }
    false
}

// ---------------------------------------------------------------- places on the screen

/// The middle of two coordinates.
pub fn middle(a: i32, b: i32) -> (r: i32)
    ensures
        r == half(a + b),
{
    let sum: i64 = a as i64 + b as i64;
    if sum >= 0 {
        (sum / 2) as i32
    } else {
        (-((-sum) / 2)) as i32
    }
}

/// Whether a menu stands above the dock and on the screen.
pub fn above_dock(menu: &Rect, dock: &Rect, area: &Rect) -> (r: bool)
    ensures
        r == (menu.bottom <= dock.top && menu.top >= area.top),
{
    menu.bottom <= dock.top && menu.top >= area.top
}

/// Whether a folder grows out of the dock: close above it.
pub fn close_above(panel: &Rect, dock: &Rect) -> (r: bool)
    ensures
        r == (panel.bottom <= dock.top && panel.bottom > dock.top - 40),
{
    panel.bottom <= dock.top && panel.bottom as i64 > dock.top as i64 - 40
}

/// How far something lies from a middle.
pub open spec fn off_middle(left: int, right: int, x: int) -> int {
    if half(left + right) >= x {
        half(left + right) - x
    } else {
        x - half(left + right)
    }
}

/// Whether something stands in the middle over a coordinate.
pub fn centred(rect: &Rect, x: i32, tolerance: i32) -> (r: bool)
    ensures
        r == (off_middle(rect.left as int, rect.right as int, x as int) <= tolerance),
{
    let d: i64 = middle(rect.left, rect.right) as i64 - x as i64;
    let off: i64 = if d >= 0 {
        d
    } else {
        -d
    };
    off <= tolerance as i64
}

/// Whether a change is as large as expected, up to rounding.
pub fn changed_by(change: i64, expected: i64) -> (r: bool)
    ensures
        r == (-2 <= change - expected <= 2),
{
    let d: i128 = change as i128 - expected as i128;
    -2 <= d && d <= 2
}

/// The size of icons that a test sets: another than they have.
pub fn other_icon_size(size: u32) -> (r: u32)
    ensures
        r == if size == 56 {
            48u32
        } else {
            56u32
        },
        r != size,
{
    if size == 56 {
        48
    } else {
        56
    }
}

/// Whether the page gives an icon that width.
pub fn icon_width_ok(shown: &str, size: u32) -> (r: bool)
    ensures
        r == (trimmed(shown@) == decimal(size as nat) + "px"@),
{
    let t = text::trim(shown);
    let w = text::concat(text::decimal_string(size as u64).as_str(), "px");
    text::same(t.as_str(), w.as_str())
}

// ---------------------------------------------------------------- windows

/// A window with that handle is among them.
pub open spec fn has_window(s: Seq<WindowView>, hwnd: u64) -> bool {
    exists|i: int| 0 <= i < s.len() && (#[trigger] s[i]).hwnd == hwnd
}

fn is_among(list: &Vec<WindowRef>, hwnd: u64) -> (r: bool)
    ensures
        r == has_window(window_views(list@), hwnd),
{
    let ghost all = window_views(list@);
    let mut i: usize = 0;
    while i < list.len()
        invariant
            i <= list@.len(),
            all == window_views(list@),
            forall|k: int| 0 <= k < i ==> (#[trigger] all[k]).hwnd != hwnd,
        decreases list@.len() - i,
    {
        assert(all[i as int] == list@[i as int]@);
        if list[i].hwnd == hwnd {
            return true;
        }
        i += 1;
    }
    false
}

/// The windows that were not there before.
pub open spec fn fresh(before: Seq<WindowView>, after: Seq<WindowView>) -> Seq<WindowView>
    decreases after.len(),
{
    if after.len() == 0 {
        Seq::empty()
    } else {
        let rest = fresh(before, after.drop_last());
        if has_window(before, after.last().hwnd) {
            rest
        } else {
            rest.push(after.last())
        }
    }
}

/// The windows that were not there before.
pub fn fresh_windows(before: &Vec<WindowRef>, after: &Vec<WindowRef>) -> (r: Vec<WindowRef>)
    ensures
        window_views(r@) == fresh(window_views(before@), window_views(after@)),
{
    let ghost old_ones = window_views(before@);
    let ghost all = window_views(after@);
    let mut r: Vec<WindowRef> = Vec::new();
    let mut i: usize = 0;
    assert(all.take(0) =~= Seq::empty());
    assert(window_views(r@) =~= Seq::empty());
    while i < after.len()
        invariant
            i <= after@.len(),
            old_ones == window_views(before@),
            all == window_views(after@),
            window_views(r@) == fresh(old_ones, all.take(i as int)),
        decreases after@.len() - i,
    {
        assert(all.take(i + 1).drop_last() =~= all.take(i as int));
        assert(all.take(i + 1).last() == after@[i as int]@);
        if !is_among(before, after[i].hwnd) {
            let w = after[i].clone();
            let ghost so_far = window_views(r@);
            r.push(w);
            assert(window_views(r@) =~= so_far.push(w@));
        }
        i += 1;
    }
    assert(all.take(after@.len() as int) =~= all);
    r
}

/// Whether none of those windows is left.
pub fn all_closed(opened: &Vec<WindowRef>, now: &Vec<WindowRef>) -> (r: bool)
    ensures
        r == (forall|i: int|
            0 <= i < opened@.len() ==> !has_window(
                window_views(now@),
                (#[trigger] opened@[i]).hwnd,
            )),
{
    let mut i: usize = 0;
    while i < opened.len()
        invariant
            i <= opened@.len(),
            forall|k: int|
                0 <= k < i ==> !has_window(window_views(now@), (#[trigger] opened@[k]).hwnd),
        decreases opened@.len() - i,
    {
        if is_among(now, opened[i].hwnd) {
            return false;
        }
        i += 1;
    }
    true
}

/// Whether something was opened: there are more windows, or one has that name
/// in its title.
pub fn something_opened(before: usize, now: &Vec<WindowRef>, name: &str) -> (r: bool)
    ensures
        r == (now@.len() > before || exists|i: int|
            0 <= i < now@.len() && occurs((#[trigger] now@[i])@.title, name@)),
{
    if now.len() > before {
        return true;
    }
    let mut i: usize = 0;
    while i < now.len()
        invariant
            i <= now@.len(),
            forall|k: int| 0 <= k < i ==> !occurs((#[trigger] now@[k])@.title, name@),
        decreases now@.len() - i,
    {
        if text::contains(now[i].title.as_str(), name) {
            assert(occurs(now@[i as int]@.title, name@));
            return true;
        }
        i += 1;
    }
    false
}

/// The windows of the first application whose identity ends so.
pub open spec fn windows_of(s: Seq<AppView>, end: Seq<char>) -> Seq<WindowView>
    decreases s.len(),
{
    if s.len() == 0 {
        Seq::empty()
    } else if end.is_suffix_of(s[0].id) {
        s[0].windows
    } else {
        windows_of(s.skip(1), end)
    }
}

/// The windows of the file manager.
pub fn explorer_windows(running: &Vec<AppEntry>) -> (r: Vec<WindowRef>)
    ensures
        window_views(r@) == windows_of(app_views(running@), "explorer.exe"@),
{
    let ghost all = app_views(running@);
    let mut i: usize = 0;
    assert(all.skip(0) =~= all);
    while i < running.len()
        invariant
            i <= running@.len(),
            all == app_views(running@),
            windows_of(all, "explorer.exe"@) == windows_of(all.skip(i as int), "explorer.exe"@),
        decreases running@.len() - i,
    {
        assert(all.skip(i as int)[0] == running@[i as int]@);
        assert(all.skip(i as int).skip(1) =~= all.skip(i + 1));
        if text::ends_with(running[i].id.as_str(), "explorer.exe") {
            return crate::model::clone_windows(&running[i].windows);
        }
        i += 1;
    }
    assert(all.skip(i as int).len() == 0);
    let r: Vec<WindowRef> = Vec::new();
    assert(window_views(r@) =~= Seq::empty());
    r
}

/// A top-level window, seen from the dock.
#[derive(Debug)]
pub struct Layered {
    pub hwnd: u64,
    pub visible: bool,
    pub iconic: bool,
    pub rect: Rect,
    pub class: String,
}

/// A window that could cover the dock's place: it is shown, overlaps the dock
/// and is not the desktop.
pub open spec fn suspicious(w: Layered, dock: Rect) -> bool {
    w.visible && !w.iconic && w.rect.left < w.rect.right && w.rect.top < w.rect.bottom
        && w.rect.right >= dock.left && w.rect.left <= dock.right && w.rect.bottom >= dock.top
        && w.rect.top <= dock.bottom && w.class@ != "Progman"@ && w.class@ != "WorkerW"@
}

/// The positions of the windows that stand below the dock and should not.
pub open spec fn below(stack: Seq<Layered>, dock: u64, rect: Rect, n: nat) -> Seq<usize>
    decreases n,
{
    if n == 0 {
        Seq::empty()
    } else {
        let rest = below(stack, dock, rect, (n - 1) as nat);
        let w = stack[n - 1];
        if w.hwnd != dock && suspicious(w, rect) && dock_before(stack, dock, (n - 1) as nat) {
            rest.push((n - 1) as usize)
        } else {
            rest
        }
    }
}

/// The dock is among the first windows.
pub open spec fn dock_before(stack: Seq<Layered>, dock: u64, n: nat) -> bool {
    exists|i: int| 0 <= i < n && (#[trigger] stack[i]).hwnd == dock
}

/// The positions of the windows that stand below the dock and should not.
/// `stack` lists the top-level windows from the top down.
pub fn windows_below(stack: &Vec<Layered>, dock: u64, rect: &Rect) -> (r: Vec<usize>)
    ensures
        r@ == below(stack@, dock, *rect, stack@.len()),
{
    let mut r: Vec<usize> = Vec::new();
    let mut seen = false;
    let mut i: usize = 0;
    while i < stack.len()
        invariant
            i <= stack@.len(),
            seen == dock_before(stack@, dock, i as nat),
            r@ == below(stack@, dock, *rect, i as nat),
        decreases stack@.len() - i,
    {
        let w = &stack[i];
        let ghost was = seen;
        if w.hwnd == dock {
            assert(stack@[i as int].hwnd == dock);
            seen = true;
        } else if seen && w.visible && !w.iconic && w.rect.left < w.rect.right && w.rect.top
            < w.rect.bottom && w.rect.right >= rect.left && w.rect.left <= rect.right
            && w.rect.bottom >= rect.top && w.rect.top <= rect.bottom && !text::same(
            w.class.as_str(),
            "Progman",
        ) && !text::same(w.class.as_str(), "WorkerW") {
            r.push(i);
        }
        proof {
            assert(seen == dock_before(stack@, dock, (i + 1) as nat)) by {
                if was {
                    let k = choose|k: int| 0 <= k < i && (#[trigger] stack@[k]).hwnd == dock;
                    assert(stack@[k].hwnd == dock);
                }
            }
        }
        i += 1;
    }
    r
}

// ---------------------------------------------------------------- dropping

/// What is said of an outcome that was not expected.
pub fn describe_outcome(o: &Outcome) -> (r: String)
    ensures
        r@ == match o@ {
            OutcomeView::Added { name, running } => "意外地被接受: "@ + name + " running="@ + (
            if running {
                "true"@
            } else {
                "false"@
            }),
            OutcomeView::Already { name } => "意外地判定为已在: "@ + name,
            OutcomeView::Rejected { why, .. } => "意外地被拒绝: "@ + why,
        },
{
    match o {
        Outcome::Added { name, running } => {
            let mut r = text::concat3("意外地被接受: ", name.as_str(), " running=");
            if *running {
                r.append("true");
            } else {
                r.append("false");
            }
            r
        },
        Outcome::Already { name } => text::concat("意外地判定为已在: ", name.as_str()),
        Outcome::Rejected { why, .. } => text::concat("意外地被拒绝: ", why.as_str()),
    }
}

/// Whether a file of another kind was rejected as it should: with the reason,
/// and under the name of the file alone.
pub fn other_file_rejected(name: &str, why: &str) -> (r: bool)
    ensures
        r == (occurs(why@, "只接受"@) && ".txt"@.is_suffix_of(name@)),
{
    text::contains(why, "只接受") && text::ends_with(name, ".txt")
}

/// Whether a link leads to something that can be launched.
pub fn link_target_ok(target: &str) -> (r: bool)
    ensures
        r == (".exe"@.is_suffix_of(lowercase(target@)) || "shell:"@.is_prefix_of(target@)),
{
    text::ends_with(target.to_lowercase().as_str(), ".exe") || text::starts_with(target, "shell:")
}

/// Whether a running application can be dropped for a test: it is a program
/// that is there and not yet on the dock.
pub fn can_be_dropped(app: &AppEntry, present: bool, pinned: &Vec<String>) -> (r: bool)
    ensures
        r == (".exe"@.is_suffix_of(lowercase(app@.target)) && present && !text_views(
            pinned@,
        ).contains(app@.id)),
{
    text::ends_with(app.target.as_str().to_lowercase().as_str(), ".exe") && present && !has_text(
        pinned,
        app.id.as_str(),
    )
}

/// Whether the hint says that the entry goes when it is let go.
pub fn hint_ok(hint: &str, name: &str) -> (r: bool)
    ensures
        r == (occurs(hint@, "松开即移除"@) && occurs(hint@, name@)),
{
    text::contains(hint, "松开即移除") && text::contains(hint, name)
}

// ---------------------------------------------------------------- putting the list back

/// The list after one entry that a test left was taken away.
pub open spec fn cleaned_of(
    s: Seq<PinnedView>,
    p: PinnedView,
    keep: Seq<Seq<char>>,
) -> Seq<PinnedView> {
    if keep.contains(p.id) {
        s
    } else {
        let a = if p.separator {
            removed(s, p.id)
        } else {
            s
        };
        if p.is_folder {
            match dissolved(a, p.id) {
                Ok((list, _)) => list,
                Err(_) => a,
            }
        } else {
            a
        }
    }
}

/// The list after the first `n` of the entries that were there were looked at.
pub open spec fn cleaned(
    s: Seq<PinnedView>,
    seen: Seq<PinnedView>,
    keep: Seq<Seq<char>>,
    n: nat,
) -> Seq<PinnedView>
    decreases n,
{
    if n == 0 {
        s
    } else {
        cleaned_of(cleaned(s, seen, keep, (n - 1) as nat), seen[n - 1], keep)
    }
}

/// The list after the first `n` of the original entries were put back.
pub open spec fn put_back(s: Seq<PinnedView>, original: Seq<PinnedView>, n: nat) -> Seq<PinnedView>
    decreases n,
{
    if n == 0 {
        s
    } else {
        pinned_with(put_back(s, original, (n - 1) as nat), original[n - 1])
    }
}

/// The list put back: separators and folders of the test are taken away, what is
/// missing comes back, and the order is as it was.
pub open spec fn restored(s: Seq<PinnedView>, original: Seq<PinnedView>) -> Seq<PinnedView> {
    let ids = id_list(original);
    let a = cleaned(s, s, ids, s.len());
    let b = put_back(a, original, original.len());
    match reordered(b, ids) {
        Ok(list) => list,
        Err(_) => b,
    }
}

/// Puts the list back as it was before a test.
pub fn restore_separators(pinned: &mut Vec<PinnedApp>, original: &Vec<PinnedApp>)
    ensures
        pinned_views(final(pinned)@) == restored(
            pinned_views(old(pinned)@),
            pinned_views(original@),
        ),
{
    let ghost before = pinned_views(pinned@);
    let ghost first = pinned_views(original@);
    let ids = ids_of(original);
    let ghost keep = id_list(first);
    let seen = crate::model::clone_pinned(pinned);
    let mut i: usize = 0;
    while i < seen.len()
        invariant
            i <= seen@.len(),
            pinned_views(seen@) == before,
            text_views(ids@) == keep,
            pinned_views(pinned@) == cleaned(before, before, keep, i as nat),
        decreases seen@.len() - i,
    {
        let p = &seen[i];
        assert(before[i as int] == seen@[i as int]@);
        if !has_text(&ids, p.id.as_str()) {
            if p.separator {
                let _ = store::remove(pinned, p.id.as_str());
            }
            if p.is_folder {
                let _ = store::dissolve_folder(pinned, p.id.as_str());
            }
        }
        i += 1;
    }
    assert(before.len() == seen@.len());
    let ghost a = pinned_views(pinned@);
    let mut k: usize = 0;
    while k < original.len()
        invariant
            k <= original@.len(),
            first == pinned_views(original@),
            pinned_views(pinned@) == put_back(a, first, k as nat),
        decreases original@.len() - k,
    {
        assert(first[k as int] == original@[k as int]@);
        let _ = store::pin(pinned, original[k].clone());
        k += 1;
    }
    assert(first.len() == original@.len());
    let _ = store::reorder(pinned, &ids);
}

} // verus!
