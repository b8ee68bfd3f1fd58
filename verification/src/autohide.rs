//! Hiding the dock and bringing it back: the decisions of the loop that runs
//! some sixty times a second, and of the guard that keeps the desktop below it.

use vstd::prelude::*;
use vstd::string::*;
use crate::geometry::{fits, Point, Rect};
use crate::text;
use crate::text::{decimal, upper_hex};

verus! {

/// For how many frames the guard looks after the desktop may have been raised.
pub const WATCH_TICKS: u32 = 62;

/// For how many frames it goes on looking after it lowered the desktop.
pub const FOLLOWUP_TICKS: u32 = 24;

/// How many frames lie between two looks without any reason.
pub const FALLBACK_TICKS: u32 = 31;

/// How many frames lie between two looks at the topmost bit.
pub const TOPMOST_TICKS: u32 = 312;

/// How many frames lie between two signs of life.
pub const HEARTBEAT_TICKS: u32 = 18750;

/// How long after a message about the desktop the next one waits, in
/// milliseconds.
pub const LOG_THROTTLE_MS: u64 = 5000;

// ---------------------------------------------------------------- suspending

/// How many reasons there are not to hide the dock.
#[derive(Debug, Clone, Copy, PartialEq, Eq, Structural)]
pub struct Pauses {
    pub depth: usize,
}

impl Pauses {
    /// No reason.
    pub fn new() -> (r: Self)
        ensures
            r.depth == 0,
    {
        Pauses { depth: 0 }
    }

    /// One reason more.
    pub fn pause(&mut self)
        ensures
            final(self).depth == old(self).depth.wrapping_add(1),
    {
        self.depth = self.depth.wrapping_add(1);
    }

    /// One reason less; one too many is ignored.
    pub fn unpause(&mut self)
        ensures
            final(self).depth == if old(self).depth > 0 {
                old(self).depth - 1
            } else {
                0
            },
    {
        self.depth = self.depth.saturating_sub(1);
    }

    /// Whether there is a reason.
    pub fn is_paused(&self) -> (r: bool)
        ensures
            r == (self.depth > 0),
    {
        self.depth > 0
    }
}

// ---------------------------------------------------------------- the state

/// How the dock hides and comes back.
#[derive(Debug, Clone, Copy, PartialEq, Eq, Structural)]
pub struct RevealParams {
    /// How close to its lower edge the mouse brings it back, in pixels.
    pub trigger_px: i32,
    /// How long after the mouse left it hides, in milliseconds.
    pub hide_delay_ms: u64,
    /// How long it moves, in milliseconds.
    pub duration_ms: u64,
}

impl Default for RevealParams {
    fn default() -> (r: Self)
        ensures
            r == (RevealParams { trigger_px: 3, hide_delay_ms: 420, duration_ms: 180 }),
    {
        RevealParams { trigger_px: 3, hide_delay_ms: 420, duration_ms: 180 }
    }
}

/// Where a window stands.
#[derive(Debug, Clone, Copy, PartialEq, Eq, Structural)]
pub struct Placement {
    pub x: i32,
    pub y: i32,
    pub w: i32,
    pub h: i32,
}

/// Where the dock stands when it is shown.
pub fn target_of(r: &Rect) -> (t: Placement)
    requires
        fits(r.right - r.left),
        fits(r.bottom - r.top),
    ensures
        t == (Placement {
            x: r.left,
            y: r.top,
            w: (r.right - r.left) as i32,
            h: (r.bottom - r.top) as i32,
        }),
{
    Placement { x: r.left, y: r.top, w: r.right - r.left, h: r.bottom - r.top }
}

/// Where the dock's upper edge is when it is hidden: below the work area.
pub fn hidden_top(work_area: &Rect) -> (r: i32)
    requires
        fits(work_area.bottom + 2),
    ensures
        r == work_area.bottom + 2,
{
    work_area.bottom + 2
}

/// What made the guard look.
#[derive(Debug, Clone, Copy, PartialEq, Eq, Structural)]
pub enum Trigger {
    Nothing,
    /// A window of the desktop is at the middle of the dock.
    Covered,
    /// The desktop is in the foreground.
    Foreground,
    /// A window event, its code and how many there were.
    Event(u32, u32),
}

/// The counters that were last reported.
#[derive(Debug, Clone, Copy, PartialEq, Eq, Structural)]
pub struct Counters {
    /// Changes of the stacking order that were refused.
    pub zorder: u32,
    /// Topmost styles that were refused.
    pub style: u32,
    /// Window events.
    pub events: u32,
    /// How often the desktop was lowered.
    pub sinks: u32,
}

/// The state of the loop. Times are in milliseconds.
#[derive(Debug, Clone, Copy, PartialEq, Eq, Structural)]
pub struct RevealState {
    pub visible: bool,
    pub y: i32,
    /// Where the window was last put.
    pub applied: Option<Placement>,
    /// When the mouse was last on the dock.
    pub left_at: u64,
    /// Until when no decision is taken.
    pub cooldown_until: u64,
    pub tick: u32,
    /// For how many frames the guard still looks.
    pub watch_ticks: u32,
    /// When the lowered desktop was last reported.
    pub last_desktop_log: Option<u64>,
    pub last_foreground: i64,
    pub trigger: Trigger,
    pub reported: Counters,
}

impl RevealState {
    /// The state at the start: hidden.
    pub fn new(hidden: i32, now: u64) -> (r: Self)
        ensures
            !r.visible && r.y == hidden && r.applied is None,
            r.left_at == now && r.cooldown_until == now,
            r.tick == 0 && r.watch_ticks == 0,
            r.last_desktop_log is None && r.last_foreground == 0,
            r.trigger == Trigger::Nothing,
            r.reported == (Counters { zorder: 0, style: 0, events: 0, sinks: 0 }),
    {
        RevealState {
            visible: false,
            y: hidden,
            applied: None,
            left_at: now,
            cooldown_until: now,
            tick: 0,
            watch_ticks: 0,
            last_desktop_log: None,
            last_foreground: 0,
            trigger: Trigger::Nothing,
            reported: Counters { zorder: 0, style: 0, events: 0, sinks: 0 },
        }
    }
}

// ---------------------------------------------------------------- each frame

/// What has to be reported of the counters.
#[derive(Debug, Clone, Copy, PartialEq, Eq, Structural)]
pub struct CounterReport {
    pub any: bool,
    pub events: bool,
}

/// Compares the counters with what was last reported. Gives what has to be
/// reported.
pub fn report_counters(s: &mut RevealState, now: Counters) -> (r: CounterReport)
    ensures
        r.any == (now != old(s).reported),
        r.events == (now.events != old(s).reported.events),
        *final(s) == (RevealState { reported: now, ..*old(s) }),
{
    let last = s.reported;
    let any = now.zorder != last.zorder || now.style != last.style || now.events != last.events
        || now.sinks != last.sinks;
    let events = now.events != last.events;
    s.reported = now;
    CounterReport { any, events }
}

/// What is due in a frame.
#[derive(Debug, Clone, Copy, PartialEq, Eq, Structural)]
pub struct Due {
    /// The topmost bit has to be looked at.
    pub topmost: bool,
    /// The guard looks without any reason.
    pub fallback: bool,
    /// A sign of life has to be given.
    pub heartbeat: bool,
}

/// Counts a frame. Gives what is due in it.
pub fn next_tick(s: &mut RevealState) -> (r: Due)
    ensures
        ({
            let t = old(s).tick.wrapping_add(1);
            &&& *final(s) == (RevealState { tick: t, ..*old(s) })
            &&& r.topmost == (t % TOPMOST_TICKS == 0)
            &&& r.fallback == (t % FALLBACK_TICKS == 0)
            &&& r.heartbeat == (t % HEARTBEAT_TICKS == 0)
        }),
{
    let t: u32 = s.tick.wrapping_add(1);
    s.tick = t;
    Due {
        topmost: t % TOPMOST_TICKS == 0,
        fallback: t % FALLBACK_TICKS == 0,
        heartbeat: t % HEARTBEAT_TICKS == 0,
    }
}

/// The dock was minimised by the system and has been restored: it counts as
/// hidden, and where it stands is decided anew.
pub fn restored(s: &mut RevealState, hidden: i32)
    ensures
        *final(s) == (RevealState { visible: false, y: hidden, applied: None, ..*old(s) }),
{
    s.visible = false;
    s.y = hidden;
    s.applied = None;
}

/// What the guard sees in a frame.
#[derive(Debug, Clone, Copy, PartialEq, Eq, Structural)]
pub struct GuardSigns {
    /// A window of the desktop is at the middle of the dock.
    pub covered: bool,
    /// The foreground window.
    pub foreground: i64,
    /// It belongs to the desktop.
    pub foreground_is_desktop: bool,
    /// A window event said that the desktop may have been raised.
    pub suspected: bool,
    /// The last event and how many there were.
    pub event: u32,
    pub event_count: u32,
}

/// The foreground changed to the desktop; at the start nothing is known yet.
pub open spec fn desktop_came_forward(s: RevealState, g: GuardSigns) -> bool {
    g.foreground != s.last_foreground && s.last_foreground != 0 && g.foreground_is_desktop
}

/// What made the guard look, the last reason first; nothing where it only looks
/// now and then.
pub open spec fn found_trigger(s: RevealState, g: GuardSigns) -> Trigger {
    if next_watch(s, g) == 0 {
        Trigger::Nothing
    } else if g.suspected {
        Trigger::Event(g.event, g.event_count)
    } else if desktop_came_forward(s, g) {
        Trigger::Foreground
    } else if g.covered {
        Trigger::Covered
    } else {
        s.trigger
    }
}

/// For how many frames the guard still looks, this one excluded.
pub open spec fn next_watch(s: RevealState, g: GuardSigns) -> int {
    let w = if g.suspected || desktop_came_forward(s, g) || g.covered {
        WATCH_TICKS as int
    } else {
        s.watch_ticks as int
    };
    if w > 0 {
        w - 1
    } else {
        0
    }
}

/// Takes in what the guard sees. Gives whether it looks in this frame: for a
/// while after any sign, and now and then without one.
pub fn guard(s: &mut RevealState, g: &GuardSigns, fallback: bool) -> (r: bool)
    ensures
        final(s).watch_ticks == next_watch(*old(s), *g),
        *final(s) == (RevealState {
            watch_ticks: final(s).watch_ticks,
            trigger: found_trigger(*old(s), *g),
            last_foreground: g.foreground,
            ..*old(s)
        }),
        r == (next_watch(*old(s), *g) > 0 || fallback),
{
    if g.covered {
        s.watch_ticks = WATCH_TICKS;
        s.trigger = Trigger::Covered;
    }
    if g.foreground != s.last_foreground {
        let first = s.last_foreground == 0;
        s.last_foreground = g.foreground;
        if !first && g.foreground_is_desktop {
            s.watch_ticks = WATCH_TICKS;
            s.trigger = Trigger::Foreground;
        }
    }
    if g.suspected {
        s.watch_ticks = WATCH_TICKS;
        s.trigger = Trigger::Event(g.event, g.event_count);
    }
    if s.watch_ticks > 0 {
        s.watch_ticks = s.watch_ticks - 1;
    }
    if s.watch_ticks == 0 {
        s.trigger = Trigger::Nothing;
    }
    s.watch_ticks > 0 || fallback
}

/// Takes in that the desktop was above the dock and has been lowered. Gives
/// whether that has to be reported: not too often, unless everything is.
pub fn sunk(s: &mut RevealState, now: u64, report_all: bool) -> (r: bool)
    ensures
        r == (report_all || old(s).last_desktop_log is None || now - old(s).last_desktop_log->0
            >= LOG_THROTTLE_MS),
        *final(s) == (RevealState {
            watch_ticks: if old(s).watch_ticks >= FOLLOWUP_TICKS {
                old(s).watch_ticks
            } else {
                FOLLOWUP_TICKS
            },
            last_desktop_log: if r {
                Some(now)
            } else {
                old(s).last_desktop_log
            },
            ..*old(s)
        }),
{
    if s.watch_ticks < FOLLOWUP_TICKS {
        s.watch_ticks = FOLLOWUP_TICKS;
    }
    let due = match s.last_desktop_log {
        None => true,
        Some(t) => now.saturating_sub(t) >= LOG_THROTTLE_MS,
    };
    if report_all || due {
        s.last_desktop_log = Some(now);
        true
    } else {
        false
    }
}

/// How it was found out that the desktop was above the dock.
pub open spec fn how_text(t: Trigger, latency: u32) -> Seq<char> {
    match t {
        Trigger::Nothing => "500ms 兜底轮询发现"@,
        Trigger::Covered => "点探测：Dock 中心点被桌面系窗口接管"@,
        Trigger::Foreground => "前台窗口变成了桌面"@,
        Trigger::Event(e, c) => "WinEvent 0x"@ + upper_hex(e as nat, 4) + "（累计 "@ + decimal(
            c as nat,
        ) + " 次），事件→沉回 "@ + decimal(latency as nat) + "ms"@,
    }
}

/// How it was found out that the desktop was above the dock. `latency` is the
/// time since the last window event, in milliseconds.
pub fn how_found(t: Trigger, latency: u32) -> (r: String)
    ensures
        r@ == how_text(t, latency),
{
    match t {
        Trigger::Nothing => "500ms 兜底轮询发现".to_owned(),
        Trigger::Covered => "点探测：Dock 中心点被桌面系窗口接管".to_owned(),
        Trigger::Foreground => "前台窗口变成了桌面".to_owned(),
        Trigger::Event(e, c) => {
            let mut m = text::concat3(
                "WinEvent 0x",
                text::upper_hex_string(e as u64, 4).as_str(),
                "（累计 ",
            );
            m.append(text::decimal_string(c as u64).as_str());
            m.append(" 次），事件→沉回 ");
            m.append(text::decimal_string(latency as u64).as_str());
            m.append("ms");
            m
        },
    }
}

// ---------------------------------------------------------------- moving

/// A movement of the dock up or down.
#[derive(Debug, Clone, Copy, PartialEq, Eq, Structural)]
pub struct Slide {
    pub from_y: i32,
    pub to_y: i32,
    /// Up, into sight.
    pub up: bool,
    /// No decision is taken for a while after it.
    pub rest: bool,
}

/// What a frame does to the window.
#[derive(Debug, Clone, Copy, PartialEq, Eq, Structural)]
pub struct Frame {
    /// Put it here.
    pub put: Option<Placement>,
    /// Then move it.
    pub slide: Option<Slide>,
}

/// The mouse is on the dock, or just beside it.
pub open spec fn on_dock(t: Placement, c: Point) -> bool {
    t.x - 8 <= c.x <= t.x + t.w + 8 && t.y - 8 <= c.y <= t.y + t.h + 8
}

/// The mouse is at the lower edge.
pub open spec fn at_bottom(t: Placement, c: Point, p: RevealParams) -> bool {
    c.y >= t.y + t.h - p.trigger_px
}

/// How long it has been since a time.
pub open spec fn waited(since: u64, now: u64) -> int {
    if now >= since {
        now - since
    } else {
        0
    }
}

/// Where the window has to be put: nowhere, if it is there already.
pub open spec fn put_if_changed(s: RevealState, x: i32, y: i32, t: Placement) -> Option<Placement> {
    let q = Placement { x, y, w: t.w, h: t.h };
    if s.applied == Some(q) {
        None
    } else {
        Some(q)
    }
}

/// The state after a frame, and what it does. `held` says that the dock must not
/// hide.
pub open spec fn framed(
    s: RevealState,
    t: Placement,
    hidden: i32,
    held: bool,
    c: Point,
    now: u64,
    p: RevealParams,
) -> (RevealState, Frame) {
    let still = Frame { put: None, slide: None };
    let up = Slide { from_y: s.y, to_y: t.y, up: true, rest: !held };
    if t.w == 0 || t.h == 0 {
        (s, still)
    } else if held {
        if !s.visible {
            (s, Frame { put: None, slide: Some(up) })
        } else {
            let q = Placement { x: t.x, y: t.y, w: t.w, h: t.h };
            (
                RevealState { y: t.y, applied: Some(q), left_at: now, ..s },
                Frame { put: put_if_changed(s, t.x, t.y, t), slide: None },
            )
        }
    } else if now < s.cooldown_until {
        (s, still)
    } else if !s.visible {
        if at_bottom(t, c, p) {
            (s, Frame { put: None, slide: Some(up) })
        } else {
            (s, still)
        }
    } else {
        let q = Placement { x: t.x, y: t.y, w: t.w, h: t.h };
        let put = put_if_changed(s, t.x, t.y, t);
        if on_dock(t, c) {
            (
                RevealState { y: t.y, applied: Some(q), left_at: now, ..s },
                Frame { put, slide: None },
            )
        } else if waited(s.left_at, now) >= p.hide_delay_ms && !at_bottom(t, c, p) {
            (
                RevealState { y: t.y, applied: Some(q), ..s },
                Frame {
                    put,
                    slide: Some(Slide { from_y: t.y, to_y: hidden, up: false, rest: true }),
                },
            )
        } else {
            (RevealState { y: t.y, applied: Some(q), ..s }, Frame { put, slide: None })
        }
    }
}

fn put_once(s: &mut RevealState, q: Placement) -> (r: Option<Placement>)
    ensures
        *final(s) == (RevealState { applied: Some(q), ..*old(s) }),
        r == if old(s).applied == Some(q) {
            None
        } else {
            Some(q)
        },
{
    let same = match s.applied {
        Some(a) => a == q,
        None => false,
    };
    s.applied = Some(q);
    if same {
        None
    } else {
        Some(q)
    }
}

/// Decides what a frame does to the window. `held` says that the dock must not
/// hide: something is open, or hiding is switched off.
pub fn frame(
    s: &mut RevealState,
    t: Placement,
    hidden: i32,
    held: bool,
    c: Point,
    now: u64,
    p: &RevealParams,
) -> (r: Frame)
    ensures
        (*final(s), r) == framed(*old(s), t, hidden, held, c, now, *p),
{
    if t.w == 0 || t.h == 0 {
        return Frame { put: None, slide: None };
    }
    if held {
        if !s.visible {
            return Frame {
                put: None,
                slide: Some(Slide { from_y: s.y, to_y: t.y, up: true, rest: false }),
            };
        }
        let put = put_once(s, t);
        s.y = t.y;
        s.left_at = now;
        return Frame { put, slide: None };
    }
    if now < s.cooldown_until {
        return Frame { put: None, slide: None };
    }
    let (left, top, cx, cy): (i64, i64, i64, i64) = (
        t.x as i64,
        t.y as i64,
        c.x as i64,
        c.y as i64,
    );
    let right: i64 = left + t.w as i64;
    let under: i64 = top + t.h as i64;
    let bottom = cy >= under - p.trigger_px as i64;
    if !s.visible {
        if bottom {
            return Frame {
                put: None,
                slide: Some(Slide { from_y: s.y, to_y: t.y, up: true, rest: true }),
            };
        }
        return Frame { put: None, slide: None };
    }
    let put = put_once(s, t);
    s.y = t.y;
    let inside = left - 8 <= cx && cx <= right + 8 && top - 8 <= cy && cy <= under + 8;
    if inside {
        s.left_at = now;
        return Frame { put, slide: None };
    }
    if now.saturating_sub(s.left_at) >= p.hide_delay_ms && !bottom {
        return Frame {
            put,
            slide: Some(Slide { from_y: t.y, to_y: hidden, up: false, rest: true }),
        };
    }
    Frame { put, slide: None }
}

/// The state after a movement has ended.
pub open spec fn slid_state(s: RevealState, m: Slide, now: u64, p: RevealParams) -> RevealState {
    RevealState {
        y: m.to_y,
        visible: m.up,
        applied: None,
        left_at: if m.up {
            now
        } else {
            s.left_at
        },
        cooldown_until: if m.rest {
            if now + p.duration_ms <= u64::MAX {
                (now + p.duration_ms) as u64
            } else {
                u64::MAX
            }
        } else {
            s.cooldown_until
        },
        ..s
    }
}

/// Takes in that a movement has ended.
pub fn slid(s: &mut RevealState, m: &Slide, now: u64, p: &RevealParams)
    ensures
        *final(s) == slid_state(*old(s), *m, now, *p),
{
    s.y = m.to_y;
    s.visible = m.up;
    s.applied = None;
    if m.up {
        s.left_at = now;
    }
    if m.rest {
        s.cooldown_until = now.saturating_add(p.duration_ms);
    }
}

// ---------------------------------------------------------------- laws

/// The dock never hides while it is held, while the mouse is on it or at its
/// lower edge, or before the delay is over.
pub proof fn law_never_hides_early(
    s: RevealState,
    t: Placement,
    hidden: i32,
    held: bool,
    c: Point,
    now: u64,
    p: RevealParams,
)
    requires
        ({
            let f = framed(s, t, hidden, held, c, now, p).1;
            f.slide is Some && !f.slide->0.up
        }),
    ensures
        s.visible,
        !held,
        !on_dock(t, c),
        !at_bottom(t, c, p),
        waited(s.left_at, now) >= p.hide_delay_ms,
        framed(s, t, hidden, held, c, now, p).1.slide->0.to_y == hidden,
{
}

/// A hidden dock comes back where it is held, or where the mouse is at its lower
/// edge, and goes to where it belongs.
pub proof fn law_comes_back(
    s: RevealState,
    t: Placement,
    hidden: i32,
    held: bool,
    c: Point,
    now: u64,
    p: RevealParams,
)
    requires
        !s.visible,
        t.w != 0 && t.h != 0,
    ensures
        ({
            let f = framed(s, t, hidden, held, c, now, p).1;
            &&& f.slide is Some <==> held || (now >= s.cooldown_until && at_bottom(t, c, p))
            &&& f.slide is Some ==> {
                let m = f.slide->0;
                &&& m.up && m.to_y == t.y
                &&& slid_state(s, m, now, p).visible
                &&& slid_state(s, m, now, p).y == t.y
            }
        }),
{
}

/// A window that stands where it belongs is not put there again: the second of
/// two equal frames puts nothing.
pub proof fn law_put_once(
    s: RevealState,
    t: Placement,
    hidden: i32,
    held: bool,
    c: Point,
    now: u64,
    p: RevealParams,
)
    requires
        framed(s, t, hidden, held, c, now, p).1.slide is None,
    ensures
        framed(framed(s, t, hidden, held, c, now, p).0, t, hidden, held, c, now, p).1.put is None,
{
}

/// Between two movements of which the first ends at `now` no decision is taken
/// until the time of the movement has passed again, unless the dock is held.
pub proof fn law_rests_after_sliding(
    s: RevealState,
    m: Slide,
    t: Placement,
    hidden: i32,
    c: Point,
    now: u64,
    later: u64,
    p: RevealParams,
)
    requires
        m.rest,
        later < now + p.duration_ms,
        now + p.duration_ms <= u64::MAX,
    ensures
        framed(slid_state(s, m, now, p), t, hidden, false, c, later, p).1 == (Frame {
            put: None,
            slide: None,
        }),
{
}

/// After any sign of a raised desktop the guard looks in that frame and goes on
/// looking for a fixed number of frames, and knows what made it look.
pub proof fn law_guard_keeps_looking(s: RevealState, g: GuardSigns)
    requires
        g.covered || g.suspected || desktop_came_forward(s, g),
    ensures
        next_watch(s, g) == WATCH_TICKS - 1,
        found_trigger(s, g) != Trigger::Nothing,
{
}

/// A visible dock follows its place: after a frame in which a decision is taken
/// it counts as standing where it belongs.
pub proof fn law_follows_its_place(
    s: RevealState,
    t: Placement,
    hidden: i32,
    held: bool,
    c: Point,
    now: u64,
    p: RevealParams,
)
    requires
        s.visible,
        t.w != 0 && t.h != 0,
        held || now >= s.cooldown_until,
    ensures
        ({
            let n = framed(s, t, hidden, held, c, now, p).0;
            n.y == t.y && n.applied == Some(t)
        }),
{
}

/// A frame in which a visible dock that may hide decides: it has an extent, it is
/// not held, and it does not rest.
pub open spec fn decides(s: RevealState, t: Placement, held: bool, now: u64) -> bool {
    s.visible && t.w != 0 && t.h != 0 && !held && now >= s.cooldown_until
}

/// While the mouse is on the dock, or at most eight pixels beside it, the dock
/// does not move, and the time at which the mouse left it starts anew.
pub proof fn law_stays_under_the_mouse(
    s: RevealState,
    t: Placement,
    hidden: i32,
    held: bool,
    c: Point,
    now: u64,
    p: RevealParams,
)
    requires
        t.x - 8 <= c.x <= t.x + t.w + 8,
        t.y - 8 <= c.y <= t.y + t.h + 8,
    ensures
        s.visible ==> framed(s, t, hidden, held, c, now, p).1.slide is None,
        decides(s, t, held, now) ==> framed(s, t, hidden, held, c, now, p).0.left_at == now,
{
}

/// A visible dock that the mouse left long enough ago goes down to where it is
/// hidden, in that frame: it may hide, the mouse is more than eight pixels away
/// from it and not at its lower edge, and the delay is over. Otherwise it does
/// not go down.
pub proof fn law_hides_when_left(
    s: RevealState,
    t: Placement,
    hidden: i32,
    held: bool,
    c: Point,
    now: u64,
    p: RevealParams,
)
    ensures
        ({
            let (n, f) = framed(s, t, hidden, held, c, now, p);
            let away = c.x < t.x - 8 || c.x > t.x + t.w + 8 || c.y < t.y - 8 || c.y > t.y + t.h
                + 8;
            let low = c.y >= t.y + t.h - p.trigger_px;
            let over = now - s.left_at >= p.hide_delay_ms || p.hide_delay_ms == 0;
            &&& decides(s, t, held, now) && away && !low && over ==> {
                &&& f.slide is Some
                &&& !f.slide->0.up
                &&& f.slide->0.from_y == t.y
                &&& f.slide->0.to_y == hidden
                &&& f.slide->0.rest
            }
            &&& f.slide is Some && !f.slide->0.up ==> decides(s, t, held, now) && away && !low
                && over
            &&& decides(s, t, held, now) && away ==> n.left_at == s.left_at
        }),
{
}

/// A hidden dock comes up exactly where it is held, or where it does not rest
/// and the mouse is near enough to its lower edge: from where it is to where it
/// belongs. Held, it does not rest afterwards.
pub proof fn law_comes_up(
    s: RevealState,
    t: Placement,
    hidden: i32,
    held: bool,
    c: Point,
    now: u64,
    p: RevealParams,
)
    requires
        !s.visible,
        t.w != 0 && t.h != 0,
    ensures
        ({
            let (n, f) = framed(s, t, hidden, held, c, now, p);
            let asked = held || (now >= s.cooldown_until && c.y >= t.y + t.h - p.trigger_px);
            &&& n == s
            &&& f.put is None
            &&& asked ==> f.slide is Some && f.slide->0.up && f.slide->0.from_y == s.y
                && f.slide->0.to_y == t.y && f.slide->0.rest == !held
            &&& !asked ==> f.slide is None
        }),
{
}

/// A dock that is held stays up, where it belongs, and the mouse counts as on
/// it.
pub proof fn law_held_stays(
    s: RevealState,
    t: Placement,
    hidden: i32,
    c: Point,
    now: u64,
    p: RevealParams,
)
    requires
        s.visible,
        t.w != 0 && t.h != 0,
    ensures
        ({
            let (n, f) = framed(s, t, hidden, true, c, now, p);
            &&& f.slide is None
            &&& n.left_at == now
            &&& n.y == t.y
            &&& n.visible
        }),
{
}

/// A dock without extent is left alone, and one that rests is unless it is held.
pub proof fn law_left_alone(
    s: RevealState,
    t: Placement,
    hidden: i32,
    held: bool,
    c: Point,
    now: u64,
    p: RevealParams,
)
    requires
        t.w == 0 || t.h == 0 || (!held && now < s.cooldown_until),
    ensures
        framed(s, t, hidden, held, c, now, p).0 == s,
        framed(s, t, hidden, held, c, now, p).1.put is None,
        framed(s, t, hidden, held, c, now, p).1.slide is None,
{
}

/// The window of a visible dock is put to its place exactly where it is not
/// known to stand there. A frame does not touch what the guard and the counters
/// keep, nor whether the dock is visible.
pub proof fn law_put_where_it_belongs(
    s: RevealState,
    t: Placement,
    hidden: i32,
    held: bool,
    c: Point,
    now: u64,
    p: RevealParams,
)
    ensures
        ({
            let (n, f) = framed(s, t, hidden, held, c, now, p);
            &&& f.put is Some ==> f.put == Some(t) && s.visible && s.applied != Some(t)
            &&& s.visible && t.w != 0 && t.h != 0 && (held || now >= s.cooldown_until)
                && s.applied != Some(t) ==> f.put == Some(t)
            &&& n.visible == s.visible && n.cooldown_until == s.cooldown_until && n.tick == s.tick
            &&& n.watch_ticks == s.watch_ticks && n.trigger == s.trigger && n.last_foreground
                == s.last_foreground
            &&& n.last_desktop_log == s.last_desktop_log && n.reported == s.reported
        }),
{
}

/// A movement leaves the dock where it leads, visible exactly if it led up, and
/// its window has to be put anew. One that led up starts the time at which the
/// mouse left it.
pub proof fn law_slid(s: RevealState, m: Slide, now: u64, p: RevealParams)
    ensures
        ({
            let n = slid_state(s, m, now, p);
            &&& n.y == m.to_y
            &&& n.visible == m.up
            &&& n.applied is None
            &&& m.up ==> n.left_at == now
            &&& !m.up ==> n.left_at == s.left_at
            &&& !m.rest ==> n.cooldown_until == s.cooldown_until
            &&& m.rest && now + p.duration_ms <= u64::MAX ==> n.cooldown_until == now
                + p.duration_ms
            &&& m.rest ==> n.cooldown_until >= now
            &&& n.tick == s.tick && n.watch_ticks == s.watch_ticks && n.trigger == s.trigger
            &&& n.last_foreground == s.last_foreground && n.last_desktop_log == s.last_desktop_log
                && n.reported == s.reported
        }),
{
}

/// The guard looks for sixty-one frames after a sign, one less in each frame
/// without one. It knows the reason as long as it looks: an event comes before
/// the foreground, and that before the dock being covered; without a new sign
/// the reason stays, and once it no longer looks there is none.
pub proof fn law_guard_counts_down(s: RevealState, g: GuardSigns)
    ensures
        ({
            let came = g.foreground_is_desktop && g.foreground != s.last_foreground
                && s.last_foreground != 0;
            let sign = g.covered || g.suspected || came;
            &&& sign ==> next_watch(s, g) == 61
            &&& !sign && s.watch_ticks > 0 ==> next_watch(s, g) == s.watch_ticks - 1
            &&& !sign && s.watch_ticks == 0 ==> next_watch(s, g) == 0
            &&& g.suspected ==> found_trigger(s, g) == Trigger::Event(g.event, g.event_count)
            &&& !g.suspected && came ==> found_trigger(s, g) == Trigger::Foreground
            &&& !g.suspected && !came && g.covered ==> found_trigger(s, g) == Trigger::Covered
            &&& !sign && s.watch_ticks > 1 ==> found_trigger(s, g) == s.trigger
            &&& !sign && s.watch_ticks <= 1 ==> found_trigger(s, g) == Trigger::Nothing
        }),
{
}

/// A reason that is given is one more.
pub proof fn law_pauses_are_counted(p: &mut Pauses, r: ())
    requires
        old(p).depth < usize::MAX,
        call_ensures(Pauses::pause, (p,), r),
    ensures
        final(p).depth == old(p).depth + 1,
{
}

/// Taking a reason back leaves one less, and none where there was none.
pub proof fn law_pauses_are_taken_back(p: &mut Pauses, r: ())
    requires
        call_ensures(Pauses::unpause, (p,), r),
    ensures
        old(p).depth > 0 ==> final(p).depth + 1 == old(p).depth,
        old(p).depth == 0 ==> final(p).depth == 0,
{
}

/// Without a reason the dock hides, with any it does not.
pub proof fn law_paused(p: Pauses, fresh: Pauses, r: bool)
    requires
        call_ensures(Pauses::is_paused, (&p,), r),
        call_ensures(Pauses::new, (), fresh),
    ensures
        r <==> p.depth >= 1,
        fresh.depth == 0,
{
}

/// The place of the dock is that of its rectangle, and hidden it is two pixels
/// below the work area. It comes back three pixels above the lower edge, hides
/// 420 milliseconds after the mouse left, and moves for 180.
pub proof fn law_places_of_the_dock(
    r: Rect,
    area: Rect,
    t: Placement,
    hidden: i32,
    p: RevealParams,
)
    requires
        fits(r.right - r.left),
        fits(r.bottom - r.top),
        call_ensures(target_of, (&r,), t),
        call_ensures(hidden_top, (&area,), hidden),
        call_ensures(RevealParams::default, (), p),
    ensures
        t.x == r.left && t.y == r.top,
        t.x + t.w == r.right && t.y + t.h == r.bottom,
        hidden - area.bottom == 2,
        p.trigger_px == 3 && p.hide_delay_ms == 420 && p.duration_ms == 180,
{
}

/// At the start the dock is hidden and nothing has happened.
pub proof fn law_at_the_start(hidden: i32, now: u64, s: RevealState)
    requires
        call_ensures(RevealState::new, (hidden, now), s),
    ensures
        !s.visible && s.y == hidden && s.applied is None,
        s.left_at == now && s.cooldown_until == now,
        s.tick == 0 && s.watch_ticks == 0 && s.last_foreground == 0,
        s.last_desktop_log is None && s.trigger is Nothing,
        s.reported.zorder == 0 && s.reported.style == 0 && s.reported.events == 0
            && s.reported.sinks == 0,
{
}

/// A counter that changed is reported, once: what is compared next is what was
/// reported. Nothing else of the state changes.
pub proof fn law_counters_are_reported(s: &mut RevealState, now: Counters, r: CounterReport)
    requires
        call_ensures(report_counters, (s, now), r),
    ensures
        r.any <==> now.zorder != old(s).reported.zorder || now.style != old(s).reported.style
            || now.events != old(s).reported.events || now.sinks != old(s).reported.sinks,
        r.events <==> now.events != old(s).reported.events,
        final(s).reported == now,
        final(s).visible == old(s).visible && final(s).y == old(s).y && final(s).applied == old(
            s,
        ).applied,
        final(s).watch_ticks == old(s).watch_ticks && final(s).tick == old(s).tick,
        final(s).left_at == old(s).left_at && final(s).cooldown_until == old(s).cooldown_until,
{
}

/// Every frame counts, and so often something is due: the guard looks at each
/// thirty-first, the topmost bit is looked at in each 312th, and a sign of life is
/// given in each 18750th.
pub proof fn law_frames_are_counted(s: &mut RevealState, r: Due)
    requires
        old(s).tick < u32::MAX,
        call_ensures(next_tick, (s,), r),
    ensures
        final(s).tick == old(s).tick + 1,
        r.fallback <==> (old(s).tick + 1) % 31 == 0,
        r.topmost <==> (old(s).tick + 1) % 312 == 0,
        r.heartbeat <==> (old(s).tick + 1) % 18750 == 0,
        final(s).visible == old(s).visible && final(s).y == old(s).y && final(s).applied == old(
            s,
        ).applied,
        final(s).watch_ticks == old(s).watch_ticks && final(s).trigger == old(s).trigger,
        final(s).left_at == old(s).left_at && final(s).cooldown_until == old(s).cooldown_until,
{
}

/// A dock that was restored counts as hidden and is put anew; the rest of the
/// state stays.
pub proof fn law_restored_counts_as_hidden(s: &mut RevealState, hidden: i32, r: ())
    requires
        call_ensures(restored, (s, hidden), r),
    ensures
        !final(s).visible,
        final(s).y == hidden,
        final(s).applied is None,
        final(s).left_at == old(s).left_at && final(s).cooldown_until == old(s).cooldown_until,
        final(s).tick == old(s).tick && final(s).watch_ticks == old(s).watch_ticks,
        final(s).trigger == old(s).trigger && final(s).reported == old(s).reported,
{
}

/// Any sign makes the guard look for sixty-one frames more, and without one the
/// time runs down. The last sign is what it names; a first foreground is no sign.
/// Where the time is up it looks only now and then.
pub proof fn law_guard_looks(s: &mut RevealState, g: GuardSigns, fallback: bool, r: bool)
    requires
        call_ensures(guard, (s, &g, fallback), r),
    ensures
        ({
            let came = g.foreground_is_desktop && old(s).last_foreground != 0 && g.foreground
                != old(s).last_foreground;
            let sign = g.suspected || came || g.covered;
            &&& sign ==> final(s).watch_ticks == 61
            &&& !sign && old(s).watch_ticks > 0 ==> final(s).watch_ticks == old(s).watch_ticks - 1
            &&& !sign && old(s).watch_ticks == 0 ==> final(s).watch_ticks == 0
            &&& r <==> fallback || final(s).watch_ticks > 0
            &&& g.suspected ==> final(s).trigger == Trigger::Event(g.event, g.event_count)
            &&& !g.suspected && came ==> final(s).trigger is Foreground
            &&& !g.suspected && !came && g.covered ==> final(s).trigger is Covered
            &&& !sign && final(s).watch_ticks > 0 ==> final(s).trigger == old(s).trigger
            &&& final(s).watch_ticks == 0 ==> final(s).trigger is Nothing
        }),
        final(s).last_foreground == g.foreground,
        final(s).visible == old(s).visible && final(s).y == old(s).y && final(s).applied == old(
            s,
        ).applied,
{
}

/// After the desktop was lowered the guard looks for twenty-four frames at least,
/// and that is reported at most every five seconds unless everything is.
pub proof fn law_lowering_is_reported(s: &mut RevealState, now: u64, report_all: bool, r: bool)
    requires
        call_ensures(sunk, (s, now, report_all), r),
    ensures
        final(s).watch_ticks >= 24,
        old(s).watch_ticks >= 24 ==> final(s).watch_ticks == old(s).watch_ticks,
        old(s).watch_ticks < 24 ==> final(s).watch_ticks == 24,
        report_all || old(s).last_desktop_log is None ==> r,
        !report_all && old(s).last_desktop_log is Some ==> (r <==> now
            >= old(s).last_desktop_log->0 + 5000),
        r ==> final(s).last_desktop_log == Some(now),
        !r ==> final(s).last_desktop_log == old(s).last_desktop_log,
        final(s).visible == old(s).visible && final(s).y == old(s).y && final(s).applied == old(
            s,
        ).applied,
        final(s).trigger == old(s).trigger,
{
}

/// How it was found out is told by what was seen last; of an event also its code,
/// how many there were and how long ago.
pub proof fn law_how_it_was_found_out(e: u32, c: u32, latency: u32)
    ensures
        how_text(Trigger::Nothing, latency) == "500ms 兜底轮询发现"@,
        how_text(Trigger::Covered, latency) == "点探测：Dock 中心点被桌面系窗口接管"@,
        how_text(Trigger::Foreground, latency) == "前台窗口变成了桌面"@,
        how_text(Trigger::Event(e, c), latency) == "WinEvent 0x"@ + upper_hex(e as nat, 4)
            + "（累计 "@ + decimal(c as nat) + " 次），事件→沉回 "@ + decimal(latency as nat) + "ms"@,
{
}

} // verus!
