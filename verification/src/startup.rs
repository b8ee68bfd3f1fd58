//! Starting up: the order in which the window of the dock is set up, and what
//! the supervisor does when.

use vstd::prelude::*;
use vstd::string::*;
use crate::geometry::Rect;
use crate::text;

verus! {

/// The identity of the application.
pub const IDENTIFIER: &'static str = "io.github.evanlofton.mydock";

/// Its identity before it was renamed.
pub const OLD_IDENTIFIER: &'static str = "dev.local.dock";

/// The width of the dock before its page reports one, in logical pixels.
pub const DOCK_W_LOGICAL: i32 = 520;

/// Whether the process only holds a window open for a self-test.
pub fn holds_window(argument: &Option<String>) -> (r: bool)
    ensures
        r == (text::opt_view(*argument) == Some("holdwin"@)),
{
    match argument {
        Some(a) => text::same(a.as_str(), "holdwin"),
        None => false,
    }
}

/// Whether this process may run: another one that runs already keeps it from
/// doing so, but not being able to tell does not.
pub fn may_run(mutex_created: bool, existed_before: bool) -> (r: bool)
    ensures
        r == !(mutex_created && existed_before),
{
    !(mutex_created && existed_before)
}

/// Whether a window takes dropped files.
pub fn takes_drops(label: &str) -> (r: bool)
    ensures
        r == (label@ == "dock"@),
{
    text::same(label, "dock")
}

// ---------------------------------------------------------------- the window layer

/// One step of setting up the window of the dock.
#[derive(Debug, Clone, Copy, PartialEq, Eq, Structural)]
pub enum SetupStep {
    /// The extended style.
    Style,
    /// The window goes below all others.
    Sink,
    CommonControls,
    /// From here on nothing changes the layer of the window.
    Hooks,
    Acrylic,
    Material,
    /// The window goes where it would be with the first guess of its size.
    Place,
    /// The page has reported its size: the window stays where it is.
    Keep,
    /// Hiding is told where the dock is.
    Target,
    /// Hiding begins.
    Reveal,
}

/// The step after one; `reported` says whether the page has reported its size.
pub open spec fn step_after(s: SetupStep, reported: bool) -> Option<SetupStep> {
    match s {
        SetupStep::Style => Some(SetupStep::Sink),
        SetupStep::Sink => Some(SetupStep::CommonControls),
        SetupStep::CommonControls => Some(SetupStep::Hooks),
        SetupStep::Hooks => Some(SetupStep::Acrylic),
        SetupStep::Acrylic => Some(SetupStep::Material),
        SetupStep::Material => Some(
            if reported {
                SetupStep::Keep
            } else {
                SetupStep::Place
            },
        ),
        SetupStep::Place => Some(SetupStep::Target),
        SetupStep::Keep => Some(SetupStep::Reveal),
        SetupStep::Target => Some(SetupStep::Reveal),
        SetupStep::Reveal => None,
    }
}

/// The step after one.
pub fn next_setup_step(s: SetupStep, reported: bool) -> (r: Option<SetupStep>)
    ensures
        r == step_after(s, reported),
{
    match s {
        SetupStep::Style => Some(SetupStep::Sink),
        SetupStep::Sink => Some(SetupStep::CommonControls),
        SetupStep::CommonControls => Some(SetupStep::Hooks),
        SetupStep::Hooks => Some(SetupStep::Acrylic),
        SetupStep::Acrylic => Some(SetupStep::Material),
        SetupStep::Material => if reported {
            Some(SetupStep::Keep)
        } else {
            Some(SetupStep::Place)
        },
        SetupStep::Place => Some(SetupStep::Target),
        SetupStep::Keep => Some(SetupStep::Reveal),
        SetupStep::Target => Some(SetupStep::Reveal),
        SetupStep::Reveal => None,
    }
}

/// How far a step is along the way.
pub open spec fn stage(s: SetupStep) -> nat {
    match s {
        SetupStep::Style => 0,
        SetupStep::Sink => 1,
        SetupStep::CommonControls => 2,
        SetupStep::Hooks => 3,
        SetupStep::Acrylic => 4,
        SetupStep::Material => 5,
        SetupStep::Place => 6,
        SetupStep::Keep => 6,
        SetupStep::Target => 7,
        SetupStep::Reveal => 8,
    }
}

/// The steps of a setup, from one on; at each, `reports` says whether the page
/// has reported its size by then.
pub open spec fn steps_from(s: SetupStep, reports: spec_fn(SetupStep) -> bool) -> Seq<SetupStep>
    decreases 9 - stage(s),
{
    match step_after(s, reports(s)) {
        Some(next) => if stage(next) > stage(s) {
            seq![s] + steps_from(next, reports)
        } else {
            seq![s]
        },
        None => seq![s],
    }
}

proof fn lemma_steps_rise(s: SetupStep, reports: spec_fn(SetupStep) -> bool)
    ensures
        steps_from(s, reports).len() > 0,
        steps_from(s, reports)[0] == s,
        steps_from(s, reports).last() == SetupStep::Reveal,
        forall|i: int, j: int|
            0 <= i < j < steps_from(s, reports).len() ==> stage(
                #[trigger] steps_from(s, reports)[i],
            ) < stage(#[trigger] steps_from(s, reports)[j]),
        stage(s) <= 5 ==> (steps_from(s, reports).contains(SetupStep::Place)
            == !reports(SetupStep::Material)),
        stage(s) <= 5 ==> (steps_from(s, reports).contains(SetupStep::Target)
            == !reports(SetupStep::Material)),
        s == SetupStep::Place ==> steps_from(s, reports).contains(SetupStep::Target),
        s == SetupStep::Keep || s == SetupStep::Reveal ==> !steps_from(s, reports).contains(
            SetupStep::Target,
        ),
        stage(s) > 6 || s == SetupStep::Keep ==> !steps_from(s, reports).contains(
            SetupStep::Place,
        ),
    decreases 9 - stage(s),
{
    let all = steps_from(s, reports);
    assert(all[0] == s);
    if s != SetupStep::Reveal {
        let next = step_after(s, reports(s))->0;
        lemma_steps_rise(next, reports);
        let rest = steps_from(next, reports);
        assert(all =~= seq![s] + rest);
        assert forall|i: int, j: int| 0 <= i < j < all.len() implies stage(#[trigger] all[i])
            < stage(#[trigger] all[j]) by {
            assert(all[j] == rest[j - 1]);
            if i > 0 {
                assert(all[i] == rest[i - 1]);
            } else if j > 1 {
                assert(rest[0] == next);
                assert(stage(rest[0]) < stage(rest[j - 1]));
            }
        }
        lemma_contains_more(s, rest, SetupStep::Place);
        lemma_contains_more(s, rest, SetupStep::Target);
    } else {
        assert(all =~= seq![s]);
    }
}

proof fn lemma_contains_more(s: SetupStep, rest: Seq<SetupStep>, x: SetupStep)
    ensures
        (seq![s] + rest).contains(x) == (s == x || rest.contains(x)),
{
    let all = seq![s] + rest;
    if rest.contains(x) {
        let i = choose|i: int| 0 <= i < rest.len() && rest[i] == x;
        assert(all[i + 1] == x);
    }
    if s == x {
        assert(all[0] == x);
    }
    if all.contains(x) {
        let i = choose|i: int| 0 <= i < all.len() && all[i] == x;
        if i > 0 {
            assert(rest[i - 1] == x);
        }
    }
}

/// The window is sunk before the hooks keep it in its layer, no step comes
/// twice, hiding begins last, and a size that the page reported in time is never
/// overwritten with the first guess.
pub proof fn law_setup_order(reports: spec_fn(SetupStep) -> bool, i: int, j: int)
    requires
        0 <= i < steps_from(SetupStep::Style, reports).len(),
        0 <= j < steps_from(SetupStep::Style, reports).len(),
    ensures
        ({
            let all = steps_from(SetupStep::Style, reports);
            &&& all[i] == SetupStep::Sink && all[j] == SetupStep::Hooks ==> i < j
            &&& all[i] == all[j] ==> i == j
            &&& all.last() == SetupStep::Reveal
            &&& reports(SetupStep::Material) ==> !all.contains(SetupStep::Place) && !all.contains(
                SetupStep::Target,
            )
            &&& !reports(SetupStep::Material) ==> all.contains(SetupStep::Place) && all.contains(
                SetupStep::Target,
            )
        }),
{
    lemma_steps_rise(SetupStep::Style, reports);
    let all = steps_from(SetupStep::Style, reports);
    if j < i {
        assert(stage(all[j]) < stage(all[i]));
    }
    if i < j {
        assert(stage(all[i]) < stage(all[j]));
    }
}

/// Whether a window is where it was meant to go.
pub fn is_placed(actual: &Rect, target: &Rect) -> (r: bool)
    ensures
        r == (actual.left == target.left && actual.top == target.top),
{
    actual.left == target.left && actual.top == target.top
}

// ---------------------------------------------------------------- the supervisor

/// How often the supervisor looks for the window.
pub const WINDOW_TRIES: u32 = 60;

/// What the supervisor does next.
#[derive(Debug, Clone, Copy, PartialEq, Eq, Structural)]
pub enum Supervision {
    /// It looks for the window; it has done so this often.
    FindWindow(u32),
    /// It has the main thread set up the window.
    SetUp(u64),
    /// It has the panels made, lets the self-tests run and keeps the hooks up to
    /// date.
    Run(u64),
    /// There was no window.
    NoWindow,
    /// The main thread takes nothing.
    NoMainThread,
}

/// What the supervisor does after looking for the window.
pub fn after_look(tries: u32, window: Option<u64>) -> (r: Supervision)
    requires
        tries < WINDOW_TRIES,
    ensures
        r == match window {
            Some(h) if h != 0 => Supervision::SetUp(h),
            _ => if tries + 1 < WINDOW_TRIES {
                Supervision::FindWindow((tries + 1) as u32)
            } else {
                Supervision::NoWindow
            },
        },
{
    match window {
        Some(h) if h != 0 => Supervision::SetUp(h),
        _ => if tries + 1 < WINDOW_TRIES {
            Supervision::FindWindow(tries + 1)
        } else {
            Supervision::NoWindow
        },
    }
}

/// What the supervisor does after handing the setup to the main thread.
pub fn after_set_up(hwnd: u64, taken: bool) -> (r: Supervision)
    ensures
        r == if taken {
            Supervision::Run(hwnd)
        } else {
            Supervision::NoMainThread
        },
{
    if taken {
        Supervision::Run(hwnd)
    } else {
        Supervision::NoMainThread
    }
}

/// Whether the hooks on the windows changed, so that it is worth a line: counts
/// are of hooked windows and of all.
pub fn hooks_changed(last: (u32, u32), now: (u32, u32)) -> (r: bool)
    ensures
        r == (now != last && now.1 > 0),
{
    (now.0 != last.0 || now.1 != last.1) && now.1 > 0
}

/// A setup takes these steps in this order, and no others.
pub proof fn law_setup_steps(reports: spec_fn(SetupStep) -> bool)
    ensures
        steps_from(SetupStep::Style, reports) == if reports(SetupStep::Material) {
            seq![
                SetupStep::Style,
                SetupStep::Sink,
                SetupStep::CommonControls,
                SetupStep::Hooks,
                SetupStep::Acrylic,
                SetupStep::Material,
                SetupStep::Keep,
                SetupStep::Reveal,
            ]
        } else {
            seq![
                SetupStep::Style,
                SetupStep::Sink,
                SetupStep::CommonControls,
                SetupStep::Hooks,
                SetupStep::Acrylic,
                SetupStep::Material,
                SetupStep::Place,
                SetupStep::Target,
                SetupStep::Reveal,
            ]
        },
{
    reveal_with_fuel(steps_from, 10);
    if reports(SetupStep::Material) {
        assert(steps_from(SetupStep::Style, reports) =~= seq![
            SetupStep::Style,
            SetupStep::Sink,
            SetupStep::CommonControls,
            SetupStep::Hooks,
            SetupStep::Acrylic,
            SetupStep::Material,
            SetupStep::Keep,
            SetupStep::Reveal,
        ]);
    } else {
        assert(steps_from(SetupStep::Style, reports) =~= seq![
            SetupStep::Style,
            SetupStep::Sink,
            SetupStep::CommonControls,
            SetupStep::Hooks,
            SetupStep::Acrylic,
            SetupStep::Material,
            SetupStep::Place,
            SetupStep::Target,
            SetupStep::Reveal,
        ]);
    }
}

/// A process runs unless it knows that another one does; it only holds a window
/// where it is told so, and the dock alone takes dropped files.
pub proof fn law_what_a_process_does(
    argument: Option<String>,
    mutex_created: bool,
    existed_before: bool,
    label: &str,
    holds: bool,
    runs: bool,
    takes: bool,
)
    requires
        call_ensures(holds_window, (&argument,), holds),
        call_ensures(may_run, (mutex_created, existed_before), runs),
        call_ensures(takes_drops, (label,), takes),
    ensures
        holds <==> argument is Some && argument->0@ == "holdwin"@,
        runs <==> !mutex_created || !existed_before,
        takes <==> label@ == "dock"@,
{
}

/// A window is in place where its upper left corner is; its size does not count.
pub proof fn law_in_place(actual: Rect, target: Rect, r: bool)
    requires
        call_ensures(is_placed, (&actual, &target), r),
    ensures
        r <==> actual.left - target.left == 0 && actual.top - target.top == 0,
{
}

/// A window that is found is set up at once. Where none is found the supervisor
/// looks again, sixty times in all, and then gives up.
pub proof fn law_supervisor_looks(tries: u32, window: Option<u64>, r: Supervision)
    requires
        tries < 60,
        call_ensures(after_look, (tries, window), r),
    ensures
        window is Some && window->0 != 0 ==> r == Supervision::SetUp(window->0),
        r is FindWindow ==> r->FindWindow_0 == tries + 1 && tries < 59,
        window is None || window->0 == 0 ==> (r is FindWindow <==> tries < 59) && (r is NoWindow
            <==> tries == 59),
{
}

/// Once the main thread took the setup, the supervisor runs for that window;
/// where it did not, it ends.
pub proof fn law_supervisor_runs(hwnd: u64, taken: bool, r: Supervision)
    requires
        call_ensures(after_set_up, (hwnd, taken), r),
    ensures
        taken ==> r == Supervision::Run(hwnd),
        !taken ==> r == Supervision::NoMainThread,
{
}

/// A line is worth it where either count differs, and there is any window.
pub proof fn law_hooks_worth_a_line(last: (u32, u32), now: (u32, u32), r: bool)
    requires
        call_ensures(hooks_changed, (last, now), r),
    ensures
        r <==> now.1 > 0 && (now.0 != last.0 || now.1 != last.1),
{
}

/// The names that the application is known by, and the width it begins with.
pub proof fn law_names_of_the_application()
    ensures
        IDENTIFIER@ == "io.github.evanlofton.mydock"@,
        OLD_IDENTIFIER@ == "dev.local.dock"@,
        DOCK_W_LOGICAL == 520,
{
}

} // verus!
