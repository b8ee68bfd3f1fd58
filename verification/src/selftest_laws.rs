//! What holds of the self-tests: which run, how they judge what they see, and that
//! what they leave behind is cleared away.

use vstd::prelude::*;
use vstd::string::*;
use crate::apps::shell_location;
use crate::drop::Outcome;
use crate::geometry::Rect;
use crate::menu::{item_views, ItemView, MenuItem};
use crate::model::{
    app_views, lemma_children_views, lemma_entry_views, pinned_views, window_views, AppEntry,
    AppView, PinnedApp, PinnedView, WindowRef, WindowView,
};
use crate::selftest::{
    above_dock, added_last, below, bin_item_ok, can_be_dropped, centred, changed_by, check_line,
    cleaned, cleaned_of, click_proven, close_above, describe_outcome, directory_menu_ok,
    dissolved_ok, divider_count, dock_before, dots_ok, drag_rule, dragged_in, explorer_windows,
    find_label, first_folder, first_idle, first_where, focus_verdict, folder_made, folder_menu_ok,
    folder_rule, fresh, has_text, held, hint_ok, icon_width_ok, id_list, ids_of, ipc_verdict,
    is_plain_window, item_at, item_position, label_at, link_target_ok, ma_name, middle, moved,
    moved_out_behind, one_gone, only_removal, other_file_rejected, other_icon_size,
    other_separator_second, phase_views, phases, pick_draggable, pick_seed, plan_drag,
    pointer_units, put_back, removal_counts, require_temp_config, restored, run_if_enabled,
    same_texts, seed_rule, separator_count, separator_second, suspicious, windows_below, windows_of,
    ClickTarget, DragPlan, Layered, Phase, Plan, SettleStep, Settling, Switches, Tally,
};
use crate::store::{
    has_id, lemma_pin_index, pin_index, pinned_with, purged, removed, reordered, splice,
    without_id,
};
use crate::store_laws::{
    distinct_ids, lemma_all_good, lemma_distinct_filter, lemma_without_absent, lemma_without_id,
};
use crate::text::{decimal, lowercase, occurs, text_views, trimmed, unsigned_value};

verus! {

/// A folder of a test: one that was not there before.
pub open spec fn own_folder(p: PinnedView, keep: Seq<Seq<char>>) -> bool {
    p.is_folder && !keep.contains(p.id)
}

/// A list as tests leave it: entries of before, separators, and folders that hold
/// entries of before. Nothing stands twice, at the top or in a folder of a test.
pub open spec fn left_by_test(s: Seq<PinnedView>, keep: Seq<Seq<char>>) -> bool {
    &&& distinct_ids(s)
    &&& forall|i: int|
        0 <= i < s.len() && !keep.contains((#[trigger] s[i]).id) ==> s[i].separator
            != s[i].is_folder
    &&& forall|i: int|
        0 <= i < s.len() && own_folder(#[trigger] s[i], keep) ==> distinct_ids(s[i].children)
    &&& forall|i: int, k: int|
        0 <= i < s.len() && own_folder(s[i], keep) && 0 <= k < s[i].children.len()
            ==> keep.contains((#[trigger] s[i].children[k]).id) && !has_id(s, s[i].children[k].id)
    &&& forall|i: int, j: int, k: int, l: int|
        0 <= i < j < s.len() && own_folder(s[i], keep) && own_folder(s[j], keep) && 0 <= k
            < s[i].children.len() && 0 <= l < s[j].children.len() ==> (
        #[trigger] s[i].children[k]).id != (#[trigger] s[j].children[l]).id
}

/// What holds of the list once the first `n` entries were looked at: an entry
/// that was not there before is one that was not looked at yet.
spec fn half_cleaned(a: Seq<PinnedView>, s: Seq<PinnedView>, keep: Seq<Seq<char>>, n: int) -> bool {
    &&& distinct_ids(a)
    &&& forall|k: int|
        0 <= k < a.len() && !keep.contains((#[trigger] a[k]).id) ==> exists|j: int|
            n <= j < s.len() && a[k] == #[trigger] s[j]
    &&& forall|j: int, k: int|
        n <= j < s.len() && own_folder(s[j], keep) && 0 <= k < s[j].children.len() ==> !has_id(
            a,
            (#[trigger] s[j].children[k]).id,
        )
}

proof fn lemma_separator_cleared(
    a: Seq<PinnedView>,
    s: Seq<PinnedView>,
    keep: Seq<Seq<char>>,
    n: int,
)
    requires
        left_by_test(s, keep),
        0 <= n < s.len(),
        half_cleaned(a, s, keep, n),
        !keep.contains(s[n].id),
    ensures
        half_cleaned(removed(a, s[n].id), s, keep, n + 1),
{
    let id = s[n].id;
    let w = without_id(a, id);
    let r = removed(a, id);
    lemma_without_id(a, id);
    lemma_distinct_filter(a, id);
    assert forall|k: int| 0 <= k < r.len() && !keep.contains((#[trigger] r[k]).id) implies exists|
        j: int,
    | n + 1 <= j < s.len() && r[k] == #[trigger] s[j] by {
        assert(r[k] == purged(w[k], id));
        assert(a.contains(w[k]));
        let m = choose|m: int| 0 <= m < a.len() && a[m] == w[k];
        assert(!keep.contains(a[m].id));
        let j = choose|j: int| n <= j < s.len() && a[m] == #[trigger] s[j];
        assert(w[k].id != id);
        if s[j].is_folder {
            assert(own_folder(s[j], keep));
            if has_id(s[j].children, id) {
                let c = choose|c: int| 0 <= c < s[j].children.len() && (
                #[trigger] s[j].children[c]).id == id;
                assert(keep.contains(s[j].children[c].id));
            }
            lemma_without_absent(s[j].children, id);
        }
        assert(r[k] == s[j]);
    }
    assert forall|j: int, k: int|
        n + 1 <= j < s.len() && own_folder(s[j], keep) && 0 <= k < s[j].children.len() implies
        !has_id(r, (#[trigger] s[j].children[k]).id) by {
        let x = s[j].children[k].id;
        if has_id(r, x) {
            let m = choose|m: int| 0 <= m < r.len() && (#[trigger] r[m]).id == x;
            assert(a.contains(w[m]));
            let q = choose|q: int| 0 <= q < a.len() && a[q] == w[m];
            assert(a[q].id == x);
        }
    }
    assert forall|i: int, j: int| 0 <= i < j < r.len() implies (#[trigger] r[i]).id != (
    #[trigger] r[j]).id by {
        assert(w[i].id != w[j].id);
    }
}

proof fn lemma_folder_cleared(
    a: Seq<PinnedView>,
    s: Seq<PinnedView>,
    keep: Seq<Seq<char>>,
    n: int,
    f: int,
)
    requires
        left_by_test(s, keep),
        0 <= n < s.len(),
        half_cleaned(a, s, keep, n),
        own_folder(s[n], keep),
        0 <= f < a.len(),
        a[f] == s[n],
    ensures
        half_cleaned(splice(a, f, s[n].children), s, keep, n + 1),
{
    let kids = s[n].children;
    let r = splice(a, f, kids);
    let c = kids.len();
    assert forall|k: int| 0 <= k < r.len() implies #[trigger] r[k] == (if k < f {
        a[k]
    } else if k < f + c {
        kids[k - f]
    } else {
        a[k - c + 1]
    }) by {}
    assert forall|k: int| 0 <= k < c implies keep.contains((#[trigger] kids[k]).id) && !has_id(
        a,
        kids[k].id,
    ) by {
        assert(s[n].children[k] == kids[k]);
    }
    assert forall|k: int| 0 <= k < r.len() && !keep.contains((#[trigger] r[k]).id) implies exists|
        j: int,
    | n + 1 <= j < s.len() && r[k] == #[trigger] s[j] by {
        let m = if k < f {
            k
        } else {
            k - c + 1
        };
        assert(r[k] == a[m]);
        let j = choose|j: int| n <= j < s.len() && a[m] == #[trigger] s[j];
        if j == n {
            assert(a[m].id == a[f].id);
            assert(false);
        }
    }
    assert forall|j: int, k: int|
        n + 1 <= j < s.len() && own_folder(s[j], keep) && 0 <= k < s[j].children.len() implies
        !has_id(r, (#[trigger] s[j].children[k]).id) by {
        let x = s[j].children[k].id;
        if has_id(r, x) {
            let m = choose|m: int| 0 <= m < r.len() && (#[trigger] r[m]).id == x;
            if m < f {
                assert(a[m].id == x);
            } else if m < f + c {
                assert(s[n].children[m - f].id == x);
            } else {
                assert(a[m - c + 1].id == x);
            }
        }
    }
    assert forall|i: int, j: int| 0 <= i < j < r.len() implies (#[trigger] r[i]).id != (
    #[trigger] r[j]).id by {
        let inner_i = f <= i < f + c;
        let inner_j = f <= j < f + c;
        if inner_i && inner_j {
            assert(kids[i - f].id != kids[j - f].id);
        } else if inner_i {
            assert(!has_id(a, kids[i - f].id));
        } else if inner_j {
            assert(!has_id(a, kids[j - f].id));
        }
    }
}

proof fn lemma_cleaned(s: Seq<PinnedView>, keep: Seq<Seq<char>>, n: nat)
    requires
        left_by_test(s, keep),
        n <= s.len(),
    ensures
        half_cleaned(cleaned(s, s, keep, n), s, keep, n as int),
    decreases n,
{
    if n == 0 {
        assert forall|k: int| 0 <= k < s.len() && !keep.contains((#[trigger] s[k]).id) implies exists|
            j: int,
        | 0 <= j < s.len() && s[k] == #[trigger] s[j] by {
            assert(s[k] == s[k]);
        }
    } else {
        let m = n - 1;
        lemma_cleaned(s, keep, m as nat);
        let a = cleaned(s, s, keep, m as nat);
        let p = s[m];
        let r = cleaned(s, s, keep, n);
        assert(r == cleaned_of(a, p, keep));
        if keep.contains(p.id) {
            assert forall|k: int| 0 <= k < a.len() && !keep.contains((#[trigger] a[k]).id) implies exists|
                j: int,
            | n <= j < s.len() && a[k] == #[trigger] s[j] by {
                let j = choose|j: int| m <= j < s.len() && a[k] == #[trigger] s[j];
                assert(j != m);
            }
        } else if p.separator {
            lemma_separator_cleared(a, s, keep, m);
        } else {
            let f = pin_index(a, p.id);
            lemma_pin_index(a, p.id);
            if f < a.len() {
                let j = choose|j: int| m <= j < s.len() && a[f] == #[trigger] s[j];
                assert(s[j].id == s[m].id);
                assert(j == m);
                lemma_folder_cleared(a, s, keep, m, f);
                assert(r == splice(a, f, s[m].children));
            } else {
                assert(r == a);
                assert forall|k: int| 0 <= k < a.len() && !keep.contains((#[trigger] a[k]).id) implies exists|
                    j: int,
                | n <= j < s.len() && a[k] == #[trigger] s[j] by {
                    let j = choose|j: int| m <= j < s.len() && a[k] == #[trigger] s[j];
                    if j == m {
                        assert(has_id(a, p.id));
                    }
                }
            }
        }
    }
}

proof fn lemma_put_back(a: Seq<PinnedView>, original: Seq<PinnedView>, n: nat)
    requires
        distinct_ids(a),
        forall|k: int| 0 <= k < a.len() ==> id_list(original).contains((#[trigger] a[k]).id),
        n <= original.len(),
    ensures
        ({
            let b = put_back(a, original, n);
            &&& distinct_ids(b)
            &&& forall|k: int| 0 <= k < b.len() ==> id_list(original).contains((#[trigger] b[k]).id)
            &&& forall|i: int| 0 <= i < n ==> has_id(b, (#[trigger] original[i]).id)
        }),
    decreases n,
{
    if n > 0 {
        lemma_put_back(a, original, (n - 1) as nat);
        let b = put_back(a, original, (n - 1) as nat);
        let e = original[n - 1];
        let r = pinned_with(b, e);
        assert(id_list(original)[n - 1] == e.id);
        if !has_id(b, e.id) {
            assert forall|i: int| 0 <= i < n implies has_id(r, (#[trigger] original[i]).id) by {
                if i < n - 1 {
                    let k = choose|k: int|
                        0 <= k < b.len() && (#[trigger] b[k]).id == original[i].id;
                    assert(r[k].id == original[i].id);
                } else {
                    assert(r[b.len() as int].id == original[i].id);
                }
            }
        }
    }
}

/// Two lists without repetition that have the same identities are equally long.
proof fn lemma_same_length(b: Seq<PinnedView>, original: Seq<PinnedView>)
    requires
        distinct_ids(b),
        distinct_ids(original),
        forall|k: int| 0 <= k < b.len() ==> id_list(original).contains((#[trigger] b[k]).id),
        forall|i: int| 0 <= i < original.len() ==> has_id(b, (#[trigger] original[i]).id),
    ensures
        b.len() == original.len(),
{
    let (p, q) = (id_list(b), id_list(original));
    assert(p.no_duplicates()) by {
        assert forall|i: int, j: int| 0 <= i < p.len() && 0 <= j < p.len() && i != j implies p[i]
            != p[j] by {
            assert(b[i].id != b[j].id);
        }
    }
    assert(q.no_duplicates()) by {
        assert forall|i: int, j: int| 0 <= i < q.len() && 0 <= j < q.len() && i != j implies q[i]
            != q[j] by {
            assert(original[i].id != original[j].id);
        }
    }
    assert(p.to_set() =~= q.to_set()) by {
        assert forall|x: Seq<char>| p.contains(x) <==> q.contains(x) by {
            if p.contains(x) {
                let k = choose|k: int| 0 <= k < p.len() && p[k] == x;
                assert(q.contains(b[k].id));
            }
            if q.contains(x) {
                let i = choose|i: int| 0 <= i < q.len() && q[i] == x;
                assert(has_id(b, original[i].id));
                let k = choose|k: int| 0 <= k < b.len() && (#[trigger] b[k]).id == x;
                assert(p[k] == x);
            }
        }
    }
    p.unique_seq_to_set();
    q.unique_seq_to_set();
}

/// A list that tests left is put back: it has exactly the entries of before, in
/// their order.
pub proof fn law_restored(s: Seq<PinnedView>, original: Seq<PinnedView>)
    requires
        distinct_ids(original),
        left_by_test(s, id_list(original)),
    ensures
        id_list(restored(s, original)) == id_list(original),
{
    let ids = id_list(original);
    let a = cleaned(s, s, ids, s.len());
    lemma_cleaned(s, ids, s.len());
    lemma_put_back(a, original, original.len());
    let b = put_back(a, original, original.len());
    lemma_same_length(b, original);
    assert forall|i: int| 0 <= i < ids.len() implies has_id(b, #[trigger] ids[i]) && !ids.take(
        i,
    ).contains(ids[i]) by {
        assert(ids[i] == original[i].id);
        if ids.take(i).contains(ids[i]) {
            let k = choose|k: int| 0 <= k < i && ids.take(i)[k] == ids[i];
            assert(original[k].id == original[i].id);
        }
    }
    lemma_all_good(b, ids, 0);
    assert(reordered(b, ids) is Ok);
    let list = restored(s, original);
    assert forall|i: int| 0 <= i < ids.len() implies (#[trigger] list[i]).id == ids[i] by {
        lemma_pin_index(b, ids[i]);
    }
    assert(id_list(list) =~= ids);
}

// ---------------------------------------------------------------- which tests run

/// Layering and focus are tested unless a zero switches them off; the tests that
/// need the focus run where a one switches them on and the focus is tested, the
/// listings where a one does. A menu stays open for the seconds that are asked
/// for, and for twenty where those cannot be read.
pub proof fn law_which_tests_run(s: Switches, r: Plan)
    requires
        call_ensures(run_if_enabled, (&s,), r),
    ensures
        r.layering <==> !(s.layer_test is Some && s.layer_test->0@ == "0"@),
        r.focus <==> !(s.self_test is Some && s.self_test->0@ == "0"@),
        r.drag_probe <==> r.focus && s.drag_probe is Some && s.drag_probe->0@ == "1"@,
        r.dragging <==> r.focus && s.drag_test is Some && s.drag_test->0@ == "1"@,
        r.menus <==> r.focus && s.menu_test is Some && s.menu_test->0@ == "1"@,
        r.locations <==> r.focus && s.location_test is Some && s.location_test->0@ == "1"@,
        r.operations <==> r.focus && s.operation_test is Some && s.operation_test->0@ == "1"@,
        r.dump_apps <==> s.dump_apps is Some && s.dump_apps->0@ == "1"@,
        r.icon_boxes <==> s.icon_boxes is Some && s.icon_boxes->0@ == "1"@,
        r.menu_shot is Some <==> s.menu_shot is Some,
        s.menu_shot is Some && unsigned_value(s.menu_shot->0@) is None ==> r.menu_shot->0 == 20,
        s.menu_shot is Some && unsigned_value(s.menu_shot->0@) is Some && unsigned_value(
            s.menu_shot->0@,
        )->0 <= u64::MAX ==> r.menu_shot->0 == unsigned_value(s.menu_shot->0@)->0,
{
}

/// A test that changes the list runs only where another configuration is named,
/// and blanks name none.
pub proof fn law_only_with_another_configuration(redirected: Option<String>, r: bool)
    requires
        call_ensures(require_temp_config, (&redirected,), r),
    ensures
        r <==> redirected is Some && trimmed(redirected->0@).len() > 0,
{
}

// ---------------------------------------------------------------- counting

/// A check counts once, as what it is.
pub proof fn law_checks_are_counted(t: &mut Tally, ok: bool, r: ())
    requires
        old(t).pass < u32::MAX,
        old(t).fail < u32::MAX,
        call_ensures(Tally::count, (t, ok), r),
    ensures
        final(t).pass + final(t).fail == old(t).pass + old(t).fail + 1,
        ok ==> final(t).fail == old(t).fail,
        !ok ==> final(t).pass == old(t).pass,
{
}

/// What is said of a check, and of all of them.
pub proof fn law_what_is_said_of_checks(
    t: Tally,
    ok: bool,
    what: &str,
    detail: &str,
    line: String,
    all: String,
)
    requires
        call_ensures(check_line, (ok, what, detail), line),
        call_ensures(Tally::summary, (&t,), all),
    ensures
        ok ==> line@ == "  [PASS] "@ + what@ + "  "@ + detail@,
        !ok ==> line@ == "  [FAIL] "@ + what@ + "  "@ + detail@,
        all@ == "  小结："@ + decimal(t.pass as nat) + " 项通过，"@ + decimal(t.fail as nat)
            + " 项失败"@,
{
}

// ---------------------------------------------------------------- the pointer

/// The units stand to 65535 as the distance to the last place of the screens, up
/// to rounding down; to the other side it is counted in the same way.
pub proof fn law_pointer_in_proportion(offset: int, extent: int)
    requires
        0 <= offset,
        extent >= 2,
    ensures
        pointer_units(offset, extent) * (extent - 1) <= offset * 65535 < (pointer_units(
            offset,
            extent,
        ) + 1) * (extent - 1),
        pointer_units(-offset, extent) == -pointer_units(offset, extent),
{
    let span = extent - 1;
    let n = offset * 65535;
    let q = n / span;
    assert(0 <= n) by (nonlinear_arith)
        requires
            n == offset * 65535,
            0 <= offset,
    ;
    assert(q * span <= n < (q + 1) * span) by (nonlinear_arith)
        requires
            q == n / span,
            span > 0,
    ;
    assert((-offset) * 65535 == -n);
}

// ---------------------------------------------------------------- taking the focus

/// Three clicks are tried within the process and three more while another one has
/// the focus. Only a window without protection is expected to take it, and only
/// the third click is tried without the hooks.
pub proof fn law_clicks_that_are_tried(other_process: bool, r: Vec<Phase>, i: int)
    requires
        call_ensures(phases, (other_process,), r),
        0 <= i < r@.len(),
    ensures
        r@.len() == if other_process {
            6nat
        } else {
            3nat
        },
        r@[i].expect_steal <==> r@[i].target is Unshielded,
        r@[i].holder is SameProcess <==> i < 3,
        r@[i].block <==> i != 2,
        r@[i].target is Unshielded <==> i == 0 || i == 4,
        r@[i].target is Shielded <==> i == 5,
        i == 0 ==> r@[i].label@ == "[P0] 同进程 无保护假Dock（阳性对照，期望夺焦点）"@,
        i == 1 ==> r@[i].label@ == "[A]  同进程 真 Dock（已装钩子）"@,
        i == 2 ==> r@[i].label@ == "[B]  同进程 真 Dock（未装钩子）"@,
        i == 3 ==> r@[i].label@ == "[C]  跨进程 真 Dock（真实工况，期望不夺）"@,
        i == 4 ==> r@[i].label@ == "[D]  跨进程 无保护假Dock（阳性对照，期望夺焦点）"@,
        i == 5 ==> r@[i].label@ == "[E]  跨进程 带NOACTIVATE假Dock（期望不夺）"@,
{
    let v = phase_views(r@);
    assert(v.len() == r@.len());
    assert(v[i] == r@[i]@);
}

/// What a click shows: nothing where the focus was not in place, where not all of
/// its three inputs were sent, or where it is not known to have arrived; otherwise
/// whether the focus was taken, and whether that was expected.
pub proof fn law_what_a_click_shows(
    ready: bool,
    injected: u32,
    target: ClickTarget,
    clicks: u32,
    on_target: bool,
    proven: bool,
    stolen: bool,
    expected: bool,
    r: &'static str,
)
    requires
        call_ensures(click_proven, (target, clicks, on_target), proven),
        call_ensures(focus_verdict, (ready, injected, proven, stolen, expected), r),
    ensures
        target is Dock ==> proven == on_target,
        !(target is Dock) ==> (proven <==> clicks >= 1),
        !ready ==> r@ == "INVALID（焦点未就位）"@,
        ready && injected <= 2 ==> r@ == "INVALID（SendInput 未注入）"@,
        ready && injected >= 3 && !proven ==> r@ == "INVALID（无法确认点击送达）"@,
        ready && injected >= 3 && proven && stolen && expected ==> r@ == "焦点被夺（符合预期）"@,
        ready && injected >= 3 && proven && !stolen && !expected ==> r@
            == "焦点**未**被夺 ✅（符合预期）"@,
        ready && injected >= 3 && proven && stolen && !expected ==> r@
            == "焦点被夺 ⚠️ **不符合预期**"@,
        ready && injected >= 3 && proven && !stolen && expected ==> r@
            == "焦点未被夺 ⚠️ **不符合预期**"@,
{
}

/// The names of the answers to a click, and what the calls of a page showed.
pub proof fn law_answers_are_named(
    v: i64,
    name: &'static str,
    report: &str,
    in_front: bool,
    verdict: &'static str,
)
    requires
        call_ensures(ma_name, (v,), name),
        call_ensures(ipc_verdict, (report, in_front), verdict),
    ensures
        v == 1 ==> name@ == "MA_ACTIVATE（会夺焦点）"@,
        v == 2 ==> name@ == "MA_ACTIVATEANDEAT（会夺焦点）"@,
        v == 3 ==> name@ == "MA_NOACTIVATE（不夺焦点）✅"@,
        v == 4 ==> name@ == "MA_NOACTIVATEANDEAT（不夺焦点）✅"@,
        v < 1 || v > 4 ==> name@ == "未知"@,
        report@ != "activate_app:ok"@ ==> verdict@ == "链路有问题 ❌"@,
        report@ == "activate_app:ok"@ && in_front ==> verdict@
            == "链路完整 ✅（前端成功调用命令且窗口行为正确）"@,
        report@ == "activate_app:ok"@ && !in_front ==> verdict@ == "命令调用成功，但窗口未见激活 ⚠️"@,
{
}

/// A plain window has neither the bit that keeps it inactive nor the one that
/// keeps it out of the task bar.
pub proof fn law_plain_windows(ex_style: u32, r: bool)
    requires
        call_ensures(is_plain_window, (ex_style,), r),
    ensures
        r <==> ex_style & 0x0800_0000 == 0 && ex_style & 0x80 == 0,
{
}

/// A look counts where the number of icons is right and the width is that of the
/// look before; any other look begins anew. The third look that counts settles.
pub proof fn law_looks(
    s: &mut Settling,
    count: &str,
    want: usize,
    width: i32,
    timed_out: bool,
    r: SettleStep,
)
    requires
        old(s).same < 3,
        call_ensures(Settling::look, (s, count, want, width, timed_out), r),
    ensures
        final(s).last_width == width,
        trimmed(count@) == decimal(want as nat) && width == old(s).last_width ==> final(s).same
            == old(s).same + 1,
        trimmed(count@) != decimal(want as nat) || width != old(s).last_width ==> final(s).same
            == 0,
        r is Settled <==> final(s).same == 3,
        r is TimedOut <==> final(s).same < 3 && timed_out,
{
}

// ---------------------------------------------------------------- lists

/// Identities are listed in the order of the entries.
pub proof fn law_identities_in_order(list: Vec<PinnedApp>, r: Vec<String>, i: int)
    requires
        call_ensures(ids_of, (&list,), r),
        0 <= i < list@.len(),
    ensures
        r@.len() == list@.len(),
        r@[i]@ == list@[i].id@,
{
    assert(text_views(r@).len() == list@.len());
    assert(text_views(r@)[i] == r@[i]@);
    assert(pinned_views(list@)[i] == list@[i]@);
}

/// Two lists are the same where they are as long and agree at every place; a text
/// stands in a list where it stands at some place.
pub proof fn law_lists_of_texts(
    a: Vec<String>,
    b: Vec<String>,
    s: &str,
    i: int,
    is_same: bool,
    holds: bool,
)
    requires
        call_ensures(same_texts, (&a, &b), is_same),
        call_ensures(has_text, (&a, s), holds),
    ensures
        is_same ==> a@.len() == b@.len(),
        is_same && 0 <= i < a@.len() ==> a@[i]@ == b@[i]@,
        a@.len() == b@.len() && (forall|k: int| 0 <= k < a@.len() ==> (#[trigger] a@[k])@ == b@[k]@)
            ==> is_same,
        0 <= i < a@.len() && a@[i]@ == s@ ==> holds,
        holds ==> exists|k: int| 0 <= k < a@.len() && (#[trigger] a@[k])@ == s@,
{
    let x = text_views(a@);
    let y = text_views(b@);
    if is_same {
        assert(x.len() == y.len());
        if 0 <= i < a@.len() {
            assert(x[i] == y[i]);
        }
    }
    if a@.len() == b@.len() && (forall|k: int|
        0 <= k < a@.len() ==> (#[trigger] a@[k])@ == b@[k]@) {
        assert(x =~= y);
    }
    if 0 <= i < a@.len() {
        assert(x[i] == a@[i]@);
    }
    if holds {
        let k = choose|k: int| 0 <= k < x.len() && x[k] == s@;
        assert(a@[k]@ == s@);
    }
}

proof fn lemma_first_idle(ids: Seq<Seq<char>>, running: Seq<Seq<char>>, k: int)
    requires
        0 <= k <= ids.len(),
        forall|i: int| 0 <= i < k ==> running.contains(#[trigger] ids[i]),
        k < ids.len() ==> !running.contains(ids[k]),
    ensures
        first_idle(ids, running) == k,
    decreases k,
{
    if k > 0 {
        assert(running.contains(ids[0]));
        assert forall|i: int| 0 <= i < k - 1 implies running.contains(#[trigger] ids.skip(1)[i]) by {
            assert(ids.skip(1)[i] == ids[i + 1]);
        }
        lemma_first_idle(ids.skip(1), running, k - 1);
    }
}

/// The icon that is dragged is the first whose application does not run, or the
/// first of all; it goes three places on, or to the front where there are none.
pub proof fn law_icon_to_drag(ids: Vec<String>, running: Vec<String>, k: int, r: DragPlan)
    requires
        ids@.len() >= 4,
        0 <= k <= ids@.len(),
        forall|i: int| 0 <= i < k ==> text_views(running@).contains((#[trigger] ids@[i])@),
        k < ids@.len() ==> !text_views(running@).contains(ids@[k]@),
        call_ensures(plan_drag, (&ids, &running), r),
    ensures
        r.idle <==> k < ids@.len(),
        k < ids@.len() ==> r.from == k,
        k == ids@.len() ==> r.from == 0,
        r.to == r.from + 3 || r.to == 0,
        r.to == 0 <==> r.from + 3 >= ids@.len(),
        r.from != r.to,
{
    let all = text_views(ids@);
    assert forall|i: int| 0 <= i < k implies text_views(running@).contains(#[trigger] all[i]) by {
        assert(all[i] == ids@[i]@);
    }
    if k < ids@.len() {
        assert(all[k] == ids@[k]@);
    }
    lemma_first_idle(all, text_views(running@), k);
}

/// An item that is moved stands at its new place; what lies between moves up by
/// one, and everything else stays.
pub proof fn law_moved(s: Seq<Seq<char>>, from: int, to: int, i: int)
    requires
        0 <= from < s.len(),
        0 <= to < s.len(),
        0 <= i < s.len(),
    ensures
        moved(s, from, to).len() == s.len(),
        moved(s, from, to)[to] == s[from],
        from < to && from <= i < to ==> moved(s, from, to)[i] == s[i + 1],
        to < from && to < i <= from ==> moved(s, from, to)[i] == s[i - 1],
        i < from && i < to || i > from && i > to ==> moved(s, from, to)[i] == s[i],
{
}

/// How a list is seen to have changed: one entry gone, one added last, or a
/// separator put in second.
pub proof fn law_changes_that_are_seen(
    before: usize,
    list: Vec<PinnedApp>,
    ids: Vec<String>,
    id: &str,
    gone: bool,
    added: bool,
    second: bool,
    other: bool,
    i: int,
)
    requires
        call_ensures(one_gone, (before, &list, id), gone),
        call_ensures(added_last, (before, &ids, id), added),
        call_ensures(separator_second, (before, &list, id), second),
        call_ensures(other_separator_second, (before, &list, id), other),
    ensures
        gone ==> list@.len() == before - 1,
        gone && 0 <= i < list@.len() ==> list@[i].id@ != id@,
        added <==> ids@.len() == before + 1 && ids@[ids@.len() - 1]@ == id@,
        second <==> list@.len() == before + 1 && list@.len() >= 2 && list@[1].separator
            && list@[1].id@ == id@,
        other <==> list@.len() == before + 1 && list@.len() >= 2 && list@[1].separator
            && list@[1].id@ != id@,
{
    let v = pinned_views(list@);
    if 0 <= i < list@.len() {
        assert(v[i] == list@[i]@);
    }
    if ids@.len() == before + 1 {
        assert(text_views(ids@).last() == ids@[ids@.len() - 1]@);
    }
}

/// Every separator counts once.
pub proof fn law_separators_are_counted(a: Seq<PinnedView>, b: Seq<PinnedView>, p: PinnedView)
    ensures
        separator_count(Seq::empty()) == 0,
        separator_count(seq![p]) == if p.separator {
            1nat
        } else {
            0nat
        },
        separator_count(a + b) == separator_count(a) + separator_count(b),
    decreases b.len(),
{
    assert(seq![p].drop_last() =~= Seq::empty());
    assert(separator_count(Seq::empty()) == 0);
    if b.len() == 0 {
        assert(a + b =~= a);
    } else {
        law_separators_are_counted(a, b.drop_last(), p);
        assert((a + b).drop_last() =~= a + b.drop_last());
        assert((a + b).last() == b.last());
    }
}

// ---------------------------------------------------------------- folders

/// Before the first entry that passes none does.
proof fn lemma_first_where(s: Seq<PinnedView>, f: spec_fn(PinnedView) -> bool, j: int)
    ensures
        0 <= first_where(s, f) <= s.len(),
        first_where(s, f) < s.len() ==> f(s[first_where(s, f)]),
        0 <= j < first_where(s, f) ==> !f(s[j]),
    decreases s.len(),
{
    if s.len() > 0 && !f(s[0]) {
        lemma_first_where(s.skip(1), f, j - 1);
        let k = first_where(s.skip(1), f);
        if k < s.skip(1).len() {
            assert(s.skip(1)[k] == s[k + 1]);
        }
        if 0 < j < k + 1 {
            assert(s.skip(1)[j - 1] == s[j]);
        }
    }
}

/// The entry that is made a folder is no separator and no folder, and the first
/// place of the system where there is one, else the first that opens anything.
pub proof fn law_entry_for_a_folder(list: Vec<PinnedApp>, r: Option<usize>, j: int)
    requires
        call_ensures(pick_seed, (&list,), r),
        0 <= j < list@.len(),
        !list@[j].separator,
        !list@[j].is_folder,
    ensures
        r is Some ==> r->0 < list@.len() && !list@[r->0 as int].separator
            && !list@[r->0 as int].is_folder,
        shell_location(list@[j].target@) ==> r is Some && r->0 <= j && shell_location(
            list@[r->0 as int].target@,
        ),
        list@[j].target@.len() > 0 ==> r is Some,
        list@[j].target@.len() > 0 && !shell_location(list@[r->0 as int].target@) ==> r->0 <= j
            && list@[r->0 as int].target@.len() > 0,
{
    let s = pinned_views(list@);
    lemma_first_where(s, seed_rule(true), j);
    lemma_first_where(s, seed_rule(false), j);
    assert(s[j] == list@[j]@);
    let a = first_where(s, seed_rule(true));
    let b = first_where(s, seed_rule(false));
    if a < s.len() {
        assert(s[a] == list@[a]@);
    }
    if b < s.len() {
        assert(s[b] == list@[b]@);
    }
}

/// The first folder is one, and nothing before it is. It is as expected where it
/// holds the one entry and no other.
pub proof fn law_first_folder(
    list: Vec<PinnedApp>,
    seed: &str,
    r: Option<usize>,
    made: bool,
    j: int,
)
    requires
        call_ensures(first_folder, (&list,), r),
        call_ensures(folder_made, (&list, seed), made),
        0 <= j < list@.len(),
    ensures
        r is Some ==> r->0 < list@.len() && list@[r->0 as int].is_folder,
        list@[j].is_folder ==> r is Some && r->0 <= j,
        made <==> r is Some && list@[r->0 as int].children@.len() == 1
            && list@[r->0 as int].children@[0].id@ == seed@,
{
    let s = pinned_views(list@);
    lemma_first_where(s, folder_rule(), j);
    assert(s[j] == list@[j]@);
    let i = first_where(s, folder_rule());
    if i < s.len() {
        assert(s[i] == list@[i]@);
        lemma_children_views(list@[i]);
        if list@[i].children@.len() == 1 {
            assert(s[i].children[0] == list@[i].children@[0]@);
        }
    }
}

/// The entry that is dragged into a folder can be started, is not the folder, and
/// runs where any such entry does.
pub proof fn law_entry_to_drag_in(
    list: Vec<PinnedApp>,
    folder_id: &str,
    running: Vec<String>,
    r: Option<usize>,
    j: int,
)
    requires
        call_ensures(pick_draggable, (&list, folder_id, &running), r),
        0 <= j < list@.len(),
        !list@[j].separator,
        !list@[j].is_folder,
        list@[j].target@.len() > 0,
        list@[j].id@ != folder_id@,
    ensures
        r is Some,
        r->0 < list@.len(),
        !list@[r->0 as int].separator,
        !list@[r->0 as int].is_folder,
        list@[r->0 as int].target@.len() > 0,
        list@[r->0 as int].id@ != folder_id@,
        text_views(running@).contains(list@[j].id@) ==> r->0 <= j && text_views(
            running@,
        ).contains(list@[r->0 as int].id@),
        !text_views(running@).contains(list@[r->0 as int].id@) ==> r->0 <= j,
{
    let s = pinned_views(list@);
    let busy = drag_rule(folder_id@, Some(text_views(running@)));
    let any = drag_rule(folder_id@, None);
    lemma_first_where(s, busy, j);
    lemma_first_where(s, any, j);
    assert(s[j] == list@[j]@);
    let a = first_where(s, busy);
    let b = first_where(s, any);
    if a < s.len() {
        assert(s[a] == list@[a]@);
    }
    if b < s.len() {
        assert(s[b] == list@[b]@);
    }
}

/// A folder holds as many entries as its first entry of that identity does; where
/// no entry has the identity there are none.
pub proof fn law_what_a_folder_holds(s: Seq<PinnedView>, id: Seq<char>, k: int)
    requires
        0 <= k <= s.len(),
        forall|i: int| 0 <= i < k ==> (#[trigger] s[i]).id != id,
        k < s.len() ==> s[k].id == id,
    ensures
        k < s.len() ==> held(s, id) == s[k].children.len(),
        k == s.len() ==> held(s, id) == 0,
{
    lemma_pin_index(s, id);
    let i = pin_index(s, id);
    if i < k {
        assert(s[i].id != id);
    }
    if k < i {
        assert(s[k].id != id);
    }
}

/// How changes of folders are judged: an entry that went in is missing outside
/// and makes two inside; one that went out stands behind its folder; a folder that
/// was dissolved is gone, and what it held is outside.
pub proof fn law_changes_of_folders(
    before: Vec<PinnedApp>,
    after: Vec<PinnedApp>,
    folder: &str,
    child: &str,
    went_in: bool,
    went_out: bool,
    gone: bool,
    i: int,
)
    requires
        call_ensures(dragged_in, (&before, &after, folder), went_in),
        call_ensures(moved_out_behind, (&before, &after, folder, child), went_out),
        call_ensures(dissolved_ok, (&before, &after, folder), gone),
    ensures
        ({
            let a = pinned_views(before@);
            let b = pinned_views(after@);
            &&& went_in ==> held(b, folder@) == 2 && (a.len() - separator_count(a)) - (b.len()
                - separator_count(b)) == 1
            &&& went_out ==> held(a, folder@) - held(b, folder@) == 1 && exists|k: int|
                0 <= k < b.len() - 1 && (#[trigger] b[k]).id == folder@ && b[k + 1].id == child@
            &&& gone ==> after@.len() - before@.len() == held(a, folder@) - 1
            &&& gone && 0 <= i < after@.len() ==> after@[i].id@ != folder@
        }),
{
    let b = pinned_views(after@);
    lemma_pin_index(b, child@);
    lemma_pin_index(b, folder@);
    if went_out {
        let k = pin_index(b, folder@);
        assert(b[k].id == folder@ && b[k + 1].id == child@);
    }
    if gone && 0 <= i < after@.len() {
        assert(b[i] == after@[i]@);
    }
}

/// The marks of a folder are right where each is as wanted, and there is one
/// where a running application was put in.
pub proof fn law_marks_of_a_folder(want: Vec<bool>, got: Vec<bool>, put_in: bool, r: bool, i: int)
    requires
        call_ensures(dots_ok, (&want, &got, put_in), r),
    ensures
        r ==> want@.len() == got@.len() && want@.len() > 0,
        r && 0 <= i < want@.len() ==> want@[i] == got@[i],
        r && put_in ==> want@.contains(true),
        want@ == got@ && 0 <= i < want@.len() && want@[i] ==> r,
        want@ == got@ && want@.len() > 0 && !put_in ==> r,
{
}

// ---------------------------------------------------------------- menus

/// Items and dividers are counted apart; the place of an item is how many items
/// stand before it.
pub proof fn law_places_of_items(a: Seq<ItemView>, b: Seq<ItemView>, x: ItemView, id: Seq<char>)
    requires
        forall|i: int| 0 <= i < a.len() ==> (#[trigger] a[i]).divider || a[i].id != id,
    ensures
        divider_count(Seq::empty()) == 0,
        divider_count(seq![x]) == if x.divider {
            1nat
        } else {
            0nat
        },
        divider_count(a + b) == divider_count(a) + divider_count(b),
        item_position(a + b, id) == a.len() - divider_count(a) + item_position(b, id),
        !x.divider && x.id == id ==> item_position(seq![x] + b, id) == 0,
    decreases a.len(),
{
    assert(seq![x].skip(1) =~= Seq::empty());
    assert(divider_count(Seq::empty()) == 0);
    assert((seq![x] + b)[0] == x);
    if a.len() == 0 {
        assert(a + b =~= b);
    } else {
        assert((a + b)[0] == a[0]);
        assert((a + b).skip(1) =~= a.skip(1) + b);
        assert forall|i: int| 0 <= i < a.skip(1).len() implies (#[trigger] a.skip(1)[i]).divider
            || a.skip(1)[i].id != id by {
            assert(a.skip(1)[i] == a[i + 1]);
        }
        law_places_of_items(a.skip(1), b, x, id);
    }
}

proof fn lemma_item_at(s: Seq<ItemView>, id: Seq<char>, k: int)
    requires
        0 <= k <= s.len(),
        forall|i: int| 0 <= i < k ==> (#[trigger] s[i]).id != id,
        k < s.len() ==> s[k].id == id,
    ensures
        item_at(s, id) == k,
    decreases k,
{
    if k > 0 {
        assert(s[0].id != id);
        assert forall|i: int| 0 <= i < k - 1 implies (#[trigger] s.skip(1)[i]).id != id by {
            assert(s.skip(1)[i] == s[i + 1]);
        }
        lemma_item_at(s.skip(1), id, k - 1);
    }
}

/// How menus are judged, by the first item of a kind: the recycle bin can be
/// emptied where it holds anything, and a directory is opened first and never
/// with other rights.
pub proof fn law_menus_are_judged(
    items: Vec<MenuItem>,
    bin_items: u32,
    k: int,
    n: int,
    only: bool,
    bin: bool,
    directory: bool,
)
    requires
        0 <= k <= items@.len(),
        forall|i: int| 0 <= i < k ==> (#[trigger] items@[i]).id@ != "empty-bin"@,
        k < items@.len() ==> items@[k].id@ == "empty-bin"@,
        0 <= n <= items@.len(),
        forall|i: int| 0 <= i < n ==> (#[trigger] items@[i]).id@ != "runas"@,
        n < items@.len() ==> items@[n].id@ == "runas"@,
        call_ensures(only_removal, (&items,), only),
        call_ensures(bin_item_ok, (&items, bin_items), bin),
        call_ensures(directory_menu_ok, (&items,), directory),
    ensures
        only <==> items@.len() == 1 && items@[0].id@ == "remove"@,
        bin <==> k < items@.len() && (items@[k].enabled <==> bin_items > 0),
        directory <==> items@.len() > 0 && items@[0].label@ == "打开"@ && n < items@.len()
            && !items@[n].enabled,
{
    let s = item_views(items@);
    assert forall|i: int| 0 <= i < k implies (#[trigger] s[i]).id != "empty-bin"@ by {
        assert(s[i] == items@[i]@);
    }
    assert forall|i: int| 0 <= i < n implies (#[trigger] s[i]).id != "runas"@ by {
        assert(s[i] == items@[i]@);
    }
    if k < s.len() {
        assert(s[k] == items@[k]@);
    }
    if n < s.len() {
        assert(s[n] == items@[n]@);
    }
    if s.len() > 0 {
        assert(s[0] == items@[0]@);
    }
    lemma_item_at(s, "empty-bin"@, k);
    lemma_item_at(s, "runas"@, n);
}

proof fn lemma_label_at(s: Seq<ItemView>, head: Seq<char>, j: int)
    ensures
        0 <= label_at(s, head) <= s.len(),
        label_at(s, head) < s.len() ==> head.is_prefix_of(s[label_at(s, head)].label),
        0 <= j < label_at(s, head) ==> !head.is_prefix_of(s[j].label),
    decreases s.len(),
{
    if s.len() > 0 && !head.is_prefix_of(s[0].label) {
        lemma_label_at(s.skip(1), head, j - 1);
        let k = label_at(s.skip(1), head);
        if k < s.skip(1).len() {
            assert(s.skip(1)[k] == s[k + 1]);
        }
        if 0 < j < k + 1 {
            assert(s.skip(1)[j - 1] == s[j]);
        }
    }
}

/// A label is found by how it begins, and the first such is found. A folder's menu
/// is as expected where it has both labels, and the removal says how much goes.
pub proof fn law_labels_are_found(
    items: Vec<MenuItem>,
    head: &str,
    children: usize,
    r: Option<usize>,
    both: bool,
    counted: bool,
    i: int,
    j: int,
)
    requires
        call_ensures(find_label, (&items, head), r),
        call_ensures(folder_menu_ok, (&items,), both),
        call_ensures(removal_counts, (&items, children), counted),
        0 <= i < items@.len(),
        0 <= j < items@.len(),
    ensures
        r is Some ==> r->0 < items@.len() && head@.is_prefix_of(items@[r->0 as int].label@),
        head@.is_prefix_of(items@[i].label@) ==> r is Some && r->0 <= i,
        "解散文件夹"@.is_prefix_of(items@[i].label@) && "移出 Dock"@.is_prefix_of(
            items@[j].label@,
        ) ==> both,
        both ==> exists|k: int|
            0 <= k < items@.len() && "解散文件夹"@.is_prefix_of((#[trigger] items@[k]).label@),
        both || counted ==> exists|k: int|
            0 <= k < items@.len() && "移出 Dock"@.is_prefix_of((#[trigger] items@[k]).label@),
        counted && head@ == "移出 Dock"@ ==> occurs(
            items@[r->0 as int].label@,
            decimal(children as nat),
        ),
{
    let s = item_views(items@);
    lemma_label_at(s, head@, i);
    lemma_label_at(s, "解散文件夹"@, i);
    lemma_label_at(s, "移出 Dock"@, j);
    assert(s[i] == items@[i]@);
    assert(s[j] == items@[j]@);
    let a = label_at(s, "解散文件夹"@);
    let b = label_at(s, "移出 Dock"@);
    if a < s.len() {
        assert(s[a] == items@[a]@);
    }
    if b < s.len() {
        assert(s[b] == items@[b]@);
    }
    if r is Some {
        assert(s[r->0 as int] == items@[r->0 as int]@);
    }
}

// ---------------------------------------------------------------- places on the screen

/// How places are judged: a menu is wholly above the dock and not above the
/// screen; a folder ends less than forty pixels above the dock; something is
/// centred where its middle is near enough, and a change may be off by two.
pub proof fn law_places_are_judged(
    menu: Rect,
    dock: Rect,
    area: Rect,
    x: i32,
    tolerance: i32,
    change: i64,
    expected: i64,
    above: bool,
    close: bool,
    centre: bool,
    changed: bool,
    m: i32,
)
    requires
        call_ensures(above_dock, (&menu, &dock, &area), above),
        call_ensures(close_above, (&menu, &dock), close),
        call_ensures(centred, (&menu, x, tolerance), centre),
        call_ensures(changed_by, (change, expected), changed),
        call_ensures(middle, (menu.left, menu.right), m),
    ensures
        above <==> menu.bottom <= dock.top && area.top <= menu.top,
        close <==> 0 <= dock.top - menu.bottom < 40,
        -1 <= 2 * m - (menu.left + menu.right) <= 1,
        centre <==> -tolerance <= m - x <= tolerance,
        changed <==> -2 <= expected - change <= 2,
{
}

/// The other size of icons is another one, 56 wherever it is not that already. A
/// width is shown in decimal, in pixels.
pub proof fn law_sizes_of_icons(size: u32, other: u32, shown: &str, ok: bool)
    requires
        call_ensures(other_icon_size, (size,), other),
        call_ensures(icon_width_ok, (shown, size), ok),
    ensures
        other != size,
        other == 48 || other == 56,
        size != 56 ==> other == 56,
        ok <==> trimmed(shown@) == decimal(size as nat) + "px"@,
{
}

// ---------------------------------------------------------------- windows

/// The windows that came are those whose handle was not there before, in their
/// order.
pub proof fn law_windows_that_came(before: Seq<WindowView>, after: Seq<WindowView>)
    ensures
        fresh(before, after) == after.filter(
            |w: WindowView|
                forall|i: int| 0 <= i < before.len() ==> (#[trigger] before[i]).hwnd != w.hwnd,
        ),
    decreases after.len(),
{
    reveal(Seq::filter);
    if after.len() > 0 {
        law_windows_that_came(before, after.drop_last());
    }
}

proof fn lemma_windows_of(s: Seq<AppView>, end: Seq<char>, k: int)
    requires
        0 <= k <= s.len(),
        forall|i: int| 0 <= i < k ==> !end.is_suffix_of((#[trigger] s[i]).id),
        k < s.len() ==> end.is_suffix_of(s[k].id),
    ensures
        k < s.len() ==> windows_of(s, end) == s[k].windows,
        k == s.len() ==> windows_of(s, end) == Seq::<WindowView>::empty(),
    decreases k,
{
    if k > 0 {
        assert(!end.is_suffix_of(s[0].id));
        assert forall|i: int| 0 <= i < k - 1 implies !end.is_suffix_of(
            (#[trigger] s.skip(1)[i]).id,
        ) by {
            assert(s.skip(1)[i] == s[i + 1]);
        }
        lemma_windows_of(s.skip(1), end, k - 1);
    }
}

/// The windows of the file manager are those of the first application that is it;
/// where none is, there are none.
pub proof fn law_windows_of_the_file_manager(running: Vec<AppEntry>, k: int, r: Vec<WindowRef>)
    requires
        0 <= k <= running@.len(),
        forall|i: int| 0 <= i < k ==> !"explorer.exe"@.is_suffix_of((#[trigger] running@[i]).id@),
        k < running@.len() ==> "explorer.exe"@.is_suffix_of(running@[k].id@),
        call_ensures(explorer_windows, (&running,), r),
    ensures
        k < running@.len() ==> window_views(r@) == window_views(running@[k].windows@),
        k == running@.len() ==> r@.len() == 0,
{
    let s = app_views(running@);
    assert forall|i: int| 0 <= i < k implies !"explorer.exe"@.is_suffix_of((#[trigger] s[i]).id) by {
        assert(s[i] == running@[i]@);
    }
    if k < s.len() {
        assert(s[k] == running@[k]@);
        lemma_entry_views(running@[k]);
    }
    lemma_windows_of(s, "explorer.exe"@, k);
    assert(window_views(r@).len() == r@.len());
}

proof fn lemma_below(stack: Seq<Layered>, dock: u64, rect: Rect, n: nat, x: usize)
    requires
        n <= stack.len(),
        n <= usize::MAX,
    ensures
        below(stack, dock, rect, n).contains(x) <==> x < n && stack[x as int].hwnd != dock
            && suspicious(stack[x as int], rect) && dock_before(stack, dock, x as nat),
        forall|i: int|
            0 <= i < below(stack, dock, rect, n).len() ==> #[trigger] below(stack, dock, rect, n)[i]
                < n,
    decreases n,
{
    if n > 0 {
        let m = (n - 1) as nat;
        lemma_below(stack, dock, rect, m, x);
        let rest = below(stack, dock, rect, m);
        let all = below(stack, dock, rect, n);
        if all != rest {
            assert(all =~= rest.push(m as usize));
            assert(all.last() == m as usize);
            if rest.contains(x) {
                let i = choose|i: int| 0 <= i < rest.len() && rest[i] == x;
                assert(all[i] == x);
            }
            if all.contains(x) && !rest.contains(x) {
                let i = choose|i: int| 0 <= i < all.len() && all[i] == x;
                if i < rest.len() {
                    assert(rest[i] == x);
                }
            }
        }
    }
}

/// A window is reported where it stands below the dock, is shown, has an extent
/// that reaches the dock, and is not the desktop; no other is.
pub proof fn law_windows_below_the_dock(
    stack: Vec<Layered>,
    dock: u64,
    rect: Rect,
    r: Vec<usize>,
    d: int,
    x: usize,
)
    requires
        stack@.len() <= usize::MAX,
        call_ensures(windows_below, (&stack, dock, &rect), r),
        0 <= d < stack@.len(),
        stack@[d].hwnd == dock,
        forall|i: int| 0 <= i < d ==> (#[trigger] stack@[i]).hwnd != dock,
    ensures
        r@.contains(x) <==> {
            let w = stack@[x as int];
            &&& d < x < stack@.len()
            &&& w.hwnd != dock
            &&& w.visible && !w.iconic
            &&& w.rect.left < w.rect.right && w.rect.top < w.rect.bottom
            &&& w.rect.left <= rect.right && rect.left <= w.rect.right
            &&& w.rect.top <= rect.bottom && rect.top <= w.rect.bottom
            &&& w.class@ != "Progman"@ && w.class@ != "WorkerW"@
        },
{
    lemma_below(stack@, dock, rect, stack@.len(), x);
    if dock_before(stack@, dock, x as nat) {
        let k = choose|k: int| 0 <= k < x && (#[trigger] stack@[k]).hwnd == dock;
        assert(d <= k);
    }
    if d < x {
        assert(stack@[d].hwnd == dock);
    }
}

// ---------------------------------------------------------------- dropping

/// What is said of outcomes that were not expected.
pub proof fn law_unexpected_outcomes(o: Outcome, r: String)
    requires
        call_ensures(describe_outcome, (&o,), r),
    ensures
        o is Added && o->running ==> r@ == "意外地被接受: "@ + o->Added_name@ + " running="@
            + "true"@,
        o is Added && !o->running ==> r@ == "意外地被接受: "@ + o->Added_name@ + " running="@
            + "false"@,
        o is Already ==> r@ == "意外地判定为已在: "@ + o->Already_name@,
        o is Rejected ==> r@ == "意外地被拒绝: "@ + o->why@,
{
}

/// How the handling of files is judged.
pub proof fn law_files_are_judged(
    name: &str,
    why: &str,
    target: &str,
    app: AppEntry,
    present: bool,
    pinned: Vec<String>,
    hint: &str,
    rejected: bool,
    link: bool,
    droppable: bool,
    hinted: bool,
)
    requires
        call_ensures(other_file_rejected, (name, why), rejected),
        call_ensures(link_target_ok, (target,), link),
        call_ensures(can_be_dropped, (&app, present, &pinned), droppable),
        call_ensures(hint_ok, (hint, name), hinted),
    ensures
        rejected <==> occurs(why@, "只接受"@) && ".txt"@.is_suffix_of(name@),
        link <==> ".exe"@.is_suffix_of(lowercase(target@)) || "shell:"@.is_prefix_of(target@),
        droppable ==> present && ".exe"@.is_suffix_of(lowercase(app.target@)),
        droppable ==> !text_views(pinned@).contains(app.id@),
        present && ".exe"@.is_suffix_of(lowercase(app.target@)) && !text_views(pinned@).contains(
            app.id@,
        ) ==> droppable,
        hinted <==> occurs(hint@, "松开即移除"@) && occurs(hint@, name@),
{
    lemma_entry_views(app);
}

} // verus!
