//! What the operations on the pinned list keep: nothing is lost, folders stay
//! flat, identities stay distinct, and repeating or undoing an operation gives
//! what one expects.

use vstd::prelude::*;
use vstd::string::*;
use vstd::multiset::Multiset;
use crate::model::{pinned_views, PinnedApp, PinnedView};
use crate::store::{
    add_system_location, add_temp_folder, at_left, bad_index, candidate_id, config_dir, config_path,
    default_rules, dissolved, first_app, foldered, free_id, free_id_from, has_id, holder_index,
    lemma_pin_index, listed, moved_in, moved_out, pin_index, pinned_with, plan_migration, purged,
    removed, rename_prompt_name, renamed, reordered, rule_target, seed_entries, seedable, seeded,
    separated, separator_entry, splice, system_entry, taken, without_id, ConfigPlace, FoundView,
    MigrationPlan, PinRule, RuleView, DEFAULT_FOLDER_NAME, MAX_FOLDER_NAME_CHARS,
};
use crate::text::{decimal, lowercase, opt_view, trimmed};
use crate::apps::{shell_target, system_location, target_id, windowsapps_path};

verus! {

/// What an entry holds: a folder its children, anything else itself.
pub open spec fn unit(p: PinnedView) -> Seq<PinnedView> {
    if p.is_folder {
        p.children
    } else {
        seq![p]
    }
}

/// Everything on the dock that is no folder, from left to right.
pub open spec fn leaves(s: Seq<PinnedView>) -> Seq<PinnedView>
    decreases s.len(),
{
    if s.len() == 0 {
        Seq::empty()
    } else {
        leaves(s.drop_last()) + unit(s.last())
    }
}

/// An entry that is no folder and holds nothing.
pub open spec fn leaf(p: PinnedView) -> bool {
    !p.is_folder && p.children.len() == 0
}

/// Folders hold neither folders nor separators, and nothing else holds
/// anything.
pub open spec fn shaped(s: Seq<PinnedView>) -> bool {
    forall|i: int| 0 <= i < s.len() ==> shaped_entry(#[trigger] s[i])
}

/// One entry of a well-shaped list.
pub open spec fn shaped_entry(p: PinnedView) -> bool {
    if p.is_folder {
        !p.separator && forall|j: int|
            0 <= j < p.children.len() ==> leaf(#[trigger] p.children[j])
                && !p.children[j].separator
    } else {
        p.children.len() == 0
    }
}

/// No two entries at the top share an identity.
pub open spec fn distinct_ids(s: Seq<PinnedView>) -> bool {
    forall|i: int, j: int| 0 <= i < j < s.len() ==> (#[trigger] s[i]).id != (#[trigger] s[j]).id
}

proof fn lemma_leaves_add(a: Seq<PinnedView>, b: Seq<PinnedView>)
    ensures
        leaves(a + b) == leaves(a) + leaves(b),
    decreases b.len(),
{
    if b.len() == 0 {
        assert(a + b =~= a);
        assert(leaves(a) + leaves(b) =~= leaves(a));
    } else {
        lemma_leaves_add(a, b.drop_last());
        assert((a + b).drop_last() =~= a + b.drop_last());
        assert(leaves(a + b) =~= leaves(a) + leaves(b));
    }
}

proof fn lemma_leaves_one(p: PinnedView)
    ensures
        leaves(seq![p]) == unit(p),
{
    assert(seq![p].drop_last() =~= Seq::empty());
    assert(leaves(seq![p]) =~= unit(p)) by {
        assert(leaves(seq![p].drop_last()) =~= Seq::empty());
    }
}

proof fn lemma_leaves_split(s: Seq<PinnedView>, i: int)
    requires
        0 <= i < s.len(),
    ensures
        leaves(s) == leaves(s.take(i)) + unit(s[i]) + leaves(s.skip(i + 1)),
{
    assert(s =~= s.take(i) + seq![s[i]] + s.skip(i + 1));
    lemma_leaves_add(s.take(i) + seq![s[i]], s.skip(i + 1));
    lemma_leaves_add(s.take(i), seq![s[i]]);
    lemma_leaves_one(s[i]);
}

proof fn lemma_leaves_update(s: Seq<PinnedView>, i: int, p: PinnedView)
    requires
        0 <= i < s.len(),
    ensures
        leaves(s.update(i, p)) == leaves(s.take(i)) + unit(p) + leaves(s.skip(i + 1)),
{
    let u = s.update(i, p);
    lemma_leaves_split(u, i);
    assert(u.take(i) =~= s.take(i));
    assert(u.skip(i + 1) =~= s.skip(i + 1));
}

/// The leaves without regard to their order.
pub open spec fn leaf_bag(s: Seq<PinnedView>) -> Multiset<PinnedView> {
    leaves(s).to_multiset()
}

proof fn lemma_bag_parts(a: Seq<PinnedView>, u: Seq<PinnedView>, b: Seq<PinnedView>)
    ensures
        (a + u + b).to_multiset() == a.to_multiset().add(u.to_multiset()).add(b.to_multiset()),
{
    vstd::seq_lib::lemma_multiset_commutative(a + u, b);
    vstd::seq_lib::lemma_multiset_commutative(a, u);
}

proof fn lemma_bag_update(s: Seq<PinnedView>, i: int, p: PinnedView)
    requires
        0 <= i < s.len(),
    ensures
        leaf_bag(s.update(i, p)).add(unit(s[i]).to_multiset()) == leaf_bag(s).add(
            unit(p).to_multiset(),
        ),
{
    let a = leaves(s.take(i));
    let b = leaves(s.skip(i + 1));
    lemma_leaves_update(s, i, p);
    lemma_leaves_split(s, i);
    lemma_bag_parts(a, unit(p), b);
    lemma_bag_parts(a, unit(s[i]), b);
    assert(leaf_bag(s.update(i, p)).add(unit(s[i]).to_multiset()) =~= leaf_bag(s).add(
        unit(p).to_multiset(),
    ));
}

proof fn lemma_bag_remove(s: Seq<PinnedView>, i: int)
    requires
        0 <= i < s.len(),
    ensures
        leaf_bag(s.remove(i)).add(unit(s[i]).to_multiset()) == leaf_bag(s),
{
    let a = leaves(s.take(i));
    let b = leaves(s.skip(i + 1));
    assert(s.remove(i) =~= s.take(i) + s.skip(i + 1));
    lemma_leaves_add(s.take(i), s.skip(i + 1));
    lemma_leaves_split(s, i);
    lemma_bag_parts(a, unit(s[i]), b);
    vstd::seq_lib::lemma_multiset_commutative(a, b);
    assert(leaf_bag(s.remove(i)).add(unit(s[i]).to_multiset()) =~= leaf_bag(s));
}

proof fn lemma_bag_insert(s: Seq<PinnedView>, i: int, p: PinnedView)
    requires
        0 <= i <= s.len(),
    ensures
        leaf_bag(s.insert(i, p)) == leaf_bag(s).add(unit(p).to_multiset()),
{
    let t = s.insert(i, p);
    lemma_bag_remove(t, i);
    assert(t.remove(i) =~= s);
}

proof fn lemma_single(p: PinnedView)
    ensures
        seq![p].to_multiset() == Multiset::singleton(p),
{
    broadcast use vstd::seq_lib::group_to_multiset_ensures;

    assert(seq![p] =~= Seq::<PinnedView>::empty().push(p));
    assert(seq![p].to_multiset() =~= Multiset::singleton(p));
}

proof fn lemma_push_bag(s: Seq<PinnedView>, p: PinnedView)
    ensures
        s.push(p).to_multiset() == s.to_multiset().insert(p),
{
    broadcast use vstd::seq_lib::group_to_multiset_ensures;

}

proof fn lemma_remove_bag(s: Seq<PinnedView>, i: int)
    requires
        0 <= i < s.len(),
    ensures
        s.remove(i).to_multiset().insert(s[i]) == s.to_multiset(),
{
    broadcast use vstd::seq_lib::group_to_multiset_ensures;

    vstd::seq_lib::to_multiset_remove(s, i);
    assert(s.to_multiset().contains(s[i])) by {
        assert(s.contains(s[i]));
    }
    assert(s.remove(i).to_multiset().insert(s[i]) =~= s.to_multiset());
}

/// Turning an entry into a folder loses nothing and keeps the order.
pub proof fn law_create_folder_keeps_everything(
    s: Seq<PinnedView>,
    app_id: Seq<char>,
    name: Option<Seq<char>>,
    ms: u64,
)
    requires
        foldered(s, app_id, name, ms) is Ok,
    ensures
        leaves(foldered(s, app_id, name, ms)->Ok_0.0) == leaves(s),
        foldered(s, app_id, name, ms)->Ok_0.0.len() == s.len(),
{
    lemma_pin_index(s, app_id);
    let i = pin_index(s, app_id);
    let l = foldered(s, app_id, name, ms)->Ok_0.0;
    lemma_leaves_split(s, i);
    lemma_leaves_update(s, i, l[i]);
    assert(l =~= s.update(i, l[i]));
}

/// Dissolving a folder loses nothing and keeps the order.
pub proof fn law_dissolve_keeps_everything(s: Seq<PinnedView>, folder_id: Seq<char>)
    requires
        shaped(s),
        dissolved(s, folder_id) is Ok,
    ensures
        leaves(dissolved(s, folder_id)->Ok_0.0) == leaves(s),
{
    lemma_pin_index(s, folder_id);
    let f = pin_index(s, folder_id);
    let kids = s[f].children;
    assert(shaped_entry(s[f]));
    lemma_leaves_of_leaves(kids);
    lemma_leaves_split(s, f);
    lemma_leaves_add(s.take(f) + kids, s.skip(f + 1));
    lemma_leaves_add(s.take(f), kids);
}

proof fn lemma_leaves_of_leaves(kids: Seq<PinnedView>)
    requires
        forall|j: int| 0 <= j < kids.len() ==> leaf(#[trigger] kids[j]),
    ensures
        leaves(kids) == kids,
    decreases kids.len(),
{
    if kids.len() > 0 {
        lemma_leaves_of_leaves(kids.drop_last());
        assert(leaf(kids[kids.len() - 1]));
        assert(leaves(kids) =~= kids);
    } else {
        assert(leaves(kids) =~= kids);
    }
}

/// Dissolving a folder that was just made of an entry restores the list, unless
/// an entry to the left of it has its identity.
pub proof fn law_create_then_dissolve(
    s: Seq<PinnedView>,
    app_id: Seq<char>,
    name: Option<Seq<char>>,
    ms: u64,
)
    requires
        foldered(s, app_id, name, ms) is Ok,
        !has_id(s.take(pin_index(s, app_id)), foldered(s, app_id, name, ms)->Ok_0.1),
    ensures
        ({
            let (l, id) = foldered(s, app_id, name, ms)->Ok_0;
            dissolved(l, id) == Ok::<(Seq<PinnedView>, nat), Seq<char>>((s, 1nat))
        }),
{
    lemma_pin_index(s, app_id);
    let i = pin_index(s, app_id);
    let (l, id) = foldered(s, app_id, name, ms)->Ok_0;
    lemma_pin_index(l, id);
    assert(l[i].id == id);
    let k = pin_index(l, id);
    if k < i {
        assert(s.take(i)[k] == l[k]);
    }
    assert(k == i);
    assert(splice(l, i, l[i].children) =~= s);
}

/// Moving an entry into a folder loses nothing.
pub proof fn law_move_in_keeps_everything(
    s: Seq<PinnedView>,
    folder_id: Seq<char>,
    app_id: Seq<char>,
)
    requires
        moved_in(s, folder_id, app_id) is Ok,
    ensures
        leaf_bag(moved_in(s, folder_id, app_id)->Ok_0) == leaf_bag(s),
{
    lemma_pin_index(s, folder_id);
    lemma_pin_index(s, app_id);
    let f = pin_index(s, folder_id);
    let c = pin_index(s, app_id);
    let x = s[c];
    let nf = PinnedView { children: s[f].children.push(x), ..s[f] };
    let u = s.update(f, nf);
    lemma_bag_update(s, f, nf);
    lemma_bag_remove(u, c);
    lemma_push_bag(s[f].children, x);
    lemma_single(x);
    assert(u[c] == x);
    assert(leaf_bag(u) =~= leaf_bag(s).insert(x)) by {
        let k = s[f].children.to_multiset();
        assert(leaf_bag(u).add(k) == leaf_bag(s).add(k.insert(x)));
        assert forall|v: PinnedView| leaf_bag(u).count(v) == leaf_bag(s).insert(x).count(v) by {
            assert(leaf_bag(u).add(k).count(v) == leaf_bag(s).add(k.insert(x)).count(v));
        }
    }
    assert(leaf_bag(u.remove(c)) =~= leaf_bag(s)) by {
        assert forall|v: PinnedView| leaf_bag(u.remove(c)).count(v) == leaf_bag(s).count(v) by {
            assert(leaf_bag(u.remove(c)).add(Multiset::singleton(x)).count(v) == leaf_bag(u).count(
                v,
            ));
        }
    }
}

/// Moving an entry out of its folder loses nothing.
pub proof fn law_move_out_keeps_everything(s: Seq<PinnedView>, id: Seq<char>)
    requires
        shaped(s),
        moved_out(s, id) is Ok,
    ensures
        leaf_bag(moved_out(s, id)->Ok_0.0) == leaf_bag(s),
{
    lemma_holder(s, id);
    let f = holder_index(s, id);
    let kids = s[f].children;
    lemma_pin_index(kids, id);
    let c = pin_index(kids, id);
    let child = kids[c];
    let rest = kids.remove(c);
    assert(shaped_entry(s[f]));
    assert(leaf(child));
    lemma_remove_bag(kids, c);
    lemma_single(child);
    if rest.len() == 0 {
        lemma_bag_update(s, f, child);
        assert(kids =~= seq![child]);
        let u = s.update(f, child);
        assert(leaf_bag(u) =~= leaf_bag(s)) by {
            assert forall|v: PinnedView| leaf_bag(u).count(v) == leaf_bag(s).count(v) by {
                assert(leaf_bag(u).add(kids.to_multiset()).count(v) == leaf_bag(s).add(
                    kids.to_multiset(),
                ).count(v));
            }
        }
    } else {
        let nf = PinnedView { children: rest, ..s[f] };
        let u = s.update(f, nf);
        lemma_bag_update(s, f, nf);
        lemma_bag_insert(u, f + 1, child);
        assert(leaf_bag(u.insert(f + 1, child)) =~= leaf_bag(s)) by {
            assert forall|v: PinnedView|
                leaf_bag(u.insert(f + 1, child)).count(v) == leaf_bag(s).count(v) by {
                assert(leaf_bag(u).add(kids.to_multiset()).count(v) == leaf_bag(s).add(
                    rest.to_multiset(),
                ).count(v));
                assert(rest.to_multiset().insert(child).count(v) == kids.to_multiset().count(v));
            }
        }
    }
}

proof fn lemma_holder(s: Seq<PinnedView>, id: Seq<char>)
    ensures
        0 <= holder_index(s, id) <= s.len(),
        holder_index(s, id) < s.len() ==> s[holder_index(s, id)].is_folder && has_id(
            s[holder_index(s, id)].children,
            id,
        ),
    decreases s.len(),
{
    if s.len() > 0 && !(s[0].is_folder && has_id(s[0].children, id)) {
        lemma_holder(s.skip(1), id);
    }
}

/// Renaming a folder changes nothing else.
pub proof fn law_rename_keeps_everything(s: Seq<PinnedView>, id: Seq<char>, name: Seq<char>)
    requires
        renamed(s, id, name) is Ok,
    ensures
        leaves(renamed(s, id, name)->Ok_0.0) == leaves(s),
        renamed(s, id, name)->Ok_0.0.len() == s.len(),
        forall|i: int|
            0 <= i < s.len() ==> (#[trigger] renamed(s, id, name)->Ok_0.0[i]).id == s[i].id,
{
    lemma_pin_index(s, id);
    let i = pin_index(s, id);
    let l = renamed(s, id, name)->Ok_0.0;
    lemma_leaves_split(s, i);
    lemma_leaves_update(s, i, l[i]);
    assert(l =~= s.update(i, l[i]));
}

/// After removal no entry has the identity, at the top or in a folder, and
/// removing again changes nothing.
pub proof fn law_removed_is_gone(s: Seq<PinnedView>, id: Seq<char>)
    ensures
        !listed(removed(s, id), id),
        removed(removed(s, id), id) == removed(s, id),
{
    let r = removed(s, id);
    let top = without_id(s, id);
    lemma_without_id(s, id);
    assert forall|i: int| 0 <= i < r.len() implies (#[trigger] r[i]).id != id && !(r[i].is_folder
        && has_id(r[i].children, id)) by {
        assert(r[i] == purged(top[i], id));
        lemma_without_id(top[i].children, id);
    }
    lemma_without_absent(r, id);
    assert(removed(r, id) =~= r) by {
        assert forall|i: int| 0 <= i < r.len() implies removed(r, id)[i] == r[i] by {
            assert(r[i] == purged(top[i], id));
            if r[i].is_folder {
                lemma_without_absent(r[i].children, id);
                assert(purged(r[i], id) =~= r[i]);
            }
        }
    }
}

pub(crate) proof fn lemma_without_id(s: Seq<PinnedView>, id: Seq<char>)
    ensures
        !has_id(without_id(s, id), id),
        forall|i: int|
            0 <= i < without_id(s, id).len() ==> s.contains(#[trigger] without_id(s, id)[i]),
    decreases s.len(),
{
    reveal(Seq::filter);
    if s.len() > 0 {
        let t = s.drop_last();
        let u = without_id(t, id);
        let w = without_id(s, id);
        lemma_without_id(t, id);
        assert forall|i: int| 0 <= i < w.len() implies s.contains(#[trigger] w[i]) && w[i].id
            != id by {
            if i < u.len() {
                assert(w[i] == u[i]);
                assert(t.contains(u[i]));
                let k = choose|k: int| 0 <= k < t.len() && t[k] == u[i];
                assert(s[k] == u[i]);
            } else {
                assert(w[i] == s[s.len() - 1]);
            }
        }
    }
}

pub(crate) proof fn lemma_without_absent(s: Seq<PinnedView>, id: Seq<char>)
    requires
        !has_id(s, id),
    ensures
        without_id(s, id) == s,
    decreases s.len(),
{
    reveal(Seq::filter);
    if s.len() > 0 {
        let t = s.drop_last();
        assert(!has_id(t, id)) by {
            if has_id(t, id) {
                let i = choose|i: int| 0 <= i < t.len() && (#[trigger] t[i]).id == id;
                assert(s[i].id == id);
            }
        }
        lemma_without_absent(t, id);
        assert(s[s.len() - 1].id != id);
        assert(without_id(s, id) =~= s);
    }
}

/// Pinning twice is pinning once, and what was there stays in front.
pub proof fn law_pin_is_idempotent(s: Seq<PinnedView>, e: PinnedView)
    ensures
        pinned_with(pinned_with(s, e), e) == pinned_with(s, e),
        s.is_prefix_of(pinned_with(s, e)),
        has_id(pinned_with(s, e), e.id),
{
    if !has_id(s, e.id) {
        let t = s.push(e);
        assert(t[s.len() as int].id == e.id);
        assert(s =~= t.subrange(0, s.len() as int));
    }
}

/// Putting an entry at the left twice gives what once gives, and it stands
/// first.
pub proof fn law_at_left_is_idempotent(s: Seq<PinnedView>, e: PinnedView)
    ensures
        at_left(at_left(s, e), e) == at_left(s, e),
        at_left(s, e).len() > 0,
        at_left(s, e)[0].id == e.id,
{
    lemma_pin_index(s, e.id);
    let t = at_left(s, e);
    assert(t[0].id == e.id);
    assert(pin_index(t, e.id) == 0);
    assert(at_left(t, e) =~= t);
}

// ---------------------------------------------------------------- order

proof fn lemma_no_bad(s: Seq<PinnedView>, ids: Seq<Seq<char>>, from: int)
    requires
        0 <= from <= ids.len(),
        bad_index(s, ids, from) == ids.len(),
    ensures
        forall|i: int|
            from <= i < ids.len() ==> has_id(s, #[trigger] ids[i]) && !ids.take(i).contains(ids[i]),
    decreases ids.len() - from,
{
    if from < ids.len() {
        lemma_no_bad(s, ids, from + 1);
    }
}

pub(crate) proof fn lemma_all_good(s: Seq<PinnedView>, ids: Seq<Seq<char>>, from: int)
    requires
        0 <= from <= ids.len(),
        forall|i: int|
            from <= i < ids.len() ==> has_id(s, #[trigger] ids[i]) && !ids.take(i).contains(ids[i]),
    ensures
        bad_index(s, ids, from) == ids.len(),
    decreases ids.len() - from,
{
    if from < ids.len() {
        assert(has_id(s, ids[from]));
        lemma_all_good(s, ids, from + 1);
    }
}

proof fn lemma_entry_after_remove(s: Seq<PinnedView>, k: int, y: Seq<char>)
    requires
        0 <= k < s.len(),
        s[k].id != y,
        has_id(s, y),
    ensures
        has_id(s.remove(k), y),
        s.remove(k)[pin_index(s.remove(k), y)] == s[pin_index(s, y)],
{
    let t = s.remove(k);
    lemma_pin_index(s, y);
    lemma_pin_index(t, y);
    let j = pin_index(s, y);
    let m = if j < k {
        j
    } else {
        j - 1
    };
    assert(t[m] == s[j]);
    let q = pin_index(t, y);
    assert(q <= m);
    if q < m {
        let orig = if q < k {
            q
        } else {
            q + 1
        };
        assert(t[q] == s[orig]);
        assert(orig < j);
    }
}

proof fn lemma_permutation(s: Seq<PinnedView>, ids: Seq<Seq<char>>)
    requires
        ids.len() == s.len(),
        forall|i: int|
            0 <= i < ids.len() ==> has_id(s, #[trigger] ids[i]) && !ids.take(i).contains(ids[i]),
    ensures
        Seq::new(ids.len(), |i: int| s[pin_index(s, ids[i])]).to_multiset() == s.to_multiset(),
    decreases ids.len(),
{
    let list = Seq::new(ids.len(), |i: int| s[pin_index(s, ids[i])]);
    if ids.len() == 0 {
        assert(list =~= s);
    } else {
        let n = ids.len() - 1;
        let x = ids[n];
        assert(has_id(s, x));
        lemma_pin_index(s, x);
        let k = pin_index(s, x);
        let t = s.remove(k);
        let rest = ids.drop_last();
        assert forall|i: int| 0 <= i < rest.len() implies has_id(t, #[trigger] rest[i])
            && !rest.take(i).contains(rest[i]) by {
            assert(rest[i] == ids[i]);
            assert(rest.take(i) =~= ids.take(i));
            assert(has_id(s, ids[i]));
            assert(ids.take(n)[i] == ids[i]);
            assert(ids[i] != x);
            lemma_entry_after_remove(s, k, ids[i]);
        }
        lemma_permutation(t, rest);
        let list2 = Seq::new(rest.len(), |i: int| t[pin_index(t, rest[i])]);
        assert(list =~= list2.push(s[k])) by {
            assert forall|i: int| 0 <= i < rest.len() implies list[i] == list2[i] by {
                assert(has_id(s, ids[i]));
                assert(ids.take(n)[i] == ids[i]);
                lemma_entry_after_remove(s, k, ids[i]);
            }
        }
        lemma_push_bag(list2, s[k]);
        lemma_remove_bag(s, k);
    }
}

/// An accepted order only rearranges the entries: none is lost, none is
/// repeated, and they stand as the order names them.
pub proof fn law_reorder_rearranges(s: Seq<PinnedView>, ids: Seq<Seq<char>>)
    requires
        reordered(s, ids) is Ok,
    ensures
        reordered(s, ids)->Ok_0.to_multiset() == s.to_multiset(),
        reordered(s, ids)->Ok_0.len() == s.len(),
        forall|i: int| 0 <= i < ids.len() ==> (#[trigger] reordered(s, ids)->Ok_0[i]).id == ids[i],
{
    lemma_bad_bound(s, ids, 0);
    lemma_no_bad(s, ids, 0);
    lemma_permutation(s, ids);
    assert forall|i: int| 0 <= i < ids.len() implies (#[trigger] reordered(s, ids)->Ok_0[i]).id
        == ids[i] by {
        assert(has_id(s, ids[i]));
        lemma_pin_index(s, ids[i]);
    }
}

proof fn lemma_bad_bound(s: Seq<PinnedView>, ids: Seq<Seq<char>>, from: int)
    requires
        0 <= from,
    ensures
        bad_index(s, ids, from) <= ids.len(),
    decreases ids.len() - from,
{
    if from < ids.len() {
        lemma_bad_bound(s, ids, from + 1);
    }
}

/// An order is accepted exactly where it names every entry once: as many as
/// there are, each of them there, none twice.
pub proof fn law_reorder_accepts(s: Seq<PinnedView>, ids: Seq<Seq<char>>)
    ensures
        reordered(s, ids) is Ok <==> {
            &&& ids.len() == s.len()
            &&& ids.no_duplicates()
            &&& forall|i: int| 0 <= i < ids.len() ==> has_id(s, #[trigger] ids[i])
        },
{
    lemma_bad_bound(s, ids, 0);
    if reordered(s, ids) is Ok {
        lemma_no_bad(s, ids, 0);
        assert forall|i: int, j: int| 0 <= i < j < ids.len() implies ids[i] != ids[j] by {
            assert(ids.take(j)[i] == ids[i]);
            assert(has_id(s, ids[j]));
        }
    }
    if ids.len() == s.len() && ids.no_duplicates() && (forall|i: int|
        0 <= i < ids.len() ==> has_id(s, #[trigger] ids[i])) {
        assert forall|i: int| 0 <= i < ids.len() implies has_id(s, #[trigger] ids[i])
            && !ids.take(i).contains(ids[i]) by {
            if ids.take(i).contains(ids[i]) {
                let k = choose|k: int| 0 <= k < ids.take(i).len() && ids.take(i)[k] == ids[i];
                assert(ids[k] == ids[i]);
            }
        }
        lemma_all_good(s, ids, 0);
    }
}

// ---------------------------------------------------------------- shape

/// Every change of the list keeps folders flat.
pub proof fn law_changes_keep_shape(
    s: Seq<PinnedView>,
    a: Seq<char>,
    b: Seq<char>,
    name: Option<Seq<char>>,
    ms: u64,
    e: PinnedView,
    ids: Seq<Seq<char>>,
)
    requires
        shaped(s),
        leaf(e),
    ensures
        foldered(s, a, name, ms) is Ok ==> shaped(foldered(s, a, name, ms)->Ok_0.0),
        moved_in(s, a, b) is Ok ==> shaped(moved_in(s, a, b)->Ok_0),
        moved_out(s, a) is Ok ==> shaped(moved_out(s, a)->Ok_0.0),
        dissolved(s, a) is Ok ==> shaped(dissolved(s, a)->Ok_0.0),
        renamed(s, a, b) is Ok ==> shaped(renamed(s, a, b)->Ok_0.0),
        shaped(removed(s, a)),
        shaped(pinned_with(s, e)),
        shaped(at_left(s, e)),
        shaped(separated(s, name, ms)),
        reordered(s, ids) is Ok ==> shaped(reordered(s, ids)->Ok_0),
{
    lemma_pin_index(s, a);
    lemma_pin_index(s, b);
    lemma_pin_index(s, e.id);
    if foldered(s, a, name, ms) is Ok {
        let i = pin_index(s, a);
        assert(shaped_entry(s[i]));
        let l = foldered(s, a, name, ms)->Ok_0.0;
        assert(shaped_entry(l[i]));
        assert forall|k: int| 0 <= k < l.len() implies shaped_entry(#[trigger] l[k]) by {
            if k != i {
                assert(l[k] == s[k]);
            }
        }
    }
    if moved_in(s, a, b) is Ok {
        let f = pin_index(s, a);
        let c = pin_index(s, b);
        let nf = PinnedView { children: s[f].children.push(s[c]), ..s[f] };
        let u = s.update(f, nf);
        assert(shaped_entry(s[f]));
        assert(shaped_entry(s[c]));
        assert(shaped_entry(nf));
        let l = u.remove(c);
        assert forall|k: int| 0 <= k < l.len() implies shaped_entry(#[trigger] l[k]) by {
            let o = if k < c {
                k
            } else {
                k + 1
            };
            assert(l[k] == u[o]);
            if o != f {
                assert(u[o] == s[o]);
            }
        }
    }
    if moved_out(s, a) is Ok {
        lemma_holder(s, a);
        let f = holder_index(s, a);
        lemma_pin_index(s[f].children, a);
        let c = pin_index(s[f].children, a);
        let child = s[f].children[c];
        let rest = s[f].children.remove(c);
        assert(shaped_entry(s[f]));
        assert(leaf(child));
        let l = moved_out(s, a)->Ok_0.0;
        let nf = PinnedView { children: rest, ..s[f] };
        assert(shaped_entry(nf)) by {
            assert forall|j: int| 0 <= j < rest.len() implies leaf(#[trigger] rest[j])
                && !rest[j].separator by {
                let o = if j < c {
                    j
                } else {
                    j + 1
                };
                assert(rest[j] == s[f].children[o]);
            }
        }
        assert forall|k: int| 0 <= k < l.len() implies shaped_entry(#[trigger] l[k]) by {
            if rest.len() == 0 {
                if k != f {
                    assert(l[k] == s[k]);
                }
            } else if k < f {
                assert(l[k] == s[k]);
            } else if k > f + 1 {
                assert(l[k] == s[k - 1]);
            }
        }
    }
    if dissolved(s, a) is Ok {
        let f = pin_index(s, a);
        let kids = s[f].children;
        assert(shaped_entry(s[f]));
        let l = splice(s, f, kids);
        assert forall|k: int| 0 <= k < l.len() implies shaped_entry(#[trigger] l[k]) by {
            if k < f {
                assert(l[k] == s[k]);
            } else if k < f + kids.len() {
                assert(l[k] == kids[k - f]);
            } else {
                assert(l[k] == s[k - kids.len() + 1]);
            }
        }
    }
    if renamed(s, a, b) is Ok {
        let i = pin_index(s, a);
        let l = renamed(s, a, b)->Ok_0.0;
        assert(shaped_entry(s[i]));
        assert forall|k: int| 0 <= k < l.len() implies shaped_entry(#[trigger] l[k]) by {
            if k != i {
                assert(l[k] == s[k]);
            } else {
                assert(l[k].children == s[i].children);
            }
        }
    }
    lemma_shape_of_removed(s, a);
    let l = at_left(s, e);
    let i = pin_index(s, e.id);
    assert forall|k: int| 0 <= k < l.len() implies shaped_entry(#[trigger] l[k]) by {
        if i < s.len() {
            if k == 0 {
                assert(l[k] == s[i]);
            } else if k - 1 < i {
                assert(l[k] == s[k - 1]);
            } else {
                assert(l[k] == s[k]);
            }
        } else if k > 0 {
            assert(l[k] == s[k - 1]);
        }
    }
    lemma_shape_of_separated(s, name, ms);
    if reordered(s, ids) is Ok {
        lemma_bad_bound(s, ids, 0);
        lemma_no_bad(s, ids, 0);
        let l = reordered(s, ids)->Ok_0;
        assert forall|k: int| 0 <= k < l.len() implies shaped_entry(#[trigger] l[k]) by {
            assert(has_id(s, ids[k]));
            lemma_pin_index(s, ids[k]);
        }
    }
}

proof fn lemma_shape_of_separated(s: Seq<PinnedView>, after: Option<Seq<char>>, ms: u64)
    requires
        shaped(s),
    ensures
        shaped(separated(s, after, ms)),
{
    let l = separated(s, after, ms);
    let at = if after is Some && pin_index(s, after->0) < s.len() {
        pin_index(s, after->0) + 1
    } else {
        s.len() as int
    };
    if after is Some {
        lemma_pin_index(s, after->0);
    }
    assert forall|k: int| 0 <= k < l.len() implies shaped_entry(#[trigger] l[k]) by {
        if k < at {
            assert(l[k] == s[k]);
        } else if k > at {
            assert(l[k] == s[k - 1]);
        }
    }
}

proof fn lemma_shape_of_removed(s: Seq<PinnedView>, id: Seq<char>)
    requires
        shaped(s),
    ensures
        shaped(removed(s, id)),
{
    let r = removed(s, id);
    let top = without_id(s, id);
    lemma_without_id(s, id);
    assert forall|k: int| 0 <= k < r.len() implies shaped_entry(#[trigger] r[k]) by {
        assert(r[k] == purged(top[k], id));
        assert(s.contains(top[k]));
        assert(shaped_entry(top[k]));
        let kids = top[k].children;
        lemma_without_id(kids, id);
        if top[k].is_folder {
            assert forall|j: int| 0 <= j < r[k].children.len() implies leaf(
                #[trigger] r[k].children[j],
            ) && !r[k].children[j].separator by {
                assert(kids.contains(without_id(kids, id)[j]));
            }
        }
    }
}

// ---------------------------------------------------------------- identities at the top

/// Changes of the list keep the identities at the top distinct. A new separator
/// and a new folder do where their identity is free, dissolving a folder where
/// the identities that come out are distinct and free.
pub proof fn law_changes_keep_ids_distinct(
    s: Seq<PinnedView>,
    a: Seq<char>,
    b: Seq<char>,
    after: Option<Seq<char>>,
    ms: u64,
    e: PinnedView,
    ids: Seq<Seq<char>>,
    name: Option<Seq<char>>,
)
    requires
        distinct_ids(s),
    ensures
        foldered(s, a, name, ms) is Ok && !has_id(
            s.remove(pin_index(s, a)),
            foldered(s, a, name, ms)->Ok_0.1,
        ) ==> distinct_ids(foldered(s, a, name, ms)->Ok_0.0),
        dissolved(s, a) is Ok && free_among(
            s[pin_index(s, a)].children,
            s.remove(pin_index(s, a)),
        ) ==> distinct_ids(dissolved(s, a)->Ok_0.0),
        moved_in(s, a, b) is Ok ==> distinct_ids(moved_in(s, a, b)->Ok_0),
        moved_out(s, a) is Ok ==> distinct_ids(moved_out(s, a)->Ok_0.0),
        renamed(s, a, b) is Ok ==> distinct_ids(renamed(s, a, b)->Ok_0.0),
        distinct_ids(removed(s, a)),
        distinct_ids(pinned_with(s, e)),
        distinct_ids(at_left(s, e)),
        !has_id(s, free_id(s, "sep"@, ms)) ==> distinct_ids(separated(s, after, ms)),
        reordered(s, ids) is Ok ==> distinct_ids(reordered(s, ids)->Ok_0),
{
    lemma_pin_index(s, a);
    lemma_pin_index(s, b);
    lemma_pin_index(s, e.id);
    let at = pin_index(s, a);
    if foldered(s, a, name, ms) is Ok && !has_id(s.remove(at), foldered(s, a, name, ms)->Ok_0.1) {
        let (l, id) = foldered(s, a, name, ms)->Ok_0;
        assert forall|i: int, j: int| 0 <= i < j < l.len() implies (#[trigger] l[i]).id != (
        #[trigger] l[j]).id by {
            if i == at {
                assert(s.remove(at)[j - 1] == l[j]);
            } else if j == at {
                assert(s.remove(at)[i] == l[i]);
            }
        }
    }
    if dissolved(s, a) is Ok && free_among(s[at].children, s.remove(at)) {
        lemma_distinct_splice(s, at);
    }
    if moved_in(s, a, b) is Ok {
        let f = pin_index(s, a);
        let c = pin_index(s, b);
        let nf = PinnedView { children: s[f].children.push(s[c]), ..s[f] };
        let u = s.update(f, nf);
        let l = u.remove(c);
        assert forall|i: int, j: int| 0 <= i < j < l.len() implies (#[trigger] l[i]).id != (
        #[trigger] l[j]).id by {
            let oi = if i < c {
                i
            } else {
                i + 1
            };
            let oj = if j < c {
                j
            } else {
                j + 1
            };
            assert(l[i] == u[oi] && l[j] == u[oj]);
            assert(u[oi].id == s[oi].id && u[oj].id == s[oj].id);
        }
    }
    if moved_out(s, a) is Ok {
        lemma_holder(s, a);
        let f = holder_index(s, a);
        lemma_pin_index(s[f].children, a);
        let l = moved_out(s, a)->Ok_0.0;
        let d = moved_out(s, a)->Ok_0.1;
        assert forall|i: int, j: int| 0 <= i < j < l.len() implies (#[trigger] l[i]).id != (
        #[trigger] l[j]).id by {
            if d {
                if i != f {
                    assert(l[i] == s[i]);
                }
                if j != f {
                    assert(l[j] == s[j]);
                }
                assert(l[f].id == a);
            } else {
                assert(l[f + 1].id == a);
                let oi = if i <= f {
                    i
                } else {
                    i - 1
                };
                let oj = if j <= f {
                    j
                } else {
                    j - 1
                };
                if i != f + 1 {
                    assert(l[i].id == s[oi].id);
                }
                if j != f + 1 {
                    assert(l[j].id == s[oj].id);
                }
            }
        }
    }
    if renamed(s, a, b) is Ok {
        law_rename_keeps_everything(s, a, b);
        let l = renamed(s, a, b)->Ok_0.0;
        assert forall|i: int, j: int| 0 <= i < j < l.len() implies (#[trigger] l[i]).id != (
        #[trigger] l[j]).id by {
            assert(l[i].id == s[i].id && l[j].id == s[j].id);
        }
    }
    lemma_distinct_filter(s, a);
    let r = removed(s, a);
    assert forall|i: int, j: int| 0 <= i < j < r.len() implies (#[trigger] r[i]).id != (
    #[trigger] r[j]).id by {
        assert(r[i].id == without_id(s, a)[i].id);
        assert(r[j].id == without_id(s, a)[j].id);
    }
    let l = at_left(s, e);
    let m = pin_index(s, e.id);
    assert forall|i: int, j: int| 0 <= i < j < l.len() implies (#[trigger] l[i]).id != (
    #[trigger] l[j]).id by {
        if m < s.len() {
            let oi = if i == 0 {
                m
            } else if i - 1 < m {
                i - 1
            } else {
                i
            };
            let oj = if j - 1 < m {
                j - 1
            } else {
                j
            };
            assert(l[i] == s[oi]);
            assert(l[j] == s[oj]);
        } else {
            assert(l[j] == s[j - 1]);
            if i > 0 {
                assert(l[i] == s[i - 1]);
            }
        }
    }
    if !has_id(s, free_id(s, "sep"@, ms)) {
        lemma_distinct_separated(s, after, ms);
    }
    if reordered(s, ids) is Ok {
        law_reorder_rearranges(s, ids);
        law_reorder_accepts(s, ids);
        let l = reordered(s, ids)->Ok_0;
        assert forall|i: int, j: int| 0 <= i < j < l.len() implies (#[trigger] l[i]).id != (
        #[trigger] l[j]).id by {
            assert(l[i].id == ids[i] && l[j].id == ids[j]);
        }
    }
}

/// The identities of some entries are distinct, and no entry of a list has one.
pub open spec fn free_among(kids: Seq<PinnedView>, rest: Seq<PinnedView>) -> bool {
    distinct_ids(kids) && forall|k: int|
        0 <= k < kids.len() ==> !has_id(rest, (#[trigger] kids[k]).id)
}

proof fn lemma_distinct_splice(s: Seq<PinnedView>, f: int)
    requires
        distinct_ids(s),
        0 <= f < s.len(),
        free_among(s[f].children, s.remove(f)),
    ensures
        distinct_ids(splice(s, f, s[f].children)),
{
    let kids = s[f].children;
    let rest = s.remove(f);
    let l = splice(s, f, kids);
    let c = kids.len();
    assert forall|i: int| 0 <= i < l.len() implies #[trigger] l[i] == (if i < f {
        rest[i]
    } else if i < f + c {
        kids[i - f]
    } else {
        rest[i - c]
    }) by {}
    assert forall|i: int, j: int| 0 <= i < j < l.len() implies (#[trigger] l[i]).id != (
    #[trigger] l[j]).id by {
        let inner_i = f <= i < f + c;
        let inner_j = f <= j < f + c;
        if inner_i && inner_j {
            assert(kids[i - f].id != kids[j - f].id);
        } else if inner_i {
            assert(!has_id(rest, kids[i - f].id));
        } else if inner_j {
            assert(!has_id(rest, kids[j - f].id));
        } else {
            let oi = if i < f {
                i
            } else {
                i - c + 1
            };
            let oj = if j < f {
                j
            } else {
                j - c + 1
            };
            assert(l[i] == s[oi] && l[j] == s[oj]);
        }
    }
}

proof fn lemma_distinct_insert(s: Seq<PinnedView>, at: int, e: PinnedView)
    requires
        distinct_ids(s),
        0 <= at <= s.len(),
        !has_id(s, e.id),
    ensures
        distinct_ids(s.insert(at, e)),
{
    let l = s.insert(at, e);
    assert forall|i: int, j: int| 0 <= i < j < l.len() implies (#[trigger] l[i]).id != (
    #[trigger] l[j]).id by {
        let oi = if i < at {
            i
        } else {
            i - 1
        };
        let oj = if j < at {
            j
        } else {
            j - 1
        };
        if i != at {
            assert(l[i] == s[oi]);
        }
        if j != at {
            assert(l[j] == s[oj]);
        }
    }
}

proof fn lemma_distinct_separated(s: Seq<PinnedView>, after: Option<Seq<char>>, ms: u64)
    requires
        distinct_ids(s),
        !has_id(s, free_id(s, "sep"@, ms)),
    ensures
        distinct_ids(separated(s, after, ms)),
{
    let e = separator_entry(free_id(s, "sep"@, ms));
    if after is Some && pin_index(s, after->0) < s.len() {
        lemma_pin_index(s, after->0);
        lemma_distinct_insert(s, pin_index(s, after->0) + 1, e);
    } else {
        lemma_distinct_insert(s, s.len() as int, e);
        assert(s.push(e) =~= s.insert(s.len() as int, e));
    }
}

pub(crate) proof fn lemma_distinct_filter(s: Seq<PinnedView>, id: Seq<char>)
    requires
        distinct_ids(s),
    ensures
        distinct_ids(without_id(s, id)),
    decreases s.len(),
{
    reveal(Seq::filter);
    if s.len() > 0 {
        let t = s.drop_last();
        assert(distinct_ids(t)) by {
            assert forall|i: int, j: int| 0 <= i < j < t.len() implies (#[trigger] t[i]).id != (
            #[trigger] t[j]).id by {
                assert(t[i] == s[i] && t[j] == s[j]);
            }
        }
        lemma_distinct_filter(t, id);
        lemma_without_id(t, id);
        let w = without_id(s, id);
        if s.last().id != id {
            let u = without_id(t, id);
            assert(w == u.push(s.last()));
            assert forall|i: int, j: int| 0 <= i < j < w.len() implies (#[trigger] w[i]).id != (
            #[trigger] w[j]).id by {
                assert(w[i] == u[i]);
                assert(t.contains(u[i]));
                let k = choose|k: int| 0 <= k < t.len() && t[k] == u[i];
                assert(s[k] == u[i]);
                if j < u.len() {
                    assert(w[j] == u[j]);
                } else {
                    assert(w[j] == s[s.len() - 1]);
                }
            }
        }
    }
}

// ---------------------------------------------------------------- the first list

/// The target of an entry was found, and can be launched directly.
pub open spec fn found_as(fs: Seq<FoundView>, p: PinnedView) -> bool {
    exists|k: int|
        0 <= k < fs.len() && seedable(#[trigger] fs[k]) && fs[k].target == Some(p.target)
            && p.id == target_id(p.target)
}

proof fn lemma_seed_entries(fs: Seq<FoundView>)
    ensures
        distinct_ids(seed_entries(fs)),
        forall|i: int|
            0 <= i < seed_entries(fs).len() ==> found_as(fs, #[trigger] seed_entries(fs)[i])
                && !seed_entries(fs)[i].separator,
    decreases fs.len(),
{
    if fs.len() > 0 {
        let rest = fs.drop_last();
        lemma_seed_entries(rest);
        let s = seed_entries(rest);
        let l = seed_entries(fs);
        assert forall|i: int| 0 <= i < l.len() implies found_as(fs, #[trigger] l[i])
            && !l[i].separator by {
            if i < s.len() {
                assert(l[i] == s[i]);
                assert(found_as(rest, s[i]));
                let k = choose|k: int|
                    0 <= k < rest.len() && seedable(#[trigger] rest[k]) && rest[k].target == Some(
                        s[i].target,
                    ) && s[i].id == target_id(s[i].target);
                assert(fs[k] == rest[k]);
            } else {
                assert(seedable(fs[fs.len() - 1]));
            }
        }
    }
}

proof fn lemma_first_app(s: Seq<PinnedView>)
    ensures
        0 <= first_app(s) <= s.len(),
        forall|i: int| 0 <= i < first_app(s) ==> system_entry(#[trigger] s[i]),
        first_app(s) < s.len() ==> !system_entry(s[first_app(s)]),
    decreases s.len(),
{
    if s.len() > 0 && system_entry(s[0]) {
        let t = s.skip(1);
        lemma_first_app(t);
        assert forall|i: int| 0 <= i < first_app(s) implies system_entry(#[trigger] s[i]) by {
            if i > 0 {
                assert(s[i] == t[i - 1]);
            }
        }
    }
}

/// Every entry of the first list was found on this machine, exists and can be
/// launched directly, and none stands there twice. There is at most one
/// separator, and it has an entry on each side: in front of it stand only entries
/// of the system, and right behind it an application. Its identity is its own
/// unless an entry was found under it.
pub proof fn law_first_list(fs: Seq<FoundView>, ms: u64)
    ensures
        distinct_ids(seed_entries(fs)),
        !has_id(seed_entries(fs), free_id(Seq::empty(), "sep"@, ms)) ==> distinct_ids(
            seeded(fs, ms),
        ),
        forall|i: int|
            0 <= i < seeded(fs, ms).len() ==> (#[trigger] seeded(fs, ms)[i]).separator || found_as(
                fs,
                seeded(fs, ms)[i],
            ),
        forall|i: int|
            0 <= i < seeded(fs, ms).len() && (#[trigger] seeded(fs, ms)[i]).separator ==> {
                &&& 0 < i
                &&& i + 1 < seeded(fs, ms).len()
                &&& !system_entry(seeded(fs, ms)[i + 1])
                &&& forall|k: int| 0 <= k < i ==> system_entry(#[trigger] seeded(fs, ms)[k])
                &&& forall|k: int|
                    0 <= k < seeded(fs, ms).len() && k != i ==> !(#[trigger] seeded(
                        fs,
                        ms,
                    )[k]).separator
            },
{
    lemma_seed_entries(fs);
    let s = seed_entries(fs);
    let l = seeded(fs, ms);
    lemma_first_app(s);
    let at = first_app(s);
    if l != s {
        assert(l[at].separator);
        assert forall|i: int| 0 <= i < l.len() && i != at implies !(#[trigger] l[i]).separator
            && found_as(fs, l[i]) by {
            if i < at {
                assert(l[i] == s[i]);
            } else {
                assert(l[i] == s[i - 1]);
            }
        }
        assert(l[at + 1] == s[at]);
        assert forall|k: int| 0 <= k < at implies system_entry(#[trigger] l[k]) by {
            assert(l[k] == s[k]);
        }
        if !has_id(s, free_id(Seq::empty(), "sep"@, ms)) {
            lemma_distinct_insert(s, at, l[at]);
        }
    }
}

// ---------------------------------------------------------------- where things go

/// The first entry of an identity at the top.
pub open spec fn first_with_id(s: Seq<PinnedView>, id: Seq<char>, i: int) -> bool {
    0 <= i < s.len() && s[i].id == id && forall|j: int| 0 <= j < i ==> (#[trigger] s[j]).id != id
}

/// No entry at the top has an identity.
pub open spec fn none_with_id(s: Seq<PinnedView>, id: Seq<char>) -> bool {
    forall|j: int| 0 <= j < s.len() ==> (#[trigger] s[j]).id != id
}

proof fn lemma_place(s: Seq<PinnedView>, id: Seq<char>, i: int)
    ensures
        first_with_id(s, id, i) ==> pin_index(s, id) == i && has_id(s, id),
        none_with_id(s, id) ==> pin_index(s, id) == s.len() && !has_id(s, id),
{
    lemma_pin_index(s, id);
    let k = pin_index(s, id);
    if first_with_id(s, id, i) {
        if k < i {
            assert(s[k].id == id);
        } else if i < k {
            assert(s[i].id == id);
        }
    }
    if none_with_id(s, id) && k < s.len() {
        assert(s[k].id == id);
    }
}

/// A list with one entry more at a place, and the others in their order.
pub open spec fn one_more_at(s: Seq<PinnedView>, l: Seq<PinnedView>, at: int) -> bool {
    &&& l.len() == s.len() + 1
    &&& 0 <= at <= s.len()
    &&& forall|j: int| 0 <= j < at ==> #[trigger] l[j] == s[j]
    &&& forall|j: int| at < j < l.len() ==> #[trigger] l[j] == s[j - 1]
}

/// A list in which only the entry at a place may differ.
pub open spec fn only_changed_at(s: Seq<PinnedView>, l: Seq<PinnedView>, at: int) -> bool {
    &&& l.len() == s.len()
    &&& 0 <= at < s.len()
    &&& forall|j: int| 0 <= j < s.len() && j != at ==> #[trigger] l[j] == s[j]
}

/// An entry that is pinned comes behind all the others, unless one with its
/// identity is there: then nothing changes.
pub proof fn law_pinned_at_the_end(s: Seq<PinnedView>, e: PinnedView)
    ensures
        none_with_id(s, e.id) ==> one_more_at(s, pinned_with(s, e), s.len() as int)
            && pinned_with(s, e)[s.len() as int] == e,
        !none_with_id(s, e.id) ==> pinned_with(s, e) == s,
{
    lemma_place(s, e.id, 0);
    if !none_with_id(s, e.id) {
        let j = choose|j: int| 0 <= j < s.len() && (#[trigger] s[j]).id == e.id;
        assert(has_id(s, e.id));
    }
}

/// An entry that is put at the left comes before all the others. One that is
/// there already moves there as it is; the others keep their order.
pub proof fn law_put_at_the_left(s: Seq<PinnedView>, e: PinnedView, i: int)
    ensures
        none_with_id(s, e.id) ==> one_more_at(s, at_left(s, e), 0) && at_left(s, e)[0] == e,
        first_with_id(s, e.id, i) ==> {
            &&& at_left(s, e).len() == s.len()
            &&& at_left(s, e)[0] == s[i]
            &&& forall|j: int| 0 < j <= i ==> #[trigger] at_left(s, e)[j] == s[j - 1]
            &&& forall|j: int| i < j < s.len() ==> #[trigger] at_left(s, e)[j] == s[j]
        },
{
    lemma_place(s, e.id, i);
}

proof fn lemma_free_id_form(s: Seq<PinnedView>, prefix: Seq<char>, ms: u64, n: nat)
    ensures
        (prefix + "-"@ + decimal(ms as nat) + "-"@).is_prefix_of(free_id_from(s, prefix, ms, n)),
    decreases 1000 - n,
{
    reveal_strlit("-");
    reveal_strlit("-x");
    let stem = prefix + "-"@ + decimal(ms as nat) + "-"@;
    let id = free_id_from(s, prefix, ms, n);
    if n >= 1000 {
        assert(id.subrange(0, stem.len() as int) =~= stem);
    } else if !taken(s, candidate_id(prefix, ms, n)) {
        assert(id.subrange(0, stem.len() as int) =~= stem);
    } else {
        lemma_free_id_form(s, prefix, ms, n + 1);
    }
}

/// A new identity begins with what it is for and the time.
pub proof fn law_new_id_says_what_it_is(s: Seq<PinnedView>, prefix: Seq<char>, ms: u64)
    ensures
        (prefix + "-"@ + decimal(ms as nat) + "-"@).is_prefix_of(free_id(s, prefix, ms)),
{
    lemma_free_id_form(s, prefix, ms, 0);
}

/// A new separator stands right behind the entry that it was asked for, or at
/// the end where there is no such entry or none was named. It is nothing but a
/// separator, and its identity says so.
pub proof fn law_separator_behind_the_entry(
    s: Seq<PinnedView>,
    after: Option<Seq<char>>,
    ms: u64,
    i: int,
)
    requires
        after is Some ==> first_with_id(s, after->0, i - 1) || (none_with_id(s, after->0) && i
            == s.len()),
        after is None ==> i == s.len(),
    ensures
        ({
            let l = separated(s, after, ms);
            &&& one_more_at(s, l, i)
            &&& l[i].separator && !l[i].is_folder
            &&& l[i].children.len() == 0 && l[i].display_name.len() == 0 && l[i].target.len() == 0
            &&& l[i].id == free_id(s, "sep"@, ms)
        }),
{
    if after is Some {
        lemma_place(s, after->0, i - 1);
    }
}

/// A folder that is made of an entry stands in its place and holds that entry
/// alone. It goes by the name that was given, without the white space around it
/// and at most forty characters long, or by the usual one. Nothing else changes.
pub proof fn law_folder_in_place(
    s: Seq<PinnedView>,
    app_id: Seq<char>,
    name: Option<Seq<char>>,
    ms: u64,
    i: int,
)
    requires
        first_with_id(s, app_id, i),
        !s[i].is_folder && !s[i].separator,
    ensures
        foldered(s, app_id, name, ms) matches Ok((l, id)) && ({
            &&& only_changed_at(s, l, i)
            &&& l[i].is_folder && !l[i].separator
            &&& l[i].id == id
            &&& l[i].children.len() == 1
            &&& l[i].children[0] == s[i]
            &&& l[i].target.len() == 0
            &&& name is None || trimmed(name->0).len() == 0 ==> l[i].display_name == "新建文件夹"@
            &&& name is Some && 0 < trimmed(name->0).len() <= 40 ==> l[i].display_name == trimmed(
                name->0,
            )
            &&& name is Some && trimmed(name->0).len() > 40 ==> l[i].display_name.len() == 40
                && l[i].display_name.is_prefix_of(trimmed(name->0))
            &&& ("folder-"@ + decimal(ms as nat) + "-"@).is_prefix_of(id)
        }),
{
    reveal_strlit("-");
    reveal_strlit("folder");
    reveal_strlit("folder-");
    lemma_place(s, app_id, i);
    law_new_id_says_what_it_is(s.remove(i), "folder"@, ms);
    assert("folder"@ + "-"@ =~= "folder-"@);
    if name is Some {
        let t = trimmed(name->0);
        if t.len() > 40 {
            assert(t.take(40) =~= t.subrange(0, 40));
        }
    }
}

/// What is not there, is a folder already or is a separator cannot be made one.
pub proof fn law_folder_refused(
    s: Seq<PinnedView>,
    app_id: Seq<char>,
    name: Option<Seq<char>>,
    ms: u64,
    i: int,
)
    ensures
        none_with_id(s, app_id) ==> foldered(s, app_id, name, ms) == Err::<
            (Seq<PinnedView>, Seq<char>),
            Seq<char>,
        >("Dock 上没有这个条目: "@ + app_id),
        first_with_id(s, app_id, i) && (s[i].is_folder || s[i].separator) ==> foldered(
            s,
            app_id,
            name,
            ms,
        ) is Err,
{
    lemma_place(s, app_id, i);
}

/// A folder that is renamed keeps everything but its name, and nothing else
/// changes. The name is the one that was given, without the white space around
/// it and at most forty characters long; a blank one is refused, and so is what
/// is no folder.
pub proof fn law_renamed_in_place(s: Seq<PinnedView>, id: Seq<char>, name: Seq<char>, i: int)
    ensures
        trimmed(name).len() == 0 || none_with_id(s, id) ==> renamed(s, id, name) is Err,
        first_with_id(s, id, i) && !s[i].is_folder ==> renamed(s, id, name) is Err,
        first_with_id(s, id, i) && s[i].is_folder && trimmed(name).len() > 0 ==> {
            &&& renamed(s, id, name) is Ok
            &&& ({
                let (l, n) = renamed(s, id, name)->Ok_0;
                &&& only_changed_at(s, l, i)
                &&& l[i] == (PinnedView { display_name: n, ..s[i] })
                &&& trimmed(name).len() <= 40 ==> n == trimmed(name)
                &&& trimmed(name).len() > 40 ==> n.len() == 40 && n.is_prefix_of(trimmed(name))
            })
        },
{
    lemma_place(s, id, i);
    let t = trimmed(name);
    if t.len() > 40 {
        assert(t.take(40) =~= t.subrange(0, 40));
    }
}

/// An entry that is moved into a folder comes behind what the folder holds, as
/// it is, and leaves its place at the top. The folder keeps its identity and its
/// name, and all others their order.
pub proof fn law_moved_to_the_end_of_the_folder(
    s: Seq<PinnedView>,
    folder_id: Seq<char>,
    app_id: Seq<char>,
    f: int,
    c: int,
)
    requires
        first_with_id(s, folder_id, f),
        first_with_id(s, app_id, c),
        s[f].is_folder,
        !s[c].is_folder && !s[c].separator,
        none_with_id(s[f].children, app_id),
    ensures
        moved_in(s, folder_id, app_id) matches Ok(l) && ({
            let at = if c < f {
                f - 1
            } else {
                f
            };
            &&& l.len() == s.len() - 1
            &&& l[at].children == s[f].children.push(s[c])
            &&& l[at] == (PinnedView { children: l[at].children, ..s[f] })
            &&& forall|j: int| 0 <= j < c && j != f ==> #[trigger] l[j] == s[j]
            &&& forall|j: int| c <= j < l.len() && j + 1 != f ==> #[trigger] l[j] == s[j + 1]
        }),
{
    lemma_place(s, folder_id, f);
    lemma_place(s, app_id, c);
    lemma_place(s[f].children, app_id, 0);
}

/// Only an application at the top can be moved into a folder, only into a
/// folder, and only into one that does not hold it.
pub proof fn law_moving_in_refused(
    s: Seq<PinnedView>,
    folder_id: Seq<char>,
    app_id: Seq<char>,
    f: int,
    c: int,
)
    ensures
        none_with_id(s, folder_id) || none_with_id(s, app_id) ==> moved_in(
            s,
            folder_id,
            app_id,
        ) is Err,
        first_with_id(s, folder_id, f) && (!s[f].is_folder || !none_with_id(
            s[f].children,
            app_id,
        )) ==> moved_in(s, folder_id, app_id) is Err,
        first_with_id(s, app_id, c) && (s[c].is_folder || s[c].separator) ==> moved_in(
            s,
            folder_id,
            app_id,
        ) is Err,
{
    lemma_place(s, folder_id, f);
    lemma_place(s, app_id, c);
    if first_with_id(s, folder_id, f) && !none_with_id(s[f].children, app_id) {
        let k = s[f].children;
        let j = choose|j: int| 0 <= j < k.len() && (#[trigger] k[j]).id == app_id;
        assert(has_id(k, app_id));
    }
}

proof fn lemma_holder_place(s: Seq<PinnedView>, id: Seq<char>, f: int)
    requires
        0 <= f < s.len(),
        s[f].is_folder,
        has_id(s[f].children, id),
        forall|g: int|
            0 <= g < f ==> !((#[trigger] s[g]).is_folder && has_id(s[g].children, id)),
    ensures
        holder_index(s, id) == f,
    decreases f,
{
    if f > 0 {
        assert(!(s[0].is_folder && has_id(s[0].children, id)));
        let t = s.skip(1);
        assert forall|g: int| 0 <= g < f - 1 implies !((#[trigger] t[g]).is_folder && has_id(
            t[g].children,
            id,
        )) by {
            assert(t[g] == s[g + 1]);
        }
        lemma_holder_place(t, id, f - 1);
    }
}

/// An entry that is moved out of its folder stands right behind the folder, as
/// it is; the folder keeps the rest in order, and everything else stays. The
/// last entry takes the place of its folder.
pub proof fn law_moved_out_behind_the_folder(s: Seq<PinnedView>, id: Seq<char>, f: int, c: int)
    requires
        none_with_id(s, id),
        0 <= f < s.len(),
        s[f].is_folder,
        first_with_id(s[f].children, id, c),
        forall|g: int|
            0 <= g < f ==> !((#[trigger] s[g]).is_folder && has_id(s[g].children, id)),
    ensures
        moved_out(s, id) matches Ok((l, gone)) && ({
            let kids = s[f].children;
            &&& gone == (kids.len() == 1)
            &&& gone ==> only_changed_at(s, l, f) && l[f] == kids[c]
            &&& !gone ==> {
                &&& l.len() == s.len() + 1
                &&& forall|j: int| 0 <= j < f ==> #[trigger] l[j] == s[j]
                &&& forall|j: int| f + 1 < j < l.len() ==> #[trigger] l[j] == s[j - 1]
                &&& l[f + 1] == kids[c]
                &&& l[f] == (PinnedView { children: l[f].children, ..s[f] })
                &&& one_more_at(l[f].children, kids, c)
            }
        }),
{
    lemma_place(s, id, 0);
    lemma_place(s[f].children, id, c);
    lemma_holder_place(s, id, f);
}

/// What stands in no folder cannot be moved out of one, nor can what stands at
/// the top as well.
pub proof fn law_moving_out_refused(s: Seq<PinnedView>, id: Seq<char>)
    ensures
        (forall|f: int|
            0 <= f < s.len() && (#[trigger] s[f]).is_folder ==> none_with_id(s[f].children, id))
            || !none_with_id(s, id) ==> moved_out(s, id) is Err,
{
    lemma_holder(s, id);
    lemma_place(s, id, 0);
    if !none_with_id(s, id) {
        let j = choose|j: int| 0 <= j < s.len() && (#[trigger] s[j]).id == id;
        assert(has_id(s, id));
    }
    let f = holder_index(s, id);
    if f < s.len() && none_with_id(s[f].children, id) {
        lemma_place(s[f].children, id, 0);
    }
}

/// A folder that is dissolved is replaced by what it holds, in order; what stands
/// before it and behind it stays.
pub proof fn law_dissolved_in_place(s: Seq<PinnedView>, id: Seq<char>, f: int)
    ensures
        none_with_id(s, id) ==> dissolved(s, id) is Err,
        first_with_id(s, id, f) && !s[f].is_folder ==> dissolved(s, id) is Err,
        first_with_id(s, id, f) && s[f].is_folder ==> {
            &&& dissolved(s, id) is Ok
            &&& ({
                let (l, n) = dissolved(s, id)->Ok_0;
                let kids = s[f].children;
                &&& n == kids.len()
                &&& l.len() == s.len() - 1 + n
                &&& forall|j: int| 0 <= j < f ==> #[trigger] l[j] == s[j]
                &&& forall|j: int| f <= j < f + n ==> #[trigger] l[j] == kids[j - f]
                &&& forall|j: int| f + n <= j < l.len() ==> #[trigger] l[j] == s[j - n + 1]
            })
        },
{
    lemma_place(s, id, f);
}

/// An entry that is taken off the dock goes at the top and in every folder, and
/// nothing else does: every other entry stays, in its order and as it is, but
/// for what a folder loses. Taken off at the top alone, folders stay as they are.
pub proof fn law_only_that_entry_goes(s: Seq<PinnedView>, p: PinnedView, id: Seq<char>)
    ensures
        removed(Seq::empty(), id).len() == 0,
        without_id(Seq::empty(), id).len() == 0,
        p.id == id ==> removed(s.push(p), id) == removed(s, id) && without_id(s.push(p), id)
            == without_id(s, id),
        p.id != id ==> without_id(s.push(p), id) == without_id(s, id).push(p),
        p.id != id && !p.is_folder ==> removed(s.push(p), id) == removed(s, id).push(p),
        p.id != id && p.is_folder ==> removed(s.push(p), id) == removed(s, id).push(
            PinnedView { children: without_id(p.children, id), ..p },
        ),
{
    reveal(Seq::filter);
    assert(s.push(p).drop_last() =~= s);
    assert(removed(Seq::empty(), id) =~= Seq::empty());
    let w = without_id(s, id);
    if p.id == id {
        assert(without_id(s.push(p), id) =~= w);
    } else {
        assert(without_id(s.push(p), id) =~= w.push(p));
        assert(removed(s.push(p), id) =~= removed(s, id).push(purged(p, id)));
    }
}

proof fn lemma_seed_has(fs: Seq<FoundView>, k: int)
    requires
        0 <= k < fs.len(),
        seedable(fs[k]),
    ensures
        has_id(seed_entries(fs), target_id(fs[k].target->0)),
    decreases fs.len(),
{
    let rest = fs.drop_last();
    let s = seed_entries(rest);
    let l = seed_entries(fs);
    let id = target_id(fs[k].target->0);
    if k < fs.len() - 1 {
        lemma_seed_has(rest, k);
        let i = choose|i: int| 0 <= i < s.len() && (#[trigger] s[i]).id == id;
        assert(l[i] == s[i]);
    } else if !has_id(s, id) {
        assert(l[s.len() as int].id == id);
    }
}

/// Everything that was found, exists and can be launched directly is on the
/// first list, under the name that was found for it where it was found once. The
/// first list adds to that a separator at most.
pub proof fn law_first_list_is_complete(fs: Seq<FoundView>, ms: u64, k: int)
    requires
        0 <= k < fs.len(),
        fs[k].target is Some && fs[k].exists && !windowsapps_path(fs[k].target->0),
    ensures
        exists|i: int|
            0 <= i < seeded(fs, ms).len() && (#[trigger] seeded(fs, ms)[i]).id == target_id(
                fs[k].target->0,
            ),
        seed_entries(fs).len() <= seeded(fs, ms).len() <= seed_entries(fs).len() + 1,
{
    lemma_seed_has(fs, k);
    let s = seed_entries(fs);
    let l = seeded(fs, ms);
    lemma_first_app(s);
    let at = first_app(s);
    let id = target_id(fs[k].target->0);
    let i = choose|i: int| 0 <= i < s.len() && (#[trigger] s[i]).id == id;
    if l != s && i >= at {
        assert(l[i + 1] == s[i]);
    } else {
        assert(l[i] == s[i]);
    }
}

/// One more finding comes behind the others as an ordinary entry with its name
/// and target, unless its identity is there or it cannot be launched.
pub proof fn law_first_list_in_order(fs: Seq<FoundView>, f: FoundView)
    ensures
        ({
            let s = seed_entries(fs);
            let l = seed_entries(fs.push(f));
            let fine = f.target is Some && f.exists && !windowsapps_path(f.target->0);
            &&& !fine ==> l == s
            &&& fine && !none_with_id(s, target_id(f.target->0)) ==> l == s
            &&& fine && none_with_id(s, target_id(f.target->0)) ==> {
                let e = l[s.len() as int];
                &&& one_more_at(s, l, s.len() as int)
                &&& e.id == target_id(f.target->0)
                &&& e.target == f.target->0
                &&& e.display_name == f.name
                &&& !e.separator && !e.is_folder && e.children.len() == 0
            }
        }),
        seed_entries(Seq::empty()).len() == 0,
{
    assert(fs.push(f).drop_last() =~= fs);
    if f.target is Some {
        let s = seed_entries(fs);
        let id = target_id(f.target->0);
        lemma_place(s, id, 0);
        if !none_with_id(s, id) {
            let j = choose|j: int| 0 <= j < s.len() && (#[trigger] s[j]).id == id;
            assert(has_id(s, id));
        }
    }
}

/// A separator is on the first list wherever an entry of the system stands at
/// its beginning and an application somewhere behind. An entry belongs to the
/// system if its target is the shell's or the file manager.
pub proof fn law_first_list_is_separated(fs: Seq<FoundView>, ms: u64, k: int)
    requires
        0 < k < seed_entries(fs).len(),
        system_entry(seed_entries(fs)[0]),
        !system_entry(seed_entries(fs)[k]),
    ensures
        exists|i: int| 0 <= i < seeded(fs, ms).len() && (#[trigger] seeded(fs, ms)[i]).separator,
        forall|p: PinnedView| #[trigger]
            system_entry(p) <==> shell_target(p.target) || "explorer.exe"@.is_suffix_of(
                lowercase(p.target),
            ),
{
    let s = seed_entries(fs);
    lemma_first_app(s);
    let at = first_app(s);
    if at > k {
        assert(system_entry(s[k]));
    }
    assert(seeded(fs, ms)[at].separator);
}

/// The configuration lies where it is redirected to, else where the application
/// keeps its own, else where the program runs.
pub proof fn law_configuration_place(
    redirected: Option<String>,
    app_dir: Option<String>,
    p: ConfigPlace,
    d: String,
)
    requires
        call_ensures(config_path, (&redirected, &app_dir), p),
        call_ensures(config_dir, (&redirected, &app_dir), d),
    ensures
        redirected is Some ==> p is InDirectory && p->InDirectory_0@ == redirected->0@ && d@
            == redirected->0@,
        redirected is None && app_dir is Some ==> p is InDirectory && p->InDirectory_0@
            == app_dir->0@ && d@ == app_dir->0@,
        redirected is None && app_dir is None ==> p is File && p->File_0@ == "dock-config.json"@
            && d@ == "."@,
{
}

/// Nothing is brought over where the configuration is redirected, and nothing
/// that is at its new place already or was never at the former one.
pub proof fn law_nothing_is_overwritten(
    redirected: bool,
    new_config: bool,
    old_config: bool,
    known: bool,
    new_temp: bool,
    old_temp: bool,
    r: MigrationPlan,
)
    requires
        call_ensures(
            plan_migration,
            (redirected, new_config, old_config, known, new_temp, old_temp),
            r,
        ),
    ensures
        redirected ==> !r.copy_config && !r.rewrite_paths && !r.copy_temp,
        new_config || !old_config ==> !r.copy_config,
        new_temp || !old_temp || !known ==> !r.copy_temp,
        !redirected && old_config && !new_config ==> r.copy_config,
        !redirected && known ==> r.rewrite_paths,
        !redirected && known && old_temp && !new_temp ==> r.copy_temp,
{
}

/// A place of the shell and a package need nothing installed; a program leads to
/// where it is installed.
pub proof fn law_rules_lead_to_targets(rule: PinRule, installed: Option<String>, r: Option<String>)
    requires
        call_ensures(rule_target, (&rule, installed), r),
    ensures
        rule matches PinRule::ShellLocation(t) ==> r is Some && r->0@ == t@,
        rule matches PinRule::Package(f, a) ==> r is Some && r->0@ == "shell:AppsFolder\\"@ + f@
            + "!"@ + a@,
        rule is SystemExe || rule is Program ==> opt_view(r) == opt_view(installed),
{
}

/// The directory for temporary files comes to stand first; a new entry for it has
/// its fixed name.
pub proof fn law_temporary_directory_stands_first(
    pinned: &mut Vec<PinnedApp>,
    directory: &str,
    r: String,
)
    requires
        call_ensures(add_temp_folder, (pinned, directory), r),
    ensures
        r@ == target_id(directory@),
        pinned_views(final(pinned)@).len() > 0,
        pinned_views(final(pinned)@)[0].id == target_id(directory@),
        none_with_id(pinned_views(old(pinned)@), target_id(directory@)) ==> pinned_views(
            final(pinned)@,
        )[0].display_name == "临时文件夹"@ && pinned_views(final(pinned)@)[0].target == directory@
            && !pinned_views(final(pinned)@)[0].is_folder,
{
    let s = pinned_views(old(pinned)@);
    lemma_pin_index(s, target_id(directory@));
}

/// A place of the system comes to stand first, and a new entry for it is called
/// what the system calls it; anything else is refused and changes nothing.
pub proof fn law_place_stands_first(
    pinned: &mut Vec<PinnedApp>,
    target: &str,
    shell_name: Option<String>,
    r: Result<String, String>,
)
    requires
        call_ensures(add_system_location, (pinned, target, &shell_name), r),
    ensures
        r is Ok <==> system_location(target@),
        r is Ok ==> r->Ok_0@ == target_id(target@) && pinned_views(final(pinned)@)[0].id
            == target_id(target@),
        r is Ok && none_with_id(pinned_views(old(pinned)@), target_id(target@)) ==> pinned_views(
            final(pinned)@,
        )[0].target == target@ && (shell_name is Some ==> pinned_views(
            final(pinned)@,
        )[0].display_name == shell_name->0@),
        r is Err ==> r->Err_0@ == "不是系统位置: "@ + target@ && pinned_views(final(pinned)@)
            == pinned_views(old(pinned)@),
{
    let s = pinned_views(old(pinned)@);
    lemma_pin_index(s, target_id(target@));
}

/// How folders are named where nothing else is said, and how long names may be.
pub proof fn law_names_of_folders()
    ensures
        DEFAULT_FOLDER_NAME@ == "新建文件夹"@,
        MAX_FOLDER_NAME_CHARS == 40,
{
}

/// What the first list looks for, from left to right: the places of the system,
/// the file manager, three browsers, the terminal as a program and as a package,
/// and the settings.
pub proof fn law_rules_of_the_first_list()
    ensures
        default_rules().len() == 9,
        default_rules()[0] == RuleView::ShellLocation("shell:MyComputerFolder"@),
        default_rules()[1] == RuleView::ShellLocation("shell:RecycleBinFolder"@),
        default_rules()[2] == RuleView::SystemExe("explorer.exe"@),
        default_rules()[3] == RuleView::Program("msedge.exe"@),
        default_rules()[4] == RuleView::Program("chrome.exe"@),
        default_rules()[5] == RuleView::Program("firefox.exe"@),
        default_rules()[6] == RuleView::Program("wt.exe"@),
        default_rules()[7] == RuleView::Package("Microsoft.WindowsTerminal_8wekyb3d8bbwe"@, "App"@),
        default_rules()[8] == RuleView::Package(
            "windows.immersivecontrolpanel_cw5n1h2txyewy"@,
            "microsoft.windows.immersivecontrolpanel"@,
        ),
{
}

/// A folder is not renamed to a blank, and nothing but a folder is renamed; what
/// stands in the way is told, the name first.
pub proof fn law_renaming_refused(s: Seq<PinnedView>, id: Seq<char>, name: Seq<char>, i: int)
    ensures
        trimmed(name).len() == 0 ==> renamed(s, id, name) == Err::<
            (Seq<PinnedView>, Seq<char>),
            Seq<char>,
        >("名字不能为空"@),
        trimmed(name).len() > 0 && none_with_id(s, id) ==> renamed(s, id, name) == Err::<
            (Seq<PinnedView>, Seq<char>),
            Seq<char>,
        >("Dock 上没有这个条目: "@ + id),
        trimmed(name).len() > 0 && first_with_id(s, id, i) && !s[i].is_folder ==> renamed(
            s,
            id,
            name,
        ) == Err::<(Seq<PinnedView>, Seq<char>), Seq<char>>("它不是文件夹"@),
{
    lemma_place(s, id, i);
}

/// An order of another length is refused, with both lengths; one that names an
/// entry twice, or one that is not there, is refused with the first such.
pub proof fn law_ordering_refused(s: Seq<PinnedView>, ids: Seq<Seq<char>>, k: int)
    ensures
        ids.len() != s.len() ==> reordered(s, ids) == Err::<Seq<PinnedView>, Seq<char>>(
            "顺序长度不符（收到 "@ + decimal(ids.len()) + "，实际 "@ + decimal(s.len()) + "）"@,
        ),
        ids.len() == s.len() && 0 <= k < ids.len() && (none_with_id(s, ids[k]) || ids.take(
            k,
        ).contains(ids[k])) && (forall|j: int|
            0 <= j < k ==> has_id(s, #[trigger] ids[j]) && !ids.take(j).contains(ids[j]))
            ==> reordered(s, ids) == Err::<Seq<PinnedView>, Seq<char>>(
            "顺序里有不存在的项，或重复项: "@ + ids[k],
        ),
{
    if ids.len() == s.len() && 0 <= k < ids.len() && (none_with_id(s, ids[k]) || ids.take(
        k,
    ).contains(ids[k])) && (forall|j: int|
        0 <= j < k ==> has_id(s, #[trigger] ids[j]) && !ids.take(j).contains(ids[j])) {
        lemma_first_bad(s, ids, 0, k);
    }
}

proof fn lemma_first_bad(s: Seq<PinnedView>, ids: Seq<Seq<char>>, from: int, k: int)
    requires
        0 <= from <= k < ids.len(),
        none_with_id(s, ids[k]) || ids.take(k).contains(ids[k]),
        forall|j: int|
            0 <= j < k ==> has_id(s, #[trigger] ids[j]) && !ids.take(j).contains(ids[j]),
    ensures
        bad_index(s, ids, from) == k,
    decreases k - from,
{
    if from < k {
        assert(has_id(s, ids[from]));
        lemma_first_bad(s, ids, from + 1, k);
    } else if none_with_id(s, ids[k]) && has_id(s, ids[k]) {
        let j = choose|j: int| 0 <= j < s.len() && (#[trigger] s[j]).id == ids[k];
        assert(s[j].id != ids[k]);
    }
}

/// A folder that gets a new name is offered the one that it has; what is not at
/// the top is offered the usual one.
pub proof fn law_name_that_is_offered(pinned: Vec<PinnedApp>, id: &str, i: int, r: String)
    requires
        call_ensures(rename_prompt_name, (&pinned, id), r),
    ensures
        first_with_id(pinned_views(pinned@), id@, i) ==> r@ == pinned@[i].display_name@,
        none_with_id(pinned_views(pinned@), id@) ==> r@ == "新建文件夹"@,
{
    lemma_place(pinned_views(pinned@), id@, i);
    if 0 <= i < pinned@.len() {
        assert(pinned_views(pinned@)[i] == pinned@[i]@);
    }
}

/// Why an entry does not go into a folder, the first reason first: the folder is
/// not there or is none, it holds the entry already, or the entry is not there, is
/// a separator or a folder itself.
pub proof fn law_why_not_into_a_folder(
    s: Seq<PinnedView>,
    folder_id: Seq<char>,
    app_id: Seq<char>,
    f: int,
    c: int,
)
    ensures
        none_with_id(s, folder_id) ==> moved_in(s, folder_id, app_id) == Err::<
            Seq<PinnedView>,
            Seq<char>,
        >("找不到文件夹: "@ + folder_id),
        first_with_id(s, folder_id, f) && !s[f].is_folder ==> moved_in(s, folder_id, app_id)
            == Err::<Seq<PinnedView>, Seq<char>>("目标不是文件夹"@),
        first_with_id(s, folder_id, f) && s[f].is_folder && has_id(s[f].children, app_id)
            ==> moved_in(s, folder_id, app_id) == Err::<Seq<PinnedView>, Seq<char>>(
            "它已经在这个文件夹里了"@,
        ),
        first_with_id(s, folder_id, f) && s[f].is_folder && !has_id(s[f].children, app_id) ==> {
            &&& none_with_id(s, app_id) ==> moved_in(s, folder_id, app_id) == Err::<
                Seq<PinnedView>,
                Seq<char>,
            >("Dock 上没有这个条目: "@ + app_id)
            &&& first_with_id(s, app_id, c) && s[c].separator ==> moved_in(s, folder_id, app_id)
                == Err::<Seq<PinnedView>, Seq<char>>("分割线不能放进文件夹"@)
            &&& first_with_id(s, app_id, c) && !s[c].separator && s[c].is_folder ==> moved_in(
                s,
                folder_id,
                app_id,
            ) == Err::<Seq<PinnedView>, Seq<char>>("文件夹不能放进文件夹"@)
        },
{
    lemma_place(s, folder_id, f);
    lemma_place(s, app_id, c);
}

/// Why a folder is not made or dissolved: the entry is not there, or is not what
/// it takes.
pub proof fn law_why_no_folder(
    s: Seq<PinnedView>,
    id: Seq<char>,
    name: Option<Seq<char>>,
    ms: u64,
    i: int,
)
    ensures
        first_with_id(s, id, i) && s[i].is_folder ==> foldered(s, id, name, ms) == Err::<
            (Seq<PinnedView>, Seq<char>),
            Seq<char>,
        >("它已经是文件夹了"@),
        first_with_id(s, id, i) && !s[i].is_folder && s[i].separator ==> foldered(s, id, name, ms)
            == Err::<(Seq<PinnedView>, Seq<char>), Seq<char>>("分割线不能变成文件夹"@),
        none_with_id(s, id) ==> dissolved(s, id) == Err::<(Seq<PinnedView>, nat), Seq<char>>(
            "找不到文件夹: "@ + id,
        ),
        first_with_id(s, id, i) && !s[i].is_folder ==> dissolved(s, id) == Err::<
            (Seq<PinnedView>, nat),
            Seq<char>,
        >("它不是文件夹"@),
{
    lemma_place(s, id, i);
}

/// Why an entry does not come out: it is in no folder, or at the top as well.
pub proof fn law_why_not_out_of_a_folder(s: Seq<PinnedView>, id: Seq<char>, f: int)
    ensures
        (forall|k: int|
            0 <= k < s.len() && (#[trigger] s[k]).is_folder ==> none_with_id(s[k].children, id))
            ==> moved_out(s, id) == Err::<(Seq<PinnedView>, bool), Seq<char>>("它不在任何文件夹里"@),
        0 <= f < s.len() && s[f].is_folder && has_id(s[f].children, id) && has_id(s, id)
            ==> moved_out(s, id) == Err::<(Seq<PinnedView>, bool), Seq<char>>("Dock 上已经有它了"@),
{
    lemma_holder(s, id);
    let h = holder_index(s, id);
    if h < s.len() && none_with_id(s[h].children, id) {
        lemma_place(s[h].children, id, 0);
    }
    if 0 <= f < s.len() && s[f].is_folder && has_id(s[f].children, id) {
        lemma_some_holder(s, id, f);
    }
}

proof fn lemma_some_holder(s: Seq<PinnedView>, id: Seq<char>, f: int)
    requires
        0 <= f < s.len(),
        s[f].is_folder,
        has_id(s[f].children, id),
    ensures
        holder_index(s, id) <= f,
    decreases f,
{
    if f > 0 && !(s[0].is_folder && has_id(s[0].children, id)) {
        assert(s.skip(1)[f - 1] == s[f]);
        lemma_some_holder(s.skip(1), id, f - 1);
    }
}

/// A new identity is the first that is tried, unless an entry at the top or inside
/// another has it.
pub proof fn law_first_identity_is_tried(s: Seq<PinnedView>, prefix: Seq<char>, ms: u64)
    requires
        none_with_id(s, prefix + "-"@ + decimal(ms as nat) + "-"@ + decimal(0)),
        forall|i: int|
            0 <= i < s.len() ==> none_with_id(
                (#[trigger] s[i]).children,
                prefix + "-"@ + decimal(ms as nat) + "-"@ + decimal(0),
            ),
    ensures
        free_id(s, prefix, ms) == prefix + "-"@ + decimal(ms as nat) + "-"@ + decimal(0),
{
    let id = prefix + "-"@ + decimal(ms as nat) + "-"@ + decimal(0);
    lemma_place(s, id, 0);
    assert forall|i: int| 0 <= i < s.len() implies !has_id((#[trigger] s[i]).children, id) by {
        lemma_place(s[i].children, id, 0);
    }
    assert(!taken(s, candidate_id(prefix, ms, 0)));
}

} // verus!
