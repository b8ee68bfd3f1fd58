//! Bringing an old configuration up to date: paths below the former directory
//! become paths below the new one, and identities follow their targets.

use vstd::prelude::*;
use vstd::string::*;
use crate::apps;
use crate::apps::target_id;
use crate::json;
use crate::json::{
    field_index, field_views, json_parsed, json_printed, json_views, lemma_field_index, lemma_parts,
    text_field, with_field, Json, JsonView,
};
use crate::text;
use crate::text::lowercase;

verus! {

/// The fields of one entry after its own path and identity were brought up to
/// date: a target below the former directory moves to the new one and gives its
/// identity; an identity that was left behind is taken from the target again.
pub open spec fn fixed_fields(
    fs: Seq<(Seq<char>, JsonView)>,
    old: Seq<char>,
    new: Seq<char>,
) -> Seq<(Seq<char>, JsonView)> {
    let target = text_field(fs, "target"@);
    if old.is_prefix_of(target) {
        let moved = new + target.skip(old.len() as int);
        with_field(
            with_field(fs, "id"@, JsonView::Text(target_id(moved))),
            "target"@,
            JsonView::Text(moved),
        )
    } else if lowercase(old).is_prefix_of(text_field(fs, "id"@)) && target.len() > 0 {
        with_field(fs, "id"@, JsonView::Text(target_id(target)))
    } else {
        fs
    }
}

/// The entry itself has to be brought up to date.
pub open spec fn stale_fields(fs: Seq<(Seq<char>, JsonView)>, old: Seq<char>) -> bool {
    let target = text_field(fs, "target"@);
    old.is_prefix_of(target) || (lowercase(old).is_prefix_of(text_field(fs, "id"@)) && target.len()
        > 0)
}

/// One entry after it and what it holds were brought up to date.
pub open spec fn fixed_item(j: JsonView, old: Seq<char>, new: Seq<char>) -> JsonView
    decreases j,
{
    match j {
        JsonView::Object(fs) => {
            let own = fixed_fields(fs, old, new);
            let k = field_index(fs, "children"@);
            if 0 <= k < fs.len() {
                match fs[k].1 {
                    JsonView::Array(kids) => JsonView::Object(
                        with_field(own, "children"@, JsonView::Array(fixed_list(kids, old, new))),
                    ),
                    _ => JsonView::Object(own),
                }
            } else {
                JsonView::Object(own)
            }
        },
        _ => j,
    }
}

/// A list of entries after each was brought up to date.
pub open spec fn fixed_list(s: Seq<JsonView>, old: Seq<char>, new: Seq<char>) -> Seq<JsonView>
    decreases s,
{
    Seq::new(
        s.len(),
        |i: int|
            if 0 <= i < s.len() {
                fixed_item(s[i], old, new)
            } else {
                arbitrary()
            },
    )
}

/// How many entries of a list, with what they hold, have to be brought up to
/// date.
pub open spec fn stale_count(s: Seq<JsonView>, old: Seq<char>) -> nat
    decreases s,
{
    if s.len() == 0 {
        0
    } else {
        stale_count(s.drop_last(), old) + stale_in(s.last(), old)
    }
}

/// How many entries have to be brought up to date: this one, and what it holds.
pub open spec fn stale_in(j: JsonView, old: Seq<char>) -> nat
    decreases j,
{
    match j {
        JsonView::Object(fs) => {
            let own: nat = if stale_fields(fs, old) {
                1
            } else {
                0
            };
            let k = field_index(fs, "children"@);
            if 0 <= k < fs.len() {
                match fs[k].1 {
                    JsonView::Array(kids) => own + stale_count(kids, old),
                    _ => own,
                }
            } else {
                own
            }
        },
        _ => 0,
    }
}

proof fn lemma_names_differ()
    ensures
        "id"@ != "target"@,
        "id"@ != "children"@,
        "target"@ != "children"@,
{
    reveal_strlit("id");
    reveal_strlit("target");
    reveal_strlit("children");
    assert("id"@.len() == 2);
    assert("target"@.len() == 6);
    assert("children"@.len() == 8);
}

proof fn lemma_index_update(fs: Seq<(Seq<char>, JsonView)>, i: int, v: JsonView, key: Seq<char>)
    requires
        0 <= i < fs.len(),
    ensures
        field_index(fs.update(i, (fs[i].0, v)), key) == field_index(fs, key),
    decreases fs.len(),
{
    let u = fs.update(i, (fs[i].0, v));
    if fs[0].0 != key {
        if i == 0 {
            assert(u.skip(1) =~= fs.skip(1));
        } else {
            lemma_index_update(fs.skip(1), i - 1, v, key);
            assert(u.skip(1) =~= fs.skip(1).update(i - 1, (fs[i].0, v)));
        }
    }
}

proof fn lemma_index_push(fs: Seq<(Seq<char>, JsonView)>, f: (Seq<char>, JsonView), key: Seq<char>)
    ensures
        field_index(fs.push(f), key) == if field_index(fs, key) < fs.len() {
            field_index(fs, key)
        } else if f.0 == key {
            fs.len() as int
        } else {
            fs.len() as int + 1
        },
    decreases fs.len(),
{
    lemma_field_index(fs, key);
    if fs.len() == 0 {
        assert(fs.push(f).skip(1) =~= Seq::empty());
        assert(field_index(fs.push(f).skip(1), key) == 0);
    } else if fs[0].0 != key {
        lemma_field_index(fs.skip(1), key);
        lemma_index_push(fs.skip(1), f, key);
        assert(fs.push(f).skip(1) =~= fs.skip(1).push(f));
    }
}

/// Setting one field leaves the others where they are.
proof fn lemma_with_field(
    fs: Seq<(Seq<char>, JsonView)>,
    key: Seq<char>,
    v: JsonView,
    other: Seq<char>,
)
    ensures
        ({
            let w = with_field(fs, key, v);
            &&& field_index(w, key) < w.len()
            &&& w[field_index(w, key)] == (key, v)
            &&& other != key ==> {
                &&& field_index(fs, other) < fs.len() ==> field_index(w, other) == field_index(
                    fs,
                    other,
                ) && w[field_index(w, other)] == fs[field_index(fs, other)]
                &&& field_index(fs, other) >= fs.len() ==> field_index(w, other) >= w.len()
                &&& text_field(w, other) == text_field(fs, other)
            }
            &&& field_index(fs, key) < fs.len() ==> w.len() == fs.len() && field_index(w, key)
                == field_index(fs, key)
        }),
{
    lemma_field_index(fs, key);
    lemma_field_index(fs, other);
    let i = field_index(fs, key);
    if i < fs.len() {
        assert(fs.update(i, (key, v)) == fs.update(i, (fs[i].0, v)));
        lemma_index_update(fs, i, v, key);
        lemma_index_update(fs, i, v, other);
    } else {
        lemma_index_push(fs, (key, v), key);
        lemma_index_push(fs, (key, v), other);
    }
}

/// Setting two fields, one of which is there, gives the same in either order.
proof fn lemma_with_fields_commute(
    fs: Seq<(Seq<char>, JsonView)>,
    a: Seq<char>,
    va: JsonView,
    b: Seq<char>,
    vb: JsonView,
)
    requires
        a != b,
        field_index(fs, b) < fs.len(),
    ensures
        with_field(with_field(fs, b, vb), a, va) == with_field(with_field(fs, a, va), b, vb),
{
    lemma_field_index(fs, a);
    lemma_field_index(fs, b);
    lemma_with_field(fs, b, vb, a);
    lemma_with_field(fs, a, va, b);
    assert(with_field(with_field(fs, b, vb), a, va) =~= with_field(with_field(fs, a, va), b, vb));
}

/// Replacing the children first makes no difference to the rest.
proof fn lemma_children_first(
    fs: Seq<(Seq<char>, JsonView)>,
    v: JsonView,
    old: Seq<char>,
    new: Seq<char>,
)
    requires
        field_index(fs, "children"@) < fs.len(),
    ensures
        fixed_fields(with_field(fs, "children"@, v), old, new) == with_field(
            fixed_fields(fs, old, new),
            "children"@,
            v,
        ),
        stale_fields(with_field(fs, "children"@, v), old) == stale_fields(fs, old),
{
    lemma_names_differ();
    let c = "children"@;
    lemma_with_field(fs, c, v, "id"@);
    lemma_with_field(fs, c, v, "target"@);
    let target = text_field(fs, "target"@);
    if old.is_prefix_of(target) {
        let moved = new + target.skip(old.len() as int);
        let id = JsonView::Text(target_id(moved));
        lemma_with_fields_commute(fs, "id"@, id, c, v);
        let one = with_field(fs, "id"@, id);
        lemma_with_field(fs, "id"@, id, c);
        lemma_with_fields_commute(one, "target"@, JsonView::Text(moved), c, v);
    } else if lowercase(old).is_prefix_of(text_field(fs, "id"@)) && target.len() > 0 {
        lemma_with_fields_commute(fs, "id"@, JsonView::Text(target_id(target)), c, v);
    }
}

/// A count as it is reported: at most the largest `u32`.
pub open spec fn capped(n: nat) -> u32 {
    if n <= u32::MAX {
        n as u32
    } else {
        u32::MAX
    }
}

fn sum_capped(a: u32, b: u32, Ghost(x): Ghost<nat>, Ghost(y): Ghost<nat>) -> (r: u32)
    requires
        a == capped(x),
        b == capped(y),
    ensures
        r == capped(x + y),
{
    a.saturating_add(b)
}

fn fix_fields(fs: &mut Vec<(String, Json)>, old_dir: &str, new_dir: &str) -> (r: bool)
    ensures
        field_views(final(fs)@) == fixed_fields(field_views(old(fs)@), old_dir@, new_dir@),
        r == stale_fields(field_views(old(fs)@), old_dir@),
{
    let target = json::get_text(fs, "target");
    let id = json::get_text(fs, "id");
    if text::starts_with(target.as_str(), old_dir) {
        let n: usize = old_dir.unicode_len();
        let len: usize = target.as_str().unicode_len();
        let rest = target.as_str().substring_char(n, len);
        assert(rest@ =~= target@.skip(old_dir@.len() as int));
        let moved = text::concat(new_dir, rest);
        json::set_text(fs, "id", apps::id_for_target(moved.as_str()).as_str());
        json::set_text(fs, "target", moved.as_str());
        true
    } else if text::starts_with(id.as_str(), old_dir.to_lowercase().as_str())
        && !target.as_str().is_empty() {
        json::set_text(fs, "id", apps::id_for_target(target.as_str()).as_str());
        true
    } else {
        false
    }
}

/// Brings one entry and what it holds up to date. Gives how many entries were
/// affected.
fn fix_item(j: Json, old_dir: &str, new_dir: &str) -> (r: (Json, u32))
    ensures
        r.0@ == fixed_item(j@, old_dir@, new_dir@),
        r.1 == capped(stale_in(j@, old_dir@)),
    decreases j,
{
    let ghost whole = j;
    proof {
        lemma_parts(whole);
    }
    match j {
        Json::Object(fields) => {
            let mut fields = fields;
            let ghost fs = field_views(fields@);
            let ghost orig = fields@;
            let k = json::find_field(&fields, "children");
            proof {
                lemma_field_index(fs, "children"@);
                lemma_names_differ();
            }
            let mut below: u32 = 0;
            let ghost mut under: nat = 0;
            if k < fields.len() {
                let (name, value) = fields.remove(k);
                match value {
                    Json::Array(kids) => {
                        let ghost kid_views = json_views(kids@);
                        proof {
                            lemma_parts(orig[k as int].1);
                            assert(fs[k as int].1 == JsonView::Array(kid_views));
                        }
                        let (fixed, n) = fix_list(kids, old_dir, new_dir);
                        below = n;
                        let ghost fixed_views = json_views(fixed@);
                        let arr = Json::Array(fixed);
                        proof {
                            under = stale_count(kid_views, old_dir@);
                            lemma_parts(arr);
                        }
                        fields.insert(k, (name, arr));
                        proof {
                            let v = JsonView::Array(fixed_views);
                            assert(field_views(fields@) =~= with_field(fs, "children"@, v));
                            lemma_children_first(fs, v, old_dir@, new_dir@);
                            assert(fixed_views =~= fixed_list(kid_views, old_dir@, new_dir@));
                            assert(fixed_item(whole@, old_dir@, new_dir@) == JsonView::Object(
                                with_field(
                                    fixed_fields(fs, old_dir@, new_dir@),
                                    "children"@,
                                    v,
                                ),
                            ));
                        }
                    },
                    other => {
                        fields.insert(k, (name, other));
                        assert(fields@ =~= orig);
                    },
                }
            }
            let hit = fix_fields(&mut fields, old_dir, new_dir);
            let own: u32 = if hit {
                1
            } else {
                0
            };
            let ghost own_count: nat = if stale_fields(fs, old_dir@) {
                1
            } else {
                0
            };
            let n = sum_capped(own, below, Ghost(own_count), Ghost(under));
            let r = Json::Object(fields);
            proof {
                lemma_parts(r);
            }
            (r, n)
        },
        other => (other, 0),
    }
}

/// Brings a list of entries up to date.
fn fix_list(items: Vec<Json>, old_dir: &str, new_dir: &str) -> (r: (Vec<Json>, u32))
    ensures
        r.0@.len() == items@.len(),
        forall|i: int|
            0 <= i < items@.len() ==> (#[trigger] r.0@[i])@ == fixed_item(
                items@[i]@,
                old_dir@,
                new_dir@,
            ),
        r.1 == capped(stale_count(json_views(items@), old_dir@)),
    decreases items,
{
    let ghost all = json_views(items@);
    let ghost given = items@;
    let mut rest = items;
    let mut done: Vec<Json> = Vec::new();
    let mut n: u32 = 0;
    let total: usize = rest.len();
    let mut i: usize = 0;
    assert(all.take(0) =~= Seq::empty());
    assert(rest@ =~= given.skip(0));
    while i < total
        invariant
            i <= total == given.len(),
            given == items@,
            all == json_views(given),
            rest@ == given.skip(i as int),
            done@.len() == i,
            forall|k: int|
                0 <= k < i ==> (#[trigger] done@[k])@ == fixed_item(
                    given[k]@,
                    old_dir@,
                    new_dir@,
                ),
            n == capped(stale_count(all.take(i as int), old_dir@)),
        decreases total - i,
    {
        let j = rest.remove(0);
        assert(j == given[i as int]);
        let (fixed, m) = fix_item(j, old_dir, new_dir);
        done.push(fixed);
        proof {
            assert(all.take(i + 1).drop_last() =~= all.take(i as int));
            assert(all.take(i + 1).last() == given[i as int]@);
            assert(rest@ =~= given.skip(i + 1));
        }
        n = sum_capped(
            n,
            m,
            Ghost(stale_count(all.take(i as int), old_dir@)),
            Ghost(stale_in(given[i as int]@, old_dir@)),
        );
        i += 1;
    }
    assert(all.take(total as int) =~= all);
    (done, n)
}

/// A document after the entries under `pinned` were brought up to date.
pub open spec fn fixed_document(j: JsonView, old: Seq<char>, new: Seq<char>) -> JsonView {
    match j {
        JsonView::Object(fs) => {
            let k = field_index(fs, "pinned"@);
            if 0 <= k < fs.len() {
                match fs[k].1 {
                    JsonView::Array(items) => JsonView::Object(
                        fs.update(
                            k,
                            (
                                "pinned"@,
                                JsonView::Array(fixed_list(items, old, new)),
                            ),
                        ),
                    ),
                    _ => j,
                }
            } else {
                j
            }
        },
        _ => j,
    }
}

/// How many entries under `pinned` have to be brought up to date.
pub open spec fn stale_document(j: JsonView, old: Seq<char>) -> nat {
    match j {
        JsonView::Object(fs) => {
            let k = field_index(fs, "pinned"@);
            if 0 <= k < fs.len() {
                match fs[k].1 {
                    JsonView::Array(items) => stale_count(items, old),
                    _ => 0,
                }
            } else {
                0
            }
        },
        _ => 0,
    }
}

/// Brings the entries under `pinned` up to date, folders included. Gives how
/// many were affected.
pub fn fix_targets(j: Json, old_dir: &str, new_dir: &str) -> (r: (Json, u32))
    requires
        old_dir@.len() > 0,
    ensures
        r.0@ == fixed_document(j@, old_dir@, new_dir@),
        r.1 == capped(stale_document(j@, old_dir@)),
{
    let ghost whole = j;
    proof {
        lemma_parts(whole);
    }
    match j {
        Json::Object(fields) => {
            let mut fields = fields;
            let ghost fs = field_views(fields@);
            let ghost orig = fields@;
            let k = json::find_field(&fields, "pinned");
            proof {
                lemma_field_index(fs, "pinned"@);
            }
            if k >= fields.len() {
                return (Json::Object(fields), 0);
            }
            let (name, value) = fields.remove(k);
            match value {
                Json::Array(items) => {
                    let ghost item_views = json_views(items@);
                    proof {
                        lemma_parts(orig[k as int].1);
                    }
                    let (fixed, n) = fix_list(items, old_dir, new_dir);
                    let ghost fixed_views = json_views(fixed@);
                    let arr = Json::Array(fixed);
                    proof {
                        lemma_parts(arr);
                        assert(fixed_views =~= fixed_list(item_views, old_dir@, new_dir@));
                    }
                    fields.insert(k, (name, arr));
                    let r = Json::Object(fields);
                    proof {
                        lemma_parts(r);
                        assert(field_views(fields@) =~= fs.update(
                            k as int,
                            ("pinned"@, JsonView::Array(fixed_views)),
                        ));
                    }
                    (r, n)
                },
                other => {
                    fields.insert(k, (name, other));
                    assert(fields@ =~= orig);
                    (Json::Object(fields), 0)
                },
            }
        },
        other => (other, 0),
    }
}

/// What became of a configuration.
#[derive(Debug)]
pub enum Rewrite {
    /// It is no JSON, or holds nothing of the former directory.
    Unchanged,
    /// It cannot be written.
    Failed,
    /// Its new text, and how many entries changed.
    Changed(String, u32),
}

/// Brings the text of a configuration up to date: every target below `old_dir`
/// moves below `new_dir`, in folders too, and identities follow.
pub fn rewrite_old_paths(config: &str, old_dir: &str, new_dir: &str) -> (r: Rewrite)
    requires
        old_dir@.len() > 0,
    ensures
        match json_parsed(config@) {
            None => r is Unchanged,
            Some(j) => if stale_document(j, old_dir@) == 0 {
                r is Unchanged
            } else {
                match json_printed(fixed_document(j, old_dir@, new_dir@)) {
                    None => r is Failed,
                    Some(out) => {
                        &&& r matches Rewrite::Changed(s, n)
                        &&& s@ == out
                        &&& n == capped(stale_document(j, old_dir@))
                    },
                }
            },
        },
{
    match json::parse(config) {
        None => Rewrite::Unchanged,
        Some(j) => {
            let (fixed, n) = fix_targets(j, old_dir, new_dir);
            if n == 0 {
                return Rewrite::Unchanged;
            }
            match json::print(&fixed) {
                None => Rewrite::Failed,
                Some(out) => Rewrite::Changed(out, n),
            }
        },
    }
}

// ---------------------------------------------------------------- laws

proof fn lemma_moved_is_outside(old: Seq<char>, new: Seq<char>, rest: Seq<char>)
    requires
        !old.is_prefix_of(new),
        !new.is_prefix_of(old),
    ensures
        !old.is_prefix_of(new + rest),
{
    if old.is_prefix_of(new + rest) {
        if old.len() <= new.len() {
            assert(old =~= new.subrange(0, old.len() as int));
        } else {
            assert(new =~= old.subrange(0, new.len() as int)) by {
                assert forall|i: int| 0 <= i < new.len() implies new[i] == old[i] by {
                    assert(old[i] == (new + rest).subrange(0, old.len() as int)[i]);
                }
            }
        }
    }
}

proof fn lemma_with_same(fs: Seq<(Seq<char>, JsonView)>, key: Seq<char>, v: JsonView)
    requires
        field_index(fs, key) < fs.len(),
        fs[field_index(fs, key)] == (key, v),
    ensures
        with_field(fs, key, v) == fs,
{
    lemma_field_index(fs, key);
    assert(with_field(fs, key, v) =~= fs);
}

proof fn lemma_fields_twice(fs: Seq<(Seq<char>, JsonView)>, old: Seq<char>, new: Seq<char>)
    requires
        !old.is_prefix_of(new),
        !new.is_prefix_of(old),
    ensures
        fixed_fields(fixed_fields(fs, old, new), old, new) == fixed_fields(fs, old, new),
{
    lemma_names_differ();
    let target = text_field(fs, "target"@);
    let w = fixed_fields(fs, old, new);
    if old.is_prefix_of(target) {
        let rest = target.skip(old.len() as int);
        let moved = new + rest;
        lemma_moved_is_outside(old, new, rest);
        let one = with_field(fs, "id"@, JsonView::Text(target_id(moved)));
        lemma_with_field(fs, "id"@, JsonView::Text(target_id(moved)), "target"@);
        lemma_with_field(one, "target"@, JsonView::Text(moved), "id"@);
        assert(text_field(w, "target"@) == moved);
        lemma_with_same(w, "id"@, JsonView::Text(target_id(moved)));
    } else if lowercase(old).is_prefix_of(text_field(fs, "id"@)) && target.len() > 0 {
        lemma_with_field(fs, "id"@, JsonView::Text(target_id(target)), "target"@);
        assert(text_field(w, "target"@) == target);
        lemma_with_same(w, "id"@, JsonView::Text(target_id(target)));
    }
}

/// Bringing an entry up to date twice is doing it once, where neither directory
/// lies below the other.
pub proof fn law_fix_twice(j: JsonView, old: Seq<char>, new: Seq<char>)
    requires
        !old.is_prefix_of(new),
        !new.is_prefix_of(old),
    ensures
        fixed_item(fixed_item(j, old, new), old, new) == fixed_item(j, old, new),
    decreases j,
{
    match j {
        JsonView::Object(fs) => {
            lemma_names_differ();
            let c = "children"@;
            let own = fixed_fields(fs, old, new);
            lemma_fields_twice(fs, old, new);
            lemma_field_index(fs, c);
            let k = field_index(fs, c);
            lemma_own_keeps_children(fs, old, new);
            if k < fs.len() {
                match fs[k].1 {
                    JsonView::Array(kids) => {
                        let fixed = fixed_list(kids, old, new);
                        let v = JsonView::Array(fixed);
                        let w = with_field(own, c, v);
                        assert(fixed_item(j, old, new) == JsonView::Object(w));
                        lemma_with_field(own, c, v, c);
                        assert forall|i: int| 0 <= i < kids.len() implies fixed_item(
                            #[trigger] fixed[i],
                            old,
                            new,
                        ) == fixed[i] by {
                            law_fix_twice(kids[i], old, new);
                        }
                        assert(fixed_list(fixed, old, new) =~= fixed);
                        lemma_children_first(own, v, old, new);
                        assert(fixed_fields(w, old, new) == w);
                        lemma_field_index(w, c);
                        assert(w[field_index(w, c)].1 == v);
                        lemma_with_same(w, c, v);
                    },
                    _ => {
                        assert(fixed_item(j, old, new) == JsonView::Object(own));
                    },
                }
            } else {
                assert(fixed_item(j, old, new) == JsonView::Object(own));
            }
        },
        _ => {},
    }
}

proof fn lemma_own_keeps_children(fs: Seq<(Seq<char>, JsonView)>, old: Seq<char>, new: Seq<char>)
    ensures
        ({
            let own = fixed_fields(fs, old, new);
            let k = field_index(fs, "children"@);
            &&& k < fs.len() ==> field_index(own, "children"@) == k && k < own.len() && own[k]
                == fs[k]
            &&& k >= fs.len() ==> field_index(own, "children"@) >= own.len()
        }),
{
    lemma_names_differ();
    let c = "children"@;
    lemma_field_index(fs, c);
    let target = text_field(fs, "target"@);
    if old.is_prefix_of(target) {
        let moved = new + target.skip(old.len() as int);
        let id = JsonView::Text(target_id(moved));
        lemma_with_field(fs, "id"@, id, c);
        let one = with_field(fs, "id"@, id);
        lemma_field_index(one, c);
        lemma_with_field(one, "target"@, JsonView::Text(moved), c);
    } else if lowercase(old).is_prefix_of(text_field(fs, "id"@)) && target.len() > 0 {
        lemma_with_field(fs, "id"@, JsonView::Text(target_id(target)), c);
    }
}

/// The first field of a name.
pub open spec fn first_named(fs: Seq<(Seq<char>, JsonView)>, key: Seq<char>, i: int) -> bool {
    0 <= i < fs.len() && fs[i].0 == key && forall|j: int|
        0 <= j < i ==> (#[trigger] fs[j]).0 != key
}

proof fn lemma_first_named(fs: Seq<(Seq<char>, JsonView)>, key: Seq<char>, i: int)
    requires
        first_named(fs, key, i),
    ensures
        field_index(fs, key) == i,
{
    lemma_field_index(fs, key);
    let k = field_index(fs, key);
    if k < i {
        assert(fs[k].0 == key);
    } else if i < k {
        assert(fs[i].0 == key);
    }
}

/// An entry whose target lies below the former directory has its target at the
/// same place below the new one: what stood behind the directory stays as it is.
/// It is known by that target, in lower case unless it is a package. Nothing
/// else of the entry changes.
pub proof fn law_target_moves(
    fs: Seq<(Seq<char>, JsonView)>,
    t: int,
    old: Seq<char>,
    new: Seq<char>,
    rest: Seq<char>,
)
    requires
        first_named(fs, "target"@, t),
        fs[t].1 == JsonView::Text(old + rest),
    ensures
        ({
            let r = fixed_fields(fs, old, new);
            &&& first_named(r, "target"@, t)
            &&& r[t].1 == JsonView::Text(new + rest)
            &&& exists|i: int| #[trigger]
                first_named(r, "id"@, i) && r[i].1 == JsonView::Text(target_id(new + rest))
            &&& !"shell:AppsFolder\\"@.is_prefix_of(new + rest) ==> target_id(new + rest)
                == lowercase(new + rest)
            &&& fs.len() <= r.len() <= fs.len() + 1
            &&& forall|i: int|
                0 <= i < fs.len() ==> (#[trigger] r[i]).0 == fs[i].0 && (fs[i].0 != "id"@
                    && fs[i].0 != "target"@ ==> r[i] == fs[i])
            &&& r.len() > fs.len() ==> r[fs.len() as int].0 == "id"@
        }),
        stale_fields(fs, old),
{
    lemma_names_differ();
    lemma_first_named(fs, "target"@, t);
    let target = old + rest;
    assert(target.subrange(0, old.len() as int) =~= old);
    assert(target.skip(old.len() as int) =~= rest);
    let moved = new + rest;
    let id = JsonView::Text(target_id(moved));
    let one = with_field(fs, "id"@, id);
    let r = fixed_fields(fs, old, new);
    lemma_with_field(fs, "id"@, id, "target"@);
    lemma_with_field(one, "target"@, JsonView::Text(moved), "id"@);
    lemma_field_index(fs, "id"@);
    lemma_field_index(one, "target"@);
    lemma_field_index(r, "target"@);
    lemma_field_index(r, "id"@);
    assert(first_named(r, "id"@, field_index(r, "id"@)));
    assert(first_named(r, "target"@, t));
}

/// An entry whose target lies elsewhere keeps its target. Where its identity was
/// left behind below the former directory, the identity is that of the target
/// again; else the entry stays as it is.
pub proof fn law_other_targets_stay(
    fs: Seq<(Seq<char>, JsonView)>,
    t: int,
    i: int,
    target: Seq<char>,
    id: Seq<char>,
    old: Seq<char>,
    new: Seq<char>,
)
    requires
        first_named(fs, "target"@, t),
        fs[t].1 == JsonView::Text(target),
        first_named(fs, "id"@, i),
        fs[i].1 == JsonView::Text(id),
        !old.is_prefix_of(target),
    ensures
        !lowercase(old).is_prefix_of(id) || target.len() == 0 ==> fixed_fields(fs, old, new) == fs
            && !stale_fields(fs, old),
        lowercase(old).is_prefix_of(id) && target.len() > 0 ==> fixed_fields(fs, old, new)
            == fs.update(i, ("id"@, JsonView::Text(target_id(target)))) && stale_fields(fs, old),
{
    lemma_first_named(fs, "target"@, t);
    lemma_first_named(fs, "id"@, i);
}

/// Entries in a folder are brought up to date like those at the top, each at its
/// own place.
pub proof fn law_children_are_fixed(
    fs: Seq<(Seq<char>, JsonView)>,
    c: int,
    kids: Seq<JsonView>,
    old: Seq<char>,
    new: Seq<char>,
)
    requires
        first_named(fs, "children"@, c),
        fs[c].1 == JsonView::Array(kids),
    ensures
        fixed_item(JsonView::Object(fs), old, new) matches JsonView::Object(r) && ({
            &&& r.len() == fixed_fields(fs, old, new).len()
            &&& r[c].0 == "children"@
            &&& r[c].1 matches JsonView::Array(l) && l.len() == kids.len() && forall|i: int|
                0 <= i < kids.len() ==> #[trigger] l[i] == fixed_item(kids[i], old, new)
            &&& forall|i: int|
                0 <= i < r.len() && i != c ==> #[trigger] r[i] == fixed_fields(fs, old, new)[i]
        }),
{
    lemma_first_named(fs, "children"@, c);
    lemma_own_keeps_children(fs, old, new);
}

/// What is no entry, and an entry without children, is not looked into further.
pub proof fn law_items_without_children(j: JsonView, old: Seq<char>, new: Seq<char>)
    ensures
        !(j is Object) ==> fixed_item(j, old, new) == j && stale_in(j, old) == 0,
        j matches JsonView::Object(fs) ==> (forall|i: int|
            0 <= i < fs.len() ==> (#[trigger] fs[i]).0 != "children"@) ==> fixed_item(j, old, new)
            == JsonView::Object(fixed_fields(fs, old, new)),
{
    if let JsonView::Object(fs) = j {
        lemma_field_index(fs, "children"@);
        let k = field_index(fs, "children"@);
        if k < fs.len() {
            assert(fs[k].0 == "children"@);
        }
    }
}

/// Of a document only the list under `pinned` changes: it keeps its length, and
/// each entry is brought up to date at its own place.
pub proof fn law_only_pinned_changes(
    fs: Seq<(Seq<char>, JsonView)>,
    k: int,
    items: Seq<JsonView>,
    old: Seq<char>,
    new: Seq<char>,
)
    requires
        first_named(fs, "pinned"@, k),
        fs[k].1 == JsonView::Array(items),
    ensures
        fixed_document(JsonView::Object(fs), old, new) matches JsonView::Object(r) && ({
            &&& r.len() == fs.len()
            &&& r[k].0 == "pinned"@
            &&& r[k].1 matches JsonView::Array(l) && l.len() == items.len() && forall|i: int|
                0 <= i < items.len() ==> #[trigger] l[i] == fixed_item(items[i], old, new)
            &&& forall|i: int| 0 <= i < fs.len() && i != k ==> #[trigger] r[i] == fs[i]
        }),
        stale_document(JsonView::Object(fs), old) == stale_count(items, old),
{
    lemma_first_named(fs, "pinned"@, k);
}

proof fn lemma_none_stale(s: Seq<JsonView>, old: Seq<char>, i: int)
    requires
        0 <= i < s.len(),
    ensures
        stale_count(s, old) == 0 ==> stale_in(s[i], old) == 0,
    decreases s.len(),
{
    if i < s.len() - 1 {
        lemma_none_stale(s.drop_last(), old, i);
    }
}

proof fn lemma_nothing_to_fix(j: JsonView, old: Seq<char>, new: Seq<char>)
    requires
        stale_in(j, old) == 0,
    ensures
        fixed_item(j, old, new) == j,
    decreases j,
{
    if let JsonView::Object(fs) = j {
        let k = field_index(fs, "children"@);
        lemma_field_index(fs, "children"@);
        if k < fs.len() {
            if let JsonView::Array(kids) = fs[k].1 {
                let l = fixed_list(kids, old, new);
                assert forall|i: int| 0 <= i < kids.len() implies #[trigger] l[i] == kids[i] by {
                    lemma_none_stale(kids, old, i);
                    lemma_nothing_to_fix(kids[i], old, new);
                }
                assert(l =~= kids);
                lemma_with_same(fs, "children"@, fs[k].1);
            }
        }
    }
}

/// Where nothing is counted nothing changes. An entry counts, with what it
/// holds, at least where its target lies below the former directory, and a list
/// counts what its entries count together.
pub proof fn law_counts_what_changes(j: JsonView, s: Seq<JsonView>, old: Seq<char>, new: Seq<char>)
    ensures
        stale_in(j, old) == 0 ==> fixed_item(j, old, new) == j,
        stale_count(Seq::empty(), old) == 0,
        stale_count(s.push(j), old) == stale_count(s, old) + stale_in(j, old),
        j matches JsonView::Object(fs) ==> (forall|t: int| #[trigger]
            first_named(fs, "target"@, t) && fs[t].1 is Text && old.is_prefix_of(fs[t].1->Text_0)
                ==> stale_in(j, old) >= 1),
{
    if stale_in(j, old) == 0 {
        lemma_nothing_to_fix(j, old, new);
    }
    assert(s.push(j).drop_last() =~= s);
    if let JsonView::Object(fs) = j {
        assert forall|t: int| #[trigger]
            first_named(fs, "target"@, t) && fs[t].1 is Text && old.is_prefix_of(
                fs[t].1->Text_0,
            ) implies stale_in(j, old) >= 1 by {
            let target = fs[t].1->Text_0;
            let rest = target.skip(old.len() as int);
            assert(old + rest =~= target);
            law_target_moves(fs, t, old, new, rest);
        }
    }
}

/// A configuration that cannot be read, or in which nothing is old, is left as it
/// is; any other is written anew, and as many entries are counted as were old.
pub proof fn law_rewritten(config: &str, old_dir: &str, new_dir: &str, r: Rewrite)
    requires
        old_dir@.len() > 0,
        call_ensures(rewrite_old_paths, (config, old_dir, new_dir), r),
    ensures
        json_parsed(config@) is None ==> r is Unchanged,
        json_parsed(config@) is Some && stale_document(json_parsed(config@)->0, old_dir@) == 0
            ==> r is Unchanged,
        r is Changed ==> json_parsed(config@) is Some && Some(r->Changed_0@) == json_printed(
            fixed_document(json_parsed(config@)->0, old_dir@, new_dir@),
        ),
        r is Changed && stale_document(json_parsed(config@)->0, old_dir@) <= u32::MAX
            ==> r->Changed_1 == stale_document(json_parsed(config@)->0, old_dir@),
        r is Failed ==> json_printed(
            fixed_document(json_parsed(config@)->0, old_dir@, new_dir@),
        ) is None,
{
}

/// An entry whose target lies below the former directory counts once, and what it
/// holds counts besides; in a document what is listed under `pinned` counts, and
/// nothing that is no object counts at all.
pub proof fn law_each_entry_counts_once(
    fs: Seq<(Seq<char>, JsonView)>,
    t: int,
    k: int,
    p: int,
    old: Seq<char>,
    other: JsonView,
)
    requires
        first_named(fs, "target"@, t),
        fs[t].1 is Text,
        old.is_prefix_of(fs[t].1->Text_0),
        !(other is Object),
    ensures
        (forall|i: int| 0 <= i < fs.len() ==> (#[trigger] fs[i]).0 != "children"@) ==> stale_in(
            JsonView::Object(fs),
            old,
        ) == 1,
        first_named(fs, "children"@, k) && fs[k].1 is Array ==> stale_in(JsonView::Object(fs), old)
            == 1 + stale_count(fs[k].1->Array_0, old),
        first_named(fs, "pinned"@, p) && fs[p].1 is Array ==> stale_document(
            JsonView::Object(fs),
            old,
        ) == stale_count(fs[p].1->Array_0, old),
        (forall|i: int| 0 <= i < fs.len() ==> (#[trigger] fs[i]).0 != "pinned"@) ==> stale_document(
            JsonView::Object(fs),
            old,
        ) == 0,
        stale_in(other, old) == 0,
        stale_document(other, old) == 0,
{
    lemma_named_at(fs, "target"@, t);
    lemma_named_at(fs, "children"@, k);
    lemma_named_at(fs, "pinned"@, p);
    assert(text_field(fs, "target"@) == fs[t].1->Text_0);
}

proof fn lemma_named_at(fs: Seq<(Seq<char>, JsonView)>, key: Seq<char>, k: int)
    ensures
        first_named(fs, key, k) ==> field_index(fs, key) == k,
        (forall|i: int| 0 <= i < fs.len() ==> (#[trigger] fs[i]).0 != key) ==> field_index(fs, key)
            == fs.len(),
{
    json::lemma_field_index(fs, key);
    let i = field_index(fs, key);
    if first_named(fs, key, k) {
        if i < k {
            assert(fs[i].0 != key);
        }
        if k < i {
            assert(fs[k].0 != key);
        }
    }
    if i < fs.len() {
        assert(fs[i].0 == key);
    }
}

} // verus!
