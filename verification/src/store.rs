//! The list of pinned entries and everything that changes it, and the
//! preferences around it.

use vstd::prelude::*;
use vstd::string::*;
use crate::apps;
use crate::apps::{shell_target, system_location, target_id, windowsapps_path};
use crate::model::{lemma_children_views, pinned_views, PinnedApp, PinnedView};
use crate::text;
use crate::text::{decimal, first_chars, lowercase, opt_view, text_views, trimmed};

verus! {

/// The name of a new folder where the user gives none.
pub const DEFAULT_FOLDER_NAME: &'static str = "新建文件夹";

/// The name of the folder for temporary files.
pub const TEMP_FOLDER_NAME: &'static str = "临时文件夹";

/// The longest name of a folder, in characters.
pub const MAX_FOLDER_NAME_CHARS: usize = 40;

/// The position of the first entry with that identity, or the length.
pub open spec fn pin_index(s: Seq<PinnedView>, id: Seq<char>) -> int
    decreases s.len(),
{
    if s.len() == 0 {
        0
    } else if s[0].id == id {
        0
    } else {
        1 + pin_index(s.skip(1), id)
    }
}

/// An entry has that identity.
pub open spec fn has_id(s: Seq<PinnedView>, id: Seq<char>) -> bool {
    exists|i: int| 0 <= i < s.len() && (#[trigger] s[i]).id == id
}

/// Before the first entry with an identity no entry has it.
pub proof fn lemma_pin_index(s: Seq<PinnedView>, id: Seq<char>)
    ensures
        0 <= pin_index(s, id) <= s.len(),
        pin_index(s, id) < s.len() ==> s[pin_index(s, id)].id == id,
        forall|i: int| 0 <= i < pin_index(s, id) ==> (#[trigger] s[i]).id != id,
        pin_index(s, id) < s.len() <==> has_id(s, id),
    decreases s.len(),
{
    if s.len() > 0 && s[0].id != id {
        let t = s.skip(1);
        lemma_pin_index(t, id);
        assert forall|i: int| 0 <= i < pin_index(s, id) implies (#[trigger] s[i]).id != id by {
            if i > 0 {
                assert(s[i] == t[i - 1]);
            }
        }
        if has_id(s, id) {
            let i = choose|i: int| 0 <= i < s.len() && (#[trigger] s[i]).id == id;
            assert(t[i - 1] == s[i]);
        }
    }
}

/// The position of the first entry with that identity, or the length.
pub fn find_pin(v: &Vec<PinnedApp>, id: &str) -> (r: usize)
    ensures
        r == pin_index(pinned_views(v@), id@),
        r <= v@.len(),
        r < v@.len() <==> has_id(pinned_views(v@), id@),
{
    let mut i: usize = 0;
    let ghost all = pinned_views(v@);
    proof {
        assert(all.skip(0) =~= all);
        lemma_pin_index(all, id@);
    }
    while i < v.len()
        invariant
            i <= v@.len(),
            all == pinned_views(v@),
            pin_index(all, id@) == i + pin_index(all.skip(i as int), id@),
            pin_index(all, id@) < all.len() <==> has_id(all, id@),
        decreases v@.len() - i,
    {
        assert(all.skip(i as int)[0] == v@[i as int]@);
        assert(all.skip(i as int).skip(1) =~= all.skip(i + 1));
        if text::same(v[i].id.as_str(), id) {
            return i;
        }
        i += 1;
    }
    assert(all.skip(i as int).len() == 0);
    i
}

// ---------------------------------------------------------------- identities

/// The identity is in use, at the top or in a folder.
pub open spec fn taken(s: Seq<PinnedView>, id: Seq<char>) -> bool {
    has_id(s, id) || exists|i: int| 0 <= i < s.len() && has_id((#[trigger] s[i]).children, id)
}

/// The `n`-th identity that is tried.
pub open spec fn candidate_id(prefix: Seq<char>, ms: u64, n: nat) -> Seq<char> {
    prefix + "-"@ + decimal(ms as nat) + "-"@ + decimal(n)
}

/// The first identity from the `n`-th on that is not in use, where one of the
/// first thousand is free.
pub open spec fn free_id_from(s: Seq<PinnedView>, prefix: Seq<char>, ms: u64, n: nat) -> Seq<char>
    decreases 1000 - n,
{
    if n >= 1000 {
        prefix + "-"@ + decimal(ms as nat) + "-x"@
    } else if !taken(s, candidate_id(prefix, ms, n)) {
        candidate_id(prefix, ms, n)
    } else {
        free_id_from(s, prefix, ms, n + 1)
    }
}

/// A new identity made of a prefix and the time.
pub open spec fn free_id(s: Seq<PinnedView>, prefix: Seq<char>, ms: u64) -> Seq<char> {
    free_id_from(s, prefix, ms, 0)
}

fn is_taken(v: &Vec<PinnedApp>, id: &str) -> (r: bool)
    ensures
        r == taken(pinned_views(v@), id@),
{
    let ghost all = pinned_views(v@);
    if find_pin(v, id) < v.len() {
        return true;
    }
    let mut i: usize = 0;
    while i < v.len()
        invariant
            i <= v@.len(),
            all == pinned_views(v@),
            forall|k: int| 0 <= k < i ==> !has_id((#[trigger] all[k]).children, id@),
        decreases v@.len() - i,
    {
        proof {
            lemma_children_views(v@[i as int]);
            assert(all[i as int].children == pinned_views(v@[i as int].children@));
        }
        if find_pin(&v[i].children, id) < v[i].children.len() {
            return true;
        }
        i += 1;
    }
    false
}

/// A new identity made of a prefix, the time in milliseconds and a number: the
/// first of a thousand that is in use neither at the top nor in a folder.
pub fn next_id(pinned: &Vec<PinnedApp>, prefix: &str, ms: u64) -> (r: String)
    ensures
        r@ == free_id(pinned_views(pinned@), prefix@, ms),
{
    let mut stem = text::concat3(prefix, "-", text::decimal_string(ms).as_str());
    stem.append("-");
    let mut n: u64 = 0;
    while n < 1000
        invariant
            n <= 1000,
            stem@ == prefix@ + "-"@ + decimal(ms as nat) + "-"@,
            free_id(pinned_views(pinned@), prefix@, ms) == free_id_from(
                pinned_views(pinned@),
                prefix@,
                ms,
                n as nat,
            ),
        decreases 1000 - n,
    {
        let id = text::concat(stem.as_str(), text::decimal_string(n).as_str());
        if !is_taken(pinned, id.as_str()) {
            return id;
        }
        n += 1;
    }
    let mut last = text::concat3(prefix, "-", text::decimal_string(ms).as_str());
    last.append("-x");
    last
}

/// The identity that is left where all the others are in use.
pub open spec fn last_id(prefix: Seq<char>, ms: u64) -> Seq<char> {
    prefix + "-"@ + decimal(ms as nat) + "-x"@
}

/// The new identity is not in use, at the top or in a folder, unless every one
/// that can be given is.
pub proof fn law_new_id_is_free(s: Seq<PinnedView>, prefix: Seq<char>, ms: u64)
    requires
        !taken(s, last_id(prefix, ms)) || exists|k: nat|
            k < 1000 && !taken(s, #[trigger] candidate_id(prefix, ms, k)),
    ensures
        !taken(s, free_id(s, prefix, ms)),
{
    if exists|k: nat| k < 1000 && !taken(s, #[trigger] candidate_id(prefix, ms, k)) {
        let k = choose|k: nat| k < 1000 && !taken(s, #[trigger] candidate_id(prefix, ms, k));
        lemma_free_from(s, prefix, ms, 0, k);
    } else {
        lemma_none_free(s, prefix, ms, 0);
    }
}

proof fn lemma_none_free(s: Seq<PinnedView>, prefix: Seq<char>, ms: u64, n: nat)
    requires
        forall|k: nat| k < 1000 ==> taken(s, #[trigger] candidate_id(prefix, ms, k)),
    ensures
        free_id_from(s, prefix, ms, n) == last_id(prefix, ms),
    decreases 1000 - n,
{
    if n < 1000 {
        assert(taken(s, candidate_id(prefix, ms, n)));
        lemma_none_free(s, prefix, ms, n + 1);
    }
}

proof fn lemma_free_from(s: Seq<PinnedView>, prefix: Seq<char>, ms: u64, n: nat, k: nat)
    requires
        n <= k < 1000,
        !taken(s, candidate_id(prefix, ms, k)),
    ensures
        !taken(s, free_id_from(s, prefix, ms, n)),
    decreases 1000 - n,
{
    if taken(s, candidate_id(prefix, ms, n)) {
        lemma_free_from(s, prefix, ms, n + 1, k);
    }
}

// ---------------------------------------------------------------- folders

/// The outcome of renaming a folder: the new list and name, or the message.
pub open spec fn renamed(s: Seq<PinnedView>, id: Seq<char>, name: Seq<char>) -> Result<
    (Seq<PinnedView>, Seq<char>),
    Seq<char>,
> {
    let i = pin_index(s, id);
    if trimmed(name).len() == 0 {
        Err("名字不能为空"@)
    } else if i >= s.len() {
        Err("Dock 上没有这个条目: "@ + id)
    } else if !s[i].is_folder {
        Err("它不是文件夹"@)
    } else {
        let n = first_chars(trimmed(name), MAX_FOLDER_NAME_CHARS as nat);
        Ok((s.update(i, PinnedView { display_name: n, ..s[i] }), n))
    }
}

/// Renames a folder. The name is trimmed and cut to its longest length; a blank
/// name is refused.
pub fn rename_folder(pinned: &mut Vec<PinnedApp>, folder_id: &str, name: &str) -> (r: Result<
    String,
    String,
>)
    ensures
        match renamed(pinned_views(old(pinned)@), folder_id@, name@) {
            Ok((list, n)) => r is Ok && r->Ok_0@ == n && pinned_views(final(pinned)@) == list,
            Err(e) => r is Err && r->Err_0@ == e && pinned_views(final(pinned)@) == pinned_views(
                old(pinned)@,
            ),
        },
{
    let t = text::trim(name);
    if t.as_str().is_empty() {
        return Err("名字不能为空".to_owned());
    }
    let new_name = text::take_chars(t.as_str(), MAX_FOLDER_NAME_CHARS);
    let i = find_pin(pinned, folder_id);
    if i >= pinned.len() {
        return Err(text::concat("Dock 上没有这个条目: ", folder_id));
    }
    if !pinned[i].is_folder {
        return Err("它不是文件夹".to_owned());
    }
    let ghost before = pinned_views(pinned@);
    let mut f = pinned.remove(i);
    let ghost old_f = f;
    f.display_name = new_name.clone();
    assert(f@.children =~= old_f@.children);
    pinned.insert(i, f);
    assert(pinned_views(pinned@) =~= before.update(
        i as int,
        PinnedView { display_name: new_name@, ..before[i as int] },
    ));
    Ok(new_name)
}

/// The name of a new folder: what the user gave, trimmed and cut to its longest
/// length, or the default where that is blank.
pub open spec fn folder_name(name: Option<Seq<char>>) -> Seq<char> {
    if name is Some && trimmed(name->0).len() > 0 {
        first_chars(trimmed(name->0), MAX_FOLDER_NAME_CHARS as nat)
    } else {
        DEFAULT_FOLDER_NAME@
    }
}

/// A folder that holds one entry.
pub open spec fn folder_of(id: Seq<char>, name: Seq<char>, child: PinnedView) -> PinnedView {
    PinnedView {
        id,
        display_name: name,
        target: Seq::empty(),
        separator: false,
        is_folder: true,
        children: seq![child],
    }
}

/// The outcome of turning an entry into a folder: the new list and the folder's
/// identity, or the message.
pub open spec fn foldered(
    s: Seq<PinnedView>,
    app_id: Seq<char>,
    name: Option<Seq<char>>,
    ms: u64,
) -> Result<(Seq<PinnedView>, Seq<char>), Seq<char>> {
    let i = pin_index(s, app_id);
    if i >= s.len() {
        Err("Dock 上没有这个条目: "@ + app_id)
    } else if s[i].is_folder {
        Err("它已经是文件夹了"@)
    } else if s[i].separator {
        Err("分割线不能变成文件夹"@)
    } else {
        let id = free_id(s.remove(i), "folder"@, ms);
        Ok((s.update(i, folder_of(id, folder_name(name), s[i])), id))
    }
}

/// Turns an entry into a folder that holds it, in the same place. Gives the
/// folder's identity.
pub fn create_folder(
    pinned: &mut Vec<PinnedApp>,
    app_id: &str,
    name: &Option<String>,
    ms: u64,
) -> (r: Result<String, String>)
    ensures
        match foldered(pinned_views(old(pinned)@), app_id@, opt_view(*name), ms) {
            Ok((list, id)) => r is Ok && r->Ok_0@ == id && pinned_views(final(pinned)@) == list,
            Err(e) => r is Err && r->Err_0@ == e && pinned_views(final(pinned)@) == pinned_views(
                old(pinned)@,
            ),
        },
{
    let i = find_pin(pinned, app_id);
    if i >= pinned.len() {
        return Err(text::concat("Dock 上没有这个条目: ", app_id));
    }
    if pinned[i].is_folder {
        return Err("它已经是文件夹了".to_owned());
    }
    if pinned[i].separator {
        return Err("分割线不能变成文件夹".to_owned());
    }
    let mut display_name = DEFAULT_FOLDER_NAME.to_owned();
    if let Some(n) = name {
        let t = text::trim(n.as_str());
        if !t.as_str().is_empty() {
            display_name = text::take_chars(t.as_str(), MAX_FOLDER_NAME_CHARS);
        }
    }
    let ghost before = pinned_views(pinned@);
    let child = pinned.remove(i);
    let ghost child_view = child@;
    assert(pinned_views(pinned@) =~= before.remove(i as int));
    let id = next_id(pinned, "folder", ms);
    let mut children: Vec<PinnedApp> = Vec::new();
    children.push(child);
    let folder = PinnedApp {
        id: id.clone(),
        display_name,
        target: String::new(),
        separator: false,
        is_folder: true,
        children,
    };
    assert(folder@.children =~= seq![child_view]);
    pinned.insert(i, folder);
    assert(pinned_views(pinned@) =~= before.update(
        i as int,
        folder_of(id@, folder_name(opt_view(*name)), before[i as int]),
    ));
    Ok(id)
}

/// The outcome of moving an entry into a folder: the new list, or the message.
pub open spec fn moved_in(s: Seq<PinnedView>, folder_id: Seq<char>, app_id: Seq<char>) -> Result<
    Seq<PinnedView>,
    Seq<char>,
> {
    let f = pin_index(s, folder_id);
    let c = pin_index(s, app_id);
    if f >= s.len() {
        Err("找不到文件夹: "@ + folder_id)
    } else if !s[f].is_folder {
        Err("目标不是文件夹"@)
    } else if has_id(s[f].children, app_id) {
        Err("它已经在这个文件夹里了"@)
    } else if c >= s.len() {
        Err("Dock 上没有这个条目: "@ + app_id)
    } else if s[c].separator {
        Err("分割线不能放进文件夹"@)
    } else if s[c].is_folder {
        Err("文件夹不能放进文件夹"@)
    } else {
        Ok(
            s.update(
                f,
                PinnedView { children: s[f].children.push(s[c]), ..s[f] },
            ).remove(c),
        )
    }
}

/// Moves an entry from the top into a folder, at its end. The folder keeps its
/// place among the others.
pub fn add_to_folder(pinned: &mut Vec<PinnedApp>, folder_id: &str, app_id: &str) -> (r: Result<
    (),
    String,
>)
    ensures
        match moved_in(pinned_views(old(pinned)@), folder_id@, app_id@) {
            Ok(list) => r is Ok && pinned_views(final(pinned)@) == list,
            Err(e) => r is Err && r->Err_0@ == e && pinned_views(final(pinned)@) == pinned_views(
                old(pinned)@,
            ),
        },
{
    let fi = find_pin(pinned, folder_id);
    if fi >= pinned.len() {
        return Err(text::concat("找不到文件夹: ", folder_id));
    }
    if !pinned[fi].is_folder {
        return Err("目标不是文件夹".to_owned());
    }
    proof {
        lemma_children_views(pinned@[fi as int]);
    }
    if find_pin(&pinned[fi].children, app_id) < pinned[fi].children.len() {
        return Err("它已经在这个文件夹里了".to_owned());
    }
    let ci = find_pin(pinned, app_id);
    if ci >= pinned.len() {
        return Err(text::concat("Dock 上没有这个条目: ", app_id));
    }
    if pinned[ci].separator {
        return Err("分割线不能放进文件夹".to_owned());
    }
    if pinned[ci].is_folder {
        return Err("文件夹不能放进文件夹".to_owned());
    }
    let ghost before = pinned_views(pinned@);
    let child = pinned.remove(ci);
    let ghost child_view = child@;
    let at: usize = if ci < fi {
        fi - 1
    } else {
        fi
    };
    let mut f = pinned.remove(at);
    let ghost old_f = f;
    proof {
        assert(old_f@ == before[fi as int]);
        lemma_children_views(old_f);
    }
    f.children.push(child);
    proof {
        lemma_children_views(f);
        assert(f@.children =~= old_f@.children.push(child_view));
    }
    let ghost new_f = PinnedView {
        children: before[fi as int].children.push(before[ci as int]),
        ..before[fi as int]
    };
    assert(f@ =~= new_f);
    pinned.insert(at, f);
    assert(pinned_views(pinned@) =~= before.update(fi as int, new_f).remove(ci as int));
    Ok(())
}

/// The list with the entry at a place replaced by several.
pub open spec fn splice(s: Seq<PinnedView>, i: int, with: Seq<PinnedView>) -> Seq<PinnedView> {
    s.take(i) + with + s.skip(i + 1)
}

/// The outcome of dissolving a folder: the new list and how many entries came
/// out, or the message.
pub open spec fn dissolved(s: Seq<PinnedView>, folder_id: Seq<char>) -> Result<
    (Seq<PinnedView>, nat),
    Seq<char>,
> {
    let f = pin_index(s, folder_id);
    if f >= s.len() {
        Err("找不到文件夹: "@ + folder_id)
    } else if !s[f].is_folder {
        Err("它不是文件夹"@)
    } else {
        Ok((splice(s, f, s[f].children), s[f].children.len()))
    }
}

/// Dissolves a folder: its entries take its place, in order. Gives how many
/// there were.
pub fn dissolve_folder(pinned: &mut Vec<PinnedApp>, folder_id: &str) -> (r: Result<usize, String>)
    ensures
        match dissolved(pinned_views(old(pinned)@), folder_id@) {
            Ok((list, n)) => r is Ok && r->Ok_0 == n && pinned_views(final(pinned)@) == list,
            Err(e) => r is Err && r->Err_0@ == e && pinned_views(final(pinned)@) == pinned_views(
                old(pinned)@,
            ),
        },
{
    let fi = find_pin(pinned, folder_id);
    if fi >= pinned.len() {
        return Err(text::concat("找不到文件夹: ", folder_id));
    }
    if !pinned[fi].is_folder {
        return Err("它不是文件夹".to_owned());
    }
    let ghost before = pinned_views(pinned@);
    let mut tail = pinned.split_off(fi);
    let folder = tail.remove(0);
    proof {
        lemma_children_views(folder);
    }
    let mut children = folder.children;
    let n: usize = children.len();
    let ghost kids = children@;
    let ghost rest = tail@;
    let ghost head = pinned@;
    pinned.append(&mut children);
    pinned.append(&mut tail);
    assert(pinned@ =~= head + kids + rest);
    assert(pinned_views(pinned@) =~= splice(before, fi as int, before[fi as int].children));
    Ok(n)
}

/// The first folder that holds an entry with that identity, or the length.
pub open spec fn holder_index(s: Seq<PinnedView>, id: Seq<char>) -> int
    decreases s.len(),
{
    if s.len() == 0 {
        0
    } else if s[0].is_folder && has_id(s[0].children, id) {
        0
    } else {
        1 + holder_index(s.skip(1), id)
    }
}

proof fn lemma_holder_index(s: Seq<PinnedView>, id: Seq<char>)
    ensures
        0 <= holder_index(s, id) <= s.len(),
        holder_index(s, id) < s.len() ==> s[holder_index(s, id)].is_folder && has_id(
            s[holder_index(s, id)].children,
            id,
        ),
    decreases s.len(),
{
    if s.len() > 0 && !(s[0].is_folder && has_id(s[0].children, id)) {
        lemma_holder_index(s.skip(1), id);
    }
}

fn find_holder(v: &Vec<PinnedApp>, id: &str) -> (r: usize)
    ensures
        r == holder_index(pinned_views(v@), id@),
        r <= v@.len(),
{
    let mut i: usize = 0;
    let ghost all = pinned_views(v@);
    assert(all.skip(0) =~= all);
    while i < v.len()
        invariant
            i <= v@.len(),
            all == pinned_views(v@),
            holder_index(all, id@) == i + holder_index(all.skip(i as int), id@),
        decreases v@.len() - i,
    {
        proof {
            assert(all.skip(i as int)[0] == v@[i as int]@);
            assert(all.skip(i as int).skip(1) =~= all.skip(i + 1));
            lemma_children_views(v@[i as int]);
        }
        if v[i].is_folder && find_pin(&v[i].children, id) < v[i].children.len() {
            return i;
        }
        i += 1;
    }
    assert(all.skip(i as int).len() == 0);
    i
}

/// The outcome of moving an entry out of its folder: the new list and whether
/// the folder was dissolved, or the message.
pub open spec fn moved_out(s: Seq<PinnedView>, id: Seq<char>) -> Result<
    (Seq<PinnedView>, bool),
    Seq<char>,
> {
    let f = holder_index(s, id);
    if f >= s.len() {
        Err("它不在任何文件夹里"@)
    } else if has_id(s, id) {
        Err("Dock 上已经有它了"@)
    } else {
        let c = pin_index(s[f].children, id);
        let child = s[f].children[c];
        let rest = s[f].children.remove(c);
        if rest.len() == 0 {
            Ok((s.update(f, child), true))
        } else {
            Ok((s.update(f, PinnedView { children: rest, ..s[f] }).insert(f + 1, child), false))
        }
    }
}

/// Moves an entry out of its folder, to the place behind the folder. Where it
/// was the last one, it takes the folder's own place instead. Gives whether the
/// folder was dissolved.
pub fn move_out_of_folder_in(pinned: &mut Vec<PinnedApp>, child_id: &str) -> (r: Result<
    bool,
    String,
>)
    ensures
        match moved_out(pinned_views(old(pinned)@), child_id@) {
            Ok((list, d)) => r is Ok && r->Ok_0 == d && pinned_views(final(pinned)@) == list,
            Err(e) => r is Err && r->Err_0@ == e && pinned_views(final(pinned)@) == pinned_views(
                old(pinned)@,
            ),
        },
{
    let ghost before = pinned_views(pinned@);
    let fi = find_holder(pinned, child_id);
    if fi >= pinned.len() {
        return Err("它不在任何文件夹里".to_owned());
    }
    if find_pin(pinned, child_id) < pinned.len() {
        return Err("Dock 上已经有它了".to_owned());
    }
    proof {
        lemma_holder_index(before, child_id@);
        lemma_children_views(pinned@[fi as int]);
    }
    let mut f = pinned.remove(fi);
    let ghost old_f = f;
    let ci = find_pin(&f.children, child_id);
    let child = f.children.remove(ci);
    let ghost child_view = child@;
    proof {
        lemma_children_views(old_f);
        lemma_children_views(f);
        assert(f@.children =~= old_f@.children.remove(ci as int));
        assert(child_view == old_f@.children[ci as int]);
    }
    if f.children.len() == 0 {
        pinned.insert(fi, child);
        assert(pinned_views(pinned@) =~= before.update(fi as int, child_view));
        return Ok(true);
    }
    let ghost new_f = PinnedView {
        children: before[fi as int].children.remove(ci as int),
        ..before[fi as int]
    };
    assert(f@ =~= new_f);
    pinned.insert(fi, f);
    let ghost mid = pinned_views(pinned@);
    assert(mid =~= before.update(fi as int, new_f));
    pinned.insert(fi + 1, child);
    assert(pinned_views(pinned@) =~= mid.insert(fi + 1, child_view));
    Ok(false)
}

// ---------------------------------------------------------------- adding and removing

/// The entries whose identity is another.
pub open spec fn without_id(s: Seq<PinnedView>, id: Seq<char>) -> Seq<PinnedView> {
    s.filter(|p: PinnedView| p.id != id)
}

/// A folder without the entries of an identity; anything else as it is.
pub open spec fn purged(p: PinnedView, id: Seq<char>) -> PinnedView {
    if p.is_folder {
        PinnedView { children: without_id(p.children, id), ..p }
    } else {
        p
    }
}

/// The list without the entries of an identity, at the top and in the folders.
pub open spec fn removed(s: Seq<PinnedView>, id: Seq<char>) -> Seq<PinnedView> {
    without_id(s, id).map_values(|p: PinnedView| purged(p, id))
}

/// An entry with that identity stands at the top or in a folder.
pub open spec fn listed(s: Seq<PinnedView>, id: Seq<char>) -> bool {
    has_id(s, id) || exists|i: int|
        0 <= i < s.len() && (#[trigger] s[i]).is_folder && has_id(s[i].children, id)
}

proof fn lemma_filter_step(s: Seq<PinnedView>, i: int, id: Seq<char>)
    requires
        0 <= i < s.len(),
    ensures
        without_id(s.take(i + 1), id) == if s[i].id != id {
            without_id(s.take(i), id).push(s[i])
        } else {
            without_id(s.take(i), id)
        },
{
    reveal(Seq::filter);
    assert(s.take(i + 1).drop_last() =~= s.take(i));
}

proof fn lemma_without_id_len(s: Seq<PinnedView>, id: Seq<char>)
    ensures
        without_id(s, id).len() <= s.len(),
        without_id(s, id).len() == s.len() <==> !has_id(s, id),
        !has_id(s, id) ==> without_id(s, id) == s,
    decreases s.len(),
{
    reveal(Seq::filter);
    if s.len() > 0 {
        let t = s.drop_last();
        lemma_without_id_len(t, id);
        assert(s =~= t.push(s.last()));
        if has_id(t, id) {
            let i = choose|i: int| 0 <= i < t.len() && (#[trigger] t[i]).id == id;
            assert(s[i].id == id);
        }
        if has_id(s, id) && s.last().id != id {
            let i = choose|i: int| 0 <= i < s.len() && (#[trigger] s[i]).id == id;
            assert(t[i].id == id);
        }
        if s.last().id == id {
            assert(s[s.len() - 1].id == id);
        }
    }
}

/// Drops the entries with that identity from one list. Gives whether there
/// were any.
fn retain_others(v: &mut Vec<PinnedApp>, id: &str) -> (r: bool)
    ensures
        pinned_views(final(v)@) == without_id(pinned_views(old(v)@), id@),
        r == has_id(pinned_views(old(v)@), id@),
{
    let ghost before = pinned_views(v@);
    let mut rest: Vec<PinnedApp> = Vec::new();
    let mut hit = false;
    let mut i: usize = 0;
    proof {
        reveal(Seq::filter);
        assert(before.take(0) =~= Seq::empty());
        assert(pinned_views(rest@) =~= Seq::empty());
    }
    while i < v.len()
        invariant
            i <= v@.len(),
            before == pinned_views(v@),
            *v == *old(v),
            pinned_views(rest@) == without_id(before.take(i as int), id@),
            hit <==> has_id(before.take(i as int), id@),
        decreases v@.len() - i,
    {
        let ghost sofar = pinned_views(rest@);
        proof {
            lemma_filter_step(before, i as int, id@);
            assert(before[i as int] == v@[i as int]@);
            let t = before.take(i as int);
            let u = before.take(i + 1);
            assert(u =~= t.push(before[i as int]));
            if has_id(t, id@) {
                let k = choose|k: int| 0 <= k < t.len() && (#[trigger] t[k]).id == id@;
                assert(u[k].id == id@);
            }
            if has_id(u, id@) && before[i as int].id != id@ {
                let k = choose|k: int| 0 <= k < u.len() && (#[trigger] u[k]).id == id@;
                assert(t[k].id == id@);
            }
            if before[i as int].id == id@ {
                assert(u[i as int].id == id@);
            }
        }
        if text::same(v[i].id.as_str(), id) {
            hit = true;
        } else {
            let p = v[i].clone();
            rest.push(p);
            assert(pinned_views(rest@) =~= sofar.push(before[i as int]));
        }
        i += 1;
    }
    assert(before.take(i as int) =~= before);
    *v = rest;
    hit
}

/// Removes an entry from the dock, at the top and in the folders. Gives whether
/// anything was removed.
pub fn remove(pinned: &mut Vec<PinnedApp>, id: &str) -> (r: bool)
    ensures
        pinned_views(final(pinned)@) == removed(pinned_views(old(pinned)@), id@),
        r == listed(pinned_views(old(pinned)@), id@),
{
    let ghost before = pinned_views(pinned@);
    let mut hit = retain_others(pinned, id);
    let ghost top = pinned_views(pinned@);
    let mut i: usize = 0;
    let ghost top_hit = hit;
    while i < pinned.len()
        invariant
            i <= pinned@.len(),
            pinned@.len() == top.len(),
            forall|k: int| 0 <= k < i ==> (#[trigger] pinned@[k])@ == purged(top[k], id@),
            forall|k: int| i <= k < top.len() ==> (#[trigger] pinned@[k])@ == top[k],
            hit <==> top_hit || exists|k: int|
                0 <= k < i && (#[trigger] top[k]).is_folder && has_id(top[k].children, id@),
        decreases pinned@.len() - i,
    {
        if pinned[i].is_folder {
            let ghost list = pinned@;
            let mut f = pinned.remove(i);
            let ghost old_f = f;
            proof {
                lemma_children_views(f);
            }
            let h = retain_others(&mut f.children, id);
            proof {
                lemma_children_views(f);
                assert(old_f@ == top[i as int]);
                assert(f@ =~= purged(top[i as int], id@));
            }
            if h {
                hit = true;
            }
            pinned.insert(i, f);
            assert forall|k: int| 0 <= k < pinned@.len() && k != i implies (
            #[trigger] pinned@[k]) == list[k] by {}
        }
        i += 1;
    }
    proof {
        assert(pinned_views(pinned@) =~= removed(before, id@));
        lemma_without_id_len(before, id@);
        if !has_id(before, id@) {
            assert(top == before);
        }
    }
    hit
}

/// Removes an entry from the top of the dock. Gives whether there was one.
pub fn unpin(pinned: &mut Vec<PinnedApp>, id: &str) -> (r: bool)
    ensures
        pinned_views(final(pinned)@) == without_id(pinned_views(old(pinned)@), id@),
        r == has_id(pinned_views(old(pinned)@), id@),
{
    retain_others(pinned, id)
}

/// Removes an entry from the top of the dock. Gives whether there was one.
pub fn unpin_top(pinned: &mut Vec<PinnedApp>, id: &str) -> (r: bool)
    ensures
        pinned_views(final(pinned)@) == without_id(pinned_views(old(pinned)@), id@),
        r == has_id(pinned_views(old(pinned)@), id@),
{
    unpin(pinned, id)
}

/// The list with an entry at its end, unless its identity is there already.
pub open spec fn pinned_with(s: Seq<PinnedView>, e: PinnedView) -> Seq<PinnedView> {
    if has_id(s, e.id) {
        s
    } else {
        s.push(e)
    }
}

/// Puts an entry at the end of the dock. One that is at the top already is
/// ignored. Gives whether the list changed.
pub fn pin(pinned: &mut Vec<PinnedApp>, entry: PinnedApp) -> (r: bool)
    ensures
        pinned_views(final(pinned)@) == pinned_with(pinned_views(old(pinned)@), entry@),
        r == !has_id(pinned_views(old(pinned)@), entry@.id),
{
    if find_pin(pinned, entry.id.as_str()) < pinned.len() {
        return false;
    }
    let ghost before = pinned_views(pinned@);
    pinned.push(entry);
    assert(pinned_views(pinned@) =~= before.push(entry@));
    true
}

/// The list with an entry at its left: the one that is there already, or else
/// the new one.
pub open spec fn at_left(s: Seq<PinnedView>, e: PinnedView) -> Seq<PinnedView> {
    let i = pin_index(s, e.id);
    if i < s.len() {
        seq![s[i]] + s.remove(i)
    } else {
        seq![e] + s
    }
}

/// An ordinary entry.
pub open spec fn plain_entry(id: Seq<char>, name: Seq<char>, target: Seq<char>) -> PinnedView {
    PinnedView {
        id,
        display_name: name,
        target,
        separator: false,
        is_folder: false,
        children: Seq::empty(),
    }
}

/// Puts a path at the left of the dock. One that is at the top already moves
/// there. Gives its identity.
pub fn add_pinned_at_left(pinned: &mut Vec<PinnedApp>, target: &str, display_name: &str) -> (r:
    String)
    ensures
        r@ == target_id(target@),
        pinned_views(final(pinned)@) == at_left(
            pinned_views(old(pinned)@),
            plain_entry(target_id(target@), display_name@, target@),
        ),
{
    let ghost before = pinned_views(pinned@);
    let id = apps::id_for_target(target);
    let i = find_pin(pinned, id.as_str());
    if i < pinned.len() {
        let e = pinned.remove(i);
        pinned.insert(0, e);
        assert(pinned_views(pinned@) =~= seq![before[i as int]] + before.remove(i as int));
    } else {
        let e = PinnedApp {
            id: id.clone(),
            display_name: display_name.to_owned(),
            target: target.to_owned(),
            separator: false,
            is_folder: false,
            children: Vec::new(),
        };
        assert(e@.children =~= Seq::empty());
        pinned.insert(0, e);
        assert(pinned_views(pinned@) =~= seq![
            plain_entry(id@, display_name@, target@),
        ] + before);
    }
    id
}

/// The name of a system location: the system's own, else a fixed one.
pub open spec fn location_name(target: Seq<char>, shell_name: Option<Seq<char>>) -> Seq<char> {
    match shell_name {
        Some(n) => n,
        None => apps::fallback_name(target),
    }
}

/// Puts a system location at the left of the dock. One that is at the top
/// already moves there. Gives its identity. Anything else is refused, also other
/// places of the shell.
pub fn add_system_location(
    pinned: &mut Vec<PinnedApp>,
    target: &str,
    shell_name: &Option<String>,
) -> (r: Result<String, String>)
    ensures
        system_location(target@) ==> {
            &&& r is Ok
            &&& r->Ok_0@ == target_id(target@)
            &&& pinned_views(final(pinned)@) == at_left(
                pinned_views(old(pinned)@),
                plain_entry(
                    target_id(target@),
                    location_name(target@, opt_view(*shell_name)),
                    target@,
                ),
            )
        },
        !system_location(target@) ==> {
            &&& r is Err
            &&& r->Err_0@ == "不是系统位置: "@ + target@
            &&& pinned_views(final(pinned)@) == pinned_views(old(pinned)@)
        },
{
    if !apps::is_system_location(target) {
        return Err(text::concat("不是系统位置: ", target));
    }
    let name = match shell_name {
        Some(n) => n.clone(),
        None => apps::fallback_name_for(target),
    };
    Ok(add_pinned_at_left(pinned, target, name.as_str()))
}

/// Puts the folder for temporary files at the left of the dock.
pub fn add_temp_folder(pinned: &mut Vec<PinnedApp>, directory: &str) -> (r: String)
    ensures
        r@ == target_id(directory@),
        pinned_views(final(pinned)@) == at_left(
            pinned_views(old(pinned)@),
            plain_entry(target_id(directory@), TEMP_FOLDER_NAME@, directory@),
        ),
{
    add_pinned_at_left(pinned, directory, TEMP_FOLDER_NAME)
}

/// A separator.
pub open spec fn separator_entry(id: Seq<char>) -> PinnedView {
    PinnedView {
        id,
        display_name: Seq::empty(),
        target: Seq::empty(),
        separator: true,
        is_folder: false,
        children: Seq::empty(),
    }
}

fn new_separator(id: String) -> (r: PinnedApp)
    ensures
        r@ == separator_entry(id@),
{
    let r = PinnedApp {
        id,
        display_name: String::new(),
        target: String::new(),
        separator: true,
        is_folder: false,
        children: Vec::new(),
    };
    assert(r@ =~= separator_entry(id@)) by {
        assert(r@.children =~= Seq::empty());
    }
    r
}

/// The list with a new separator behind an entry, or at the end where there is
/// no such entry.
pub open spec fn separated(s: Seq<PinnedView>, after: Option<Seq<char>>, ms: u64) -> Seq<
    PinnedView,
> {
    let e = separator_entry(free_id(s, "sep"@, ms));
    if after is Some && pin_index(s, after->0) < s.len() {
        s.insert(pin_index(s, after->0) + 1, e)
    } else {
        s.push(e)
    }
}

/// Adds a separator behind an entry, or at the end where there is no such
/// entry. Gives its identity.
pub fn add_separator(pinned: &mut Vec<PinnedApp>, after: &Option<String>, ms: u64) -> (r: String)
    ensures
        r@ == free_id(pinned_views(old(pinned)@), "sep"@, ms),
        pinned_views(final(pinned)@) == separated(
            pinned_views(old(pinned)@),
            opt_view(*after),
            ms,
        ),
{
    let ghost before = pinned_views(pinned@);
    let id = next_id(pinned, "sep", ms);
    let e = new_separator(id.clone());
    if let Some(a) = after {
        let i = find_pin(pinned, a.as_str());
        if i < pinned.len() {
            pinned.insert(i + 1, e);
            assert(pinned_views(pinned@) =~= before.insert(i + 1, separator_entry(id@)));
            return id;
        }
    }
    pinned.push(e);
    assert(pinned_views(pinned@) =~= before.push(separator_entry(id@)));
    id
}

// ---------------------------------------------------------------- order

/// The position at which an order first names an entry that is not there or
/// was named before, or the length.
pub open spec fn bad_index(s: Seq<PinnedView>, ids: Seq<Seq<char>>, from: int) -> int
    decreases ids.len() - from,
{
    if from < 0 || from >= ids.len() {
        ids.len() as int
    } else if !has_id(s, ids[from]) || ids.take(from).contains(ids[from]) {
        from
    } else {
        bad_index(s, ids, from + 1)
    }
}

/// The outcome of reordering the dock: the new list, or the message.
pub open spec fn reordered(s: Seq<PinnedView>, ids: Seq<Seq<char>>) -> Result<
    Seq<PinnedView>,
    Seq<char>,
> {
    let bad = bad_index(s, ids, 0);
    if ids.len() != s.len() {
        Err(
            "顺序长度不符（收到 "@ + decimal(ids.len()) + "，实际 "@ + decimal(s.len()) + "）"@,
        )
    } else if bad < ids.len() {
        Err("顺序里有不存在的项，或重复项: "@ + ids[bad])
    } else {
        Ok(Seq::new(ids.len(), |i: int| s[pin_index(s, ids[i])]))
    }
}

fn named_before(ids: &Vec<String>, i: usize) -> (r: bool)
    requires
        i < ids@.len(),
    ensures
        r == text_views(ids@).take(i as int).contains(ids@[i as int]@),
{
    let ghost all = text_views(ids@);
    let mut k: usize = 0;
    while k < i
        invariant
            k <= i < ids@.len(),
            all == text_views(ids@),
            forall|j: int| 0 <= j < k ==> all[j] != all[i as int],
        decreases i - k,
    {
        if text::same(ids[k].as_str(), ids[i].as_str()) {
            assert(all.take(i as int)[k as int] == all[i as int]);
            return true;
        }
        k += 1;
    }
    false
}

/// Puts the entries of the dock into a given order. The order has to name each
/// entry exactly once; otherwise nothing changes.
pub fn reorder(pinned: &mut Vec<PinnedApp>, ids: &Vec<String>) -> (r: Result<(), String>)
    ensures
        match reordered(pinned_views(old(pinned)@), text_views(ids@)) {
            Ok(list) => r is Ok && pinned_views(final(pinned)@) == list,
            Err(e) => r is Err && r->Err_0@ == e && pinned_views(final(pinned)@) == pinned_views(
                old(pinned)@,
            ),
        },
{
    let ghost before = pinned_views(pinned@);
    let ghost order = text_views(ids@);
    if ids.len() != pinned.len() {
        let mut m = text::concat3(
            "顺序长度不符（收到 ",
            text::decimal_string(ids.len() as u64).as_str(),
            "，实际 ",
        );
        m.append(text::decimal_string(pinned.len() as u64).as_str());
        m.append("）");
        return Err(m);
    }
    let mut next: Vec<PinnedApp> = Vec::new();
    let mut i: usize = 0;
    while i < ids.len()
        invariant
            i <= ids@.len(),
            *pinned == *old(pinned),
            before == pinned_views(pinned@),
            order == text_views(ids@),
            ids@.len() == pinned@.len(),
            next@.len() == i,
            bad_index(before, order, 0) == bad_index(before, order, i as int),
            forall|k: int|
                0 <= k < i ==> (#[trigger] next@[k])@ == before[pin_index(before, order[k])],
        decreases ids@.len() - i,
    {
        let k = find_pin(pinned, ids[i].as_str());
        if k >= pinned.len() || named_before(ids, i) {
            return Err(text::concat("顺序里有不存在的项，或重复项: ", ids[i].as_str()));
        }
        next.push(pinned[k].clone());
        i += 1;
    }
    *pinned = next;
    assert(pinned_views(pinned@) =~= Seq::new(
        order.len(),
        |i: int| before[pin_index(before, order[i])],
    ));
    Ok(())
}

// ---------------------------------------------------------------- the first list

/// How an entry of the first list is found on a machine.
#[derive(Debug)]
pub enum PinRule {
    /// A program of the system, below the system's root directory.
    SystemExe(&'static str),
    /// A place in the shell's name space.
    ShellLocation(&'static str),
    /// A program that registered its path, by file name.
    Program(&'static str),
    /// An application of a package: the package family and the application.
    Package(&'static str, &'static str),
}

/// The contents of a `PinRule`.
pub enum RuleView {
    SystemExe(Seq<char>),
    ShellLocation(Seq<char>),
    Program(Seq<char>),
    Package(Seq<char>, Seq<char>),
}

impl View for PinRule {
    type V = RuleView;

    open spec fn view(&self) -> RuleView {
        match *self {
            PinRule::SystemExe(s) => RuleView::SystemExe(s@),
            PinRule::ShellLocation(s) => RuleView::ShellLocation(s@),
            PinRule::Program(s) => RuleView::Program(s@),
            PinRule::Package(f, a) => RuleView::Package(f@, a@),
        }
    }
}

/// The rules of the first list, from left to right.
pub open spec fn default_rules() -> Seq<RuleView> {
    seq![
        RuleView::ShellLocation("shell:MyComputerFolder"@),
        RuleView::ShellLocation("shell:RecycleBinFolder"@),
        RuleView::SystemExe("explorer.exe"@),
        RuleView::Program("msedge.exe"@),
        RuleView::Program("chrome.exe"@),
        RuleView::Program("firefox.exe"@),
        RuleView::Program("wt.exe"@),
        RuleView::Package("Microsoft.WindowsTerminal_8wekyb3d8bbwe"@, "App"@),
        RuleView::Package(
            "windows.immersivecontrolpanel_cw5n1h2txyewy"@,
            "microsoft.windows.immersivecontrolpanel"@,
        ),
    ]
}

/// The rules of the first list, from left to right.
pub fn default_pin_rules() -> (r: Vec<PinRule>)
    ensures
        r@.len() == default_rules().len(),
        forall|i: int| 0 <= i < r@.len() ==> (#[trigger] r@[i])@ == default_rules()[i],
{
    let mut r: Vec<PinRule> = Vec::new();
    r.push(PinRule::ShellLocation("shell:MyComputerFolder"));
    r.push(PinRule::ShellLocation("shell:RecycleBinFolder"));
    r.push(PinRule::SystemExe("explorer.exe"));
    r.push(PinRule::Program("msedge.exe"));
    r.push(PinRule::Program("chrome.exe"));
    r.push(PinRule::Program("firefox.exe"));
    r.push(PinRule::Program("wt.exe"));
    r.push(PinRule::Package("Microsoft.WindowsTerminal_8wekyb3d8bbwe", "App"));
    r.push(
        PinRule::Package(
            "windows.immersivecontrolpanel_cw5n1h2txyewy",
            "microsoft.windows.immersivecontrolpanel",
        ),
    );
    r
}

/// The launch target that a rule leads to, given what the machine answered for
/// its program.
pub fn rule_target(rule: &PinRule, installed: Option<String>) -> (r: Option<String>)
    ensures
        opt_view(r) == match rule@ {
            RuleView::SystemExe(_) => opt_view(installed),
            RuleView::Program(_) => opt_view(installed),
            RuleView::ShellLocation(t) => Some(t),
            RuleView::Package(f, a) => Some(apps::APPS_FOLDER_PREFIX@ + f + "!"@ + a),
        },
{
    match rule {
        PinRule::SystemExe(_) => installed,
        PinRule::Program(_) => installed,
        PinRule::ShellLocation(t) => Some((*t).to_owned()),
        PinRule::Package(f, a) => Some(apps::package_target(f, a)),
    }
}

/// What a rule came to on this machine.
#[derive(Debug)]
pub struct FoundTarget {
    /// The launch target, where the rule led to one.
    pub target: Option<String>,
    /// Whether the shell knows it.
    pub exists: bool,
    /// Its name.
    pub name: String,
}

/// The contents of a `FoundTarget`.
pub struct FoundView {
    pub target: Option<Seq<char>>,
    pub exists: bool,
    pub name: Seq<char>,
}

impl View for FoundTarget {
    type V = FoundView;

    open spec fn view(&self) -> FoundView {
        FoundView { target: opt_view(self.target), exists: self.exists, name: self.name@ }
    }
}

/// The contents of a list of what rules came to.
pub open spec fn found_views(s: Seq<FoundTarget>) -> Seq<FoundView> {
    Seq::new(s.len(), |i: int| s[i]@)
}

/// What was found can be an entry: there is a target, it exists, and it can be
/// launched directly.
pub open spec fn seedable(f: FoundView) -> bool {
    f.target is Some && f.exists && !windowsapps_path(f.target->0)
}

/// The entries of the first list without the separator: one for each target
/// that was found, an identity only once.
pub open spec fn seed_entries(fs: Seq<FoundView>) -> Seq<PinnedView>
    decreases fs.len(),
{
    if fs.len() == 0 {
        Seq::empty()
    } else {
        let s = seed_entries(fs.drop_last());
        let f = fs.last();
        if seedable(f) {
            pinned_with(s, plain_entry(target_id(f.target->0), f.name, f.target->0))
        } else {
            s
        }
    }
}

/// The entry belongs to the system rather than to the applications.
pub open spec fn system_entry(p: PinnedView) -> bool {
    shell_target(p.target) || "explorer.exe"@.is_suffix_of(lowercase(p.target))
}

/// The position of the first application, or the length.
pub open spec fn first_app(s: Seq<PinnedView>) -> int
    decreases s.len(),
{
    if s.len() == 0 {
        0
    } else if !system_entry(s[0]) {
        0
    } else {
        1 + first_app(s.skip(1))
    }
}

/// The first list: what was found, with a separator in front of the first
/// application where entries of the system stand before it. No separator stands
/// at an end of the list.
pub open spec fn seeded(fs: Seq<FoundView>, ms: u64) -> Seq<PinnedView> {
    let s = seed_entries(fs);
    if 0 < first_app(s) < s.len() {
        s.insert(first_app(s), separator_entry(free_id(Seq::empty(), "sep"@, ms)))
    } else {
        s
    }
}

fn is_system_entry(p: &PinnedApp) -> (r: bool)
    ensures
        r == system_entry(p@),
{
    apps::is_shell_target(p.target.as_str()) || text::ends_with(
        p.target.as_str().to_lowercase().as_str(),
        "explorer.exe",
    )
}

fn find_app(v: &Vec<PinnedApp>) -> (r: usize)
    ensures
        r == first_app(pinned_views(v@)),
        r <= v@.len(),
{
    let ghost all = pinned_views(v@);
    let mut at: usize = v.len();
    let mut i: usize = v.len();
    assert(all.skip(i as int) =~= Seq::empty());
    while i > 0
        invariant
            i <= at <= v@.len(),
            all == pinned_views(v@),
            at == i + first_app(all.skip(i as int)),
        decreases i,
    {
        i -= 1;
        assert(all.skip(i as int)[0] == v@[i as int]@);
        assert(all.skip(i as int).skip(1) =~= all.skip(i + 1));
        if !is_system_entry(&v[i]) {
            at = i;
        }
    }
    assert(all.skip(0) =~= all);
    at
}

/// Fills an empty dock with what the rules came to on this machine. Gives how
/// many entries it got; a dock that has entries stays as it is.
pub fn seed_default_pins(pinned: &mut Vec<PinnedApp>, found: &Vec<FoundTarget>, ms: u64) -> (r:
    usize)
    ensures
        old(pinned)@.len() > 0 ==> r == 0 && pinned_views(final(pinned)@) == pinned_views(
            old(pinned)@,
        ),
        old(pinned)@.len() == 0 ==> {
            &&& pinned_views(final(pinned)@) == seeded(found_views(found@), ms)
            &&& r == seeded(found_views(found@), ms).len()
        },
{
    if pinned.len() > 0 {
        return 0;
    }
    let ghost fs = found_views(found@);
    let mut pins: Vec<PinnedApp> = Vec::new();
    let mut i: usize = 0;
    assert(fs.take(0) =~= Seq::empty());
    assert(pinned_views(pins@) =~= Seq::empty());
    while i < found.len()
        invariant
            i <= found@.len(),
            fs == found_views(found@),
            pinned_views(pins@) == seed_entries(fs.take(i as int)),
        decreases found@.len() - i,
    {
        let f = &found[i];
        proof {
            assert(fs.take(i + 1).drop_last() =~= fs.take(i as int));
            assert(fs.take(i + 1).last() == f@);
        }
        if let Some(target) = &f.target {
            if f.exists && !apps::is_windowsapps_path(target.as_str()) {
                let e = PinnedApp {
                    id: apps::id_for_target(target.as_str()),
                    display_name: f.name.clone(),
                    target: target.clone(),
                    separator: false,
                    is_folder: false,
                    children: Vec::new(),
                };
                assert(e@.children =~= Seq::empty());
                assert(e@ =~= plain_entry(target_id(target@), f.name@, target@));
                let _ = pin(&mut pins, e);
            }
        }
        i += 1;
    }
    assert(fs.take(i as int) =~= fs);
    let at = find_app(&pins);
    let ghost before = pinned_views(pins@);
    if 0 < at && at < pins.len() {
        let none: Vec<PinnedApp> = Vec::new();
        assert(pinned_views(none@) =~= Seq::empty());
        let id = next_id(&none, "sep", ms);
        pins.insert(at, new_separator(id));
        assert(pinned_views(pins@) =~= before.insert(at as int, separator_entry(id@)));
    }
    let n: usize = pins.len();
    *pinned = pins;
    n
}

// ---------------------------------------------------------------- preferences

/// What the user can set, apart from the magnification.
#[derive(Debug)]
pub struct Preferences {
    /// Hide when the mouse leaves.
    pub auto_hide: bool,
    /// How long after the mouse left, in milliseconds.
    pub hide_delay_ms: u64,
    /// The side of an icon, in logical pixels.
    pub icon_size: u32,
    /// The height of the panel, in logical pixels.
    pub panel_height: u32,
    /// The gap between icons, in logical pixels.
    pub icon_gap: u32,
    /// Show which applications run.
    pub show_running_indicators: bool,
    /// Leave room for the task bar.
    pub reserve_taskbar: bool,
    /// The distance from the bottom, in logical pixels.
    pub bottom_offset: u32,
    /// Start with the system.
    pub launch_at_login: bool,
    /// The tint of the glass.
    pub glass_alpha: u8,
    pub glass_rgb: [u8; 3],
    /// The entries of the dock, in order.
    pub pinned: Vec<PinnedApp>,
}

impl Default for Preferences {
    fn default() -> (r: Self)
        ensures
            !r.auto_hide,
            r.hide_delay_ms == 420,
            r.icon_size == 44,
            r.panel_height == 72,
            r.icon_gap == 10,
            r.show_running_indicators,
            r.reserve_taskbar,
            r.bottom_offset == 0,
            !r.launch_at_login,
            r.glass_alpha == 150,
            r.glass_rgb@ == seq![24u8, 24u8, 28u8],
            r.pinned@.len() == 0,
    {
        let glass_rgb: [u8; 3] = [24, 24, 28];
        assert(glass_rgb@ =~= seq![24u8, 24u8, 28u8]);
        Preferences {
            auto_hide: false,
            hide_delay_ms: 420,
            icon_size: 44,
            panel_height: 72,
            icon_gap: 10,
            show_running_indicators: true,
            reserve_taskbar: true,
            bottom_offset: 0,
            launch_at_login: false,
            glass_alpha: 150,
            glass_rgb,
            pinned: Vec::new(),
        }
    }
}

/// Where the configuration lies.
#[derive(Debug)]
pub enum ConfigPlace {
    /// `config.json` in this directory.
    InDirectory(String),
    /// This file in the working directory.
    File(&'static str),
}

/// Where the configuration lies: in the directory that the environment names,
/// else in the application's own, else in the working directory.
pub fn config_path(redirected: &Option<String>, app_dir: &Option<String>) -> (r: ConfigPlace)
    ensures
        match (opt_view(*redirected), opt_view(*app_dir)) {
            (Some(d), _) => r is InDirectory && r->InDirectory_0@ == d,
            (None, Some(d)) => r is InDirectory && r->InDirectory_0@ == d,
            (None, None) => r is File && r->File_0@ == "dock-config.json"@,
        },
{
    match redirected {
        Some(d) => ConfigPlace::InDirectory(d.clone()),
        None => match app_dir {
            Some(d) => ConfigPlace::InDirectory(d.clone()),
            None => ConfigPlace::File("dock-config.json"),
        },
    }
}

/// The directory of the configuration.
pub fn config_dir(redirected: &Option<String>, app_dir: &Option<String>) -> (r: String)
    ensures
        r@ == match (opt_view(*redirected), opt_view(*app_dir)) {
            (Some(d), _) => d,
            (None, Some(d)) => d,
            (None, None) => "."@,
        },
{
    match redirected {
        Some(d) => d.clone(),
        None => match app_dir {
            Some(d) => d.clone(),
            None => ".".to_owned(),
        },
    }
}

/// Which data of the former identifier has to be brought over.
#[derive(Debug, Clone, Copy, PartialEq, Eq, Structural)]
pub struct MigrationPlan {
    /// Copy the former configuration to the new place.
    pub copy_config: bool,
    /// Bring the paths inside the configuration up to date.
    pub rewrite_paths: bool,
    /// Copy the former folder for temporary files.
    pub copy_temp: bool,
}

/// Which data of the former identifier has to be brought over: nothing where the
/// configuration is redirected, and only what is at the former place and not yet
/// at the new one. Paths are brought up to date every time.
pub fn plan_migration(
    redirected: bool,
    new_config_exists: bool,
    old_config_exists: bool,
    local_data_known: bool,
    new_temp_exists: bool,
    old_temp_exists: bool,
) -> (r: MigrationPlan)
    ensures
        r.copy_config == (!redirected && !new_config_exists && old_config_exists),
        r.rewrite_paths == (!redirected && local_data_known),
        r.copy_temp == (!redirected && local_data_known && !new_temp_exists && old_temp_exists),
{
    MigrationPlan {
        copy_config: !redirected && !new_config_exists && old_config_exists,
        rewrite_paths: !redirected && local_data_known,
        copy_temp: !redirected && local_data_known && !new_temp_exists && old_temp_exists,
    }
}

/// The name that the user is offered for a folder that gets a new one: its
/// present name, or the default where it is not at the top.
pub fn rename_prompt_name(pinned: &Vec<PinnedApp>, folder_id: &str) -> (r: String)
    ensures
        r@ == {
            let s = pinned_views(pinned@);
            let i = pin_index(s, folder_id@);
            if i < s.len() {
                s[i].display_name
            } else {
                DEFAULT_FOLDER_NAME@
            }
        },
{
    let i = find_pin(pinned, folder_id);
    if i < pinned.len() {
        pinned[i].display_name.clone()
    } else {
        DEFAULT_FOLDER_NAME.to_owned()
    }
}

} // verus!
