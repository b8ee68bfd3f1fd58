//! Files dropped on the dock: what they stand for, and what is said about them.

use vstd::prelude::*;
use vstd::string::*;
use crate::apps;
use crate::apps::target_id;
use crate::json;
use crate::json::json_literal;
use crate::model::{pinned_views, PinnedApp, PinnedView};
use crate::store;
use crate::store::{has_id, plain_entry};
use crate::text;
use crate::text::{decimal, lowercase, opt_view, without_prefix};

verus! {

/// What became of a dropped file.
#[derive(Debug)]
pub enum Outcome {
    /// It is on the dock now.
    Added { name: String, running: bool },
    /// It was on the dock before.
    Already { name: String },
    /// It was not accepted.
    Rejected { name: String, why: String },
}

/// The contents of an `Outcome`.
#[verifier::ext_equal]
pub enum OutcomeView {
    Added { name: Seq<char>, running: bool },
    Already { name: Seq<char> },
    Rejected { name: Seq<char>, why: Seq<char> },
}

impl View for Outcome {
    type V = OutcomeView;

    open spec fn view(&self) -> OutcomeView {
        match *self {
            Outcome::Added { name, running } => OutcomeView::Added { name: name@, running },
            Outcome::Already { name } => OutcomeView::Already { name: name@ },
            Outcome::Rejected { name, why } => OutcomeView::Rejected { name: name@, why: why@ },
        }
    }
}

/// The contents of a list of outcomes.
pub open spec fn outcome_views(s: Seq<Outcome>) -> Seq<OutcomeView> {
    Seq::new(s.len(), |i: int| s[i]@)
}

/// What a file is, by its extension.
#[derive(Debug, Clone, Copy, PartialEq, Eq, Structural)]
pub enum FileKind {
    Program,
    Link,
    /// A shortcut to an address.
    UrlShortcut,
    /// It has no extension, as a folder.
    Folder,
    Other,
}

/// What a file is, by its extension.
pub open spec fn kind_of(extension: Option<Seq<char>>) -> FileKind {
    let e = lowercase(
        match extension {
            Some(e) => e,
            None => Seq::empty(),
        },
    );
    if e == "exe"@ {
        FileKind::Program
    } else if e == "lnk"@ {
        FileKind::Link
    } else if e == "url"@ {
        FileKind::UrlShortcut
    } else if e.len() == 0 {
        FileKind::Folder
    } else {
        FileKind::Other
    }
}

/// What a file is, by its extension.
pub fn file_kind(extension: &Option<String>) -> (r: FileKind)
    ensures
        r == kind_of(opt_view(*extension)),
{
    let e: String = match extension {
        Some(e) => e.as_str().to_lowercase(),
        None => {
            let r = "".to_lowercase();
            proof {
                reveal_strlit("");
                assert(""@ =~= Seq::<char>::empty());
            }
            r
        },
    };
    if text::same(e.as_str(), "exe") {
        FileKind::Program
    } else if text::same(e.as_str(), "lnk") {
        FileKind::Link
    } else if text::same(e.as_str(), "url") {
        FileKind::UrlShortcut
    } else if e.as_str().is_empty() {
        FileKind::Folder
    } else {
        FileKind::Other
    }
}

/// A result over texts, by its contents.
pub open spec fn answer_view(r: Result<String, String>) -> Result<Seq<char>, Seq<char>> {
    match r {
        Ok(s) => Ok(s@),
        Err(e) => Err(e@),
    }
}

/// What launching a file opens: `link` is what a link leads to, `url` the
/// address in a shortcut; each is looked at for such a file only.
pub open spec fn launchable(
    path: Seq<char>,
    present: bool,
    extension: Option<Seq<char>>,
    link: Result<Seq<char>, Seq<char>>,
    url: Option<Seq<char>>,
) -> Result<Seq<char>, Seq<char>> {
    if !present {
        Err("路径不存在"@)
    } else {
        match kind_of(extension) {
            FileKind::Program => Ok(path),
            FileKind::Link => link,
            FileKind::UrlShortcut => if url is Some {
                Ok(path)
            } else {
                Err("这个 .url 里没有 URL"@)
            },
            FileKind::Folder => Err("文件夹不能添加"@),
            FileKind::Other => Err("只接受 .exe / .lnk / .url"@),
        }
    }
}

/// What launching a file opens, or why it cannot be added.
pub fn resolve_target(
    path: &str,
    present: bool,
    extension: &Option<String>,
    link: Result<String, String>,
    url: &Option<String>,
) -> (r: Result<String, String>)
    ensures
        answer_view(r) == launchable(
            path@,
            present,
            opt_view(*extension),
            answer_view(link),
            opt_view(*url),
        ),
{
    if !present {
        return Err("路径不存在".to_owned());
    }
    match file_kind(extension) {
        FileKind::Program => Ok(path.to_owned()),
        FileKind::Link => link,
        FileKind::UrlShortcut => match url {
            Some(_) => Ok(path.to_owned()),
            None => Err("这个 .url 里没有 URL".to_owned()),
        },
        FileKind::Folder => Err("文件夹不能添加".to_owned()),
        FileKind::Other => Err("只接受 .exe / .lnk / .url".to_owned()),
    }
}

/// How long the text in a buffer is that a zero ends; nothing where no zero
/// stands in it.
pub open spec fn ended_length(b: Seq<u16>) -> int {
    let i = zero_index(b);
    if i < b.len() {
        i
    } else {
        0
    }
}

/// The position of the first zero, or the length.
pub open spec fn zero_index(b: Seq<u16>) -> int
    decreases b.len(),
{
    if b.len() == 0 || b[0] == 0 {
        0
    } else {
        1 + zero_index(b.skip(1))
    }
}

/// How long the text in a buffer is that a zero ends.
pub fn buffer_length(b: &[u16]) -> (r: usize)
    ensures
        r == ended_length(b@),
        r <= b@.len(),
{
    let n: usize = b.len();
    let mut i: usize = 0;
    assert(b@.skip(0) =~= b@);
    while i < n && b[i] != 0
        invariant
            i <= n == b@.len(),
            zero_index(b@) == i + zero_index(b@.skip(i as int)),
        decreases n - i,
    {
        assert(b@.skip(i as int).skip(1) =~= b@.skip(i + 1));
        assert(b@.skip(i as int)[0] == b@[i as int]);
        i += 1;
    }
    proof {
        if i < n {
            assert(b@.skip(i as int)[0] == b@[i as int]);
        }
    }
    if i < n {
        i
    } else {
        0
    }
}

/// Whether there is a text that is not empty.
pub open spec fn some_text(o: Option<Seq<char>>) -> bool {
    o is Some && o->0.len() > 0
}

fn has_some_text(o: &Option<String>) -> (r: bool)
    ensures
        r == some_text(opt_view(*o)),
{
    match o {
        Some(s) => !s.as_str().is_empty(),
        None => false,
    }
}

/// What a link leads to: a file, else an item of the shell.
pub fn resolve_lnk(file: Option<String>, item: Option<String>) -> (r: Result<String, String>)
    ensures
        answer_view(r) == if some_text(opt_view(file)) {
            Ok::<Seq<char>, Seq<char>>(opt_view(file)->0)
        } else if some_text(opt_view(item)) {
            Ok(opt_view(item)->0)
        } else {
            Err("快捷方式解析不出目标，请用托盘「添加应用…」"@)
        },
{
    if has_some_text(&file) {
        match file {
            Some(s) => Ok(s),
            None => Err("快捷方式解析不出目标，请用托盘「添加应用…」".to_owned()),
        }
    } else if has_some_text(&item) {
        match item {
            Some(s) => Ok(s),
            None => Err("快捷方式解析不出目标，请用托盘「添加应用…」".to_owned()),
        }
    } else {
        Err("快捷方式解析不出目标，请用托盘「添加应用…」".to_owned())
    }
}

/// What stands behind the last exclamation mark.
pub open spec fn behind_mark(s: Seq<char>) -> Seq<char>
    decreases s.len(),
{
    if s.len() == 0 || s.last() == '!' {
        Seq::empty()
    } else {
        behind_mark(s.drop_last()).push(s.last())
    }
}

/// The name of something dropped: what the shell calls an item of its own, else
/// the end of its identity; for a program its own name.
pub open spec fn dropped_name(
    target: Seq<char>,
    id: Seq<char>,
    shell_name: Option<Seq<char>>,
    program: Seq<char>,
) -> Seq<char> {
    if "shell:"@.is_prefix_of(target) {
        if some_text(shell_name) {
            shell_name->0
        } else {
            without_prefix(behind_mark(id), "uwp:"@)
        }
    } else {
        program
    }
}

/// The name of something dropped.
pub fn display_name(target: &str, id: &str, shell_name: &Option<String>, program: &str) -> (r:
    String)
    ensures
        r@ == dropped_name(target@, id@, opt_view(*shell_name), program@),
{
    if !text::starts_with(target, "shell:") {
        return program.to_owned();
    }
    if has_some_text(shell_name) {
        match shell_name {
            Some(s) => {
                return s.clone();
            },
            None => {},
        }
    }
    let v = text::chars_of(id);
    let n: usize = v.len();
    let ghost s = id@;
    let mut from: usize = n;
    assert(s.take(n as int) =~= s);
    assert(behind_mark(s) =~= behind_mark(s.take(n as int)) + s.skip(n as int));
    while from > 0 && v[from - 1] != '!'
        invariant
            from <= n == v@.len(),
            v@ == s,
            behind_mark(s) == behind_mark(s.take(from as int)) + s.skip(from as int),
        decreases from,
    {
        proof {
            let t = s.take(from as int);
            assert(t.last() == s[from - 1]);
            assert(t.drop_last() =~= s.take(from - 1));
            assert(behind_mark(t) + s.skip(from as int) =~= behind_mark(s.take(from - 1))
                + s.skip(from - 1));
        }
        from -= 1;
    }
    proof {
        if from > 0 {
            assert(s.take(from as int).last() == s[from - 1]);
        }
        assert(behind_mark(s.take(from as int)) =~= Seq::empty());
        assert(v@.subrange(from as int, n as int) =~= s.skip(from as int));
        assert(behind_mark(s) =~= s.skip(from as int));
    }
    let end = text::string_of(&v, from, n);
    text::trim_start_text(end.as_str(), "uwp:")
}

/// What is to be done about a dropped file.
#[derive(Debug)]
pub enum DropStep {
    /// Nothing: this is what became of it.
    Settled(Outcome),
    /// It was put on the dock under this identity; the list is to be saved.
    Save { id: String },
}

/// The list after a file was dropped, and what became of it where nothing is
/// left to do.
pub open spec fn dropped(
    s: Seq<PinnedView>,
    file_name: Seq<char>,
    target: Result<Seq<char>, Seq<char>>,
    name: Seq<char>,
) -> (Seq<PinnedView>, Option<OutcomeView>) {
    match target {
        Err(why) => (s, Some(OutcomeView::Rejected { name: file_name, why })),
        Ok(t) => if has_id(s, target_id(t)) {
            (s, Some(OutcomeView::Already { name }))
        } else {
            (s.push(plain_entry(target_id(t), name, t)), None)
        },
    }
}

/// Puts a dropped file on the dock unless it is there or cannot be added. `name`
/// is the name of what launching it opens.
pub fn handle_one(
    pinned: &mut Vec<PinnedApp>,
    file_name: &str,
    target: Result<String, String>,
    name: &str,
) -> (r: DropStep)
    ensures
        ({
            let d = dropped(pinned_views(old(pinned)@), file_name@, answer_view(target), name@);
            &&& pinned_views(final(pinned)@) == d.0
            &&& match r {
                DropStep::Settled(o) => d.1 == Some(o@),
                DropStep::Save { id } => d.1 is None && target is Ok && id@ == target_id(
                    target->Ok_0@,
                ),
            }
        }),
{
    match target {
        Err(why) => DropStep::Settled(Outcome::Rejected { name: file_name.to_owned(), why }),
        Ok(t) => {
            let id = apps::id_for_target(t.as_str());
            let i = store::find_pin(pinned, id.as_str());
            if i < pinned.len() {
                return DropStep::Settled(Outcome::Already { name: name.to_owned() });
            }
            let entry = PinnedApp {
                id: id.clone(),
                display_name: name.to_owned(),
                target: t,
                separator: false,
                is_folder: false,
                children: Vec::new(),
            };
            assert(entry@.children =~= Seq::empty());
            assert(entry@ == plain_entry(target_id(t@), name@, t@));
            let ghost before = pinned_views(pinned@);
            pinned.push(entry);
            assert(pinned_views(pinned@) =~= before.push(entry@));
            DropStep::Save { id }
        },
    }
}

/// What became of a file that was put on the dock, once the list was saved or
/// was not.
pub fn saved_outcome(file_name: &str, name: &str, error: &Option<String>, running: bool) -> (r:
    Outcome)
    ensures
        r@ == match *error {
            Some(e) => OutcomeView::Rejected {
                name: file_name@,
                why: "写入配置失败: "@ + e@,
            },
            None => OutcomeView::Added { name: name@, running },
        },
{
    match error {
        Some(e) => Outcome::Rejected {
            name: file_name.to_owned(),
            why: text::concat("写入配置失败: ", e.as_str()),
        },
        None => Outcome::Added { name: name.to_owned(), running },
    }
}

/// How many files were added.
pub open spec fn added_count(s: Seq<OutcomeView>) -> nat
    decreases s.len(),
{
    if s.len() == 0 {
        0
    } else {
        added_count(s.drop_last()) + if s.last() is Added {
            1nat
        } else {
            0nat
        }
    }
}

/// The position of the first outcome that is an addition, or is none; the length
/// where there is no such.
pub open spec fn first_outcome(s: Seq<OutcomeView>, added: bool) -> int
    decreases s.len(),
{
    if s.len() == 0 {
        0
    } else if (s[0] is Added) == added {
        0
    } else {
        1 + first_outcome(s.skip(1), added)
    }
}

/// What is said of a file that was not added.
pub open spec fn note(o: OutcomeView) -> Seq<char> {
    match o {
        OutcomeView::Added { name, .. } => name,
        OutcomeView::Already { name } => name + " 已在 Dock 上"@,
        OutcomeView::Rejected { name, why } => name + "："@ + why,
    }
}

/// What is said of files dropped together: nothing where there are none.
pub open spec fn drop_note(s: Seq<OutcomeView>) -> Seq<char> {
    let added = added_count(s);
    let others = (s.len() - added) as nat;
    if added == 0 {
        if others == 0 {
            Seq::empty()
        } else if others == 1 {
            note(s[first_outcome(s, false)])
        } else {
            note(s[first_outcome(s, false)]) + "（另有 "@ + decimal((others - 1) as nat)
                + " 个未添加）"@
        }
    } else if others == 0 {
        if added == 1 {
            match s[first_outcome(s, true)] {
                OutcomeView::Added { name, running } => if running {
                    "已添加 "@ + name + "（运行中）"@
                } else {
                    "已添加 "@ + name
                },
                _ => Seq::empty(),
            }
        } else {
            "已添加 "@ + decimal(added) + " 个程序"@
        }
    } else {
        "已添加 "@ + decimal(added) + " 个，"@ + decimal(others) + " 个未添加"@
    }
}

proof fn lemma_outcomes(s: Seq<OutcomeView>)
    ensures
        added_count(s) <= s.len(),
        added_count(s) > 0 <==> first_outcome(s, true) < s.len(),
        added_count(s) < s.len() <==> first_outcome(s, false) < s.len(),
        0 <= first_outcome(s, true) <= s.len(),
        0 <= first_outcome(s, false) <= s.len(),
    decreases s.len(),
{
    if s.len() > 0 {
        let t = s.skip(1);
        lemma_outcomes(t);
        lemma_added_front(s);
    }
}

proof fn lemma_added_front(s: Seq<OutcomeView>)
    requires
        s.len() > 0,
    ensures
        added_count(s) == added_count(s.skip(1)) + if s[0] is Added {
            1nat
        } else {
            0nat
        },
    decreases s.len(),
{
    if s.len() == 1 {
        assert(s.drop_last() =~= Seq::empty());
        assert(s.skip(1) =~= Seq::empty());
    } else {
        lemma_added_front(s.drop_last());
        assert(s.drop_last().skip(1) =~= s.skip(1).drop_last());
        assert(s.skip(1).last() == s.last());
    }
}

fn note_of(o: &Outcome) -> (r: String)
    ensures
        r@ == note(o@),
{
    match o {
        Outcome::Added { name, .. } => name.clone(),
        Outcome::Already { name } => text::concat(name.as_str(), " 已在 Dock 上"),
        Outcome::Rejected { name, why } => text::concat3(name.as_str(), "：", why.as_str()),
    }
}

fn is_added(o: &Outcome) -> (r: bool)
    ensures
        r == (o@ is Added),
{
    match o {
        Outcome::Added { .. } => true,
        _ => false,
    }
}

fn find_outcome(s: &Vec<Outcome>, added: bool) -> (r: usize)
    ensures
        r == first_outcome(outcome_views(s@), added),
        r <= s@.len(),
{
    let ghost all = outcome_views(s@);
    let mut i: usize = 0;
    assert(all.skip(0) =~= all);
    while i < s.len()
        invariant
            i <= s@.len(),
            all == outcome_views(s@),
            first_outcome(all, added) == i + first_outcome(all.skip(i as int), added),
        decreases s@.len() - i,
    {
        assert(all.skip(i as int)[0] == s@[i as int]@);
        assert(all.skip(i as int).skip(1) =~= all.skip(i + 1));
        if is_added(&s[i]) == added {
            return i;
        }
        i += 1;
    }
    assert(all.skip(i as int).len() == 0);
    i
}

/// What is said of files dropped together, and whether the dock changed.
pub fn handle_drop(s: &Vec<Outcome>) -> (r: (String, bool))
    ensures
        r.0@ == drop_note(outcome_views(s@)),
        r.1 == (added_count(outcome_views(s@)) > 0),
{
    let ghost all = outcome_views(s@);
    let n: usize = s.len();
    let mut added: usize = 0;
    let mut i: usize = 0;
    assert(all.take(0) =~= Seq::empty());
    while i < n
        invariant
            i <= n == s@.len(),
            all == outcome_views(s@),
            added == added_count(all.take(i as int)),
            added <= i,
        decreases n - i,
    {
        assert(all.take(i + 1).drop_last() =~= all.take(i as int));
        assert(all.take(i + 1).last() == s@[i as int]@);
        if is_added(&s[i]) {
            added += 1;
        }
        i += 1;
    }
    assert(all.take(n as int) =~= all);
    proof {
        lemma_outcomes(all);
    }
    let others: usize = n - added;
    let said = if added == 0 {
        if others == 0 {
            String::new()
        } else {
            let k = find_outcome(s, false);
            let mut r = note_of(&s[k]);
            if others > 1 {
                r.append("（另有 ");
                r.append(text::decimal_string((others - 1) as u64).as_str());
                r.append(" 个未添加）");
            }
            r
        }
    } else if others == 0 {
        if added == 1 {
            let k = find_outcome(s, true);
            match &s[k] {
                Outcome::Added { name, running } => {
                    let mut r = text::concat("已添加 ", name.as_str());
                    if *running {
                        r.append("（运行中）");
                    }
                    r
                },
                _ => String::new(),
            }
        } else {
            text::concat3("已添加 ", text::decimal_string(added as u64).as_str(), " 个程序")
        }
    } else {
        let mut r = text::concat3(
            "已添加 ",
            text::decimal_string(added as u64).as_str(),
            " 个，",
        );
        r.append(text::decimal_string(others as u64).as_str());
        r.append(" 个未添加");
        r
    };
    proof {
        if added == 0 && others == 1 {
            assert(all[first_outcome(all, false)] == s@[first_outcome(all, false)]@);
        }
    }
    (said, added > 0)
}

/// The script that shows a message on the dock.
pub fn toast(message: &str) -> (r: String)
    ensures
        r@ == "window.__dockToast && window.__dockToast("@ + json_literal(message@) + ");"@,
{
    let l = json::literal_of(message);
    text::concat3("window.__dockToast && window.__dockToast(", l.as_str(), ");")
}

/// The script that has the dock read its list again.
pub fn refresh_apps() -> (r: &'static str)
    ensures
        r@ == "window.__dockRefreshApps && window.__dockRefreshApps();"@,
{
    "window.__dockRefreshApps && window.__dockRefreshApps();"
}

/// A file that was dropped before is not added again: it is said to be there,
/// and the list stays as it is.
pub proof fn law_dropped_once(
    s: Seq<PinnedView>,
    file_name: Seq<char>,
    target: Seq<char>,
    name: Seq<char>,
)
    ensures
        ({
            let once = dropped(s, file_name, Ok(target), name).0;
            let again = dropped(once, file_name, Ok(target), name);
            again.0 == once && again.1 == Some(OutcomeView::Already { name })
        }),
{
    let once = dropped(s, file_name, Ok(target), name).0;
    if !has_id(s, target_id(target)) {
        assert(once[once.len() - 1].id == target_id(target));
    }
}

// ---------------------------------------------------------------- what holds of dropping

/// A program opens itself and a link what it leads to; a shortcut to an address
/// opens itself, where it holds one. Anything else is refused with its reason,
/// and so is what is not there, whatever it would be.
pub proof fn law_what_a_file_opens(
    path: Seq<char>,
    present: bool,
    extension: Option<Seq<char>>,
    link: Result<Seq<char>, Seq<char>>,
    url: Option<Seq<char>>,
)
    ensures
        ({
            let r = launchable(path, present, extension, link, url);
            let e = lowercase(
                match extension {
                    Some(e) => e,
                    None => ""@,
                },
            );
            &&& !present ==> r == Err::<Seq<char>, Seq<char>>("路径不存在"@)
            &&& present && e == "exe"@ ==> r == Ok::<Seq<char>, Seq<char>>(path)
            &&& present && e == "lnk"@ ==> r == link
            &&& present && e == "url"@ && url is Some ==> r == Ok::<Seq<char>, Seq<char>>(path)
            &&& present && e == "url"@ && url is None ==> r == Err::<Seq<char>, Seq<char>>(
                "这个 .url 里没有 URL"@,
            )
            &&& present && e == ""@ ==> r == Err::<Seq<char>, Seq<char>>("文件夹不能添加"@)
            &&& present && e != "exe"@ && e != "lnk"@ && e != "url"@ && e != ""@ ==> r == Err::<
                Seq<char>,
                Seq<char>,
            >("只接受 .exe / .lnk / .url"@)
        }),
{
    reveal_strlit("");
    reveal_strlit("exe");
    reveal_strlit("lnk");
    reveal_strlit("url");
    assert(""@ =~= Seq::<char>::empty());
    let e = lowercase(
        match extension {
            Some(e) => e,
            None => ""@,
        },
    );
    assert("exe"@[0] != "lnk"@[0] && "exe"@[0] != "url"@[0] && "lnk"@[0] != "url"@[0]);
    if e.len() == 0 {
        assert(e =~= ""@);
    }
}

/// The case of an extension makes no difference: two that agree but for it, in
/// ASCII letters, are of one kind.
pub proof fn law_case_of_extensions(a: Seq<char>, b: Seq<char>)
    requires
        text::is_ascii_text(a),
        text::is_ascii_text(b),
        a.len() == b.len(),
        forall|i: int|
            0 <= i < a.len() ==> #[trigger] a[i] == b[i] || ('A' <= a[i] && a[i] <= 'Z' && b[i]
                as int == a[i] as int + 32) || ('A' <= b[i] && b[i] <= 'Z' && a[i] as int == b[i]
                as int + 32),
    ensures
        kind_of(Some(a)) == kind_of(Some(b)),
{
    assert(lowercase(a) =~= lowercase(b));
}

/// The text in a buffer ends before its first zero; where there is none there is
/// no text.
pub proof fn law_text_ends_at_the_first_zero(b: Seq<u16>, k: int)
    requires
        0 <= k <= b.len(),
        forall|i: int| 0 <= i < k ==> #[trigger] b[i] != 0,
    ensures
        k < b.len() && b[k] == 0 ==> ended_length(b) == k,
        k == b.len() ==> ended_length(b) == 0,
{
    if k < b.len() && b[k] == 0 || k == b.len() {
        lemma_zero_index(b, k);
    }
}

proof fn lemma_zero_index(b: Seq<u16>, k: int)
    requires
        0 <= k <= b.len(),
        forall|i: int| 0 <= i < k ==> #[trigger] b[i] != 0,
        k < b.len() ==> b[k] == 0,
    ensures
        zero_index(b) == k,
    decreases k,
{
    if k > 0 {
        assert forall|i: int| 0 <= i < k - 1 implies #[trigger] b.skip(1)[i] != 0 by {
            assert(b.skip(1)[i] == b[i + 1]);
        }
        lemma_zero_index(b.skip(1), k - 1);
    }
}

/// A link leads to its file where it names one, else to its item of the shell,
/// and an empty name is none.
pub proof fn law_what_a_link_leads_to(
    file: Option<String>,
    item: Option<String>,
    r: Result<String, String>,
)
    requires
        call_ensures(resolve_lnk, (file, item), r),
    ensures
        file is Some && file->0@.len() > 0 ==> r is Ok && r->Ok_0@ == file->0@,
        (file is None || file->0@.len() == 0) && item is Some && item->0@.len() > 0 ==> r is Ok
            && r->Ok_0@ == item->0@,
        (file is None || file->0@.len() == 0) && (item is None || item->0@.len() == 0) ==> r is Err
            && r->Err_0@ == "快捷方式解析不出目标，请用托盘「添加应用…」"@,
{
}

/// Only an item of the shell is called what the shell calls it; anything else
/// has the name of the program. A shell item without a name has what stands
/// behind the last exclamation mark of its identity, without the mark of
/// packages in front.
pub proof fn law_names_of_dropped_files(
    target: Seq<char>,
    shell_name: Option<Seq<char>>,
    program: Seq<char>,
    a: Seq<char>,
    b: Seq<char>,
)
    requires
        !b.contains('!'),
    ensures
        !"shell:"@.is_prefix_of(target) ==> dropped_name(target, a, shell_name, program) == program,
        "shell:"@.is_prefix_of(target) && shell_name is Some && shell_name->0.len() > 0
            ==> dropped_name(target, a, shell_name, program) == shell_name->0,
        "shell:"@.is_prefix_of(target) && !"uwp:"@.is_prefix_of(b) && (shell_name is None
            || shell_name->0.len() == 0) ==> dropped_name(
            target,
            a.push('!') + b,
            shell_name,
            program,
        ) == b && dropped_name(target, b, shell_name, program) == b && dropped_name(
            target,
            "uwp:"@ + b,
            shell_name,
            program,
        ) == b,
{
    reveal_strlit("uwp:");
    let p = "uwp:"@;
    lemma_behind_mark(a.push('!'), b);
    lemma_behind_mark(Seq::empty(), b);
    assert(Seq::<char>::empty() + b =~= b);
    assert(behind_mark(a.push('!')) =~= Seq::empty());
    assert(behind_mark(a.push('!') + b) =~= b);
    let u = p + b;
    assert(!u.contains('!')) by {
        if u.contains('!') {
            let i = choose|i: int| 0 <= i < u.len() && u[i] == '!';
            assert(p[0] != '!' && p[1] != '!' && p[2] != '!' && p[3] != '!');
            assert(b.contains(b[i - 4]));
        }
    }
    lemma_behind_mark(Seq::empty(), u);
    assert(Seq::<char>::empty() + u =~= u);
    text::law_without_prefix(b, p);
}

proof fn lemma_behind_mark(a: Seq<char>, b: Seq<char>)
    requires
        !b.contains('!'),
        a.len() > 0 ==> a.last() == '!',
    ensures
        behind_mark(a + b) == b,
    decreases b.len(),
{
    if b.len() == 0 {
        assert(a + b =~= a);
        assert(behind_mark(a) =~= b);
    } else {
        let c = b.drop_last();
        assert(b.contains(b.last()));
        assert(!c.contains('!')) by {
            if c.contains('!') {
                let i = choose|i: int| 0 <= i < c.len() && c[i] == '!';
                assert(b.contains(b[i]));
            }
        }
        lemma_behind_mark(a, c);
        assert((a + b).drop_last() =~= a + c);
        assert((a + b).last() == b.last());
        assert(c.push(b.last()) =~= b);
    }
}

/// A dropped file comes to stand last on the dock, as what it opens, under that
/// identity and name, unless an entry has the identity: then it is said to be
/// there. A file that cannot be added is told with its reason. In both cases the
/// list stays.
pub proof fn law_dropped_file_stands_last(
    s: Seq<PinnedView>,
    file_name: Seq<char>,
    target: Result<Seq<char>, Seq<char>>,
    name: Seq<char>,
    i: int,
)
    ensures
        ({
            let d = dropped(s, file_name, target, name);
            &&& target is Err ==> d.0 == s && d.1 == Some(
                OutcomeView::Rejected { name: file_name, why: target->Err_0 },
            )
            &&& target is Ok && 0 <= i < s.len() && s[i].id == target_id(target->Ok_0) ==> d.0 == s
                && d.1 == Some(OutcomeView::Already { name })
            &&& d.1 is None ==> {
                &&& target is Ok
                &&& d.0.len() == s.len() + 1
                &&& d.0.drop_last() == s
                &&& d.0.last().id == target_id(target->Ok_0)
                &&& d.0.last().target == target->Ok_0
                &&& d.0.last().display_name == name
                &&& !d.0.last().separator && !d.0.last().is_folder
                &&& d.0.last().children.len() == 0
            }
            &&& d.1 is Some ==> d.0 == s
            &&& target is Ok && d.1 is Some ==> exists|k: int|
                0 <= k < s.len() && (#[trigger] s[k]).id == target_id(target->Ok_0)
        }),
{
    let d = dropped(s, file_name, target, name);
    if d.1 is None {
        assert(d.0.drop_last() =~= s);
    }
}

/// A file counts as added only where the list was saved; else the reason is told
/// of the file.
pub proof fn law_saved_or_not(
    file_name: &str,
    name: &str,
    error: Option<String>,
    running: bool,
    r: Outcome,
)
    requires
        call_ensures(saved_outcome, (file_name, name, &error, running), r),
    ensures
        r is Added <==> error is None,
        error is None ==> r->Added_name@ == name@ && r->running == running,
        error is Some ==> r is Rejected && r->Rejected_name@ == file_name@ && r->why@
            == "写入配置失败: "@ + error->0@,
{
}

/// How many files of a list were added.
pub proof fn law_added_files_are_counted(a: Seq<OutcomeView>, b: Seq<OutcomeView>, o: OutcomeView)
    ensures
        added_count(Seq::empty()) == 0,
        added_count(seq![o]) == if o is Added {
            1nat
        } else {
            0nat
        },
        added_count(a + b) == added_count(a) + added_count(b),
    decreases b.len(),
{
    assert(seq![o].drop_last() =~= Seq::empty());
    assert(added_count(Seq::empty()) == 0);
    if b.len() == 0 {
        assert(a + b =~= a);
    } else {
        law_added_files_are_counted(a, b.drop_last(), o);
        assert((a + b).drop_last() =~= a + b.drop_last());
        assert((a + b).last() == b.last());
    }
}

/// What is said of one file alone.
pub proof fn law_what_is_said_of_one(o: OutcomeView)
    ensures
        match o {
            OutcomeView::Added { name, running } => if running {
                drop_note(seq![o]) == "已添加 "@ + name + "（运行中）"@
            } else {
                drop_note(seq![o]) == "已添加 "@ + name
            },
            OutcomeView::Already { name } => drop_note(seq![o]) == name + " 已在 Dock 上"@,
            OutcomeView::Rejected { name, why } => drop_note(seq![o]) == name + "："@ + why,
        },
        drop_note(Seq::empty()) == Seq::<char>::empty(),
{
    let s = seq![o];
    assert(s.drop_last() =~= Seq::empty());
    assert(added_count(Seq::<OutcomeView>::empty()) == 0);
    assert(s[0] == o);
}

/// What is said of several files: how many were added where all were, the first
/// that was not and how many more where none was, and both counts otherwise.
pub proof fn law_what_is_said_of_several(s: Seq<OutcomeView>, k: int)
    requires
        s.len() >= 2,
        0 <= k < s.len(),
        forall|i: int| 0 <= i < k ==> #[trigger] s[i] is Added,
    ensures
        (forall|i: int| 0 <= i < s.len() ==> #[trigger] s[i] is Added) ==> drop_note(s)
            == "已添加 "@ + decimal(s.len()) + " 个程序"@,
        k == 0 && (forall|i: int| 0 <= i < s.len() ==> !(#[trigger] s[i] is Added)) ==> drop_note(s)
            == drop_note(seq![s[0]]) + "（另有 "@ + decimal((s.len() - 1) as nat) + " 个未添加）"@,
        0 < added_count(s) < s.len() ==> drop_note(s) == "已添加 "@ + decimal(added_count(s))
            + " 个，"@ + decimal((s.len() - added_count(s)) as nat) + " 个未添加"@,
{
    lemma_outcomes(s);
    if forall|i: int| 0 <= i < s.len() ==> #[trigger] s[i] is Added {
        lemma_all_added(s);
    }
    if k == 0 && (forall|i: int| 0 <= i < s.len() ==> !(#[trigger] s[i] is Added)) {
        lemma_none_added(s);
        law_what_is_said_of_one(s[0]);
        assert(first_outcome(s, false) == 0);
    }
}

proof fn lemma_all_added(s: Seq<OutcomeView>)
    requires
        forall|i: int| 0 <= i < s.len() ==> #[trigger] s[i] is Added,
    ensures
        added_count(s) == s.len(),
    decreases s.len(),
{
    if s.len() > 0 {
        assert forall|i: int| 0 <= i < s.drop_last().len() implies #[trigger] s.drop_last()[i]
            is Added by {
            assert(s.drop_last()[i] == s[i]);
        }
        lemma_all_added(s.drop_last());
        assert(s.last() == s[s.len() - 1]);
    }
}

proof fn lemma_none_added(s: Seq<OutcomeView>)
    requires
        forall|i: int| 0 <= i < s.len() ==> !(#[trigger] s[i] is Added),
    ensures
        added_count(s) == 0,
    decreases s.len(),
{
    if s.len() > 0 {
        assert forall|i: int| 0 <= i < s.drop_last().len() implies !(#[trigger] s.drop_last()[i]
            is Added) by {
            assert(s.drop_last()[i] == s[i]);
        }
        lemma_none_added(s.drop_last());
        assert(s.last() == s[s.len() - 1]);
    }
}

/// The dock reads its list again where any file was added.
pub proof fn law_the_dock_changed(s: Vec<Outcome>, r: (String, bool))
    requires
        call_ensures(handle_drop, (&s,), r),
    ensures
        r.1 <==> exists|i: int| 0 <= i < s@.len() && #[trigger] s@[i] is Added,
{
    let all = outcome_views(s@);
    lemma_outcomes(all);
    if r.1 {
        let k = first_outcome(all, true);
        lemma_first_added(all);
        assert(all[k] == s@[k]@);
        assert(s@[k] is Added);
    }
    if exists|i: int| 0 <= i < s@.len() && #[trigger] s@[i] is Added {
        let i = choose|i: int| 0 <= i < s@.len() && #[trigger] s@[i] is Added;
        assert(all[i] == s@[i]@);
        lemma_some_added(all, i);
    }
}

proof fn lemma_first_added(s: Seq<OutcomeView>)
    ensures
        0 <= first_outcome(s, true) < s.len() ==> s[first_outcome(s, true)] is Added,
    decreases s.len(),
{
    if s.len() > 0 && !(s[0] is Added) {
        lemma_first_added(s.skip(1));
        lemma_outcomes(s.skip(1));
    }
}

proof fn lemma_some_added(s: Seq<OutcomeView>, i: int)
    requires
        0 <= i < s.len(),
        s[i] is Added,
    ensures
        added_count(s) > 0,
    decreases s.len(),
{
    if i < s.len() - 1 {
        assert(s.drop_last()[i] == s[i]);
        lemma_some_added(s.drop_last(), i);
    }
}

/// A message is shown by the page's own function, where it has one, and reaches it
/// as one string, whatever it holds; so does the call to read the list again.
pub proof fn law_scripts_of_the_dock(message: &str, r: String, refresh: &'static str)
    requires
        call_ensures(toast, (message,), r),
        call_ensures(refresh_apps, (), refresh),
    ensures
        r@ == "window.__dockToast && window.__dockToast("@ + seq!['"'] + json::escaped(message@) + seq![
            '"',
        ] + ");"@,
        json::unescaped(json::escaped(message@)) == message@,
        refresh@ == "window.__dockRefreshApps && window.__dockRefreshApps();"@,
{
    json::law_literal_holds_the_text(message@, Seq::empty());
    assert(r@ =~= "window.__dockToast && window.__dockToast("@ + seq!['"'] + json::escaped(
        message@,
    ) + seq!['"'] + ");"@);
}

} // verus!
