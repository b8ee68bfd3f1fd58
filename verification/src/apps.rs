//! Applications: how a target is recognised, what identity it has, how windows
//! are grouped into applications, and what the dock shows for a pinned entry.

use vstd::prelude::*;
use vstd::string::*;
use crate::model::{
    app_views, pinned_views, window_views, AppEntry, AppKind, AppView, PinnedApp, PinnedView,
    WindowRef, WindowView,
};
use crate::text;
use crate::win_layer::{WS_EX_APPWINDOW, WS_EX_TOOLWINDOW};
use crate::text::{
    first_index, is_ascii_text, lowercase, opt_view, text_views, trimmed, utf16,
};

verus! {

/// Where packaged applications live in the shell's name space.
pub const APPS_FOLDER_PREFIX: &'static str = "shell:AppsFolder\\";

/// The process that hosts the windows of packaged applications.
pub const UWP_HOST: &'static str = "applicationframehost.exe";

/// A text in UTF-16 with a terminating zero.
pub fn wide(s: &str) -> (r: Vec<u16>)
    ensures
        r@ == utf16(s@).push(0),
{
    let mut r = text::encode_utf16(s);
    r.push(0);
    r
}

/// A package identity holds an exclamation mark.
pub open spec fn packaged(aumid: Seq<char>) -> bool {
    aumid.contains('!')
}

/// Whether an application identity belongs to a package.
pub fn is_packaged(aumid: &str) -> (r: bool)
    ensures
        r == packaged(aumid@),
{
    let v = text::chars_of(aumid);
    let i = text::index_from(&v, '!', 0);
    proof {
        text::lemma_first_index(aumid@.skip(0), '!');
        assert(aumid@.skip(0) =~= aumid@);
    }
    i < v.len()
}

/// The launch target of a packaged application.
pub fn apps_folder_path(aumid: &str) -> (r: String)
    ensures
        r@ == APPS_FOLDER_PREFIX@ + aumid@,
{
    text::concat(APPS_FOLDER_PREFIX, aumid)
}

/// The launch target of an application of a package family.
pub fn package_target(pfn: &str, app_id: &str) -> (r: String)
    ensures
        r@ == APPS_FOLDER_PREFIX@ + pfn@ + "!"@ + app_id@,
{
    let mut r = text::concat3(APPS_FOLDER_PREFIX, pfn, "!");
    r.append(app_id);
    r
}

/// The target names something in the shell's name space.
pub open spec fn shell_target(t: Seq<char>) -> bool {
    "shell:"@.is_prefix_of(lowercase(t))
}

/// Whether the target names something in the shell's name space.
pub fn is_shell_target(target: &str) -> (r: bool)
    ensures
        r == shell_target(target@),
{
    text::starts_with(target.to_lowercase().as_str(), "shell:")
}

/// The target is a system location: in the shell's name space, and no packaged
/// application.
pub open spec fn shell_location(t: Seq<char>) -> bool {
    shell_target(t) && !APPS_FOLDER_PREFIX@.is_prefix_of(t)
}

/// Whether the target is a system location, such as the recycle bin.
pub fn is_shell_location(target: &str) -> (r: bool)
    ensures
        r == shell_location(target@),
{
    is_shell_target(target) && !text::starts_with(target, APPS_FOLDER_PREFIX)
}

/// The target is an internet shortcut file.
pub open spec fn url_shortcut(t: Seq<char>) -> bool {
    ".url"@.is_suffix_of(lowercase(t))
}

/// Whether the target is an internet shortcut file.
pub fn is_url_shortcut(target: &str) -> (r: bool)
    ensures
        r == url_shortcut(target@),
{
    text::ends_with(target.to_lowercase().as_str(), ".url")
}

/// The target is an address with a protocol, and no shortcut file.
pub open spec fn url_scheme(t: Seq<char>) -> bool {
    !url_shortcut(t) && text::occurs(t, "://"@)
}

/// Whether the target is an address with a protocol.
pub fn is_url_scheme(target: &str) -> (r: bool)
    ensures
        r == url_scheme(target@),
{
    !is_url_shortcut(target) && text::contains(target, "://")
}

/// The target lies in the protected folder of packaged applications.
pub open spec fn windowsapps_path(t: Seq<char>) -> bool {
    text::occurs(lowercase(t), "\\windowsapps\\"@) || text::occurs(lowercase(t), "/windowsapps/"@)
}

/// Whether the target lies in the protected folder of packaged applications.
pub fn is_windowsapps_path(target: &str) -> (r: bool)
    ensures
        r == windowsapps_path(target@),
{
    let t = target.to_lowercase();
    text::contains(t.as_str(), "\\windowsapps\\") || text::contains(t.as_str(), "/windowsapps/")
}

/// The target is the recycle bin.
pub open spec fn recycle_bin(t: Seq<char>) -> bool {
    text::ascii_lowercase(t) == text::ascii_lowercase("shell:RecycleBinFolder"@)
}

/// Whether the target is the recycle bin.
pub fn is_recycle_bin(target: &str) -> (r: bool)
    ensures
        r == recycle_bin(target@),
{
    text::same_ignoring_ascii_case(target, "shell:RecycleBinFolder")
}

/// The number of items in the recycle bin out of the answer to a query: zero
/// where the query failed or gave a negative number, else its low 32 bits.
pub fn recycle_bin_count(answered: bool, items: i64) -> (r: u32)
    ensures
        r == if answered && items > 0 {
            items as int % 0x1_0000_0000
        } else {
            0
        },
{
    if answered && items > 0 {
        (items as u64 % 0x1_0000_0000) as u32
    } else {
        0
    }
}

/// The identity of a launch target.
pub open spec fn target_id(t: Seq<char>) -> Seq<char> {
    if APPS_FOLDER_PREFIX@.is_prefix_of(t) {
        "uwp:"@ + lowercase(t.skip(APPS_FOLDER_PREFIX@.len() as int))
    } else {
        lowercase(t)
    }
}

/// The identity of a launch target: `uwp:` and the lower-case package identity
/// for a packaged application, the lower-case target for anything else.
pub fn id_for_target(target: &str) -> (r: String)
    ensures
        r@ == target_id(target@),
{
    if text::starts_with(target, APPS_FOLDER_PREFIX) {
        let n: usize = APPS_FOLDER_PREFIX.unicode_len();
        let len: usize = target.unicode_len();
        let aumid = target.substring_char(n, len);
        assert(aumid@ =~= target@.skip(n as int));
        text::concat("uwp:", aumid.to_lowercase().as_str())
    } else {
        target.to_lowercase()
    }
}

/// A system location and a packaged application never share an identity.
pub proof fn law_location_and_package_ids_differ(location: Seq<char>, package: Seq<char>)
    requires
        shell_location(location),
        APPS_FOLDER_PREFIX@.is_prefix_of(package),
    ensures
        target_id(location) != target_id(package),
{
    reveal_strlit("shell:");
    reveal_strlit("uwp:");
    assert(lowercase(location)[0] == "shell:"@[0]);
    assert(target_id(package)[0] == "uwp:"@[0]);
}

/// The lower-case form of an ASCII text is an ASCII text without capitals, and
/// is its own lower-case form.
proof fn lemma_lowercase_settled(t: Seq<char>)
    requires
        is_ascii_text(t),
    ensures
        lowercase(t).len() == t.len(),
        forall|i: int|
            0 <= i < t.len() ==> (#[trigger] lowercase(t)[i] as u32) < 128 && !('A'
                <= lowercase(t)[i] <= 'Z'),
        lowercase(lowercase(t)) == lowercase(t),
{
    let low = lowercase(t);
    assert forall|i: int| 0 <= i < t.len() implies (#[trigger] low[i] as u32) < 128 && !('A'
        <= low[i] <= 'Z') by {
        assert((t[i] as u32) < 128);
    }
    assert(lowercase(low) =~= low);
}

/// An identity is the identity of itself, as far as the target is ASCII text.
/// Two targets that are no packaged applications share an identity exactly where
/// they differ only in case. The identity of an application of a package family
/// is the lower-case package identity behind `uwp:`.
pub proof fn law_identities(a: Seq<char>, b: Seq<char>, pfn: Seq<char>, app_id: Seq<char>)
    ensures
        is_ascii_text(a) ==> target_id(target_id(a)) == target_id(a),
        !APPS_FOLDER_PREFIX@.is_prefix_of(a) && !APPS_FOLDER_PREFIX@.is_prefix_of(b) ==> (
        target_id(a) == target_id(b) <==> lowercase(a) == lowercase(b)),
        target_id(APPS_FOLDER_PREFIX@ + pfn + "!"@ + app_id) == "uwp:"@ + lowercase(
            pfn + "!"@ + app_id,
        ),
{
    reveal_strlit("shell:AppsFolder\\");
    reveal_strlit("uwp:");
    if is_ascii_text(a) {
        let id = target_id(a);
        if APPS_FOLDER_PREFIX@.is_prefix_of(a) {
            let rest = a.skip(APPS_FOLDER_PREFIX@.len() as int);
            lemma_lowercase_settled(rest);
            assert(id[0] == 'u');
            if APPS_FOLDER_PREFIX@.is_prefix_of(id) {
                assert(APPS_FOLDER_PREFIX@[0] == id[0]);
            }
            assert forall|i: int| 0 <= i < id.len() implies (#[trigger] id[i] as u32) < 128 && !('A'
                <= id[i] <= 'Z') by {
                if i >= 4 {
                    assert(id[i] == lowercase(rest)[i - 4]);
                }
            }
            assert(lowercase(id) =~= id);
        } else {
            lemma_lowercase_settled(a);
            if APPS_FOLDER_PREFIX@.is_prefix_of(id) {
                assert(APPS_FOLDER_PREFIX@[6] == id[6]);
            }
        }
    }
    let t = APPS_FOLDER_PREFIX@ + pfn + "!"@ + app_id;
    assert(t.subrange(0, APPS_FOLDER_PREFIX@.len() as int) =~= APPS_FOLDER_PREFIX@);
    assert(t.skip(APPS_FOLDER_PREFIX@.len() as int) =~= pfn + "!"@ + app_id);
}

/// One of the places of the system that can be put on the dock.
pub open spec fn system_location(t: Seq<char>) -> bool {
    text::ascii_lowercase(t) == text::ascii_lowercase("shell:MyComputerFolder"@)
        || text::ascii_lowercase(t) == text::ascii_lowercase("shell:RecycleBinFolder"@)
}

/// Whether a target is one of the places of the system that can be put on the
/// dock. What other places of the shell open cannot be foreseen.
pub fn is_system_location(target: &str) -> (r: bool)
    ensures
        r == system_location(target@),
{
    text::same_ignoring_ascii_case(target, "shell:MyComputerFolder")
        || text::same_ignoring_ascii_case(target, "shell:RecycleBinFolder")
}

/// The name shown for a system location where the system gives none.
pub open spec fn fallback_name(t: Seq<char>) -> Seq<char> {
    if text::ascii_lowercase(t) == text::ascii_lowercase("shell:MyComputerFolder"@) {
        "此电脑"@
    } else if text::ascii_lowercase(t) == text::ascii_lowercase("shell:RecycleBinFolder"@) {
        "回收站"@
    } else {
        t
    }
}

/// The name shown for a system location where the system gives none.
pub fn fallback_name_for(target: &str) -> (r: String)
    ensures
        r@ == fallback_name(target@),
{
    if text::same_ignoring_ascii_case(target, "shell:MyComputerFolder") {
        "此电脑".to_owned()
    } else if text::same_ignoring_ascii_case(target, "shell:RecycleBinFolder") {
        "回收站".to_owned()
    } else {
        target.to_owned()
    }
}

/// Whether a process image is the host of packaged applications.
pub fn is_uwp_host(path: &str) -> (r: bool)
    ensures
        r == UWP_HOST@.is_suffix_of(lowercase(path@)),
{
    text::ends_with(path.to_lowercase().as_str(), UWP_HOST)
}

/// The names between percent signs, in order.
pub open spec fn env_name_list(s: Seq<char>) -> Seq<Seq<char>>
    decreases s.len(),
{
    let start = first_index(s, '%');
    if start < 0 || start >= s.len() {
        Seq::empty()
    } else {
        let after = s.skip(start + 1);
        let end = first_index(after, '%');
        if end < 0 || end >= after.len() {
            Seq::empty()
        } else {
            seq![after.take(end)] + env_name_list(after.skip(end + 1))
        }
    }
}

/// What a name between percent signs stands for: its value, or itself with
/// its percent signs where it has none.
pub open spec fn env_substitute(name: Seq<char>, value: Option<Seq<char>>) -> Seq<char> {
    match value {
        Some(v) => v,
        None => seq!['%'] + name + seq!['%'],
    }
}

/// The text with its names between percent signs replaced, the first by
/// `values[0]`, the next by `values[1]` and so on.
pub open spec fn env_expanded(s: Seq<char>, values: Seq<Option<Seq<char>>>) -> Seq<char>
    decreases s.len(),
{
    let start = first_index(s, '%');
    if start < 0 || start >= s.len() {
        s
    } else {
        let after = s.skip(start + 1);
        let end = first_index(after, '%');
        if end < 0 || end >= after.len() {
            s
        } else {
            let value = if values.len() > 0 {
                values[0]
            } else {
                None
            };
            s.take(start) + env_substitute(after.take(end), value) + env_expanded(
                after.skip(end + 1),
                if values.len() > 0 {
                    values.skip(1)
                } else {
                    values
                },
            )
        }
    }
}

/// The names of the environment variables that a text mentions between percent
/// signs, in order.
pub fn env_names(s: &str) -> (r: Vec<String>)
    ensures
        text_views(r@) == env_name_list(s@),
{
    let v = text::chars_of(s);
    let mut r: Vec<String> = Vec::new();
    let mut at: usize = 0;
    assert(v@.skip(0) =~= s@);
    assert(text_views(r@) + env_name_list(s@) =~= env_name_list(s@));
    while at < v.len()
        invariant
            at <= v@.len(),
            v@ == s@,
            text_views(r@) + env_name_list(v@.skip(at as int)) == env_name_list(s@),
        decreases v@.len() - at,
    {
        let ghost rest = v@.skip(at as int);
        let start = text::index_from(&v, '%', at);
        if start >= v.len() {
            assert(env_name_list(rest) =~= Seq::empty());
            assert(text_views(r@) =~= env_name_list(s@));
            return r;
        }
        let ghost after = v@.skip(start + 1);
        assert(rest.skip(start - at + 1) =~= after);
        let end = text::index_from(&v, '%', start + 1);
        if end >= v.len() {
            assert(env_name_list(rest) =~= Seq::empty());
            assert(text_views(r@) =~= env_name_list(s@));
            return r;
        }
        let ghost before = text_views(r@);
        r.push(text::string_of(&v, start + 1, end));
        proof {
            let e = end - start - 1;
            assert(v@.subrange(start + 1, end as int) =~= after.take(e));
            assert(after.skip(e + 1) =~= v@.skip(end + 1));
            assert(text_views(r@) =~= before.push(after.take(e)));
            assert(before + (seq![after.take(e)] + env_name_list(v@.skip(end + 1)))
                =~= text_views(r@) + env_name_list(v@.skip(end + 1)));
        }
        at = end + 1;
    }
    assert(v@.skip(at as int).len() == 0);
    assert(env_name_list(v@.skip(at as int)) =~= Seq::empty());
    assert(text_views(r@) =~= env_name_list(s@));
    r
}

/// The contents of a list of optional texts.
pub open spec fn opt_views(s: Seq<Option<String>>) -> Seq<Option<Seq<char>>> {
    Seq::new(s.len(), |i: int| opt_view(s[i]))
}

/// Replaces each name between percent signs by its value. `values` holds the
/// values of the names that `env_names` lists, in the same order. A name
/// without a value stays as it is.
pub fn expand_env(s: &str, values: &Vec<Option<String>>) -> (r: String)
    ensures
        r@ == env_expanded(s@, opt_views(values@)),
{
    let v = text::chars_of(s);
    let ghost all = opt_views(values@);
    let mut r = String::new();
    let mut at: usize = 0;
    let mut n: usize = 0;
    assert(v@.skip(0) =~= s@);
    assert(all.skip(0) =~= all);
    assert(r@ + env_expanded(s@, all) =~= env_expanded(s@, all));
    while at < v.len()
        invariant
            at <= v@.len(),
            v@ == s@,
            all == opt_views(values@),
            n <= all.len(),
            r@ + env_expanded(v@.skip(at as int), all.skip(n as int)) == env_expanded(s@, all),
        decreases v@.len() - at,
    {
        let ghost rest = v@.skip(at as int);
        let ghost vals = all.skip(n as int);
        let ghost before = r@;
        let start = text::index_from(&v, '%', at);
        if start >= v.len() {
            let tail = text::string_of(&v, at, v.len());
            assert(tail@ =~= rest);
            r.append(tail.as_str());
            return r;
        }
        let ghost after = v@.skip(start + 1);
        assert(rest.skip(start - at + 1) =~= after);
        let end = text::index_from(&v, '%', start + 1);
        if end >= v.len() {
            let tail = text::string_of(&v, at, v.len());
            assert(tail@ =~= rest);
            r.append(tail.as_str());
            return r;
        }
        let ghost e = end - start - 1;
        let head = text::string_of(&v, at, start);
        let name = text::string_of(&v, start + 1, end);
        assert(head@ =~= rest.take(start - at));
        assert(name@ =~= after.take(e));
        assert(after.skip(e + 1) =~= v@.skip(end + 1));
        r.append(head.as_str());
        let mut known = false;
        if n < values.len() {
            assert(vals[0] == opt_view(values@[n as int]));
            assert(vals.skip(1) =~= all.skip(n + 1));
            if let Some(value) = &values[n] {
                r.append(value.as_str());
                known = true;
            }
            n += 1;
        }
        if !known {
            r.push('%');
            r.append(name.as_str());
            r.push('%');
        }
        proof {
            let value = if vals.len() > 0 {
                vals[0]
            } else {
                None
            };
            let next = if vals.len() > 0 {
                vals.skip(1)
            } else {
                vals
            };
            assert(next =~= all.skip(n as int));
            assert(r@ =~= before + rest.take(start - at) + env_substitute(after.take(e), value));
            assert(r@ + env_expanded(v@.skip(end + 1), next) =~= before + env_expanded(rest, vals));
        }
        at = end + 1;
    }
    assert(v@.skip(at as int).len() == 0);
    assert(r@ =~= env_expanded(s@, all));
    r
}

/// A text without percent signs stays as it is.
pub proof fn law_expand_without_percent(s: Seq<char>, values: Seq<Option<Seq<char>>>)
    requires
        !s.contains('%'),
    ensures
        env_expanded(s, values) == s,
        env_name_list(s) == Seq::<Seq<char>>::empty(),
{
    text::lemma_first_index(s, '%');
}

/// Where no name has a value, the text stays as it is.
pub proof fn law_expand_unknown_names(s: Seq<char>, values: Seq<Option<Seq<char>>>)
    requires
        forall|i: int| 0 <= i < values.len() ==> (#[trigger] values[i]) is None,
    ensures
        env_expanded(s, values) == s,
    decreases s.len(),
{
    text::lemma_first_index(s, '%');
    let start = first_index(s, '%');
    if start < s.len() {
        let after = s.skip(start + 1);
        text::lemma_first_index(after, '%');
        let end = first_index(after, '%');
        if end < after.len() {
            let next = if values.len() > 0 {
                values.skip(1)
            } else {
                values
            };
            law_expand_unknown_names(after.skip(end + 1), next);
            assert(s.take(start) + (seq!['%'] + after.take(end) + seq!['%']) + after.skip(end + 1)
                =~= s);
        }
    }
}

/// A top-level window that counts as a window of an application: visible, no
/// tool window, not owned (unless it asks for a place in the task bar), not
/// cloaked, with a title, and of another process.
pub open spec fn app_window(
    visible: bool,
    ex: u32,
    owned: bool,
    cloaked: bool,
    title: Seq<char>,
    own_process: bool,
) -> bool {
    &&& visible
    &&& !(ex & WS_EX_TOOLWINDOW != 0 && ex & WS_EX_APPWINDOW == 0)
    &&& !(owned && ex & WS_EX_APPWINDOW == 0)
    &&& !cloaked
    &&& title.len() > 0
    &&& !own_process
}

/// Whether a top-level window counts as a window of an application.
pub fn is_app_window(
    visible: bool,
    ex: u32,
    owned: bool,
    cloaked: bool,
    title: &str,
    own_process: bool,
) -> (r: bool)
    ensures
        r == app_window(visible, ex, owned, cloaked, title@, own_process),
{
    visible && !(ex & WS_EX_TOOLWINDOW != 0 && ex & WS_EX_APPWINDOW == 0) && !(owned && ex
        & WS_EX_APPWINDOW == 0) && !cloaked && !title.is_empty() && !own_process
}

/// A window as the system reports it, with what is known of its process.
#[derive(Debug)]
pub struct RawWindow {
    pub hwnd: u64,
    pub title: String,
    pub minimized: bool,
    /// The image of its process; `None` where it cannot be read.
    pub path: Option<String>,
    /// The application identity that the window itself carries.
    pub window_aumid: Option<String>,
    /// The application identity of its process.
    pub process_aumid: Option<String>,
    /// Whether its process has administrator rights.
    pub elevated: bool,
    /// The description in the image's version resource.
    pub description: Option<String>,
    /// The file name of the image without its extension.
    pub stem: Option<String>,
}

/// The contents of a `RawWindow`.
#[verifier::ext_equal]
pub struct RawView {
    pub hwnd: u64,
    pub title: Seq<char>,
    pub minimized: bool,
    pub path: Option<Seq<char>>,
    pub window_aumid: Option<Seq<char>>,
    pub process_aumid: Option<Seq<char>>,
    pub elevated: bool,
    pub description: Option<Seq<char>>,
    pub stem: Option<Seq<char>>,
}

impl View for RawWindow {
    type V = RawView;

    open spec fn view(&self) -> RawView {
        RawView {
            hwnd: self.hwnd,
            title: self.title@,
            minimized: self.minimized,
            path: opt_view(self.path),
            window_aumid: opt_view(self.window_aumid),
            process_aumid: opt_view(self.process_aumid),
            elevated: self.elevated,
            description: opt_view(self.description),
            stem: opt_view(self.stem),
        }
    }
}

/// The contents of a list of windows.
pub open spec fn raw_views(s: Seq<RawWindow>) -> Seq<RawView> {
    Seq::new(s.len(), |i: int| s[i]@)
}

/// What an application is known by.
#[derive(Debug)]
pub struct Identity {
    pub id: String,
    pub name: String,
    pub kind: AppKind,
    pub target: String,
}

/// The contents of an `Identity`.
#[verifier::ext_equal]
pub struct IdentityView {
    pub id: Seq<char>,
    pub name: Seq<char>,
    pub kind: AppKind,
    pub target: Seq<char>,
}

impl View for Identity {
    type V = IdentityView;

    open spec fn view(&self) -> IdentityView {
        IdentityView { id: self.id@, name: self.name@, kind: self.kind, target: self.target@ }
    }
}

/// The package identity of a window: its own, else its process's.
pub open spec fn package_identity(w: RawView) -> Option<Seq<char>> {
    if w.window_aumid is Some && packaged(w.window_aumid->0) {
        w.window_aumid
    } else if w.process_aumid is Some && packaged(w.process_aumid->0) {
        w.process_aumid
    } else {
        None
    }
}

/// The name of a program: its description, else its file name, else its path.
pub open spec fn program_name(
    path: Seq<char>,
    description: Option<Seq<char>>,
    stem: Option<Seq<char>>,
) -> Seq<char> {
    match description {
        Some(d) => d,
        None => match stem {
            Some(s) => s,
            None => path,
        },
    }
}

/// What the application of a window is known by.
pub open spec fn window_identity(w: RawView, path: Seq<char>) -> IdentityView {
    match package_identity(w) {
        Some(a) => IdentityView {
            id: target_id(APPS_FOLDER_PREFIX@ + a),
            name: if w.title.len() == 0 {
                a.skip(first_index(a, '!') + 1)
            } else {
                w.title
            },
            kind: AppKind::Uwp,
            target: APPS_FOLDER_PREFIX@ + a,
        },
        None => if UWP_HOST@.is_suffix_of(lowercase(path)) {
            IdentityView {
                id: "uwp:"@ + lowercase(w.title),
                name: w.title,
                kind: AppKind::Uwp,
                target: path,
            }
        } else {
            IdentityView {
                id: target_id(path),
                name: program_name(path, w.description, w.stem),
                kind: AppKind::Win32,
                target: path,
            }
        },
    }
}

/// The name of a program: its description, else its file name, else its path.
pub fn display_name_for(
    path: &str,
    description: &Option<String>,
    stem: &Option<String>,
) -> (r: String)
    ensures
        r@ == program_name(path@, opt_view(*description), opt_view(*stem)),
{
    match description {
        Some(d) => d.clone(),
        None => match stem {
            Some(s) => s.clone(),
            None => path.to_owned(),
        },
    }
}

/// The package identity of a window: its own, else its process's.
pub fn package_of(w: &RawWindow) -> (r: Option<String>)
    ensures
        opt_view(r) == package_identity(w@),
{
    if let Some(a) = &w.window_aumid {
        if is_packaged(a.as_str()) {
            return Some(a.clone());
        }
    }
    if let Some(a) = &w.process_aumid {
        if is_packaged(a.as_str()) {
            return Some(a.clone());
        }
    }
    None
}

/// What the application of a window is known by.
pub fn identify(w: &RawWindow, path: &str) -> (r: Identity)
    ensures
        r@ == window_identity(w@, path@),
{
    match package_of(w) {
        Some(a) => {
            let name = if w.title.as_str().is_empty() {
                let v = text::chars_of(a.as_str());
                let n: usize = v.len();
                let i = text::index_from(&v, '!', 0);
                proof {
                    assert(a@.skip(0) =~= a@);
                    text::lemma_first_index(a@, '!');
                    assert(i < v@.len());
                    assert(v@.subrange(i + 1, v@.len() as int) =~= a@.skip(i + 1));
                }
                text::string_of(&v, i + 1, n)
            } else {
                w.title.clone()
            };
            let target = apps_folder_path(a.as_str());
            Identity { id: id_for_target(target.as_str()), name, kind: AppKind::Uwp, target }
        },
        None => if is_uwp_host(path) {
            Identity {
                id: text::concat("uwp:", w.title.as_str().to_lowercase().as_str()),
                name: w.title.clone(),
                kind: AppKind::Uwp,
                target: path.to_owned(),
            }
        } else {
            Identity {
                id: id_for_target(path),
                name: display_name_for(path, &w.description, &w.stem),
                kind: AppKind::Win32,
                target: path.to_owned(),
            }
        },
    }
}

/// The position of the first entry with that identity, or the length.
pub open spec fn entry_index(g: Seq<AppView>, id: Seq<char>) -> int
    decreases g.len(),
{
    if g.len() == 0 {
        0
    } else if g[0].id == id {
        0
    } else {
        1 + entry_index(g.skip(1), id)
    }
}

/// Before the first entry with that identity no entry has it.
pub proof fn lemma_entry_index(g: Seq<AppView>, id: Seq<char>)
    ensures
        0 <= entry_index(g, id) <= g.len(),
        entry_index(g, id) < g.len() ==> g[entry_index(g, id)].id == id,
        forall|i: int| 0 <= i < entry_index(g, id) ==> (#[trigger] g[i]).id != id,
    decreases g.len(),
{
    if g.len() > 0 && g[0].id != id {
        lemma_entry_index(g.skip(1), id);
        assert forall|i: int| 0 <= i < entry_index(g, id) implies (#[trigger] g[i]).id != id by {
            if i > 0 {
                assert(g[i] == g.skip(1)[i - 1]);
            }
        }
    }
}

/// The position of the first entry with that identity, or the length.
pub fn find_entry(g: &Vec<AppEntry>, id: &str) -> (r: usize)
    ensures
        r == entry_index(app_views(g@), id@),
        r <= g@.len(),
{
    let mut i: usize = 0;
    let ghost all = app_views(g@);
    assert(all.skip(0) =~= all);
    while i < g.len()
        invariant
            i <= g@.len(),
            all == app_views(g@),
            entry_index(all, id@) == i + entry_index(all.skip(i as int), id@),
        decreases g@.len() - i,
    {
        assert(all.skip(i as int)[0] == g@[i as int]@);
        assert(all.skip(i as int).skip(1) =~= all.skip(i + 1));
        if text::same(g[i].id.as_str(), id) {
            return i;
        }
        i += 1;
    }
    assert(all.skip(i as int).len() == 0);
    i
}

/// The first entry of an application, before any window is added to it.
pub open spec fn new_group(w: RawView, path: Seq<char>) -> AppView {
    let d = window_identity(w, path);
    AppView {
        id: d.id,
        display_name: d.name,
        kind: d.kind,
        target: d.target,
        is_elevated: w.elevated,
        has_foreground: false,
        running: true,
        windows: Seq::empty(),
        separator: false,
        is_folder: false,
        children: Seq::empty(),
    }
}

/// An entry with one window more.
pub open spec fn with_window(e: AppView, w: RawView, foreground: u64) -> AppView {
    AppView {
        has_foreground: e.has_foreground || (w.hwnd == foreground && !w.minimized),
        windows: e.windows.push(
            WindowView { hwnd: w.hwnd, title: w.title, minimized: w.minimized },
        ),
        ..e
    }
}

/// The applications after one window more: it joins the application with its
/// identity, or starts a new one at the end. A window whose process cannot be
/// read is left out.
pub open spec fn add_window(g: Seq<AppView>, w: RawView, foreground: u64) -> Seq<AppView> {
    match w.path {
        None => g,
        Some(path) => {
            let i = entry_index(g, window_identity(w, path).id);
            if i < g.len() {
                g.update(i, with_window(g[i], w, foreground))
            } else {
                g.push(with_window(new_group(w, path), w, foreground))
            }
        },
    }
}

/// The windows grouped into applications, in the order in which each
/// application is first seen.
pub open spec fn grouped(ws: Seq<RawView>, foreground: u64) -> Seq<AppView>
    decreases ws.len(),
{
    if ws.len() == 0 {
        Seq::empty()
    } else {
        add_window(grouped(ws.drop_last(), foreground), ws.last(), foreground)
    }
}

fn push_window(e: &mut AppEntry, w: &RawWindow, foreground: u64)
    ensures
        final(e)@ == with_window(old(e)@, w@, foreground),
{
    if w.hwnd == foreground && !w.minimized {
        e.has_foreground = true;
    }
    let ghost before = e.windows@;
    e.windows.push(WindowRef { hwnd: w.hwnd, title: w.title.clone(), minimized: w.minimized });
    assert(window_views(e.windows@) =~= window_views(before).push(
        WindowView { hwnd: w.hwnd, title: w.title@, minimized: w.minimized },
    ));
    assert(e@.children =~= old(e)@.children);
    assert(e@ =~= with_window(old(e)@, w@, foreground));
}

/// Groups the windows into applications, in the order in which each
/// application is first seen.
pub fn enumerate_apps(raw: &Vec<RawWindow>, foreground: u64) -> (r: Vec<AppEntry>)
    ensures
        app_views(r@) == grouped(raw_views(raw@), foreground),
{
    let mut g: Vec<AppEntry> = Vec::new();
    let ghost all = raw_views(raw@);
    let mut i: usize = 0;
    assert(all.take(0) =~= Seq::empty());
    assert(app_views(g@) =~= Seq::empty());
    while i < raw.len()
        invariant
            i <= raw@.len(),
            all == raw_views(raw@),
            app_views(g@) == grouped(all.take(i as int), foreground),
        decreases raw@.len() - i,
    {
        let w = &raw[i];
        proof {
            assert(all.take(i + 1).drop_last() =~= all.take(i as int));
            assert(all.take(i + 1).last() == w@);
        }
        if let Some(path) = &w.path {
            let d = identify(w, path.as_str());
            let k = find_entry(&g, d.id.as_str());
            let ghost before = app_views(g@);
            if k < g.len() {
                let ghost old_g = g@;
                let mut e = g.remove(k);
                push_window(&mut e, w, foreground);
                g.insert(k, e);
                assert(app_views(g@) =~= before.update(k as int, e@));
            } else {
                let mut e = AppEntry {
                    id: d.id,
                    display_name: d.name,
                    kind: d.kind,
                    target: d.target,
                    is_elevated: w.elevated,
                    has_foreground: false,
                    running: true,
                    windows: Vec::new(),
                    separator: false,
                    is_folder: false,
                    children: Vec::new(),
                };
                assert(e@.windows =~= Seq::empty());
                assert(e@.children =~= Seq::empty());
                assert(e@ =~= new_group(w@, path@));
                push_window(&mut e, w, foreground);
                g.push(e);
                assert(app_views(g@) =~= before.push(e@));
            }
        }
        i += 1;
    }
    assert(all.take(i as int) =~= all);
    g
}

/// Whether one of the windows is in the foreground and not minimised.
pub open spec fn shows_foreground(ws: Seq<WindowView>, foreground: u64) -> bool {
    exists|j: int|
        0 <= j < ws.len() && (#[trigger] ws[j]).hwnd == foreground && !ws[j].minimized
}

/// What holds of every list of applications that grouping gives.
pub open spec fn group_list(g: Seq<AppView>, foreground: u64) -> bool {
    &&& forall|i: int, j: int|
        0 <= i < j < g.len() ==> (#[trigger] g[i]).id != (#[trigger] g[j]).id
    &&& forall|i: int|
        0 <= i < g.len() ==> {
            let e = #[trigger] g[i];
            &&& e.running && e.windows.len() > 0
            &&& !e.separator && !e.is_folder && e.children.len() == 0
            &&& e.has_foreground == shows_foreground(e.windows, foreground)
        }
}

proof fn lemma_with_window(e: AppView, w: RawView, foreground: u64)
    requires
        e.has_foreground == shows_foreground(e.windows, foreground),
    ensures
        ({
            let n = with_window(e, w, foreground);
            n.has_foreground == shows_foreground(n.windows, foreground)
        }),
{
    let n = with_window(e, w, foreground);
    let last = n.windows.len() - 1;
    assert(n.windows[last].hwnd == w.hwnd);
    if e.has_foreground {
        let j = choose|j: int|
            0 <= j < e.windows.len() && (#[trigger] e.windows[j]).hwnd == foreground
                && !e.windows[j].minimized;
        assert(n.windows[j] == e.windows[j]);
    }
    if shows_foreground(n.windows, foreground) {
        let j = choose|j: int|
            0 <= j < n.windows.len() && (#[trigger] n.windows[j]).hwnd == foreground
                && !n.windows[j].minimized;
        if j < last {
            assert(e.windows[j] == n.windows[j]);
        }
    }
}

/// Grouping gives each application once, each with at least one window and
/// running, and marks exactly those that show the foreground window.
pub proof fn law_groups(ws: Seq<RawView>, foreground: u64)
    ensures
        group_list(grouped(ws, foreground), foreground),
    decreases ws.len(),
{
    if ws.len() > 0 {
        law_groups(ws.drop_last(), foreground);
        let g = grouped(ws.drop_last(), foreground);
        let w = ws.last();
        if w.path is Some {
            let path = w.path->0;
            let id = window_identity(w, path).id;
            lemma_entry_index(g, id);
            let i = entry_index(g, id);
            if i < g.len() {
                lemma_with_window(g[i], w, foreground);
            } else {
                lemma_with_window(new_group(w, path), w, foreground);
            }
        }
    }
}

/// How many windows the applications have together.
pub open spec fn window_count(g: Seq<AppView>) -> int
    decreases g.len(),
{
    if g.len() == 0 {
        0
    } else {
        window_count(g.drop_last()) + g.last().windows.len()
    }
}

/// How many of the windows belong to a process that can be read.
pub open spec fn readable_count(ws: Seq<RawView>) -> int
    decreases ws.len(),
{
    if ws.len() == 0 {
        0
    } else {
        readable_count(ws.drop_last()) + if ws.last().path is Some {
            1int
        } else {
            0
        }
    }
}

proof fn lemma_count_update(g: Seq<AppView>, i: int, e: AppView)
    requires
        0 <= i < g.len(),
    ensures
        window_count(g.update(i, e)) == window_count(g) - g[i].windows.len() + e.windows.len(),
    decreases g.len(),
{
    let u = g.update(i, e);
    if i == g.len() - 1 {
        assert(u.drop_last() =~= g.drop_last());
    } else {
        lemma_count_update(g.drop_last(), i, e);
        assert(u.drop_last() =~= g.drop_last().update(i, e));
    }
}

/// The windows of an identity whose process can be read, in their order.
pub open spec fn windows_of(ws: Seq<RawView>, id: Seq<char>) -> Seq<WindowView>
    decreases ws.len(),
{
    if ws.len() == 0 {
        Seq::empty()
    } else {
        let w = ws.last();
        let before = windows_of(ws.drop_last(), id);
        match w.path {
            Some(path) => if window_identity(w, path).id == id {
                before.push(WindowView { hwnd: w.hwnd, title: w.title, minimized: w.minimized })
            } else {
                before
            },
            None => before,
        }
    }
}

proof fn lemma_groups_hold_their_windows(ws: Seq<RawView>, foreground: u64)
    ensures
        forall|i: int|
            0 <= i < grouped(ws, foreground).len() ==> (#[trigger] grouped(ws, foreground)[
                i
            ]).windows == windows_of(ws, grouped(ws, foreground)[i].id),
        forall|id: Seq<char>| #[trigger]
            windows_of(ws, id).len() > 0 ==> entry_index(grouped(ws, foreground), id) < grouped(
                ws,
                foreground,
            ).len(),
    decreases ws.len(),
{
    if ws.len() > 0 {
        let prev = ws.drop_last();
        lemma_groups_hold_their_windows(prev, foreground);
        law_groups(prev, foreground);
        let g = grouped(prev, foreground);
        let n = grouped(ws, foreground);
        let w = ws.last();
        if w.path is Some {
            let path = w.path->0;
            let own = window_identity(w, path).id;
            lemma_entry_index(g, own);
            let at = entry_index(g, own);
            assert(windows_of(prev, own).len() > 0 ==> at < g.len());
            assert forall|i: int| 0 <= i < n.len() implies (#[trigger] n[i]).windows == windows_of(
                ws,
                n[i].id,
            ) by {
                if i < g.len() {
                    assert(g[i].windows == windows_of(prev, g[i].id));
                    assert(n[i].id == g[i].id);
                    if at < g.len() && i != at {
                        assert(g[i].id != g[at].id);
                    }
                } else {
                    assert(windows_of(prev, own) =~= Seq::empty());
                }
            }
            assert forall|id: Seq<char>| #[trigger] windows_of(ws, id).len() > 0 implies entry_index(
                n,
                id,
            ) < n.len() by {
                lemma_entry_index(n, id);
                if id == own {
                    let k = if at < g.len() {
                        at
                    } else {
                        g.len() as int
                    };
                    assert(n[k].id == id);
                } else {
                    assert(windows_of(prev, id).len() > 0);
                    lemma_entry_index(g, id);
                    let k = entry_index(g, id);
                    assert(n[k].id == g[k].id);
                }
            }
        } else {
            assert forall|id: Seq<char>| #[trigger] windows_of(ws, id).len() > 0 implies entry_index(
                n,
                id,
            ) < n.len() by {
                assert(windows_of(prev, id).len() > 0);
            }
        }
    }
}

/// Grouping neither loses nor repeats a window whose process can be read: the
/// applications have as many together, each has exactly those of its identity,
/// in their order, and each identity with such a window has an application.
pub proof fn law_groups_keep_windows(ws: Seq<RawView>, foreground: u64)
    ensures
        window_count(grouped(ws, foreground)) == readable_count(ws),
        forall|i: int|
            0 <= i < grouped(ws, foreground).len() ==> (#[trigger] grouped(ws, foreground)[
                i
            ]).windows == windows_of(ws, grouped(ws, foreground)[i].id),
        forall|id: Seq<char>| #[trigger]
            windows_of(ws, id).len() > 0 ==> entry_index(grouped(ws, foreground), id) < grouped(
                ws,
                foreground,
            ).len(),
    decreases ws.len(),
{
    lemma_groups_hold_their_windows(ws, foreground);
    if ws.len() > 0 {
        law_groups_keep_windows(ws.drop_last(), foreground);
        let g = grouped(ws.drop_last(), foreground);
        let w = ws.last();
        if w.path is Some {
            let path = w.path->0;
            let id = window_identity(w, path).id;
            lemma_entry_index(g, id);
            let i = entry_index(g, id);
            if i < g.len() {
                lemma_count_update(g, i, with_window(g[i], w, foreground));
            } else {
                let n = g.push(with_window(new_group(w, path), w, foreground));
                assert(n.drop_last() =~= g);
            }
        }
    }
}

// ---------------------------------------------------------------- what identities and groups are for

/// A window with a package identity, its own or else its process's, belongs to
/// the application that the package names, whatever its title and its program:
/// it is known by `uwp:` and the lower-case package identity, and is launched
/// through the shell's folder of applications. It goes by its title, or where it
/// has none by what stands behind the exclamation mark.
pub proof fn law_package_names_the_application(
    w: RawView,
    path: Seq<char>,
    family: Seq<char>,
    app: Seq<char>,
)
    requires
        !family.contains('!'),
        w.window_aumid == Some(family + seq!['!'] + app) || (w.process_aumid == Some(
            family + seq!['!'] + app,
        ) && (w.window_aumid is None || !w.window_aumid->0.contains('!'))),
    ensures
        window_identity(w, path).id == "uwp:"@ + lowercase(family + seq!['!'] + app),
        window_identity(w, path).target == "shell:AppsFolder\\"@ + (family + seq!['!'] + app),
        window_identity(w, path).kind == AppKind::Uwp,
        w.title.len() > 0 ==> window_identity(w, path).name == w.title,
        w.title.len() == 0 ==> window_identity(w, path).name == app,
{
    let a = family + seq!['!'] + app;
    let n = family.len() as int;
    assert(a[n] == '!');
    assert(a.contains('!'));
    text::lemma_first_index(a, '!');
    let i = first_index(a, '!');
    if i < n {
        assert(family[i] == a[i]);
    }
    assert(i == n);
    assert(a.skip(n + 1) =~= app);
    let t = APPS_FOLDER_PREFIX@ + a;
    assert(t.subrange(0, APPS_FOLDER_PREFIX@.len() as int) =~= APPS_FOLDER_PREFIX@);
    assert(t.skip(APPS_FOLDER_PREFIX@.len() as int) =~= a);
}

/// A window without a package identity belongs to its program: one of the host
/// of packaged applications goes by its title, for the host has many; any other
/// is known by its path in lower case, launched by its path, and named by its
/// description, else its file name, else its path.
pub proof fn law_program_names_the_application(w: RawView, path: Seq<char>)
    requires
        w.window_aumid is None || !w.window_aumid->0.contains('!'),
        w.process_aumid is None || !w.process_aumid->0.contains('!'),
    ensures
        window_identity(w, path).target == path,
        "applicationframehost.exe"@.is_suffix_of(lowercase(path)) ==> {
            &&& window_identity(w, path).id == "uwp:"@ + lowercase(w.title)
            &&& window_identity(w, path).name == w.title
            &&& window_identity(w, path).kind == AppKind::Uwp
        },
        !"applicationframehost.exe"@.is_suffix_of(lowercase(path)) ==> {
            &&& window_identity(w, path).kind == AppKind::Win32
            &&& !"shell:AppsFolder\\"@.is_prefix_of(path) ==> window_identity(w, path).id
                == lowercase(path)
            &&& w.description is Some ==> window_identity(w, path).name == w.description->0
            &&& w.description is None && w.stem is Some ==> window_identity(w, path).name
                == w.stem->0
            &&& w.description is None && w.stem is None ==> window_identity(w, path).name == path
        },
{
}

/// The window stands among the windows of an application.
pub open spec fn stands_in(w: RawView, e: AppView) -> bool {
    exists|m: int|
        0 <= m < e.windows.len() && (#[trigger] e.windows[m]).hwnd == w.hwnd && e.windows[m].title
            == w.title && e.windows[m].minimized == w.minimized
}

proof fn lemma_stands_longer(w: RawView, e: AppView, v: RawView, foreground: u64)
    ensures
        stands_in(v, with_window(e, v, foreground)),
        stands_in(w, e) ==> stands_in(w, with_window(e, v, foreground)),
{
    let n = with_window(e, v, foreground);
    assert(n.windows[e.windows.len() as int].hwnd == v.hwnd);
    if stands_in(w, e) {
        let m = choose|m: int|
            0 <= m < e.windows.len() && (#[trigger] e.windows[m]).hwnd == w.hwnd
                && e.windows[m].title == w.title && e.windows[m].minimized == w.minimized;
        assert(n.windows[m] == e.windows[m]);
    }
}

/// Every window whose process can be read stands in an application that has its
/// identity.
pub proof fn law_every_window_has_its_application(ws: Seq<RawView>, foreground: u64, i: int)
    requires
        0 <= i < ws.len(),
        ws[i].path is Some,
    ensures
        exists|k: int|
            0 <= k < grouped(ws, foreground).len() && (#[trigger] grouped(ws, foreground)[k]).id
                == window_identity(ws[i], ws[i].path->0).id && stands_in(
                ws[i],
                grouped(ws, foreground)[k],
            ),
    decreases ws.len(),
{
    let prev = ws.drop_last();
    let g = grouped(prev, foreground);
    let n = grouped(ws, foreground);
    let v = ws.last();
    let id = window_identity(ws[i], ws[i].path->0).id;
    if v.path is Some {
        lemma_entry_index(g, window_identity(v, v.path->0).id);
    }
    if i == ws.len() - 1 {
        let at = entry_index(g, id);
        if at < g.len() {
            lemma_stands_longer(v, g[at], v, foreground);
            assert(n[at].id == id);
        } else {
            lemma_stands_longer(v, new_group(v, v.path->0), v, foreground);
            assert(n[g.len() as int].id == id);
        }
    } else {
        law_every_window_has_its_application(prev, foreground, i);
        let k = choose|k: int|
            0 <= k < g.len() && (#[trigger] g[k]).id == id && stands_in(ws[i], g[k]);
        lemma_stands_longer(ws[i], g[k], v, foreground);
        assert(n[k].id == g[k].id);
    }
}

/// Windows of one package stand in one application, whatever their titles and
/// programs, and that application has the identity of the package.
pub proof fn law_one_package_is_one_application(
    ws: Seq<RawView>,
    foreground: u64,
    i: int,
    j: int,
    aumid: Seq<char>,
)
    requires
        0 <= i < ws.len() && 0 <= j < ws.len(),
        ws[i].path is Some && ws[j].path is Some,
        aumid.contains('!'),
        ws[i].window_aumid == Some(aumid) || (ws[i].window_aumid is None && ws[i].process_aumid
            == Some(aumid)),
        ws[j].window_aumid == Some(aumid) || (ws[j].window_aumid is None && ws[j].process_aumid
            == Some(aumid)),
    ensures
        exists|k: int|
            0 <= k < grouped(ws, foreground).len() && (#[trigger] grouped(ws, foreground)[k]).id
                == "uwp:"@ + lowercase(aumid) && stands_in(ws[i], grouped(ws, foreground)[k])
                && stands_in(ws[j], grouped(ws, foreground)[k]),
{
    text::lemma_first_index(aumid, '!');
    let n = first_index(aumid, '!');
    let (family, app) = (aumid.take(n), aumid.skip(n + 1));
    assert(aumid =~= family + seq!['!'] + app);
    assert(!family.contains('!'));
    law_package_names_the_application(ws[i], ws[i].path->0, family, app);
    law_package_names_the_application(ws[j], ws[j].path->0, family, app);
    law_every_window_has_its_application(ws, foreground, i);
    law_every_window_has_its_application(ws, foreground, j);
    law_groups(ws, foreground);
    let g = grouped(ws, foreground);
    let id = "uwp:"@ + lowercase(aumid);
    let k = choose|k: int| 0 <= k < g.len() && (#[trigger] g[k]).id == id && stands_in(ws[i], g[k]);
    let l = choose|l: int| 0 <= l < g.len() && (#[trigger] g[l]).id == id && stands_in(ws[j], g[l]);
    assert(k == l);
}

/// The window that an application was first seen by.
pub open spec fn founded_by(ws: Seq<RawView>, e: AppView, i: int) -> bool {
    &&& 0 <= i < ws.len()
    &&& ws[i].path is Some
    &&& window_identity(ws[i], ws[i].path->0).id == e.id
    &&& forall|j: int|
        0 <= j < i && (#[trigger] ws[j]).path is Some ==> window_identity(ws[j], ws[j].path->0).id
            != e.id
}

/// The first window of an application, and it says what the application is.
pub open spec fn told_by(ws: Seq<RawView>, e: AppView, i: int) -> bool {
    founded_by(ws, e, i) && ({
        let d = window_identity(ws[i], ws[i].path->0);
        e.display_name == d.name && e.kind == d.kind && e.target == d.target && e.is_elevated
            == ws[i].elevated
    })
}

proof fn lemma_told_longer(ws: Seq<RawView>, e: AppView, n: AppView, i: int)
    requires
        ws.len() > 0,
        told_by(ws.drop_last(), e, i),
        n.id == e.id && n.display_name == e.display_name && n.kind == e.kind,
        n.target == e.target && n.is_elevated == e.is_elevated,
    ensures
        told_by(ws, n, i),
        i < ws.len() - 1,
{
    let prev = ws.drop_last();
    assert(prev[i] == ws[i]);
    assert forall|j: int| 0 <= j < i && (#[trigger] ws[j]).path is Some implies window_identity(
        ws[j],
        ws[j].path->0,
    ).id != n.id by {
        assert(prev[j] == ws[j]);
    }
}

proof fn lemma_founded_once(ws: Seq<RawView>, e: AppView, i: int, j: int)
    requires
        founded_by(ws, e, i),
        founded_by(ws, e, j),
    ensures
        i == j,
{
    if i < j {
        assert(ws[i].path is Some);
    } else if j < i {
        assert(ws[j].path is Some);
    }
}

/// An application is what the first of its windows says: its name, its kind, its
/// target and its rights.
pub proof fn law_first_window_says_what_it_is(ws: Seq<RawView>, foreground: u64, k: int)
    requires
        0 <= k < grouped(ws, foreground).len(),
    ensures
        exists|i: int| told_by(ws, grouped(ws, foreground)[k], i),
    decreases ws.len(),
{
    let n = grouped(ws, foreground);
    let prev = ws.drop_last();
    let g = grouped(prev, foreground);
    let v = ws.last();
    let last = ws.len() - 1;
    if v.path is Some {
        lemma_entry_index(g, window_identity(v, v.path->0).id);
    }
    if k < g.len() {
        law_first_window_says_what_it_is(prev, foreground, k);
        let i = choose|i: int| told_by(prev, g[k], i);
        lemma_told_longer(ws, g[k], n[k], i);
    } else {
        let e = n[k];
        assert forall|j: int| 0 <= j < last && (#[trigger] ws[j]).path is Some implies
            window_identity(ws[j], ws[j].path->0).id != e.id by {
            assert(prev[j] == ws[j]);
            law_every_window_has_its_application(prev, foreground, j);
        }
        assert(told_by(ws, e, last));
    }
}

/// Applications stand in the order in which the first of their windows do.
pub proof fn law_applications_in_order(
    ws: Seq<RawView>,
    foreground: u64,
    k: int,
    l: int,
    i: int,
    j: int,
)
    requires
        0 <= k < l < grouped(ws, foreground).len(),
        founded_by(ws, grouped(ws, foreground)[k], i),
        founded_by(ws, grouped(ws, foreground)[l], j),
    ensures
        i < j,
    decreases ws.len(),
{
    let n = grouped(ws, foreground);
    let prev = ws.drop_last();
    let g = grouped(prev, foreground);
    let v = ws.last();
    if v.path is Some {
        lemma_entry_index(g, window_identity(v, v.path->0).id);
    }
    law_first_window_says_what_it_is(prev, foreground, k);
    let a = choose|a: int| told_by(prev, g[k], a);
    lemma_told_longer(ws, g[k], n[k], a);
    lemma_founded_once(ws, n[k], i, a);
    if l < g.len() {
        law_first_window_says_what_it_is(prev, foreground, l);
        let b = choose|b: int| told_by(prev, g[l], b);
        lemma_told_longer(ws, g[l], n[l], b);
        lemma_founded_once(ws, n[l], j, b);
        law_applications_in_order(prev, foreground, k, l, i, j);
    } else {
        if j < ws.len() - 1 {
            assert(prev[j] == ws[j]);
            law_every_window_has_its_application(prev, foreground, j);
        }
    }
}

// ---------------------------------------------------------------- the dock

/// What the dock shows for a pinned entry.
pub open spec fn shown(p: PinnedView, running: Seq<AppView>) -> AppView
    decreases p,
{
    let blank = AppView {
        id: p.id,
        display_name: p.display_name,
        kind: AppKind::Unknown,
        target: Seq::empty(),
        is_elevated: false,
        has_foreground: false,
        running: false,
        windows: Seq::empty(),
        separator: false,
        is_folder: false,
        children: Seq::empty(),
    };
    if p.separator {
        AppView { display_name: Seq::empty(), separator: true, ..blank }
    } else if p.is_folder {
        AppView {
            is_folder: true,
            children: Seq::new(
                p.children.len(),
                |i: int|
                    if 0 <= i < p.children.len() {
                        shown(p.children[i], running)
                    } else {
                        arbitrary()
                    },
            ),
            ..blank
        }
    } else {
        let k = entry_index(running, p.id);
        if k < running.len() {
            AppView { display_name: p.display_name, ..running[k] }
        } else {
            AppView { kind: AppKind::Win32, target: p.target, ..blank }
        }
    }
}

/// What the dock shows for a list of pinned entries.
pub open spec fn shown_list(ps: Seq<PinnedView>, running: Seq<AppView>) -> Seq<AppView> {
    Seq::new(ps.len(), |i: int| shown(ps[i], running))
}

/// What the dock shows for a pinned entry: a separator and a folder are never
/// running, an application shows its windows where it runs, and a placeholder
/// where it does not.
pub fn entry_for(p: &PinnedApp, running: &Vec<AppEntry>) -> (r: AppEntry)
    ensures
        r@ == shown(p@, app_views(running@)),
    decreases p,
{
    if p.separator {
        let r = AppEntry {
            id: p.id.clone(),
            display_name: String::new(),
            kind: AppKind::Unknown,
            target: String::new(),
            is_elevated: false,
            has_foreground: false,
            running: false,
            windows: Vec::new(),
            separator: true,
            is_folder: false,
            children: Vec::new(),
        };
        assert(r@.children =~= Seq::<AppView>::empty());
        assert(r@.windows =~= Seq::<WindowView>::empty());
        assert(r@ =~= shown(p@, app_views(running@)));
        return r;
    }
    if p.is_folder {
        let mut children: Vec<AppEntry> = Vec::new();
        let mut i: usize = 0;
        while i < p.children.len()
            invariant
                i <= p.children@.len(),
                children@.len() == i,
                forall|j: int|
                    0 <= j < i ==> (#[trigger] children@[j])@ == shown(
                        p.children@[j]@,
                        app_views(running@),
                    ),
            decreases p.children@.len() - i,
        {
            children.push(entry_for(&p.children[i], running));
            i += 1;
        }
        let r = AppEntry {
            id: p.id.clone(),
            display_name: p.display_name.clone(),
            kind: AppKind::Unknown,
            target: String::new(),
            is_elevated: false,
            has_foreground: false,
            running: false,
            windows: Vec::new(),
            separator: false,
            is_folder: true,
            children,
        };
        proof {
            let s = shown(p@, app_views(running@));
            assert forall|j: int| 0 <= j < r@.children.len() implies r@.children[j]
                == s.children[j] by {
                assert(r@.children[j] == r.children@[j]@);
                assert(p@.children[j] == p.children@[j]@);
            }
            assert(r@.children =~= s.children);
            assert(r@.windows =~= s.windows);
            assert(r@ =~= s);
        }
        return r;
    }
    let k = find_entry(running, p.id.as_str());
    if k < running.len() {
        let mut e = running[k].clone();
        let ghost before = e@;
        e.display_name = p.display_name.clone();
        assert(e@.children =~= before.children);
        assert(e@ =~= shown(p@, app_views(running@)));
        e
    } else {
        let r = AppEntry {
            id: p.id.clone(),
            display_name: p.display_name.clone(),
            kind: AppKind::Win32,
            target: p.target.clone(),
            is_elevated: false,
            has_foreground: false,
            running: false,
            windows: Vec::new(),
            separator: false,
            is_folder: false,
            children: Vec::new(),
        };
        assert(r@.children =~= Seq::<AppView>::empty());
        assert(r@.windows =~= Seq::<WindowView>::empty());
        assert(r@ =~= shown(p@, app_views(running@)));
        r
    }
}

/// What the dock shows: one entry for each pinned one, in the same order.
pub fn enumerate_dock_apps(dock_apps: &Vec<PinnedApp>, running: &Vec<AppEntry>) -> (r: Vec<
    AppEntry,
>)
    ensures
        app_views(r@) == shown_list(pinned_views(dock_apps@), app_views(running@)),
{
    let mut r: Vec<AppEntry> = Vec::new();
    let mut i: usize = 0;
    while i < dock_apps.len()
        invariant
            i <= dock_apps@.len(),
            r@.len() == i,
            forall|j: int|
                0 <= j < i ==> (#[trigger] r@[j])@ == shown(
                    dock_apps@[j]@,
                    app_views(running@),
                ),
        decreases dock_apps@.len() - i,
    {
        r.push(entry_for(&dock_apps[i], running));
        i += 1;
    }
    assert(app_views(r@) =~= shown_list(pinned_views(dock_apps@), app_views(running@)));
    r
}

/// The dock shows each pinned entry under its own identity. A separator and a
/// folder never count as running, whatever runs; an application does exactly
/// where one with its identity runs.
pub proof fn law_shown(p: PinnedView, running: Seq<AppView>)
    requires
        forall|i: int| 0 <= i < running.len() ==> (#[trigger] running[i]).running,
    ensures
        shown(p, running).id == p.id,
        p.separator || p.is_folder ==> !shown(p, running).running,
        !p.separator && !p.is_folder ==> (shown(p, running).running <==> exists|i: int|
            0 <= i < running.len() && (#[trigger] running[i]).id == p.id),
{
    lemma_entry_index(running, p.id);
}

/// Where an application with the identity of a pinned entry runs, the entry
/// shows that application: its windows, target, kind, rights and foreground mark
/// are those, and only the name is the pinned one. So it has a window whenever
/// it runs.
pub proof fn law_shown_running(p: PinnedView, running: Seq<AppView>, k: int)
    requires
        !p.separator && !p.is_folder,
        0 <= k < running.len(),
        running[k].id == p.id,
        forall|i: int| 0 <= i < k ==> (#[trigger] running[i]).id != p.id,
    ensures
        shown(p, running).windows == running[k].windows,
        shown(p, running).target == running[k].target,
        shown(p, running).kind == running[k].kind,
        shown(p, running).is_elevated == running[k].is_elevated,
        shown(p, running).has_foreground == running[k].has_foreground,
        shown(p, running).running == running[k].running,
        shown(p, running).separator == running[k].separator,
        shown(p, running).is_folder == running[k].is_folder,
        shown(p, running).children == running[k].children,
        shown(p, running).display_name == p.display_name,
        shown(p, running).id == p.id,
{
    lemma_entry_index(running, p.id);
}

/// Where none runs, the entry is a placeholder: named as it is pinned, with no
/// window, and its target is there to be launched.
pub proof fn law_shown_placeholder(p: PinnedView, running: Seq<AppView>)
    requires
        !p.separator && !p.is_folder,
        forall|i: int| 0 <= i < running.len() ==> (#[trigger] running[i]).id != p.id,
    ensures
        shown(p, running).id == p.id,
        shown(p, running).display_name == p.display_name,
        shown(p, running).target == p.target,
        shown(p, running).kind == AppKind::Win32,
        shown(p, running).windows.len() == 0,
        !shown(p, running).running && !shown(p, running).has_foreground,
        !shown(p, running).is_elevated,
        !shown(p, running).separator && !shown(p, running).is_folder,
        shown(p, running).children.len() == 0,
{
    lemma_entry_index(running, p.id);
}

/// A separator is shown as one, without a name, a target or a window. A folder
/// is shown under its name with one cell for each of its entries, in their
/// order, each as that entry is shown by itself.
pub proof fn law_shown_separator_and_folder(p: PinnedView, running: Seq<AppView>)
    ensures
        p.separator || p.is_folder ==> {
            &&& shown(p, running).windows.len() == 0
            &&& shown(p, running).target.len() == 0
            &&& shown(p, running).kind == AppKind::Unknown
            &&& !shown(p, running).has_foreground && !shown(p, running).is_elevated
        },
        p.separator ==> {
            &&& shown(p, running).separator && !shown(p, running).is_folder
            &&& shown(p, running).display_name.len() == 0
            &&& shown(p, running).children.len() == 0
        },
        !p.separator && p.is_folder ==> {
            &&& shown(p, running).is_folder && !shown(p, running).separator
            &&& shown(p, running).display_name == p.display_name
            &&& shown(p, running).children.len() == p.children.len()
            &&& forall|i: int|
                0 <= i < p.children.len() ==> #[trigger] shown(p, running).children[i] == shown(
                    p.children[i],
                    running,
                )
        },
{
}

/// The dock shows as many entries as are pinned, each at its own place.
pub proof fn law_shown_in_order(ps: Seq<PinnedView>, running: Seq<AppView>, i: int)
    requires
        0 <= i < ps.len(),
    ensures
        shown_list(ps, running).len() == ps.len(),
        shown_list(ps, running)[i].id == ps[i].id,
        shown_list(ps, running)[i] == shown(ps[i], running),
{
    lemma_entry_index(running, ps[i].id);
}

/// A pinned package is shown as running as soon as one of its windows is open,
/// and has that window.
pub proof fn law_pinned_package_shows_its_windows(
    p: PinnedView,
    ws: Seq<RawView>,
    foreground: u64,
    i: int,
    aumid: Seq<char>,
)
    requires
        !p.separator && !p.is_folder,
        p.id == "uwp:"@ + lowercase(aumid),
        0 <= i < ws.len(),
        ws[i].path is Some,
        ws[i].window_aumid == Some(aumid),
        aumid.contains('!'),
    ensures
        shown(p, grouped(ws, foreground)).running,
        stands_in(ws[i], shown(p, grouped(ws, foreground))),
{
    let g = grouped(ws, foreground);
    law_one_package_is_one_application(ws, foreground, i, i, aumid);
    law_groups(ws, foreground);
    let k = choose|k: int|
        0 <= k < g.len() && (#[trigger] g[k]).id == p.id && stands_in(ws[i], g[k]);
    law_shown_running(p, g, k);
    let m = choose|m: int|
        0 <= m < g[k].windows.len() && (#[trigger] g[k].windows[m]).hwnd == ws[i].hwnd
            && g[k].windows[m].title == ws[i].title && g[k].windows[m].minimized
            == ws[i].minimized;
    assert(shown(p, g).windows[m] == g[k].windows[m]);
}

/// The name shown for a target that was found on this machine: for a shell
/// target the system's own name where it is not blank, else the target; for a
/// program its name.
pub fn discover_name(target: &str, shell_name: &Option<String>, program: &str) -> (r: String)
    ensures
        r@ == if shell_target(target@) {
            if shell_name is Some && trimmed(shell_name->0@).len() > 0 {
                shell_name->0@
            } else {
                target@
            }
        } else {
            program@
        },
{
    if is_shell_target(target) {
        if let Some(n) = shell_name {
            if !text::trim(n.as_str()).as_str().is_empty() {
                return n.clone();
            }
        }
        return target.to_owned();
    }
    program.to_owned()
}

/// Where the description stands in a version resource for a language and a
/// code page.
pub fn description_key(lang: u16, code_page: u16) -> (r: String)
    ensures
        r@ == "\\StringFileInfo\\"@ + text::zero_padded(text::digits(lang as nat, 16), 4)
            + text::zero_padded(text::digits(code_page as nat, 16), 4) + "\\FileDescription"@,
{
    let a = text::zero_pad(text::hex_string(lang as u64).as_str(), 4);
    let b = text::zero_pad(text::hex_string(code_page as u64).as_str(), 4);
    let mut r = text::concat3("\\StringFileInfo\\", a.as_str(), b.as_str());
    r.append("\\FileDescription");
    r
}

/// A value read from a version resource, without its terminating zeros and the
/// white space around it; `None` where nothing is left.
pub fn clean_description(raw: &str) -> (r: Option<String>)
    ensures
        opt_view(r) == {
            let s = trimmed(text::without_trailing(raw@, '\0'));
            if s.len() == 0 {
                None
            } else {
                Some(s)
            }
        },
{
    let s = text::trim(text::trim_end_char(raw, '\0').as_str());
    if s.as_str().is_empty() {
        None
    } else {
        Some(s)
    }
}

/// A value read from a shortcut file, without the white space around it; `None`
/// where nothing is left.
pub fn clean_profile_value(raw: &str) -> (r: Option<String>)
    ensures
        opt_view(r) == if trimmed(raw@).len() == 0 {
            None
        } else {
            Some(trimmed(raw@))
        },
{
    let s = text::trim(raw);
    if s.as_str().is_empty() {
        None
    } else {
        Some(s)
    }
}

/// A path read from the registry, without terminating zeros, white space around
/// it and the quotes around that.
pub open spec fn registry_path(raw: Seq<char>) -> Seq<char> {
    text::without_trailing(
        text::without_leading(trimmed(text::without_trailing(raw, '\0')), '"'),
        '"',
    )
}

/// A path read from the registry, without terminating zeros, white space around
/// it and the quotes around that.
pub fn clean_registry_path(raw: &str) -> (r: String)
    ensures
        r@ == registry_path(raw@),
{
    let s = text::trim(text::trim_end_char(raw, '\0').as_str());
    let s = text::trim_start_char(s.as_str(), '"');
    text::trim_end_char(s.as_str(), '"')
}

/// One place in the registry where a program may have left its path.
#[derive(Debug)]
pub struct PathProbe {
    /// Under the current user, else under the machine.
    pub current_user: bool,
    /// In the 32-bit view.
    pub wow32: bool,
    pub subkey: String,
}

/// The contents of a `PathProbe`.
pub struct ProbeView {
    pub current_user: bool,
    pub wow32: bool,
    pub subkey: Seq<char>,
}

impl View for PathProbe {
    type V = ProbeView;

    open spec fn view(&self) -> ProbeView {
        ProbeView { current_user: self.current_user, wow32: self.wow32, subkey: self.subkey@ }
    }
}

/// The places where a program may have left its path, in the order in which
/// they are asked: the user before the machine, the native view before the
/// 32-bit one, the name with its extension before the name without.
pub open spec fn path_probes(exe_name: Seq<char>) -> Seq<ProbeView> {
    let base = "SOFTWARE\\Microsoft\\Windows\\CurrentVersion\\App Paths\\"@;
    let full = base + exe_name;
    let bare = base + text::without_suffix(exe_name, ".exe"@);
    seq![
        ProbeView { current_user: true, wow32: false, subkey: full },
        ProbeView { current_user: true, wow32: false, subkey: bare },
        ProbeView { current_user: true, wow32: true, subkey: full },
        ProbeView { current_user: true, wow32: true, subkey: bare },
        ProbeView { current_user: false, wow32: false, subkey: full },
        ProbeView { current_user: false, wow32: false, subkey: bare },
        ProbeView { current_user: false, wow32: true, subkey: full },
        ProbeView { current_user: false, wow32: true, subkey: bare },
    ]
}

/// The places where a program may have left its path, in the order in which
/// they are asked.
pub fn app_paths_probes(exe_name: &str) -> (r: Vec<PathProbe>)
    ensures
        r@.len() == 8,
        forall|i: int| 0 <= i < 8 ==> (#[trigger] r@[i])@ == path_probes(exe_name@)[i],
{
    let base = "SOFTWARE\\Microsoft\\Windows\\CurrentVersion\\App Paths\\";
    let full = text::concat(base, exe_name);
    let bare = text::concat(base, text::trim_end_text(exe_name, ".exe").as_str());
    let mut r: Vec<PathProbe> = Vec::new();
    r.push(PathProbe { current_user: true, wow32: false, subkey: full.clone() });
    r.push(PathProbe { current_user: true, wow32: false, subkey: bare.clone() });
    r.push(PathProbe { current_user: true, wow32: true, subkey: full.clone() });
    r.push(PathProbe { current_user: true, wow32: true, subkey: bare.clone() });
    r.push(PathProbe { current_user: false, wow32: false, subkey: full.clone() });
    r.push(PathProbe { current_user: false, wow32: false, subkey: bare.clone() });
    r.push(PathProbe { current_user: false, wow32: true, subkey: full.clone() });
    r.push(PathProbe { current_user: false, wow32: true, subkey: bare.clone() });
    r
}

/// Where a program of the system lies, given the system's root directory.
pub fn system_exe_path(root: &Option<String>, rel: &str) -> (r: String)
    ensures
        r@ == (match *root {
            Some(p) => p@,
            None => "C:\\Windows"@,
        }) + "\\"@ + text::without_leading(rel@, '\\'),
{
    let rest = text::trim_start_char(rel, '\\');
    match root {
        Some(p) => text::concat3(p.as_str(), "\\", rest.as_str()),
        None => text::concat3("C:\\Windows", "\\", rest.as_str()),
    }
}

/// The file that gives a shortcut its icon: the one that it names, where it is
/// a shortcut and that file exists.
pub fn url_icon_source(target: &str, expanded: Option<String>, is_file: bool) -> (r: Option<
    String,
>)
    ensures
        opt_view(r) == if url_shortcut(target@) && is_file {
            opt_view(expanded)
        } else {
            None
        },
{
    if is_url_shortcut(target) && is_file {
        expanded
    } else {
        None
    }
}

/// Descriptions of programs that were read before, by lower-case path. That a
/// program has none is remembered too.
#[derive(Debug)]
pub struct DescriptionCache {
    keys: Vec<String>,
    values: Vec<Option<String>>,
}

/// The last value under that key.
spec fn last_value(keys: Seq<Seq<char>>, values: Seq<Option<Seq<char>>>, key: Seq<char>) -> Option<
    Option<Seq<char>>,
>
    decreases keys.len(),
{
    if keys.len() == 0 || keys.len() != values.len() {
        None
    } else if keys.last() == key {
        Some(values.last())
    } else {
        last_value(keys.drop_last(), values.drop_last(), key)
    }
}

impl DescriptionCache {
    /// The lists belong together.
    pub closed spec fn wf(self) -> bool {
        self.keys@.len() == self.values@.len()
    }

    /// What is remembered for a path: `None` where nothing is, `Some(None)`
    /// where it is known to have no description.
    pub closed spec fn lookup(self, path: Seq<char>) -> Option<Option<Seq<char>>> {
        last_value(text_views(self.keys@), opt_views(self.values@), lowercase(path))
    }

    /// Remembers nothing.
    pub fn new() -> (r: Self)
        ensures
            r.wf(),
            forall|path: Seq<char>| #[trigger] r.lookup(path) is None,
    {
        DescriptionCache { keys: Vec::new(), values: Vec::new() }
    }

    /// What is remembered for a path.
    pub fn get(&self, path: &str) -> (r: Option<Option<String>>)
        requires
            self.wf(),
        ensures
            self.lookup(path@) == match r {
                Some(v) => Some(opt_view(v)),
                None => None,
            },
    {
        let key = path.to_lowercase();
        let ghost ks = text_views(self.keys@);
        let ghost vs = opt_views(self.values@);
        let mut i: usize = self.keys.len();
        assert(ks.take(i as int) =~= ks);
        assert(vs.take(i as int) =~= vs);
        while i > 0
            invariant
                i <= self.keys@.len(),
                self.keys@.len() == self.values@.len(),
                ks == text_views(self.keys@),
                vs == opt_views(self.values@),
                key@ == lowercase(path@),
                last_value(ks, vs, key@) == last_value(
                    ks.take(i as int),
                    vs.take(i as int),
                    key@,
                ),
            decreases i,
        {
            assert(ks.take(i as int).last() == self.keys@[i - 1]@);
            assert(vs.take(i as int).last() == opt_view(self.values@[i - 1]));
            if text::same(self.keys[i - 1].as_str(), key.as_str()) {
                return Some(text::clone_opt(&self.values[i - 1]));
            }
            assert(ks.take(i as int).drop_last() =~= ks.take(i - 1));
            assert(vs.take(i as int).drop_last() =~= vs.take(i - 1));
            i -= 1;
        }
        None
    }

    /// Remembers the description of a path, or that it has none.
    pub fn insert(&mut self, path: &str, value: Option<String>)
        requires
            old(self).wf(),
        ensures
            final(self).wf(),
            forall|p: Seq<char>|
                #[trigger] final(self).lookup(p) == if lowercase(p) == lowercase(path@) {
                    Some(opt_view(value))
                } else {
                    old(self).lookup(p)
                },
    {
        let ghost ks = text_views(self.keys@);
        let ghost vs = opt_views(self.values@);
        self.keys.push(path.to_lowercase());
        self.values.push(value);
        assert(text_views(self.keys@).drop_last() =~= ks);
        assert(opt_views(self.values@).drop_last() =~= vs);
    }
}

/// What stands between a window and the foreground.
#[derive(Debug, Clone, Copy, PartialEq, Eq, Structural)]
pub enum ActivateStep {
    /// It is there already.
    AlreadyForeground,
    /// The input of the foreground thread has to be attached first.
    Attach,
    /// Nothing.
    Direct,
}

/// Refuses the null handle.
pub fn check_handle(hwnd: u64) -> (r: Result<(), String>)
    ensures
        hwnd != 0 ==> r is Ok,
        hwnd == 0 ==> r is Err && r->Err_0@ == "无效窗口句柄"@,
{
    if hwnd == 0 {
        Err("无效窗口句柄".to_owned())
    } else {
        Ok(())
    }
}

/// What has to be done before a window is brought to the foreground.
/// `foreground_thread` is the thread of the present foreground window.
pub fn activate_step(
    hwnd: u64,
    foreground: u64,
    foreground_thread: u32,
    own_thread: u32,
) -> (r: ActivateStep)
    ensures
        r == if foreground == hwnd {
            ActivateStep::AlreadyForeground
        } else if foreground != 0 && foreground_thread != 0 && foreground_thread != own_thread {
            ActivateStep::Attach
        } else {
            ActivateStep::Direct
        },
{
    if foreground == hwnd {
        return ActivateStep::AlreadyForeground;
    }
    let thread: u32 = if foreground == 0 {
        0
    } else {
        foreground_thread
    };
    if thread != 0 && thread != own_thread {
        ActivateStep::Attach
    } else {
        ActivateStep::Direct
    }
}

/// The outcome of two attempts to bring a window to the foreground.
pub fn activate_outcome(first: bool, second: bool) -> (r: Result<(), String>)
    ensures
        first || second ==> r is Ok,
        !first && !second ==> r is Err && r->Err_0@ == "前台锁定：已还原窗口并闪烁任务栏"@,
{
    if second || first {
        Ok(())
    } else {
        Err("前台锁定：已还原窗口并闪烁任务栏".to_owned())
    }
}

/// The outcome of minimising a window.
pub fn minimize_outcome(shown_before: bool) -> (r: Result<(), String>)
    ensures
        shown_before ==> r is Ok,
        !shown_before ==> r is Err && r->Err_0@ == "最小化失败"@,
{
    if shown_before {
        Ok(())
    } else {
        Err("最小化失败".to_owned())
    }
}

/// The verb with which a target is opened.
pub fn launch_verb(run_as_admin: bool) -> (r: &'static str)
    ensures
        r@ == if run_as_admin {
            "runas"@
        } else {
            "open"@
        },
{
    if run_as_admin {
        "runas"
    } else {
        "open"
    }
}

/// The outcome of opening a target. That the user declined is no error.
pub fn launch_outcome(error: &Option<String>, code: u32) -> (r: Result<(), String>)
    ensures
        *error is None || code == 1223 ==> r is Ok,
        *error is Some && code != 1223 ==> r is Err && r->Err_0@ == "ShellExecuteEx 失败: "@
            + error->0@ + " (code="@ + text::decimal(code as nat) + ")"@,
{
    match error {
        None => Ok(()),
        Some(e) => if code == 1223 {
            Ok(())
        } else {
            let mut m = text::concat3("ShellExecuteEx 失败: ", e.as_str(), " (code=");
            m.append(text::decimal_string(code as u64).as_str());
            m.append(")");
            Err(m)
        },
    }
}

// ---------------------------------------------------------------- what targets and windows are for

proof fn lemma_lower_start(a: Seq<char>, rest: Seq<char>)
    requires
        is_ascii_text(a + rest),
    ensures
        text::ascii_lowercase(a).is_prefix_of(lowercase(a + rest)),
        text::ascii_lowercase(rest).is_suffix_of(lowercase(a + rest)),
        lowercase(a + rest) == text::ascii_lowercase(a) + text::ascii_lowercase(rest),
{
    let t = a + rest;
    assert(lowercase(t) =~= text::ascii_lowercase(a) + text::ascii_lowercase(rest));
    assert(lowercase(t).subrange(0, a.len() as int) =~= text::ascii_lowercase(a));
    assert(lowercase(t).subrange(t.len() - rest.len(), t.len() as int) =~= text::ascii_lowercase(
        rest,
    ));
}

/// What begins with `shell:`, in any case, is a target of the shell; a place of
/// the system is one that is not below the folder of packaged applications. A
/// program on a drive is none.
pub proof fn law_shell_targets(scheme: Seq<char>, rest: Seq<char>)
    requires
        is_ascii_text(scheme + rest),
        scheme.len() == 6,
    ensures
        shell_target(scheme + rest) <==> text::ascii_lowercase(scheme) == "shell:"@,
        shell_location(scheme + rest) <==> shell_target(scheme + rest)
            && !"shell:AppsFolder\\"@.is_prefix_of(scheme + rest),
{
    reveal_strlit("shell:");
    lemma_lower_start(scheme, rest);
    let low = lowercase(scheme + rest);
    if "shell:"@.is_prefix_of(low) {
        assert(text::ascii_lowercase(scheme) =~= "shell:"@) by {
            assert forall|i: int| 0 <= i < 6 implies text::ascii_lowercase(scheme)[i]
                == "shell:"@[i] by {
                assert(low.subrange(0, 6)[i] == "shell:"@[i]);
            }
        }
    }
}

/// A file whose name ends in `.url`, in any case, is an internet shortcut. An
/// address with a protocol is a text with `://` in it that is no such file.
pub proof fn law_addresses(a: Seq<char>, b: Seq<char>, ending: Seq<char>)
    ensures
        is_ascii_text(a + ending) && ending.len() == 4 ==> (url_shortcut(a + ending) <==>
            text::ascii_lowercase(ending) == ".url"@),
        !url_shortcut(a + "://"@ + b) ==> url_scheme(a + "://"@ + b),
        url_shortcut(a) ==> !url_scheme(a),
        url_scheme(a) ==> exists|i: int|
            0 <= i && i + 3 <= a.len() && #[trigger] a[i] == ':' && a[i + 1] == '/' && a[i + 2]
                == '/',
{
    reveal_strlit(".url");
    reveal_strlit("://");
    if is_ascii_text(a + ending) && ending.len() == 4 {
        lemma_lower_start(a, ending);
        let low = lowercase(a + ending);
        if ".url"@.is_suffix_of(low) {
            assert(text::ascii_lowercase(ending) =~= ".url"@) by {
                assert forall|i: int| 0 <= i < 4 implies text::ascii_lowercase(ending)[i]
                    == ".url"@[i] by {
                    assert(low.subrange(low.len() - 4, low.len() as int)[i] == ".url"@[i]);
                }
            }
        }
    }
    let t = a + "://"@ + b;
    assert(t.subrange(a.len() as int, a.len() as int + 3) =~= "://"@);
    assert(text::occurs_at(t, "://"@, a.len() as int));
    if url_scheme(a) {
        let i = choose|i: int| text::occurs_at(a, "://"@, i);
        let u = a.subrange(i, i + 3);
        assert(u[0] == ':' && u[1] == '/' && u[2] == '/');
        assert(a[i] == ':' && a[i + 1] == '/' && a[i + 2] == '/');
    }
}

/// A path with `WindowsApps` as one of its directories, in any case and with
/// either separator, is a protected one.
pub proof fn law_protected_paths(a: Seq<char>, b: Seq<char>)
    requires
        is_ascii_text(a),
        is_ascii_text(b),
    ensures
        windowsapps_path(a + "\\WindowsApps\\"@ + b),
        windowsapps_path(a + "/windowsapps/"@ + b),
{
    reveal_strlit("\\WindowsApps\\");
    reveal_strlit("\\windowsapps\\");
    reveal_strlit("/windowsapps/");
    let n = a.len() as int;
    let s = a + "\\WindowsApps\\"@ + b;
    assert(is_ascii_text(s));
    assert(lowercase(s).subrange(n, n + 13) =~= "\\windowsapps\\"@);
    assert(text::occurs_at(lowercase(s), "\\windowsapps\\"@, n));
    let t = a + "/windowsapps/"@ + b;
    assert(is_ascii_text(t));
    assert(lowercase(t).subrange(n, n + 13) =~= "/windowsapps/"@);
    assert(text::occurs_at(lowercase(t), "/windowsapps/"@, n));
}

/// The recycle bin and this computer are places of the system, and the only ones
/// that can be put on the dock; each goes by its own name where the system gives
/// none, and anything else by its target.
pub proof fn law_system_places(t: Seq<char>)
    ensures
        recycle_bin(t) ==> system_location(t) && fallback_name(t) == "回收站"@,
        system_location(t) && !recycle_bin(t) ==> fallback_name(t) == "此电脑"@,
        !system_location(t) ==> fallback_name(t) == t,
        recycle_bin("shell:RecycleBinFolder"@) && !recycle_bin("shell:MyComputerFolder"@),
        system_location("shell:MyComputerFolder"@),
        system_location(t) ==> shell_target(t) && shell_location(t),
{
    reveal_strlit("shell:RecycleBinFolder");
    reveal_strlit("shell:MyComputerFolder");
    reveal_strlit("shell:AppsFolder\\");
    reveal_strlit("shell:");
    let bin = text::ascii_lowercase("shell:RecycleBinFolder"@);
    let pc = text::ascii_lowercase("shell:MyComputerFolder"@);
    assert(bin[6] == 'r' && pc[6] == 'm');
    if system_location(t) {
        let low = text::ascii_lowercase(t);
        assert(low.len() == t.len());
        assert forall|i: int| 0 <= i < t.len() implies (#[trigger] t[i] as u32) < 128 by {
            assert((low[i] as u32) < 128) by {
                if low == bin {
                    assert(("shell:RecycleBinFolder"@[i] as u32) < 128);
                } else {
                    assert(("shell:MyComputerFolder"@[i] as u32) < 128);
                }
            }
        }
        assert(lowercase(t) == low);
        assert(low.subrange(0, 6) =~= "shell:"@) by {
            assert forall|i: int| 0 <= i < 6 implies low[i] == "shell:"@[i] by {
                assert(low[i] == bin[i] || low[i] == pc[i]);
            }
        }
        if APPS_FOLDER_PREFIX@.is_prefix_of(t) {
            assert(t[6] == 'A') by {
                assert(t.subrange(0, 17)[6] == APPS_FOLDER_PREFIX@[6]);
            }
            assert(low[6] == 'a');
        }
    }
}

/// A window belongs to an application exactly if it can be seen and has a title,
/// is not cloaked and not the dock's own, and is no tool window and no window of
/// another unless it asks for a place in the task bar.
pub proof fn law_windows_of_applications(
    visible: bool,
    ex: u32,
    owned: bool,
    cloaked: bool,
    title: Seq<char>,
    own_process: bool,
)
    ensures
        ({
            let asks = ex & 0x4_0000 != 0;
            let tool = ex & 0x80 != 0;
            let r = app_window(visible, ex, owned, cloaked, title, own_process);
            &&& !visible || cloaked || own_process || title.len() == 0 ==> !r
            &&& !asks && (tool || owned) ==> !r
            &&& visible && !cloaked && !own_process && title.len() > 0 && (asks || (!tool
                && !owned)) ==> r
        }),
{
}

/// A name between percent signs stands for its value, and what stands around it
/// stays; without a value it stays with its signs. A single sign is only a sign.
pub proof fn law_expand_one_name(
    before: Seq<char>,
    name: Seq<char>,
    after: Seq<char>,
    value: Option<Seq<char>>,
    values: Seq<Option<Seq<char>>>,
)
    requires
        !before.contains('%'),
        !name.contains('%'),
    ensures
        ({
            let s = before + seq!['%'] + name + seq!['%'] + after;
            let all = seq![value] + values;
            &&& env_name_list(s) == seq![name] + env_name_list(after)
            &&& value is Some ==> env_expanded(s, all) == before + value->0 + env_expanded(
                after,
                values,
            )
            &&& value is None ==> env_expanded(s, all) == before + seq!['%'] + name + seq!['%']
                + env_expanded(after, values)
        }),
        env_expanded(before + seq!['%'] + name, values) == before + seq!['%'] + name,
        env_name_list(before + seq!['%'] + name).len() == 0,
{
    let s = before + seq!['%'] + name + seq!['%'] + after;
    let all = seq![value] + values;
    let rest = name + seq!['%'] + after;
    assert(s =~= before + seq!['%'] + rest);
    lemma_first_sign(before, rest);
    lemma_first_sign(name, after);
    assert(all.skip(1) =~= values);
    assert(all[0] == value);
    assert(env_name_list(s) == seq![name] + env_name_list(after));
    assert(env_expanded(s, all) == before + env_substitute(name, value) + env_expanded(
        after,
        values,
    ));
    if value is None {
        assert(before + env_substitute(name, value) + env_expanded(after, values) =~= before + seq![
            '%',
        ] + name + seq!['%'] + env_expanded(after, values));
    }
    let u = before + seq!['%'] + name;
    lemma_first_sign(before, name);
    text::lemma_first_index(name, '%');
    let end = first_index(name, '%');
    if end < name.len() {
        assert(name.contains(name[end]));
    }
    assert(env_expanded(u, values) == u);
}

proof fn lemma_first_sign(a: Seq<char>, b: Seq<char>)
    requires
        !a.contains('%'),
    ensures
        first_index(a + seq!['%'] + b, '%') == a.len(),
        (a + seq!['%'] + b).take(a.len() as int) == a,
        (a + seq!['%'] + b).skip(a.len() as int + 1) == b,
{
    let s = a + seq!['%'] + b;
    text::lemma_first_index(s, '%');
    let i = first_index(s, '%');
    assert(s[a.len() as int] == '%');
    if i < a.len() {
        assert(a.contains(a[i]));
    }
    assert(s.take(a.len() as int) =~= a);
    assert(s.skip(a.len() as int + 1) =~= b);
}

/// A program is looked for under the user before the machine, in the native view
/// before the 32-bit one, and under its full name before the name without
/// `.exe`, below the key in which programs leave their paths.
pub proof fn law_probes_in_order(stem: Seq<char>, i: int)
    requires
        0 <= i < 8,
        !".exe"@.is_suffix_of(stem),
    ensures
        path_probes(stem + ".exe"@).len() == 8,
        ({
            let p = path_probes(stem + ".exe"@)[i];
            let key = "SOFTWARE\\Microsoft\\Windows\\CurrentVersion\\App Paths\\"@;
            &&& p.current_user == (i < 4)
            &&& p.wow32 == (i % 4 >= 2)
            &&& i % 2 == 0 ==> p.subkey == key + (stem + ".exe"@)
            &&& i % 2 == 1 ==> p.subkey == key + stem
        }),
{
    reveal_strlit(".exe");
    let s = stem + ".exe"@;
    assert(s.subrange(s.len() - 4, s.len() as int) =~= ".exe"@);
    assert(s.take(s.len() - 4) =~= stem);
    assert(text::without_suffix(stem, ".exe"@) == stem);
    assert(text::without_suffix(s, ".exe"@) == stem);
}

proof fn lemma_without_leading(s: Seq<char>, c: char)
    ensures
        text::without_leading(s, c).len() <= s.len(),
        text::without_leading(s, c).len() > 0 ==> text::without_leading(s, c)[0] != c,
        s.len() > 0 && s[0] != c ==> text::without_leading(s, c) == s,
    decreases s.len(),
{
    if s.len() > 0 && s[0] == c {
        lemma_without_leading(s.skip(1), c);
    }
}

proof fn lemma_without_trailing(s: Seq<char>, c: char)
    ensures
        text::without_trailing(s, c).is_prefix_of(s),
        text::without_trailing(s, c).len() > 0 ==> text::without_trailing(s, c).last() != c,
        s.len() > 0 && s.last() != c ==> text::without_trailing(s, c) == s,
        text::without_trailing(s.push(c), c) == text::without_trailing(s, c),
    decreases s.len(),
{
    assert(s.push(c).drop_last() =~= s);
    if s.len() > 0 && s.last() == c {
        lemma_without_trailing(s.drop_last(), c);
        let r = text::without_trailing(s, c);
        assert(r =~= s.subrange(0, r.len() as int)) by {
            assert(r =~= s.drop_last().subrange(0, r.len() as int));
        }
    } else {
        assert(s =~= s.subrange(0, s.len() as int));
    }
}

/// A path in the registry may stand in quotes and end in a zero: the path is what
/// is between them. No quote is left at either end.
pub proof fn law_registry_path_is_unquoted(path: Seq<char>, raw: Seq<char>)
    ensures
        path.len() > 0 && path[0] != '"' && path.last() != '"' ==> registry_path(
            seq!['"'] + path + seq!['"', '\0'],
        ) == path,
        path.len() > 0 && path[0] != '"' && path.last() != '"' && path.last() != '\0'
            && !text::white_space(path[0]) && !text::white_space(path.last()) ==> registry_path(
            path,
        ) == path,
        registry_path(raw).len() > 0 ==> registry_path(raw)[0] != '"' && registry_path(raw).last()
            != '"',
{
    let t = trimmed(text::without_trailing(raw, '\0'));
    let u = text::without_leading(t, '"');
    lemma_without_leading(t, '"');
    lemma_without_trailing(u, '"');
    let r = registry_path(raw);
    if r.len() > 0 {
        assert(r[0] == u[0]) by {
            assert(r =~= u.subrange(0, r.len() as int));
        }
    }
    if path.len() > 0 && path[0] != '"' && path.last() != '"' {
        let quoted = seq!['"'] + path + seq!['"'];
        let s = seq!['"'] + path + seq!['"', '\0'];
        assert(s =~= quoted.push('\0'));
        lemma_without_trailing(quoted, '\0');
        assert(quoted.last() == '"' && quoted[0] == '"');
        assert(text::trimmed_start(quoted) == quoted);
        assert(text::trimmed_end(quoted) == quoted);
        let inner = path + seq!['"'];
        assert(quoted.skip(1) =~= inner);
        assert(inner[0] == path[0]);
        lemma_without_leading(inner, '"');
        assert(text::without_leading(quoted, '"') == inner);
        assert(inner =~= path.push('"'));
        lemma_without_trailing(path, '"');
        if path.last() != '\0' && !text::white_space(path[0]) && !text::white_space(path.last()) {
            lemma_without_trailing(path, '\0');
            lemma_without_leading(path, '"');
        }
    }
}

/// Bringing a window forward needs nothing where it is in front. Else the input
/// of another thread is attached exactly where such a thread has the foreground.
pub proof fn law_activation(hwnd: u64, foreground: u64, thread: u32, own: u32, r: ActivateStep)
    requires
        call_ensures(activate_step, (hwnd, foreground, thread, own), r),
    ensures
        r == ActivateStep::AlreadyForeground <==> foreground == hwnd,
        r == ActivateStep::Attach <==> foreground != hwnd && foreground != 0 && thread != 0
            && thread != own,
{
}

/// One success of two is enough, and only the failure of both is reported.
pub proof fn law_activation_outcome(first: bool, second: bool, r: Result<(), String>)
    requires
        call_ensures(activate_outcome, (first, second), r),
    ensures
        r is Ok <==> first || second,
{
}

/// Opening a target fails exactly where the system says why and the user did not
/// decline; the message holds what the system said and its code.
pub proof fn law_launch_outcome(error: Option<String>, code: u32, r: Result<(), String>)
    requires
        call_ensures(launch_outcome, (&error, code), r),
    ensures
        r is Err <==> error is Some && code != 1223,
        r is Err ==> text::occurs(r->Err_0@, error->0@) && text::occurs(
            r->Err_0@,
            text::decimal(code as nat),
        ),
{
    if r is Err {
        let m = r->Err_0@;
        let head = "ShellExecuteEx 失败: "@;
        let e = error->0@;
        let mid = " (code="@;
        let d = text::decimal(code as nat);
        let n = head.len() as int;
        assert(m.subrange(n, n + e.len()) =~= e);
        assert(text::occurs_at(m, e, n));
        let k = n + e.len() + mid.len();
        assert(m.subrange(k, k + d.len()) =~= d);
        assert(text::occurs_at(m, d, k));
    }
}

/// The number of items in the bin is that of the answer as far as it fits, and
/// none without one.
pub proof fn law_bin_count(answered: bool, items: i64, r: u32)
    requires
        call_ensures(recycle_bin_count, (answered, items), r),
    ensures
        answered && 0 <= items <= u32::MAX ==> r == items,
        !answered || items <= 0 ==> r == 0,
{
}

/// An icon comes from the file that a shortcut names, and only from one that is
/// there.
pub proof fn law_shortcut_icon(
    target: &str,
    named: Option<String>,
    is_file: bool,
    r: Option<String>,
)
    requires
        call_ensures(url_icon_source, (target, named, is_file), r),
    ensures
        r is Some ==> is_file && url_shortcut(target@) && named is Some && r->0@ == named->0@,
        is_file && url_shortcut(target@) && named is Some ==> r is Some,
{
}

// ---------------------------------------------------------------- smaller answers

/// The target of a packaged application is its identity behind the folder of
/// applications, and leads back to that identity.
pub proof fn law_targets_of_packages(
    pfn: &str,
    app_id: &str,
    aumid: &str,
    whole: String,
    made: String,
    is_package: bool,
    host: bool,
    path: &str,
)
    requires
        call_ensures(apps_folder_path, (aumid,), whole),
        call_ensures(package_target, (pfn, app_id), made),
        call_ensures(is_packaged, (aumid,), is_package),
        call_ensures(is_uwp_host, (path,), host),
    ensures
        whole@ == "shell:AppsFolder\\"@ + aumid@,
        made@ == "shell:AppsFolder\\"@ + pfn@ + "!"@ + app_id@,
        target_id(whole@) == "uwp:"@ + lowercase(aumid@),
        is_package <==> exists|i: int| 0 <= i < aumid@.len() && #[trigger] aumid@[i] == '!',
        host <==> "applicationframehost.exe"@.is_suffix_of(lowercase(path@)),
{
    let p = APPS_FOLDER_PREFIX@;
    assert(whole@.subrange(0, p.len() as int) =~= p);
    assert(whole@.skip(p.len() as int) =~= aumid@);
    if is_package {
        let i = choose|i: int| 0 <= i < aumid@.len() && aumid@[i] == '!';
        assert(aumid@[i] == '!');
    }
    if exists|i: int| 0 <= i < aumid@.len() && #[trigger] aumid@[i] == '!' {
        let i = choose|i: int| 0 <= i < aumid@.len() && #[trigger] aumid@[i] == '!';
        assert(aumid@.contains(aumid@[i]));
    }
}

/// The package of a window is its own where it has one, else its process's; an
/// identity without an exclamation mark is no package.
pub proof fn law_package_of_a_window(w: RawWindow, r: Option<String>)
    requires
        call_ensures(package_of, (&w,), r),
    ensures
        w.window_aumid is Some && w.window_aumid->0@.contains('!') ==> r is Some && r->0@
            == w.window_aumid->0@,
        (w.window_aumid is None || !w.window_aumid->0@.contains('!')) && w.process_aumid is Some
            && w.process_aumid->0@.contains('!') ==> r is Some && r->0@ == w.process_aumid->0@,
        (w.window_aumid is None || !w.window_aumid->0@.contains('!')) && (w.process_aumid is None
            || !w.process_aumid->0@.contains('!')) ==> r is None,
{
}

/// A program is called by its description, else by its file, else by its path.
pub proof fn law_names_of_programs(
    path: &str,
    description: Option<String>,
    stem: Option<String>,
    r: String,
)
    requires
        call_ensures(display_name_for, (path, &description, &stem), r),
    ensures
        description is Some ==> r@ == description->0@,
        description is None && stem is Some ==> r@ == stem->0@,
        description is None && stem is None ==> r@ == path@,
{
}

/// What is refused is told: a window that is none, and one that was not shown when
/// it was to be minimised. Administrator rights are asked for by their verb.
pub proof fn law_refusals(
    hwnd: u64,
    shown_before: bool,
    run_as_admin: bool,
    handle: Result<(), String>,
    minimised: Result<(), String>,
    verb: &'static str,
)
    requires
        call_ensures(check_handle, (hwnd,), handle),
        call_ensures(minimize_outcome, (shown_before,), minimised),
        call_ensures(launch_verb, (run_as_admin,), verb),
    ensures
        handle is Ok <==> hwnd > 0,
        handle is Err ==> handle->Err_0@ == "无效窗口句柄"@,
        minimised is Ok <==> shown_before,
        minimised is Err ==> minimised->Err_0@ == "最小化失败"@,
        run_as_admin ==> verb@ == "runas"@,
        !run_as_admin ==> verb@ == "open"@,
{
}

/// A value of a shortcut file has no white space round it, and blanks are no
/// value.
pub proof fn law_values_of_shortcut_files(raw: &str, r: Option<String>)
    requires
        call_ensures(clean_profile_value, (raw,), r),
    ensures
        r is Some ==> r->0@.len() > 0 && r->0@ == trimmed(raw@),
        r is None <==> trimmed(raw@).len() == 0,
{
}

/// What is remembered for a path is remembered for it whatever the case of its
/// letters, and nothing else that is remembered changes.
pub proof fn law_descriptions_are_remembered(
    c: &mut DescriptionCache,
    path: &str,
    value: Option<String>,
    other: Seq<char>,
    r: (),
)
    requires
        old(c).wf(),
        call_ensures(DescriptionCache::insert, (c, path, value), r),
    ensures
        lowercase(other) == lowercase(path@) ==> final(c).lookup(other) == Some(opt_view(value)),
        lowercase(other) != lowercase(path@) ==> final(c).lookup(other) == old(c).lookup(other),
{
}

} // verus!
