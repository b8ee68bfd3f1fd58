//! The context menu: which items an entry offers, and what each item does.

use vstd::prelude::*;
use vstd::string::*;
use crate::apps;
use crate::apps::{recycle_bin, shell_location, url_scheme, url_shortcut};
use crate::text;
use crate::text::{decimal, opt_view};

pub mod id;

verus! {

/// The entry on which the menu was opened.
#[derive(Debug)]
pub struct Target {
    pub app_id: String,
    /// What launching it opens.
    pub target: String,
    /// One of its windows; 0 where it has none.
    pub hwnd: u64,
    /// Whether it has a window at present.
    pub running: bool,
    pub is_elevated: bool,
    /// The entry is a separator.
    pub separator: bool,
    /// The entry is a folder.
    pub is_folder: bool,
    /// The entry is inside a folder.
    pub in_folder: bool,
    /// How many entries the folder holds.
    pub children_count: usize,
    /// The target is a directory.
    pub is_dir: bool,
    /// How many items the recycle bin holds.
    pub bin_items: u32,
}

/// One item of a menu.
#[derive(Debug)]
pub struct MenuItem {
    pub id: String,
    pub label: String,
    pub enabled: bool,
    /// Shown in red.
    pub danger: bool,
    /// A line between items, without a label.
    pub divider: bool,
}

/// The contents of a `MenuItem`.
#[verifier::ext_equal]
pub struct ItemView {
    pub id: Seq<char>,
    pub label: Seq<char>,
    pub enabled: bool,
    pub danger: bool,
    pub divider: bool,
}

impl View for MenuItem {
    type V = ItemView;

    open spec fn view(&self) -> ItemView {
        ItemView {
            id: self.id@,
            label: self.label@,
            enabled: self.enabled,
            danger: self.danger,
            divider: self.divider,
        }
    }
}

/// The contents of a list of items.
pub open spec fn item_views(s: Seq<MenuItem>) -> Seq<ItemView> {
    Seq::new(s.len(), |i: int| s[i]@)
}

impl Default for Target {
    fn default() -> (r: Self)
        ensures
            r.app_id@.len() == 0,
            r.target@.len() == 0,
            r.hwnd == 0,
            !r.running && !r.is_elevated && !r.separator && !r.is_folder && !r.in_folder,
            r.children_count == 0,
            !r.is_dir,
            r.bin_items == 0,
    {
        Target {
            app_id: String::new(),
            target: String::new(),
            hwnd: 0,
            running: false,
            is_elevated: false,
            separator: false,
            is_folder: false,
            in_folder: false,
            children_count: 0,
            is_dir: false,
            bin_items: 0,
        }
    }
}

impl Clone for Target {
    fn clone(&self) -> (r: Self)
        ensures
            r == *self,
    {
        Target {
            app_id: self.app_id.clone(),
            target: self.target.clone(),
            hwnd: self.hwnd,
            running: self.running,
            is_elevated: self.is_elevated,
            separator: self.separator,
            is_folder: self.is_folder,
            in_folder: self.in_folder,
            children_count: self.children_count,
            is_dir: self.is_dir,
            bin_items: self.bin_items,
        }
    }
}

impl Clone for MenuItem {
    fn clone(&self) -> (r: Self)
        ensures
            r == *self,
    {
        MenuItem {
            id: self.id.clone(),
            label: self.label.clone(),
            enabled: self.enabled,
            danger: self.danger,
            divider: self.divider,
        }
    }
}

/// An ordinary item.
pub open spec fn plain_item(id: Seq<char>, label: Seq<char>) -> ItemView {
    ItemView { id, label, enabled: true, danger: false, divider: false }
}

/// A line between items.
pub open spec fn divider_item() -> ItemView {
    ItemView {
        id: Seq::empty(),
        label: Seq::empty(),
        enabled: false,
        danger: false,
        divider: true,
    }
}

impl MenuItem {
    /// An ordinary item.
    pub fn new(id: &str, label: &str) -> (r: Self)
        ensures
            r@ == plain_item(id@, label@),
    {
        MenuItem {
            id: id.to_owned(),
            label: label.to_owned(),
            enabled: true,
            danger: false,
            divider: false,
        }
    }

    /// The item, greyed out.
    pub fn disabled(self) -> (r: Self)
        ensures
            r@ == (ItemView { enabled: false, ..self@ }),
    {
        let mut r = self;
        r.enabled = false;
        r
    }

    /// The item, in red.
    pub fn danger(self) -> (r: Self)
        ensures
            r@ == (ItemView { danger: true, ..self@ }),
    {
        let mut r = self;
        r.danger = true;
        r
    }

    /// A line between items.
    pub fn divider() -> (r: Self)
        ensures
            r@ == divider_item(),
    {
        MenuItem {
            id: String::new(),
            label: String::new(),
            enabled: false,
            danger: false,
            divider: true,
        }
    }
}

// ---------------------------------------------------------------- the items

/// An item, in red.
pub open spec fn in_red(i: ItemView) -> ItemView {
    ItemView { danger: true, ..i }
}

/// An item that is greyed out on a condition.
pub open spec fn greyed_if(i: ItemView, c: bool) -> ItemView {
    ItemView { enabled: i.enabled && !c, ..i }
}

/// The label that takes a folder off the dock, with what goes with it.
pub open spec fn folder_exit_label(children: nat) -> Seq<char> {
    if children > 0 {
        "移出 Dock（含里面 "@ + decimal(children) + " 项）"@
    } else {
        "移出 Dock"@
    }
}

/// What opens or controls an entry: the window operations where it runs, else
/// opening it. Only a program is said to be started.
pub open spec fn first_items(t: Target) -> Seq<ItemView> {
    if t.running {
        seq![
            plain_item(id::ACTIVATE@, "切换到前台"@),
            plain_item(id::MINIMIZE@, "最小化"@),
            plain_item(id::CLOSE@, "关闭窗口"@),
        ]
    } else if shell_location(t.target@) || url_scheme(t.target@) || t.is_dir {
        seq![plain_item(id::ACTIVATE@, "打开"@)]
    } else {
        seq![plain_item(id::ACTIVATE@, "启动"@)]
    }
}

/// Emptying the recycle bin: only there, and greyed out where it is empty.
pub open spec fn bin_items(t: Target) -> Seq<ItemView> {
    if recycle_bin(t.target@) {
        seq![
            greyed_if(in_red(plain_item(id::EMPTY_BIN@, "清空回收站"@)), t.bin_items == 0),
            divider_item(),
        ]
    } else {
        Seq::empty()
    }
}

/// Running as administrator, greyed out where that has no meaning.
pub open spec fn runas_item(t: Target) -> ItemView {
    greyed_if(
        plain_item(id::RUNAS@, "以管理员身份运行"@),
        t.is_elevated || shell_location(t.target@) || url_shortcut(t.target@) || url_scheme(
            t.target@,
        ) || t.is_dir,
    )
}

/// Turning the entry into a folder, which does not go inside one.
pub open spec fn folder_items(t: Target) -> Seq<ItemView> {
    if t.in_folder {
        Seq::empty()
    } else {
        seq![plain_item(id::MAKE_FOLDER@, "新建文件夹…"@)]
    }
}

/// The way out: to the top for what is in a folder, off the dock for the rest.
pub open spec fn exit_item(t: Target) -> ItemView {
    if t.in_folder {
        in_red(plain_item(id::MOVE_OUT@, "移出文件夹"@))
    } else {
        in_red(plain_item(id::REMOVE@, "移出 Dock"@))
    }
}

/// Showing the file, greyed out where there is none.
pub open spec fn reveal_item(t: Target) -> ItemView {
    greyed_if(
        plain_item(id::REVEAL@, "打开文件所在位置"@),
        "shell:"@.is_prefix_of(t.target@) || t.target@.len() == 0 || url_scheme(t.target@),
    )
}

/// The items that an entry offers.
pub open spec fn menu_of(t: Target) -> Seq<ItemView> {
    if t.separator {
        seq![in_red(plain_item(id::REMOVE@, "移除分割线"@))]
    } else if t.is_folder {
        seq![
            plain_item(id::RENAME@, "重命名…"@),
            divider_item(),
            plain_item(id::DISSOLVE@, "解散文件夹（放回 Dock）"@),
            divider_item(),
            in_red(plain_item(id::REMOVE@, folder_exit_label(t.children_count as nat))),
        ]
    } else {
        first_items(t) + seq![divider_item()] + bin_items(t) + seq![runas_item(t), divider_item()]
            + folder_items(t) + seq![
            plain_item(id::ADD_SEP@, "添加分割线"@),
            exit_item(t),
            reveal_item(t),
        ]
    }
}

fn push_item(v: &mut Vec<MenuItem>, i: MenuItem)
    ensures
        item_views(final(v)@) == item_views(old(v)@).push(i@),
{
    v.push(i);
    assert(item_views(v@) =~= item_views(old(v)@).push(i@));
}

fn push_first_items(v: &mut Vec<MenuItem>, t: &Target, opens: bool)
    requires
        opens == (shell_location(t.target@) || url_scheme(t.target@) || t.is_dir),
    ensures
        item_views(final(v)@) == item_views(old(v)@) + first_items(*t),
{
    if t.running {
        push_item(v, MenuItem::new(id::ACTIVATE, "切换到前台"));
        push_item(v, MenuItem::new(id::MINIMIZE, "最小化"));
        push_item(v, MenuItem::new(id::CLOSE, "关闭窗口"));
    } else if opens {
        push_item(v, MenuItem::new(id::ACTIVATE, "打开"));
    } else {
        push_item(v, MenuItem::new(id::ACTIVATE, "启动"));
    }
    assert(item_views(v@) =~= item_views(old(v)@) + first_items(*t));
}

fn push_bin_items(v: &mut Vec<MenuItem>, t: &Target)
    ensures
        item_views(final(v)@) == item_views(old(v)@) + bin_items(*t),
{
    if apps::is_recycle_bin(t.target.as_str()) {
        let mut empty = MenuItem::new(id::EMPTY_BIN, "清空回收站").danger();
        if t.bin_items == 0 {
            empty = empty.disabled();
        }
        push_item(v, empty);
        push_item(v, MenuItem::divider());
    }
    assert(item_views(v@) =~= item_views(old(v)@) + bin_items(*t));
}

fn push_last_items(v: &mut Vec<MenuItem>, t: &Target, scheme: bool)
    requires
        scheme == url_scheme(t.target@),
    ensures
        item_views(final(v)@) == item_views(old(v)@) + folder_items(*t) + seq![
            plain_item(id::ADD_SEP@, "添加分割线"@),
            exit_item(*t),
            reveal_item(*t),
        ],
{
    if !t.in_folder {
        push_item(v, MenuItem::new(id::MAKE_FOLDER, "新建文件夹…"));
    }
    push_item(v, MenuItem::new(id::ADD_SEP, "添加分割线"));
    if t.in_folder {
        push_item(v, MenuItem::new(id::MOVE_OUT, "移出文件夹").danger());
    } else {
        push_item(v, MenuItem::new(id::REMOVE, "移出 Dock").danger());
    }
    let mut locate = MenuItem::new(id::REVEAL, "打开文件所在位置");
    if text::starts_with(t.target.as_str(), "shell:") || t.target.as_str().is_empty() || scheme {
        locate = locate.disabled();
    }
    push_item(v, locate);
    assert(item_views(v@) =~= item_views(old(v)@) + folder_items(*t) + seq![
        plain_item(id::ADD_SEP@, "添加分割线"@),
        exit_item(*t),
        reveal_item(*t),
    ]);
}

fn build_for_folder(t: &Target) -> (r: Vec<MenuItem>)
    requires
        t.is_folder,
        !t.separator,
    ensures
        item_views(r@) == menu_of(*t),
{
    let mut v: Vec<MenuItem> = Vec::new();
    assert(item_views(v@) =~= Seq::empty());
    let label = if t.children_count > 0 {
        text::concat3(
            "移出 Dock（含里面 ",
            text::decimal_string(t.children_count as u64).as_str(),
            " 项）",
        )
    } else {
        "移出 Dock".to_owned()
    };
    push_item(&mut v, MenuItem::new(id::RENAME, "重命名…"));
    push_item(&mut v, MenuItem::divider());
    push_item(&mut v, MenuItem::new(id::DISSOLVE, "解散文件夹（放回 Dock）"));
    push_item(&mut v, MenuItem::divider());
    push_item(&mut v, MenuItem::new(id::REMOVE, label.as_str()).danger());
    assert(item_views(v@) =~= menu_of(*t));
    v
}

/// The items that an entry offers.
pub fn build(t: &Target) -> (r: Vec<MenuItem>)
    ensures
        item_views(r@) == menu_of(*t),
{
    let mut v: Vec<MenuItem> = Vec::new();
    assert(item_views(v@) =~= Seq::empty());
    if t.separator {
        push_item(&mut v, MenuItem::new(id::REMOVE, "移除分割线").danger());
        assert(item_views(v@) =~= menu_of(*t));
        return v;
    }
    if t.is_folder {
        return build_for_folder(t);
    }
    let location = apps::is_shell_location(t.target.as_str());
    let scheme = apps::is_url_scheme(t.target.as_str());
    push_first_items(&mut v, t, location || scheme || t.is_dir);
    push_item(&mut v, MenuItem::divider());
    push_bin_items(&mut v, t);
    let mut ras = MenuItem::new(id::RUNAS, "以管理员身份运行");
    if t.is_elevated || location || apps::is_url_shortcut(t.target.as_str()) || scheme
        || t.is_dir {
        ras = ras.disabled();
    }
    let ghost b = item_views(v@);
    push_item(&mut v, ras);
    push_item(&mut v, MenuItem::divider());
    assert(item_views(v@) =~= b + seq![runas_item(*t), divider_item()]);
    push_last_items(&mut v, t, scheme);
    assert(item_views(v@) =~= menu_of(*t));
    v
}

// ---------------------------------------------------------------- what they do

/// What an item does.
#[derive(Debug, Clone, Copy, PartialEq, Eq, Structural)]
pub enum MenuAction {
    /// Bring the window to the foreground.
    Activate,
    /// Open the target.
    Launch,
    /// Open the target as administrator.
    LaunchAsAdmin,
    Minimize,
    Close,
    /// Add a separator behind the entry.
    AddSeparator,
    /// Take the entry off the dock.
    Remove,
    /// Move the entry out of its folder.
    MoveOut,
    /// Ask for a name, then turn the entry into a folder.
    MakeFolder,
    /// Ask for a name, then rename the folder.
    Rename,
    EmptyBin,
    Dissolve,
    /// Show the file.
    Reveal,
}

/// What an item does, or the message where it cannot be done.
pub open spec fn action_of(t: Target, item: Seq<char>) -> Result<MenuAction, Seq<char>> {
    if item == id::ACTIVATE@ {
        if !t.running {
            Ok(MenuAction::Launch)
        } else if t.hwnd == 0 {
            Err("这个应用没有可切换的窗口"@)
        } else {
            Ok(MenuAction::Activate)
        }
    } else if item == id::MINIMIZE@ {
        if t.hwnd == 0 {
            Err("这个应用没有可最小化的窗口"@)
        } else {
            Ok(MenuAction::Minimize)
        }
    } else if item == id::CLOSE@ {
        if t.hwnd == 0 {
            Err("这个应用没有可关闭的窗口"@)
        } else {
            Ok(MenuAction::Close)
        }
    } else if item == id::RUNAS@ {
        Ok(MenuAction::LaunchAsAdmin)
    } else if item == id::ADD_SEP@ {
        Ok(MenuAction::AddSeparator)
    } else if item == id::REMOVE@ {
        Ok(MenuAction::Remove)
    } else if item == id::MOVE_OUT@ {
        Ok(MenuAction::MoveOut)
    } else if item == id::MAKE_FOLDER@ {
        Ok(MenuAction::MakeFolder)
    } else if item == id::RENAME@ {
        Ok(MenuAction::Rename)
    } else if item == id::EMPTY_BIN@ {
        Ok(MenuAction::EmptyBin)
    } else if item == id::DISSOLVE@ {
        Ok(MenuAction::Dissolve)
    } else if item == id::REVEAL@ {
        Ok(MenuAction::Reveal)
    } else {
        Err("未知的菜单项: "@ + item)
    }
}

/// What an item does, or the message where it cannot be done.
pub fn run(t: &Target, item_id: &str) -> (r: Result<MenuAction, String>)
    ensures
        match action_of(*t, item_id@) {
            Ok(a) => r == Ok::<MenuAction, String>(a),
            Err(e) => r is Err && r->Err_0@ == e,
        },
{
    if text::same(item_id, id::ACTIVATE) {
        if !t.running {
            Ok(MenuAction::Launch)
        } else if t.hwnd == 0 {
            Err("这个应用没有可切换的窗口".to_owned())
        } else {
            Ok(MenuAction::Activate)
        }
    } else if text::same(item_id, id::MINIMIZE) {
        if t.hwnd == 0 {
            Err("这个应用没有可最小化的窗口".to_owned())
        } else {
            Ok(MenuAction::Minimize)
        }
    } else if text::same(item_id, id::CLOSE) {
        if t.hwnd == 0 {
            Err("这个应用没有可关闭的窗口".to_owned())
        } else {
            Ok(MenuAction::Close)
        }
    } else if text::same(item_id, id::RUNAS) {
        Ok(MenuAction::LaunchAsAdmin)
    } else if text::same(item_id, id::ADD_SEP) {
        Ok(MenuAction::AddSeparator)
    } else if text::same(item_id, id::REMOVE) {
        Ok(MenuAction::Remove)
    } else if text::same(item_id, id::MOVE_OUT) {
        Ok(MenuAction::MoveOut)
    } else if text::same(item_id, id::MAKE_FOLDER) {
        Ok(MenuAction::MakeFolder)
    } else if text::same(item_id, id::RENAME) {
        Ok(MenuAction::Rename)
    } else if text::same(item_id, id::EMPTY_BIN) {
        Ok(MenuAction::EmptyBin)
    } else if text::same(item_id, id::DISSOLVE) {
        Ok(MenuAction::Dissolve)
    } else if text::same(item_id, id::REVEAL) {
        Ok(MenuAction::Reveal)
    } else {
        Err(text::concat("未知的菜单项: ", item_id))
    }
}

/// How the file manager is told to show a file; `None` where there is no file.
pub fn reveal_in_explorer(path: &str) -> (r: Option<String>)
    ensures
        opt_view(r) == if "shell:"@.is_prefix_of(path@) || path@.len() == 0 {
            None
        } else {
            Some("/select,\""@ + path@ + "\""@)
        },
{
    if text::starts_with(path, "shell:") || path.is_empty() {
        None
    } else {
        Some(text::concat3("/select,\"", path, "\""))
    }
}

// ---------------------------------------------------------------- width

/// The width of a text in logical pixels, rather too large than too small.
pub open spec fn label_width(s: Seq<char>) -> nat
    decreases s.len(),
{
    if s.len() == 0 {
        0
    } else {
        label_width(s.drop_last()) + if (s.last() as u32) >= 0x2e80 {
            13nat
        } else {
            7nat
        }
    }
}

/// The width of the widest label.
pub open spec fn widest(items: Seq<ItemView>) -> nat
    decreases items.len(),
{
    if items.len() == 0 {
        0
    } else {
        let before = widest(items.drop_last());
        let last = items.last();
        if !last.divider && label_width(last.label) > before {
            label_width(last.label)
        } else {
            before
        }
    }
}

/// The width of a menu in logical pixels.
pub open spec fn width_of(items: Seq<ItemView>) -> nat {
    let w = widest(items) + 28;
    if w < 168 {
        168
    } else if w > 300 {
        300
    } else {
        w
    }
}

proof fn lemma_width_grows(s: Seq<char>, i: int)
    requires
        0 <= i <= s.len(),
    ensures
        label_width(s.take(i)) <= label_width(s),
    decreases s.len(),
{
    if i < s.len() {
        lemma_width_grows(s.drop_last(), i);
        assert(s.drop_last().take(i) =~= s.take(i));
    } else {
        assert(s.take(i) =~= s);
    }
}

/// The width of a label, or anything above 300 where it is wider than that.
fn capped_label_width(s: &str) -> (r: u32)
    ensures
        label_width(s@) <= 300 ==> r == label_width(s@),
        label_width(s@) > 300 ==> 300 < r <= 400,
{
    let v = text::chars_of(s);
    let mut w: u32 = 0;
    let mut i: usize = 0;
    assert(s@.take(0) =~= Seq::empty());
    while i < v.len()
        invariant
            i <= v@.len(),
            v@ == s@,
            w == label_width(s@.take(i as int)),
            w <= 300,
        decreases v@.len() - i,
    {
        proof {
            assert(s@.take(i + 1).drop_last() =~= s@.take(i as int));
            lemma_width_grows(s@, i + 1);
        }
        if (v[i] as u32) >= 0x2e80 {
            w += 13;
        } else {
            w += 7;
        }
        if w > 300 {
            return w;
        }
        i += 1;
    }
    assert(s@.take(i as int) =~= s@);
    w
}

/// The width of a menu in logical pixels: its widest label and some room,
/// within bounds.
pub fn menu_width(items: &Vec<MenuItem>) -> (r: u32)
    ensures
        r == width_of(item_views(items@)),
{
    let ghost all = item_views(items@);
    let mut best: u32 = 0;
    let mut i: usize = 0;
    assert(all.take(0) =~= Seq::empty());
    while i < items.len()
        invariant
            i <= items@.len(),
            all == item_views(items@),
            best <= 400,
            widest(all.take(i as int)) <= 300 ==> best == widest(all.take(i as int)),
            widest(all.take(i as int)) > 300 ==> best > 300,
        decreases items@.len() - i,
    {
        proof {
            assert(all.take(i + 1).drop_last() =~= all.take(i as int));
            assert(all.take(i + 1).last() == items@[i as int]@);
        }
        if !items[i].divider {
            let w = capped_label_width(items[i].label.as_str());
            if w > best {
                best = w;
            }
        }
        i += 1;
    }
    assert(all.take(i as int) =~= all);
    let w: u32 = best + 28;
    if w < 168 {
        168
    } else if w > 300 {
        300
    } else {
        w
    }
}

// ---------------------------------------------------------------- laws

proof fn lemma_ids()
    ensures
        id::ACTIVATE@.len() == 8 && id::ACTIVATE@[0] == 'a',
        id::MINIMIZE@.len() == 8 && id::MINIMIZE@[0] == 'm' && id::MINIMIZE@[1] == 'i',
        id::MOVE_OUT@.len() == 8 && id::MOVE_OUT@[0] == 'm' && id::MOVE_OUT@[1] == 'o',
        id::CLOSE@.len() == 5 && id::CLOSE@[0] == 'c',
        id::RUNAS@.len() == 5 && id::RUNAS@[0] == 'r',
        id::REMOVE@.len() == 6 && id::REMOVE@[2] == 'm',
        id::REVEAL@.len() == 6 && id::REVEAL@[2] == 'v',
        id::RENAME@.len() == 6 && id::RENAME@[2] == 'n',
        id::ADD_SEP@.len() == 13,
        id::MAKE_FOLDER@.len() == 11,
        id::EMPTY_BIN@.len() == 9,
        id::DISSOLVE@.len() == 15,
{
    reveal_strlit("activate");
    reveal_strlit("minimize");
    reveal_strlit("close");
    reveal_strlit("runas");
    reveal_strlit("add-separator");
    reveal_strlit("reveal");
    reveal_strlit("rename");
    reveal_strlit("make-folder");
    reveal_strlit("empty-bin");
    reveal_strlit("dissolve-folder");
    reveal_strlit("move-out");
    reveal_strlit("remove");
}

/// Every item that a menu offers is known, and can be done unless it is about a
/// window that is not there.
pub proof fn law_offered_items_are_handled(t: Target, i: int)
    requires
        0 <= i < menu_of(t).len(),
        !menu_of(t)[i].divider,
        t.hwnd != 0 || !t.running,
    ensures
        action_of(t, menu_of(t)[i].id) is Ok,
{
    lemma_ids();
}

/// An entry in a folder is offered to move out and never to be taken off the
/// dock or turned into a folder; an application at the top is offered to be
/// taken off.
pub proof fn law_way_out(t: Target)
    requires
        !t.separator,
        !t.is_folder,
    ensures
        t.in_folder ==> {
            &&& exists|i: int|
                0 <= i < menu_of(t).len() && (#[trigger] menu_of(t)[i]).id == id::MOVE_OUT@
            &&& forall|i: int|
                0 <= i < menu_of(t).len() ==> (#[trigger] menu_of(t)[i]).id != id::REMOVE@
                    && menu_of(t)[i].id != id::MAKE_FOLDER@
        },
        !t.in_folder ==> exists|i: int|
            0 <= i < menu_of(t).len() && (#[trigger] menu_of(t)[i]).id == id::REMOVE@,
{
    lemma_ids();
    let m = menu_of(t);
    assert(m[m.len() - 2] == exit_item(t));
}

/// The identities of the items that there are.
pub open spec fn item_names() -> Seq<Seq<char>> {
    seq![
        "activate"@,
        "minimize"@,
        "close"@,
        "runas"@,
        "add-separator"@,
        "remove"@,
        "move-out"@,
        "make-folder"@,
        "rename"@,
        "empty-bin"@,
        "dissolve-folder"@,
        "reveal"@,
    ]
}

/// Each item leads to the action that it names, on every entry.
pub proof fn law_items_do_what_they_name(t: Target)
    ensures
        action_of(t, "dissolve-folder"@) == Ok::<MenuAction, Seq<char>>(MenuAction::Dissolve),
        action_of(t, "remove"@) == Ok::<MenuAction, Seq<char>>(MenuAction::Remove),
        action_of(t, "move-out"@) == Ok::<MenuAction, Seq<char>>(MenuAction::MoveOut),
        action_of(t, "empty-bin"@) == Ok::<MenuAction, Seq<char>>(MenuAction::EmptyBin),
        action_of(t, "reveal"@) == Ok::<MenuAction, Seq<char>>(MenuAction::Reveal),
        action_of(t, "rename"@) == Ok::<MenuAction, Seq<char>>(MenuAction::Rename),
        action_of(t, "add-separator"@) == Ok::<MenuAction, Seq<char>>(MenuAction::AddSeparator),
        action_of(t, "make-folder"@) == Ok::<MenuAction, Seq<char>>(MenuAction::MakeFolder),
        action_of(t, "runas"@) == Ok::<MenuAction, Seq<char>>(MenuAction::LaunchAsAdmin),
        !t.running ==> action_of(t, "activate"@) == Ok::<MenuAction, Seq<char>>(
            MenuAction::Launch,
        ),
        t.running && t.hwnd != 0 ==> action_of(t, "activate"@) == Ok::<MenuAction, Seq<char>>(
            MenuAction::Activate,
        ),
        t.running && t.hwnd == 0 ==> action_of(t, "activate"@) is Err,
        t.hwnd != 0 ==> action_of(t, "minimize"@) == Ok::<MenuAction, Seq<char>>(
            MenuAction::Minimize,
        ) && action_of(t, "close"@) == Ok::<MenuAction, Seq<char>>(MenuAction::Close),
        t.hwnd == 0 ==> action_of(t, "minimize"@) is Err && action_of(t, "close"@) is Err,
{
    lemma_ids();
}

/// Different items never lead to the same action, and anything that is no item
/// is refused. So nothing but `remove` takes an entry off the dock.
pub proof fn law_different_items_do_different_things(t: Target, a: Seq<char>, b: Seq<char>)
    ensures
        a != b && action_of(t, a) is Ok && action_of(t, b) is Ok ==> action_of(t, a)->Ok_0
            != action_of(t, b)->Ok_0,
        action_of(t, a) == Ok::<MenuAction, Seq<char>>(MenuAction::Remove) ==> a == "remove"@,
        action_of(t, a) == Ok::<MenuAction, Seq<char>>(MenuAction::EmptyBin) ==> a == "empty-bin"@,
        !item_names().contains(a) ==> action_of(t, a) is Err && action_of(t, a)->Err_0
            == "未知的菜单项: "@ + a,
{
    lemma_ids();
    let n = item_names();
    if !n.contains(a) {
        assert(a != n[0] && a != n[1] && a != n[2] && a != n[3] && a != n[4] && a != n[5]);
        assert(a != n[6] && a != n[7] && a != n[8] && a != n[9] && a != n[10] && a != n[11]);
    }
}

/// The place of an item in a menu.
pub open spec fn item_at(m: Seq<ItemView>, i: int, id: Seq<char>, label: Seq<char>) -> bool {
    0 <= i < m.len() && m[i].id == id && m[i].label == label && !m[i].divider
}

/// The menu of a separator offers to take it away, and nothing else. That of a
/// folder offers a new name, to dissolve it, and to take it off the dock, which
/// says how many entries go with it; only the last is shown in red, and all can
/// be chosen.
pub proof fn law_menu_of_separator_and_folder(t: Target)
    ensures
        t.separator ==> menu_of(t).len() == 1 && item_at(menu_of(t), 0, "remove"@, "移除分割线"@)
            && menu_of(t)[0].enabled && menu_of(t)[0].danger,
        !t.separator && t.is_folder ==> {
            let m = menu_of(t);
            &&& m.len() == 5
            &&& item_at(m, 0, "rename"@, "重命名…"@) && m[0].enabled && !m[0].danger
            &&& m[1].divider && m[3].divider
            &&& item_at(m, 2, "dissolve-folder"@, "解散文件夹（放回 Dock）"@) && m[2].enabled
                && !m[2].danger
            &&& t.children_count > 0 ==> item_at(
                m,
                4,
                "remove"@,
                "移出 Dock（含里面 "@ + decimal(t.children_count as nat) + " 项）"@,
            )
            &&& t.children_count == 0 ==> item_at(m, 4, "remove"@, "移出 Dock"@)
            &&& m[4].enabled && m[4].danger
        },
{
}

/// The menu of an application. It begins with the window operations where the
/// application runs, and else with opening or starting it; a line follows. The
/// recycle bin alone can then be emptied, unless it is empty. Running as
/// administrator comes behind that, and at the end, behind a line, making a
/// folder for what stands at the top, a separator, the way out in red, and the
/// file. What has no meaning is greyed out.
pub proof fn law_menu_of_application(t: Target)
    requires
        !t.separator && !t.is_folder,
    ensures
        ({
            let m = menu_of(t);
            let n = m.len() as int;
            let bin = recycle_bin(t.target@);
            let opens = shell_location(t.target@) || url_scheme(t.target@) || t.is_dir;
            let first: int = if t.running {
                3
            } else {
                1
            };
            let ras = if bin {
                first + 3
            } else {
                first + 1
            };
            &&& t.running ==> item_at(m, 0, "activate"@, "切换到前台"@) && item_at(
                m,
                1,
                "minimize"@,
                "最小化"@,
            ) && item_at(m, 2, "close"@, "关闭窗口"@)
            &&& !t.running && opens ==> item_at(m, 0, "activate"@, "打开"@)
            &&& !t.running && !opens ==> item_at(m, 0, "activate"@, "启动"@)
            &&& forall|i: int|
                0 <= i < first ==> (#[trigger] m[i]).enabled && !m[i].danger && !m[i].divider
            &&& m[first].divider
            &&& bin ==> item_at(m, first + 1, "empty-bin"@, "清空回收站"@) && m[first + 1].danger
                && m[first + 1].enabled == (t.bin_items > 0) && m[first + 2].divider
            &&& item_at(m, ras, "runas"@, "以管理员身份运行"@) && !m[ras].danger
            &&& m[ras].enabled == !(t.is_elevated || opens || url_shortcut(t.target@))
            &&& m[ras + 1].divider
            &&& n == ras + if t.in_folder {
                5int
            } else {
                6
            }
            &&& !t.in_folder ==> item_at(m, ras + 2, "make-folder"@, "新建文件夹…"@) && m[ras
                + 2].enabled && !m[ras + 2].danger
            &&& item_at(m, n - 3, "add-separator"@, "添加分割线"@) && m[n - 3].enabled && !m[n
                - 3].danger
            &&& t.in_folder ==> item_at(m, n - 2, "move-out"@, "移出文件夹"@)
            &&& !t.in_folder ==> item_at(m, n - 2, "remove"@, "移出 Dock"@)
            &&& m[n - 2].danger && m[n - 2].enabled
            &&& item_at(m, n - 1, "reveal"@, "打开文件所在位置"@) && !m[n - 1].danger
            &&& m[n - 1].enabled == !("shell:"@.is_prefix_of(t.target@) || t.target@.len() == 0
                || url_scheme(t.target@))
        }),
{
    let m = menu_of(t);
    let n = m.len() as int;
    assert(m[n - 1] == reveal_item(t));
    assert(m[n - 2] == exit_item(t));
}

proof fn lemma_widest(items: Seq<ItemView>, i: int)
    requires
        0 <= i < items.len(),
        !items[i].divider,
    ensures
        label_width(items[i].label) <= widest(items),
    decreases items.len(),
{
    if i < items.len() - 1 {
        lemma_widest(items.drop_last(), i);
    }
}

proof fn lemma_widest_is_one(items: Seq<ItemView>)
    ensures
        widest(items) == 0 || exists|i: int|
            0 <= i < items.len() && !(#[trigger] items[i]).divider && label_width(items[i].label)
                == widest(items),
    decreases items.len(),
{
    if items.len() > 0 {
        lemma_widest_is_one(items.drop_last());
        let last = items.len() - 1;
        assert(items[last] == items.last());
        if widest(items.drop_last()) != 0 && widest(items) == widest(items.drop_last()) {
            let p = items.drop_last();
            let i = choose|i: int|
                0 <= i < p.len() && !(#[trigger] p[i]).divider && label_width(p[i].label)
                    == widest(p);
            assert(items[i] == p[i]);
        }
    }
}

/// A menu is between 168 and 300 pixels wide. Within that each label fits with
/// twenty-eight pixels to spare, and there is a label that takes all of it.
pub proof fn law_width_holds_the_labels(items: Seq<ItemView>)
    ensures
        168 <= width_of(items) <= 300,
        width_of(items) < 300 ==> forall|i: int|
            0 <= i < items.len() && !(#[trigger] items[i]).divider ==> label_width(items[i].label)
                + 28 <= width_of(items),
        width_of(items) > 168 ==> exists|i: int|
            0 <= i < items.len() && !(#[trigger] items[i]).divider && label_width(items[i].label)
                + 28 >= width_of(items),
{
    assert forall|i: int| 0 <= i < items.len() && !(#[trigger] items[i]).divider implies label_width(
        items[i].label,
    ) <= widest(items) by {
        lemma_widest(items, i);
    }
    lemma_widest_is_one(items);
}

/// A text is as wide as its characters together: thirteen pixels for each of
/// those that are written in full width, seven for any other.
pub proof fn law_label_width_adds_up(s: Seq<char>, c: char)
    ensures
        label_width(Seq::empty()) == 0,
        label_width(s.push(c)) == label_width(s) + if (c as u32) >= 0x2e80 {
            13nat
        } else {
            7nat
        },
{
    assert(s.push(c).drop_last() =~= s);
}

/// An item begins plain and enabled; greying it and painting it red change that
/// and nothing else.
pub proof fn law_items_are_made(
    id: &str,
    label: &str,
    item: MenuItem,
    fresh: MenuItem,
    greyed: MenuItem,
    red: MenuItem,
    line: MenuItem,
)
    requires
        call_ensures(MenuItem::new, (id, label), fresh),
        call_ensures(MenuItem::disabled, (item,), greyed),
        call_ensures(MenuItem::danger, (item,), red),
        call_ensures(MenuItem::divider, (), line),
    ensures
        fresh.id@ == id@ && fresh.label@ == label@ && fresh.enabled && !fresh.danger
            && !fresh.divider,
        !greyed.enabled && greyed.id@ == item.id@ && greyed.label@ == item.label@ && greyed.danger
            == item.danger && greyed.divider == item.divider,
        red.danger && red.id@ == item.id@ && red.label@ == item.label@ && red.enabled
            == item.enabled && red.divider == item.divider,
        line.divider,
{
    assert(fresh@.id == fresh.id@ && greyed@.id == greyed.id@ && red@.id == red.id@ && item@.id
        == item.id@ && line@.divider == line.divider);
}

/// The file manager is told to select a file by its path in quotes; what is no
/// file is not shown.
pub proof fn law_shown_in_the_file_manager(path: &str, r: Option<String>)
    requires
        call_ensures(reveal_in_explorer, (path,), r),
    ensures
        r is None <==> path@.len() == 0 || "shell:"@.is_prefix_of(path@),
        r is Some ==> r->0@ == "/select,\""@ + path@ + "\""@,
{
}

} // verus!
