//! The entries of the dock as plain data: what the user pinned, and what the
//! dock shows for it.

use vstd::prelude::*;

verus! {

/// What an application is.
#[derive(Debug, Clone, Copy, PartialEq, Eq, Structural)]
pub enum AppKind {
    /// An ordinary desktop program.
    Win32,
    /// A packaged (store) application.
    Uwp,
    /// Not recognised.
    Unknown,
}

/// One window of an application.
#[derive(Debug)]
pub struct WindowRef {
    pub hwnd: u64,
    pub title: String,
    pub minimized: bool,
}

/// One entry of the dock as it is shown.
#[derive(Debug)]
pub struct AppEntry {
    /// Stable identity: the lower-case path of the executable, or `uwp:` and
    /// the package's identity.
    pub id: String,
    /// The name shown to the user.
    pub display_name: String,
    pub kind: AppKind,
    /// What launching it opens.
    pub target: String,
    /// Whether it runs with administrator rights.
    pub is_elevated: bool,
    /// Whether one of its windows is in the foreground.
    pub has_foreground: bool,
    /// Whether it has a window at present.
    pub running: bool,
    pub windows: Vec<WindowRef>,
    /// The entry is a separator, not an application.
    pub separator: bool,
    /// The entry is a folder.
    pub is_folder: bool,
    /// What the folder holds; empty for anything else.
    pub children: Vec<AppEntry>,
}

/// One entry that the user put on the dock.
#[derive(Debug)]
pub struct PinnedApp {
    pub id: String,
    pub display_name: String,
    pub target: String,
    /// The entry is a separator.
    pub separator: bool,
    /// The entry is a folder. A folder holds no folders.
    pub is_folder: bool,
    /// What the folder holds; empty for anything else.
    pub children: Vec<PinnedApp>,
}

/// The contents of a `WindowRef`.
#[verifier::ext_equal]
pub struct WindowView {
    pub hwnd: u64,
    pub title: Seq<char>,
    pub minimized: bool,
}

/// The contents of an `AppEntry`.
#[verifier::ext_equal]
pub struct AppView {
    pub id: Seq<char>,
    pub display_name: Seq<char>,
    pub kind: AppKind,
    pub target: Seq<char>,
    pub is_elevated: bool,
    pub has_foreground: bool,
    pub running: bool,
    pub windows: Seq<WindowView>,
    pub separator: bool,
    pub is_folder: bool,
    pub children: Seq<AppView>,
}

/// The contents of a `PinnedApp`.
#[verifier::ext_equal]
pub struct PinnedView {
    pub id: Seq<char>,
    pub display_name: Seq<char>,
    pub target: Seq<char>,
    pub separator: bool,
    pub is_folder: bool,
    pub children: Seq<PinnedView>,
}

impl View for WindowRef {
    type V = WindowView;

    open spec fn view(&self) -> WindowView {
        WindowView { hwnd: self.hwnd, title: self.title@, minimized: self.minimized }
    }
}

/// The contents of a list of windows.
pub open spec fn window_views(s: Seq<WindowRef>) -> Seq<WindowView> {
    Seq::new(s.len(), |i: int| s[i]@)
}

/// The contents of an entry, its children included.
pub open spec fn pinned_view(p: PinnedApp) -> PinnedView
    decreases p,
{
    PinnedView {
        id: p.id@,
        display_name: p.display_name@,
        target: p.target@,
        separator: p.separator,
        is_folder: p.is_folder,
        children: Seq::new(
            p.children@.len(),
            |i: int|
                if 0 <= i < p.children@.len() {
                    pinned_view(p.children@[i])
                } else {
                    arbitrary()
                },
        ),
    }
}

impl View for PinnedApp {
    type V = PinnedView;

    open spec fn view(&self) -> PinnedView {
        pinned_view(*self)
    }
}

/// The contents of a list of pinned entries.
pub open spec fn pinned_views(s: Seq<PinnedApp>) -> Seq<PinnedView> {
    Seq::new(s.len(), |i: int| s[i]@)
}

/// The contents of an entry, its children included.
pub open spec fn app_view(p: AppEntry) -> AppView
    decreases p,
{
    AppView {
        id: p.id@,
        display_name: p.display_name@,
        kind: p.kind,
        target: p.target@,
        is_elevated: p.is_elevated,
        has_foreground: p.has_foreground,
        running: p.running,
        windows: window_views(p.windows@),
        separator: p.separator,
        is_folder: p.is_folder,
        children: Seq::new(
            p.children@.len(),
            |i: int|
                if 0 <= i < p.children@.len() {
                    app_view(p.children@[i])
                } else {
                    arbitrary()
                },
        ),
    }
}

impl View for AppEntry {
    type V = AppView;

    open spec fn view(&self) -> AppView {
        app_view(*self)
    }
}

/// The contents of a list of shown entries.
pub open spec fn app_views(s: Seq<AppEntry>) -> Seq<AppView> {
    Seq::new(s.len(), |i: int| s[i]@)
}

impl Clone for WindowRef {
    fn clone(&self) -> (r: Self)
        ensures
            r@ == self@,
    {
        WindowRef { hwnd: self.hwnd, title: self.title.clone(), minimized: self.minimized }
    }
}

/// A copy of a list of windows.
pub fn clone_windows(v: &Vec<WindowRef>) -> (r: Vec<WindowRef>)
    ensures
        window_views(r@) == window_views(v@),
{
    let mut r: Vec<WindowRef> = Vec::new();
    let mut i: usize = 0;
    while i < v.len()
        invariant
            i <= v@.len(),
            r@.len() == i,
            forall|j: int| 0 <= j < i ==> (#[trigger] r@[j])@ == v@[j]@,
        decreases v@.len() - i,
    {
        r.push(v[i].clone());
        i += 1;
    }
    assert(window_views(r@) =~= window_views(v@));
    r
}

impl Clone for PinnedApp {
    fn clone(&self) -> (r: Self)
        ensures
            r@ == self@,
        decreases self,
    {
        let mut children: Vec<PinnedApp> = Vec::new();
        let mut i: usize = 0;
        while i < self.children.len()
            invariant
                i <= self.children@.len(),
                children@.len() == i,
                forall|j: int| 0 <= j < i ==> (#[trigger] children@[j])@ == self.children@[j]@,
            decreases self.children@.len() - i,
        {
            children.push(self.children[i].clone());
            i += 1;
        }
        let r = PinnedApp {
            id: self.id.clone(),
            display_name: self.display_name.clone(),
            target: self.target.clone(),
            separator: self.separator,
            is_folder: self.is_folder,
            children,
        };
        assert(r@.children =~= self@.children) by {
            assert forall|j: int| 0 <= j < r@.children.len() implies r@.children[j]
                == self@.children[j] by {
                assert(r@.children[j] == r.children@[j]@);
            }
        }
        r
    }
}

/// A copy of a list of pinned entries.
pub fn clone_pinned(v: &Vec<PinnedApp>) -> (r: Vec<PinnedApp>)
    ensures
        pinned_views(r@) == pinned_views(v@),
{
    let mut r: Vec<PinnedApp> = Vec::new();
    let mut i: usize = 0;
    while i < v.len()
        invariant
            i <= v@.len(),
            r@.len() == i,
            forall|j: int| 0 <= j < i ==> (#[trigger] r@[j])@ == v@[j]@,
        decreases v@.len() - i,
    {
        r.push(v[i].clone());
        i += 1;
    }
    assert(pinned_views(r@) =~= pinned_views(v@));
    r
}

impl Clone for AppEntry {
    fn clone(&self) -> (r: Self)
        ensures
            r@ == self@,
        decreases self,
    {
        let mut children: Vec<AppEntry> = Vec::new();
        let mut i: usize = 0;
        while i < self.children.len()
            invariant
                i <= self.children@.len(),
                children@.len() == i,
                forall|j: int| 0 <= j < i ==> (#[trigger] children@[j])@ == self.children@[j]@,
            decreases self.children@.len() - i,
        {
            children.push(self.children[i].clone());
            i += 1;
        }
        let r = AppEntry {
            id: self.id.clone(),
            display_name: self.display_name.clone(),
            kind: self.kind,
            target: self.target.clone(),
            is_elevated: self.is_elevated,
            has_foreground: self.has_foreground,
            running: self.running,
            windows: clone_windows(&self.windows),
            separator: self.separator,
            is_folder: self.is_folder,
            children,
        };
        assert(r@.children =~= self@.children) by {
            assert forall|j: int| 0 <= j < r@.children.len() implies r@.children[j]
                == self@.children[j] by {
                assert(r@.children[j] == r.children@[j]@);
            }
        }
        r
    }
}

/// The contents of a folder's children are the children of its contents.
pub proof fn lemma_children_views(p: PinnedApp)
    ensures
        p@.children == pinned_views(p.children@),
{
    assert(p@.children =~= pinned_views(p.children@));
}

/// The contents of what a folder shows are what its contents show.
pub proof fn lemma_entry_views(e: AppEntry)
    ensures
        e@.children == app_views(e.children@),
{
    assert(e@.children =~= app_views(e.children@));
}

/// The contents of a window, an entry of the list and an entry of the dock hold
/// everything that it is.
pub proof fn law_contents_hold_everything(w: WindowRef, p: PinnedApp, e: AppEntry)
    ensures
        w@.hwnd == w.hwnd && w@.title == w.title@ && w@.minimized == w.minimized,
        p@.id == p.id@ && p@.display_name == p.display_name@ && p@.target == p.target@,
        p@.separator == p.separator && p@.is_folder == p.is_folder,
        p@.children == pinned_views(p.children@),
        e@.id == e.id@ && e@.display_name == e.display_name@ && e@.target == e.target@,
        e@.kind == e.kind && e@.is_elevated == e.is_elevated,
        e@.has_foreground == e.has_foreground && e@.running == e.running,
        e@.separator == e.separator && e@.is_folder == e.is_folder,
        e@.windows == window_views(e.windows@),
        e@.children == app_views(e.children@),
{
    lemma_children_views(p);
    lemma_entry_views(e);
}

/// A copy of a list has the same entries at the same places.
pub proof fn law_copies(
    windows: Vec<WindowRef>,
    pinned: Vec<PinnedApp>,
    r: Vec<WindowRef>,
    s: Vec<PinnedApp>,
    i: int,
)
    requires
        call_ensures(clone_windows, (&windows,), r),
        call_ensures(clone_pinned, (&pinned,), s),
    ensures
        r@.len() == windows@.len(),
        s@.len() == pinned@.len(),
        0 <= i < windows@.len() ==> r@[i].hwnd == windows@[i].hwnd && r@[i].title@
            == windows@[i].title@ && r@[i].minimized == windows@[i].minimized,
        0 <= i < pinned@.len() ==> s@[i].id@ == pinned@[i].id@ && s@[i].target@
            == pinned@[i].target@ && s@[i].display_name@ == pinned@[i].display_name@
            && s@[i].separator == pinned@[i].separator && s@[i].is_folder == pinned@[i].is_folder
            && s@[i].children@.len() == pinned@[i].children@.len(),
{
    assert(window_views(r@).len() == r@.len());
    assert(pinned_views(s@).len() == s@.len());
    if 0 <= i < windows@.len() {
        assert(window_views(r@)[i] == window_views(windows@)[i]);
    }
    if 0 <= i < pinned@.len() {
        assert(pinned_views(s@)[i] == pinned_views(pinned@)[i]);
        assert(s@[i]@ == pinned@[i]@);
        lemma_children_views(s@[i]);
        lemma_children_views(pinned@[i]);
        assert(pinned_views(s@[i].children@).len() == s@[i].children@.len());
    }
}

} // verus!
