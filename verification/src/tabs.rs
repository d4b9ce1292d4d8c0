//! The tabs of the centre pane (role settings, skills, applications, files
//! and edit comparisons), the session that restores them, and the tab set
//! kept when the workspace root changes.
use vstd::prelude::*;
use crate::text::{concat, str_eq};
use crate::paths::{clean_path, stripped_of, file_name_of};

verus! {

broadcast use vstd::seq_lib::group_seq_properties;

/// What a centre tab shows.
#[derive(Clone, Debug, PartialEq, Eq)]
pub enum CenterTabKind {
    Role,
    SkillInstalled { slug: String },
    SkillMarket { key: String },
    Plugin { key: String },
    File { path: String },
    /// The before and after of one edit from a tool call (not saved with the
    /// session).
    FileDiff { path: String, old_text: String, new_text: String },
}

/// A centre tab.
#[derive(Clone, Debug, PartialEq, Eq)]
pub struct CenterTab {
    pub id: String,
    pub title: String,
    pub kind: CenterTabKind,
}

pub enum KindView {
    Role,
    SkillInstalled { slug: Seq<char> },
    SkillMarket { key: Seq<char> },
    Plugin { key: Seq<char> },
    File { path: Seq<char> },
    FileDiff { path: Seq<char>, old_text: Seq<char>, new_text: Seq<char> },
}

pub struct TabView {
    pub id: Seq<char>,
    pub title: Seq<char>,
    pub kind: KindView,
}

impl View for CenterTabKind {
    type V = KindView;

    open spec fn view(&self) -> KindView {
        match self {
            CenterTabKind::Role => KindView::Role,
            CenterTabKind::SkillInstalled { slug } => KindView::SkillInstalled { slug: slug@ },
            CenterTabKind::SkillMarket { key } => KindView::SkillMarket { key: key@ },
            CenterTabKind::Plugin { key } => KindView::Plugin { key: key@ },
            CenterTabKind::File { path } => KindView::File { path: path@ },
            CenterTabKind::FileDiff { path, old_text, new_text } => KindView::FileDiff {
                path: path@,
                old_text: old_text@,
                new_text: new_text@,
            },
        }
    }
}

impl View for CenterTab {
    type V = TabView;

    open spec fn view(&self) -> TabView {
        TabView { id: self.id@, title: self.title@, kind: self.kind@ }
    }
}

pub open spec fn tabs_view(v: Seq<CenterTab>) -> Seq<TabView> {
    v.map_values(|t: CenterTab| t@)
}

pub open spec fn opt_str(o: Option<String>) -> Option<Seq<char>> {
    match o {
        Some(s) => Some(s@),
        None => None,
    }
}

/// No two tabs share an id.
pub open spec fn ids_unique(ts: Seq<TabView>) -> bool {
    forall|i: int, j: int| 0 <= i < j < ts.len() ==> (#[trigger] ts[i]).id != (#[trigger] ts[j]).id
}

/// The position of the tab with id `id`, if any.
pub open spec fn tab_index(ts: Seq<TabView>, id: Seq<char>) -> Option<int>
    decreases ts.len(),
{
    if ts.len() == 0 {
        None
    } else {
        match tab_index(ts.drop_last(), id) {
            Some(i) => Some(i),
            None => if ts.last().id == id {
                Some(ts.len() - 1)
            } else {
                None
            },
        }
    }
}

pub proof fn lemma_tab_index(ts: Seq<TabView>, id: Seq<char>)
    ensures
        tab_index(ts, id) matches Some(i) ==> 0 <= i < ts.len() && ts[i].id == id && forall|k: int|
            0 <= k < i ==> (#[trigger] ts[k]).id != id,
        tab_index(ts, id) is None ==> forall|k: int| 0 <= k < ts.len() ==> (#[trigger] ts[k]).id != id,
    decreases ts.len(),
{
    if ts.len() > 0 {
        lemma_tab_index(ts.drop_last(), id);
        assert forall|k: int| 0 <= k < ts.len() - 1 implies ts[k] == ts.drop_last()[k] by {}
    }
}

/// The position of the tab with id `id`.
pub fn find_tab(tabs: &Vec<CenterTab>, id: &str) -> (r: Option<usize>)
    ensures
        match r {
            Some(i) => tab_index(tabs_view(tabs@), id@) == Some(i as int),
            None => tab_index(tabs_view(tabs@), id@) is None,
        },
{
    let ghost tv = tabs_view(tabs@);
    let mut i: usize = 0;
    while i < tabs.len()
        invariant
            i <= tabs@.len(),
            tv == tabs_view(tabs@),
            forall|k: int| 0 <= k < i ==> (#[trigger] tv[k]).id != id@,
        decreases tabs.len() - i,
    {
        assert(tv[i as int] == tabs@[i as int]@);
        if str_eq(tabs[i].id.as_str(), id) {
            proof {
                lemma_tab_index(tv, id@);
                if tab_index(tv, id@) != Some(i as int) {
                    match tab_index(tv, id@) {
                        Some(j) => {
                            if j > i {
                                assert(tv[i as int].id == id@);
                            }
                        },
                        None => {
                            assert(tv[i as int].id == id@);
                        },
                    }
                }
            }
            return Some(i);
        }
        i += 1;
    }
    proof {
        lemma_tab_index(tv, id@);
        if let Some(j) = tab_index(tv, id@) {
            assert(tv[j].id == id@);
        }
    }
    None
}

// ---------------------------------------------------------------------------
// Tabs
// ---------------------------------------------------------------------------

/// A copy of a tab kind.
pub fn copy_kind(k: &CenterTabKind) -> (r: CenterTabKind)
    ensures
        r@ == k@,
{
    match k {
        CenterTabKind::Role => CenterTabKind::Role,
        CenterTabKind::SkillInstalled { slug } => CenterTabKind::SkillInstalled { slug: slug.clone() },
        CenterTabKind::SkillMarket { key } => CenterTabKind::SkillMarket { key: key.clone() },
        CenterTabKind::Plugin { key } => CenterTabKind::Plugin { key: key.clone() },
        CenterTabKind::File { path } => CenterTabKind::File { path: path.clone() },
        CenterTabKind::FileDiff { path, old_text, new_text } => CenterTabKind::FileDiff {
            path: path.clone(),
            old_text: old_text.clone(),
            new_text: new_text.clone(),
        },
    }
}

/// A copy of a tab.
pub fn copy_tab(t: &CenterTab) -> (r: CenterTab)
    ensures
        r@ == t@,
{
    CenterTab { id: t.id.clone(), title: t.title.clone(), kind: copy_kind(&t.kind) }
}

impl CenterTab {
    /// The role settings tab.
    pub fn role() -> (r: CenterTab)
        ensures
            r@.id == "role"@,
            r@.title == "角色设定"@,
            r@.kind == KindView::Role,
    {
        CenterTab { id: "role".to_string(), title: "角色设定".to_string(), kind: CenterTabKind::Role }
    }

    /// The tab of an installed skill.
    pub fn skill_installed(slug: String, title: String) -> (r: CenterTab)
        ensures
            r@.id == "skill:installed:"@ + slug@,
            r@.title == title@,
            r@.kind == (KindView::SkillInstalled { slug: slug@ }),
    {
        let id = concat("skill:installed:", slug.as_str());
        CenterTab { id, title, kind: CenterTabKind::SkillInstalled { slug } }
    }

    /// The tab of a skill of the market.
    pub fn skill_market(key: String, title: String) -> (r: CenterTab)
        ensures
            r@.id == "skill:market:"@ + key@,
            r@.title == title@,
            r@.kind == (KindView::SkillMarket { key: key@ }),
    {
        let id = concat("skill:market:", key.as_str());
        CenterTab { id, title, kind: CenterTabKind::SkillMarket { key } }
    }

    /// The tab of an application.
    pub fn plugin(key: String, title: String) -> (r: CenterTab)
        ensures
            r@.id == "plugin:"@ + key@,
            r@.title == title@,
            r@.kind == (KindView::Plugin { key: key@ }),
    {
        let id = concat("plugin:", key.as_str());
        CenterTab { id, title, kind: CenterTabKind::Plugin { key } }
    }

    /// The tab of a file, titled by its name (`title`, from the path).
    pub fn file_titled(path: String, title: String) -> (r: CenterTab)
        ensures
            r@.id == "file:"@ + path@,
            r@.title == title@,
            r@.kind == (KindView::File { path: path@ }),
    {
        let id = concat("file:", path.as_str());
        CenterTab { id, title, kind: CenterTabKind::File { path } }
    }

    /// The tab of a file.
    pub fn file(path: String) -> (r: CenterTab)
        ensures
            r@.id == "file:"@ + path@,
            r@.kind == (KindView::File { path: path@ }),
            clean_path(path@) ==> r@.title == match file_name_of(path@) {
                Some(n) => n,
                None => path@,
            },
    {
        let title = crate::files::fs_file_title(path.as_str());
        CenterTab::file_titled(path, title)
    }

    /// The tab comparing one edit of a tool call, titled by the file's name
    /// (`name`).
    pub fn file_diff_named(tool_id: String, path: String, old_text: String, new_text: String, name: String) -> (r: CenterTab)
        ensures
            r@.id == "file-diff:"@ + tool_id@,
            r@.title == "编辑 · "@ + name@,
            r@.kind == (KindView::FileDiff { path: path@, old_text: old_text@, new_text: new_text@ }),
    {
        let id = concat("file-diff:", tool_id.as_str());
        let title = concat("编辑 · ", name.as_str());
        CenterTab { id, title, kind: CenterTabKind::FileDiff { path, old_text, new_text } }
    }

    /// The tab comparing one edit of a tool call.
    pub fn file_diff(tool_id: String, path: String, old_text: String, new_text: String) -> (r: CenterTab)
        ensures
            r@.id == "file-diff:"@ + tool_id@,
            clean_path(path@) ==> r@.title == "编辑 · "@ + match file_name_of(path@) {
                Some(n) => n,
                None => path@,
            },
            r@.kind == (KindView::FileDiff { path: path@, old_text: old_text@, new_text: new_text@ }),
    {
        let name = crate::files::fs_file_title(path.as_str());
        CenterTab::file_diff_named(tool_id, path, old_text, new_text, name)
    }
}

/// The tab a click on an edit in the agent's trace opens: the edited file
/// as resolved in the workspace (`resolved`, empty when it could not be),
/// else as the trace named it; a plain file tab when the edit carries no
/// texts; none without a path.
pub fn trace_edit_tab(path: String, resolved: String, tool_id: String, old_text: String, new_text: String) -> (r: Option<CenterTab>)
    ensures
        ({
            let p = if resolved@.len() == 0 {
                path@
            } else {
                resolved@
            };
            match r {
                None => p.len() == 0,
                Some(t) => p.len() > 0 && if old_text@.len() == 0 && new_text@.len() == 0 {
                    t@.id == "file:"@ + p && t@.kind == (KindView::File { path: p })
                } else {
                    t@.id == "file-diff:"@ + tool_id@ && t@.kind == (KindView::FileDiff {
                        path: p,
                        old_text: old_text@,
                        new_text: new_text@,
                    })
                },
            }
        }),
{
    let p = if resolved.as_str().is_empty() {
        path
    } else {
        resolved
    };
    if p.as_str().is_empty() {
        return None;
    }
    if old_text.as_str().is_empty() && new_text.as_str().is_empty() {
        Some(CenterTab::file(p))
    } else {
        Some(CenterTab::file_diff(tool_id, p, old_text, new_text))
    }
}

/// The tabs after opening `tab`: a tab with its id takes its title and kind
/// (in place), else it is added at the end.
pub open spec fn opened(ts: Seq<TabView>, tab: TabView) -> Seq<TabView> {
    match tab_index(ts, tab.id) {
        Some(i) => ts.update(i, tab),
        None => ts.push(tab),
    }
}

/// Opens `tab`, or brings forward the tab with its id, and makes it the
/// active one.
pub fn center_open_or_focus(tabs: &mut Vec<CenterTab>, active_id: &mut Option<String>, tab: CenterTab)
    ensures
        tabs_view(final(tabs)@) == opened(tabs_view(old(tabs)@), tab@),
        *final(active_id) matches Some(a) && a@ == tab@.id,
{
    let ghost before = tabs_view(tabs@);
    proof {
        lemma_tab_index(before, tab@.id);
    }
    match find_tab(tabs, tab.id.as_str()) {
        Some(i) => {
            let id = tab.id.clone();
            let _ = tabs.remove(i);
            tabs.insert(i, tab);
            *active_id = Some(id);
            assert(tabs_view(tabs@) =~= before.update(i as int, tabs@[i as int]@));
        },
        None => {
            *active_id = Some(tab.id.clone());
            tabs.push(tab);
            assert(tabs_view(tabs@) =~= before.push(tabs@[tabs@.len() - 1]@));
        },
    }
}

/// The active tab after closing the tab at `idx` of `ts` (`ts` is the list
/// before closing): unchanged unless it was the closed one; then the tab now
/// at its place, or the last one, or none.
pub open spec fn active_after_close(ts: Seq<TabView>, idx: int, active: Option<Seq<char>>, id: Seq<char>) -> Option<Seq<char>> {
    let rest = ts.remove(idx);
    if active == Some(id) {
        if rest.len() == 0 {
            None
        } else if idx < rest.len() {
            Some(rest[idx].id)
        } else {
            Some(rest[rest.len() - 1].id)
        }
    } else {
        active
    }
}

/// Closes the tab with id `id`, if there is one, and gives it back; the
/// active tab moves to its neighbour when it was the closed one.
pub fn center_close_tab(tabs: &mut Vec<CenterTab>, active_id: &mut Option<String>, id: &str) -> (r: Option<CenterTab>)
    ensures
        match tab_index(tabs_view(old(tabs)@), id@) {
            None => r is None && final(tabs)@ == old(tabs)@ && *final(active_id) == *old(active_id),
            Some(i) => {
                &&& r matches Some(t) && t@ == tabs_view(old(tabs)@)[i]
                &&& tabs_view(final(tabs)@) == tabs_view(old(tabs)@).remove(i)
                &&& opt_str(*final(active_id)) == active_after_close(tabs_view(old(tabs)@), i, opt_str(*old(active_id)), id@)
            },
        },
{
    let ghost before = tabs_view(tabs@);
    let idx = match find_tab(tabs, id) {
        Some(i) => i,
        None => {
            return None;
        },
    };
    proof {
        lemma_tab_index(before, id@);
    }
    let removed = tabs.remove(idx);
    assert(tabs_view(tabs@) =~= before.remove(idx as int));
    let was_active = match active_id {
        Some(a) => str_eq(a.as_str(), id),
        None => false,
    };
    if was_active {
        if tabs.len() == 0 {
            *active_id = None;
        } else {
            let last = tabs.len() - 1;
            let k = if idx < last {
                idx
            } else {
                last
            };
            assert(tabs_view(tabs@)[k as int] == tabs@[k as int]@);
            *active_id = Some(tabs[k].id.clone());
        }
    }
    Some(removed)
}

/// The kind of the active tab.
pub fn center_active_kind(tabs: &Vec<CenterTab>, active_id: &Option<String>) -> (r: Option<CenterTabKind>)
    ensures
        match active_id {
            None => r is None,
            Some(a) => match tab_index(tabs_view(tabs@), a@) {
                Some(i) => r matches Some(k) && k@ == tabs_view(tabs@)[i].kind,
                None => r is None,
            },
        },
{
    let id = match active_id {
        Some(a) => a,
        None => {
            return None;
        },
    };
    match find_tab(tabs, id.as_str()) {
        Some(i) => {
            proof {
                lemma_tab_index(tabs_view(tabs@), id@);
            }
            assert(tabs_view(tabs@)[i as int] == tabs@[i as int]@);
            Some(copy_kind(&tabs[i].kind))
        },
        None => None,
    }
}

/// The skill a tab shows (installed slug or market key).
pub fn center_tab_skill_key(kind: &CenterTabKind) -> (r: Option<String>)
    ensures
        match kind@ {
            KindView::SkillInstalled { slug } => r matches Some(s) && s@ == slug,
            KindView::SkillMarket { key } => r matches Some(s) && s@ == key,
            _ => r is None,
        },
{
    match kind {
        CenterTabKind::SkillInstalled { slug } => Some(slug.clone()),
        CenterTabKind::SkillMarket { key } => Some(key.clone()),
        _ => None,
    }
}

/// The application a tab shows.
pub fn center_tab_plugin_key(kind: &CenterTabKind) -> (r: Option<String>)
    ensures
        match kind@ {
            KindView::Plugin { key } => r matches Some(s) && s@ == key,
            _ => r is None,
        },
{
    match kind {
        CenterTabKind::Plugin { key } => Some(key.clone()),
        _ => None,
    }
}

/// The file a file tab shows.
pub fn center_tab_file_path(kind: &CenterTabKind) -> (r: Option<String>)
    ensures
        match kind@ {
            KindView::File { path } => r matches Some(s) && s@ == path,
            _ => r is None,
        },
{
    match kind {
        CenterTabKind::File { path } => Some(path.clone()),
        _ => None,
    }
}

/// The path the status bar shows for a tab: its file, for a file or an edit
/// comparison.
pub fn center_tab_display_path(kind: &CenterTabKind) -> (r: Option<String>)
    ensures
        match kind@ {
            KindView::File { path } => r matches Some(s) && s@ == path,
            KindView::FileDiff { path, .. } => r matches Some(s) && s@ == path,
            _ => r is None,
        },
{
    match kind {
        CenterTabKind::File { path } => Some(path.clone()),
        CenterTabKind::FileDiff { path, .. } => Some(path.clone()),
        _ => None,
    }
}

// ---------------------------------------------------------------------------
// The saved session
// ---------------------------------------------------------------------------

/// The kind of a tab as the session cache keeps it (edit comparisons are not
/// kept).
#[derive(Clone, Debug, PartialEq, Eq)]
pub enum CenterTabKindCache {
    Role,
    SkillInstalled { slug: String },
    SkillMarket { key: String },
    Plugin { key: String },
    File { path: String },
}

/// A tab as the session cache keeps it.
#[derive(Clone, Debug, PartialEq, Eq)]
pub struct CenterTabCacheEntry {
    pub id: String,
    pub title: String,
    pub kind: CenterTabKindCache,
}

/// The saved session: the open tabs and the active one.
#[derive(Clone, Debug, PartialEq, Eq)]
pub struct CenterTabsCache {
    pub tabs: Vec<CenterTabCacheEntry>,
    pub active_id: Option<String>,
}

/// The session restored at start-up (empty without a saved one).
#[derive(Clone, Debug)]
pub struct CenterSessionRestore {
    pub tabs: Vec<CenterTab>,
    pub active_id: Option<String>,
    pub selected_skill_key: Option<String>,
    pub selected_plugin_key: Option<String>,
    pub selected_file_path: Option<String>,
}

impl View for CenterTabKindCache {
    type V = KindView;

    open spec fn view(&self) -> KindView {
        match self {
            CenterTabKindCache::Role => KindView::Role,
            CenterTabKindCache::SkillInstalled { slug } => KindView::SkillInstalled { slug: slug@ },
            CenterTabKindCache::SkillMarket { key } => KindView::SkillMarket { key: key@ },
            CenterTabKindCache::Plugin { key } => KindView::Plugin { key: key@ },
            CenterTabKindCache::File { path } => KindView::File { path: path@ },
        }
    }
}

impl View for CenterTabCacheEntry {
    type V = TabView;

    open spec fn view(&self) -> TabView {
        TabView { id: self.id@, title: self.title@, kind: self.kind@ }
    }
}

pub open spec fn entries_view(v: Seq<CenterTabCacheEntry>) -> Seq<TabView> {
    v.map_values(|e: CenterTabCacheEntry| e@)
}

/// A kind the session cache keeps.
pub open spec fn kept_kind(k: KindView) -> bool {
    !(k is FileDiff)
}

impl CenterTabKindCache {
    /// The kind as the cache keeps it; `None` for an edit comparison.
    pub fn try_from_kind(kind: &CenterTabKind) -> (r: Option<CenterTabKindCache>)
        ensures
            kept_kind(kind@) ==> (r matches Some(k) && k@ == kind@),
            !kept_kind(kind@) ==> r is None,
    {
        match kind {
            CenterTabKind::Role => Some(CenterTabKindCache::Role),
            CenterTabKind::SkillInstalled { slug } => Some(
                CenterTabKindCache::SkillInstalled { slug: slug.clone() },
            ),
            CenterTabKind::SkillMarket { key } => Some(CenterTabKindCache::SkillMarket { key: key.clone() }),
            CenterTabKind::Plugin { key } => Some(CenterTabKindCache::Plugin { key: key.clone() }),
            CenterTabKind::File { path } => Some(CenterTabKindCache::File { path: path.clone() }),
            CenterTabKind::FileDiff { .. } => None,
        }
    }
}

impl From<CenterTabKindCache> for CenterTabKind {
    fn from(kind: CenterTabKindCache) -> (r: CenterTabKind) {
        match kind {
            CenterTabKindCache::Role => CenterTabKind::Role,
            CenterTabKindCache::SkillInstalled { slug } => CenterTabKind::SkillInstalled { slug },
            CenterTabKindCache::SkillMarket { key } => CenterTabKind::SkillMarket { key },
            CenterTabKindCache::Plugin { key } => CenterTabKind::Plugin { key },
            CenterTabKindCache::File { path } => CenterTabKind::File { path },
        }
    }
}

impl vstd::std_specs::convert::FromSpecImpl<CenterTabKindCache> for CenterTabKind {
    open spec fn obeys_from_spec() -> bool {
        true
    }

    open spec fn from_spec(kind: CenterTabKindCache) -> CenterTabKind {
        match kind {
            CenterTabKindCache::Role => CenterTabKind::Role,
            CenterTabKindCache::SkillInstalled { slug } => CenterTabKind::SkillInstalled { slug },
            CenterTabKindCache::SkillMarket { key } => CenterTabKind::SkillMarket { key },
            CenterTabKindCache::Plugin { key } => CenterTabKind::Plugin { key },
            CenterTabKindCache::File { path } => CenterTabKind::File { path },
        }
    }
}

impl CenterTabCacheEntry {
    /// The tab as the cache keeps it; `None` for an edit comparison.
    pub fn try_from_tab(tab: &CenterTab) -> (r: Option<CenterTabCacheEntry>)
        ensures
            kept_kind(tab@.kind) ==> (r matches Some(e) && e@ == tab@),
            !kept_kind(tab@.kind) ==> r is None,
    {
        match CenterTabKindCache::try_from_kind(&tab.kind) {
            Some(kind) => Some(CenterTabCacheEntry { id: tab.id.clone(), title: tab.title.clone(), kind }),
            None => None,
        }
    }
}

impl From<CenterTabCacheEntry> for CenterTab {
    fn from(entry: CenterTabCacheEntry) -> (r: CenterTab) {
        CenterTab { id: entry.id, title: entry.title, kind: CenterTabKind::from(entry.kind) }
    }
}

impl vstd::std_specs::convert::FromSpecImpl<CenterTabCacheEntry> for CenterTab {
    open spec fn obeys_from_spec() -> bool {
        true
    }

    open spec fn from_spec(entry: CenterTabCacheEntry) -> CenterTab {
        CenterTab {
            id: entry.id,
            title: entry.title,
            kind: <CenterTabKind as vstd::std_specs::convert::FromSpec<CenterTabKindCache>>::from_spec(entry.kind),
        }
    }
}

/// The tab a cache entry restores.
pub fn tab_from_entry(entry: CenterTabCacheEntry) -> (r: CenterTab)
    ensures
        r@ == entry@,
{
    let r = CenterTab::from(entry);
    r
}

/// The active id restored from `saved`: the saved one when a tab has it,
/// else the first tab's.
pub open spec fn restored_active(ts: Seq<TabView>, saved: Option<Seq<char>>) -> Option<Seq<char>> {
    match saved {
        Some(id) if tab_index(ts, id) is Some => Some(id),
        _ => if ts.len() > 0 {
            Some(ts[0].id)
        } else {
            None
        },
    }
}

/// Restores the session from the saved cache (`None`: nothing saved, or it
/// could not be read): its tabs, the active one, and the skill, application
/// or file that the active tab selects.
pub fn load_center_session_restore(cache: Option<CenterTabsCache>) -> (r: CenterSessionRestore)
    ensures
        match cache {
            None => r.tabs@.len() == 0 && r.active_id is None,
            Some(c) => if c.tabs@.len() == 0 {
                r.tabs@.len() == 0 && r.active_id is None
            } else {
                &&& tabs_view(r.tabs@) == entries_view(c.tabs@)
                &&& opt_str(r.active_id) == restored_active(entries_view(c.tabs@), opt_str(c.active_id))
            },
        },
        r.active_id is None ==> r.selected_skill_key is None && r.selected_plugin_key is None
            && r.selected_file_path is None,
        r.active_id matches Some(a) ==> match tab_index(tabs_view(r.tabs@), a@) {
            Some(i) => {
                &&& (tabs_view(r.tabs@)[i].kind matches KindView::SkillInstalled { slug } ==> opt_str(r.selected_skill_key) == Some(slug))
                &&& (tabs_view(r.tabs@)[i].kind matches KindView::SkillMarket { key } ==> opt_str(r.selected_skill_key) == Some(key))
                &&& (!(tabs_view(r.tabs@)[i].kind is SkillInstalled) && !(tabs_view(r.tabs@)[i].kind is SkillMarket)) ==> r.selected_skill_key is None
                &&& (tabs_view(r.tabs@)[i].kind matches KindView::Plugin { key } ==> opt_str(r.selected_plugin_key) == Some(key))
                &&& !(tabs_view(r.tabs@)[i].kind is Plugin) ==> r.selected_plugin_key is None
                &&& (tabs_view(r.tabs@)[i].kind matches KindView::File { path } ==> opt_str(r.selected_file_path) == Some(path))
                &&& !(tabs_view(r.tabs@)[i].kind is File) ==> r.selected_file_path is None
            },
            None => r.selected_skill_key is None && r.selected_plugin_key is None && r.selected_file_path is None,
        },
{
    let empty = CenterSessionRestore {
        tabs: Vec::new(),
        active_id: None,
        selected_skill_key: None,
        selected_plugin_key: None,
        selected_file_path: None,
    };
    let c = match cache {
        Some(c) => c,
        None => {
            return empty;
        },
    };
    if c.tabs.len() == 0 {
        return empty;
    }
    let ghost ev = entries_view(c.tabs@);
    let saved_active = c.active_id;
    let mut entries = c.tabs;
    let mut tabs: Vec<CenterTab> = Vec::new();
    let n = entries.len();
    let mut k: usize = 0;
    let ghost orig = entries@;
    while k < n
        invariant
            k <= n == entries@.len() == orig.len(),
            ev == entries_view(orig),
            forall|q: int| k <= q < n ==> entries@[q] == orig[q],
            tabs_view(tabs@) == ev.take(k as int),
        decreases n - k,
    {
        let e = entries.remove(k);
        entries.insert(
            k,
            CenterTabCacheEntry { id: String::new(), title: String::new(), kind: CenterTabKindCache::Role },
        );
        assert(e@ == ev[k as int]);
        let t = tab_from_entry(e);
        let ghost before = tabs_view(tabs@);
        tabs.push(t);
        assert(tabs_view(tabs@) =~= before.push(ev[k as int]));
        assert(ev.take(k as int + 1) =~= ev.take(k as int).push(ev[k as int]));
        k += 1;
    }
    assert(ev.take(n as int) =~= ev);
    let active_id = match saved_active {
        Some(id) => {
            if find_tab(&tabs, id.as_str()).is_some() {
                Some(id)
            } else {
                assert(tabs_view(tabs@)[0] == tabs@[0]@);
                Some(tabs[0].id.clone())
            }
        },
        None => {
            assert(tabs_view(tabs@)[0] == tabs@[0]@);
            Some(tabs[0].id.clone())
        },
    };
    let active_kind = center_active_kind(&tabs, &active_id);
    let selected_skill_key = match &active_kind {
        Some(k) => center_tab_skill_key(k),
        None => None,
    };
    let selected_plugin_key = match &active_kind {
        Some(k) => center_tab_plugin_key(k),
        None => None,
    };
    let selected_file_path = match &active_kind {
        Some(k) => center_tab_file_path(k),
        None => None,
    };
    CenterSessionRestore { tabs, active_id, selected_skill_key, selected_plugin_key, selected_file_path }
}

/// The tabs the session cache keeps, in order.
pub open spec fn kept_tabs(ts: Seq<TabView>) -> Seq<TabView>
    decreases ts.len(),
{
    if ts.len() == 0 {
        Seq::empty()
    } else if kept_kind(ts.last().kind) {
        kept_tabs(ts.drop_last()).push(ts.last())
    } else {
        kept_tabs(ts.drop_last())
    }
}

/// The session to save: the tabs it keeps, and the active id when one of
/// them has it; `None` when no tab is kept (the saved session is cleared).
pub fn persist_center_session(tabs: &Vec<CenterTab>, active_id: &Option<String>) -> (r: Option<CenterTabsCache>)
    ensures
        kept_tabs(tabs_view(tabs@)).len() == 0 <==> r is None,
        r matches Some(c) ==> {
            &&& entries_view(c.tabs@) == kept_tabs(tabs_view(tabs@))
            &&& opt_str(c.active_id) == match active_id {
                Some(a) => if tab_index(kept_tabs(tabs_view(tabs@)), a@) is Some {
                    Some(a@)
                } else {
                    None
                },
                None => None,
            }
        },
{
    let ghost tv = tabs_view(tabs@);
    let mut entries: Vec<CenterTabCacheEntry> = Vec::new();
    let mut k: usize = 0;
    while k < tabs.len()
        invariant
            k <= tabs@.len(),
            tv == tabs_view(tabs@),
            entries_view(entries@) == kept_tabs(tv.take(k as int)),
        decreases tabs.len() - k,
    {
        assert(tv.take(k as int + 1).drop_last() =~= tv.take(k as int));
        assert(tv[k as int] == tabs@[k as int]@);
        match CenterTabCacheEntry::try_from_tab(&tabs[k]) {
            Some(e) => {
                let ghost before = entries_view(entries@);
                entries.push(e);
                assert(entries_view(entries@) =~= before.push(tv[k as int]));
            },
            None => {},
        }
        k += 1;
    }
    assert(tv.take(tv.len() as int) =~= tv);
    if entries.len() == 0 {
        return None;
    }
    let active = match active_id {
        Some(a) => {
            let kept = find_entry(&entries, a.as_str());
            if kept {
                Some(a.clone())
            } else {
                None
            }
        },
        None => None,
    };
    Some(CenterTabsCache { tabs: entries, active_id: active })
}

/// Whether a cache entry has id `id`.
fn find_entry(entries: &Vec<CenterTabCacheEntry>, id: &str) -> (r: bool)
    ensures
        r == tab_index(entries_view(entries@), id@) is Some,
{
    let ghost ev = entries_view(entries@);
    let mut i: usize = 0;
    while i < entries.len()
        invariant
            i <= entries@.len(),
            ev == entries_view(entries@),
            forall|k: int| 0 <= k < i ==> (#[trigger] ev[k]).id != id@,
        decreases entries.len() - i,
    {
        assert(ev[i as int] == entries@[i as int]@);
        if str_eq(entries[i].id.as_str(), id) {
            proof {
                lemma_tab_index(ev, id@);
                if tab_index(ev, id@) is None {
                    assert(ev[i as int].id == id@);
                }
            }
            return true;
        }
        i += 1;
    }
    proof {
        lemma_tab_index(ev, id@);
        if let Some(j) = tab_index(ev, id@) {
            assert(ev[j].id == id@);
        }
    }
    false
}

/// A tab that shows a file (or an edit of one), and that file.
pub open spec fn tab_file(k: KindView) -> Option<Seq<char>> {
    match k {
        KindView::File { path } => Some(path),
        KindView::FileDiff { path, .. } => Some(path),
        _ => None,
    }
}

/// The tabs kept when the workspace root changes, given for each tab whether
/// its file lies under the new root (`under`): those that show no file, and
/// those whose file does.
pub open spec fn retained(ts: Seq<TabView>, under: Seq<bool>) -> Seq<TabView>
    decreases ts.len(),
{
    if ts.len() == 0 || under.len() < ts.len() {
        Seq::empty()
    } else {
        let rest = retained(ts.drop_last(), under.take(ts.len() - 1));
        if tab_file(ts.last().kind) is None || under[ts.len() - 1] {
            rest.push(ts.last())
        } else {
            rest
        }
    }
}

/// Keeps the tabs whose file lies under the new root (`under`, one flag per
/// tab) and those without a file; when the active tab is gone, the first
/// remaining tab becomes active.
pub fn retain_tabs(tabs: &mut Vec<CenterTab>, active_id: &mut Option<String>, under: &Vec<bool>)
    requires
        under@.len() == old(tabs)@.len(),
    ensures
        tabs_view(final(tabs)@) == retained(tabs_view(old(tabs)@), under@),
        (*old(active_id) matches Some(a) && tab_index(tabs_view(final(tabs)@), a@) is Some) ==> *final(active_id) == *old(active_id),
        !(*old(active_id) matches Some(a) && tab_index(tabs_view(final(tabs)@), a@) is Some) ==> opt_str(*final(active_id)) == if final(tabs)@.len() > 0 {
            Some(tabs_view(final(tabs)@)[0].id)
        } else {
            None
        },
{
    let ghost tv = tabs_view(tabs@);
    let mut kept: Vec<CenterTab> = Vec::new();
    let mut k: usize = 0;
    while k < tabs.len()
        invariant
            k <= tabs@.len() == under@.len(),
            tv == tabs_view(tabs@),
            tabs_view(kept@) == retained(tv.take(k as int), under@.take(k as int)),
        decreases tabs.len() - k,
    {
        assert(tv.take(k as int + 1).drop_last() =~= tv.take(k as int));
        assert(under@.take(k as int + 1).take(k as int) =~= under@.take(k as int));
        assert(tv[k as int] == tabs@[k as int]@);
        let has_file = match &tabs[k].kind {
            CenterTabKind::File { .. } => true,
            CenterTabKind::FileDiff { .. } => true,
            _ => false,
        };
        if !has_file || under[k] {
            let ghost before = tabs_view(kept@);
            kept.push(copy_tab(&tabs[k]));
            assert(tabs_view(kept@) =~= before.push(tv[k as int]));
        }
        k += 1;
    }
    assert(tv.take(tv.len() as int) =~= tv);
    assert(under@.take(under@.len() as int) =~= under@);
    *tabs = kept;
    let active_ok = match active_id {
        Some(a) => find_tab(tabs, a.as_str()).is_some(),
        None => false,
    };
    if !active_ok {
        if tabs.len() > 0 {
            assert(tabs_view(tabs@)[0] == tabs@[0]@);
            *active_id = Some(tabs[0].id.clone());
        } else {
            *active_id = None;
        }
    }
}

/// Keeps the tabs that belong to the new workspace root `root`, as opening a
/// project does: whether a file lies under the root is `Path::starts_with`'s
/// answer (for clean paths: whether the file is the root or below it); tabs
/// that show no file always stay.
pub fn retain_tabs_under_root(tabs: &mut Vec<CenterTab>, active_id: &mut Option<String>, root: &str)
    ensures
        exists|under: Seq<bool>|
            {
                &&& under.len() == old(tabs)@.len()
                &&& forall|k: int|
                    0 <= k < under.len() && tab_file(tabs_view(old(tabs)@)[k].kind) is None
                        ==> #[trigger] under[k]
                &&& forall|k: int|
                    0 <= k < under.len() && clean_path(root@) && (tab_file(
                        tabs_view(old(tabs)@)[k].kind,
                    ) matches Some(p) && clean_path(p)) ==> (#[trigger] under[k] <==> stripped_of(
                        root@,
                        tab_file(tabs_view(old(tabs)@)[k].kind)->0,
                    ) is Some)
                &&& tabs_view(final(tabs)@) == retained(tabs_view(old(tabs)@), under)
            },
        (*old(active_id) matches Some(a) && tab_index(tabs_view(final(tabs)@), a@) is Some) ==> *final(active_id) == *old(active_id),
        !(*old(active_id) matches Some(a) && tab_index(tabs_view(final(tabs)@), a@) is Some) ==> opt_str(*final(active_id)) == if final(tabs)@.len() > 0 {
            Some(tabs_view(final(tabs)@)[0].id)
        } else {
            None
        },
{
    let ghost tv = tabs_view(tabs@);
    let mut under: Vec<bool> = Vec::new();
    let mut k: usize = 0;
    while k < tabs.len()
        invariant
            k <= tabs@.len(),
            under@.len() == k,
            tv == tabs_view(tabs@),
            forall|j: int| 0 <= j < k && tab_file(tv[j].kind) is None ==> #[trigger] under@[j],
            forall|j: int|
                0 <= j < k && clean_path(root@) && (tab_file(tv[j].kind) matches Some(p) && clean_path(p))
                    ==> (#[trigger] under@[j] <==> stripped_of(root@, tab_file(tv[j].kind)->0) is Some),
        decreases tabs.len() - k,
    {
        assert(tv[k as int] == tabs@[k as int]@);
        let inside = match &tabs[k].kind {
            CenterTabKind::File { path } => crate::paths::path_starts_with(path.as_str(), root),
            CenterTabKind::FileDiff { path, .. } => crate::paths::path_starts_with(path.as_str(), root),
            _ => true,
        };
        under.push(inside);
        k += 1;
    }
    retain_tabs(tabs, active_id, &under);
}

// ---------------------------------------------------------------------------
// Laws
// ---------------------------------------------------------------------------

/// Closing the active tab hands the focus to its right-hand neighbour in
/// the strip; closing the last tab hands it to the new last one (its
/// left-hand neighbour); closing the only tab leaves none active. Closing
/// any other tab keeps the focus where it was.
pub proof fn law_close_focuses_neighbour(ts: Seq<TabView>, idx: int, active: Option<Seq<char>>)
    requires
        0 <= idx < ts.len(),
    ensures
        active == Some(ts[idx].id) && idx + 1 < ts.len() ==> active_after_close(ts, idx, active, ts[idx].id)
            == Some(ts[idx + 1].id),
        active == Some(ts[idx].id) && idx + 1 == ts.len() && idx > 0 ==> active_after_close(
            ts,
            idx,
            active,
            ts[idx].id,
        ) == Some(ts[idx - 1].id),
        active == Some(ts[idx].id) && ts.len() == 1 ==> active_after_close(ts, idx, active, ts[idx].id)
            is None,
        active != Some(ts[idx].id) ==> active_after_close(ts, idx, active, ts[idx].id) == active,
{
    let rest = ts.remove(idx);
    assert(rest.len() == ts.len() - 1);
    if idx + 1 < ts.len() {
        assert(rest[idx] == ts[idx + 1]);
    }
    if idx + 1 == ts.len() && idx > 0 {
        assert(rest[rest.len() - 1] == ts[idx - 1]);
    }
}

/// Opening a tab makes it present with what was opened, keeps every other
/// tab where it was, and keeps the ids distinct.
pub proof fn law_open_then_present(ts: Seq<TabView>, tab: TabView)
    requires
        ids_unique(ts),
    ensures
        tab_index(opened(ts, tab), tab.id) matches Some(i) && opened(ts, tab)[i] == tab,
        ids_unique(opened(ts, tab)),
        forall|k: int| 0 <= k < ts.len() && (#[trigger] ts[k]).id != tab.id ==> opened(ts, tab)[k] == ts[k],
        opened(opened(ts, tab), tab) == opened(ts, tab),
{
    lemma_tab_index(ts, tab.id);
    let o = opened(ts, tab);
    match tab_index(ts, tab.id) {
        Some(i) => {
            assert forall|a: int, b: int| 0 <= a < b < o.len() implies (#[trigger] o[a]).id != (#[trigger] o[b]).id by {
                if a != i && b != i {
                    assert(ts[a].id != ts[b].id);
                } else if a == i {
                    assert(ts[i].id != ts[b].id);
                } else {
                    assert(ts[a].id != ts[i].id);
                }
            }
            lemma_tab_index(o, tab.id);
            if let Some(j) = tab_index(o, tab.id) {
                if j != i {
                    assert(o[j].id == tab.id);
                    assert(o[i].id == tab.id);
                }
            }
            assert(o.update(i, tab) =~= o);
        },
        None => {
            assert forall|a: int, b: int| 0 <= a < b < o.len() implies (#[trigger] o[a]).id != (#[trigger] o[b]).id by {
                if b == ts.len() {
                    assert(o[a] == ts[a]);
                } else {
                    assert(ts[a].id != ts[b].id);
                }
            }
            lemma_tab_index(o, tab.id);
            if let Some(j) = tab_index(o, tab.id) {
                if j != ts.len() {
                    assert(o[j] == ts[j]);
                }
            }
            let j = ts.len() as int;
            assert(o[j] == tab);
            if tab_index(o, tab.id) is None {
                assert(o[j].id == tab.id);
            }
            assert(o.update(j, tab) =~= o);
        },
    }
}

/// Closing a tab removes it: with distinct ids it is no longer found, and the
/// other tabs keep their order.
pub proof fn law_close_removes(ts: Seq<TabView>, id: Seq<char>)
    requires
        ids_unique(ts),
        tab_index(ts, id) is Some,
    ensures
        tab_index(ts.remove(tab_index(ts, id)->0), id) is None,
        ids_unique(ts.remove(tab_index(ts, id)->0)),
{
    lemma_tab_index(ts, id);
    let i = tab_index(ts, id)->0;
    let rest = ts.remove(i);
    lemma_tab_index(rest, id);
    if let Some(j) = tab_index(rest, id) {
        if j < i {
            assert(rest[j] == ts[j]);
        } else {
            assert(rest[j] == ts[j + 1]);
        }
    }
    assert forall|a: int, b: int| 0 <= a < b < rest.len() implies (#[trigger] rest[a]).id != (#[trigger] rest[b]).id by {
        let a2 = if a < i { a } else { a + 1 };
        let b2 = if b < i { b } else { b + 1 };
        assert(rest[a] == ts[a2]);
        assert(rest[b] == ts[b2]);
    }
}

/// After closing, the active tab is still one of the open tabs (or there is
/// none) whenever it was before.
pub proof fn law_close_keeps_active_valid(ts: Seq<TabView>, id: Seq<char>, active: Option<Seq<char>>)
    requires
        ids_unique(ts),
        tab_index(ts, id) is Some,
        active matches Some(a) ==> tab_index(ts, a) is Some,
    ensures
        active_after_close(ts, tab_index(ts, id)->0, active, id) matches Some(a) ==> tab_index(
            ts.remove(tab_index(ts, id)->0),
            a,
        ) is Some,
{
    lemma_tab_index(ts, id);
    let i = tab_index(ts, id)->0;
    let rest = ts.remove(i);
    match active_after_close(ts, i, active, id) {
        Some(a) => {
            lemma_tab_index(rest, a);
            if active == Some(id) {
                if i < rest.len() {
                    assert(rest[i].id == a);
                } else {
                    assert(rest[rest.len() - 1].id == a);
                }
            } else {
                lemma_tab_index(ts, a);
                let j = tab_index(ts, a)->0;
                assert(j != i);
                if j < i {
                    assert(rest[j] == ts[j]);
                } else {
                    assert(rest[j - 1] == ts[j]);
                }
            }
        },
        None => {},
    }
}

/// What the saved session keeps of the active tab: it, when its tab is
/// kept.
pub open spec fn saved_active(ts: Seq<TabView>, active: Option<Seq<char>>) -> Option<Seq<char>> {
    match active {
        Some(a) => if tab_index(kept_tabs(ts), a) is Some {
            Some(a)
        } else {
            None
        },
        None => None,
    }
}

/// Saving the session and restoring it brings back the active tab when it
/// was kept (edit comparisons are not), else the first kept tab.
pub proof fn law_session_round_trip(ts: Seq<TabView>, active: Option<Seq<char>>)
    requires
        kept_tabs(ts).len() > 0,
    ensures
        restored_active(kept_tabs(ts), saved_active(ts, active)) == match active {
            Some(a) => if tab_index(kept_tabs(ts), a) is Some {
                Some(a)
            } else {
                Some(kept_tabs(ts)[0].id)
            },
            None => Some(kept_tabs(ts)[0].id),
        },
{
}

// ---------------------------------------------------------------------------
// Selections that follow the centre tabs
// ---------------------------------------------------------------------------

/// The skill a tab shows, if any.
pub open spec fn skill_key_of(k: KindView) -> Option<Seq<char>> {
    match k {
        KindView::SkillInstalled { slug } => Some(slug),
        KindView::SkillMarket { key } => Some(key),
        _ => None,
    }
}

/// The extension a tab shows, if any.
pub open spec fn plugin_key_of(k: KindView) -> Option<Seq<char>> {
    match k {
        KindView::Plugin { key } => Some(key),
        _ => None,
    }
}

/// The file a tab edits, if any.
pub open spec fn file_path_of(k: KindView) -> Option<Seq<char>> {
    match k {
        KindView::File { path } => Some(path),
        _ => None,
    }
}

/// A sidebar selection after a tab was closed: cleared when it pointed at the
/// closed tab's `closed_key`, then taken over by the tab now active when it
/// has a key of that kind.
pub open spec fn selection_after_close(
    selected: Option<Seq<char>>,
    closed_key: Option<Seq<char>>,
    next_key: Option<Seq<char>>,
) -> Option<Seq<char>> {
    match next_key {
        Some(k) => Some(k),
        None => if closed_key is Some && selected == closed_key {
            None
        } else {
            selected
        },
    }
}

/// Updates the skill and extension selections after the tab `removed` was
/// closed, with `next` the kind of the tab now active; returns the file whose
/// editor buffers are to be forgotten, if the closed tab edited one.
pub fn selections_after_close(
    removed: &CenterTab,
    next: &Option<CenterTabKind>,
    skill: &mut Option<String>,
    plugin: &mut Option<String>,
) -> (forget: Option<String>)
    ensures
        opt_str(*final(skill)) == selection_after_close(
            opt_str(*old(skill)),
            skill_key_of(removed@.kind),
            match next {
                Some(k) => skill_key_of(k@),
                None => None,
            },
        ),
        opt_str(*final(plugin)) == selection_after_close(
            opt_str(*old(plugin)),
            plugin_key_of(removed@.kind),
            match next {
                Some(k) => plugin_key_of(k@),
                None => None,
            },
        ),
        opt_str(forget) == file_path_of(removed@.kind),
{
    match center_tab_skill_key(&removed.kind) {
        Some(key) => {
            let same = match skill {
                Some(s) => crate::text::str_eq(s.as_str(), key.as_str()),
                None => false,
            };
            if same {
                *skill = None;
            }
        },
        None => {},
    }
    match center_tab_plugin_key(&removed.kind) {
        Some(key) => {
            let same = match plugin {
                Some(s) => crate::text::str_eq(s.as_str(), key.as_str()),
                None => false,
            };
            if same {
                *plugin = None;
            }
        },
        None => {},
    }
    match next {
        Some(k) => {
            match center_tab_skill_key(k) {
                Some(key) => {
                    *skill = Some(key);
                },
                None => {},
            }
            match center_tab_plugin_key(k) {
                Some(key) => {
                    *plugin = Some(key);
                },
                None => {},
            }
        },
        None => {},
    }
    center_tab_file_path(&removed.kind)
}

} // verus!
