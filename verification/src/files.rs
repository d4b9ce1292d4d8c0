//! The sidebar file tree: the directory listing cache, the rows it shows,
//! titles and relative paths, the file kinds with a preview, and the
//! phone-frame resizing of the HTML preview.
//!
//! Listing directories, reading and writing files stay with the caller: the
//! functions here take their results.
use vstd::prelude::*;
use crate::paths::{
    join_path, path_components, path_extension, path_file_name, path_is_absolute, path_parent,
    strip_root, clean_path, clean_relative, extension_of, file_name_of, parent_of, stripped_of,
    joined_onto, plain_name, plain_base, strings,
};
use crate::text::{
    chars_of, count_char, count_char_exec, eq_ignore_ascii_case, eq_ignore_ascii_case_exec, find,
    find_exec, lemma_find, lines, str_eq, trim, trim_str, split_char,
};

verus! {

broadcast use vstd::seq_lib::group_seq_properties;

/// A directory entry.
#[derive(Clone, Debug, PartialEq, Eq)]
pub struct FsEntryDto {
    pub name: String,
    pub path: String,
    pub is_dir: bool,
}

/// What the tree's "new" action creates.
#[derive(Clone, Copy, Debug, PartialEq, Eq, Structural)]
pub enum FsCreateKind {
    File,
    Folder,
}

/// How a preview frame gets its page.
#[derive(Clone, Debug, PartialEq, Eq)]
pub enum HtmlPreviewFrame {
    Url(String),
    SrcDoc(String),
}

pub struct EntryView {
    pub name: Seq<char>,
    pub path: Seq<char>,
    pub is_dir: bool,
}

impl View for FsEntryDto {
    type V = EntryView;

    open spec fn view(&self) -> EntryView {
        EntryView { name: self.name@, path: self.path@, is_dir: self.is_dir }
    }
}

pub open spec fn entries_view(v: Seq<FsEntryDto>) -> Seq<EntryView> {
    v.map_values(|e: FsEntryDto| e@)
}

/// A copy of an entry.
pub fn copy_entry(e: &FsEntryDto) -> (r: FsEntryDto)
    ensures
        r@ == e@,
{
    FsEntryDto { name: e.name.clone(), path: e.path.clone(), is_dir: e.is_dir }
}

// ---------------------------------------------------------------------------
// Names and paths
// ---------------------------------------------------------------------------

/// An extension is `want` (ignoring ASCII case).
pub open spec fn extension_is(ext: Option<Seq<char>>, want: Seq<char>) -> bool {
    ext matches Some(e) && eq_ignore_ascii_case(e, want)
}

pub open spec fn opt_text(o: Option<String>) -> Option<Seq<char>> {
    match o {
        Some(s) => Some(s@),
        None => None,
    }
}

/// Whether an extension is `want`, ignoring ASCII case.
pub fn extension_matches(ext: &Option<String>, want: &str) -> (r: bool)
    ensures
        r == extension_is(opt_text(*ext), want@),
{
    match ext {
        Some(e) => eq_ignore_ascii_case_exec(&chars_of(e.as_str()), &chars_of(want)),
        None => false,
    }
}

/// Whether `path` names a PDF file (by its extension).
pub fn fs_is_pdf_path(path: &str) -> (r: bool)
    ensures
        clean_path(path@) ==> r == extension_is(extension_of(path@), "pdf"@),
{
    let ext = path_extension(path);
    extension_matches(&ext, "pdf")
}

/// Whether `path` names an STL model (by its extension).
pub fn fs_is_stl_path(path: &str) -> (r: bool)
    ensures
        clean_path(path@) ==> r == extension_is(extension_of(path@), "stl"@),
{
    let ext = path_extension(path);
    extension_matches(&ext, "stl")
}

/// The page an HTML preview opens for an entry with extension `ext`: the
/// file itself when it is an `.html` / `.htm` file, else none.
pub fn html_preview_target(path: &str, is_dir: bool, ext: &Option<String>) -> (r: Option<String>)
    ensures
        (!is_dir && (extension_is(opt_text(*ext), "html"@) || extension_is(opt_text(*ext), "htm"@)))
            ==> (r matches Some(p) && p@ == path@),
        !(!is_dir && (extension_is(opt_text(*ext), "html"@) || extension_is(opt_text(*ext), "htm"@)))
            ==> r is None,
{
    let is_html = extension_matches(ext, "html") || extension_matches(ext, "htm");
    if !is_dir && is_html {
        Some(path.to_string())
    } else {
        None
    }
}

/// The page an HTML preview opens for `path`, where files are not read.
pub fn fs_resolve_html_preview(path: &str, is_dir: bool) -> (r: Option<String>)
    ensures
        r matches Some(p) ==> p@ == path@ && !is_dir,
        clean_path(path@) ==> (r is Some <==> (!is_dir && (extension_is(extension_of(path@), "html"@)
            || extension_is(extension_of(path@), "htm"@)))),
{
    let ext = path_extension(path);
    html_preview_target(path, is_dir, &ext)
}

/// The title of a file: its name, or the whole path when it has none.
pub fn title_from(path: &str, name: Option<String>) -> (r: String)
    ensures
        r@ == match name {
            Some(n) => n@,
            None => path@,
        },
{
    match name {
        Some(n) => n,
        None => path.to_string(),
    }
}

/// The title of a file tab.
pub fn fs_file_title(path: &str) -> (r: String)
    ensures
        clean_path(path@) ==> r@ == match file_name_of(path@) {
            Some(n) => n,
            None => path@,
        },
{
    let name = path_file_name(path);
    title_from(path, name)
}

/// The path shown relative to the workspace root: the part under the root
/// (`stripped`; `.` for the root itself), else the path as given.
pub fn relative_from(path: &str, stripped: Option<String>) -> (r: String)
    ensures
        r@ == match stripped {
            Some(s) => if s@.len() == 0 {
                "."@
            } else {
                s@
            },
            None => path@,
        },
{
    match stripped {
        Some(s) => if s.as_str().is_empty() {
            ".".to_string()
        } else {
            s
        },
        None => path.to_string(),
    }
}

/// The path relative to the workspace root, or the path itself outside it.
pub fn fs_relative_to_root(root: &str, path: &str) -> (r: String)
    ensures
        clean_path(root@) && clean_path(path@) ==> r@ == match stripped_of(root@, path@) {
            Some(s) => if s.len() == 0 {
                "."@
            } else {
                s
            },
            None => path@,
        },
{
    let stripped = strip_root(root, path);
    relative_from(path, stripped)
}

/// The number of lines an editor shows for `text`: `1` for an empty text, and
/// a final line break opens one more (empty) line.
pub open spec fn editor_lines(text: Seq<char>) -> nat {
    if text.len() == 0 {
        1
    } else if text.last() == '\n' {
        lines(text).len() + 1
    } else if lines(text).len() >= 1 {
        lines(text).len()
    } else {
        1
    }
}

/// The number of lines an editor shows for `text`.
pub fn count_text_lines(text: &str) -> (r: usize)
    requires
        text@.len() < usize::MAX,
    ensures
        r == editor_lines(text@),
{
    let v = chars_of(text);
    if v.len() == 0 {
        return 1;
    }
    let ls = crate::text::lines_exec(&v);
    let n = ls.len();
    proof {
        lemma_lines_len(v@, 0);
    }
    if v[v.len() - 1] == '\n' {
        n + 1
    } else if n >= 1 {
        n
    } else {
        1
    }
}

/// There are no more lines than characters.
proof fn lemma_lines_len(s: Seq<char>, i: int)
    requires
        0 <= i <= s.len(),
    ensures
        crate::text::lines_from(s, i).len() <= s.len() - i,
    decreases s.len() - i,
{
    if i < s.len() {
        crate::text::lemma_find_from(s, seq!['\n'], i);
        match crate::text::find_from(s, seq!['\n'], i) {
            Some(k) => {
                lemma_lines_len(s, k + 1);
            },
            None => {},
        }
    }
}

/// A tool path resolved from its trimmed text, given whether that text is an
/// absolute path and what joining it onto the root gives: empty stays empty;
/// an absolute path, or any path without a root, is kept; else the joined
/// path.
pub fn resolved_tool_path(trimmed: String, root: &str, absolute: bool, joined: String) -> (r: String)
    ensures
        r@ == (if trimmed@.len() == 0 {
            Seq::<char>::empty()
        } else if absolute || root@.len() == 0 {
            trimmed@
        } else {
            joined@
        }),
{
    if trimmed.as_str().is_empty() {
        String::new()
    } else if absolute || root.is_empty() {
        trimmed
    } else {
        joined
    }
}

/// A path from a tool call, resolved for the editor: trimmed; a relative
/// one is taken under the workspace root when there is one (see
/// [`resolved_tool_path`], which this feeds with `Path::is_absolute` and
/// `Path::join`).
pub fn fs_resolve_tool_path(path: &str, root: &str) -> (r: String)
    ensures
        trim(path@).len() == 0 ==> r@.len() == 0,
        trim(path@).len() > 0 && root@.len() == 0 ==> r@ == trim(path@),
        trim(path@).len() > 0 && clean_relative(trim(path@)) && plain_base(root@) ==> joined_onto(
            root@,
            trim(path@),
            r@,
        ),
{
    let trimmed = trim_str(path);
    if trimmed.as_str().is_empty() {
        return String::new();
    }
    let absolute = path_is_absolute(trimmed.as_str());
    let joined = if absolute || root.is_empty() {
        String::new()
    } else {
        join_path(root, trimmed.as_str())
    };
    resolved_tool_path(trimmed, root, absolute, joined)
}

/// Build output, VCS and dependency folders: shown, but dimmed.
pub open spec fn muted_name(name: Seq<char>) -> bool {
    name == "target"@ || name == "node_modules"@ || name == ".git"@
}

/// Whether an entry name is shown dimmed.
pub fn fs_name_is_muted(name: &str) -> (r: bool)
    ensures
        r == muted_name(name@),
{
    str_eq(name, "target") || str_eq(name, "node_modules") || str_eq(name, ".git")
}

// ---------------------------------------------------------------------------
// The directory listing cache
// ---------------------------------------------------------------------------

/// A directory's listing, or why it could not be listed.
pub type Listing = Result<Vec<FsEntryDto>, String>;

pub open spec fn listing_view(l: Listing) -> Result<Seq<EntryView>, Seq<char>> {
    match l {
        Ok(es) => Ok(entries_view(es@)),
        Err(e) => Err(e@),
    }
}

/// The listings of the directories seen so far, by directory path.
pub struct DirCache {
    pub dirs: Vec<(String, Listing)>,
}

pub open spec fn cache_entries(dirs: Seq<(String, Listing)>) -> Seq<(Seq<char>, Result<Seq<EntryView>, Seq<char>>)> {
    dirs.map_values(|kv: (String, Listing)| (kv.0@, listing_view(kv.1)))
}

impl View for DirCache {
    type V = Seq<(Seq<char>, Result<Seq<EntryView>, Seq<char>>)>;

    open spec fn view(&self) -> Self::V {
        cache_entries(self.dirs@)
    }
}

/// The listing kept for `dir`, if any.
pub open spec fn lookup(c: Seq<(Seq<char>, Result<Seq<EntryView>, Seq<char>>)>, dir: Seq<char>) -> Option<
    Result<Seq<EntryView>, Seq<char>>,
>
    decreases c.len(),
{
    if c.len() == 0 {
        None
    } else if c[0].0 == dir {
        Some(c[0].1)
    } else {
        lookup(c.drop_first(), dir)
    }
}

/// No directory is kept twice.
pub open spec fn keys_unique(c: Seq<(Seq<char>, Result<Seq<EntryView>, Seq<char>>)>) -> bool {
    forall|i: int, j: int| 0 <= i < j < c.len() ==> (#[trigger] c[i]).0 != (#[trigger] c[j]).0
}

/// The position of `dir` in the cache.
fn position_of(cache: &DirCache, dir: &str) -> (r: Option<usize>)
    ensures
        r matches Some(i) ==> i < cache@.len() && cache@[i as int].0 == dir@ && lookup(cache@, dir@)
            == Some(cache@[i as int].1),
        r is None ==> lookup(cache@, dir@) is None && forall|i: int| 0 <= i < cache@.len() ==> (
            #[trigger] cache@[i]).0 != dir@,
{
    let mut i: usize = 0;
    while i < cache.dirs.len()
        invariant
            i <= cache@.len(),
            cache@.len() == cache.dirs@.len(),
            forall|k: int| 0 <= k < i ==> (#[trigger] cache@[k]).0 != dir@,
        decreases cache.dirs.len() - i,
    {
        assert(cache@[i as int].0 == cache.dirs@[i as int].0@);
        if str_eq(cache.dirs[i].0.as_str(), dir) {
            proof {
                lemma_lookup_at(cache@, dir@, i as int);
            }
            return Some(i);
        }
        i += 1;
    }
    proof {
        lemma_lookup_absent(cache@, dir@);
    }
    None
}

/// The first position with the key decides the lookup.
proof fn lemma_lookup_at(c: Seq<(Seq<char>, Result<Seq<EntryView>, Seq<char>>)>, dir: Seq<char>, i: int)
    requires
        0 <= i < c.len(),
        c[i].0 == dir,
        forall|k: int| 0 <= k < i ==> (#[trigger] c[k]).0 != dir,
    ensures
        lookup(c, dir) == Some(c[i].1),
    decreases i,
{
    if i > 0 {
        assert forall|k: int| 0 <= k < i - 1 implies (#[trigger] c.drop_first()[k]).0 != dir by {
            assert(c.drop_first()[k] == c[k + 1]);
        }
        lemma_lookup_at(c.drop_first(), dir, i - 1);
    }
}

/// A key that is nowhere is not found.
proof fn lemma_lookup_absent(c: Seq<(Seq<char>, Result<Seq<EntryView>, Seq<char>>)>, dir: Seq<char>)
    requires
        forall|k: int| 0 <= k < c.len() ==> (#[trigger] c[k]).0 != dir,
    ensures
        lookup(c, dir) is None,
    decreases c.len(),
{
    if c.len() > 0 {
        assert forall|k: int| 0 <= k < c.len() - 1 implies (#[trigger] c.drop_first()[k]).0 != dir by {
            assert(c.drop_first()[k] == c[k + 1]);
        }
        lemma_lookup_absent(c.drop_first(), dir);
    }
}

/// With unique keys, the lookup of a present key is its entry.
proof fn lemma_lookup_unique(c: Seq<(Seq<char>, Result<Seq<EntryView>, Seq<char>>)>, i: int)
    requires
        keys_unique(c),
        0 <= i < c.len(),
    ensures
        lookup(c, c[i].0) == Some(c[i].1),
{
    assert forall|k: int| 0 <= k < i implies (#[trigger] c[k]).0 != c[i].0 by {}
    lemma_lookup_at(c, c[i].0, i);
}

/// A copy of a listing.
pub fn copy_listing(l: &Listing) -> (r: Listing)
    ensures
        listing_view(r) == listing_view(*l),
{
    match l {
        Ok(es) => {
            let mut out: Vec<FsEntryDto> = Vec::new();
            let mut i: usize = 0;
            while i < es.len()
                invariant
                    i <= es@.len(),
                    entries_view(out@) == entries_view(es@).take(i as int),
                decreases es.len() - i,
            {
                let ghost before = out@;
                out.push(copy_entry(&es[i]));
                assert(entries_view(out@) =~= entries_view(before).push(es@[i as int]@));
                assert(entries_view(es@).take(i as int + 1) =~= entries_view(es@).take(i as int).push(es@[i as int]@));
                i += 1;
            }
            assert(entries_view(es@).take(es@.len() as int) =~= entries_view(es@));
            Ok(out)
        },
        Err(e) => Err(e.clone()),
    }
}

/// Whether two listings say the same.
pub fn listing_eq(a: &Listing, b: &Listing) -> (r: bool)
    ensures
        r == (listing_view(*a) == listing_view(*b)),
{
    match (a, b) {
        (Ok(x), Ok(y)) => {
            if x.len() != y.len() {
                assert(entries_view(x@).len() != entries_view(y@).len());
                return false;
            }
            let mut i: usize = 0;
            while i < x.len()
                invariant
                    i <= x@.len() == y@.len(),
                    listing_view(*a) == Ok::<Seq<EntryView>, Seq<char>>(entries_view(x@)),
                    listing_view(*b) == Ok::<Seq<EntryView>, Seq<char>>(entries_view(y@)),
                    forall|k: int| 0 <= k < i ==> (#[trigger] entries_view(x@)[k]) == entries_view(y@)[k],
                decreases x.len() - i,
            {
                let same = str_eq(x[i].name.as_str(), y[i].name.as_str()) && str_eq(
                    x[i].path.as_str(),
                    y[i].path.as_str(),
                ) && x[i].is_dir == y[i].is_dir;
                assert(entries_view(x@)[i as int] == x@[i as int]@);
                assert(entries_view(y@)[i as int] == y@[i as int]@);
                if !same {
                    assert(entries_view(x@)[i as int] != entries_view(y@)[i as int]);
                    assert(entries_view(x@) != entries_view(y@));
                    return false;
                }
                assert(entries_view(x@)[i as int] == entries_view(y@)[i as int]);
                i += 1;
            }
            assert(entries_view(x@) =~= entries_view(y@));
            true
        },
        (Err(x), Err(y)) => str_eq(x.as_str(), y.as_str()),
        _ => false,
    }
}

/// The listing kept for `dir`, if any.
pub fn fs_cache_listing(cache: &DirCache, dir: &str) -> (r: Option<Listing>)
    ensures
        match r {
            Some(l) => lookup(cache@, dir@) == Some(listing_view(l)),
            None => lookup(cache@, dir@) is None,
        },
{
    match position_of(cache, dir) {
        Some(i) => {
            assert(cache@[i as int].1 == listing_view(cache.dirs@[i as int].1));
            Some(copy_listing(&cache.dirs[i].1))
        },
        None => None,
    }
}

impl DirCache {
    /// An empty cache.
    pub fn new() -> (r: DirCache)
        ensures
            r@.len() == 0,
    {
        let r = DirCache { dirs: Vec::new() };
        assert(r@ =~= Seq::empty());
        r
    }
}

/// Keeps `listing` as the listing of `dir` (replacing an older one).
pub fn fs_cache_reload(cache: &mut DirCache, dir: &str, listing: Listing)
    requires
        keys_unique(old(cache)@),
    ensures
        keys_unique(final(cache)@),
        lookup(final(cache)@, dir@) == Some(listing_view(listing)),
        forall|d: Seq<char>| d != dir@ ==> lookup(#[trigger] final(cache)@, d) == lookup(old(cache)@, d),
{
    let ghost before = cache@;
    let ghost lv = listing_view(listing);
    match position_of(cache, dir) {
        Some(i) => {
            let _ = cache.dirs.remove(i);
            cache.dirs.insert(i, (dir.to_string(), listing));
            proof {
                assert(cache@ =~= before.update(i as int, (dir@, lv)));
                assert forall|a: int, b: int| 0 <= a < b < cache@.len() implies (#[trigger] cache@[a]).0
                    != (#[trigger] cache@[b]).0 by {
                    assert(before[a].0 != before[b].0);
                }
                lemma_lookup_unique(cache@, i as int);
                assert forall|d: Seq<char>| d != dir@ implies lookup(#[trigger] cache@, d) == lookup(before, d) by {
                    lemma_lookup_update(before, i as int, (dir@, lv), d);
                }
            }
        },
        None => {
            cache.dirs.push((dir.to_string(), listing));
            proof {
                assert(cache@ =~= before.push((dir@, lv)));
                assert forall|a: int, b: int| 0 <= a < b < cache@.len() implies (#[trigger] cache@[a]).0
                    != (#[trigger] cache@[b]).0 by {
                    if b < before.len() {
                        assert(before[a].0 != before[b].0);
                    }
                }
                lemma_lookup_unique(cache@, before.len() as int);
                assert forall|d: Seq<char>| d != dir@ implies lookup(#[trigger] cache@, d) == lookup(before, d) by {
                    lemma_lookup_push(before, (dir@, lv), d);
                }
            }
        },
    }
}

/// Replacing an entry with the same key leaves other keys' lookups alone.
proof fn lemma_lookup_update(
    c: Seq<(Seq<char>, Result<Seq<EntryView>, Seq<char>>)>,
    i: int,
    kv: (Seq<char>, Result<Seq<EntryView>, Seq<char>>),
    d: Seq<char>,
)
    requires
        0 <= i < c.len(),
        c[i].0 == kv.0,
        d != kv.0,
    ensures
        lookup(c.update(i, kv), d) == lookup(c, d),
    decreases c.len(),
{
    if i > 0 {
        assert(c.update(i, kv).drop_first() =~= c.drop_first().update(i - 1, kv));
        if c[0].0 != d {
            lemma_lookup_update(c.drop_first(), i - 1, kv, d);
        }
    } else {
        assert(c.update(i, kv).drop_first() =~= c.drop_first());
    }
}

/// Appending an entry leaves other keys' lookups alone.
proof fn lemma_lookup_push(
    c: Seq<(Seq<char>, Result<Seq<EntryView>, Seq<char>>)>,
    kv: (Seq<char>, Result<Seq<EntryView>, Seq<char>>),
    d: Seq<char>,
)
    requires
        d != kv.0,
    ensures
        lookup(c.push(kv), d) == lookup(c, d),
    decreases c.len(),
{
    if c.len() > 0 {
        assert(c.push(kv).drop_first() =~= c.drop_first().push(kv));
        if c[0].0 != d {
            lemma_lookup_push(c.drop_first(), kv, d);
        }
    } else {
        assert(c.push(kv).drop_first() =~= Seq::<(Seq<char>, Result<Seq<EntryView>, Seq<char>>)>::empty());
    }
}

/// Whether `dir` has to be listed before its rows can be shown: it has no
/// listing, or only a failed one.
pub fn fs_dir_needs_listing(cache: &DirCache, dir: &str) -> (r: bool)
    ensures
        r == !(lookup(cache@, dir@) matches Some(Ok(_))),
{
    match position_of(cache, dir) {
        Some(i) => {
            let ok = cache.dirs[i].1.is_ok();
            assert(cache@[i as int].1 == listing_view(cache.dirs@[i as int].1));
            !ok
        },
        None => true,
    }
}

/// The staleness check answers, without changing the cache, exactly what
/// reloading the same fresh listings would report.
pub proof fn law_stale_check_matches_reload(
    c: Seq<(Seq<char>, Result<Seq<EntryView>, Seq<char>>)>,
    root: Seq<char>,
    fresh: Seq<(Seq<char>, Result<Seq<EntryView>, Seq<char>>)>,
)
    ensures
        open_is_stale(c, root, fresh) == reload_changed(c, root, fresh),
{
}

/// The directories the tree shows open: the root and every non-empty
/// expanded directory, each once.
pub fn fs_open_dirs(root: &str, expanded: &Vec<String>) -> (r: Vec<String>)
    ensures
        forall|x: Seq<char>| #[trigger] crate::llm_enabled::ids(r@).contains(x) <==> (x == root@ || (
            crate::llm_enabled::ids(expanded@).contains(x) && x.len() > 0)),
        crate::llm_enabled::ids(r@).no_duplicates(),
{
    let mut out: Vec<String> = Vec::new();
    out.push(root.to_string());
    let ghost ids_e = crate::llm_enabled::ids(expanded@);
    proof {
        assert(crate::llm_enabled::ids(out@) =~= seq![root@]);
        assert(crate::llm_enabled::ids(out@)[0] == root@);
    }
    let mut i: usize = 0;
    while i < expanded.len()
        invariant
            i <= expanded@.len(),
            ids_e == crate::llm_enabled::ids(expanded@),
            forall|x: Seq<char>| #[trigger] crate::llm_enabled::ids(out@).contains(x) <==> (x == root@ || (
                ids_e.take(i as int).contains(x) && x.len() > 0)),
            crate::llm_enabled::ids(out@).no_duplicates(),
        decreases expanded.len() - i,
    {
        let d = expanded[i].as_str();
        proof {
            assert(ids_e.take(i as int + 1) =~= ids_e.take(i as int).push(expanded@[i as int]@));
            assert(ids_e[i as int] == expanded@[i as int]@);
        }
        if !d.is_empty() && !crate::llm_enabled::contains_id(&out, d) {
            let ghost before = crate::llm_enabled::ids(out@);
            out.push(d.to_string());
            proof {
                assert(crate::llm_enabled::ids(out@) =~= before.push(d@));
                crate::llm_enabled::lemma_push_no_duplicates(before, d@);
                assert forall|x: Seq<char>| #[trigger] crate::llm_enabled::ids(out@).contains(x) <==> (x == root@ || (
                    ids_e.take(i as int + 1).contains(x) && x.len() > 0)) by {
                    if before.push(d@).contains(x) && x != d@ {
                        let k = choose|k: int| 0 <= k < before.len() + 1 && before.push(d@)[k] == x;
                        assert(before[k] == x);
                    }
                    if before.contains(x) {
                        let k = choose|k: int| 0 <= k < before.len() && before[k] == x;
                        assert(before.push(d@)[k] == x);
                    }
                    if ids_e.take(i as int).push(d@).contains(x) && x != d@ {
                        let k = choose|k: int| 0 <= k < i + 1 && ids_e.take(i as int).push(d@)[k] == x;
                        assert(ids_e.take(i as int)[k] == x);
                    }
                    if ids_e.take(i as int).contains(x) {
                        let k = choose|k: int| 0 <= k < i && ids_e.take(i as int)[k] == x;
                        assert(ids_e.take(i as int).push(d@)[k] == x);
                    }
                    if x == d@ {
                        assert(before.push(d@)[before.len() as int] == x);
                        assert(ids_e.take(i as int).push(d@)[i as int] == x);
                    }
                }
            }
        } else {
            proof {
                let out_ids = crate::llm_enabled::ids(out@);
                assert forall|x: Seq<char>| #[trigger] out_ids.contains(x) <==> (x == root@ || (
                    ids_e.take(i as int + 1).contains(x) && x.len() > 0)) by {
                    if ids_e.take(i as int).push(d@).contains(x) && x != d@ {
                        let k = choose|k: int| 0 <= k < i + 1 && ids_e.take(i as int).push(d@)[k] == x;
                        assert(ids_e.take(i as int)[k] == x);
                    }
                    if ids_e.take(i as int).contains(x) {
                        let k = choose|k: int| 0 <= k < i && ids_e.take(i as int)[k] == x;
                        assert(ids_e.take(i as int).push(d@)[k] == x);
                    }
                    if x == d@ && x.len() > 0 {
                        assert(ids_e.take(i as int).push(d@)[i as int] == x);
                    }
                }
            }
        }
        i += 1;
    }
    assert(ids_e.take(expanded@.len() as int) =~= ids_e);
    out
}

/// Whether some fresh listing differs from the cached one.
pub open spec fn any_stale(
    c: Seq<(Seq<char>, Result<Seq<EntryView>, Seq<char>>)>,
    fresh: Seq<(Seq<char>, Result<Seq<EntryView>, Seq<char>>)>,
) -> bool {
    exists|k: int| 0 <= k < fresh.len() && lookup(c, (#[trigger] fresh[k]).0) != Some(fresh[k].1)
}

/// What reloading the open directories reports: whether anything changed,
/// never without a workspace root.
pub open spec fn reload_changed(
    c: Seq<(Seq<char>, Result<Seq<EntryView>, Seq<char>>)>,
    root: Seq<char>,
    fresh: Seq<(Seq<char>, Result<Seq<EntryView>, Seq<char>>)>,
) -> bool {
    if root.len() == 0 {
        false
    } else {
        any_stale(c, fresh)
    }
}

/// What the staleness check answers: a workspace root, and some fresh
/// listing that differs from the cached one.
pub open spec fn open_is_stale(
    c: Seq<(Seq<char>, Result<Seq<EntryView>, Seq<char>>)>,
    root: Seq<char>,
    fresh: Seq<(Seq<char>, Result<Seq<EntryView>, Seq<char>>)>,
) -> bool {
    root.len() > 0 && any_stale(c, fresh)
}

/// Takes the fresh listings of the open directories (each directory once):
/// those that differ from the cached ones replace them. Says whether
/// anything changed. Nothing is done without a workspace root.
pub fn fs_cache_reload_open(cache: &mut DirCache, root: &str, fresh: Vec<(String, Listing)>) -> (r: bool)
    requires
        keys_unique(old(cache)@),
        keys_unique(cache_entries(fresh@)),
    ensures
        keys_unique(final(cache)@),
        r == reload_changed(old(cache)@, root@, cache_entries(fresh@)),
        root@.len() == 0 ==> !r && final(cache)@ == old(cache)@,
        root@.len() > 0 ==> {
            &&& r == any_stale(old(cache)@, cache_entries(fresh@))
            &&& forall|k: int| 0 <= k < fresh@.len() ==> lookup(final(cache)@, (#[trigger] cache_entries(fresh@)[k]).0)
                == Some(cache_entries(fresh@)[k].1)
            &&& forall|d: Seq<char>| (forall|k: int| 0 <= k < fresh@.len() ==> (#[trigger] cache_entries(fresh@)[k]).0 != d)
                ==> lookup(final(cache)@, d) == lookup(old(cache)@, d)
        },
{
    if root.is_empty() {
        return false;
    }
    let ghost fv = cache_entries(fresh@);
    let ghost start = cache@;
    let mut fresh = fresh;
    let n = fresh.len();
    let mut changed = false;
    let mut k: usize = 0;
    while k < n
        invariant
            k <= n == fresh@.len() == fv.len(),
            forall|q: int| k <= q < n ==> cache_entries(fresh@)[q] == #[trigger] fv[q],
            keys_unique(fv),
            keys_unique(cache@),
            forall|q: int| 0 <= q < k ==> lookup(cache@, (#[trigger] fv[q]).0) == Some(fv[q].1),
            forall|d: Seq<char>| (forall|q: int| 0 <= q < k ==> (#[trigger] fv[q]).0 != d) ==> lookup(cache@, d)
                == lookup(start, d),
            changed == exists|q: int| 0 <= q < k && lookup(start, (#[trigger] fv[q]).0) != Some(fv[q].1),
        decreases n - k,
    {
        let entry = fresh.remove(k);
        fresh.insert(k, (String::new(), Err(String::new())));
        let ghost ev = (entry.0@, listing_view(entry.1));
        assert(ev == fv[k as int]);
        proof {
            assert forall|q: int| 0 <= q < k implies (#[trigger] fv[q]).0 != ev.0 by {}
        }
        let dir = entry.0;
        let listing = entry.1;
        let differs = match position_of(cache, dir.as_str()) {
            Some(i) => {
                assert(cache@[i as int].1 == listing_view(cache.dirs@[i as int].1));
                !listing_eq(&cache.dirs[i].1, &listing)
            },
            None => true,
        };
        let ghost before = cache@;
        if differs {
            fs_cache_reload(cache, dir.as_str(), listing);
            changed = true;
        }
        proof {
            assert forall|q: int| 0 <= q < k + 1 implies lookup(cache@, (#[trigger] fv[q]).0) == Some(fv[q].1) by {
                if q < k {
                    assert(fv[q].0 != ev.0);
                }
            }
            assert forall|d: Seq<char>| (forall|q: int| 0 <= q < k + 1 ==> (#[trigger] fv[q]).0 != d) implies lookup(cache@, d)
                == lookup(start, d) by {
                assert(fv[k as int].0 != d);
            }
            if lookup(start, ev.0) != Some(ev.1) {
                assert(lookup(start, fv[k as int].0) != Some(fv[k as int].1));
            }
        }
        k += 1;
    }
    changed
}

/// Whether any open directory's fresh listing differs from the cached one
/// (the cache is not changed). Never without a workspace root.
pub fn fs_cache_open_is_stale(cache: &DirCache, root: &str, fresh: &Vec<(String, Listing)>) -> (r: bool)
    ensures
        r == open_is_stale(cache@, root@, cache_entries(fresh@)),
{
    if root.is_empty() {
        return false;
    }
    let ghost fv = cache_entries(fresh@);
    let mut k: usize = 0;
    while k < fresh.len()
        invariant
            k <= fresh@.len(),
            root@.len() > 0,
            fv == cache_entries(fresh@),
            forall|q: int| 0 <= q < k ==> lookup(cache@, (#[trigger] fv[q]).0) == Some(fv[q].1),
        decreases fresh.len() - k,
    {
        assert(fv[k as int] == (fresh@[k as int].0@, listing_view(fresh@[k as int].1)));
        let same = match position_of(cache, fresh[k].0.as_str()) {
            Some(i) => {
                assert(cache@[i as int].1 == listing_view(cache.dirs@[i as int].1));
                listing_eq(&cache.dirs[i].1, &fresh[k].1)
            },
            None => false,
        };
        if !same {
            assert(lookup(cache@, fv[k as int].0) != Some(fv[k as int].1));
            return true;
        }
        k += 1;
    }
    false
}

// ---------------------------------------------------------------------------
// Visible rows
// ---------------------------------------------------------------------------

/// How many cached directories have a path of at least `n` characters.
pub open spec fn keys_at_least(c: Seq<(Seq<char>, Result<Seq<EntryView>, Seq<char>>)>, n: nat) -> nat
    decreases c.len(),
{
    if c.len() == 0 {
        0
    } else {
        keys_at_least(c.drop_last(), n) + if c.last().0.len() >= n {
            1nat
        } else {
            0nat
        }
    }
}

/// Every listed sub-directory has a longer path than the directory that
/// lists it (as real listings do).
pub open spec fn listings_nested(c: Seq<(Seq<char>, Result<Seq<EntryView>, Seq<char>>)>) -> bool {
    forall|i: int, j: int|
        0 <= i < c.len() && (#[trigger] c[i]).1 is Ok && 0 <= j < c[i].1->Ok_0.len() && (
        #[trigger] c[i].1->Ok_0[j]).is_dir ==> c[i].1->Ok_0[j].path.len() > c[i].0.len()
}

/// A measure that falls from each cached directory to every sub-directory
/// its listing shows: opening directories never leads back to one already
/// open.
pub open spec fn ranked(
    c: Seq<(Seq<char>, Result<Seq<EntryView>, Seq<char>>)>,
    rank: spec_fn(Seq<char>) -> nat,
) -> bool {
    forall|p: Seq<char>, j: int|
        #![trigger lookup(c, p), rank(p), lookup(c, p)->Some_0->Ok_0[j]]
        (lookup(c, p) matches Some(Ok(es)) && 0 <= j < es.len() && es[j].is_dir) ==> rank(
            lookup(c, p)->Some_0->Ok_0[j].path,
        ) < rank(p)
}

/// A measure that falls along the listings and stays within the number of
/// cached directories.
pub open spec fn bounded_rank(
    c: Seq<(Seq<char>, Result<Seq<EntryView>, Seq<char>>)>,
    rank: spec_fn(Seq<char>) -> nat,
) -> bool {
    ranked(c, rank) && forall|p: Seq<char>| #[trigger] rank(p) <= c.len()
}

/// The listings hold no cycle: no directory is listed, however deep, under
/// itself. (Without a cycle, a chain of listed directories visits each cached
/// directory at most once, so a measure bounded by their number exists.)
pub open spec fn acyclic(c: Seq<(Seq<char>, Result<Seq<EntryView>, Seq<char>>)>) -> bool {
    exists|rank: spec_fn(Seq<char>) -> nat| bounded_rank(c, rank)
}

pub type RowView = (EntryView, u32);

/// The rows of one entry: the entry, then, for an open directory, its rows.
/// (`bound` is the measure of the listing directory; along an acyclic cache
/// the measure always falls, so the recursion is never cut.)
pub open spec fn entry_rows(
    c: Seq<(Seq<char>, Result<Seq<EntryView>, Seq<char>>)>,
    ex: Seq<Seq<char>>,
    e: EntryView,
    depth: u32,
    rank: spec_fn(Seq<char>) -> nat,
    bound: nat,
) -> Seq<RowView>
    decreases bound, 0nat, 0nat,
{
    seq![(e, depth)] + if e.is_dir && ex.contains(e.path) && rank(e.path) < bound {
        tree_rows(c, ex, e.path, (depth + 1) as u32, rank)
    } else {
        Seq::empty()
    }
}

/// The rows of the entries `es`.
pub open spec fn list_rows(
    c: Seq<(Seq<char>, Result<Seq<EntryView>, Seq<char>>)>,
    ex: Seq<Seq<char>>,
    es: Seq<EntryView>,
    depth: u32,
    rank: spec_fn(Seq<char>) -> nat,
    bound: nat,
) -> Seq<RowView>
    decreases bound, 0nat, es.len(),
{
    if es.len() == 0 {
        Seq::empty()
    } else {
        list_rows(c, ex, es.drop_last(), depth, rank, bound) + entry_rows(c, ex, es.last(), depth, rank, bound)
    }
}

/// The rows under `parent`, depth first, at `depth` and below.
pub open spec fn tree_rows(
    c: Seq<(Seq<char>, Result<Seq<EntryView>, Seq<char>>)>,
    ex: Seq<Seq<char>>,
    parent: Seq<char>,
    depth: u32,
    rank: spec_fn(Seq<char>) -> nat,
) -> Seq<RowView>
    decreases rank(parent), 1nat, 0nat,
{
    match lookup(c, parent) {
        Some(Ok(es)) => list_rows(c, ex, es, depth, rank, rank(parent)),
        _ => Seq::empty(),
    }
}

/// A measure of an acyclic cache.
pub open spec fn some_rank(c: Seq<(Seq<char>, Result<Seq<EntryView>, Seq<char>>)>) -> spec_fn(Seq<char>) -> nat {
    choose|rank: spec_fn(Seq<char>) -> nat| bounded_rank(c, rank)
}

/// The rows of the file tree under `root`.
pub open spec fn visible_rows(
    c: Seq<(Seq<char>, Result<Seq<EntryView>, Seq<char>>)>,
    ex: Seq<Seq<char>>,
    root: Seq<char>,
) -> Seq<RowView> {
    tree_rows(c, ex, root, 0, some_rank(c))
}

/// Fewer directories have longer paths.
proof fn lemma_keys_at_least(c: Seq<(Seq<char>, Result<Seq<EntryView>, Seq<char>>)>, n0: nat, n1: nat, i: int)
    requires
        n0 < n1,
        0 <= i < c.len(),
        n0 <= c[i].0.len() < n1,
    ensures
        keys_at_least(c, n1) < keys_at_least(c, n0),
    decreases c.len(),
{
    lemma_keys_at_least_mono(c.drop_last(), n0, n1);
    if i < c.len() - 1 {
        assert(c.drop_last()[i] == c[i]);
        lemma_keys_at_least(c.drop_last(), n0, n1, i);
    }
}

proof fn lemma_keys_at_least_mono(c: Seq<(Seq<char>, Result<Seq<EntryView>, Seq<char>>)>, n0: nat, n1: nat)
    requires
        n0 <= n1,
    ensures
        keys_at_least(c, n1) <= keys_at_least(c, n0),
        keys_at_least(c, n0) <= c.len(),
    decreases c.len(),
{
    if c.len() > 0 {
        lemma_keys_at_least_mono(c.drop_last(), n0, n1);
    }
}

/// A directory the cache looks up has an entry at some index.
proof fn lemma_lookup_index(c: Seq<(Seq<char>, Result<Seq<EntryView>, Seq<char>>)>, p: Seq<char>)
    requires
        lookup(c, p) is Some,
    ensures
        exists|i: int| 0 <= i < c.len() && (#[trigger] c[i]).0 == p && c[i].1 == lookup(c, p)->0,
    decreases c.len(),
{
    if c[0].0 == p {
        assert(c[0].0 == p);
    } else {
        lemma_lookup_index(c.drop_first(), p);
        let i = choose|i: int| 0 <= i < c.drop_first().len() && (#[trigger] c.drop_first()[i]).0 == p
            && c.drop_first()[i].1 == lookup(c.drop_first(), p)->0;
        assert(c[i + 1] == c.drop_first()[i]);
    }
}

/// Nested listings (each listed sub-directory has a longer path) hold no
/// cycle.
pub proof fn lemma_nested_is_acyclic(c: Seq<(Seq<char>, Result<Seq<EntryView>, Seq<char>>)>)
    requires
        listings_nested(c),
    ensures
        acyclic(c),
{
    let rank = |p: Seq<char>| keys_at_least(c, p.len());
    assert forall|p: Seq<char>| #[trigger] rank(p) <= c.len() by {
        lemma_keys_at_least_mono(c, p.len(), p.len());
    }
    assert forall|p: Seq<char>, j: int|
        (lookup(c, p) matches Some(Ok(es)) && 0 <= j < es.len() && es[j].is_dir) implies rank(
            #[trigger] lookup(c, p)->Some_0->Ok_0[j].path,
        ) < rank(p) by {
        lemma_lookup_index(c, p);
        let i = choose|i: int| 0 <= i < c.len() && (#[trigger] c[i]).0 == p && c[i].1 == lookup(c, p)->0;
        let es = lookup(c, p)->Some_0->Ok_0;
        assert(c[i].1->Ok_0[j] == es[j]);
        assert(es[j].path.len() > p.len());
        lemma_keys_at_least(c, p.len(), es[j].path.len(), i);
    }
    assert(ranked(c, rank));
    assert(bounded_rank(c, rank));
}

/// Along two measures that both fall, the rows of listed entries agree.
proof fn lemma_list_rows_agree(
    c: Seq<(Seq<char>, Result<Seq<EntryView>, Seq<char>>)>,
    ex: Seq<Seq<char>>,
    p: Seq<char>,
    es: Seq<EntryView>,
    k: int,
    depth: u32,
    r1: spec_fn(Seq<char>) -> nat,
    r2: spec_fn(Seq<char>) -> nat,
)
    requires
        ranked(c, r1),
        ranked(c, r2),
        lookup(c, p) == Some(Ok::<Seq<EntryView>, Seq<char>>(es)),
        0 <= k <= es.len(),
    ensures
        list_rows(c, ex, es.take(k), depth, r1, r1(p)) == list_rows(c, ex, es.take(k), depth, r2, r2(p)),
    decreases r1(p), 0nat, k,
{
    if k > 0 {
        assert(es.take(k).drop_last() =~= es.take(k - 1));
        lemma_list_rows_agree(c, ex, p, es, k - 1, depth, r1, r2);
        let e = es[k - 1];
        assert(es.take(k).last() == e);
        assert(list_rows(c, ex, es.take(k), depth, r1, r1(p)) == list_rows(c, ex, es.take(k - 1), depth, r1, r1(p))
            + entry_rows(c, ex, e, depth, r1, r1(p)));
        assert(list_rows(c, ex, es.take(k), depth, r2, r2(p)) == list_rows(c, ex, es.take(k - 1), depth, r2, r2(p))
            + entry_rows(c, ex, e, depth, r2, r2(p)));
        if e.is_dir && ex.contains(e.path) {
            assert(lookup(c, p)->Some_0->Ok_0[k - 1] == e);
            assert(r1(e.path) < r1(p));
            assert(r2(e.path) < r2(p));
            lemma_tree_rows_agree(c, ex, e.path, (depth + 1) as u32, r1, r2);
            assert(entry_rows(c, ex, e, depth, r1, r1(p)) == entry_rows(c, ex, e, depth, r2, r2(p)));
        } else {
            assert(entry_rows(c, ex, e, depth, r1, r1(p)) =~= seq![(e, depth)]);
            assert(entry_rows(c, ex, e, depth, r2, r2(p)) =~= seq![(e, depth)]);
        }
    }
}

/// Along two measures that both fall, the rows under a directory agree.
proof fn lemma_tree_rows_agree(
    c: Seq<(Seq<char>, Result<Seq<EntryView>, Seq<char>>)>,
    ex: Seq<Seq<char>>,
    p: Seq<char>,
    depth: u32,
    r1: spec_fn(Seq<char>) -> nat,
    r2: spec_fn(Seq<char>) -> nat,
)
    requires
        ranked(c, r1),
        ranked(c, r2),
    ensures
        tree_rows(c, ex, p, depth, r1) == tree_rows(c, ex, p, depth, r2),
    decreases r1(p), 1nat, 0nat,
{
    match lookup(c, p) {
        Some(Ok(es)) => {
            lemma_list_rows_agree(c, ex, p, es, es.len() as int, depth, r1, r2);
            assert(es.take(es.len() as int) =~= es);
        },
        _ => {},
    }
}

/// The rows of an acyclic cache do not depend on the measure: every
/// directory opened is walked, as far as the listings go.
pub proof fn law_rows_any_measure(
    c: Seq<(Seq<char>, Result<Seq<EntryView>, Seq<char>>)>,
    ex: Seq<Seq<char>>,
    root: Seq<char>,
    rank: spec_fn(Seq<char>) -> nat,
)
    requires
        ranked(c, rank),
        acyclic(c),
    ensures
        visible_rows(c, ex, root) == tree_rows(c, ex, root, 0, rank),
{
    lemma_tree_rows_agree(c, ex, root, 0, some_rank(c), rank);
}

pub open spec fn rows_view(v: Seq<(FsEntryDto, u32)>) -> Seq<RowView> {
    v.map_values(|r: (FsEntryDto, u32)| (r.0@, r.1))
}

/// Appends the rows under `parent`.
fn walk_rows(
    cache: &DirCache,
    expanded: &Vec<String>,
    parent: &str,
    depth: u32,
    out: &mut Vec<(FsEntryDto, u32)>,
    Ghost(rank): Ghost<spec_fn(Seq<char>) -> nat>,
)
    requires
        ranked(cache@, rank),
        depth + rank(parent@) <= u32::MAX,
    ensures
        rows_view(final(out)@) == rows_view(old(out)@) + tree_rows(
            cache@,
            crate::llm_enabled::ids(expanded@),
            parent@,
            depth,
            rank,
        ),
    decreases rank(parent@),
{
    let ghost ex = crate::llm_enabled::ids(expanded@);
    let ghost start = rows_view(out@);
    let pos = position_of(cache, parent);
    match pos {
        Some(i) => {
            assert(cache@[i as int].1 == listing_view(cache.dirs@[i as int].1));
            match &cache.dirs[i].1 {
                Ok(es) => {
                    let ghost bound = rank(parent@);
                    let ghost esv = entries_view(es@);
                    assert(lookup(cache@, parent@) == Some(Ok::<Seq<EntryView>, Seq<char>>(esv)));
                    let mut k: usize = 0;
                    while k < es.len()
                        invariant
                            k <= es@.len(),
                            esv == entries_view(es@),
                            lookup(cache@, parent@) == Some(Ok::<Seq<EntryView>, Seq<char>>(esv)),
                            ranked(cache@, rank),
                            bound == rank(parent@),
                            depth + bound <= u32::MAX,
                            ex == crate::llm_enabled::ids(expanded@),
                            rows_view(out@) == start + list_rows(cache@, ex, esv.take(k as int), depth, rank, bound),
                        decreases es.len() - k,
                    {
                        let e = &es[k];
                        assert(esv[k as int] == e@);
                        proof {
                            assert(esv.take(k as int + 1).drop_last() =~= esv.take(k as int));
                        }
                        let ghost before = rows_view(out@);
                        out.push((copy_entry(e), depth));
                        assert(rows_view(out@) =~= before.push((e@, depth)));
                        if e.is_dir && crate::llm_enabled::contains_id(expanded, e.path.as_str()) {
                            proof {
                                assert(lookup(cache@, parent@)->Some_0->Ok_0[k as int] == e@);
                                assert(rank(e@.path) < rank(parent@));
                            }
                            walk_rows(cache, expanded, e.path.as_str(), depth + 1, out, Ghost(rank));
                            proof {
                                assert(rows_view(out@) =~= before + entry_rows(cache@, ex, e@, depth, rank, bound));
                            }
                        } else {
                            assert(rows_view(out@) =~= before + entry_rows(cache@, ex, e@, depth, rank, bound));
                        }
                        k += 1;
                    }
                    assert(esv.take(es@.len() as int) =~= esv);
                },
                Err(_) => {
                    assert(rows_view(out@) =~= start + tree_rows(cache@, ex, parent@, depth, rank));
                },
            }
        },
        None => {
            assert(rows_view(out@) =~= start + tree_rows(cache@, ex, parent@, depth, rank));
        },
    }
}

/// The rows of the file tree: each listed entry with its depth (`0` under the
/// root), an open directory's entries right after it. The listings must hold
/// no cycle, as real listings never do.
pub fn fs_visible_rows(root: &str, expanded: &Vec<String>, cache: &DirCache) -> (r: Vec<(FsEntryDto, u32)>)
    requires
        acyclic(cache@),
        cache@.len() <= u32::MAX,
    ensures
        rows_view(r@) == visible_rows(cache@, crate::llm_enabled::ids(expanded@), root@),
{
    let mut out: Vec<(FsEntryDto, u32)> = Vec::new();
    let ghost rank = some_rank(cache@);
    walk_rows(cache, expanded, root, 0, &mut out, Ghost(rank));
    assert(rows_view(Seq::<(FsEntryDto, u32)>::empty()) =~= Seq::<RowView>::empty());
    out
}

// ---------------------------------------------------------------------------
// Selection, creation and revealing
// ---------------------------------------------------------------------------

/// What the cache says of whether `path` is a directory: the root is one; an
/// entry listed under `parent` says so; `None` when the cache does not know.
pub open spec fn cached_is_dir(
    c: Seq<(Seq<char>, Result<Seq<EntryView>, Seq<char>>)>,
    path: Seq<char>,
    root: Seq<char>,
    parent: Seq<char>,
) -> Option<bool> {
    if path == root {
        Some(true)
    } else {
        match lookup(c, parent) {
            Some(Ok(es)) => if exists|j: int| 0 <= j < es.len() && (#[trigger] es[j]).path == path {
                Some(es[first_entry(es, path)].is_dir)
            } else {
                None
            },
            _ => None,
        }
    }
}

/// Index of the first entry with path `path`.
pub open spec fn first_entry(es: Seq<EntryView>, path: Seq<char>) -> int
    decreases es.len(),
{
    if es.len() == 0 {
        0
    } else if es[0].path == path {
        0
    } else {
        first_entry(es.drop_first(), path) + 1
    }
}

/// The cache knows `path`'s kind from the first entry for it in its parent's
/// listing.
proof fn lemma_cached_is_dir_at(
    c: Seq<(Seq<char>, Result<Seq<EntryView>, Seq<char>>)>,
    path: Seq<char>,
    root: Seq<char>,
    parent: Seq<char>,
    es: Seq<EntryView>,
    j: int,
)
    requires
        path != root,
        lookup(c, parent) == Some(Ok::<Seq<EntryView>, Seq<char>>(es)),
        0 <= j < es.len(),
        es[j].path == path,
        first_entry(es, path) == j,
    ensures
        cached_is_dir(c, path, root, parent) == Some(es[j].is_dir),
{
    assert(exists|q: int| 0 <= q < es.len() && (#[trigger] es[q]).path == path);
}

/// Whether the cache knows `path` to be a directory, given its parent
/// directory (`parent`, the root when it has none).
pub fn entry_is_dir_in(cache: &DirCache, path: &str, root: &str, parent: &str) -> (r: Option<bool>)
    ensures
        r == cached_is_dir(cache@, path@, root@, parent@),
{
    if str_eq(path, root) {
        return Some(true);
    }
    match position_of(cache, parent) {
        Some(i) => {
            assert(cache@[i as int].1 == listing_view(cache.dirs@[i as int].1));
            match &cache.dirs[i].1 {
                Ok(es) => {
                    let ghost esv = entries_view(es@);
                    assert(esv.skip(0) =~= esv);
                    let mut j: usize = 0;
                    while j < es.len()
                        invariant
                            j <= es@.len(),
                            esv == entries_view(es@),
                            path@ != root@,
                            lookup(cache@, parent@) == Some(Ok::<Seq<EntryView>, Seq<char>>(esv)),
                            forall|q: int| 0 <= q < j ==> (#[trigger] esv[q]).path != path@,
                            first_entry(esv, path@) == j + first_entry(esv.skip(j as int), path@),
                        decreases es.len() - j,
                    {
                        assert(esv[j as int] == es@[j as int]@);
                        if str_eq(es[j].path.as_str(), path) {
                            assert(esv.skip(j as int)[0] == esv[j as int]);
                            assert(first_entry(esv.skip(j as int), path@) == 0);
                            assert(first_entry(esv, path@) == j);
                            assert(esv[j as int].path == path@);
                            assert(exists|q: int| 0 <= q < esv.len() && (#[trigger] esv[q]).path == path@);
                            proof { lemma_cached_is_dir_at(cache@, path@, root@, parent@, esv, j as int); }
                            return Some(es[j].is_dir);
                        }
                        assert(esv.skip(j as int).drop_first() =~= esv.skip(j as int + 1));
                        j += 1;
                    }
                    None
                },
                Err(_) => None,
            }
        },
        None => None,
    }
}

/// Whether the cache knows `path` to be a directory (`None`: look on disk).
pub fn entry_is_dir(cache: &DirCache, path: &str, root: &str) -> (r: Option<bool>)
    ensures
        path@ == root@ ==> r == Some(true),
        clean_path(path@) ==> r == cached_is_dir(
            cache@,
            path@,
            root@,
            match parent_of(path@) {
                Some(p) => p,
                None => root@,
            },
        ),
{
    if str_eq(path, root) {
        return Some(true);
    }
    let parent = match path_parent(path) {
        Some(p) => p,
        None => root.to_string(),
    };
    entry_is_dir_in(cache, path, root, parent.as_str())
}

/// Where the tree creates a new entry, given the parent directory of the
/// selection (`parent`): the root with nothing selected, the selection when it
/// is a directory, else its parent when that is not empty, else the root.
pub fn create_parent_from(selected: &Option<String>, root: &str, selected_is_dir: bool, parent: Option<String>) -> (r: String)
    ensures
        r@ == match selected {
            None => root@,
            Some(s) => if selected_is_dir {
                s@
            } else {
                match parent {
                    Some(p) => if p@.len() > 0 {
                        p@
                    } else {
                        root@
                    },
                    None => root@,
                }
            },
        },
{
    match selected {
        None => root.to_string(),
        Some(s) => if selected_is_dir {
            s.clone()
        } else {
            match parent {
                Some(p) => if !p.as_str().is_empty() {
                    p
                } else {
                    root.to_string()
                },
                None => root.to_string(),
            }
        },
    }
}

/// Where the tree creates a new entry for the selection: the root with
/// nothing selected, a selected folder itself, and for a selected file with
/// a clean path its parent folder (the root when that is empty or missing).
pub fn resolve_create_parent(selected: &Option<String>, root: &str, selected_is_dir: bool) -> (r: String)
    ensures
        selected is None ==> r@ == root@,
        selected_is_dir ==> (selected matches Some(s) ==> r@ == s@),
        (selected matches Some(s) && !selected_is_dir && clean_path(s@)) ==> r@ == match parent_of(
            selected->0@,
        ) {
            Some(p) => if p.len() > 0 {
                p
            } else {
                root@
            },
            None => root@,
        },
{
    let parent = match selected {
        Some(s) => path_parent(s.as_str()),
        None => None,
    };
    create_parent_from(selected, root, selected_is_dir, parent)
}

/// The directories to open so that `path` shows in the tree: each ancestor
/// below the root, outermost first (the last component itself is not
/// opened). Empty when `path` is not under `root`. For clean paths: one
/// directory for each name of the part under the root but the last, each
/// the previous one (the root first) with that name joined on. On any path
/// the folders are those [`reveal_dirs`] picks from the joins of the
/// components.
pub fn fs_reveal_in_tree(root: &str, path: &str) -> (r: Vec<String>)
    ensures
        (root@.len() == 0 || path@.len() == 0) ==> r@.len() == 0,
        clean_path(root@) && clean_path(path@) ==> match stripped_of(root@, path@) {
            None => r@.len() == 0,
            Some(rest) => if rest.len() == 0 {
                r@.len() == 0
            } else {
                &&& r@.len() + 1 == split_char(rest, '/').len()
                &&& forall|i: int|
                    0 <= i < r@.len() ==> joined_onto(
                        if i == 0 {
                            root@
                        } else {
                            r@[i - 1]@
                        },
                        split_char(rest, '/')[i],
                        #[trigger] r@[i]@,
                    )
            },
        },
{
    let out: Vec<String> = Vec::new();
    proof {
        if clean_path(root@) && clean_path(path@) {
            crate::paths::lemma_clean_is_plain_base(root@);
            crate::paths::lemma_clean_is_plain_base(path@);
        }
    }
    if root.is_empty() || path.is_empty() {
        return out;
    }
    let rel = match strip_root(root, path) {
        Some(r) => r,
        None => {
            return out;
        },
    };
    let ghost clean = clean_path(root@) && clean_path(path@);
    proof {
        if clean && rel@.len() > 0 {
            crate::paths::lemma_stripped_clean(root@, path@);
            crate::paths::lemma_clean_is_plain_base(root@);
        }
    }
    let comps = path_components(rel.as_str());
    let ghost segs = split_char(rel@, '/');
    proof {
        crate::text::lemma_split_char_len(rel@, '/');
        assert(strings(comps@).len() == comps@.len());
    }
    if comps.len() == 0 {
        return out;
    }
    proof {
        if clean {
            assert forall|k: int| 0 <= k < comps@.len() implies comps@[k]@ == segs[k] && plain_name(
                #[trigger] comps@[k]@,
            ) by {
                assert(strings(comps@)[k] == comps@[k]@);
                assert(plain_name(split_char(rel@, '/')[k]));
            }
        }
    }
    let mut acc = root.to_string();
    let mut prefixes: Vec<String> = Vec::new();
    let mut i: usize = 0;
    while i < comps.len()
        invariant
            i <= comps@.len(),
            prefixes@.len() == i,
            clean ==> comps@.len() == segs.len() && plain_base(acc@),
            clean ==> forall|k: int| 0 <= k < comps@.len() ==> comps@[k]@ == segs[k] && plain_name(
                #[trigger] comps@[k]@,
            ),
            acc@ == (if i == 0 {
                root@
            } else {
                prefixes@[i - 1]@
            }),
            clean ==> forall|k: int|
                0 <= k < i ==> joined_onto(
                    if k == 0 {
                        root@
                    } else {
                        prefixes@[k - 1]@
                    },
                    segs[k],
                    #[trigger] prefixes@[k]@,
                ),
        decreases comps.len() - i,
    {
        proof {
            if clean {
                assert(plain_name(comps@[i as int]@));
            }
        }
        let next = join_path(acc.as_str(), comps[i].as_str());
        proof {
            if clean {
                crate::paths::lemma_join_keeps_base(acc@, comps@[i as int]@, next@);
            }
        }
        acc = next.clone();
        prefixes.push(next);
        i += 1;
    }
    reveal_dirs(&comps, prefixes)
}

/// The folders to open so that a file shows in the tree, given the
/// components of its path under the root and their successive joins onto the
/// root (`prefixes[i]` is the root with the components up to `i` joined on):
/// one folder per component but the last, outermost first.
pub fn reveal_dirs(comps: &Vec<String>, prefixes: Vec<String>) -> (r: Vec<String>)
    requires
        prefixes@.len() == comps@.len(),
    ensures
        comps@.len() == 0 ==> r@.len() == 0,
        comps@.len() > 0 ==> r@.len() + 1 == comps@.len() && r@ == prefixes@.take(comps@.len() - 1),
{
    let mut prefixes = prefixes;
    if prefixes.len() > 0 {
        let ghost before = prefixes@;
        prefixes.pop();
        assert(prefixes@ =~= before.take(before.len() - 1));
    }
    prefixes
}


// ---------------------------------------------------------------------------
// Editor helpers
// ---------------------------------------------------------------------------

/// The line (from 1) where `needle` first occurs in `haystack`.
pub open spec fn needle_line(haystack: Seq<char>, needle: Seq<char>) -> Option<u32> {
    if needle.len() == 0 {
        None
    } else {
        match find(haystack, needle) {
            Some(k) => Some((count_char(haystack.take(k), '\n') + 1) as u32),
            None => None,
        }
    }
}

/// The line (from 1) where `needle` first occurs in `haystack`.
pub fn line_number_at_needle(haystack: &str, needle: &str) -> (r: Option<u32>)
    requires
        haystack@.len() < u32::MAX,
    ensures
        r == needle_line(haystack@, needle@),
{
    let n = chars_of(needle);
    if n.len() == 0 {
        return None;
    }
    let h = chars_of(haystack);
    proof {
        lemma_find(h@, n@);
    }
    match find_exec(&h, &n) {
        Some(k) => {
            let before = chars_of(crate::text::string_of_range(&h, 0, k).as_str());
            assert(before@ =~= h@.take(k as int));
            let c = count_char_exec(&before, '\n');
            proof {
                lemma_count_char_len(before@, '\n');
            }
            Some(c as u32 + 1)
        },
        None => None,
    }
}

proof fn lemma_count_char_len(s: Seq<char>, c: char)
    ensures
        count_char(s, c) <= s.len(),
    decreases s.len(),
{
    if s.len() > 0 {
        lemma_count_char_len(s.drop_last(), c);
    }
}

/// The line an edit snippet starts at in the file's text (`None` when the
/// file could not be read): where the old text is, else where the new text
/// is, else `1`.
pub fn snippet_start_line(content: &Option<String>, old_text: &str, new_text: &str) -> (r: u32)
    requires
        content matches Some(c) ==> c@.len() < u32::MAX,
    ensures
        r == match content {
            None => 1,
            Some(c) => match needle_line(c@, old_text@) {
                Some(n) => n,
                None => match needle_line(c@, new_text@) {
                    Some(n) => n,
                    None => 1,
                },
            },
        },
{
    match content {
        None => 1,
        Some(c) => match line_number_at_needle(c.as_str(), old_text) {
            Some(n) => n,
            None => match line_number_at_needle(c.as_str(), new_text) {
                Some(n) => n,
                None => 1,
            },
        },
    }
}

// ---------------------------------------------------------------------------
// The phone frame of the HTML preview
// ---------------------------------------------------------------------------

/// The smallest and largest phone frame.
pub const HTML_PREVIEW_PHONE_MIN_W: i32 = 240;
pub const HTML_PREVIEW_PHONE_MIN_H: i32 = 320;
pub const HTML_PREVIEW_PHONE_MAX_W: i32 = 720;
pub const HTML_PREVIEW_PHONE_MAX_H: i32 = 1400;

/// The edge or corner of the phone frame being dragged.
#[derive(Clone, Copy, Debug, PartialEq, Eq, Structural)]
pub enum HtmlPreviewResizeEdge {
    N,
    S,
    E,
    W,
    Ne,
    Nw,
    Se,
    Sw,
}

/// Dragging this edge moves the right side.
pub open spec fn moves_east(e: HtmlPreviewResizeEdge) -> bool {
    e == HtmlPreviewResizeEdge::E || e == HtmlPreviewResizeEdge::Ne || e == HtmlPreviewResizeEdge::Se
}

pub open spec fn moves_west(e: HtmlPreviewResizeEdge) -> bool {
    e == HtmlPreviewResizeEdge::W || e == HtmlPreviewResizeEdge::Nw || e == HtmlPreviewResizeEdge::Sw
}

pub open spec fn moves_south(e: HtmlPreviewResizeEdge) -> bool {
    e == HtmlPreviewResizeEdge::S || e == HtmlPreviewResizeEdge::Se || e == HtmlPreviewResizeEdge::Sw
}

pub open spec fn moves_north(e: HtmlPreviewResizeEdge) -> bool {
    e == HtmlPreviewResizeEdge::N || e == HtmlPreviewResizeEdge::Ne || e == HtmlPreviewResizeEdge::Nw
}

pub open spec fn clamp_int(x: int, lo: int, hi: int) -> int {
    if x < lo {
        lo
    } else if x > hi {
        hi
    } else {
        x
    }
}

/// The frame size after dragging `edge` by `dx`, `dy` device pixels from
/// `start_w` × `start_h`, kept within the smallest and largest frame.
pub open spec fn resized(edge: HtmlPreviewResizeEdge, start_w: int, start_h: int, dx: int, dy: int) -> (int, int) {
    let w = if moves_east(edge) {
        start_w + dx
    } else if moves_west(edge) {
        start_w - dx
    } else {
        start_w
    };
    let h = if moves_south(edge) {
        start_h + dy
    } else if moves_north(edge) {
        start_h - dy
    } else {
        start_h
    };
    (
        clamp_int(w, HTML_PREVIEW_PHONE_MIN_W as int, HTML_PREVIEW_PHONE_MAX_W as int),
        clamp_int(h, HTML_PREVIEW_PHONE_MIN_H as int, HTML_PREVIEW_PHONE_MAX_H as int),
    )
}

/// The frame size after a drag by `dx`, `dy` device pixels.
pub fn html_preview_apply_resize(edge: HtmlPreviewResizeEdge, start_w: i32, start_h: i32, dx: i32, dy: i32) -> (r: (i32, i32))
    requires
        moves_east(edge) ==> i32::MIN <= start_w + dx <= i32::MAX,
        moves_west(edge) ==> i32::MIN <= start_w - dx <= i32::MAX,
        moves_south(edge) ==> i32::MIN <= start_h + dy <= i32::MAX,
        moves_north(edge) ==> i32::MIN <= start_h - dy <= i32::MAX,
    ensures
        r.0 == resized(edge, start_w as int, start_h as int, dx as int, dy as int).0,
        r.1 == resized(edge, start_w as int, start_h as int, dx as int, dy as int).1,
{
    let mut w = start_w;
    let mut h = start_h;
    match edge {
        HtmlPreviewResizeEdge::E | HtmlPreviewResizeEdge::Ne | HtmlPreviewResizeEdge::Se => {
            w = start_w + dx;
        },
        HtmlPreviewResizeEdge::W | HtmlPreviewResizeEdge::Nw | HtmlPreviewResizeEdge::Sw => {
            w = start_w - dx;
        },
        _ => {},
    }
    match edge {
        HtmlPreviewResizeEdge::S | HtmlPreviewResizeEdge::Se | HtmlPreviewResizeEdge::Sw => {
            h = start_h + dy;
        },
        HtmlPreviewResizeEdge::N | HtmlPreviewResizeEdge::Ne | HtmlPreviewResizeEdge::Nw => {
            h = start_h - dy;
        },
        _ => {},
    }
    let cw = if w < HTML_PREVIEW_PHONE_MIN_W {
        HTML_PREVIEW_PHONE_MIN_W
    } else if w > HTML_PREVIEW_PHONE_MAX_W {
        HTML_PREVIEW_PHONE_MAX_W
    } else {
        w
    };
    let ch = if h < HTML_PREVIEW_PHONE_MIN_H {
        HTML_PREVIEW_PHONE_MIN_H
    } else if h > HTML_PREVIEW_PHONE_MAX_H {
        HTML_PREVIEW_PHONE_MAX_H
    } else {
        h
    };
    (cw, ch)
}

/// The handles of the phone frame: their CSS suffix and the edge each drags.
pub fn html_preview_resize_handles() -> (r: Vec<(&'static str, HtmlPreviewResizeEdge)>)
    ensures
        r@.len() == 8,
        r@[0].1 == HtmlPreviewResizeEdge::N && r@[1].1 == HtmlPreviewResizeEdge::S
            && r@[2].1 == HtmlPreviewResizeEdge::E && r@[3].1 == HtmlPreviewResizeEdge::W
            && r@[4].1 == HtmlPreviewResizeEdge::Ne && r@[5].1 == HtmlPreviewResizeEdge::Nw
            && r@[6].1 == HtmlPreviewResizeEdge::Se && r@[7].1 == HtmlPreviewResizeEdge::Sw,
        r@[0].0@ == "n"@ && r@[1].0@ == "s"@ && r@[2].0@ == "e"@ && r@[3].0@ == "w"@ && r@[4].0@
            == "ne"@ && r@[5].0@ == "nw"@ && r@[6].0@ == "se"@ && r@[7].0@ == "sw"@,
{
    let mut v: Vec<(&'static str, HtmlPreviewResizeEdge)> = Vec::new();
    v.push(("n", HtmlPreviewResizeEdge::N));
    v.push(("s", HtmlPreviewResizeEdge::S));
    v.push(("e", HtmlPreviewResizeEdge::E));
    v.push(("w", HtmlPreviewResizeEdge::W));
    v.push(("ne", HtmlPreviewResizeEdge::Ne));
    v.push(("nw", HtmlPreviewResizeEdge::Nw));
    v.push(("se", HtmlPreviewResizeEdge::Se));
    v.push(("sw", HtmlPreviewResizeEdge::Sw));
    v
}

/// The phone models the preview offers: name, width and height.
pub fn html_preview_phone_models() -> (r: Vec<(&'static str, i32, i32)>)
    ensures
        r@.len() == 5,
        forall|i: int| 0 <= i < 5 ==> HTML_PREVIEW_PHONE_MIN_W <= (#[trigger] r@[i]).1 <= HTML_PREVIEW_PHONE_MAX_W
            && HTML_PREVIEW_PHONE_MIN_H <= r@[i].2 <= HTML_PREVIEW_PHONE_MAX_H,
        r@[0].1 == 393 && r@[0].2 == 852,
        r@[1].1 == 375 && r@[1].2 == 667,
        r@[2].1 == 412 && r@[2].2 == 915,
        r@[3].1 == 360 && r@[3].2 == 800,
        r@[4].1 == 390 && r@[4].2 == 844,
{
    let mut v: Vec<(&'static str, i32, i32)> = Vec::new();
    v.push(("苹果 iPhone 16 Pro", 393, 852));
    v.push(("苹果 iPhone SE", 375, 667));
    v.push(("谷歌 Pixel 8", 412, 915));
    v.push(("常见 Android 360", 360, 800));
    v.push(("常见 Android 390", 390, 844));
    v
}

// ---------------------------------------------------------------------------
// Laws
// ---------------------------------------------------------------------------

/// Whatever the drag, the phone frame stays between its smallest and largest
/// size.
pub proof fn law_resize_within_bounds(edge: HtmlPreviewResizeEdge, start_w: int, start_h: int, dx: int, dy: int)
    ensures
        HTML_PREVIEW_PHONE_MIN_W <= resized(edge, start_w, start_h, dx, dy).0 <= HTML_PREVIEW_PHONE_MAX_W,
        HTML_PREVIEW_PHONE_MIN_H <= resized(edge, start_w, start_h, dx, dy).1 <= HTML_PREVIEW_PHONE_MAX_H,
{
}

/// The address a file is opened at in the system browser: a web address as
/// it is, any other path as a `file://` address.
pub open spec fn browser_url_of(path: Seq<char>) -> Seq<char> {
    if crate::text::starts_with(path, "http://"@) || crate::text::starts_with(path, "https://"@) {
        path
    } else {
        "file://"@ + path
    }
}

/// The address `path` is opened at in the system browser.
pub fn fs_browser_url(path: &str) -> (r: String)
    ensures
        r@ == browser_url_of(path@),
{
    if crate::text::str_starts_with(path, "http://") || crate::text::str_starts_with(path, "https://") {
        path.to_string()
    } else {
        crate::text::concat("file://", path)
    }
}

// ---------------------------------------------------------------------------
// After scaffolding an extension or an application
// ---------------------------------------------------------------------------

/// What the file tree does after an extension was scaffolded.
pub struct CreatedPlugin {
    /// Folders to expand: the workspace root and its `extension` folder.
    pub expand: Vec<String>,
    /// Folders to list again: those two and the new extension's.
    pub reload: Vec<String>,
    /// The row to select: the new extension.
    pub select: String,
    /// The success notice, with the path relative to the workspace.
    pub notice: String,
}

/// What the tree does after an extension was scaffolded at `plugin_path`,
/// given the `extension` folder of the workspace and the extension's path
/// relative to the workspace (`None` when it lies elsewhere).
pub fn created_plugin_from(root: &str, plugin_path: &str, extension_dir: String, relative: Option<String>) -> (r: CreatedPlugin)
    ensures
        r.expand@.map_values(|s: String| s@) == seq![root@, extension_dir@],
        r.reload@.map_values(|s: String| s@) == seq![root@, extension_dir@, plugin_path@],
        r.select@ == plugin_path@,
        r.notice@ == "已创建插件："@ + crate::search::forward_slashes(
            match relative {
                Some(q) => q@,
                None => plugin_path@,
            },
        ),
{
    let shown = crate::search::rel_from(plugin_path, relative);
    let mut expand: Vec<String> = Vec::new();
    expand.push(root.to_string());
    expand.push(extension_dir.clone());
    let mut reload: Vec<String> = Vec::new();
    reload.push(root.to_string());
    reload.push(extension_dir);
    reload.push(plugin_path.to_string());
    assert(expand@.map_values(|s: String| s@) =~= seq![root@, expand@[1]@]);
    assert(reload@.map_values(|s: String| s@) =~= seq![root@, reload@[1]@, plugin_path@]);
    let notice = crate::text::concat("已创建插件：", shown.as_str());
    CreatedPlugin { expand, reload, select: plugin_path.to_string(), notice }
}

/// What the tree does after an extension was scaffolded at `plugin_path`:
/// the root and its `extension` folder are opened and listed again with the
/// new extension, which is selected; the notice shows its path under the
/// root (stated for clean paths).
pub fn created_extension_plugin(root: &str, plugin_path: &str) -> (r: CreatedPlugin)
    ensures
        r.select@ == plugin_path@,
        r.expand@.len() == 2 && r.expand@[0]@ == root@,
        r.reload@.len() == 3 && r.reload@[0]@ == root@ && r.reload@[2]@ == plugin_path@,
        r.reload@[1]@ == r.expand@[1]@,
        plain_base(root@) ==> joined_onto(root@, "extension"@, r.expand@[1]@),
        clean_path(root@) && clean_path(plugin_path@) ==> r.notice@ == "已创建插件："@
            + crate::search::forward_slashes(
            match stripped_of(root@, plugin_path@) {
                Some(q) => q,
                None => plugin_path@,
            },
        ),
{
    proof {
        reveal_strlit("extension");
        let e = "extension"@;
        assert(e.len() == 9);
        assert(e[0] == 'e' && e[1] == 'x' && e[2] == 't' && e[3] == 'e' && e[4] == 'n' && e[5] == 's'
            && e[6] == 'i' && e[7] == 'o' && e[8] == 'n');
        assert(e != seq!['.'] && e != seq!['.', '.']);
        assert(!e.contains('/') && !e.contains('\\') && !e.contains(':'));
        assert(plain_name(e));
    }
    let extension_dir = join_path(root, "extension");
    let relative = strip_root(root, plugin_path);
    let r = created_plugin_from(root, plugin_path, extension_dir, relative);
    proof {
        let ev = r.expand@.map_values(|s: String| s@);
        let rv = r.reload@.map_values(|s: String| s@);
        assert(ev.len() == 2 && rv.len() == 3);
        assert(ev[0] == r.expand@[0]@);
        assert(ev[1] == r.expand@[1]@);
        assert(rv[0] == r.reload@[0]@);
        assert(rv[1] == r.reload@[1]@);
        assert(rv[2] == r.reload@[2]@);
    }
    r
}

/// The notice after an application was scaffolded at `app_path` (`name` is
/// its folder's name) and opened as the project (`opened`): success names
/// it; a failure to open says so.  Returns whether it succeeded.
pub fn created_application_notice_from(app_path: &str, name: Option<String>, opened: &Result<String, String>) -> (r: (bool, String))
    ensures
        r.0 == opened is Ok,
        match opened {
            Ok(_) => r.1@ == "已创建并打开项目："@ + match name {
                Some(n) => n@,
                None => app_path@,
            },
            Err(e) => r.1@ == "已创建应用，但打开项目失败："@ + e@,
        },
{
    match opened {
        Ok(_) => {
            let shown = match name {
                Some(n) => n,
                None => app_path.to_string(),
            };
            (true, crate::text::concat("已创建并打开项目：", shown.as_str()))
        },
        Err(e) => (false, crate::text::concat("已创建应用，但打开项目失败：", e.as_str())),
    }
}

/// The notice after an application was scaffolded at `app_path` and opened
/// as the project (`opened`): on success it names the application's folder
/// (stated for a clean path), else it gives the reason.
pub fn created_application_notice(app_path: &str, opened: &Result<String, String>) -> (r: (bool, String))
    ensures
        r.0 == opened is Ok,
        opened matches Err(e) ==> r.1@ == "已创建应用，但打开项目失败："@ + e@,
        opened is Ok && clean_path(app_path@) ==> r.1@ == "已创建并打开项目："@ + match file_name_of(
            app_path@,
        ) {
            Some(n) => n,
            None => app_path@,
        },
{
    let name = path_file_name(app_path);
    created_application_notice_from(app_path, name, opened)
}

/// The workspace path a file link in the chat reveals: the tool path as
/// resolved under the root, else the link trimmed; empty when the link is
/// blank.
pub fn reveal_target(path: &str, root: &str) -> (r: String)
    ensures
        trim(path@).len() == 0 <==> r@.len() == 0,
        trim(path@).len() > 0 && root@.len() == 0 ==> r@ == trim(path@),
        trim(path@).len() > 0 && clean_relative(trim(path@)) && plain_base(root@) ==> joined_onto(
            root@,
            trim(path@),
            r@,
        ),
{
    let resolved = fs_resolve_tool_path(path, root);
    if resolved.as_str().is_empty() {
        trim_str(path)
    } else {
        resolved
    }
}

/// Whether no folder is listed twice in the cache (what its functions
/// keep).
pub fn keys_unique_dirs(cache: &DirCache) -> (r: bool)
    ensures
        r == keys_unique(cache@),
{
    let n = cache.dirs.len();
    let mut i: usize = 0;
    while i < n
        invariant
            n == cache@.len(),
            i <= n,
            forall|a: int, b: int| 0 <= a < b < n && a < i ==> (#[trigger] cache@[a]).0 != (#[trigger] cache@[b]).0,
        decreases n - i,
    {
        let mut j: usize = i + 1;
        while j < n
            invariant
                n == cache@.len(),
                i < n,
                i + 1 <= j <= n,
                forall|a: int, b: int| 0 <= a < b < n && a < i ==> (#[trigger] cache@[a]).0 != (#[trigger] cache@[b]).0,
                forall|b: int| i < b < j ==> (#[trigger] cache@[i as int]).0 != cache@[b].0,
            decreases n - j,
        {
            assert(cache@[i as int].0 == cache.dirs@[i as int].0@);
            assert(cache@[j as int].0 == cache.dirs@[j as int].0@);
            if str_eq(cache.dirs[i].0.as_str(), cache.dirs[j].0.as_str()) {
                return false;
            }
            j += 1;
        }
        i += 1;
    }
    true
}

/// Whether every listed sub-folder has a longer path than the folder that
/// lists it (see [`listings_nested`]; real listings are so). When it holds,
/// the listings hold no cycle, as [`fs_visible_rows`] asks.
pub fn cache_listings_nested(cache: &DirCache) -> (r: bool)
    ensures
        r == listings_nested(cache@),
        r ==> acyclic(cache@),
{
    let n = cache.dirs.len();
    let mut i: usize = 0;
    while i < n
        invariant
            n == cache@.len(),
            i <= n,
            forall|a: int, b: int|
                0 <= a < i && (#[trigger] cache@[a]).1 is Ok && 0 <= b < cache@[a].1->Ok_0.len() && (
                #[trigger] cache@[a].1->Ok_0[b]).is_dir ==> cache@[a].1->Ok_0[b].path.len()
                    > cache@[a].0.len(),
        decreases n - i,
    {
        match &cache.dirs[i].1 {
            Ok(entries) => {
                let dir_len = chars_of(cache.dirs[i].0.as_str()).len();
                assert(cache@[i as int].1->Ok_0 == entries_view(entries@));
                let mut j: usize = 0;
                while j < entries.len()
                    invariant
                        n == cache@.len(),
                        i < n,
                        j <= entries@.len(),
                        cache@[i as int].1 is Ok,
                        cache@[i as int].1->Ok_0 == entries_view(entries@),
                        dir_len == cache@[i as int].0.len(),
                        forall|a: int, b: int|
                            0 <= a < i && (#[trigger] cache@[a]).1 is Ok && 0 <= b < cache@[a].1->Ok_0.len() && (
                            #[trigger] cache@[a].1->Ok_0[b]).is_dir ==> cache@[a].1->Ok_0[b].path.len()
                                > cache@[a].0.len(),
                        forall|b: int|
                            0 <= b < j && (#[trigger] entries_view(entries@)[b]).is_dir ==> entries_view(entries@)[b].path.len()
                                > dir_len,
                    decreases entries.len() - j,
                {
                    assert(entries_view(entries@)[j as int] == entries@[j as int]@);
                    if entries[j].is_dir && chars_of(entries[j].path.as_str()).len() <= dir_len {
                        return false;
                    }
                    j += 1;
                }
            },
            Err(_) => {},
        }
        i += 1;
    }
    proof {
        lemma_nested_is_acyclic(cache@);
    }
    true
}

} // verus!
